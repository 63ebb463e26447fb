//! What the store's operations promise together: a note reads back as it
//! was saved, a deleted note is gone, ids stay distinct, and every
//! operation keeps the index well formed.
use vstd::prelude::*;
use crate::clock::Timestamp;
use crate::index::{
    created_meta, distinct_ids, index_after_create, index_after_delete, index_after_update,
    index_wf, lemma_position_of, lemma_position_of_found, not_text, position_of, recategorized,
    updated_meta, with_category,
};
use crate::model::{IndexView, MetaView, RequestView};
use crate::paths::path_join;
use crate::store::{
    category_dir_of, note_path_of, category_names, index_with_category, index_without_category, name_position, renamed_index,
    replace_first,
};
use crate::notetext::has_forbidden;
use crate::strings::{lemma_trim_idempotent, trim};

verus! {

/// Reading a note right after it is created finds the entry that was
/// created, at the front of the index; the older entries follow in order.
pub proof fn lemma_read_after_create(ix: IndexView, req: RequestView, id: Seq<char>, now: Timestamp)
    ensures
        ({
            let m = created_meta(req, id, now);
            let after = index_after_create(ix, m);
            &&& position_of(after.notes, id) == Some(0int)
            &&& after.notes[0] == m
            &&& after.notes.len() == ix.notes.len() + 1
            &&& forall|j: int| 0 <= j < ix.notes.len() ==> after.notes[j + 1] == ix.notes[j]
        }),
{
}

/// Reading a note right after it is saved over finds it where it was,
/// with what was saved; its id, file name and creation time are kept,
/// and no other entry changes.
pub proof fn lemma_read_after_update(ix: IndexView, id: Seq<char>, req: RequestView, now: Timestamp)
    requires
        position_of(ix.notes, id) is Some,
    ensures
        ({
            let i = position_of(ix.notes, id)->0;
            let m = updated_meta(ix.notes[i], req, now);
            let after = index_after_update(ix, i, m);
            &&& position_of(after.notes, id) == Some(i)
            &&& after.notes[i] == m
            &&& m.id == id
            &&& m.file_name == ix.notes[i].file_name
            &&& m.created_at == ix.notes[i].created_at
            &&& after.notes.len() == ix.notes.len()
            &&& forall|j: int| 0 <= j < ix.notes.len() && j != i ==> after.notes[j] == ix.notes[j]
        }),
{
    lemma_position_of_found(ix.notes, id);
    let i = position_of(ix.notes, id)->0;
    let m = updated_meta(ix.notes[i], req, now);
    let after = index_after_update(ix, i, m);
    assert forall|j: int| 0 <= j < i implies (#[trigger] after.notes[j]).id != id by {
        assert(after.notes[j] == ix.notes[j]);
    }
    lemma_position_of(after.notes, id, i);
}

/// A save records its time: the saved entry is updated at the time of the
/// save, whatever time it had, and keeps its creation time; a new note is
/// created and updated at the time it is created. So, saved later than
/// every other entry, it lists first.
pub proof fn lemma_save_records_time(
    ix: IndexView,
    i: int,
    req: RequestView,
    id: Seq<char>,
    now: Timestamp,
)
    requires
        0 <= i < ix.notes.len(),
    ensures
        updated_meta(ix.notes[i], req, now).updated_at == now,
        updated_meta(ix.notes[i], req, now).created_at == ix.notes[i].created_at,
        index_after_update(ix, i, updated_meta(ix.notes[i], req, now)).notes[i].updated_at == now,
        created_meta(req, id, now).created_at == now,
        created_meta(req, id, now).updated_at == now,
        index_after_create(ix, created_meta(req, id, now)).notes[0].updated_at == now,
{
}

/// Once a note is deleted it cannot be read again (the ids being
/// distinct); the other entries keep their order and stay distinct, and
/// the category list is unchanged.
pub proof fn lemma_read_after_delete(ix: IndexView, id: Seq<char>)
    requires
        distinct_ids(ix.notes),
        position_of(ix.notes, id) is Some,
    ensures
        ({
            let i = position_of(ix.notes, id)->0;
            let after = index_after_delete(ix, i);
            &&& position_of(after.notes, id) is None
            &&& after.notes.len() + 1 == ix.notes.len()
            &&& after.categories == ix.categories
            &&& forall|j: int| 0 <= j < i ==> after.notes[j] == ix.notes[j]
            &&& forall|j: int| i <= j < after.notes.len() ==> after.notes[j] == ix.notes[j + 1]
            &&& distinct_ids(after.notes)
        }),
{
    lemma_position_of_found(ix.notes, id);
    let i = position_of(ix.notes, id)->0;
    let after = index_after_delete(ix, i);
    assert forall|j: int| 0 <= j < after.notes.len() implies (#[trigger] after.notes[j]).id
        != id by {
        if j < i {
            assert(after.notes[j] == ix.notes[j]);
        } else {
            assert(after.notes[j] == ix.notes[j + 1]);
        }
    }
    lemma_position_of(after.notes, id, after.notes.len() as int);
    assert forall|a: int, b: int| 0 <= a < b < after.notes.len() implies (#[trigger] after.notes[a]).id
        != (#[trigger] after.notes[b]).id by {
        let a2 = if a < i { a } else { a + 1 };
        let b2 = if b < i { b } else { b + 1 };
        assert(after.notes[a] == ix.notes[a2]);
        assert(after.notes[b] == ix.notes[b2]);
    }
}

/// A note created under an id that no entry has keeps the ids distinct;
/// so does saving over a note, and moving notes between categories.
pub proof fn lemma_ids_stay_distinct(
    ix: IndexView,
    req: RequestView,
    id: Seq<char>,
    now: Timestamp,
    from: Seq<char>,
    to: Seq<char>,
)
    requires
        distinct_ids(ix.notes),
    ensures
        position_of(ix.notes, id) is None ==> distinct_ids(
            index_after_create(ix, created_meta(req, id, now)).notes,
        ),
        position_of(ix.notes, id) matches Some(i) ==> distinct_ids(
            index_after_update(ix, i, updated_meta(ix.notes[i], req, now)).notes,
        ),
        distinct_ids(recategorized(ix.notes, from, to)),
{
    lemma_position_of_found(ix.notes, id);
    let c = index_after_create(ix, created_meta(req, id, now)).notes;
    if position_of(ix.notes, id) is None {
        assert forall|a: int, b: int| 0 <= a < b < c.len() implies (#[trigger] c[a]).id != (
        #[trigger] c[b]).id by {
            assert(c[b] == ix.notes[b - 1]);
            if a > 0 {
                assert(c[a] == ix.notes[a - 1]);
            }
        }
    }
    if position_of(ix.notes, id) is Some {
        let i = position_of(ix.notes, id)->0;
        let u = index_after_update(ix, i, updated_meta(ix.notes[i], req, now)).notes;
        assert forall|a: int, b: int| 0 <= a < b < u.len() implies (#[trigger] u[a]).id != (
        #[trigger] u[b]).id by {
            assert(u[a].id == ix.notes[a].id);
            assert(u[b].id == ix.notes[b].id);
        }
    }
    let r = recategorized(ix.notes, from, to);
    assert forall|a: int, b: int| 0 <= a < b < r.len() implies (#[trigger] r[a]).id != (
    #[trigger] r[b]).id by {
        assert(r[a].id == ix.notes[a].id);
        assert(r[b].id == ix.notes[b].id);
    }
}

/// Creating and saving notes keep the index well formed, and the saved
/// note's category (when not blank) is then listed.
pub proof fn lemma_saves_keep_wf(ix: IndexView, req: RequestView, id: Seq<char>, now: Timestamp, i: int)
    requires
        index_wf(ix),
        0 <= i < ix.notes.len(),
    ensures
        index_wf(index_after_create(ix, created_meta(req, id, now))),
        index_wf(index_after_update(ix, i, updated_meta(ix.notes[i], req, now))),
        trim(req.category).len() > 0 ==> index_after_create(
            ix,
            created_meta(req, id, now),
        ).categories.contains(trim(req.category)),
        trim(req.category).len() > 0 ==> index_after_update(
            ix,
            i,
            updated_meta(ix.notes[i], req, now),
        ).categories.contains(trim(req.category)),
{
    lemma_trim_idempotent(req.category);
    let c = trim(req.category);
    let cats = with_category(ix.categories, c);
    assert forall|k: int| 0 <= k < cats.len() implies (#[trigger] cats[k]).len() > 0 && trim(
        cats[k],
    ) == cats[k] by {
        if k < ix.categories.len() {
            assert(cats[k] == ix.categories[k]);
        }
    }
    if c.len() > 0 && !ix.categories.contains(c) {
        assert(cats[cats.len() - 1] == c);
    }
    let a = index_after_create(ix, created_meta(req, id, now));
    assert forall|j: int| 0 <= j < a.notes.len() implies trim((#[trigger] a.notes[j]).category)
        == a.notes[j].category by {
        if j > 0 {
            assert(a.notes[j] == ix.notes[j - 1]);
        }
    }
    let u = index_after_update(ix, i, updated_meta(ix.notes[i], req, now));
    assert forall|j: int| 0 <= j < u.notes.len() implies trim((#[trigger] u.notes[j]).category)
        == u.notes[j].category by {
        if j != i {
            assert(u.notes[j] == ix.notes[j]);
        }
    }
}

/// Deleting a note keeps the index well formed.
pub proof fn lemma_delete_keeps_wf(ix: IndexView, i: int)
    requires
        index_wf(ix),
        0 <= i < ix.notes.len(),
    ensures
        index_wf(index_after_delete(ix, i)),
{
    let d = index_after_delete(ix, i);
    assert forall|j: int| 0 <= j < d.notes.len() implies trim((#[trigger] d.notes[j]).category)
        == d.notes[j].category by {
        if j < i {
            assert(d.notes[j] == ix.notes[j]);
        } else {
            assert(d.notes[j] == ix.notes[j + 1]);
        }
    }
}

/// Adding a valid category by hand keeps the index well formed and
/// lists the category among the library's categories.
pub proof fn lemma_add_category_keeps_wf(before: IndexView, after: IndexView, name: Seq<char>)
    requires
        index_wf(before),
        trim(name).len() > 0,
        index_with_category(before, after, trim(name)),
    ensures
        index_wf(after),
        after.categories.contains(trim(name)),
        category_names(after).contains(trim(name)),
{
    lemma_trim_idempotent(name);
    let n = trim(name);
    if !before.categories.contains(n) {
        let pushed = before.categories.push(n);
        assert(pushed[pushed.len() - 1] == n);
        vstd::seq_lib::to_multiset_contains(pushed, n);
        vstd::seq_lib::to_multiset_contains(after.categories, n);
        assert forall|k: int| 0 <= k < after.categories.len() implies (#[trigger] after.categories[k]).len()
            > 0 && trim(after.categories[k]) == after.categories[k] by {
            let x = after.categories[k];
            vstd::seq_lib::to_multiset_contains(after.categories, x);
            vstd::seq_lib::to_multiset_contains(pushed, x);
            assert(after.categories.contains(x));
            assert(pushed.contains(x));
            let q = choose|q: int| 0 <= q < pushed.len() && pushed[q] == x;
            if q < before.categories.len() {
                assert(pushed[q] == before.categories[q]);
            }
        }
    }
    assert(after.categories.contains(n));
    let k = choose|k: int| 0 <= k < after.categories.len() && after.categories[k] == n;
    assert(trim(after.categories[k]) == n);
}

/// Renaming category `old_name` to a valid `new_name` keeps the index
/// well formed; when the names differ, no note is left in the old
/// category, every note of it is in the new one, and the new name is
/// listed when the old one was.
pub proof fn lemma_rename_keeps_wf(
    before: IndexView,
    after: IndexView,
    old_name: Seq<char>,
    new_name: Seq<char>,
)
    requires
        index_wf(before),
        trim(new_name).len() > 0,
        renamed_index(before, after, trim(old_name), trim(new_name)),
    ensures
        index_wf(after),
        trim(old_name) != trim(new_name) ==> forall|j: int|
            0 <= j < after.notes.len() ==> (#[trigger] after.notes[j]).category != trim(old_name),
        forall|j: int|
            0 <= j < before.notes.len() && (#[trigger] before.notes[j]).category == trim(old_name)
                ==> after.notes[j].category == trim(new_name),
        before.categories.contains(trim(old_name)) ==> after.categories.contains(trim(new_name)),
{
    lemma_trim_idempotent(new_name);
    let o = trim(old_name);
    let n = trim(new_name);
    let rf = replace_first(before.categories, o, n);
    lemma_name_position_found(before.categories, o);
    assert forall|k: int| 0 <= k < rf.len() implies (#[trigger] rf[k]).len() > 0 && trim(rf[k])
        == rf[k] by {
        if !(name_position(before.categories, o) == Some(k)) {
            assert(rf[k] == before.categories[k]);
        }
    }
    assert forall|k: int| 0 <= k < after.categories.len() implies (#[trigger] after.categories[k]).len()
        > 0 && trim(after.categories[k]) == after.categories[k] by {
        let x = after.categories[k];
        vstd::seq_lib::to_multiset_contains(after.categories, x);
        vstd::seq_lib::to_multiset_contains(rf, x);
        assert(after.categories.contains(x));
        let q = choose|q: int| 0 <= q < rf.len() && rf[q] == x;
        assert(rf[q] == x);
    }
    assert forall|j: int| 0 <= j < after.notes.len() implies trim(
        (#[trigger] after.notes[j]).category,
    ) == after.notes[j].category by {
        assert(before.notes[j].category == trim(before.notes[j].category));
    }
    if before.categories.contains(o) {
        let p = name_position(before.categories, o)->0;
        assert(rf[p] == n);
        vstd::seq_lib::to_multiset_contains(rf, n);
        vstd::seq_lib::to_multiset_contains(after.categories, n);
    }
}

/// The names a library's categories go by, when every listed name and
/// every note's category is trimmed: the non-empty ones listed or on a note.
proof fn lemma_names_of_trimmed(ix: IndexView)
    requires
        forall|k: int| 0 <= k < ix.categories.len() ==> trim(#[trigger] ix.categories[k]) == ix.categories[k],
        forall|j: int|
            0 <= j < ix.notes.len() ==> trim((#[trigger] ix.notes[j]).category) == ix.notes[j].category,
    ensures
        forall|t: Seq<char>|
            #[trigger] category_names(ix).contains(t) <==> t.len() > 0 && (ix.categories.contains(t)
                || exists|j: int| 0 <= j < ix.notes.len() && (#[trigger] ix.notes[j]).category == t),
{
    assert forall|t: Seq<char>|
        #[trigger] category_names(ix).contains(t) <==> t.len() > 0 && (ix.categories.contains(t)
            || exists|j: int| 0 <= j < ix.notes.len() && (#[trigger] ix.notes[j]).category == t) by {
        if category_names(ix).contains(t) {
            if exists|i: int| 0 <= i < ix.categories.len() && trim(#[trigger] ix.categories[i]) == t {
                let i = choose|i: int| 0 <= i < ix.categories.len() && trim(#[trigger] ix.categories[i]) == t;
                assert(ix.categories[i] == t);
            } else {
                let j = choose|j: int| 0 <= j < ix.notes.len() && trim((#[trigger] ix.notes[j]).category) == t;
                assert(ix.notes[j].category == t);
            }
        }
        if t.len() > 0 && ix.categories.contains(t) {
            let i = choose|i: int| 0 <= i < ix.categories.len() && ix.categories[i] == t;
            assert(trim(ix.categories[i]) == t);
        }
        if t.len() > 0 && exists|j: int| 0 <= j < ix.notes.len() && (#[trigger] ix.notes[j]).category == t {
            let j = choose|j: int| 0 <= j < ix.notes.len() && (#[trigger] ix.notes[j]).category == t;
            assert(trim(ix.notes[j].category) == t);
        }
    }
}

/// What a library's categories are after renaming `old_name` to a valid
/// `new_name`, in a library whose names are trimmed (empty names allowed):
/// the old name is gone (unless it was listed twice), the new name is
/// there when the old one was, and every other name is there exactly when
/// it was before.
pub proof fn lemma_rename_relists(
    before: IndexView,
    after: IndexView,
    old_name: Seq<char>,
    new_name: Seq<char>,
)
    requires
        forall|k: int|
            0 <= k < before.categories.len() ==> trim(#[trigger] before.categories[k])
                == before.categories[k],
        forall|j: int|
            0 <= j < before.notes.len() ==> trim((#[trigger] before.notes[j]).category)
                == before.notes[j].category,
        trim(new_name).len() > 0,
        renamed_index(before, after, trim(old_name), trim(new_name)),
    ensures
        trim(old_name) != trim(new_name) && before.categories.to_multiset().count(trim(old_name))
            <= 1 ==> !category_names(after).contains(trim(old_name)),
        category_names(before).contains(trim(old_name)) ==> category_names(after).contains(
            trim(new_name),
        ),
        forall|t: Seq<char>|
            t != trim(old_name) && t != trim(new_name) ==> (#[trigger] category_names(after).contains(t)
                == category_names(before).contains(t)),
{
    broadcast use vstd::multiset::group_multiset_axioms;

    lemma_trim_idempotent(new_name);
    let o = trim(old_name);
    let n = trim(new_name);
    let bc = before.categories;
    let rf = replace_first(bc, o, n);
    lemma_name_position_found(bc, o);
    // the category list after the rename holds, for each name, as many
    // copies as `rf` does
    if bc.contains(o) {
        let p = name_position(bc, o)->0;
        vstd::seq_lib::to_multiset_update(bc, p, n);
        assert(rf[p] == n);
    } else {
        assert(rf == bc);
    }
    assert forall|y: Seq<char>| #[trigger] after.categories.contains(y) implies trim(y) == y by {
        vstd::seq_lib::to_multiset_contains(after.categories, y);
        vstd::seq_lib::to_multiset_contains(rf, y);
        let q = choose|q: int| 0 <= q < rf.len() && rf[q] == y;
        if !(name_position(bc, o) == Some(q)) {
            assert(rf[q] == bc[q]);
        }
    }
    assert forall|k: int| 0 <= k < after.categories.len() implies trim(
        #[trigger] after.categories[k],
    ) == after.categories[k] by {
        assert(after.categories.contains(after.categories[k]));
    }
    assert forall|j: int| 0 <= j < after.notes.len() implies trim(
        (#[trigger] after.notes[j]).category,
    ) == after.notes[j].category by {
        assert(before.notes[j].category == trim(before.notes[j].category));
    }
    lemma_names_of_trimmed(before);
    lemma_names_of_trimmed(after);
    // other names: the same copies listed, the same notes
    assert forall|t: Seq<char>|
        t != o && t != n implies (#[trigger] category_names(after).contains(t)
            == category_names(before).contains(t)) by {
        vstd::seq_lib::to_multiset_contains(after.categories, t);
        vstd::seq_lib::to_multiset_contains(rf, t);
        vstd::seq_lib::to_multiset_contains(bc, t);
        assert(rf.to_multiset().count(t) == bc.to_multiset().count(t));
        if exists|j: int| 0 <= j < after.notes.len() && (#[trigger] after.notes[j]).category == t {
            let j = choose|j: int| 0 <= j < after.notes.len() && (#[trigger] after.notes[j]).category == t;
            assert(before.notes[j].category == t);
        }
        if exists|j: int| 0 <= j < before.notes.len() && (#[trigger] before.notes[j]).category == t {
            let j = choose|j: int| 0 <= j < before.notes.len() && (#[trigger] before.notes[j]).category == t;
            assert(after.notes[j].category == t);
        }
    }
    // the new name, when the old one was in use
    if category_names(before).contains(o) {
        if bc.contains(o) {
            vstd::seq_lib::to_multiset_contains(rf, n);
            vstd::seq_lib::to_multiset_contains(after.categories, n);
            let p = name_position(bc, o)->0;
            assert(rf.contains(n)) by {
                assert(rf[p] == n);
            }
        } else {
            let j = choose|j: int| 0 <= j < before.notes.len() && (#[trigger] before.notes[j]).category == o;
            assert(after.notes[j].category == n);
        }
    }
    // the old name, listed at most once, is gone
    if o != n && bc.to_multiset().count(o) <= 1 {
        vstd::seq_lib::to_multiset_contains(bc, o);
        vstd::seq_lib::to_multiset_contains(after.categories, o);
        assert(rf.to_multiset().count(o) == 0);
        assert(!after.categories.contains(o));
        assert forall|j: int| 0 <= j < after.notes.len() implies (#[trigger] after.notes[j]).category
            != o by {}
    }
}

/// A rename moves each note's file with it: the notes keep their order
/// and every field but the category; a note of the old category had its
/// file, by its file name, in the old category's folder (the `from_dir`
/// that `rename_category` returns) and has it now, by the same name, in
/// the new one's (`to_dir`), which is where moving that folder's files
/// over by name puts it; every other note's file stays where it was. So
/// each note reads back the content it had.
pub proof fn lemma_rename_moves_files(
    notes_dir: Seq<char>,
    before: IndexView,
    after: IndexView,
    old_name: Seq<char>,
    new_name: Seq<char>,
)
    requires
        renamed_index(before, after, trim(old_name), trim(new_name)),
    ensures
        after.notes.len() == before.notes.len(),
        forall|j: int|
            0 <= j < before.notes.len() ==> (#[trigger] after.notes[j]) == (MetaView {
                category: after.notes[j].category,
                ..before.notes[j]
            }),
        forall|j: int|
            0 <= j < before.notes.len() && (#[trigger] before.notes[j]).category == trim(old_name)
                ==> {
                &&& note_path_of(notes_dir, before.notes[j].file_name, before.notes[j].category)
                    == path_join(category_dir_of(notes_dir, trim(old_name)), before.notes[j].file_name)
                &&& note_path_of(notes_dir, after.notes[j].file_name, after.notes[j].category)
                    == path_join(category_dir_of(notes_dir, trim(new_name)), before.notes[j].file_name)
            },
        forall|j: int|
            0 <= j < before.notes.len() && (#[trigger] before.notes[j]).category != trim(old_name)
                ==> note_path_of(notes_dir, after.notes[j].file_name, after.notes[j].category)
                == note_path_of(notes_dir, before.notes[j].file_name, before.notes[j].category),
{
}

/// Deleting category `name` keeps the index well formed; afterwards the
/// name is neither listed nor among the library's categories, no note is
/// in it, and its notes are uncategorized.
pub proof fn lemma_delete_category_keeps_wf(before: IndexView, name: Seq<char>)
    requires
        index_wf(before),
        trim(name).len() > 0,
    ensures
        ({
            let after = index_without_category(before, trim(name));
            &&& index_wf(after)
            &&& !after.categories.contains(trim(name))
            &&& !category_names(after).contains(trim(name))
            &&& forall|j: int|
                0 <= j < after.notes.len() ==> (#[trigger] after.notes[j]).category != trim(name)
            &&& forall|j: int|
                0 <= j < before.notes.len() && (#[trigger] before.notes[j]).category == trim(name)
                    ==> after.notes[j].category.len() == 0
        }),
{
    let n = trim(name);
    let after = index_without_category(before, n);
    let f = before.categories.filter(not_text(n));
    assert forall|k: int| 0 <= k < f.len() implies (#[trigger] f[k]).len() > 0 && trim(f[k])
        == f[k] && f[k] != n by {
        assert(f.contains(f[k]));
        before.categories.lemma_filter_contains_rev(not_text(n), f[k]);
        before.categories.lemma_filter_pred(not_text(n), k);
        let q = choose|q: int| 0 <= q < before.categories.len() && before.categories[q] == f[k];
        assert(before.categories[q] == f[k]);
    }
    assert forall|j: int| 0 <= j < after.notes.len() implies trim(
        (#[trigger] after.notes[j]).category,
    ) == after.notes[j].category by {
        assert(before.notes[j].category == trim(before.notes[j].category));
        if before.notes[j].category == n {
            assert(after.notes[j].category =~= Seq::<char>::empty());
            assert(trim(Seq::<char>::empty()) =~= Seq::<char>::empty());
        }
    }
}

/// A category name that normalizes is accepted again, unchanged.
pub proof fn lemma_category_name_stable(name: Seq<char>)
    requires
        trim(name).len() > 0,
        !has_forbidden(trim(name)),
    ensures
        trim(trim(name)) == trim(name),
        trim(trim(name)).len() > 0,
        !has_forbidden(trim(trim(name))),
{
    lemma_trim_idempotent(name);
}

/// The first position of a name in a list holds the name, and no
/// position before it does.
proof fn lemma_name_position_found(s: Seq<Seq<char>>, x: Seq<char>)
    ensures
        name_position(s, x) matches Some(i) ==> 0 <= i < s.len() && s[i] == x,
        name_position(s, x) is None ==> !s.contains(x),
        s.contains(x) ==> name_position(s, x) is Some,
    decreases s.len(),
{
    if s.len() > 0 && s[0] != x {
        lemma_name_position_found(s.drop_first(), x);
        if s.contains(x) {
            let k = choose|k: int| 0 <= k < s.len() && s[k] == x;
            assert(s.drop_first()[k - 1] == x);
        }
        if name_position(s.drop_first(), x) is None {
            assert forall|k: int| 0 <= k < s.len() implies s[k] != x by {
                if k > 0 {
                    assert(s[k] == s.drop_first()[k - 1]);
                }
            }
        }
    } else if s.len() > 0 {
        assert(s.contains(x)) by {
            assert(s[0] == x);
        }
    }
}

} // verus!
