//! The note index as a mathematical object, and the changes that saving,
//! deleting and categorizing notes make to it.
use vstd::prelude::*;
use crate::clock::Timestamp;
use crate::model::{IndexView, MetaView, RequestView};
use crate::notetext::{non_ws_count, note_file_name, note_title, preview_text};
use crate::strings::trim;

verus! {

/// The position of the first entry with this id.
pub open spec fn position_of(notes: Seq<MetaView>, id: Seq<char>) -> Option<int>
    decreases notes.len(),
{
    if notes.len() == 0 {
        None
    } else if notes[0].id == id {
        Some(0)
    } else {
        match position_of(notes.drop_first(), id) {
            Some(i) => Some(i + 1),
            None => None,
        }
    }
}

/// The entry a new note gets: the request's title rule, a file name from
/// the title and the id, the trimmed category, the time twice, and the
/// count and preview of the content.
pub open spec fn created_meta(req: RequestView, id: Seq<char>, now: Timestamp) -> MetaView {
    let title = note_title(req.title, req.content);
    MetaView {
        id,
        title,
        file_name: note_file_name(title, id),
        category: trim(req.category),
        created_at: now,
        updated_at: now,
        word_count: non_ws_count(req.content),
        preview: preview_text(req.content),
    }
}

/// The entry a saved note gets: id, file name and creation time kept,
/// the rest taken from the request, updated now.
pub open spec fn updated_meta(old: MetaView, req: RequestView, now: Timestamp) -> MetaView {
    MetaView {
        id: old.id,
        title: note_title(req.title, req.content),
        file_name: old.file_name,
        category: trim(req.category),
        created_at: old.created_at,
        updated_at: now,
        word_count: non_ws_count(req.content),
        preview: preview_text(req.content),
    }
}

/// The category list once a note of category `c` is saved: `c` is added
/// at the end unless it is empty or already listed.
pub open spec fn with_category(cats: Seq<Seq<char>>, c: Seq<char>) -> Seq<Seq<char>> {
    if c.len() > 0 && !cats.contains(c) {
        cats.push(c)
    } else {
        cats
    }
}

pub open spec fn index_after_create(ix: IndexView, m: MetaView) -> IndexView {
    IndexView { notes: seq![m] + ix.notes, categories: with_category(ix.categories, m.category) }
}

pub open spec fn index_after_update(ix: IndexView, i: int, m: MetaView) -> IndexView {
    IndexView {
        notes: ix.notes.update(i, m),
        categories: with_category(ix.categories, m.category),
    }
}

pub open spec fn index_after_delete(ix: IndexView, i: int) -> IndexView {
    IndexView { notes: ix.notes.remove(i), categories: ix.categories }
}

/// Entries of category `from` moved to category `to`.
pub open spec fn recategorized(notes: Seq<MetaView>, from: Seq<char>, to: Seq<char>) -> Seq<
    MetaView,
> {
    notes.map_values(
        |m: MetaView|
            if m.category == from {
                MetaView { category: to, ..m }
            } else {
                m
            },
    )
}

pub open spec fn not_text(n: Seq<char>) -> spec_fn(Seq<char>) -> bool {
    |c: Seq<char>| c != n
}

/// The ids of the entries are distinct.
pub open spec fn distinct_ids(notes: Seq<MetaView>) -> bool {
    forall|i: int, j: int|
        0 <= i < j < notes.len() ==> (#[trigger] notes[i]).id != (#[trigger] notes[j]).id
}

/// A well-formed index: every listed category is a non-empty trimmed
/// name, and the category of every note is trimmed.
pub open spec fn index_wf(ix: IndexView) -> bool {
    &&& forall|k: int|
        0 <= k < ix.categories.len() ==> (#[trigger] ix.categories[k]).len() > 0 && trim(
            ix.categories[k],
        ) == ix.categories[k]
    &&& forall|j: int|
        0 <= j < ix.notes.len() ==> trim((#[trigger] ix.notes[j]).category) == ix.notes[j].category
}

/// The first entry with an id is at `i` when it has the id and no entry
/// before it does; there is none when no entry has it.
pub proof fn lemma_position_of(notes: Seq<MetaView>, id: Seq<char>, i: int)
    requires
        0 <= i <= notes.len(),
        forall|j: int| 0 <= j < i ==> (#[trigger] notes[j]).id != id,
        i == notes.len() || notes[i].id == id,
    ensures
        position_of(notes, id) == if i == notes.len() {
            None::<int>
        } else {
            Some(i)
        },
    decreases i,
{
    if i > 0 {
        let t = notes.drop_first();
        assert(notes[0].id != id);
        assert forall|j: int| 0 <= j < i - 1 implies (#[trigger] t[j]).id != id by {
            assert(t[j] == notes[j + 1]);
        }
        if i < notes.len() {
            assert(t[i - 1] == notes[i]);
        }
        lemma_position_of(t, id, i - 1);
    }
}

/// A position found is a valid one, holds the id, and no entry before it does.
pub proof fn lemma_position_of_found(notes: Seq<MetaView>, id: Seq<char>)
    ensures
        position_of(notes, id) matches Some(i) ==> {
            &&& 0 <= i < notes.len()
            &&& notes[i].id == id
            &&& forall|j: int| 0 <= j < i ==> (#[trigger] notes[j]).id != id
        },
        position_of(notes, id) is None ==> forall|j: int|
            0 <= j < notes.len() ==> (#[trigger] notes[j]).id != id,
    decreases notes.len(),
{
    if notes.len() > 0 && notes[0].id != id {
        let t = notes.drop_first();
        lemma_position_of_found(t, id);
        match position_of(t, id) {
            Some(k) => {
                assert(notes[k + 1] == t[k]);
                assert forall|j: int| 0 <= j < k + 1 implies (#[trigger] notes[j]).id != id by {
                    if j > 0 {
                        assert(notes[j] == t[j - 1]);
                    }
                }
            },
            None => {
                assert forall|j: int| 0 <= j < notes.len() implies (#[trigger] notes[j]).id
                    != id by {
                    if j > 0 {
                        assert(notes[j] == t[j - 1]);
                    }
                }
            },
        }
    }
}

} // verus!
