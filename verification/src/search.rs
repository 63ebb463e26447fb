//! Searching the note list, and the order the sidebar shows notes in:
//! categorized notes first by category name, uncategorized ones last,
//! newest first within a category.
use vstd::prelude::*;
use crate::chars::chars_of;
use crate::clock::{is_later, ts_key};
use crate::model::{meta_views, MetaView, NoteMetadata};
use crate::order::{
    lemma_insert_filter, lemma_insert_multiset, lemma_lt_asymmetric, lemma_lt_irreflexive,
    lemma_lt_total, lemma_lt_transitive, same_text, text_less, text_lt, trim_string,
};
use crate::strings::trim;

verus! {

broadcast use vstd::seq_lib::group_seq_properties;

/// What `str::to_lowercase` gives for a string (Unicode lower-case mapping).
pub uninterp spec fn lowercase(s: Seq<char>) -> Seq<char>;

/// `str::to_lowercase`. The result is named, not stated.
#[verifier::external_body]
fn to_lowercase(s: &str) -> (r: String)
    ensures
        r@ == lowercase(s@),
{
    s.to_lowercase()
}

/// `needle` occurs in `hay` at position `i`.
pub open spec fn occurs_at(hay: Seq<char>, needle: Seq<char>, i: int) -> bool {
    0 <= i && i + needle.len() <= hay.len() && hay.subrange(i, i + needle.len()) == needle
}

/// `needle` occurs somewhere in `hay` (`str::contains`).
pub open spec fn has_substring(hay: Seq<char>, needle: Seq<char>) -> bool {
    exists|i: int| occurs_at(hay, needle, i)
}

/// A search query as typed: trimmed and in lower case.
pub open spec fn query_of(raw: Seq<char>) -> Seq<char> {
    lowercase(trim(raw))
}

/// A query matches a list of fields when it is empty or occurs in one of
/// them once that is in lower case.
pub open spec fn matches_query(query: Seq<char>, fields: Seq<Seq<char>>) -> bool {
    query.len() == 0 || exists|i: int|
        0 <= i < fields.len() && has_substring(lowercase(#[trigger] fields[i]), query)
}

/// The label of a category: `未分类` for the uncategorized group.
pub open spec fn category_label(c: Seq<char>) -> Seq<char> {
    if c.len() == 0 {
        "未分类"@
    } else {
        c
    }
}

/// The fields a note is searched by: title, preview, file name and
/// category label.
pub open spec fn searched_fields(m: MetaView) -> Seq<Seq<char>> {
    seq![m.title, m.preview, m.file_name, category_label(m.category)]
}

pub open spec fn note_matches(query: Seq<char>, m: MetaView) -> bool {
    matches_query(query, searched_fields(m))
}

pub open spec fn matching(query: Seq<char>) -> spec_fn(MetaView) -> bool {
    |m: MetaView| note_matches(query, m)
}

/// The query of a search box's raw text (see `query_of`).
pub fn search_query(raw: &str) -> (r: String)
    ensures
        r@ == query_of(raw@),
{
    let t = trim_string(raw);
    to_lowercase(t.as_str())
}

/// Whether `needle` occurs in `hay`.
pub fn contains_text(hay: &str, needle: &str) -> (r: bool)
    ensures
        r == has_substring(hay@, needle@),
{
    let h = chars_of(hay);
    let n = chars_of(needle);
    if n.len() == 0 {
        assert(hay@.subrange(0, 0) =~= needle@);
        assert(occurs_at(hay@, needle@, 0));
        return true;
    }
    if n.len() > h.len() {
        proof {
            assert forall|i: int| !occurs_at(hay@, needle@, i) by {}
        }
        return false;
    }
    let hl = h.len();
    let last = hl - n.len();
    let mut i: usize = 0;
    while i <= last
        invariant
            h@ == hay@,
            n@ == needle@,
            last == h@.len() - n@.len(),
            0 < n@.len() <= h@.len(),
            h@.len() <= usize::MAX,
            i <= last + 1,
            forall|k: int| 0 <= k < i ==> !occurs_at(hay@, needle@, k),
        decreases last + 1 - i,
    {
        let mut j: usize = 0;
        while j < n.len()
            invariant
                h@ == hay@,
                n@ == needle@,
                i <= last,
                last == h@.len() - n@.len(),
                n@.len() <= h@.len(),
                h@.len() <= usize::MAX,
                j <= n@.len(),
                forall|q: int| 0 <= q < j ==> h@[i + q] == n@[q],
            ensures
                j <= n@.len(),
                forall|q: int| 0 <= q < j ==> h@[i + q] == n@[q],
                j == n@.len() || h@[i + j] != n@[j as int],
            decreases n@.len() - j,
        {
            let k: usize = i + j;
            if h[k] != n[j] {
                break;
            }
            j = j + 1;
        }
        if j == n.len() {
            assert(hay@.subrange(i as int, i + needle@.len()) =~= needle@);
            assert(occurs_at(hay@, needle@, i as int));
            return true;
        }
        assert(hay@.subrange(i as int, i + needle@.len())[j as int] != needle@[j as int]);
        i = i + 1;
    }
    assert forall|k: int| !occurs_at(hay@, needle@, k) by {
        if 0 <= k && k + needle@.len() <= hay@.len() {
            assert(k < i);
        }
    }
    false
}

/// Whether a lower-case query matches a field.
fn field_matches(query: &str, field: &str) -> (r: bool)
    ensures
        r == has_substring(lowercase(field@), query@),
{
    let l = to_lowercase(field);
    contains_text(l.as_str(), query)
}

/// Whether a query matches any of the fields (see `matches_query`).
pub fn matches_search(query: &str, fields: &[&str]) -> (r: bool)
    ensures
        r == matches_query(query@, fields@.map_values(|f: &str| f@)),
{
    let ghost fv = fields@.map_values(|f: &str| f@);
    if query.is_empty() {
        return true;
    }
    let mut i: usize = 0;
    while i < fields.len()
        invariant
            i <= fields@.len(),
            fv == fields@.map_values(|f: &str| f@),
            forall|k: int| 0 <= k < i ==> !has_substring(lowercase(#[trigger] fv[k]), query@),
        decreases fields@.len() - i,
    {
        if field_matches(query, fields[i]) {
            assert(fv[i as int] == fields@[i as int]@);
            return true;
        }
        i = i + 1;
    }
    false
}

/// The label of a category (see `category_label`).
pub fn category_label_text(category: &str) -> (r: String)
    ensures
        r@ == category_label(category@),
{
    if category.is_empty() {
        String::from_str("未分类")
    } else {
        String::from_str(category)
    }
}

/// Whether a lower-case query matches a note (see `note_matches`).
pub fn note_matches_query(query: &str, note: &NoteMetadata) -> (r: bool)
    ensures
        r == note_matches(query@, note@),
{
    if query.is_empty() {
        return true;
    }
    let label = category_label_text(note.category.as_str());
    let ghost f = searched_fields(note@);
    let r = field_matches(query, note.title.as_str()) || field_matches(query, note.preview.as_str())
        || field_matches(query, note.file_name.as_str()) || field_matches(query, label.as_str());
    proof {
        if r {
            if has_substring(lowercase(f[0]), query@) {
            } else if has_substring(lowercase(f[1]), query@) {
            } else if has_substring(lowercase(f[2]), query@) {
            } else {
                assert(has_substring(lowercase(f[3]), query@));
            }
        } else {
            assert forall|i: int| 0 <= i < f.len() implies !has_substring(
                lowercase(#[trigger] f[i]),
                query@,
            ) by {
                if i == 0 {
                } else if i == 1 {
                } else if i == 2 {
                } else {
                }
            }
        }
    }
    r
}

/// The number of notes a search finds: none for an empty query, else the
/// notes the query matches.
pub fn search_hits(query: &str, notes: &Vec<NoteMetadata>) -> (r: usize)
    ensures
        r == if query@.len() == 0 {
            0
        } else {
            meta_views(notes@).filter(matching(query@)).len()
        },
{
    if query.is_empty() {
        return 0;
    }
    let ghost src = meta_views(notes@);
    let mut count: usize = 0;
    let mut i: usize = 0;
    while i < notes.len()
        invariant
            src == meta_views(notes@),
            i <= notes@.len(),
            count == src.take(i as int).filter(matching(query@)).len(),
            count <= i,
        decreases notes@.len() - i,
    {
        proof {
            assert(src.take(i + 1) =~= src.take(i as int).push(src[i as int]));
            src.take(i as int).lemma_filter_push(src[i as int], matching(query@));
        }
        if note_matches_query(query, &notes[i]) {
            count = count + 1;
        }
        i = i + 1;
    }
    assert(src.take(i as int) =~= src);
    count
}

/// Whether the sidebar shows `a` before `b`: a categorized note before an
/// uncategorized one, then by category name, then the newer first.
pub open spec fn shown_before(a: MetaView, b: MetaView) -> bool {
    if a.category.len() > 0 && b.category.len() == 0 {
        true
    } else if a.category.len() == 0 && b.category.len() > 0 {
        false
    } else if a.category != b.category {
        text_lt(a.category, b.category)
    } else {
        ts_key(a.updated_at) > ts_key(b.updated_at)
    }
}

/// Notes of this category saved at the time of key `k`: the sidebar
/// cannot tell them apart, so it keeps their order.
pub open spec fn in_group(c: Seq<char>, k: int) -> spec_fn(MetaView) -> bool {
    |m: MetaView| m.category == c && ts_key(m.updated_at) == k
}

/// No note is shown before one before it.
pub open spec fn sidebar_sorted(s: Seq<MetaView>) -> bool {
    forall|i: int, j: int| 0 <= i < j < s.len() ==> !shown_before(#[trigger] s[j], #[trigger] s[i])
}

/// `res` is `src` in sidebar order, notes the order cannot tell apart
/// kept in their order in `src` (a stable sort).
pub open spec fn sidebar_order_of(res: Seq<MetaView>, src: Seq<MetaView>) -> bool {
    &&& sidebar_sorted(res)
    &&& forall|c: Seq<char>, k: int| #[trigger] res.filter(in_group(c, k)) == src.filter(in_group(c, k))
    &&& res.to_multiset() == src.to_multiset()
}

/// What a search finds: a note matches a query exactly when the query is
/// empty or, in lower case, its title, preview, file name or category
/// (`未分类` for none) contains it.
pub proof fn lemma_search_fields(query: Seq<char>, m: MetaView)
    ensures
        note_matches(query, m) <==> (query.len() == 0 || has_substring(lowercase(m.title), query)
            || has_substring(lowercase(m.preview), query) || has_substring(
            lowercase(m.file_name),
            query,
        ) || has_substring(
            lowercase(
                if m.category.len() == 0 {
                    "未分类"@
                } else {
                    m.category
                },
            ),
            query,
        )),
{
    let f = searched_fields(m);
    if note_matches(query, m) && query.len() > 0 {
        let i = choose|i: int| 0 <= i < f.len() && has_substring(lowercase(#[trigger] f[i]), query);
        assert(i == 0 || i == 1 || i == 2 || i == 3);
    }
    if has_substring(lowercase(m.title), query) {
        assert(has_substring(lowercase(f[0]), query));
    }
    if has_substring(lowercase(m.preview), query) {
        assert(has_substring(lowercase(f[1]), query));
    }
    if has_substring(lowercase(m.file_name), query) {
        assert(has_substring(lowercase(f[2]), query));
    }
    if has_substring(lowercase(if m.category.len() == 0 { "未分类"@ } else { m.category }), query) {
        assert(has_substring(lowercase(f[3]), query));
    }
}

/// The sidebar's order: a categorized note before an uncategorized one;
/// between two categories, the one first in the text order (code points
/// at the first difference, see `lemma_text_order_by_code_points`);
/// within a category, the later save first.
pub proof fn lemma_sidebar_order_rule(a: MetaView, b: MetaView)
    ensures
        a.category.len() > 0 && b.category.len() == 0 ==> shown_before(a, b),
        a.category.len() == 0 && b.category.len() > 0 ==> !shown_before(a, b),
        a.category.len() > 0 && b.category.len() > 0 && a.category != b.category ==> (shown_before(
            a,
            b,
        ) == text_lt(a.category, b.category)),
        a.category == b.category ==> (shown_before(a, b) == (a.updated_at.secs > b.updated_at.secs
            || (a.updated_at.secs == b.updated_at.secs && a.updated_at.nanos
            > b.updated_at.nanos))),
{
}

/// The count of search hits is the number of notes the sidebar shows for
/// the same non-empty query, and every note shown matches it.
pub proof fn lemma_hits_match_sidebar(shown: Seq<MetaView>, notes: Seq<MetaView>, query: Seq<char>)
    requires
        sidebar_order_of(shown, notes.filter(matching(query))),
    ensures
        shown.len() == notes.filter(matching(query)).len(),
        forall|i: int| 0 <= i < shown.len() ==> note_matches(query, #[trigger] shown[i]),
{
    let f = notes.filter(matching(query));
    vstd::seq_lib::to_multiset_len(shown);
    vstd::seq_lib::to_multiset_len(f);
    assert forall|i: int| 0 <= i < shown.len() implies note_matches(query, #[trigger] shown[i]) by {
        vstd::seq_lib::to_multiset_contains(shown, shown[i]);
        vstd::seq_lib::to_multiset_contains(f, shown[i]);
        assert(shown.contains(shown[i]));
        let j = choose|j: int| 0 <= j < f.len() && f[j] == shown[i];
        notes.lemma_filter_pred(matching(query), j);
    }
}

pub proof fn lemma_shown_before_asymmetric(a: MetaView, b: MetaView)
    ensures
        shown_before(a, b) ==> !shown_before(b, a),
        !shown_before(a, a),
{
    lemma_lt_asymmetric(a.category, b.category);
}

pub proof fn lemma_shown_before_transitive(a: MetaView, b: MetaView, c: MetaView)
    ensures
        shown_before(a, b) && shown_before(b, c) ==> shown_before(a, c),
{
    lemma_lt_transitive(a.category, b.category, c.category);
    lemma_lt_asymmetric(a.category, b.category);
    lemma_lt_asymmetric(b.category, c.category);
    lemma_lt_irreflexive(a.category);
    if a.category == c.category && a.category != b.category {
        lemma_lt_asymmetric(a.category, b.category);
    }
}

/// Two notes neither shown before the other are in the same group.
pub proof fn lemma_shown_before_total(a: MetaView, b: MetaView)
    ensures
        !shown_before(a, b) && !shown_before(b, a) ==> a.category == b.category && ts_key(
            a.updated_at,
        ) == ts_key(b.updated_at),
{
    lemma_lt_total(a.category, b.category);
    if a.category.len() == 0 && b.category.len() == 0 {
        assert(a.category =~= b.category);
    }
}

/// Before `b`, and `c` not before `b`: then before `c`.
proof fn lemma_before_then_not_before(a: MetaView, b: MetaView, c: MetaView)
    ensures
        shown_before(a, b) && !shown_before(c, b) ==> shown_before(a, c),
{
    lemma_shown_before_total(b, c);
    lemma_shown_before_transitive(a, b, c);
}

/// Where a note goes among notes in sidebar order: after every note not
/// shown after it, before the first one it is shown before.
proof fn lemma_sidebar_insert(before: Seq<MetaView>, p: int, x: MetaView)
    requires
        sidebar_sorted(before),
        0 <= p <= before.len(),
        forall|j: int| 0 <= j < p ==> !shown_before(x, #[trigger] before[j]),
        p < before.len() ==> shown_before(x, before[p]),
    ensures
        sidebar_sorted(before.insert(p, x)),
        forall|c: Seq<char>, k: int|
            in_group(c, k)(x) ==> forall|j: int|
                p <= j < before.len() ==> !in_group(c, k)(#[trigger] before[j]),
{
    assert forall|j: int| p <= j < before.len() implies shown_before(x, #[trigger] before[j]) by {
        if j > p {
            lemma_before_then_not_before(x, before[p], before[j]);
        }
    }
    assert forall|c: Seq<char>, k: int|
        in_group(c, k)(x) implies forall|j: int|
        p <= j < before.len() ==> !in_group(c, k)(#[trigger] before[j]) by {
        assert forall|j: int| p <= j < before.len() implies !in_group(c, k)(
            #[trigger] before[j],
        ) by {
            assert(shown_before(x, before[j]));
        }
    }
    let nv = before.insert(p, x);
    assert forall|a: int, b: int| 0 <= a < b < nv.len() implies !shown_before(
        #[trigger] nv[b],
        #[trigger] nv[a],
    ) by {
        if a < p && b == p {
            lemma_shown_before_total(x, before[a]);
            lemma_shown_before_asymmetric(x, before[a]);
            if shown_before(x, before[a]) {
            } else if shown_before(before[a], x) {
            } else {
                assert(!shown_before(x, before[a]));
            }
        } else if a < p && b > p {
            assert(nv[b] == before[b - 1]);
        } else if a == p {
            assert(nv[b] == before[b - 1]);
            assert(shown_before(x, before[b - 1]));
            lemma_shown_before_asymmetric(x, before[b - 1]);
        } else if a > p {
            assert(nv[a] == before[a - 1]);
            assert(nv[b] == before[b - 1]);
        } else {
            assert(nv[a] == before[a]);
            assert(nv[b] == before[b]);
        }
    }
}

/// Whether the sidebar shows `a` before `b` (see `shown_before`).
fn is_shown_before(a: &NoteMetadata, b: &NoteMetadata) -> (r: bool)
    ensures
        r == shown_before(a@, b@),
{
    let a_empty = a.category.as_str().is_empty();
    let b_empty = b.category.as_str().is_empty();
    if !a_empty && b_empty {
        true
    } else if a_empty && !b_empty {
        false
    } else if !same_text(a.category.as_str(), b.category.as_str()) {
        text_less(a.category.as_str(), b.category.as_str())
    } else {
        is_later(a.updated_at, b.updated_at)
    }
}

/// The notes a lower-case query matches, in sidebar order (see
/// `sidebar_order_of`).
pub fn sidebar_notes(query: &str, notes: &Vec<NoteMetadata>) -> (r: Vec<NoteMetadata>)
    ensures
        sidebar_order_of(meta_views(r@), meta_views(notes@).filter(matching(query@))),
{
    let ghost src = meta_views(notes@);
    let mut res: Vec<NoteMetadata> = Vec::new();
    let mut i: usize = 0;
    while i < notes.len()
        invariant
            src == meta_views(notes@),
            i <= notes@.len(),
            sidebar_sorted(meta_views(res@)),
            forall|c: Seq<char>, k: int|
                #[trigger] meta_views(res@).filter(in_group(c, k)) == src.take(i as int).filter(
                    matching(query@),
                ).filter(in_group(c, k)),
            meta_views(res@).to_multiset() == src.take(i as int).filter(
                matching(query@),
            ).to_multiset(),
        decreases notes@.len() - i,
    {
        let ghost found = src.take(i as int).filter(matching(query@));
        proof {
            assert(src.take(i + 1) =~= src.take(i as int).push(src[i as int]));
            src.take(i as int).lemma_filter_push(src[i as int], matching(query@));
        }
        if note_matches_query(query, &notes[i]) {
            let x = notes[i].clone();
            assert(x@ == src[i as int]);
            let mut p: usize = 0;
            while p < res.len() && !is_shown_before(&x, &res[p])
                invariant
                    p <= res@.len(),
                    forall|j: int| 0 <= j < p ==> !shown_before(x@, #[trigger] meta_views(res@)[j]),
                decreases res@.len() - p,
            {
                p = p + 1;
            }
            let ghost before = meta_views(res@);
            proof {
                lemma_sidebar_insert(before, p as int, x@);
                assert forall|c: Seq<char>, k: int| #[trigger] before.insert(p as int, x@).filter(
                    in_group(c, k),
                ) == found.push(x@).filter(in_group(c, k)) by {
                    lemma_insert_filter(before, p as int, x@, in_group(c, k));
                    found.lemma_filter_push(x@, in_group(c, k));
                    assert(before.filter(in_group(c, k)) == found.filter(in_group(c, k)));
                }
                lemma_insert_multiset(before, p as int, x@);
                found.to_multiset_ensures();
            }
            res.insert(p, x);
            assert(meta_views(res@) =~= before.insert(p as int, x@));
        }
        i = i + 1;
    }
    assert(src.take(i as int) =~= src);
    res
}

} // verus!
