//! Listing notes: the entries whose files still exist, newest first,
//! entries saved at the same time kept in their order.
use vstd::prelude::*;
use crate::clock::{is_later, ts_key};
use crate::model::{meta_views, MetaView, MetadataFile, NoteMetadata};
use crate::order::lemma_insert_multiset;
use crate::store::NoteStore;

verus! {

broadcast use vstd::seq_lib::group_seq_properties;

/// The entries whose `present` flag is set, in order.
pub open spec fn kept_notes(notes: Seq<MetaView>, present: Seq<bool>) -> Seq<MetaView>
    decreases notes.len(),
{
    if notes.len() == 0 {
        seq![]
    } else {
        let rest = kept_notes(notes.drop_last(), present.drop_last());
        if present.last() {
            rest.push(notes.last())
        } else {
            rest
        }
    }
}

/// Entries saved at the point in time of key `k`.
pub open spec fn saved_at(k: int) -> spec_fn(MetaView) -> bool {
    |m: MetaView| ts_key(m.updated_at) == k
}

/// No entry was saved later than one before it.
pub open spec fn newest_first(s: Seq<MetaView>) -> bool {
    forall|i: int, j: int|
        0 <= i < j < s.len() ==> ts_key((#[trigger] s[i]).updated_at) >= ts_key(
            (#[trigger] s[j]).updated_at,
        )
}

/// `res` is `src` ordered newest first, entries saved at the same time
/// in their order in `src` (a stable sort by descending save time).
pub open spec fn newest_first_of(res: Seq<MetaView>, src: Seq<MetaView>) -> bool {
    &&& newest_first(res)
    &&& forall|k: int| #[trigger] res.filter(saved_at(k)) == src.filter(saved_at(k))
    &&& res.to_multiset() == src.to_multiset()
}

proof fn lemma_filter_single(x: MetaView, p: spec_fn(MetaView) -> bool)
    ensures
        seq![x].filter(p) == if p(x) {
            seq![x]
        } else {
            Seq::<MetaView>::empty()
        },
{
    let e = Seq::<MetaView>::empty();
    e.lemma_filter_push(x, p);
    assert(e.push(x) =~= seq![x]);
    reveal(Seq::filter);
    assert(e.filter(p) =~= e);
}

/// One step of listing: the entries kept among the first `i + 1`.
proof fn lemma_kept_step(src: Seq<MetaView>, present: Seq<bool>, i: int)
    requires
        0 <= i < src.len() == present.len(),
    ensures
        kept_notes(src.take(i + 1), present.take(i + 1)) == if present[i] {
            kept_notes(src.take(i), present.take(i)).push(src[i])
        } else {
            kept_notes(src.take(i), present.take(i))
        },
{
    assert(src.take(i + 1).drop_last() =~= src.take(i));
    assert(present.take(i + 1).drop_last() =~= present.take(i));
    assert(src.take(i + 1).last() == src[i]);
    assert(present.take(i + 1).last() == present[i]);
}

/// Inserting at a position found as in `list_notes` keeps the order.
proof fn lemma_insert_keeps_order(before: Seq<MetaView>, p: int, x: MetaView)
    requires
        newest_first(before),
        0 <= p <= before.len(),
        forall|j: int|
            0 <= j < p ==> ts_key((#[trigger] before[j]).updated_at) >= ts_key(x.updated_at),
        p < before.len() ==> ts_key(before[p].updated_at) < ts_key(x.updated_at),
    ensures
        newest_first(before.insert(p, x)),
        forall|j: int|
            p <= j < before.len() ==> ts_key((#[trigger] before[j]).updated_at) < ts_key(
                x.updated_at,
            ),
{
    assert forall|j: int| p <= j < before.len() implies ts_key(
        (#[trigger] before[j]).updated_at,
    ) < ts_key(x.updated_at) by {
        if j > p {
            assert(ts_key(before[p].updated_at) >= ts_key(before[j].updated_at));
        }
    }
    let nv = before.insert(p, x);
    assert forall|a: int, b: int| 0 <= a < b < nv.len() implies ts_key(
        (#[trigger] nv[a]).updated_at,
    ) >= ts_key((#[trigger] nv[b]).updated_at) by {
        if a < p && b == p {
        } else if a < p && b > p {
            assert(nv[b] == before[b - 1]);
            assert(ts_key(before[a].updated_at) >= ts_key(before[b - 1].updated_at));
        } else if a == p {
            assert(nv[b] == before[b - 1]);
        } else if a > p {
            assert(nv[a] == before[a - 1]);
            assert(nv[b] == before[b - 1]);
        } else {
            assert(nv[a] == before[a]);
            assert(nv[b] == before[b]);
        }
    }
}

/// The groups of equal save time after an insertion as in `list_notes`.
proof fn lemma_insert_keeps_groups(
    before: Seq<MetaView>,
    kept: Seq<MetaView>,
    p: int,
    x: MetaView,
)
    requires
        0 <= p <= before.len(),
        forall|j: int|
            0 <= j < p ==> ts_key((#[trigger] before[j]).updated_at) >= ts_key(x.updated_at),
        forall|j: int|
            p <= j < before.len() ==> ts_key((#[trigger] before[j]).updated_at) < ts_key(
                x.updated_at,
            ),
        forall|k: int| #[trigger] before.filter(saved_at(k)) == kept.filter(saved_at(k)),
        before.to_multiset() == kept.to_multiset(),
    ensures
        forall|k: int|
            #[trigger] before.insert(p, x).filter(saved_at(k)) == kept.push(x).filter(saved_at(k)),
        before.insert(p, x).to_multiset() == kept.push(x).to_multiset(),
{
    assert forall|k: int| #[trigger] before.insert(p, x).filter(saved_at(k)) == kept.push(
        x,
    ).filter(saved_at(k)) by {
        lemma_insert_in_order(before, p, x, k);
        kept.lemma_filter_push(x, saved_at(k));
        assert(before.filter(saved_at(k)) == kept.filter(saved_at(k)));
    }
    lemma_insert_multiset(before, p, x);
    kept.to_multiset_ensures();
}

/// Inserting an entry after every entry saved no earlier and before
/// every entry saved earlier adds it at the end of its time's group.
proof fn lemma_insert_in_order(s: Seq<MetaView>, p: int, x: MetaView, k: int)
    requires
        0 <= p <= s.len(),
        forall|j: int| 0 <= j < p ==> ts_key((#[trigger] s[j]).updated_at) >= ts_key(x.updated_at),
        forall|j: int|
            p <= j < s.len() ==> ts_key((#[trigger] s[j]).updated_at) < ts_key(x.updated_at),
    ensures
        s.insert(p, x).filter(saved_at(k)) == if ts_key(x.updated_at) == k {
            s.filter(saved_at(k)).push(x)
        } else {
            s.filter(saved_at(k))
        },
{
    let pr = saved_at(k);
    let a = s.take(p);
    let b = s.skip(p);
    assert(s.insert(p, x) =~= a + seq![x] + b);
    assert(s =~= a + b);
    Seq::filter_distributes_over_add(a + seq![x], b, pr);
    Seq::filter_distributes_over_add(a, seq![x], pr);
    Seq::filter_distributes_over_add(a, b, pr);
    lemma_filter_single(x, pr);
    if ts_key(x.updated_at) == k {
        assert(b.all(|m: MetaView| !pr(m))) by {
            assert forall|j: int| 0 <= j < b.len() implies !pr(#[trigger] b[j]) by {
                assert(b[j] == s[j + p]);
            }
        }
        b.lemma_all_neg_filter_empty(pr);
        assert(b.filter(pr) =~= Seq::<MetaView>::empty());
        assert(a.filter(pr) + seq![x] + b.filter(pr) =~= (a.filter(pr) + b.filter(pr)).push(x));
    } else {
        assert(a.filter(pr) + Seq::<MetaView>::empty() =~= a.filter(pr));
    }
}

/// Two newest-first orderings of the same entries that keep each time's
/// entries in the same order are the same sequence.
proof fn lemma_newest_first_unique(a: Seq<MetaView>, b: Seq<MetaView>)
    requires
        newest_first(a),
        newest_first(b),
        forall|k: int| #[trigger] a.filter(saved_at(k)) == b.filter(saved_at(k)),
        a.to_multiset() == b.to_multiset(),
    ensures
        a == b,
    decreases a.len(),
{
    vstd::seq_lib::to_multiset_len(a);
    vstd::seq_lib::to_multiset_len(b);
    if a.len() == 0 {
        assert(a =~= b);
    } else {
        let x = a[0];
        let y = b[0];
        vstd::seq_lib::to_multiset_contains(a, x);
        vstd::seq_lib::to_multiset_contains(b, x);
        vstd::seq_lib::to_multiset_contains(a, y);
        vstd::seq_lib::to_multiset_contains(b, y);
        assert(a.contains(x));
        assert(b.contains(y));
        let jb = choose|j: int| 0 <= j < b.len() && b[j] == x;
        let ja = choose|j: int| 0 <= j < a.len() && a[j] == y;
        assert(ts_key(b[0].updated_at) >= ts_key(b[jb].updated_at));
        assert(ts_key(a[0].updated_at) >= ts_key(a[ja].updated_at));
        let k = ts_key(x.updated_at);
        let p = saved_at(k);
        let a2 = a.drop_first();
        let b2 = b.drop_first();
        assert(a =~= seq![x] + a2);
        assert(b =~= seq![y] + b2);
        Seq::filter_distributes_over_add(seq![x], a2, p);
        Seq::filter_distributes_over_add(seq![y], b2, p);
        lemma_filter_single(x, p);
        lemma_filter_single(y, p);
        assert(a.filter(p) == b.filter(p));
        assert(a.filter(p)[0] == x);
        assert(b.filter(p)[0] == y);
        assert forall|q: int| #[trigger] a2.filter(saved_at(q)) == b2.filter(saved_at(q)) by {
            let pq = saved_at(q);
            Seq::filter_distributes_over_add(seq![x], a2, pq);
            Seq::filter_distributes_over_add(seq![y], b2, pq);
            lemma_filter_single(x, pq);
            lemma_filter_single(y, pq);
            assert(a.filter(pq) == b.filter(pq));
            if q == k {
                assert(a2.filter(pq) =~= a.filter(pq).drop_first());
                assert(b2.filter(pq) =~= b.filter(pq).drop_first());
            } else {
                assert(Seq::<MetaView>::empty() + a2.filter(pq) =~= a2.filter(pq));
                assert(Seq::<MetaView>::empty() + b2.filter(pq) =~= b2.filter(pq));
                assert(a2.filter(pq) =~= a.filter(pq));
                assert(b2.filter(pq) =~= b.filter(pq));
            }
        }
        vstd::seq_lib::to_multiset_remove(a, 0);
        vstd::seq_lib::to_multiset_remove(b, 0);
        assert(a.remove(0) =~= a2);
        assert(b.remove(0) =~= b2);
        assert forall|i: int, j: int| 0 <= i < j < a2.len() implies ts_key(
            (#[trigger] a2[i]).updated_at,
        ) >= ts_key((#[trigger] a2[j]).updated_at) by {
            assert(a2[i] == a[i + 1]);
            assert(a2[j] == a[j + 1]);
        }
        assert forall|i: int, j: int| 0 <= i < j < b2.len() implies ts_key(
            (#[trigger] b2[i]).updated_at,
        ) >= ts_key((#[trigger] b2[j]).updated_at) by {
            assert(b2[i] == b[i + 1]);
            assert(b2[j] == b[j + 1]);
        }
        lemma_newest_first_unique(a2, b2);
    }
}

/// Every entry kept: the list itself.
proof fn lemma_kept_all(notes: Seq<MetaView>, present: Seq<bool>)
    requires
        present.len() == notes.len(),
        forall|i: int| 0 <= i < present.len() ==> #[trigger] present[i],
    ensures
        kept_notes(notes, present) == notes,
    decreases notes.len(),
{
    if notes.len() > 0 {
        assert(present.last() == present[present.len() - 1]);
        lemma_kept_all(notes.drop_last(), present.drop_last());
        assert(notes.drop_last().push(notes.last()) =~= notes);
    }
}

/// Listing again a library just listed, with every file still present,
/// changes nothing: the listing is already newest first.
pub proof fn lemma_listing_settles(listed: Seq<MetaView>, present: Seq<bool>, relisted: Seq<MetaView>)
    requires
        present.len() == listed.len(),
        forall|i: int| 0 <= i < present.len() ==> #[trigger] present[i],
        newest_first(listed),
        newest_first_of(relisted, kept_notes(listed, present)),
    ensures
        relisted == listed,
{
    lemma_kept_all(listed, present);
    lemma_newest_first_unique(relisted, listed);
}

impl NoteStore {
    /// Lists the library: keeps the entries whose file is present
    /// (`present[i]` for entry `i`, as the caller found on disk), orders
    /// them newest first (see `newest_first_of`), stores that as the index
    /// and returns it.
    pub fn list_notes(&self, metadata: &mut MetadataFile, present: &Vec<bool>) -> (r: Vec<
        NoteMetadata,
    >)
        requires
            present@.len() == old(metadata)@.notes.len(),
        ensures
            newest_first_of(final(metadata)@.notes, kept_notes(old(metadata)@.notes, present@)),
            final(metadata)@.categories == old(metadata)@.categories,
            meta_views(r@) == final(metadata)@.notes,
    {
        let ghost src = metadata@.notes;
        let n = metadata.notes.len();
        let mut res: Vec<NoteMetadata> = Vec::new();
        let mut i: usize = 0;
        while i < n
            invariant
                n == src.len() == present@.len(),
                metadata@ == old(metadata)@,
                src == metadata@.notes,
                i <= n,
                newest_first(meta_views(res@)),
                forall|k: int|
                    #[trigger] meta_views(res@).filter(saved_at(k)) == kept_notes(
                        src.take(i as int),
                        present@.take(i as int),
                    ).filter(saved_at(k)),
                meta_views(res@).to_multiset() == kept_notes(
                    src.take(i as int),
                    present@.take(i as int),
                ).to_multiset(),
            decreases n - i,
        {
            let ghost kept_before = kept_notes(src.take(i as int), present@.take(i as int));
            proof {
                lemma_kept_step(src, present@, i as int);
            }
            if present[i] {
                let x = metadata.notes[i].clone();
                assert(x@ == src[i as int]);
                let mut p: usize = 0;
                while p < res.len() && !is_later(x.updated_at, res[p].updated_at)
                    invariant
                        p <= res@.len(),
                        forall|j: int|
                            0 <= j < p ==> ts_key((#[trigger] meta_views(res@)[j]).updated_at)
                                >= ts_key(x.updated_at),
                    decreases res@.len() - p,
                {
                    p = p + 1;
                }
                let ghost before = meta_views(res@);
                proof {
                    lemma_insert_keeps_order(before, p as int, x@);
                    lemma_insert_keeps_groups(before, kept_before, p as int, x@);
                }
                res.insert(p, x);
                assert(meta_views(res@) =~= before.insert(p as int, x@));
            }
            i = i + 1;
        }
        assert(src.take(n as int) =~= src);
        assert(present@.take(n as int) =~= present@);
        metadata.notes = res;
        let mut out: Vec<NoteMetadata> = Vec::new();
        let mut j: usize = 0;
        while j < metadata.notes.len()
            invariant
                j <= metadata.notes@.len(),
                forall|q: int| 0 <= q < j ==> #[trigger] out@[q] == metadata.notes@[q],
                out@.len() == j,
            decreases metadata.notes@.len() - j,
        {
            out.push(metadata.notes[j].clone());
            j = j + 1;
        }
        assert(out@ =~= metadata.notes@);
        out
    }
}

} // verus!
