//! The order of texts (that of `String`'s `Ord`: character by character,
//! a proper prefix first) and sorted lists of names kept in it.
use vstd::prelude::*;
use crate::chars::{chars_of, string_of};
use crate::model::string_views;
use crate::strings::{trim, trim_bounds};

verus! {

broadcast use vstd::seq_lib::group_seq_properties;

/// `a` comes strictly before `b`: at the first position where they
/// differ, `a` has the smaller character, or `a` is a proper prefix of
/// `b`. UTF-8 keeps the order of code points, so this is the byte order
/// that `String`'s `Ord` uses.
pub open spec fn text_lt(a: Seq<char>, b: Seq<char>) -> bool
    decreases a.len(),
{
    if a.len() == 0 {
        b.len() > 0
    } else if b.len() == 0 {
        false
    } else if a[0] != b[0] {
        (a[0] as int) < (b[0] as int)
    } else {
        text_lt(a.drop_first(), b.drop_first())
    }
}

/// `a` comes before or is `b`.
pub open spec fn text_le(a: Seq<char>, b: Seq<char>) -> bool {
    !text_lt(b, a)
}

/// Every name comes strictly before the ones after it.
pub open spec fn strictly_sorted(s: Seq<Seq<char>>) -> bool {
    forall|i: int, j: int| 0 <= i < j < s.len() ==> text_lt(#[trigger] s[i], #[trigger] s[j])
}

/// No name comes strictly before one before it.
pub open spec fn sorted(s: Seq<Seq<char>>) -> bool {
    forall|i: int, j: int| 0 <= i < j < s.len() ==> text_le(#[trigger] s[i], #[trigger] s[j])
}

pub proof fn lemma_lt_irreflexive(a: Seq<char>)
    ensures
        !text_lt(a, a),
    decreases a.len(),
{
    if a.len() > 0 {
        lemma_lt_irreflexive(a.drop_first());
    }
}

pub proof fn lemma_lt_asymmetric(a: Seq<char>, b: Seq<char>)
    ensures
        text_lt(a, b) ==> !text_lt(b, a),
    decreases a.len(),
{
    if a.len() > 0 && b.len() > 0 && a[0] == b[0] {
        lemma_lt_asymmetric(a.drop_first(), b.drop_first());
    }
}

pub proof fn lemma_lt_transitive(a: Seq<char>, b: Seq<char>, c: Seq<char>)
    ensures
        text_lt(a, b) && text_lt(b, c) ==> text_lt(a, c),
    decreases a.len(),
{
    if a.len() > 0 && b.len() > 0 && c.len() > 0 && a[0] == b[0] && b[0] == c[0] {
        lemma_lt_transitive(a.drop_first(), b.drop_first(), c.drop_first());
    }
}

pub proof fn lemma_lt_total(a: Seq<char>, b: Seq<char>)
    ensures
        a != b ==> text_lt(a, b) || text_lt(b, a),
    decreases a.len(),
{
    if a.len() > 0 && b.len() > 0 && a[0] == b[0] {
        lemma_lt_total(a.drop_first(), b.drop_first());
        if a.drop_first() == b.drop_first() {
            assert(a =~= seq![a[0]] + a.drop_first());
            assert(b =~= seq![b[0]] + b.drop_first());
        }
    } else if a.len() == 0 && b.len() == 0 {
        assert(a =~= b);
    } else if a.len() > 0 && b.len() > 0 {
        assert((a[0] as int) != (b[0] as int));
    }
}

pub proof fn lemma_lt_le_trans(a: Seq<char>, b: Seq<char>, c: Seq<char>)
    ensures
        text_lt(a, b) && text_le(b, c) ==> text_lt(a, c),
{
    lemma_lt_total(b, c);
    lemma_lt_transitive(a, b, c);
}

pub proof fn lemma_le_transitive(a: Seq<char>, b: Seq<char>, c: Seq<char>)
    ensures
        text_le(a, b) && text_le(b, c) ==> text_le(a, c),
{
    lemma_lt_total(a, b);
    lemma_lt_total(b, c);
    lemma_lt_transitive(c, b, a);
    lemma_lt_transitive(c, a, b);
    lemma_lt_transitive(b, c, a);
    lemma_lt_irreflexive(a);
}

/// Comparing past a common prefix does not change the order.
proof fn lemma_lt_skip(a: Seq<char>, b: Seq<char>, i: int)
    requires
        0 <= i <= a.len(),
        i <= b.len(),
        forall|j: int| 0 <= j < i ==> a[j] == b[j],
    ensures
        text_lt(a, b) == text_lt(a.skip(i), b.skip(i)),
    decreases i,
{
    if i > 0 {
        assert(a[0] == b[0]);
        let a1 = a.drop_first();
        let b1 = b.drop_first();
        assert forall|j: int| 0 <= j < i - 1 implies a1[j] == b1[j] by {
            assert(a1[j] == a[j + 1]);
            assert(b1[j] == b[j + 1]);
        }
        lemma_lt_skip(a1, b1, i - 1);
        assert(a1.skip(i - 1) =~= a.skip(i));
        assert(b1.skip(i - 1) =~= b.skip(i));
    } else {
        assert(a.skip(0) =~= a);
        assert(b.skip(0) =~= b);
    }
}

/// The text order is that of code points at the first position where two
/// texts differ (as for `String`, whose UTF-8 bytes keep that order), and
/// a proper prefix comes first.
pub proof fn lemma_text_order_by_code_points(a: Seq<char>, b: Seq<char>, k: int)
    requires
        0 <= k <= a.len(),
        k <= b.len(),
        forall|j: int| 0 <= j < k ==> a[j] == b[j],
    ensures
        k < a.len() && k < b.len() && a[k] != b[k] ==> (text_lt(a, b) <==> (a[k] as int) < (
        b[k] as int)),
        k == a.len() && k < b.len() ==> text_lt(a, b),
        k == a.len() && k == b.len() ==> !text_lt(a, b),
{
    lemma_lt_skip(a, b, k);
    let a1 = a.skip(k);
    let b1 = b.skip(k);
    if k < a.len() && k < b.len() {
        assert(a1[0] == a[k]);
        assert(b1[0] == b[k]);
    }
}

/// Whether the characters `a` come strictly before the characters `b`.
pub fn chars_less(a: &Vec<char>, b: &Vec<char>) -> (r: bool)
    ensures
        r == text_lt(a@, b@),
{
    let mut i: usize = 0;
    while i < a.len() && i < b.len() && a[i] == b[i]
        invariant
            i <= a@.len(),
            i <= b@.len(),
            forall|j: int| 0 <= j < i ==> a@[j] == b@[j],
        decreases a@.len() - i,
    {
        i = i + 1;
    }
    proof {
        lemma_lt_skip(a@, b@, i as int);
        if i < a.len() && i < b.len() {
            assert(a@.skip(i as int)[0] == a@[i as int]);
            assert(b@.skip(i as int)[0] == b@[i as int]);
        }
    }
    if i == a.len() {
        i < b.len()
    } else if i == b.len() {
        false
    } else {
        a[i] < b[i]
    }
}

/// Whether `a` comes strictly before `b`.
pub fn text_less(a: &str, b: &str) -> (r: bool)
    ensures
        r == text_lt(a@, b@),
{
    let av = chars_of(a);
    let bv = chars_of(b);
    chars_less(&av, &bv)
}

/// Whether two strings hold the same characters.
pub fn same_text(a: &str, b: &str) -> (r: bool)
    ensures
        r == (a@ == b@),
{
    let av = chars_of(a);
    let bv = chars_of(b);
    if av.len() != bv.len() {
        return false;
    }
    let mut i: usize = 0;
    while i < av.len()
        invariant
            av@ == a@,
            bv@ == b@,
            av@.len() == bv@.len(),
            i <= av@.len(),
            forall|j: int| 0 <= j < i ==> av@[j] == bv@[j],
        decreases av@.len() - i,
    {
        if av[i] != bv[i] {
            assert(a@[i as int] != b@[i as int]);
            return false;
        }
        i = i + 1;
    }
    assert(av@ =~= bv@);
    true
}

/// A string without leading and trailing whitespace.
pub fn trim_string(s: &str) -> (r: String)
    ensures
        r@ == trim(s@),
{
    let v = chars_of(s);
    let (a, b) = trim_bounds(&v, 0, v.len());
    assert(v@.subrange(0, v@.len() as int) =~= v@);
    string_of(&v, a, b)
}

/// Inserting one element adds it to the multiset of a sequence.
pub proof fn lemma_insert_multiset<A>(s: Seq<A>, p: int, x: A)
    requires
        0 <= p <= s.len(),
    ensures
        s.insert(p, x).to_multiset() =~= s.to_multiset().insert(x),
{
    let t = s.insert(p, x);
    assert(t.remove(p) =~= s);
    t.to_multiset_ensures();
    assert(t[p] == x);
    assert(t.contains(x));
}

/// Adds `s` to a strictly sorted list of names unless it is there.
pub fn insert_name(v: &mut Vec<String>, s: String)
    requires
        strictly_sorted(string_views(old(v)@)),
    ensures
        strictly_sorted(string_views(final(v)@)),
        string_views(final(v)@).to_set() == string_views(old(v)@).to_set().insert(s@),
{
    let ghost old_views = string_views(v@);
    let sv = chars_of(s.as_str());
    let mut p: usize = 0;
    while p < v.len() && text_less(v[p].as_str(), s.as_str())
        invariant
            p <= v@.len(),
            v@ == old(v)@,
            forall|j: int| 0 <= j < p ==> text_lt(#[trigger] v@[j]@, s@),
        decreases v@.len() - p,
    {
        p = p + 1;
    }
    if p < v.len() && same_text(v[p].as_str(), s.as_str()) {
        assert(old_views[p as int] == s@);
        assert(old_views.to_set().insert(s@) =~= old_views.to_set());
        return;
    }
    proof {
        if p < v.len() {
            lemma_lt_total(v@[p as int]@, s@);
        }
    }
    v.insert(p, s);
    proof {
        let nv = string_views(v@);
        assert(nv =~= old_views.insert(p as int, sv@));
        assert forall|i: int, j: int| 0 <= i < j < nv.len() implies text_lt(
            #[trigger] nv[i],
            #[trigger] nv[j],
        ) by {
            if i < p && j == p {
            } else if i < p && j > p {
                assert(nv[j] == old_views[j - 1]);
                if j - 1 > p {
                    assert(text_lt(old_views[p as int], old_views[j - 1]));
                    lemma_lt_transitive(sv@, old_views[p as int], old_views[j - 1]);
                }
                lemma_lt_transitive(old_views[i], sv@, old_views[j - 1]);
            } else if i == p {
                assert(nv[j] == old_views[j - 1]);
                if j - 1 > p {
                    assert(text_lt(old_views[p as int], old_views[j - 1]));
                    lemma_lt_transitive(sv@, old_views[p as int], old_views[j - 1]);
                }
            } else if i > p {
                assert(nv[i] == old_views[i - 1]);
                assert(nv[j] == old_views[j - 1]);
            } else {
                assert(nv[i] == old_views[i]);
                assert(nv[j] == old_views[j]);
            }
        }
        assert(nv.to_set() =~= old_views.to_set().insert(s@)) by {
            assert forall|x: Seq<char>| nv.to_set().contains(x) implies old_views.to_set().insert(
                s@,
            ).contains(x) by {
                let k = choose|k: int| 0 <= k < nv.len() && nv[k] == x;
                if k < p {
                    assert(old_views[k] == x);
                } else if k > p {
                    assert(old_views[k - 1] == x);
                }
            }
            assert forall|x: Seq<char>| old_views.to_set().insert(s@).contains(x) implies nv.to_set().contains(x) by {
                if x == s@ {
                    assert(nv[p as int] == x);
                } else {
                    let k = choose|k: int| 0 <= k < old_views.len() && old_views[k] == x;
                    if k < p {
                        assert(nv[k] == x);
                    } else {
                        assert(nv[k + 1] == x);
                    }
                }
            }
        }
    }
}

/// Sorts a list of names (`Vec<String>::sort`): the result is sorted and
/// holds every name as often as before.
pub fn sort_names(v: &mut Vec<String>)
    ensures
        sorted(string_views(final(v)@)),
        string_views(final(v)@).to_multiset() == string_views(old(v)@).to_multiset(),
{
    let ghost src = string_views(v@);
    let mut res: Vec<String> = Vec::new();
    let mut i: usize = 0;
    while i < v.len()
        invariant
            v@ == old(v)@,
            src == string_views(v@),
            i <= v@.len(),
            sorted(string_views(res@)),
            string_views(res@).to_multiset() == src.take(i as int).to_multiset(),
        decreases v@.len() - i,
    {
        let s = v[i].clone();
        let mut p: usize = 0;
        while p < res.len() && !text_less(s.as_str(), res[p].as_str())
            invariant
                p <= res@.len(),
                forall|j: int| 0 <= j < p ==> text_le(#[trigger] res@[j]@, s@),
            decreases res@.len() - p,
        {
            p = p + 1;
        }
        assert(p == res@.len() || text_lt(s@, res@[p as int]@));
        let ghost before = string_views(res@);
        res.insert(p, s);
        proof {
            let nv = string_views(res@);
            assert(nv =~= before.insert(p as int, s@));
            assert forall|a: int, b: int| 0 <= a < b < nv.len() implies text_le(
                #[trigger] nv[a],
                #[trigger] nv[b],
            ) by {
                if a < p && b == p {
                } else if a < p && b > p {
                    assert(nv[b] == before[b - 1]);
                    assert(text_le(before[a], before[b - 1]));
                } else if a == p {
                    assert(nv[b] == before[b - 1]);
                    assert(text_lt(s@, before[p as int]));
                    if b - 1 > p {
                        assert(text_le(before[p as int], before[b - 1]));
                    } else {
                        lemma_lt_irreflexive(before[p as int]);
                    }
                    lemma_lt_le_trans(s@, before[p as int], before[b - 1]);
                    lemma_lt_asymmetric(s@, before[b - 1]);
                } else if a > p {
                    assert(nv[a] == before[a - 1]);
                    assert(nv[b] == before[b - 1]);
                } else {
                    assert(nv[a] == before[a]);
                    assert(nv[b] == before[b]);
                }
            }
            lemma_insert_multiset(before, p as int, s@);
            assert(src.take(i + 1) =~= src.take(i as int).push(s@));
            src.take(i as int).to_multiset_ensures();
        }
        i = i + 1;
    }
    assert(src.take(i as int) =~= src);
    *v = res;
}

} // verus!

verus! {

/// Filtering a one-element sequence.
pub proof fn lemma_filter_single<A>(x: A, p: spec_fn(A) -> bool)
    ensures
        seq![x].filter(p) == if p(x) {
            seq![x]
        } else {
            Seq::<A>::empty()
        },
{
    let e = Seq::<A>::empty();
    e.lemma_filter_push(x, p);
    assert(e.push(x) =~= seq![x]);
    reveal(Seq::filter);
    assert(e.filter(p) =~= e);
}

/// Inserting `x` at `p`, when no element from `p` on shares `x`'s group
/// `g`, puts `x` at the end of its group and leaves the other groups alone.
pub proof fn lemma_insert_filter<A>(s: Seq<A>, p: int, x: A, g: spec_fn(A) -> bool)
    requires
        0 <= p <= s.len(),
        g(x) ==> forall|j: int| p <= j < s.len() ==> !g(#[trigger] s[j]),
    ensures
        s.insert(p, x).filter(g) == if g(x) {
            s.filter(g).push(x)
        } else {
            s.filter(g)
        },
{
    let a = s.take(p);
    let b = s.skip(p);
    assert(s.insert(p, x) =~= a + seq![x] + b);
    assert(s =~= a + b);
    Seq::filter_distributes_over_add(a + seq![x], b, g);
    Seq::filter_distributes_over_add(a, seq![x], g);
    Seq::filter_distributes_over_add(a, b, g);
    lemma_filter_single(x, g);
    if g(x) {
        assert(b.all(|m: A| !g(m))) by {
            assert forall|j: int| 0 <= j < b.len() implies !g(#[trigger] b[j]) by {
                assert(b[j] == s[j + p]);
            }
        }
        b.lemma_all_neg_filter_empty(g);
        assert(b.filter(g) =~= Seq::<A>::empty());
        assert(a.filter(g) + seq![x] + b.filter(g) =~= (a.filter(g) + b.filter(g)).push(x));
    } else {
        assert(a.filter(g) + Seq::<A>::empty() =~= a.filter(g));
    }
}

} // verus!
