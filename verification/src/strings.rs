//! Text shapes over character sequences (trimming, line and word
//! structure) and the scanning loops that compute them.
use vstd::prelude::*;
use crate::chars::{is_ws, is_whitespace};

verus! {

/// Number of leading characters of `s` that satisfy `p`.
pub open spec fn lead_count(s: Seq<char>, p: spec_fn(char) -> bool) -> nat
    decreases s.len(),
{
    if s.len() > 0 && p(s[0]) {
        1 + lead_count(s.drop_first(), p)
    } else {
        0
    }
}

/// Number of trailing characters of `s` that satisfy `p`.
pub open spec fn trail_count(s: Seq<char>, p: spec_fn(char) -> bool) -> nat
    decreases s.len(),
{
    if s.len() > 0 && p(s.last()) {
        1 + trail_count(s.drop_last(), p)
    } else {
        0
    }
}

pub open spec fn ws_pred() -> spec_fn(char) -> bool {
    |c: char| is_ws(c)
}

pub open spec fn eq_pred(ch: char) -> spec_fn(char) -> bool {
    |c: char| c == ch
}

pub open spec fn not_eq_pred(ch: char) -> spec_fn(char) -> bool {
    |c: char| c != ch
}

/// `s` without its leading characters that satisfy `p`.
pub open spec fn strip_lead(s: Seq<char>, p: spec_fn(char) -> bool) -> Seq<char> {
    s.skip(lead_count(s, p) as int)
}

/// `s` without its trailing characters that satisfy `p`.
pub open spec fn strip_trail(s: Seq<char>, p: spec_fn(char) -> bool) -> Seq<char> {
    s.take(s.len() - trail_count(s, p))
}

/// `s` without leading whitespace (`str::trim_start`).
pub open spec fn trim_start(s: Seq<char>) -> Seq<char> {
    strip_lead(s, ws_pred())
}

/// `s` without leading and trailing whitespace (`str::trim`).
pub open spec fn trim(s: Seq<char>) -> Seq<char> {
    strip_trail(strip_lead(s, ws_pred()), ws_pred())
}

/// The first `n` characters of `s`, or all of `s` when it is shorter.
pub open spec fn prefix(s: Seq<char>, n: nat) -> Seq<char> {
    if s.len() <= n {
        s
    } else {
        s.take(n as int)
    }
}

/// The words of `s` (maximal runs of non-whitespace characters), with
/// every run of whitespace between two words replaced by one `sep`.
/// `s` is expected to start with a word or be empty; see `words_joined`.
pub open spec fn join_words(s: Seq<char>, sep: char) -> Seq<char>
    decreases s.len(),
{
    if s.len() == 0 {
        seq![]
    } else if !is_ws(s[0]) {
        seq![s[0]] + join_words(s.drop_first(), sep)
    } else {
        let t = trim_start(s);
        proof {
            lemma_lead_count(s, ws_pred());
        }
        if t.len() == 0 {
            seq![]
        } else {
            seq![sep] + join_words(t, sep)
        }
    }
}

/// The words of `s` joined by `sep`
/// (`s.split_whitespace().collect::<Vec<_>>().join(sep)`).
pub open spec fn words_joined(s: Seq<char>, sep: char) -> Seq<char> {
    join_words(trim_start(s), sep)
}

/// Every character of `s` satisfies `p`.
pub open spec fn all_chars(s: Seq<char>, p: spec_fn(char) -> bool) -> bool {
    forall|i: int| 0 <= i < s.len() ==> #[trigger] p(s[i])
}

pub proof fn lemma_lead_count(s: Seq<char>, p: spec_fn(char) -> bool)
    ensures
        lead_count(s, p) <= s.len(),
        forall|j: int| 0 <= j < lead_count(s, p) ==> #[trigger] p(s[j]),
        lead_count(s, p) < s.len() ==> !p(s[lead_count(s, p) as int]),
    decreases s.len(),
{
    if s.len() > 0 && p(s[0]) {
        lemma_lead_count(s.drop_first(), p);
        assert forall|j: int| 0 <= j < lead_count(s, p) implies #[trigger] p(s[j]) by {
            if j > 0 {
                assert(s[j] == s.drop_first()[j - 1]);
            }
        }
    }
}

/// `i` is the number of leading characters satisfying `p` exactly when
/// the first `i` satisfy it and the next one (if any) does not.
pub proof fn lemma_lead_count_is(s: Seq<char>, p: spec_fn(char) -> bool, i: int)
    requires
        0 <= i <= s.len(),
        forall|j: int| 0 <= j < i ==> #[trigger] p(s[j]),
        i == s.len() || !p(s[i]),
    ensures
        lead_count(s, p) == i,
{
    lemma_lead_count(s, p);
    if lead_count(s, p) < i {
        assert(p(s[lead_count(s, p) as int]));
    }
    if lead_count(s, p) > i {
        assert(p(s[i]));
    }
}

pub proof fn lemma_trail_count(s: Seq<char>, p: spec_fn(char) -> bool)
    ensures
        trail_count(s, p) <= s.len(),
        forall|j: int| s.len() - trail_count(s, p) <= j < s.len() ==> #[trigger] p(s[j]),
        trail_count(s, p) < s.len() ==> !p(s[s.len() - trail_count(s, p) - 1]),
    decreases s.len(),
{
    if s.len() > 0 && p(s.last()) {
        lemma_trail_count(s.drop_last(), p);
        assert forall|j: int| s.len() - trail_count(s, p) <= j < s.len() implies #[trigger] p(
            s[j],
        ) by {
            if j < s.len() - 1 {
                assert(s[j] == s.drop_last()[j]);
            }
        }
    }
}

pub proof fn lemma_trail_count_is(s: Seq<char>, p: spec_fn(char) -> bool, i: int)
    requires
        0 <= i <= s.len(),
        forall|j: int| s.len() - i <= j < s.len() ==> #[trigger] p(s[j]),
        i == s.len() || !p(s[s.len() - i - 1]),
    ensures
        trail_count(s, p) == i,
{
    lemma_trail_count(s, p);
    let t = trail_count(s, p) as int;
    if t < i {
        assert(p(s[s.len() - t - 1]));
    }
    if t > i {
        assert(p(s[s.len() - i - 1]));
    }
}

/// Trimming twice is trimming once.
pub proof fn lemma_trim_idempotent(s: Seq<char>)
    ensures
        trim(trim(s)) == trim(s),
{
    let t = trim(s);
    let p = ws_pred();
    lemma_lead_count(s, p);
    let a = strip_lead(s, p);
    lemma_trail_count(a, p);
    if t.len() == 0 {
        assert(lead_count(t, p) == 0);
        assert(trail_count(t.skip(0), p) == 0);
        assert(trim(t) =~= t);
    } else {
        let k = lead_count(s, p) as int;
        assert(t[0] == s[k]);
        lemma_lead_count_is(t, p, 0);
        assert(strip_lead(t, p) =~= t);
        assert(t[t.len() - 1] == a[t.len() - 1]);
        lemma_trail_count_is(t, p, 0);
        assert(strip_trail(t, p) =~= t);
    }
}

/// The first position at or after `from` (and before `to`) whose
/// character is not whitespace, or `to`.
pub fn skip_ws(v: &Vec<char>, from: usize, to: usize) -> (k: usize)
    requires
        from <= to <= v.len(),
    ensures
        from <= k <= to,
        lead_count(v@.subrange(from as int, to as int), ws_pred()) == k - from,
        v@.subrange(from as int, to as int).skip(k - from) =~= v@.subrange(k as int, to as int),
        k < to ==> !is_ws(v@[k as int]),
{
    let mut k: usize = from;
    while k < to && is_whitespace(v[k])
        invariant
            from <= k <= to <= v.len(),
            forall|j: int| from <= j < k ==> is_ws(#[trigger] v@[j]),
        decreases to - k,
    {
        k = k + 1;
    }
    proof {
        let s = v@.subrange(from as int, to as int);
        assert forall|j: int| 0 <= j < k - from implies #[trigger] ws_pred()(s[j]) by {
            assert(s[j] == v@[from + j]);
        }
        if k < to {
            assert(s[k - from] == v@[k as int]);
        }
        lemma_lead_count_is(s, ws_pred(), k - from);
    }
    k
}

/// The first position at or after `from` (and before `to`) whose
/// character is not `ch`, or `to`.
pub fn skip_char(v: &Vec<char>, from: usize, to: usize, ch: char) -> (k: usize)
    requires
        from <= to <= v.len(),
    ensures
        from <= k <= to,
        lead_count(v@.subrange(from as int, to as int), eq_pred(ch)) == k - from,
        v@.subrange(from as int, to as int).skip(k - from) =~= v@.subrange(k as int, to as int),
{
    let mut k: usize = from;
    while k < to && v[k] == ch
        invariant
            from <= k <= to <= v.len(),
            forall|j: int| from <= j < k ==> #[trigger] v@[j] == ch,
        decreases to - k,
    {
        k = k + 1;
    }
    proof {
        let s = v@.subrange(from as int, to as int);
        assert forall|j: int| 0 <= j < k - from implies #[trigger] eq_pred(ch)(s[j]) by {
            assert(s[j] == v@[from + j]);
        }
        if k < to {
            assert(s[k - from] == v@[k as int]);
        }
        lemma_lead_count_is(s, eq_pred(ch), k - from);
    }
    k
}

/// The first position at or after `from` (and before `to`) that holds
/// `ch`, or `to`.
pub fn find_char(v: &Vec<char>, from: usize, to: usize, ch: char) -> (k: usize)
    requires
        from <= to <= v.len(),
    ensures
        from <= k <= to,
        lead_count(v@.subrange(from as int, to as int), not_eq_pred(ch)) == k - from,
        v@.subrange(from as int, to as int).take(k - from) =~= v@.subrange(from as int, k as int),
        k < to ==> v@[k as int] == ch,
{
    let mut k: usize = from;
    while k < to && v[k] != ch
        invariant
            from <= k <= to <= v.len(),
            forall|j: int| from <= j < k ==> #[trigger] v@[j] != ch,
        decreases to - k,
    {
        k = k + 1;
    }
    proof {
        let s = v@.subrange(from as int, to as int);
        assert forall|j: int| 0 <= j < k - from implies #[trigger] not_eq_pred(ch)(s[j]) by {
            assert(s[j] == v@[from + j]);
        }
        if k < to {
            assert(s[k - from] == v@[k as int]);
        }
        lemma_lead_count_is(s, not_eq_pred(ch), k - from);
    }
    k
}

/// The position just after the last character in `from..to` that is not
/// whitespace, or `from`.
pub fn back_ws(v: &Vec<char>, from: usize, to: usize) -> (k: usize)
    requires
        from <= to <= v.len(),
    ensures
        from <= k <= to,
        trail_count(v@.subrange(from as int, to as int), ws_pred()) == to - k,
        v@.subrange(from as int, to as int).take(k - from) =~= v@.subrange(from as int, k as int),
{
    let mut k: usize = to;
    while k > from && is_whitespace(v[k - 1])
        invariant
            from <= k <= to <= v.len(),
            forall|j: int| k <= j < to ==> is_ws(#[trigger] v@[j]),
        decreases k - from,
    {
        k = k - 1;
    }
    proof {
        let s = v@.subrange(from as int, to as int);
        let i = (to - k) as int;
        assert forall|j: int| s.len() - i <= j < s.len() implies #[trigger] ws_pred()(s[j]) by {
            assert(s[j] == v@[from + j]);
        }
        if k > from {
            assert(s[s.len() - i - 1] == v@[k - 1]);
        }
        lemma_trail_count_is(s, ws_pred(), i);
    }
    k
}

/// The position just after the last character in `from..to` that is not
/// `ch`, or `from`.
pub fn back_char(v: &Vec<char>, from: usize, to: usize, ch: char) -> (k: usize)
    requires
        from <= to <= v.len(),
    ensures
        from <= k <= to,
        trail_count(v@.subrange(from as int, to as int), eq_pred(ch)) == to - k,
        v@.subrange(from as int, to as int).take(k - from) =~= v@.subrange(from as int, k as int),
{
    let mut k: usize = to;
    while k > from && v[k - 1] == ch
        invariant
            from <= k <= to <= v.len(),
            forall|j: int| k <= j < to ==> #[trigger] v@[j] == ch,
        decreases k - from,
    {
        k = k - 1;
    }
    proof {
        let s = v@.subrange(from as int, to as int);
        let i = (to - k) as int;
        assert forall|j: int| s.len() - i <= j < s.len() implies #[trigger] eq_pred(ch)(s[j]) by {
            assert(s[j] == v@[from + j]);
        }
        if k > from {
            assert(s[s.len() - i - 1] == v@[k - 1]);
        }
        lemma_trail_count_is(s, eq_pred(ch), i);
    }
    k
}

/// The bounds of `trim(v[from..to])` inside `v`.
pub fn trim_bounds(v: &Vec<char>, from: usize, to: usize) -> (r: (usize, usize))
    requires
        from <= to <= v.len(),
    ensures
        from <= r.0 <= r.1 <= to,
        trim(v@.subrange(from as int, to as int)) =~= v@.subrange(r.0 as int, r.1 as int),
{
    let a = skip_ws(v, from, to);
    let b = back_ws(v, a, to);
    (a, b)
}

} // verus!
