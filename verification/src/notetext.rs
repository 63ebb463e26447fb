//! The text rules of a note: its title, its preview, its character
//! count, and the safe file and category names derived from user text.
use vstd::prelude::*;
use crate::chars::{chars_of, is_forbidden, is_forbidden_char, is_whitespace, is_ws, string_of};
use crate::error::StoreError;
use crate::strings::{
    all_chars, back_char, eq_pred, find_char, join_words, lead_count, lemma_lead_count,
    not_eq_pred, prefix, skip_char, skip_ws, strip_lead, strip_trail, trim, trim_bounds,
    trim_start, words_joined, ws_pred,
};

verus! {

/// Longest title, preview and file stem, in characters.
pub const TEXT_LIMIT: usize = 80;

/// Number of characters before the first line feed.
pub open spec fn line_len(s: Seq<char>) -> nat {
    lead_count(s, not_eq_pred('\n'))
}

/// A line read as a heading: trimmed, leading `#` marks removed, trimmed again.
pub open spec fn heading_text(line: Seq<char>) -> Seq<char> {
    trim(strip_lead(trim(line), eq_pred('#')))
}

/// The heading text of the first line of `s` whose heading text is not
/// empty, if there is one. Lines end at `\n`; a `\r` before it is
/// whitespace and disappears in the trim, as it does with `str::lines`.
pub open spec fn first_heading(s: Seq<char>) -> Option<Seq<char>>
    decreases s.len(),
{
    let n = line_len(s);
    let h = heading_text(s.take(n as int));
    if h.len() > 0 {
        Some(h)
    } else if n < s.len() {
        proof {
            lemma_lead_count(s, not_eq_pred('\n'));
        }
        first_heading(s.skip(n + 1int))
    } else {
        None
    }
}

/// Title given to a note that has neither a title nor a heading line.
pub open spec fn untitled_note() -> Seq<char> {
    "未命名笔记"@
}

/// The title a note is saved under: the trimmed title when there is
/// one, else the first heading line of the content, else a default;
/// at most `TEXT_LIMIT` characters of the first two.
pub open spec fn note_title(title: Seq<char>, content: Seq<char>) -> Seq<char> {
    let t = trim(title);
    if t.len() > 0 {
        prefix(t, 80)
    } else {
        match first_heading(content) {
            Some(h) => prefix(h, 80),
            None => untitled_note(),
        }
    }
}

/// The preview of a note: its words joined by single spaces, cut to
/// `TEXT_LIMIT` characters.
pub open spec fn preview_text(content: Seq<char>) -> Seq<char> {
    prefix(words_joined(content, ' '), 80)
}

/// Number of characters of `s` that are not whitespace.
pub open spec fn non_ws_count(s: Seq<char>) -> nat
    decreases s.len(),
{
    if s.len() == 0 {
        0
    } else {
        non_ws_count(s.drop_last()) + if is_ws(s.last()) {
            0nat
        } else {
            1nat
        }
    }
}

/// `s` with every reserved or control character replaced by `_`.
pub open spec fn sanitize(s: Seq<char>) -> Seq<char> {
    s.map_values(|c: char| if is_forbidden(c) { '_' } else { c })
}

/// The file stem made of user text: trimmed, reserved and control
/// characters replaced by `_`, words joined by `_`, leading and trailing
/// `_` removed, cut to `TEXT_LIMIT` characters.
pub open spec fn stem_text(value: Seq<char>) -> Seq<char> {
    prefix(
        strip_trail(
            strip_lead(words_joined(sanitize(trim(value)), '_'), eq_pred('_')),
            eq_pred('_'),
        ),
        80,
    )
}

/// The safe file stem of user text, or none when nothing is left of it.
pub open spec fn safe_stem(value: Seq<char>) -> Option<Seq<char>> {
    let t = stem_text(value);
    if t.len() == 0 {
        None
    } else {
        Some(t)
    }
}

pub open spec fn stem_or_untitled(title: Seq<char>) -> Seq<char> {
    match safe_stem(title) {
        Some(s) => s,
        None => "untitled"@,
    }
}

/// File name of a note: its title's stem, a hyphen, the first eight
/// characters of its id, and `.md`.
pub open spec fn note_file_name(title: Seq<char>, id: Seq<char>) -> Seq<char> {
    stem_or_untitled(title) + "-"@ + prefix(id, 8) + ".md"@
}

/// Some character of `s` is reserved or a control character.
pub open spec fn has_forbidden(s: Seq<char>) -> bool {
    exists|i: int| 0 <= i < s.len() && #[trigger] is_forbidden(s[i])
}

/// The characters `v[from..to]`, at most `limit` of them, as a string.
pub fn prefix_string(v: &Vec<char>, from: usize, to: usize, limit: usize) -> (s: String)
    requires
        from <= to <= v.len(),
    ensures
        s@ == prefix(v@.subrange(from as int, to as int), limit as nat),
{
    if to - from <= limit {
        string_of(v, from, to)
    } else {
        let s = string_of(v, from, from + limit);
        assert(v@.subrange(from as int, to as int).take(limit as int) =~= v@.subrange(
            from as int,
            from + limit,
        ));
        s
    }
}

/// The title a note is saved under (see `note_title`).
pub fn normalize_note_title(title: &str, content: &str) -> (r: String)
    ensures
        r@ == note_title(title@, content@),
{
    let tv = chars_of(title);
    let (a, b) = trim_bounds(&tv, 0, tv.len());
    assert(tv@.subrange(0, tv@.len() as int) =~= tv@);
    if a < b {
        return prefix_string(&tv, a, b, TEXT_LIMIT);
    }
    let v = chars_of(content);
    let n = v.len();
    let mut start: usize = 0;
    assert(v@.skip(0) =~= v@);
    loop
        invariant
            start <= n == v@.len(),
            trim(title@).len() == 0,
            first_heading(content@) == first_heading(v@.skip(start as int)),
            v@ == content@,
        decreases n - start,
    {
        let end = find_char(&v, start, n, '\n');
        let (a, b) = trim_bounds(&v, start, end);
        let h = skip_char(&v, a, b, '#');
        let (c, d) = trim_bounds(&v, h, b);
        proof {
            let s = v@.skip(start as int);
            assert(s =~= v@.subrange(start as int, n as int));
            assert(s.take(end - start) =~= v@.subrange(start as int, end as int));
            assert(strip_lead(v@.subrange(a as int, b as int), eq_pred('#')) =~= v@.subrange(
                h as int,
                b as int,
            ));
            assert(heading_text(s.take(line_len(s) as int)) =~= v@.subrange(c as int, d as int));
            if end < n {
                assert(s.skip(end - start + 1) =~= v@.skip(end + 1));
            }
        }
        if c < d {
            return prefix_string(&v, c, d, TEXT_LIMIT);
        }
        if end == n {
            return String::from_str("未命名笔记");
        }
        start = end + 1;
    }
}

/// The rest of the joined words of `s` from position `i`, which starts a
/// word; `started` tells whether a word was already written, so that a
/// separator comes first.
pub open spec fn rest_words(s: Seq<char>, i: int, sep: char, started: bool) -> Seq<char> {
    if i >= s.len() {
        seq![]
    } else if started {
        seq![sep] + join_words(s.skip(i), sep)
    } else {
        join_words(s.skip(i), sep)
    }
}

/// The words of `v` joined by `sep` (see `words_joined`).
pub fn join_words_vec(v: &Vec<char>, sep: char) -> (r: Vec<char>)
    ensures
        r@ == words_joined(v@, sep),
{
    let n = v.len();
    let mut out: Vec<char> = Vec::new();
    let mut i = skip_ws(v, 0, n);
    let mut started = false;
    assert(v@.subrange(0, n as int) =~= v@);
    assert(v@.skip(n as int) =~= Seq::<char>::empty());
    while i < n
        invariant
            n == v@.len(),
            i <= n,
            i < n ==> !is_ws(v@[i as int]),
            words_joined(v@, sep) == out@ + rest_words(v@, i as int, sep, started),
        decreases n - i,
    {
        if started {
            out.push(sep);
        }
        let mut j = i;
        while j < n && !is_whitespace(v[j])
            invariant
                n == v@.len(),
                i <= j <= n,
                words_joined(v@, sep) == out@ + join_words(v@.skip(j as int), sep),
            decreases n - j,
        {
            proof {
                assert(v@.skip(j as int)[0] == v@[j as int]);
                assert(v@.skip(j as int).drop_first() =~= v@.skip(j + 1));
            }
            out.push(v[j]);
            j = j + 1;
        }
        let k = skip_ws(v, j, n);
        proof {
            let s = v@.skip(j as int);
            assert(s =~= v@.subrange(j as int, n as int));
            if j < n {
                assert(s[0] == v@[j as int]);
                lemma_lead_count(s, ws_pred());
                assert(trim_start(s) =~= v@.skip(k as int));
            } else {
                assert(s.len() == 0);
            }
            if k < n {
                assert(v@.skip(k as int)[0] == v@[k as int]);
            }
        }
        i = k;
        started = true;
    }
    proof {
        assert(rest_words(v@, i as int, sep, started) == Seq::<char>::empty());
        assert(out@ + Seq::<char>::empty() =~= out@);
    }
    out
}

/// The preview of a note (see `preview_text`).
pub fn build_preview(content: &str) -> (r: String)
    ensures
        r@ == preview_text(content@),
{
    let v = chars_of(content);
    let w = join_words_vec(&v, ' ');
    assert(w@.subrange(0, w@.len() as int) =~= w@);
    prefix_string(&w, 0, w.len(), TEXT_LIMIT)
}

/// Number of characters of the content that are not whitespace.
pub fn count_note_chars(content: &str) -> (r: usize)
    ensures
        r == non_ws_count(content@),
{
    let v = chars_of(content);
    let mut count: usize = 0;
    let mut i: usize = 0;
    while i < v.len()
        invariant
            i <= v@.len(),
            count <= i,
            count == non_ws_count(v@.take(i as int)),
        decreases v@.len() - i,
    {
        assert(v@.take(i + 1).drop_last() =~= v@.take(i as int));
        if !is_whitespace(v[i]) {
            count = count + 1;
        }
        i = i + 1;
    }
    assert(v@.take(i as int) =~= v@);
    count
}

/// The safe file stem of user text (see `stem_text`).
pub fn safe_file_stem(value: &str) -> (r: Option<String>)
    ensures
        match r {
            Some(s) => safe_stem(value@) == Some(s@),
            None => safe_stem(value@) is None,
        },
{
    let tv = chars_of(value);
    let (a, b) = trim_bounds(&tv, 0, tv.len());
    assert(tv@.subrange(0, tv@.len() as int) =~= tv@);
    let mut sv: Vec<char> = Vec::new();
    let mut i = a;
    while i < b
        invariant
            a <= i <= b <= tv@.len(),
            sv@ =~= sanitize(tv@.subrange(a as int, i as int)),
        decreases b - i,
    {
        let c = tv[i];
        if is_forbidden_char(c) {
            sv.push('_');
        } else {
            sv.push(c);
        }
        i = i + 1;
    }
    let jv = join_words_vec(&sv, '_');
    let m = jv.len();
    let c = skip_char(&jv, 0, m, '_');
    let d = back_char(&jv, c, m, '_');
    assert(jv@.subrange(0, m as int) =~= jv@);
    if c == d {
        None
    } else {
        Some(prefix_string(&jv, c, d, TEXT_LIMIT))
    }
}

/// The file name a new note gets (see `note_file_name`).
pub fn unique_note_file_name(title: &str, id: &str) -> (r: String)
    ensures
        r@ == note_file_name(title@, id@),
{
    let mut name = match safe_file_stem(title) {
        Some(s) => s,
        None => String::from_str("untitled"),
    };
    name.append("-");
    let iv = chars_of(id);
    assert(iv@.subrange(0, iv@.len() as int) =~= iv@);
    let suffix = prefix_string(&iv, 0, iv.len(), 8);
    name.append(suffix.as_str());
    name.append(".md");
    name
}

/// The file name offered when a note is exported: its title's stem and `.md`.
pub fn export_file_name(title: &str) -> (r: String)
    ensures
        r@ == stem_or_untitled(title@) + ".md"@,
{
    let mut name = match safe_file_stem(title) {
        Some(s) => s,
        None => String::from_str("untitled"),
    };
    name.append(".md");
    name
}

/// A category name as stored: trimmed, not empty, and free of reserved
/// and control characters.
pub fn normalize_category(name: &str) -> (r: Result<String, StoreError>)
    ensures
        trim(name@).len() == 0 ==> r == Err::<String, StoreError>(StoreError::EmptyCategoryName),
        trim(name@).len() > 0 && has_forbidden(trim(name@)) ==> r == Err::<String, StoreError>(
            StoreError::InvalidCategoryName,
        ),
        trim(name@).len() > 0 && !has_forbidden(trim(name@)) ==> (r matches Ok(n) && n@ == trim(
            name@,
        )),
{
    let v = chars_of(name);
    let (a, b) = trim_bounds(&v, 0, v.len());
    assert(v@.subrange(0, v@.len() as int) =~= v@);
    if a == b {
        return Err(StoreError::EmptyCategoryName);
    }
    let mut i = a;
    while i < b
        invariant
            a <= i <= b <= v@.len(),
            a < b,
            v@ == name@,
            trim(name@) == v@.subrange(a as int, b as int),
            forall|j: int| a <= j < i ==> !is_forbidden(#[trigger] v@[j]),
        decreases b - i,
    {
        if is_forbidden_char(v[i]) {
            assert(v@.subrange(a as int, b as int)[i - a] == v@[i as int]);
            return Err(StoreError::InvalidCategoryName);
        }
        i = i + 1;
    }
    assert forall|j: int| 0 <= j < b - a implies !is_forbidden(
        #[trigger] v@.subrange(a as int, b as int)[j],
    ) by {
        assert(v@.subrange(a as int, b as int)[j] == v@[a + j]);
    }
    Ok(string_of(&v, a, b))
}

} // verus!

verus! {

/// Every character of the joined words of `s` is `sep` or a character of
/// `s` that is not whitespace; so a property shared by `sep` and by the
/// non-whitespace characters of `s` holds of every character of the result.
pub proof fn lemma_join_words_chars(s: Seq<char>, sep: char, q: spec_fn(char) -> bool)
    requires
        q(sep),
        forall|i: int| 0 <= i < s.len() ==> is_ws(#[trigger] s[i]) || q(s[i]),
    ensures
        all_chars(join_words(s, sep), q),
    decreases s.len(),
{
    if s.len() == 0 {
    } else if !is_ws(s[0]) {
        let t = s.drop_first();
        assert forall|i: int| 0 <= i < t.len() implies is_ws(#[trigger] t[i]) || q(t[i]) by {
            assert(t[i] == s[i + 1]);
        }
        lemma_join_words_chars(t, sep, q);
        let r = join_words(s, sep);
        assert forall|i: int| 0 <= i < r.len() implies #[trigger] q(r[i]) by {
            if i > 0 {
                assert(r[i] == join_words(t, sep)[i - 1]);
            }
        }
    } else {
        lemma_lead_count(s, ws_pred());
        let t = trim_start(s);
        if t.len() > 0 {
            let k = lead_count(s, ws_pred()) as int;
            assert forall|i: int| 0 <= i < t.len() implies is_ws(#[trigger] t[i]) || q(t[i]) by {
                assert(t[i] == s[i + k]);
            }
            lemma_join_words_chars(t, sep, q);
            let r = join_words(s, sep);
            assert forall|i: int| 0 <= i < r.len() implies #[trigger] q(r[i]) by {
                if i > 0 {
                    assert(r[i] == join_words(t, sep)[i - 1]);
                }
            }
        }
    }
}

/// The joined words of `s` never start with whitespace.
pub proof fn lemma_words_joined_start(s: Seq<char>, sep: char)
    ensures
        words_joined(s, sep).len() > 0 ==> !is_ws(words_joined(s, sep)[0]),
{
    lemma_lead_count(s, ws_pred());
    let t = trim_start(s);
    if t.len() > 0 {
        assert(t[0] == s[lead_count(s, ws_pred()) as int]);
    }
}

pub open spec fn is_plain_name_char(c: char) -> bool {
    !is_ws(c) && !is_forbidden(c)
}

/// A safe file stem is what its name says: not empty, at most
/// `TEXT_LIMIT` characters, free of whitespace and of reserved and control
/// characters, and it does not start with `_`.
pub proof fn lemma_safe_stem_is_safe(value: Seq<char>)
    ensures
        safe_stem(value) matches Some(s) ==> {
            &&& 0 < s.len() <= 80
            &&& all_chars(s, |c: char| is_plain_name_char(c))
            &&& s[0] != '_'
        },
{
    let q = |c: char| is_plain_name_char(c);
    let sv = sanitize(trim(value));
    let st = trim_start(sv);
    lemma_lead_count(sv, ws_pred());
    assert forall|i: int| 0 <= i < st.len() implies is_ws(#[trigger] st[i]) || q(st[i]) by {
        assert(st[i] == sv[i + lead_count(sv, ws_pred())]);
    }
    lemma_join_words_chars(st, '_', q);
    let w = words_joined(sv, '_');
    let p = eq_pred('_');
    lemma_lead_count(w, p);
    let a = strip_lead(w, p);
    crate::strings::lemma_trail_count(a, p);
    let b = strip_trail(a, p);
    let k = lead_count(w, p) as int;
    assert forall|i: int| 0 <= i < b.len() implies #[trigger] q(b[i]) by {
        assert(b[i] == w[i + k]);
        assert(q(w[i + k]));
    }
    if b.len() > 0 {
        assert(b[0] == w[k]);
    }
    let t = stem_text(value);
    assert forall|i: int| 0 <= i < t.len() implies #[trigger] q(t[i]) by {
        assert(t[i] == b[i]);
    }
}

/// A note title is never empty and has at most `TEXT_LIMIT` characters.
pub proof fn lemma_note_title_bounds(title: Seq<char>, content: Seq<char>)
    ensures
        0 < note_title(title, content).len() <= 80,
{
    lemma_first_heading_nonempty(content);
    reveal_strlit("未命名笔记");
}

proof fn lemma_first_heading_nonempty(s: Seq<char>)
    ensures
        first_heading(s) matches Some(h) ==> h.len() > 0,
    decreases s.len(),
{
    let n = line_len(s);
    lemma_lead_count(s, not_eq_pred('\n'));
    if heading_text(s.take(n as int)).len() == 0 && n < s.len() {
        lemma_first_heading_nonempty(s.skip(n + 1int));
    }
}

/// A preview has at most `TEXT_LIMIT` characters, does not start with
/// whitespace, and its only whitespace characters are plain spaces.
pub proof fn lemma_preview_shape(content: Seq<char>)
    ensures
        preview_text(content).len() <= 80,
        preview_text(content).len() > 0 ==> !is_ws(preview_text(content)[0]),
        all_chars(preview_text(content), |c: char| c == ' ' || !is_ws(c)),
{
    let q = |c: char| c == ' ' || !is_ws(c);
    let t = trim_start(content);
    lemma_lead_count(content, ws_pred());
    assert forall|i: int| 0 <= i < t.len() implies is_ws(#[trigger] t[i]) || q(t[i]) by {}
    lemma_join_words_chars(t, ' ', q);
    lemma_words_joined_start(content, ' ');
    let w = words_joined(content, ' ');
    let p = preview_text(content);
    assert forall|i: int| 0 <= i < p.len() implies #[trigger] q(p[i]) by {
        assert(p[i] == w[i]);
    }
}

/// The character count of a note is the number of its characters that
/// are not whitespace: all of them when it has no whitespace, none when
/// it is all whitespace.
pub proof fn lemma_count_is_non_whitespace(s: Seq<char>)
    ensures
        non_ws_count(s) == s.filter(|c: char| !is_ws(c)).len(),
        (forall|i: int| 0 <= i < s.len() ==> !is_ws(#[trigger] s[i])) ==> non_ws_count(s) == s.len(),
        (forall|i: int| 0 <= i < s.len() ==> is_ws(#[trigger] s[i])) ==> non_ws_count(s) == 0,
    decreases s.len(),
{
    let p = |c: char| !is_ws(c);
    if s.len() > 0 {
        lemma_count_is_non_whitespace(s.drop_last());
        s.drop_last().lemma_filter_push(s.last(), p);
        assert(s.drop_last().push(s.last()) =~= s);
        if forall|i: int| 0 <= i < s.len() ==> !is_ws(#[trigger] s[i]) {
            assert forall|i: int| 0 <= i < s.drop_last().len() implies !is_ws(#[trigger] s.drop_last()[i]) by {
                assert(s.drop_last()[i] == s[i]);
            }
            assert(!is_ws(s[s.len() - 1]));
        }
        if forall|i: int| 0 <= i < s.len() ==> is_ws(#[trigger] s[i]) {
            assert forall|i: int| 0 <= i < s.drop_last().len() implies is_ws(#[trigger] s.drop_last()[i]) by {
                assert(s.drop_last()[i] == s[i]);
            }
            assert(is_ws(s[s.len() - 1]));
        }
    } else {
        reveal(Seq::filter);
        assert(s.filter(p) =~= Seq::<char>::empty());
    }
}

/// Counting non-whitespace characters adds up over concatenation, and
/// never exceeds the length.
pub proof fn lemma_count_additive(a: Seq<char>, b: Seq<char>)
    ensures
        non_ws_count(a + b) == non_ws_count(a) + non_ws_count(b),
        non_ws_count(a) <= a.len(),
    decreases b.len(),
{
    lemma_count_bound(a);
    if b.len() == 0 {
        assert(a + b =~= a);
    } else {
        lemma_count_additive(a, b.drop_last());
        assert((a + b).drop_last() =~= a + b.drop_last());
    }
}

proof fn lemma_count_bound(a: Seq<char>)
    ensures
        non_ws_count(a) <= a.len(),
    decreases a.len(),
{
    if a.len() > 0 {
        lemma_count_bound(a.drop_last());
    }
}

} // verus!
