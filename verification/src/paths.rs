//! File-system paths held as strings. Joining and taking paths apart is
//! done by `std::path`, whose results are named here; the note rules
//! built on them are verified.
use vstd::prelude::*;
use crate::chars::chars_of;

verus! {

/// What `Path::new(base).join(part)` is, as a string, on the target the
/// library is built for.
pub uninterp spec fn path_join(base: Seq<char>, part: Seq<char>) -> Seq<char>;

/// What `Path::file_name` gives for a path: its final component.
pub uninterp spec fn path_file_name(path: Seq<char>) -> Option<Seq<char>>;

/// What `Path::extension` gives for a path.
pub uninterp spec fn path_extension(path: Seq<char>) -> Option<Seq<char>>;

/// What `Path::file_stem` gives for a path.
pub uninterp spec fn path_file_stem(path: Seq<char>) -> Option<Seq<char>>;

/// What `PathBuf::set_extension` leaves of a path.
pub uninterp spec fn path_with_extension(path: Seq<char>, ext: Seq<char>) -> Seq<char>;

/// Whether `Path`'s `==` holds of two paths (it compares components).
pub uninterp spec fn paths_equal(a: Seq<char>, b: Seq<char>) -> bool;

/// `Path::join`: `part` appended to `base` with the platform's separator
/// (or `part` alone when it is absolute). The result is named, not stated.
#[verifier::external_body]
pub(crate) fn join_path(base: &str, part: &str) -> (r: String)
    ensures
        r@ == path_join(base@, part@),
{
    std::path::Path::new(base).join(part).to_string_lossy().into_owned()
}

/// `Path::file_name`, the final component of a path. The input is valid
/// UTF-8, so the component is too; the result is named, not stated.
#[verifier::external_body]
fn file_name_of(path: &str) -> (r: Option<String>)
    ensures
        match r {
            Some(n) => path_file_name(path@) == Some(n@),
            None => path_file_name(path@) is None,
        },
{
    std::path::Path::new(path).file_name().and_then(|v| v.to_str()).map(|v| v.to_string())
}

/// `Path::extension`. The result is named, not stated.
#[verifier::external_body]
fn extension_of(path: &str) -> (r: Option<String>)
    ensures
        match r {
            Some(n) => path_extension(path@) == Some(n@),
            None => path_extension(path@) is None,
        },
{
    std::path::Path::new(path).extension().and_then(|v| v.to_str()).map(|v| v.to_string())
}

/// `Path::file_stem`. The result is named, not stated.
#[verifier::external_body]
fn file_stem_of(path: &str) -> (r: Option<String>)
    ensures
        match r {
            Some(n) => path_file_stem(path@) == Some(n@),
            None => path_file_stem(path@) is None,
        },
{
    std::path::Path::new(path).file_stem().and_then(|v| v.to_str()).map(|v| v.to_string())
}

/// `PathBuf::set_extension`, which panics when the extension holds a
/// path separator; so it takes none. The result is named, not stated.
#[verifier::external_body]
fn with_extension(path: &str, ext: &str) -> (r: String)
    requires
        !ext@.contains('/'),
        !ext@.contains('\\'),
    ensures
        r@ == path_with_extension(path@, ext@),
{
    let mut p = std::path::PathBuf::from(path);
    p.set_extension(ext);
    p.to_string_lossy().into_owned()
}

/// `Path`'s `==`. `Path` implements `Eq`, so a path equals itself.
#[verifier::external_body]
pub(crate) fn same_path(a: &str, b: &str) -> (r: bool)
    ensures
        r == paths_equal(a@, b@),
        a@ == b@ ==> r,
{
    std::path::Path::new(a) == std::path::Path::new(b)
}

/// The name a path is shown under: its final component, or
/// `untitled.md` when it has none.
pub open spec fn display_name_of(path: Seq<char>) -> Seq<char> {
    match path_file_name(path) {
        Some(n) => n,
        None => "untitled.md"@,
    }
}

pub fn display_name(path: &str) -> (r: String)
    ensures
        r@ == display_name_of(path@),
{
    match file_name_of(path) {
        Some(n) => n,
        None => String::from_str("untitled.md"),
    }
}

/// A chosen export path with `.md` added when it has no extension.
pub open spec fn markdown_path(path: Seq<char>) -> Seq<char> {
    if path_extension(path) is None {
        path_with_extension(path, "md"@)
    } else {
        path
    }
}

pub fn normalize_markdown_extension(path: &str) -> (r: String)
    ensures
        r@ == markdown_path(path@),
{
    match extension_of(path) {
        None => {
            proof {
                reveal_strlit("md");
                assert(!"md"@.contains('/') && !"md"@.contains('\\')) by {
                    assert("md"@[0] == 'm' && "md"@[1] == 'd');
                }
            }
            with_extension(path, "md")
        },
        Some(_) => String::from_str(path),
    }
}

/// ASCII letters in lower case, other characters unchanged
/// (`str::to_ascii_lowercase`).
pub open spec fn ascii_lower(s: Seq<char>) -> Seq<char> {
    s.map_values(
        |c: char|
            if 'A' <= c <= 'Z' {
                (((c as u32) + 32) as u8) as char
            } else {
                c
            },
    )
}

/// The extensions that can be imported, in lower case.
pub open spec fn is_markdown_extension(ext: Seq<char>) -> bool {
    ext == "md"@ || ext == "markdown"@ || ext == "txt"@
}

/// Whether a path may be imported: its extension, in ASCII lower case,
/// is `md`, `markdown` or `txt` (a path without extension is refused).
pub open spec fn importable(path: Seq<char>) -> bool {
    match path_extension(path) {
        Some(e) => is_markdown_extension(ascii_lower(e)),
        None => false,
    }
}

/// The title an imported file gets: its file stem, or empty.
pub open spec fn import_title_of(path: Seq<char>) -> Seq<char> {
    match path_file_stem(path) {
        Some(s) => s,
        None => Seq::empty(),
    }
}

fn lower_ascii_chars(s: &str) -> (r: Vec<char>)
    ensures
        r@ == ascii_lower(s@),
{
    let v = chars_of(s);
    let mut out: Vec<char> = Vec::new();
    let mut i: usize = 0;
    while i < v.len()
        invariant
            i <= v@.len(),
            out@ =~= ascii_lower(v@.take(i as int)),
        decreases v@.len() - i,
    {
        let c = v[i];
        if 'A' <= c && c <= 'Z' {
            let u: u8 = (c as u8) + 32;
            let l: char = u as char;
            out.push(l);
        } else {
            out.push(c);
        }
        i = i + 1;
    }
    assert(v@.take(i as int) =~= v@);
    out
}

fn eq_chars(v: &Vec<char>, w: &str) -> (r: bool)
    ensures
        r == (v@ == w@),
{
    let wv = chars_of(w);
    if v.len() != wv.len() {
        return false;
    }
    let mut i: usize = 0;
    while i < v.len()
        invariant
            v@.len() == wv@.len(),
            wv@ == w@,
            i <= v@.len(),
            forall|j: int| 0 <= j < i ==> v@[j] == wv@[j],
        decreases v@.len() - i,
    {
        if v[i] != wv[i] {
            assert(v@[i as int] != w@[i as int]);
            return false;
        }
        i = i + 1;
    }
    assert(v@ =~= wv@);
    true
}

/// Whether the file at `path` may be imported (see `importable`).
pub fn is_importable(path: &str) -> (r: bool)
    ensures
        r == importable(path@),
{
    match extension_of(path) {
        None => false,
        Some(e) => {
            let l = lower_ascii_chars(e.as_str());
            eq_chars(&l, "md") || eq_chars(&l, "markdown") || eq_chars(&l, "txt")
        },
    }
}

/// The title of an imported file (see `import_title_of`).
pub fn import_title(path: &str) -> (r: String)
    ensures
        r@ == import_title_of(path@),
{
    match file_stem_of(path) {
        Some(s) => s,
        None => String::new(),
    }
}

} // verus!
