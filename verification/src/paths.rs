//! File-system paths as text, following both Windows (`C:\dir`) and
//! Unix (`/dir`) conventions, since settings are written for either.
use vstd::prelude::*;
use crate::text::{chars_of, contains_char, push_all, slice_range, string_from_chars};

verus! {

pub open spec fn is_ascii_letter(c: char) -> bool {
    ('a' <= c <= 'z') || ('A' <= c <= 'Z')
}

/// An absolute path: rooted at `/`, or a drive with its root such as
/// `C:\…`. A path rooted at `\` without a drive is relative, as
/// `Path::is_absolute` documents for Windows.
pub open spec fn is_absolute_path(s: Seq<char>) -> bool {
    ||| s.len() > 0 && s[0] == '/'
    ||| s.len() >= 3 && is_ascii_letter(s[0]) && s[1] == ':' && (s[2] == '\\' || s[2] == '/')
}

/// The separator used below `base`: a backslash for Windows-style paths.
pub open spec fn path_sep(base: Seq<char>) -> char {
    if base.contains('\\') && !base.contains('/') {
        '\\'
    } else {
        '/'
    }
}

/// `base` joined with `child`; an absolute `child` replaces `base`
/// (`Path::join`).
pub open spec fn path_join(base: Seq<char>, child: Seq<char>) -> Seq<char> {
    if is_absolute_path(child) || base.len() == 0 {
        child
    } else if base.last() == '/' || base.last() == '\\' {
        base + child
    } else {
        base.push(path_sep(base)) + child
    }
}

pub fn is_absolute(v: &[char]) -> (r: bool)
    ensures
        r == is_absolute_path(v@),
{
    (v.len() > 0 && v[0] == '/') || (v.len() >= 3 && (('a' <= v[0] && v[0]
        <= 'z') || ('A' <= v[0] && v[0] <= 'Z')) && v[1] == ':' && (v[2] == '\\' || v[2] == '/'))
}

pub fn join_chars_path(base: &[char], child: &[char]) -> (r: Vec<char>)
    ensures
        r@ == path_join(base@, child@),
{
    if is_absolute(child) || base.len() == 0 {
        return slice_range(child, 0, child.len());
    }
    let mut r = slice_range(base, 0, base.len());
    let last = base[base.len() - 1];
    if last != '/' && last != '\\' {
        let sep = if contains_char(base, '\\') && !contains_char(base, '/') {
            '\\'
        } else {
            '/'
        };
        r.push(sep);
    }
    push_all(&mut r, child);
    r
}

/// `base` joined with `child`.
pub fn join_path(base: &str, child: &str) -> (r: String)
    ensures
        r@ == path_join(base@, child@),
{
    let b = chars_of(base);
    let c = chars_of(child);
    let r = join_chars_path(b.as_slice(), c.as_slice());
    string_from_chars(r.as_slice())
}

} // verus!
