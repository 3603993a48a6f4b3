//! Paths as texts: those with slashes, and those of Windows, which begin with the letter of a drive or the
//! name of a server and may hold backslashes as well.
use vstd::prelude::*;
use vstd::string::*;

use crate::text::{chars_of, has_prefix, is_lower, is_upper, slice, starts_with, string_of};

verus! {

/// Whether a path begins with the letter of a drive.
pub open spec fn has_drive(path: Seq<char>) -> bool {
    path.len() >= 2 && (is_lower(path[0]) || is_upper(path[0])) && path[1] == ':'
}

/// Whether a path is one of Windows: it begins with the letter of a drive or with two backslashes.
pub open spec fn is_windows(path: Seq<char>) -> bool {
    has_drive(path) || starts_with(path, "\\\\"@)
}

/// Whether a path says where it begins: with a slash, with a slash behind the letter of a drive, or with
/// the name of a server.
pub open spec fn is_absolute(path: Seq<char>) -> bool {
    ||| starts_with(path, "/"@)
    ||| starts_with(path, "\\\\"@)
    ||| has_drive(path) && path.len() >= 3 && (path[2] == '/' || path[2] == '\\')
}

/// A path with a slash for every backslash.
pub open spec fn with_slashes(path: Seq<char>) -> Seq<char> {
    Seq::new(
        path.len(),
        |i: int|
            if path[i] == '\\' {
                '/'
            } else {
                path[i]
            },
    )
}

/// A path with slashes between its parts and without the letter of a drive.
pub open spec fn slashed(path: Seq<char>) -> Seq<char> {
    if has_drive(path) {
        with_slashes(path.skip(2))
    } else if is_windows(path) {
        with_slashes(path)
    } else {
        path
    }
}

/// What stands between the parts of a path.
pub open spec fn separator(path: Seq<char>) -> Seq<char> {
    if is_windows(path) {
        "\\"@
    } else {
        "/"@
    }
}

/// Tells whether a path begins with the letter of a drive.
pub fn drive_first(path: &str) -> (r: bool)
    ensures
        r == has_drive(path@),
{
    let a = chars_of(path);
    a.len() >= 2 && (('a' <= a[0] && a[0] <= 'z') || ('A' <= a[0] && a[0] <= 'Z')) && a[1] == ':'
}

/// Tells whether a path is one of Windows.
pub fn of_windows(path: &str) -> (r: bool)
    ensures
        r == is_windows(path@),
{
    drive_first(path) || has_prefix(path, "\\\\")
}

/// Tells whether a path says where it begins.
pub fn absolute(path: &str) -> (r: bool)
    ensures
        r == is_absolute(path@),
{
    if has_prefix(path, "/") || has_prefix(path, "\\\\") {
        return true;
    }
    let a = chars_of(path);
    drive_first(path) && a.len() >= 3 && (a[2] == '/' || a[2] == '\\')
}

/// A path with a slash for every backslash.
pub fn to_slashes(path: &str) -> (r: String)
    ensures
        r@ == with_slashes(path@),
{
    let a = chars_of(path);
    let mut out: Vec<char> = Vec::new();
    let mut i: usize = 0;
    while i < a.len()
        invariant
            i <= a.len(),
            a@ == path@,
            out@ == with_slashes(path@).take(i as int),
        decreases a.len() - i,
    {
        if a[i] == '\\' {
            out.push('/');
        } else {
            out.push(a[i]);
        }
        assert(with_slashes(path@).take(i + 1) =~= with_slashes(path@).take(i as int).push(
            with_slashes(path@)[i as int],
        ));
        i += 1;
    }
    assert(with_slashes(path@).take(path@.len() as int) =~= with_slashes(path@));
    string_of(&out)
}

/// A path with slashes between its parts and without the letter of a drive.
pub fn slashed_path(path: &str) -> (r: String)
    ensures
        r@ == slashed(path@),
{
    if drive_first(path) {
        let a = chars_of(path);
        assert(a@.subrange(2, a.len() as int) =~= path@.skip(2));
        to_slashes(slice(&a, 2, a.len()).as_str())
    } else if of_windows(path) {
        to_slashes(path)
    } else {
        path.to_owned()
    }
}

} // verus!
