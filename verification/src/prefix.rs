//! The prefixes that make a path absolute in the Windows dialect: a drive
//! (`X:`), a UNC marker (two separators) and an extended-length marker
//! (two separators, `?`, a separator, and then possibly a drive).

use vstd::prelude::*;
use crate::segments::{is_sep, is_separator, starts_with_separator};

verus! {

/// A letter that can name a drive: `A` to `Z` or `a` to `z`.
pub open spec fn is_drive_letter(c: char) -> bool {
    ('A' <= c && c <= 'Z') || ('a' <= c && c <= 'z')
}

/// Whether a drive, a letter and a colon, stands at index `i` of `s`.
pub open spec fn drive_at(s: Seq<char>, i: int) -> bool {
    0 <= i && i + 1 < s.len() && is_drive_letter(s[i]) && s[i + 1] == ':'
}

/// Whether `s` begins with two separators.
pub open spec fn starts_with_two_separators(s: Seq<char>) -> bool {
    s.len() >= 2 && is_separator(s[0]) && is_separator(s[1])
}

/// The length of the prefix that resolution recognises at the start of
/// `s`, or 0 where there is none. The longest applicable form counts: an
/// extended-length marker written with a backslash after its `?`, with the
/// drive that follows it if there is one; else a UNC marker; else a drive.
pub open spec fn resolve_prefix_len(s: Seq<char>) -> nat {
    if starts_with_two_separators(s) && s.len() >= 4 && s[2] == '?' && s[3] == '\\' {
        if drive_at(s, 4) {
            6
        } else {
            4
        }
    } else if starts_with_two_separators(s) {
        2
    } else if drive_at(s, 0) {
        2
    } else {
        0
    }
}

/// The length of the prefix that makes `s` absolute, or 0 where `s` is
/// relative. The longest applicable form counts: an extended-length marker
/// written with either separator after its `?`, with the drive that
/// follows it if there is one; else a UNC marker; else a drive; else a
/// single leading separator.
pub open spec fn absolute_prefix_len(s: Seq<char>) -> nat {
    if starts_with_two_separators(s) && s.len() >= 4 && s[2] == '?' && is_separator(s[3]) {
        if drive_at(s, 4) {
            6
        } else {
            4
        }
    } else if starts_with_two_separators(s) {
        2
    } else if drive_at(s, 0) {
        2
    } else if starts_with_separator(s) {
        1
    } else {
        0
    }
}

/// Whether `prefix` is a UNC marker or an extended-length marker with
/// nothing after it. The resolved remainder follows such a prefix directly,
/// with no separator in between.
pub open spec fn is_bare_marker(prefix: Seq<char>) -> bool {
    starts_with_two_separators(prefix) && (prefix.len() == 2 || (prefix.len() == 4 && prefix[2]
        == '?' && is_separator(prefix[3])))
}

/// Whether `c` can name a drive.
pub fn is_letter(c: char) -> (b: bool)
    ensures
        b == is_drive_letter(c),
{
    ('A' <= c && c <= 'Z') || ('a' <= c && c <= 'z')
}

/// Whether a drive stands at index `i` of `s`.
fn has_drive_at(s: &Vec<char>, i: usize) -> (b: bool)
    requires
        i < usize::MAX,
    ensures
        b == drive_at(s@, i as int),
{
    i + 1 < s.len() && is_letter(s[i]) && s[i + 1] == ':'
}

/// Whether `s` begins with two separators.
fn has_two_seps(s: &Vec<char>) -> (b: bool)
    ensures
        b == starts_with_two_separators(s@),
{
    s.len() >= 2 && is_sep(s[0]) && is_sep(s[1])
}

/// The length of the prefix that resolution recognises at the start of `s`.
pub fn find_resolve_prefix(s: &Vec<char>) -> (n: usize)
    ensures
        n == resolve_prefix_len(s@),
        n <= s.len(),
{
    if has_two_seps(s) && s.len() >= 4 && s[2] == '?' && s[3] == '\\' {
        if has_drive_at(s, 4) {
            6
        } else {
            4
        }
    } else if has_two_seps(s) {
        2
    } else if has_drive_at(s, 0) {
        2
    } else {
        0
    }
}

/// The length of the prefix that makes `s` absolute, or 0.
pub fn find_absolute_prefix(s: &Vec<char>) -> (n: usize)
    ensures
        n == absolute_prefix_len(s@),
        n <= s.len(),
{
    if has_two_seps(s) && s.len() >= 4 && s[2] == '?' && is_sep(s[3]) {
        if has_drive_at(s, 4) {
            6
        } else {
            4
        }
    } else if has_two_seps(s) {
        2
    } else if has_drive_at(s, 0) {
        2
    } else if s.len() > 0 && is_sep(s[0]) {
        1
    } else {
        0
    }
}

/// Whether `prefix` is a UNC or extended-length marker with nothing after
/// it.
pub fn bare_marker(prefix: &Vec<char>) -> (b: bool)
    ensures
        b == is_bare_marker(prefix@),
{
    has_two_seps(prefix) && (prefix.len() == 2 || (prefix.len() == 4 && prefix[2] == '?' && is_sep(
        prefix[3],
    )))
}

} // verus!
