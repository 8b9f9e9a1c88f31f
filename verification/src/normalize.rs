//! The normal form of a path: resolved against a working directory,
//! written as its dialect writes it, without trailing separators, and, for
//! a Windows path, with an extended-length prefix in uppercase before the
//! rest in lowercase.

use vstd::prelude::*;
use crate::common::extend_chars;
use crate::extension::lowercase;
use crate::flexible::resolve_spec;
use crate::path::rendered;
use crate::prefix::{is_drive_letter, is_letter};
use crate::segments::{is_sep, is_separator};
use crate::text::{chars_of, head, string_of, tail};
use crate::variant::FlexPathVariant;

verus! {

/// Whether `s` is made of separators alone.
pub open spec fn all_separators(s: Seq<char>) -> bool {
    forall|j: int| 0 <= j < s.len() ==> is_separator(#[trigger] s[j])
}

/// Whether `s` without its trailing separators has the length `n`. A text
/// made of separators alone keeps them all.
pub open spec fn is_trimmed_len(s: Seq<char>, n: int) -> bool {
    if all_separators(s) {
        n == s.len()
    } else {
        &&& 0 < n <= s.len()
        &&& !is_separator(s[n - 1])
        &&& forall|j: int| n <= j < s.len() ==> is_separator(#[trigger] s[j])
    }
}

/// The length of `s` without its trailing separators.
pub open spec fn trimmed_len(s: Seq<char>) -> int {
    choose|n: int| is_trimmed_len(s, n)
}

/// `s` without its trailing separators.
pub open spec fn trimmed(s: Seq<char>) -> Seq<char> {
    s.take(trimmed_len(s))
}

/// A text has one length without its trailing separators.
pub proof fn lemma_trimmed_len_unique(s: Seq<char>, n: int)
    requires
        is_trimmed_len(s, n),
    ensures
        trimmed_len(s) == n,
{
    let m = trimmed_len(s);
    assert(is_trimmed_len(s, m));
    if !all_separators(s) {
        if m < n {
            assert(is_separator(s[n - 1]));
        } else if n < m {
            assert(is_separator(s[m - 1]));
        }
    }
}

/// The uppercase form of a letter from `a` to `z`; any other character
/// itself.
pub open spec fn upper_letter(c: char) -> char {
    if 'a' <= c && c <= 'z' {
        ((c as u8) - 32) as char
    } else {
        c
    }
}

/// The extended-length marker: two backslashes, `?` and a backslash.
pub open spec fn long_marker() -> Seq<char> {
    seq!['\\', '\\', '?', '\\']
}

/// The extended-length marker of a UNC path: the extended-length marker
/// followed by `UNC`.
pub open spec fn long_unc_marker() -> Seq<char> {
    seq!['\\', '\\', '?', '\\', 'U', 'N', 'C']
}

/// Whether `s` begins with the extended-length marker.
pub open spec fn starts_with_long_marker(s: Seq<char>) -> bool {
    s.len() >= 4 && s[0] == '\\' && s[1] == '\\' && s[2] == '?' && s[3] == '\\'
}

/// Whether `s` begins with the extended-length marker of a UNC path, in
/// whatever letter case.
pub open spec fn starts_with_long_unc(s: Seq<char>) -> bool {
    &&& starts_with_long_marker(s)
    &&& s.len() >= 7
    &&& (s[4] == 'U' || s[4] == 'u')
    &&& (s[5] == 'N' || s[5] == 'n')
    &&& (s[6] == 'C' || s[6] == 'c')
}

/// Whether `s` begins with a UNC marker of the short form: two backslashes
/// that no `?` follows.
pub open spec fn starts_with_short_unc(s: Seq<char>) -> bool {
    s.len() >= 2 && s[0] == '\\' && s[1] == '\\' && (s.len() == 2 || s[2] != '?')
}

/// The prefix of `t` brought to its extended-length form in uppercase, and
/// the rest of `t` in lowercase; `t` itself where it begins with no Windows
/// prefix.
pub open spec fn with_long_prefix(t: Seq<char>) -> Seq<char> {
    if starts_with_long_unc(t) {
        long_unc_marker() + lowercase(t.skip(7))
    } else if starts_with_long_marker(t) && t.len() >= 6 && is_drive_letter(t[4]) && t[5] == ':' {
        long_marker() + seq![upper_letter(t[4]), ':'] + lowercase(t.skip(6))
    } else if t.len() >= 2 && is_drive_letter(t[0]) && t[1] == ':' {
        long_marker() + seq![upper_letter(t[0]), ':'] + lowercase(t.skip(2))
    } else if starts_with_short_unc(t) {
        long_unc_marker() + lowercase(t.skip(1))
    } else {
        t
    }
}

/// The normal form of `path` read in the dialect `v` against the working
/// directory `cwd`.
pub open spec fn normalize_spec(cwd: Seq<char>, path: Seq<char>, v: FlexPathVariant) -> Seq<char> {
    with_long_prefix(trimmed(rendered(resolve_spec(cwd, path, v), v)))
}

/// The length of `s` without its trailing separators.
pub fn find_trimmed_len(s: &Vec<char>) -> (n: usize)
    ensures
        n == trimmed_len(s@),
        is_trimmed_len(s@, n as int),
        n <= s.len(),
{
    let mut n: usize = s.len();
    while n > 0 && is_sep(s[n - 1])
        invariant
            n <= s.len(),
            forall|j: int| n <= j < s.len() ==> is_separator(#[trigger] s@[j]),
        decreases n,
    {
        n -= 1;
    }
    let end = if n == 0 {
        s.len()
    } else {
        n
    };
    proof {
        if n > 0 {
            assert(!is_separator(s@[n - 1]));
            assert(!all_separators(s@));
        } else {
            assert(all_separators(s@));
        }
        lemma_trimmed_len_unique(s@, end as int);
    }
    end
}

/// The uppercase form of a letter from `a` to `z`; any other character
/// itself.
pub fn to_upper_letter(c: char) -> (r: char)
    ensures
        r == upper_letter(c),
{
    if 'a' <= c && c <= 'z' {
        ((c as u8) - 32) as char
    } else {
        c
    }
}

/// The characters of `t` from index `from` on, in lowercase.
fn lower_tail(t: &Vec<char>, from: usize) -> (r: Vec<char>)
    requires
        from <= t.len(),
    ensures
        r@ == lowercase(t@.skip(from as int)),
{
    let rest = tail(t, from);
    let text = string_of(&rest);
    let lower = crate::extension::to_lower(text.as_str());
    chars_of(lower.as_str())
}

/// The extended-length marker, followed by `UNC` if `unc` is set.
fn marker(unc: bool) -> (r: Vec<char>)
    ensures
        r@ == if unc {
            long_unc_marker()
        } else {
            long_marker()
        },
{
    let mut r: Vec<char> = Vec::new();
    r.push('\\');
    r.push('\\');
    r.push('?');
    r.push('\\');
    if unc {
        r.push('U');
        r.push('N');
        r.push('C');
        assert(r@ =~= long_unc_marker());
    } else {
        assert(r@ =~= long_marker());
    }
    r
}

/// The prefix of `t` brought to its extended-length form in uppercase, and
/// the rest of `t` in lowercase.
pub fn with_long_prefix_chars(t: Vec<char>) -> (r: Vec<char>)
    ensures
        r@ == with_long_prefix(t@),
{
    let len = t.len();
    let long = len >= 4 && t[0] == '\\' && t[1] == '\\' && t[2] == '?' && t[3] == '\\';
    if long && len >= 7 && (t[4] == 'U' || t[4] == 'u') && (t[5] == 'N' || t[5] == 'n') && (t[6]
        == 'C' || t[6] == 'c') {
        let mut r = marker(true);
        let rest = lower_tail(&t, 7);
        extend_chars(&mut r, &rest);
        r
    } else if long && len >= 6 && is_letter(t[4]) && t[5] == ':' {
        let mut r = marker(false);
        r.push(to_upper_letter(t[4]));
        r.push(':');
        assert(r@ =~= long_marker() + seq![upper_letter(t@[4]), ':']);
        let rest = lower_tail(&t, 6);
        extend_chars(&mut r, &rest);
        r
    } else if len >= 2 && is_letter(t[0]) && t[1] == ':' {
        let mut r = marker(false);
        r.push(to_upper_letter(t[0]));
        r.push(':');
        assert(r@ =~= long_marker() + seq![upper_letter(t@[0]), ':']);
        let rest = lower_tail(&t, 2);
        extend_chars(&mut r, &rest);
        r
    } else if len >= 2 && t[0] == '\\' && t[1] == '\\' && (len == 2 || t[2] != '?') {
        let mut r = marker(true);
        let rest = lower_tail(&t, 1);
        extend_chars(&mut r, &rest);
        r
    } else {
        t
    }
}

/// Normalizes `path`, read in the dialect `variant`, against the working
/// directory `cwd`: `path` is resolved against `cwd` and written as the
/// dialect writes it; trailing separators are dropped; and a text that
/// begins with a drive, a UNC marker or an extended-length marker gets its
/// prefix in the extended-length form in uppercase and the rest in
/// lowercase.
pub fn normalize_text(cwd: &str, path: &str, variant: FlexPathVariant) -> (r: String)
    ensures
        r@ == normalize_spec(cwd@, path@, variant),
{
    let c = chars_of(cwd);
    let p = chars_of(path);
    let resolved = crate::flexible::resolve_chars(&c, &p, variant);
    let written = crate::path::render_chars(&resolved, variant);
    let n = find_trimmed_len(&written);
    let t = head(&written, n);
    let r = with_long_prefix_chars(t);
    string_of(&r)
}

} // verus!
