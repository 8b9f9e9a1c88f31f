//! Paths read in a chosen dialect. The common dialect is handled by the
//! common module alone; the Windows dialect sets the prefix of a path
//! aside, lets the common module work on what follows it, and puts the
//! prefix back.

use vstd::prelude::*;
use crate::common::{begins_with_sep, extend_chars, texts};
use crate::prefix::{
    absolute_prefix_len, bare_marker, find_absolute_prefix, find_resolve_prefix, is_bare_marker,
    resolve_prefix_len,
};
use crate::segments::starts_with_separator;
use crate::text::{chars_of, head, string_of, tail};
use crate::variant::FlexPathVariant;

verus! {

/// `p` with the prefix that resolution recognises replaced by a single
/// slash; `p` itself where it has no such prefix.
pub open spec fn unprefixed(p: Seq<char>) -> Seq<char> {
    let n = resolve_prefix_len(p);
    if n == 0 {
        p
    } else {
        seq!['/'] + p.skip(n as int)
    }
}

/// `second` resolved against the base `first` in the Windows dialect. Where
/// neither has a prefix the common resolution applies. Otherwise the prefix
/// is that of `second` if it has one, else that of `first`; both are resolved
/// without their prefixes, and the prefix is put in front of the result,
/// in place of its leading slash where the prefix is a bare marker.
pub open spec fn windows_resolve_spec(first: Seq<char>, second: Seq<char>) -> Seq<char> {
    let n1 = resolve_prefix_len(first);
    let n2 = resolve_prefix_len(second);
    if n1 == 0 && n2 == 0 {
        crate::common::resolve_spec(first, second)
    } else {
        let prefix = if n2 > 0 {
            second.take(n2 as int)
        } else {
            first.take(n1 as int)
        };
        let r = crate::common::resolve_spec(unprefixed(first), unprefixed(second));
        if is_bare_marker(prefix) {
            prefix + r.skip(1)
        } else {
            prefix + r
        }
    }
}

/// `second` resolved against the base `first` in the dialect `v`.
pub open spec fn resolve_spec(first: Seq<char>, second: Seq<char>, v: FlexPathVariant) -> Seq<char> {
    match v {
        FlexPathVariant::Common => crate::common::resolve_spec(first, second),
        FlexPathVariant::Windows => windows_resolve_spec(first, second),
    }
}

/// The resolved form of `p` in the dialect `v`.
pub open spec fn resolve_one_spec(p: Seq<char>, v: FlexPathVariant) -> Seq<char> {
    resolve_spec(p, Seq::<char>::empty(), v)
}

/// Each of `rest`, from first to last, resolved against what came before,
/// starting from `base`.
pub open spec fn resolve_onto(base: Seq<char>, rest: Seq<Seq<char>>, v: FlexPathVariant) -> Seq<
    char,
>
    decreases rest.len(),
{
    if rest.len() == 0 {
        base
    } else {
        resolve_spec(resolve_onto(base, rest.drop_last(), v), rest.last(), v)
    }
}

/// The paths resolved from first to last, each against what came before.
pub open spec fn resolve_n_spec(paths: Seq<Seq<char>>, v: FlexPathVariant) -> Seq<char> {
    if paths.len() == 0 {
        Seq::<char>::empty()
    } else if paths.len() == 1 {
        resolve_one_spec(paths[0], v)
    } else {
        resolve_onto(resolve_spec(paths[0], paths[1], v), paths.skip(2), v)
    }
}

/// Whether `p` is absolute in the dialect `v`.
pub open spec fn is_absolute_spec(p: Seq<char>, v: FlexPathVariant) -> bool {
    match v {
        FlexPathVariant::Common => starts_with_separator(p),
        FlexPathVariant::Windows => absolute_prefix_len(p) > 0,
    }
}

/// `s` behind a slash, unless it begins with a separator already.
pub open spec fn rooted(s: Seq<char>) -> Seq<char> {
    if starts_with_separator(s) {
        s
    } else {
        seq!['/'] + s
    }
}

/// The way from `from` to `to` in the Windows dialect. Paths whose
/// prefixes differ have no common ancestor, and the result is then the
/// resolved form of `to`. Otherwise it is the common way between what
/// follows the prefix in each.
pub open spec fn windows_relative_spec(from: Seq<char>, to: Seq<char>) -> Seq<char> {
    let n1 = absolute_prefix_len(from);
    let n2 = absolute_prefix_len(to);
    if from.take(n1 as int) != to.take(n2 as int) {
        resolve_one_spec(to, FlexPathVariant::Windows)
    } else {
        crate::common::relative_spec(rooted(from.skip(n1 as int)), rooted(to.skip(n2 as int)))
    }
}

/// The way from `from` to `to` in the dialect `v`.
pub open spec fn relative_spec(from: Seq<char>, to: Seq<char>, v: FlexPathVariant) -> Seq<char> {
    match v {
        FlexPathVariant::Common => crate::common::relative_spec(from, to),
        FlexPathVariant::Windows => windows_relative_spec(from, to),
    }
}

/// `p` with its first `n` characters replaced by a single slash; a copy of
/// `p` where `n` is 0.
fn replace_prefix(p: &Vec<char>, n: usize) -> (r: Vec<char>)
    requires
        n <= p.len(),
    ensures
        r@ == if n == 0 {
            p@
        } else {
            seq!['/'] + p@.skip(n as int)
        },
{
    let mut r: Vec<char> = Vec::new();
    if n > 0 {
        r.push('/');
    }
    let rest = tail(p, n);
    extend_chars(&mut r, &rest);
    proof {
        if n == 0 {
            assert(r@ =~= p@);
        } else {
            assert(r@ =~= seq!['/'] + p@.skip(n as int));
        }
    }
    r
}

/// `s` behind a slash, unless it begins with a separator already.
fn root(s: Vec<char>) -> (r: Vec<char>)
    ensures
        r@ == rooted(s@),
{
    if begins_with_sep(&s) {
        s
    } else {
        let mut r: Vec<char> = Vec::new();
        r.push('/');
        extend_chars(&mut r, &s);
        assert(r@ =~= seq!['/'] + s@);
        r
    }
}

/// `second` resolved against the base `first` in the Windows dialect, on
/// characters.
fn windows_resolve_chars(first: &Vec<char>, second: &Vec<char>) -> (r: Vec<char>)
    ensures
        r@ == windows_resolve_spec(first@, second@),
{
    let n1 = find_resolve_prefix(first);
    let n2 = find_resolve_prefix(second);
    if n1 == 0 && n2 == 0 {
        return crate::common::resolve_chars(first, second);
    }
    let mut out = if n2 > 0 {
        head(second, n2)
    } else {
        head(first, n1)
    };
    let s1 = replace_prefix(first, n1);
    let s2 = replace_prefix(second, n2);
    let r = crate::common::resolve_chars(&s1, &s2);
    if bare_marker(&out) {
        assert(r@.len() >= 1) by {
            assert(starts_with_separator(s2@) || (s2@ == second@ && starts_with_separator(s1@)));
        }
        let rest = tail(&r, 1);
        extend_chars(&mut out, &rest);
    } else {
        extend_chars(&mut out, &r);
    }
    out
}

/// `second` resolved against the base `first` in the dialect `v`, on characters.
pub fn resolve_chars(first: &Vec<char>, second: &Vec<char>, v: FlexPathVariant) -> (r: Vec<char>)
    ensures
        r@ == resolve_spec(first@, second@, v),
{
    match v {
        FlexPathVariant::Common => crate::common::resolve_chars(first, second),
        FlexPathVariant::Windows => windows_resolve_chars(first, second),
    }
}

/// Resolves `path2` against the base `path1` in the dialect
/// `manipulation`. In the Windows dialect the prefix of `path2`, or else
/// that of `path1`, is kept in front of the result.
pub fn resolve(path1: &str, path2: &str, manipulation: FlexPathVariant) -> (r: String)
    ensures
        r@ == resolve_spec(path1@, path2@, manipulation),
{
    let first = chars_of(path1);
    let second = chars_of(path2);
    let r = resolve_chars(&first, &second, manipulation);
    string_of(&r)
}

/// Resolves the paths from first to last, each against what came before.
/// No path gives the empty text.
pub fn resolve_n(paths: &[&str], manipulation: FlexPathVariant) -> (r: String)
    ensures
        r@ == resolve_n_spec(texts(paths@), manipulation),
{
    if paths.len() == 0 {
        return String::new();
    }
    let ghost all = texts(paths@);
    let first = chars_of(paths[0]);
    if paths.len() == 1 {
        let nothing: Vec<char> = Vec::new();
        assert(nothing@ =~= Seq::<char>::empty());
        let r = resolve_chars(&first, &nothing, manipulation);
        return string_of(&r);
    }
    let second = chars_of(paths[1]);
    let mut acc = resolve_chars(&first, &second, manipulation);
    let ghost base = acc@;
    let mut i: usize = 2;
    assert(all.skip(2).take(0) =~= Seq::<Seq<char>>::empty());
    while i < paths.len()
        invariant
            2 <= i <= paths.len(),
            all == texts(paths@),
            acc@ == resolve_onto(base, all.skip(2).take(i - 2), manipulation),
        decreases paths.len() - i,
    {
        let next = chars_of(paths[i]);
        proof {
            let now = all.skip(2).take(i + 1 - 2);
            assert(now.drop_last() =~= all.skip(2).take(i - 2));
            assert(now.last() == next@);
        }
        acc = resolve_chars(&acc, &next, manipulation);
        i += 1;
    }
    assert(all.skip(2).take(i - 2) =~= all.skip(2));
    string_of(&acc)
}

/// Resolves `path` in the dialect `manipulation`.
pub fn resolve_one(path: &str, manipulation: FlexPathVariant) -> (r: String)
    ensures
        r@ == resolve_one_spec(path@, manipulation),
{
    let p = chars_of(path);
    let nothing: Vec<char> = Vec::new();
    assert(nothing@ =~= Seq::<char>::empty());
    let r = resolve_chars(&p, &nothing, manipulation);
    string_of(&r)
}

/// Whether `p` is absolute in the dialect `v`, on characters.
pub fn is_absolute_chars(p: &Vec<char>, v: FlexPathVariant) -> (b: bool)
    ensures
        b == is_absolute_spec(p@, v),
{
    match v {
        FlexPathVariant::Common => begins_with_sep(p),
        FlexPathVariant::Windows => find_absolute_prefix(p) > 0,
    }
}

/// Whether `path` is absolute in the dialect `manipulation`: in the common
/// dialect when it begins with a separator; in the Windows dialect when it
/// begins with a separator or with a drive.
pub fn is_absolute(path: &str, manipulation: FlexPathVariant) -> (b: bool)
    ensures
        b == is_absolute_spec(path@, manipulation),
{
    let p = chars_of(path);
    is_absolute_chars(&p, manipulation)
}

/// The way from `from` to `to` in the dialect `v`, on characters.
pub fn relative_chars(from: &Vec<char>, to: &Vec<char>, v: FlexPathVariant) -> (r: Vec<char>)
    requires
        is_absolute_spec(from@, v),
        is_absolute_spec(to@, v),
    ensures
        r@ == relative_spec(from@, to@, v),
{
    match v {
        FlexPathVariant::Common => crate::common::relative_chars(from, to),
        FlexPathVariant::Windows => {
            let n1 = find_absolute_prefix(from);
            let n2 = find_absolute_prefix(to);
            let pre1 = head(from, n1);
            let pre2 = head(to, n2);
            if !crate::common::same_chars(&pre1, &pre2) {
                let nothing: Vec<char> = Vec::new();
                assert(nothing@ =~= Seq::<char>::empty());
                return resolve_chars(to, &nothing, v);
            }
            let a = root(tail(from, n1));
            let b = root(tail(to, n2));
            crate::common::relative_chars(&a, &b)
        },
    }
}

/// The way from `from_path` to `to_path`, both absolute in the dialect
/// `manipulation`. In the Windows dialect, paths with different prefixes
/// have no common ancestor: the result is then the resolved `to_path`.
pub fn relative(from_path: &str, to_path: &str, manipulation: FlexPathVariant) -> (r: String)
    requires
        is_absolute_spec(from_path@, manipulation),
        is_absolute_spec(to_path@, manipulation),
    ensures
        r@ == relative_spec(from_path@, to_path@, manipulation),
{
    let from = chars_of(from_path);
    let to = chars_of(to_path);
    let r = relative_chars(&from, &to, manipulation);
    string_of(&r)
}

} // verus!
