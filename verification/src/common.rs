//! Paths in the common dialect, where a path is absolute exactly when it
//! begins with a separator.

use vstd::prelude::*;
use crate::segments::{
    is_sep, join, join_segments, segments, split_segments, starts_with_separator, views, dot_dot,
};
use crate::text::{chars_of, string_of};

verus! {

/// The leading slash of the resolved form of `p`: present exactly when `p`
/// begins with a separator.
pub open spec fn lead(p: Seq<char>) -> Seq<char> {
    if starts_with_separator(p) {
        seq!['/']
    } else {
        Seq::<char>::empty()
    }
}

/// The resolved form of `p` without its leading slash.
pub open spec fn bare(p: Seq<char>) -> Seq<char> {
    join(segments(p))
}

/// The resolved form of `p`.
pub open spec fn resolve_one_spec(p: Seq<char>) -> Seq<char> {
    lead(p) + bare(p)
}

/// `second` resolved against the base `first`.
pub open spec fn resolve_spec(first: Seq<char>, second: Seq<char>) -> Seq<char> {
    if starts_with_separator(second) {
        resolve_one_spec(second)
    } else if second.len() == 0 {
        lead(first) + bare(first)
    } else {
        lead(first) + bare(bare(first) + seq!['/'] + second)
    }
}

/// Each of `rest`, from first to last, resolved against what came before,
/// starting from `base`.
pub open spec fn resolve_onto(base: Seq<char>, rest: Seq<Seq<char>>) -> Seq<char>
    decreases rest.len(),
{
    if rest.len() == 0 {
        base
    } else {
        resolve_spec(resolve_onto(base, rest.drop_last()), rest.last())
    }
}

/// The paths resolved from first to last, each against what came before.
pub open spec fn resolve_n_spec(paths: Seq<Seq<char>>) -> Seq<char> {
    if paths.len() == 0 {
        Seq::<char>::empty()
    } else if paths.len() == 1 {
        resolve_one_spec(paths[0])
    } else {
        resolve_onto(resolve_spec(paths[0], paths[1]), paths.skip(2))
    }
}

/// The first index at or after `i` at which `a` and `b` differ or one of
/// them ends.
pub open spec fn common_from(a: Seq<Seq<char>>, b: Seq<Seq<char>>, i: nat) -> nat
    decreases a.len() - i,
{
    if i < a.len() && i < b.len() && a[i as int] == b[i as int] {
        common_from(a, b, i + 1)
    } else {
        i
    }
}

/// The number of leading segments that `a` and `b` share.
pub open spec fn common_len(a: Seq<Seq<char>>, b: Seq<Seq<char>>) -> nat {
    common_from(a, b, 0)
}

/// `n` segments `..`.
pub open spec fn ups(n: nat) -> Seq<Seq<char>> {
    Seq::new(n, |i: int| dot_dot())
}

/// The segments of the way from `from` to `to`: one `..` for each segment
/// of `from` below the common ancestor, then the segments of `to` below it.
pub open spec fn relative_segments(from: Seq<char>, to: Seq<char>) -> Seq<Seq<char>> {
    let a = segments(from);
    let b = segments(to);
    let k = common_len(a, b);
    ups((a.len() - k) as nat) + b.skip(k as int)
}

/// The way from `from` to `to`.
pub open spec fn relative_spec(from: Seq<char>, to: Seq<char>) -> Seq<char> {
    join(relative_segments(from, to))
}

/// The characters of the texts in `paths`.
pub open spec fn texts(paths: Seq<&str>) -> Seq<Seq<char>> {
    paths.map_values(|s: &str| s@)
}

/// Whether `p` begins with a separator.
pub fn begins_with_sep(p: &Vec<char>) -> (b: bool)
    ensures
        b == starts_with_separator(p@),
{
    p.len() > 0 && is_sep(p[0])
}

/// Appends the characters of `tail` to `text`.
pub fn extend_chars(text: &mut Vec<char>, tail: &Vec<char>)
    ensures
        final(text)@ == old(text)@ + tail@,
{
    let mut i: usize = 0;
    assert(tail@.take(0) =~= Seq::<char>::empty());
    assert(text@ =~= old(text)@ + tail@.take(0));
    while i < tail.len()
        invariant
            i <= tail.len(),
            text@ == old(text)@ + tail@.take(i as int),
        decreases tail.len() - i,
    {
        text.push(tail[i]);
        assert(tail@.take(i + 1) =~= tail@.take(i as int).push(tail@[i as int]));
        assert(text@ =~= old(text)@ + tail@.take(i + 1));
        i += 1;
    }
    assert(tail@.take(i as int) =~= tail@);
}

/// The resolved form of `p` without its leading slash.
pub fn bare_chars(p: &Vec<char>) -> (r: Vec<char>)
    ensures
        r@ == bare(p@),
{
    let segs = split_segments(p);
    join_segments(&segs)
}

/// The leading slash of the resolved form of `p`, if it has one.
fn lead_chars(p: &Vec<char>) -> (r: Vec<char>)
    ensures
        r@ == lead(p@),
{
    let mut r: Vec<char> = Vec::new();
    if begins_with_sep(p) {
        r.push('/');
        assert(r@ =~= seq!['/']);
    }
    r
}

/// The resolved form of `p`, on characters.
pub fn resolve_one_chars(p: &Vec<char>) -> (r: Vec<char>)
    ensures
        r@ == resolve_one_spec(p@),
{
    let mut r = lead_chars(p);
    let b = bare_chars(p);
    extend_chars(&mut r, &b);
    r
}

/// `second` resolved against the base `first`, on characters.
pub fn resolve_chars(first: &Vec<char>, second: &Vec<char>) -> (r: Vec<char>)
    ensures
        r@ == resolve_spec(first@, second@),
{
    if begins_with_sep(second) {
        return resolve_one_chars(second);
    }
    let mut r = lead_chars(first);
    let mut joined = bare_chars(first);
    if second.len() == 0 {
        extend_chars(&mut r, &joined);
    } else {
        joined.push('/');
        extend_chars(&mut joined, second);
        assert(joined@ =~= bare(first@) + seq!['/'] + second@);
        let b = bare_chars(&joined);
        extend_chars(&mut r, &b);
    }
    r
}

/// Resolves `path`: splits it at its separators, drops empty segments and
/// `.`, lets each `..` remove the segment before it, and joins what is
/// left with forward slashes, behind a single slash if `path` began with a
/// separator.
pub fn resolve_one(path: &str) -> (r: String)
    ensures
        r@ == resolve_one_spec(path@),
{
    let p = chars_of(path);
    let r = resolve_one_chars(&p);
    string_of(&r)
}

/// Resolves `path2` against the base `path1`. An absolute `path2` is
/// resolved alone.
pub fn resolve(path1: &str, path2: &str) -> (r: String)
    ensures
        r@ == resolve_spec(path1@, path2@),
{
    let first = chars_of(path1);
    let second = chars_of(path2);
    let r = resolve_chars(&first, &second);
    string_of(&r)
}

/// Resolves the paths from first to last, each against what came before.
/// No path gives the empty text, and a single path its resolved form.
pub fn resolve_n(paths: &[&str]) -> (r: String)
    ensures
        r@ == resolve_n_spec(texts(paths@)),
{
    if paths.len() == 0 {
        return String::new();
    }
    if paths.len() == 1 {
        return resolve_one(paths[0]);
    }
    let ghost all = texts(paths@);
    let first = chars_of(paths[0]);
    let second = chars_of(paths[1]);
    let mut acc = resolve_chars(&first, &second);
    let ghost base = acc@;
    let mut i: usize = 2;
    assert(all.skip(2).take(0) =~= Seq::<Seq<char>>::empty());
    while i < paths.len()
        invariant
            2 <= i <= paths.len(),
            all == texts(paths@),
            acc@ == resolve_onto(base, all.skip(2).take(i - 2)),
        decreases paths.len() - i,
    {
        let next = chars_of(paths[i]);
        proof {
            let now = all.skip(2).take(i + 1 - 2);
            assert(now.drop_last() =~= all.skip(2).take(i - 2));
            assert(now.last() == next@);
        }
        acc = resolve_chars(&acc, &next);
        i += 1;
    }
    assert(all.skip(2).take(i - 2) =~= all.skip(2));
    string_of(&acc)
}

/// Whether `a` and `b` hold the same characters.
pub fn same_chars(a: &Vec<char>, b: &Vec<char>) -> (same: bool)
    ensures
        same == (a@ == b@),
{
    if a.len() != b.len() {
        return false;
    }
    let mut i: usize = 0;
    while i < a.len()
        invariant
            i <= a.len(),
            a.len() == b.len(),
            forall|j: int| 0 <= j < i ==> a@[j] == b@[j],
        decreases a.len() - i,
    {
        if a[i] != b[i] {
            return false;
        }
        i += 1;
    }
    assert(a@ =~= b@);
    true
}

/// The number of leading segments that `a` and `b` share.
fn shared_len(a: &Vec<Vec<char>>, b: &Vec<Vec<char>>) -> (k: usize)
    ensures
        k == common_len(views(a@), views(b@)),
        k <= a.len(),
        k <= b.len(),
{
    let mut k: usize = 0;
    while k < a.len() && k < b.len() && same_chars(&a[k], &b[k])
        invariant
            k <= a.len(),
            k <= b.len(),
            common_from(views(a@), views(b@), k as nat) == common_len(views(a@), views(b@)),
        decreases a.len() - k,
    {
        k += 1;
    }
    k
}

/// The way from `from` to `to`, on characters.
pub fn relative_chars(from: &Vec<char>, to: &Vec<char>) -> (r: Vec<char>)
    ensures
        r@ == relative_spec(from@, to@),
{
    let a = split_segments(from);
    let b = split_segments(to);
    let k = shared_len(&a, &b);
    let mut way: Vec<Vec<char>> = Vec::new();
    let mut i: usize = k;
    assert(views(way@) =~= ups(0));
    while i < a.len()
        invariant
            k <= i <= a.len(),
            views(way@) == ups((i - k) as nat),
        decreases a.len() - i,
    {
        let mut up: Vec<char> = Vec::new();
        up.push('.');
        up.push('.');
        assert(up@ =~= dot_dot());
        let ghost before = views(way@);
        way.push(up);
        assert(views(way@) =~= before.push(dot_dot()));
        assert(before.push(dot_dot()) =~= ups((i + 1 - k) as nat));
        i += 1;
    }
    let ghost climb = views(way@);
    let mut j: usize = k;
    assert(views(b@).skip(k as int).take(0) =~= Seq::<Seq<char>>::empty());
    assert(views(way@) =~= climb + views(b@).skip(k as int).take(0));
    while j < b.len()
        invariant
            k <= j <= b.len(),
            views(way@) == climb + views(b@).skip(k as int).take(j - k),
        decreases b.len() - j,
    {
        let mut seg: Vec<char> = Vec::new();
        extend_chars(&mut seg, &b[j]);
        assert(seg@ =~= b@[j as int]@);
        let ghost before = views(way@);
        way.push(seg);
        assert(views(way@) =~= before.push(seg@));
        assert(before.push(seg@) =~= climb + views(b@).skip(k as int).take(j + 1 - k));
        j += 1;
    }
    assert(views(b@).skip(k as int).take(j - k) =~= views(b@).skip(k as int));
    join_segments(&way)
}

/// The way from `from_path` to `to_path`, both absolute: one `..` for each
/// segment of `from_path` below their common ancestor, then the segments of
/// `to_path` below it, joined with forward slashes. It is empty when the
/// two resolve to the same path.
pub fn relative(from_path: &str, to_path: &str) -> (r: String)
    requires
        starts_with_separator(from_path@),
        starts_with_separator(to_path@),
    ensures
        r@ == relative_spec(from_path@, to_path@),
{
    let from = chars_of(from_path);
    let to = chars_of(to_path);
    let r = relative_chars(&from, &to);
    string_of(&r)
}

} // verus!
