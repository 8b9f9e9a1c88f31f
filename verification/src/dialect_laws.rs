//! Laws of the dialects: what resolution and the relative path promise of
//! each other when paths are read in a chosen dialect.

use vstd::prelude::*;
use crate::common::{lead, relative_segments};
use crate::flexible::{
    is_absolute_spec, relative_spec, resolve_one_spec, resolve_spec, rooted, unprefixed,
};
use crate::laws::{
    law_relative_to_itself, law_resolve_one_idempotent, law_resolve_stacks,
    law_resolve_undoes_relative, lemma_apply_pieces_of_way, lemma_apply_way_leads,
    lemma_common_len_same, lemma_relative_segments_shape, lemma_way_starts_plain,
};
use crate::lemmas::{
    all_plain, all_separator_free, lemma_apply_keeps_plain, lemma_bare_len, lemma_join_front,
    lemma_join_len, lemma_skip_weight, lemma_join_separators,
    lemma_join_starts_plain, lemma_segments_behind_separator, lemma_segments_of_join,
    lemma_segments_plain,
};
use crate::prefix::{absolute_prefix_len, drive_at, is_bare_marker, resolve_prefix_len};
use crate::segments::{apply, is_separator, join, segments, starts_with_separator};
use crate::variant::FlexPathVariant;

verus! {

/// Whether what follows the prefix of `p` splits into the same segments
/// for resolution as for the relative path. The two recognise the same
/// prefix but for two forms: a single leading separator, which is no
/// prefix for resolution, and an extended-length marker written with a
/// forward slash after its `?`, of which resolution takes only the two
/// leading separators for the prefix. What resolution then reads as the
/// start of the path, the relative path sets aside; the two split alike
/// when the segments of that start, followed by the segments of the rest,
/// are the segments of both together.
pub open spec fn splits_alike(p: Seq<char>) -> bool {
    let m = resolve_prefix_len(p) as int;
    let n = absolute_prefix_len(p) as int;
    segments(p.skip(m)) == segments(p.subrange(m, n)) + segments(p.skip(n))
}

/// Rooting a text adds no segment.
pub proof fn lemma_segments_of_rooted(s: Seq<char>)
    ensures
        segments(rooted(s)) == segments(s),
        starts_with_separator(rooted(s)),
{
    if !starts_with_separator(s) {
        lemma_segments_behind_separator('/', s);
    }
}

/// What stands between the prefix and the segments in the resolved form
/// of `p` in the Windows dialect: nothing behind a bare marker, and
/// nothing in front of a path that has no prefix and begins with no
/// separator; else a slash.
pub open spec fn joint(p: Seq<char>) -> Seq<char> {
    let m = resolve_prefix_len(p) as int;
    if m == 0 {
        lead(p)
    } else if is_bare_marker(p.take(m)) {
        Seq::<char>::empty()
    } else {
        seq!['/']
    }
}

/// The resolved form of `p` in the Windows dialect is the prefix of `p`,
/// the joint, and the join of the segments of what follows the prefix.
pub proof fn lemma_resolved_shape(p: Seq<char>)
    ensures
        resolve_prefix_len(p) <= p.len(),
        all_plain(segments(p.skip(resolve_prefix_len(p) as int))),
        resolve_one_spec(p, FlexPathVariant::Windows) == p.take(resolve_prefix_len(p) as int)
            + joint(p) + join(segments(p.skip(resolve_prefix_len(p) as int))),
{
    let none = Seq::<char>::empty();
    let m = resolve_prefix_len(p) as int;
    let body = p.skip(m);
    let segs = segments(body);
    let r = resolve_one_spec(p, FlexPathVariant::Windows);
    lemma_segments_plain(body);
    assert(resolve_prefix_len(none) == 0);
    assert(unprefixed(none) == none);
    if m == 0 {
        assert(body =~= p);
        assert(p.take(0) =~= none);
        assert(r =~= p.take(m) + joint(p) + join(segs));
    } else {
        lemma_segments_behind_separator('/', body);
        let c = crate::common::resolve_spec(seq!['/'] + body, none);
        assert(c =~= seq!['/'] + join(segs));
        if is_bare_marker(p.take(m)) {
            assert(c.skip(1) =~= join(segs));
            assert(r =~= p.take(m) + joint(p) + join(segs));
        } else {
            assert(r =~= p.take(m) + joint(p) + join(segs));
        }
    }
}

/// The prefix of the resolved form of `p` is as long as that of `p`,
/// unless the segments stand right behind the prefix, or in front where
/// there is none, and begin with a drive: then it is longer by that
/// drive.
pub proof fn lemma_resolved_prefix(p: Seq<char>)
    ensures
        ({
            let m = resolve_prefix_len(p);
            let r = resolve_one_spec(p, FlexPathVariant::Windows);
            let n = resolve_prefix_len(r);
            let text = join(segments(p.skip(m as int)));
            n == m || (n == m + 2 && joint(p).len() == 0 && drive_at(text, 0) && !is_bare_marker(
                r.take(n as int),
            ))
        }),
{
    let m = resolve_prefix_len(p) as int;
    let r = resolve_one_spec(p, FlexPathVariant::Windows);
    let segs = segments(p.skip(m));
    let text = join(segs);
    lemma_resolved_shape(p);
    lemma_join_starts_plain(segs);
    lemma_join_separators(segs);
    assert(all_separator_free(segs)) by {
        assert forall|i: int| 0 <= i < segs.len() implies crate::lemmas::separator_free(
            #[trigger] segs[i],
        ) by {
            assert(crate::lemmas::is_plain(segs[i]));
        }
    }
    let start = p.take(m) + joint(p);
    assert(r == start + text);
    assert forall|i: int| 0 <= i < start.len() implies r[i] == start[i] by {}
    assert forall|i: int| 0 <= i < text.len() implies r[start.len() + i] == text[i] by {}
    assert forall|i: int| 0 <= i < m implies start[i] == p[i] by {}
    if text.len() > 1 && is_separator(text[1]) {
        assert(text[1] == '/');
    }
}

/// Where a join of plain segments begins with a drive that a slash
/// follows, the drive is its first segment, and what follows the drive is
/// a resolved absolute path.
pub proof fn lemma_join_behind_drive(segs: Seq<Seq<char>>)
    requires
        all_plain(segs),
        drive_at(join(segs), 0),
        join(segs).len() > 2,
        join(segs)[2] == '/',
    ensures
        crate::common::resolve_one_spec(join(segs).skip(2)) == join(segs).skip(2),
{
    let text = join(segs);
    lemma_join_front(segs);
    let first = segs[0];
    assert(crate::lemmas::is_plain(first));
    assert forall|i: int| 0 <= i < first.len() implies text[i] == first[i] by {}
    if first.len() >= 3 {
        assert(!is_separator(first[2]));
    }
    if first.len() == 1 {
        assert(text[1] == '/');
    }
    assert(first.len() == 2);
    let rest = segs.skip(1);
    assert(all_plain(rest)) by {
        assert forall|i: int| 0 <= i < rest.len() implies crate::lemmas::is_plain(
            #[trigger] rest[i],
        ) by {
            assert(rest[i] == segs[i + 1]);
        }
    }
    assert(text.skip(2) =~= seq!['/'] + join(rest));
    lemma_segments_behind_separator('/', join(rest));
    lemma_segments_of_join(rest);
}

/// Whether the resolved form of `p` in the Windows dialect keeps its
/// prefix when it is resolved again: the prefix is as long as that of `p`,
/// or a slash stands right behind it.
pub open spec fn keeps_prefix(p: Seq<char>) -> bool {
    let r = resolve_one_spec(p, FlexPathVariant::Windows);
    let n = resolve_prefix_len(r) as int;
    n == resolve_prefix_len(p) || (n < r.len() && r[n] == '/')
}

/// What resolving the resolved form of `p` once more gives, where that
/// form has a prefix: the prefix, and behind it the resolved form of what
/// follows the prefix, without its leading slash where the prefix is a
/// bare marker.
proof fn lemma_resolved_again(r: Seq<char>)
    requires
        resolve_prefix_len(r) > 0,
    ensures
        resolve_prefix_len(r) <= r.len(),
        !is_bare_marker(r.take(resolve_prefix_len(r) as int)) ==> resolve_one_spec(
            r,
            FlexPathVariant::Windows,
        ) == r.take(resolve_prefix_len(r) as int) + seq!['/'] + join(
            segments(r.skip(resolve_prefix_len(r) as int)),
        ),
{
    lemma_resolved_shape(r);
    let n = resolve_prefix_len(r) as int;
    assert(joint(r) == seq!['/'] || is_bare_marker(r.take(n)));
}

/// Resolving a resolved path changes nothing: in the common dialect for
/// every path, in the Windows dialect for every path whose resolved form
/// keeps its prefix.
pub proof fn law_resolve_one_idempotent_in(p: Seq<char>, v: FlexPathVariant)
    requires
        v == FlexPathVariant::Windows ==> keeps_prefix(p),
    ensures
        resolve_one_spec(resolve_one_spec(p, v), v) == resolve_one_spec(p, v),
{
    let r = resolve_one_spec(p, v);
    law_resolve_one_idempotent(p);
    match v {
        FlexPathVariant::Common => {},
        FlexPathVariant::Windows => {
            let m = resolve_prefix_len(p) as int;
            let n = resolve_prefix_len(r) as int;
            let segs = segments(p.skip(m));
            let text = join(segs);
            lemma_resolved_shape(p);
            lemma_resolved_prefix(p);
            lemma_resolved_shape(r);
            let start = p.take(m) + joint(p);
            assert(r == start + text);
            if n == m {
                assert(r.take(m) =~= p.take(m));
                assert(r.skip(m) =~= joint(p) + text);
                lemma_segments_of_join(segs);
                if joint(p).len() > 0 {
                    assert(joint(p) + text =~= seq!['/'] + text);
                    lemma_segments_behind_separator('/', text);
                } else {
                    assert(joint(p) + text =~= text);
                }
                lemma_join_starts_plain(segs);
                assert(joint(r) == joint(p));
            } else {
                assert(start =~= p.take(m));
                assert(r.skip(n) =~= text.skip(2));
                assert(r[n] == text[2]);
                lemma_join_behind_drive(segs);
                lemma_resolved_again(r);
                let body = r.skip(n);
                assert(crate::common::resolve_one_spec(body) == seq!['/'] + join(segments(body)));
                assert(r.take(n) + body =~= r);
            }
        },
    }
}

/// In the Windows dialect, resolving the resolved form of a path once
/// more does change it where that form does not keep its prefix: a slash
/// then comes to stand behind the longer prefix.
pub proof fn law_resolve_one_changes_again(p: Seq<char>)
    requires
        !keeps_prefix(p),
    ensures
        resolve_one_spec(resolve_one_spec(p, FlexPathVariant::Windows), FlexPathVariant::Windows)
            != resolve_one_spec(p, FlexPathVariant::Windows),
{
    let r = resolve_one_spec(p, FlexPathVariant::Windows);
    let n = resolve_prefix_len(r) as int;
    lemma_resolved_prefix(p);
    lemma_resolved_again(r);
    let again = resolve_one_spec(r, FlexPathVariant::Windows);
    assert(again.len() > n && again[n] == '/');
}

/// The way from an absolute path to itself is empty, in either dialect.
pub proof fn law_relative_to_itself_in(p: Seq<char>, v: FlexPathVariant)
    requires
        is_absolute_spec(p, v),
    ensures
        relative_spec(p, p, v) == Seq::<char>::empty(),
{
    match v {
        FlexPathVariant::Common => {
            law_relative_to_itself(p);
        },
        FlexPathVariant::Windows => {
            let n = absolute_prefix_len(p) as int;
            lemma_segments_of_rooted(p.skip(n));
            law_relative_to_itself(rooted(p.skip(n)));
        },
    }
}

/// The segments of the way from `p` to `q` in the Windows dialect, for
/// paths with the same prefix: the way between what follows the prefix in
/// each.
pub open spec fn way_segments(p: Seq<char>, q: Seq<char>) -> Seq<Seq<char>> {
    relative_segments(
        rooted(p.skip(absolute_prefix_len(p) as int)),
        rooted(q.skip(absolute_prefix_len(q) as int)),
    )
}

/// Whether the way from `p` to `q` fits what resolution reads: acting on
/// the segments that resolution finds behind the prefix of `p`, it leaves
/// the segments that resolution finds behind the prefix of `q`. The way is
/// made for what the relative path finds behind the prefix, which is the
/// same unless the prefix is an extended-length marker written with a
/// forward slash after its `?`.
pub open spec fn way_fits(p: Seq<char>, q: Seq<char>) -> bool {
    apply(segments(p.skip(resolve_prefix_len(p) as int)), way_segments(p, q)) == segments(
        q.skip(resolve_prefix_len(q) as int),
    )
}

/// Both sides of the round trip in the Windows dialect, for absolute
/// paths with the same prefix and a way that begins with no drive: each is
/// the prefix that resolution finds, the joint, and a join of plain
/// segments. Resolving the way against `p` joins what the way leaves of
/// the segments behind the prefix of `p`; resolving `q` joins the segments
/// behind the prefix of `q`.
pub proof fn lemma_round_trip_sides(p: Seq<char>, q: Seq<char>)
    requires
        is_absolute_spec(p, FlexPathVariant::Windows),
        is_absolute_spec(q, FlexPathVariant::Windows),
        p.take(absolute_prefix_len(p) as int) == q.take(absolute_prefix_len(q) as int),
        resolve_prefix_len(relative_spec(p, q, FlexPathVariant::Windows)) == 0,
    ensures
        ({
            let w = FlexPathVariant::Windows;
            let m = resolve_prefix_len(p) as int;
            let left = apply(segments(p.skip(m)), way_segments(p, q));
            let right = segments(q.skip(resolve_prefix_len(q) as int));
            &&& all_plain(left)
            &&& all_plain(right)
            &&& resolve_spec(p, relative_spec(p, q, w), w) == p.take(m) + joint(p) + join(left)
            &&& resolve_one_spec(q, w) == p.take(m) + joint(p) + join(right)
        }),
{
    let w = FlexPathVariant::Windows;
    let none = Seq::<char>::empty();
    let n = absolute_prefix_len(p) as int;
    assert(n == absolute_prefix_len(q)) by {
        assert(p.take(n).len() == n);
    }
    assert forall|i: int| 0 <= i < n implies p[i] == q[i] by {
        assert(p.take(n)[i] == q.take(n)[i]);
    }
    let m = resolve_prefix_len(p) as int;
    assert(m == resolve_prefix_len(q));
    assert(p.take(m) =~= q.take(m));
    assert(joint(p) == joint(q));
    let way = way_segments(p, q);
    let rel = relative_spec(p, q, w);
    let from = rooted(p.skip(n));
    let to = rooted(q.skip(n));
    assert(rel == join(way));
    lemma_relative_segments_shape(from, to);
    lemma_way_starts_plain(way);
    let stack = segments(p.skip(m));
    lemma_segments_plain(p.skip(m));
    lemma_apply_keeps_plain(stack, way);
    lemma_apply_pieces_of_way(stack, way);
    lemma_resolved_shape(q);
    assert(unprefixed(rel) == rel);
    if m == 0 {
        assert(p.skip(0) =~= p);
        assert(p.take(0) =~= none);
        law_resolve_stacks(p, rel);
        assert(resolve_spec(p, rel, w) =~= p.take(m) + joint(p) + join(apply(stack, way)));
    } else {
        let base = seq!['/'] + p.skip(m);
        lemma_segments_behind_separator('/', p.skip(m));
        law_resolve_stacks(base, rel);
        let inner = crate::common::resolve_spec(base, rel);
        assert(inner =~= seq!['/'] + join(apply(stack, way)));
        if is_bare_marker(p.take(m)) {
            assert(inner.skip(1) =~= join(apply(stack, way)));
            assert(resolve_spec(p, rel, w) =~= p.take(m) + joint(p) + join(apply(stack, way)));
        } else {
            assert(resolve_spec(p, rel, w) =~= p.take(m) + joint(p) + join(apply(stack, way)));
        }
    }
}

/// Resolving the way from `p` to `q` against `p` leads to the resolved
/// `q`: in the common dialect for all absolute `p` and `q`; in the Windows
/// dialect for absolute `p` and `q` with the same prefix, as long as the
/// way does not itself begin with a drive, which resolution would take for
/// a prefix, and the way fits what resolution reads.
pub proof fn law_resolve_undoes_relative_in(p: Seq<char>, q: Seq<char>, v: FlexPathVariant)
    requires
        is_absolute_spec(p, v),
        is_absolute_spec(q, v),
        v == FlexPathVariant::Windows ==> p.take(absolute_prefix_len(p) as int) == q.take(
            absolute_prefix_len(q) as int,
        ),
        v == FlexPathVariant::Windows ==> resolve_prefix_len(relative_spec(p, q, v)) == 0,
        v == FlexPathVariant::Windows ==> way_fits(p, q),
    ensures
        resolve_spec(p, relative_spec(p, q, v), v) == resolve_one_spec(q, v),
{
    match v {
        FlexPathVariant::Common => {
            law_resolve_undoes_relative(p, q);
        },
        FlexPathVariant::Windows => {
            lemma_round_trip_sides(p, q);
        },
    }
}

/// In the Windows dialect, resolving the way from `p` to `q` against `p`
/// does not lead to the resolved `q` where the way does not fit what
/// resolution reads.
pub proof fn law_resolve_misses_without_fit(p: Seq<char>, q: Seq<char>)
    requires
        is_absolute_spec(p, FlexPathVariant::Windows),
        is_absolute_spec(q, FlexPathVariant::Windows),
        p.take(absolute_prefix_len(p) as int) == q.take(absolute_prefix_len(q) as int),
        resolve_prefix_len(relative_spec(p, q, FlexPathVariant::Windows)) == 0,
        !way_fits(p, q),
    ensures
        resolve_spec(
            p,
            relative_spec(p, q, FlexPathVariant::Windows),
            FlexPathVariant::Windows,
        ) != resolve_one_spec(q, FlexPathVariant::Windows),
{
    let w = FlexPathVariant::Windows;
    lemma_round_trip_sides(p, q);
    let m = resolve_prefix_len(p) as int;
    let left = apply(segments(p.skip(m)), way_segments(p, q));
    let right = segments(q.skip(resolve_prefix_len(q) as int));
    let start = p.take(m) + joint(p);
    lemma_segments_of_join(left);
    lemma_segments_of_join(right);
    if resolve_spec(p, relative_spec(p, q, w), w) == resolve_one_spec(q, w) {
        assert((start + join(left)).skip(start.len() as int) =~= join(left));
        assert((start + join(right)).skip(start.len() as int) =~= join(right));
        assert(join(left) == join(right));
        assert(false);
    }
}

/// In the Windows dialect, resolving the way from `p` to `q` against `p`
/// does not lead to the resolved `q` where the way begins with a drive:
/// resolution takes the drive for the prefix of the result, and what is
/// left of the way is shorter than the segments of `q`.
pub proof fn law_resolve_misses_behind_a_drive(p: Seq<char>, q: Seq<char>)
    requires
        is_absolute_spec(p, FlexPathVariant::Windows),
        is_absolute_spec(q, FlexPathVariant::Windows),
        p.take(absolute_prefix_len(p) as int) == q.take(absolute_prefix_len(q) as int),
        resolve_prefix_len(relative_spec(p, q, FlexPathVariant::Windows)) > 0,
    ensures
        resolve_spec(
            p,
            relative_spec(p, q, FlexPathVariant::Windows),
            FlexPathVariant::Windows,
        ) != resolve_one_spec(q, FlexPathVariant::Windows),
{
    let w = FlexPathVariant::Windows;
    let n = absolute_prefix_len(q) as int;
    let m = resolve_prefix_len(q) as int;
    let from = rooted(p.skip(absolute_prefix_len(p) as int));
    let to = rooted(q.skip(n));
    let way = way_segments(p, q);
    let rel = relative_spec(p, q, w);
    assert(rel == join(way));
    lemma_relative_segments_shape(from, to);
    lemma_way_starts_plain(way);
    assert(drive_at(rel, 0));
    let rest = rel.skip(2);
    let left_segs = segments(rest);
    lemma_segments_behind_separator('/', rest);
    lemma_segments_plain(rest);
    let left = resolve_spec(p, rel, w);
    assert(left =~= rel.take(2) + seq!['/'] + join(left_segs));
    assert(left[0] == rel[0]);
    lemma_resolved_shape(q);
    let right_segs = segments(q.skip(m));
    let right = resolve_one_spec(q, w);
    assert(right == q.take(m) + joint(q) + join(right_segs));
    if m == 0 {
        assert(q.take(m) + joint(q) =~= seq!['/']);
        assert(right[0] == '/');
    } else if is_separator(q[0]) {
        assert(right[0] == q[0]);
    } else {
        assert(m == 2 && n == 2);
        assert(right =~= q.take(2) + seq!['/'] + join(right_segs));
        lemma_segments_of_rooted(q.skip(n));
        lemma_join_front(way);
        assert(way[0][0] == rel[0]);
        assert(crate::segments::dot_dot()[0] == '.');
        let climb = crate::laws::ascent(from, to);
        if climb > 0 {
            assert(way[0] == crate::common::ups(climb)[0]);
        }
        assert(climb == 0);
        let k = crate::common::common_len(segments(from), segments(to)) as int;
        crate::laws::lemma_common_len(segments(from), segments(to));
        assert(way =~= right_segs.skip(k));
        lemma_bare_len(rest);
        lemma_skip_weight(right_segs, k);
        lemma_join_len(way);
        lemma_join_len(right_segs);
        assert(join(left_segs).len() < join(right_segs).len());
        if left == right {
            assert(left.skip(3) =~= join(left_segs));
            assert(right.skip(3) =~= join(right_segs));
        }
    }
}

/// The way from `p` to `q` fits what resolution reads wherever what
/// follows the prefix of each splits alike for resolution and for the
/// relative path.
pub proof fn law_splits_alike_way_fits(p: Seq<char>, q: Seq<char>)
    requires
        is_absolute_spec(p, FlexPathVariant::Windows),
        is_absolute_spec(q, FlexPathVariant::Windows),
        p.take(absolute_prefix_len(p) as int) == q.take(absolute_prefix_len(q) as int),
        splits_alike(p),
        splits_alike(q),
    ensures
        way_fits(p, q),
{
    let n = absolute_prefix_len(p) as int;
    assert(n == absolute_prefix_len(q)) by {
        assert(p.take(n).len() == n);
    }
    assert forall|i: int| 0 <= i < n implies p[i] == q[i] by {
        assert(p.take(n)[i] == q.take(n)[i]);
    }
    let m = resolve_prefix_len(p) as int;
    assert(m == resolve_prefix_len(q));
    assert(p.subrange(m, n) =~= q.subrange(m, n));
    let stem = segments(p.subrange(m, n));
    lemma_segments_plain(p.subrange(m, n));
    lemma_segments_of_rooted(p.skip(n));
    lemma_segments_of_rooted(q.skip(n));
    lemma_apply_way_leads(stem, rooted(p.skip(n)), rooted(q.skip(n)));
}

/// The way from a path to itself, which is empty, fits what resolution
/// reads.
pub proof fn law_way_fits_itself(p: Seq<char>)
    requires
        is_absolute_spec(p, FlexPathVariant::Windows),
    ensures
        way_fits(p, p),
{
    let n = absolute_prefix_len(p) as int;
    let from = rooted(p.skip(n));
    lemma_common_len_same(segments(from));
    assert(way_segments(p, p) =~= Seq::<Seq<char>>::empty());
}

/// What follows the prefix of `p` splits alike for resolution and for the
/// relative path wherever both recognise the same prefix, and wherever the
/// prefix is a single leading separator.
pub proof fn law_same_prefix_splits_alike(p: Seq<char>)
    requires
        resolve_prefix_len(p) == absolute_prefix_len(p) || absolute_prefix_len(p) == 1,
    ensures
        splits_alike(p),
{
    let m = resolve_prefix_len(p) as int;
    let n = absolute_prefix_len(p) as int;
    let none = Seq::<char>::empty();
    if m == n {
        assert(p.subrange(m, n) =~= none);
        crate::lemmas::lemma_segments_of_join(Seq::<Seq<char>>::empty());
        assert(join(Seq::<Seq<char>>::empty()) =~= none);
        assert(segments(none) + segments(p.skip(n)) =~= segments(p.skip(n)));
    } else {
        assert(m == 0 && n == 1);
        assert(p.skip(0) =~= p);
        assert(p =~= seq![p[0]] + p.skip(1));
        lemma_segments_behind_separator(p[0], p.skip(1));
        assert(p.subrange(0, 1) =~= seq![p[0]] + none);
        lemma_segments_behind_separator(p[0], none);
        crate::lemmas::lemma_segments_of_join(Seq::<Seq<char>>::empty());
        assert(join(Seq::<Seq<char>>::empty()) =~= none);
        assert(segments(none) + segments(p.skip(1)) =~= segments(p.skip(1)));
    }
}

/// Resolution in the Windows dialect keeps the prefix as the path spells
/// it, letter case included: the result begins with the prefix of `second`, or
/// with that of `first` where `second` has none.
pub proof fn law_resolution_keeps_prefix(first: Seq<char>, second: Seq<char>)
    ensures
        resolve_prefix_len(second) > 0 ==> resolve_spec(first, second, FlexPathVariant::Windows).take(
            resolve_prefix_len(second) as int,
        ) == second.take(resolve_prefix_len(second) as int),
        resolve_prefix_len(second) == 0 ==> resolve_spec(first, second, FlexPathVariant::Windows).take(
            resolve_prefix_len(first) as int,
        ) == first.take(resolve_prefix_len(first) as int),
{
    let n1 = resolve_prefix_len(first) as int;
    let n2 = resolve_prefix_len(second) as int;
    let r = resolve_spec(first, second, FlexPathVariant::Windows);
    if n2 > 0 {
        assert(r.take(n2) =~= second.take(n2));
    } else if n1 > 0 {
        assert(r.take(n1) =~= first.take(n1));
    } else {
        assert(r.take(0) =~= first.take(0));
    }
}

} // verus!
