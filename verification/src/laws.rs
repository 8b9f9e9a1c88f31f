//! Laws of the common dialect: what resolution and the relative path
//! promise of each other, for every path.

use vstd::prelude::*;
use crate::common::{
    bare, common_from, common_len, lead, relative_segments, relative_spec, resolve_one_spec,
    resolve_spec, ups,
};
use crate::lemmas::{
    all_plain, all_separator_free, is_plain, lemma_apply_concat, lemma_apply_plain,
    lemma_join_starts_plain, lemma_pieces_around_separator, lemma_pieces_of_join,
    lemma_segments_behind_separator, lemma_segments_of_join, lemma_segments_plain,
};
use crate::segments::{
    apply, dot_dot, is_separator, join, pieces, segments, starts_with_separator,
};

verus! {

/// The number of segments of the resolved form of `p`.
pub open spec fn depth(p: Seq<char>) -> nat {
    segments(p).len()
}

/// The number of `..` segments at the start of the way from `from` to
/// `to`: the depth of `from` below the common ancestor.
pub open spec fn ascent(from: Seq<char>, to: Seq<char>) -> nat {
    (depth(from) - common_len(segments(from), segments(to))) as nat
}

/// The segments that follow the `..` run on the way from `from` to `to`:
/// those of `to` below the common ancestor.
pub open spec fn descent(from: Seq<char>, to: Seq<char>) -> Seq<Seq<char>> {
    segments(to).skip(common_len(segments(from), segments(to)) as int)
}

/// From index `i` on, two sequences agree up to the index that
/// `common_from` gives, and no further.
pub proof fn lemma_common_from(a: Seq<Seq<char>>, b: Seq<Seq<char>>, i: nat)
    requires
        i <= a.len(),
        i <= b.len(),
    ensures
        i <= common_from(a, b, i) <= a.len(),
        common_from(a, b, i) <= b.len(),
        forall|j: int| i <= j < common_from(a, b, i) ==> a[j] == b[j],
        common_from(a, b, i) < a.len() && common_from(a, b, i) < b.len() ==> a[common_from(
            a,
            b,
            i,
        ) as int] != b[common_from(a, b, i) as int],
    decreases a.len() - i,
{
    if i < a.len() && i < b.len() && a[i as int] == b[i as int] {
        lemma_common_from(a, b, i + 1);
    }
}

/// The common length of two sequences is the length of their longest
/// common prefix.
pub proof fn lemma_common_len(a: Seq<Seq<char>>, b: Seq<Seq<char>>)
    ensures
        common_len(a, b) <= a.len(),
        common_len(a, b) <= b.len(),
        a.take(common_len(a, b) as int) == b.take(common_len(a, b) as int),
        common_len(a, b) < a.len() && common_len(a, b) < b.len() ==> a[common_len(a, b) as int]
            != b[common_len(a, b) as int],
{
    lemma_common_from(a, b, 0);
    let k = common_len(a, b) as int;
    assert(a.take(k) =~= b.take(k));
}

/// A sequence shares all of itself with itself.
pub proof fn lemma_common_len_same(a: Seq<Seq<char>>)
    ensures
        common_len(a, a) == a.len(),
{
    lemma_common_from(a, a, 0);
}

/// `n` segments `..` remove the last `n` segments of a stack that holds at
/// least as many.
pub proof fn lemma_apply_ups(stack: Seq<Seq<char>>, n: nat)
    requires
        n <= stack.len(),
    ensures
        apply(stack, ups(n)) == stack.take(stack.len() - n),
    decreases n,
{
    if n == 0 {
        assert(ups(0) =~= Seq::<Seq<char>>::empty());
        assert(stack.take(stack.len() as int) =~= stack);
    } else {
        lemma_apply_ups(stack, (n - 1) as nat);
        assert(ups(n).drop_last() =~= ups((n - 1) as nat));
        assert(ups(n).last() == dot_dot());
        let mid = stack.take(stack.len() - (n - 1));
        assert(mid.len() > 0);
        assert(mid.drop_last() =~= stack.take(stack.len() - n));
        assert(dot_dot().len() == 2);
        assert(dot_dot()[0] == '.');
        assert(crate::segments::dot().len() == 1);
    }
}

/// The segments of the way from one path to another hold no separator and
/// none is empty.
pub proof fn lemma_relative_segments_shape(from: Seq<char>, to: Seq<char>)
    ensures
        all_separator_free(relative_segments(from, to)),
        forall|i: int|
            0 <= i < relative_segments(from, to).len() ==> (#[trigger] relative_segments(
                from,
                to,
            )[i]).len() > 0,
        relative_segments(from, to) == ups(ascent(from, to)) + descent(from, to),
        all_plain(descent(from, to)),
{
    let a = segments(from);
    let b = segments(to);
    lemma_common_len(a, b);
    lemma_segments_plain(to);
    let k = common_len(a, b);
    let r = relative_segments(from, to);
    let m = (a.len() - k) as nat;
    assert(dot_dot().len() == 2);
    assert(dot_dot()[0] == '.' && dot_dot()[1] == '.');
    assert forall|i: int| 0 <= i < r.len() implies crate::lemmas::separator_free(#[trigger] r[i])
        && r[i].len() > 0 by {
        if i < m {
            assert(r[i] == dot_dot());
        } else {
            assert(r[i] == b[i - m + k]);
            assert(is_plain(b[i - m + k]));
        }
    }
    assert forall|i: int| 0 <= i < descent(from, to).len() implies is_plain(
        #[trigger] descent(from, to)[i],
    ) by {
        assert(descent(from, to)[i] == b[i + k]);
    }
}

/// Resolving a resolved path changes nothing.
pub proof fn law_resolve_one_idempotent(p: Seq<char>)
    ensures
        resolve_one_spec(resolve_one_spec(p)) == resolve_one_spec(p),
{
    let segs = segments(p);
    let r = resolve_one_spec(p);
    lemma_segments_plain(p);
    lemma_segments_of_join(segs);
    lemma_join_starts_plain(segs);
    if starts_with_separator(p) {
        assert(r =~= seq!['/'] + join(segs));
        lemma_segments_behind_separator('/', join(segs));
        assert(starts_with_separator(r));
    } else {
        assert(r =~= join(segs));
        assert(!starts_with_separator(r));
    }
    assert(segments(r) == segs);
}

/// The way from an absolute path to itself is empty.
pub proof fn law_relative_to_itself(p: Seq<char>)
    requires
        starts_with_separator(p),
    ensures
        relative_spec(p, p) == Seq::<char>::empty(),
{
    let a = segments(p);
    lemma_common_len_same(a);
    assert(relative_segments(p, p) =~= Seq::<Seq<char>>::empty());
}

/// The pieces of a way act as its segments do: the way is made of
/// segments that are not empty and hold no separator, so its join splits
/// into them again, and an empty way acts like no piece at all.
pub proof fn lemma_apply_pieces_of_way(stack: Seq<Seq<char>>, way: Seq<Seq<char>>)
    requires
        all_separator_free(way),
        forall|i: int| 0 <= i < way.len() ==> (#[trigger] way[i]).len() > 0,
    ensures
        apply(stack, pieces(join(way))) == apply(stack, way),
{
    if way.len() == 0 {
        assert(pieces(join(way)) =~= seq![Seq::<char>::empty()]);
        crate::lemmas::lemma_apply_one(stack, Seq::<char>::empty());
    } else {
        lemma_pieces_of_join(way);
    }
}

/// The way from `from` to `to`, acting on the segments of `from` behind
/// the plain segments `stem`, leaves the segments of `to` behind `stem`.
pub proof fn lemma_apply_way_leads(stem: Seq<Seq<char>>, from: Seq<char>, to: Seq<char>)
    requires
        all_plain(stem),
    ensures
        apply(stem + segments(from), relative_segments(from, to)) == stem + segments(to),
{
    let a = segments(from);
    let b = segments(to);
    let k = common_len(a, b);
    let full = stem + a;
    lemma_common_len(a, b);
    lemma_relative_segments_shape(from, to);
    let climb = ups(ascent(from, to));
    let down = descent(from, to);
    lemma_apply_concat(full, climb, down);
    lemma_apply_ups(full, ascent(from, to));
    assert(full.take(full.len() - ascent(from, to)) =~= stem + a.take(k as int));
    lemma_apply_plain(stem + a.take(k as int), down);
    assert(b.take(k as int) + b.skip(k as int) =~= b);
    assert(stem + a.take(k as int) + down =~= stem + b);
}

/// Resolving the way from `from` to `to` against a base whose segments
/// are those of `from` behind the plain segments `stem` leads to the
/// segments of `to` behind `stem`.
pub proof fn lemma_resolve_along_way(
    base: Seq<char>,
    stem: Seq<Seq<char>>,
    from: Seq<char>,
    to: Seq<char>,
)
    requires
        all_plain(stem),
        segments(base) == stem + segments(from),
    ensures
        resolve_spec(base, relative_spec(from, to)) == lead(base) + join(stem + segments(to)),
{
    let way = relative_segments(from, to);
    lemma_relative_segments_shape(from, to);
    lemma_way_starts_plain(way);
    law_resolve_stacks(base, relative_spec(from, to));
    lemma_apply_pieces_of_way(segments(base), way);
    lemma_apply_way_leads(stem, from, to);
}

/// Resolving the way from `p` to `q` against `p` leads to the resolved
/// `q`, for absolute `p` and `q`.
pub proof fn law_resolve_undoes_relative(p: Seq<char>, q: Seq<char>)
    requires
        starts_with_separator(p),
        starts_with_separator(q),
    ensures
        resolve_spec(p, relative_spec(p, q)) == resolve_one_spec(q),
{
    let stem = Seq::<Seq<char>>::empty();
    assert(stem + segments(p) =~= segments(p));
    assert(stem + segments(q) =~= segments(q));
    lemma_resolve_along_way(p, stem, p, q);
}

/// The join of segments that are not empty and hold no separator neither
/// begins nor ends with a separator, and is empty only if there is no
/// segment.
pub proof fn lemma_way_starts_plain(way: Seq<Seq<char>>)
    requires
        all_separator_free(way),
        forall|i: int| 0 <= i < way.len() ==> (#[trigger] way[i]).len() > 0,
    ensures
        !starts_with_separator(join(way)),
        join(way).len() > 0 ==> !is_separator(join(way).last()),
        (join(way).len() == 0) == (way.len() == 0),
    decreases way.len(),
{
    if way.len() == 1 {
        assert(way[0].len() > 0);
        assert(crate::lemmas::separator_free(way[0]));
    } else if way.len() > 1 {
        let front = way.drop_last();
        assert(all_separator_free(front)) by {
            assert forall|i: int| 0 <= i < front.len() implies crate::lemmas::separator_free(
                #[trigger] front[i],
            ) by {
                assert(front[i] == way[i]);
            }
        }
        assert forall|i: int| 0 <= i < front.len() implies (#[trigger] front[i]).len() > 0 by {
            assert(front[i] == way[i]);
        }
        lemma_way_starts_plain(front);
        assert(join(way)[0] == join(front)[0]);
        assert(way.last().len() > 0);
        assert(crate::lemmas::separator_free(way.last()));
        assert(join(way).last() == way.last().last());
    }
}

/// The way from `a` to `b` is a run of `..` segments followed by a run of
/// plain segments, with nothing else between or around them: as many `..`
/// as `a` lies below the common ancestor, then the segments of `b` below
/// it. Together they are never more than the depths of `a` and `b`, and
/// the way neither begins nor ends with a separator.
pub proof fn law_relative_runs(a: Seq<char>, b: Seq<char>)
    ensures
        relative_spec(a, b) == join(ups(ascent(a, b)) + descent(a, b)),
        all_plain(descent(a, b)),
        ascent(a, b) <= depth(a),
        descent(a, b).len() <= depth(b),
        ascent(a, b) + descent(a, b).len() <= depth(a) + depth(b),
        relative_spec(a, b).len() > 0 ==> pieces(relative_spec(a, b)) == ups(ascent(a, b))
            + descent(a, b),
        relative_spec(a, b).len() == 0 ==> ascent(a, b) + descent(a, b).len() == 0,
        !starts_with_separator(relative_spec(a, b)),
        relative_spec(a, b).len() > 0 ==> !is_separator(relative_spec(a, b).last()),
{
    lemma_common_len(segments(a), segments(b));
    lemma_relative_segments_shape(a, b);
    let way = relative_segments(a, b);
    lemma_way_starts_plain(way);
    if way.len() > 0 {
        lemma_pieces_of_join(way);
    }
}

/// Whatever the pieces, each segment that comes out of them was on the
/// stack before or is one of the pieces.
pub proof fn lemma_apply_takes_pieces(stack: Seq<Seq<char>>, ps: Seq<Seq<char>>)
    ensures
        forall|i: int|
            0 <= i < apply(stack, ps).len() ==> stack.contains(#[trigger] apply(stack, ps)[i])
                || ps.contains(apply(stack, ps)[i]),
    decreases ps.len(),
{
    if ps.len() > 0 {
        let front = ps.drop_last();
        lemma_apply_takes_pieces(stack, front);
        let mid = apply(stack, front);
        let out = apply(stack, ps);
        assert forall|i: int| 0 <= i < out.len() implies stack.contains(#[trigger] out[i])
            || ps.contains(out[i]) by {
            if i < mid.len() && out[i] == mid[i] {
                if front.contains(mid[i]) {
                    let j = choose|j: int| 0 <= j < front.len() && front[j] == mid[i];
                    assert(ps[j] == mid[i]);
                }
            } else {
                assert(out[i] == ps.last());
                assert(ps[ps.len() - 1] == ps.last());
            }
        }
    }
}

/// Resolution keeps each segment as the path spells it, letter case
/// included: every segment of the resolved form is one of the pieces of the
/// path.
pub proof fn law_segments_are_pieces(p: Seq<char>)
    ensures
        forall|i: int| 0 <= i < segments(p).len() ==> pieces(p).contains(#[trigger] segments(p)[i]),
        resolve_one_spec(p) == lead(p) + join(segments(p)),
{
    lemma_apply_takes_pieces(Seq::<Seq<char>>::empty(), pieces(p));
}

/// Resolving a relative `second` against `first` lets the pieces of
/// `second` act on the segments of `first`, and keeps the leading slash of
/// `first`.
pub proof fn law_resolve_stacks(first: Seq<char>, second: Seq<char>)
    requires
        !starts_with_separator(second),
    ensures
        resolve_spec(first, second) == lead(first) + join(apply(segments(first), pieces(second))),
{
    let segs = segments(first);
    lemma_segments_plain(first);
    if second.len() == 0 {
        assert(pieces(second) =~= seq![Seq::<char>::empty()]);
        crate::lemmas::lemma_apply_one(segs, Seq::<char>::empty());
    } else {
        lemma_pieces_around_separator(bare(first), '/', second);
        lemma_apply_concat(Seq::<Seq<char>>::empty(), pieces(bare(first)), pieces(second));
        lemma_segments_of_join(segs);
    }
}

} // verus!
