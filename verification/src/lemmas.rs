//! Facts about pieces, segments and joins that the laws of the library
//! rest on.

use vstd::prelude::*;
use crate::segments::{apply, dot, dot_dot, is_separator, join, pieces, segments, step};

verus! {

/// Whether no character of `s` is a separator.
pub open spec fn separator_free(s: Seq<char>) -> bool {
    forall|i: int| 0 <= i < s.len() ==> !is_separator(#[trigger] s[i])
}

/// Whether `seg` is a segment that resolution keeps as it is: not empty,
/// without separators, and neither `.` nor `..`.
pub open spec fn is_plain(seg: Seq<char>) -> bool {
    seg.len() > 0 && separator_free(seg) && seg != dot() && seg != dot_dot()
}

/// Whether every segment of `segs` is plain.
pub open spec fn all_plain(segs: Seq<Seq<char>>) -> bool {
    forall|i: int| 0 <= i < segs.len() ==> is_plain(#[trigger] segs[i])
}

/// Whether every piece of `ps` is free of separators.
pub open spec fn all_separator_free(ps: Seq<Seq<char>>) -> bool {
    forall|i: int| 0 <= i < ps.len() ==> separator_free(#[trigger] ps[i])
}

/// A text has at least one piece, and no piece holds a separator.
pub proof fn lemma_pieces_shape(s: Seq<char>)
    ensures
        pieces(s).len() >= 1,
        all_separator_free(pieces(s)),
    decreases s.len(),
{
    if s.len() > 0 {
        lemma_pieces_shape(s.drop_last());
    }
}

/// The pieces of `a + b`: those of `a` but the last, then the last of `a`
/// run together with the first of `b`, then the others of `b`.
pub proof fn lemma_pieces_concat(a: Seq<char>, b: Seq<char>)
    ensures
        pieces(a + b) == pieces(a).drop_last().push(pieces(a).last() + pieces(b)[0]) + pieces(
            b,
        ).skip(1),
    decreases b.len(),
{
    lemma_pieces_shape(a);
    lemma_pieces_shape(b);
    let pa = pieces(a);
    let target = pa.drop_last().push(pa.last() + pieces(b)[0]) + pieces(b).skip(1);
    if b.len() == 0 {
        assert(a + b =~= a);
        assert(pa.last() + pieces(b)[0] =~= pa.last());
        assert(target =~= pa);
    } else {
        let b1 = b.drop_last();
        let c = b.last();
        lemma_pieces_concat(a, b1);
        lemma_pieces_shape(b1);
        assert((a + b).drop_last() =~= a + b1);
        assert((a + b).last() == c);
        let pb1 = pieces(b1);
        let prev = pa.drop_last().push(pa.last() + pb1[0]) + pb1.skip(1);
        assert(pieces(a + b1) == prev);
        if is_separator(c) {
            assert(pieces(b) == pb1.push(Seq::<char>::empty()));
            assert(pieces(a + b) == prev.push(Seq::<char>::empty()));
            assert(prev.push(Seq::<char>::empty()) =~= target);
        } else {
            assert(pieces(b) == pb1.drop_last().push(pb1.last().push(c)));
            assert(pieces(a + b) == prev.drop_last().push(prev.last().push(c)));
            if pb1.len() == 1 {
                assert((pa.last() + pb1[0]).push(c) =~= pa.last() + pb1[0].push(c));
                assert(prev.drop_last().push(prev.last().push(c)) =~= target);
            } else {
                assert(prev.drop_last().push(prev.last().push(c)) =~= target);
            }
        }
    }
}

/// A text without separators is its own single piece.
pub proof fn lemma_pieces_of_separator_free(s: Seq<char>)
    requires
        separator_free(s),
    ensures
        pieces(s) == seq![s],
    decreases s.len(),
{
    if s.len() == 0 {
        assert(s =~= Seq::<char>::empty());
    } else {
        assert(separator_free(s.drop_last())) by {
            assert forall|i: int| 0 <= i < s.drop_last().len() implies !is_separator(
                #[trigger] s.drop_last()[i],
            ) by {
                assert(s.drop_last()[i] == s[i]);
            }
        }
        lemma_pieces_of_separator_free(s.drop_last());
        assert(!is_separator(s.last()));
        assert(s.drop_last().push(s.last()) =~= s);
        assert(pieces(s) =~= seq![s]);
    }
}

/// The pieces of `a`, a separator and `b` are the pieces of `a` followed
/// by those of `b`.
pub proof fn lemma_pieces_around_separator(a: Seq<char>, c: char, b: Seq<char>)
    requires
        is_separator(c),
    ensures
        pieces(a + seq![c] + b) == pieces(a) + pieces(b),
{
    lemma_pieces_shape(a);
    lemma_pieces_shape(b);
    let a1 = a + seq![c];
    assert(a1.drop_last() =~= a);
    assert(a1.last() == c);
    assert(pieces(a1) == pieces(a).push(Seq::<char>::empty()));
    lemma_pieces_concat(a1, b);
    assert(pieces(a1).drop_last() =~= pieces(a));
    assert(Seq::<char>::empty() + pieces(b)[0] =~= pieces(b)[0]);
    assert(pieces(a).push(pieces(b)[0]) + pieces(b).skip(1) =~= pieces(a) + pieces(b));
}

/// Segments without separators, none of them missing, come back as the
/// pieces of their join.
pub proof fn lemma_pieces_of_join(segs: Seq<Seq<char>>)
    requires
        segs.len() > 0,
        all_separator_free(segs),
    ensures
        pieces(join(segs)) == segs,
    decreases segs.len(),
{
    if segs.len() == 1 {
        lemma_pieces_of_separator_free(segs[0]);
        assert(seq![segs[0]] =~= segs);
    } else {
        let front = segs.drop_last();
        assert(all_separator_free(front)) by {
            assert forall|i: int| 0 <= i < front.len() implies separator_free(
                #[trigger] front[i],
            ) by {
                assert(front[i] == segs[i]);
            }
        }
        lemma_pieces_of_join(front);
        lemma_pieces_around_separator(join(front), '/', segs.last());
        lemma_pieces_of_separator_free(segs.last());
        assert(front + seq![segs.last()] =~= segs);
    }
}

/// A single piece acts by one step.
pub proof fn lemma_apply_one(stack: Seq<Seq<char>>, piece: Seq<char>)
    ensures
        apply(stack, seq![piece]) == step(stack, piece),
{
    let one = seq![piece];
    assert(one.drop_last() =~= Seq::<Seq<char>>::empty());
    assert(apply(stack, one.drop_last()) == stack);
    assert(one.last() == piece);
}

/// Pieces taken in two runs act as they do in one.
pub proof fn lemma_apply_concat(stack: Seq<Seq<char>>, a: Seq<Seq<char>>, b: Seq<Seq<char>>)
    ensures
        apply(stack, a + b) == apply(apply(stack, a), b),
    decreases b.len(),
{
    if b.len() == 0 {
        assert(a + b =~= a);
    } else {
        lemma_apply_concat(stack, a, b.drop_last());
        assert((a + b).drop_last() =~= a + b.drop_last());
        assert((a + b).last() == b.last());
    }
}

/// Plain segments are added as they are.
pub proof fn lemma_apply_plain(stack: Seq<Seq<char>>, segs: Seq<Seq<char>>)
    requires
        all_plain(segs),
    ensures
        apply(stack, segs) == stack + segs,
    decreases segs.len(),
{
    if segs.len() == 0 {
        assert(stack + segs =~= stack);
    } else {
        let front = segs.drop_last();
        assert(all_plain(front)) by {
            assert forall|i: int| 0 <= i < front.len() implies is_plain(#[trigger] front[i]) by {
                assert(front[i] == segs[i]);
            }
        }
        lemma_apply_plain(stack, front);
        assert(is_plain(segs.last()));
        assert((stack + front).push(segs.last()) =~= stack + segs);
    }
}

/// Whatever the pieces, as long as none holds a separator, plain segments
/// stay plain.
pub proof fn lemma_apply_keeps_plain(stack: Seq<Seq<char>>, ps: Seq<Seq<char>>)
    requires
        all_plain(stack),
        all_separator_free(ps),
    ensures
        all_plain(apply(stack, ps)),
    decreases ps.len(),
{
    if ps.len() > 0 {
        let front = ps.drop_last();
        assert(all_separator_free(front)) by {
            assert forall|i: int| 0 <= i < front.len() implies separator_free(
                #[trigger] front[i],
            ) by {
                assert(front[i] == ps[i]);
            }
        }
        lemma_apply_keeps_plain(stack, front);
        let mid = apply(stack, front);
        let out = step(mid, ps.last());
        assert(separator_free(ps.last()));
        assert forall|i: int| 0 <= i < out.len() implies is_plain(#[trigger] out[i]) by {
            if i < mid.len() {
                assert(out[i] == mid[i]);
            }
        }
    }
}

/// The segments of a text are plain.
pub proof fn lemma_segments_plain(s: Seq<char>)
    ensures
        all_plain(segments(s)),
{
    lemma_pieces_shape(s);
    lemma_apply_keeps_plain(Seq::<Seq<char>>::empty(), pieces(s));
}

/// The pieces of the join of plain segments act on a stack by adding the
/// segments to it.
pub proof fn lemma_apply_join(stack: Seq<Seq<char>>, segs: Seq<Seq<char>>)
    requires
        all_plain(segs),
    ensures
        apply(stack, pieces(join(segs))) == stack + segs,
{
    if segs.len() == 0 {
        assert(pieces(join(segs)) =~= seq![Seq::<char>::empty()]);
        lemma_apply_one(stack, Seq::<char>::empty());
        assert(stack + segs =~= stack);
    } else {
        lemma_pieces_of_join(segs);
        lemma_apply_plain(stack, segs);
    }
}

/// Plain segments are the segments of their join.
pub proof fn lemma_segments_of_join(segs: Seq<Seq<char>>)
    requires
        all_plain(segs),
    ensures
        segments(join(segs)) == segs,
{
    lemma_apply_join(Seq::<Seq<char>>::empty(), segs);
    assert(Seq::<Seq<char>>::empty() + segs =~= segs);
}

/// A separator in front of a text adds no segment.
pub proof fn lemma_segments_behind_separator(c: char, s: Seq<char>)
    requires
        is_separator(c),
    ensures
        segments(seq![c] + s) == segments(s),
{
    let none = Seq::<char>::empty();
    assert(none + seq![c] + s =~= seq![c] + s);
    lemma_pieces_around_separator(none, c, s);
    let first = pieces(none);
    assert(first =~= seq![none]);
    lemma_apply_concat(Seq::<Seq<char>>::empty(), first, pieces(s));
    lemma_apply_one(Seq::<Seq<char>>::empty(), none);
}

/// The join of plain segments begins with no separator.
pub proof fn lemma_join_starts_plain(segs: Seq<Seq<char>>)
    requires
        all_plain(segs),
    ensures
        join(segs).len() > 0 ==> !is_separator(join(segs)[0]),
        (join(segs).len() == 0) == (segs.len() == 0),
    decreases segs.len(),
{
    if segs.len() == 1 {
        assert(is_plain(segs[0]));
    } else if segs.len() > 1 {
        let front = segs.drop_last();
        assert(all_plain(front)) by {
            assert forall|i: int| 0 <= i < front.len() implies is_plain(#[trigger] front[i]) by {
                assert(front[i] == segs[i]);
            }
        }
        lemma_join_starts_plain(front);
        assert(join(segs)[0] == join(front)[0]);
    }
}

/// A join begins with its first segment; the others follow behind a
/// slash.
pub proof fn lemma_join_front(segs: Seq<Seq<char>>)
    requires
        segs.len() > 0,
    ensures
        segs.len() == 1 ==> join(segs) == segs[0],
        segs.len() > 1 ==> join(segs) == segs[0] + seq!['/'] + join(segs.skip(1)),
    decreases segs.len(),
{
    if segs.len() > 1 {
        let front = segs.drop_last();
        let rest = segs.skip(1);
        lemma_join_front(front);
        if segs.len() == 2 {
            assert(front[0] == segs[0]);
            assert(rest[0] == segs.last());
        } else {
            assert(rest.drop_last() =~= front.skip(1));
            assert(rest.last() == segs.last());
            assert(front[0] == segs[0]);
            assert(join(segs) =~= segs[0] + seq!['/'] + (join(front.skip(1)) + seq!['/']
                + segs.last()));
        }
    }
}

/// The only separators in a join of segments that hold none are the
/// slashes between the segments.
pub proof fn lemma_join_separators(segs: Seq<Seq<char>>)
    requires
        all_separator_free(segs),
    ensures
        forall|i: int|
            0 <= i < join(segs).len() && is_separator(#[trigger] join(segs)[i]) ==> join(segs)[i]
                == '/',
    decreases segs.len(),
{
    if segs.len() == 1 {
        assert(separator_free(segs[0]));
    } else if segs.len() > 1 {
        let front = segs.drop_last();
        assert(all_separator_free(front)) by {
            assert forall|i: int| 0 <= i < front.len() implies separator_free(
                #[trigger] front[i],
            ) by {
                assert(front[i] == segs[i]);
            }
        }
        lemma_join_separators(front);
        assert(separator_free(segs.last()));
        let j = join(segs);
        let n = join(front).len() as int;
        assert forall|i: int| 0 <= i < j.len() && is_separator(#[trigger] j[i]) implies j[i]
            == '/' by {
            if i < n {
                assert(j[i] == join(front)[i]);
            } else if i > n {
                assert(j[i] == segs.last()[i - n - 1]);
            }
        }
    }
}

/// The room that segments take when joined and followed by one more
/// character: the length of each and one more for each.
pub open spec fn weight(segs: Seq<Seq<char>>) -> nat
    decreases segs.len(),
{
    if segs.len() == 0 {
        0
    } else {
        weight(segs.drop_last()) + segs.last().len() + 1
    }
}

/// A join of segments is one character shorter than their weight.
pub proof fn lemma_join_len(segs: Seq<Seq<char>>)
    ensures
        segs.len() > 0 ==> join(segs).len() + 1 == weight(segs),
        segs.len() == 0 ==> join(segs).len() == 0,
    decreases segs.len(),
{
    if segs.len() == 1 {
        assert(weight(segs.drop_last()) == 0);
    } else if segs.len() > 1 {
        lemma_join_len(segs.drop_last());
    }
}

/// The pieces of a text weigh one more than the text is long.
pub proof fn lemma_pieces_weight(s: Seq<char>)
    ensures
        weight(pieces(s)) == s.len() + 1,
    decreases s.len(),
{
    if s.len() == 0 {
        let only = pieces(s);
        assert(only.drop_last().len() == 0);
        assert(weight(only.drop_last()) == 0);
    } else {
        lemma_pieces_weight(s.drop_last());
        lemma_pieces_shape(s.drop_last());
        let before = pieces(s.drop_last());
        if is_separator(s.last()) {
            let now = before.push(Seq::<char>::empty());
            assert(now.drop_last() =~= before);
        } else {
            let grown = before.last().push(s.last());
            let now = before.drop_last().push(grown);
            assert(now.drop_last() =~= before.drop_last());
            assert(now.last() == grown);
        }
    }
}

/// Pieces add to a stack no more than they weigh.
pub proof fn lemma_apply_weight(stack: Seq<Seq<char>>, ps: Seq<Seq<char>>)
    ensures
        weight(apply(stack, ps)) <= weight(stack) + weight(ps),
    decreases ps.len(),
{
    if ps.len() > 0 {
        lemma_apply_weight(stack, ps.drop_last());
        let mid = apply(stack, ps.drop_last());
        let out = step(mid, ps.last());
        if out.len() == mid.len() + 1 {
            assert(out.drop_last() =~= mid);
            assert(out.last() == ps.last());
        }
    }
}

/// The resolved form of a text without its leading slash is no longer
/// than the text.
pub proof fn lemma_bare_len(s: Seq<char>)
    ensures
        join(segments(s)).len() <= s.len(),
{
    lemma_pieces_weight(s);
    lemma_apply_weight(Seq::<Seq<char>>::empty(), pieces(s));
    lemma_join_len(segments(s));
}

/// The last segments of a sequence weigh no more than all of them.
pub proof fn lemma_skip_weight(segs: Seq<Seq<char>>, k: int)
    requires
        0 <= k <= segs.len(),
    ensures
        weight(segs.skip(k)) <= weight(segs),
    decreases segs.len(),
{
    if k == segs.len() {
        assert(segs.skip(k).len() == 0);
    } else {
        lemma_skip_weight(segs.drop_last(), k);
        assert(segs.skip(k).drop_last() =~= segs.drop_last().skip(k));
        assert(segs.skip(k).last() == segs.last());
    }
}

} // verus!
