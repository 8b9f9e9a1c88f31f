//! Segment algebra: how a path splits at its separators, which segments
//! survive `.` and `..`, and how segments join back into a path.

use vstd::prelude::*;

verus! {

/// A path separator: the forward slash or the backslash.
pub open spec fn is_separator(c: char) -> bool {
    c == '/' || c == '\\'
}

/// Whether `s` begins with a path separator.
pub open spec fn starts_with_separator(s: Seq<char>) -> bool {
    s.len() > 0 && is_separator(s[0])
}

/// The pieces of `s` that lie between its separators, empty ones included.
/// A text with `n` separators has `n + 1` pieces.
pub open spec fn pieces(s: Seq<char>) -> Seq<Seq<char>>
    decreases s.len(),
{
    if s.len() == 0 {
        seq![Seq::<char>::empty()]
    } else {
        let before = pieces(s.drop_last());
        if is_separator(s.last()) {
            before.push(Seq::<char>::empty())
        } else {
            before.drop_last().push(before.last().push(s.last()))
        }
    }
}

/// The segment `.`.
pub open spec fn dot() -> Seq<char> {
    seq!['.']
}

/// The segment `..`.
pub open spec fn dot_dot() -> Seq<char> {
    seq!['.', '.']
}

/// The effect of one piece on the segments gathered so far: an empty piece
/// and `.` leave them as they are, `..` removes the last one if there is
/// one, and any other piece is added at the end.
pub open spec fn step(stack: Seq<Seq<char>>, piece: Seq<char>) -> Seq<Seq<char>> {
    if piece.len() == 0 || piece == dot() {
        stack
    } else if piece == dot_dot() {
        if stack.len() > 0 {
            stack.drop_last()
        } else {
            stack
        }
    } else {
        stack.push(piece)
    }
}

/// The effect of the pieces `ps`, taken from first to last, on `stack`.
pub open spec fn apply(stack: Seq<Seq<char>>, ps: Seq<Seq<char>>) -> Seq<Seq<char>>
    decreases ps.len(),
{
    if ps.len() == 0 {
        stack
    } else {
        step(apply(stack, ps.drop_last()), ps.last())
    }
}

/// The segments that remain of `s` once `.` and `..` are eliminated.
pub open spec fn segments(s: Seq<char>) -> Seq<Seq<char>> {
    apply(Seq::<Seq<char>>::empty(), pieces(s))
}

/// The segments joined with a forward slash between each two.
pub open spec fn join(segs: Seq<Seq<char>>) -> Seq<char>
    decreases segs.len(),
{
    if segs.len() == 0 {
        Seq::<char>::empty()
    } else if segs.len() == 1 {
        segs[0]
    } else {
        join(segs.drop_last()) + seq!['/'] + segs.last()
    }
}

/// The contents of a vector of character vectors.
pub open spec fn views(v: Seq<Vec<char>>) -> Seq<Seq<char>> {
    v.map_values(|x: Vec<char>| x@)
}

/// Whether `c` is a path separator.
pub fn is_sep(c: char) -> (b: bool)
    ensures
        b == is_separator(c),
{
    c == '/' || c == '\\'
}

/// Whether `piece` is the segment `.`.
fn is_dot(piece: &Vec<char>) -> (b: bool)
    ensures
        b == (piece@ == dot()),
{
    let b = piece.len() == 1 && piece[0] == '.';
    proof {
        if b {
            assert(piece@ =~= dot());
        }
    }
    b
}

/// Whether `piece` is the segment `..`.
fn is_dot_dot(piece: &Vec<char>) -> (b: bool)
    ensures
        b == (piece@ == dot_dot()),
{
    let b = piece.len() == 2 && piece[0] == '.' && piece[1] == '.';
    proof {
        if b {
            assert(piece@ =~= dot_dot());
        }
    }
    b
}

/// Lets one piece act on the segments gathered so far.
fn take_piece(stack: &mut Vec<Vec<char>>, piece: Vec<char>)
    ensures
        views(final(stack)@) == step(views(old(stack)@), piece@),
{
    if piece.len() == 0 || is_dot(&piece) {
    } else if is_dot_dot(&piece) {
        if stack.len() > 0 {
            stack.pop();
            assert(views(stack@) =~= views(old(stack)@).drop_last());
        }
    } else {
        stack.push(piece);
        assert(views(stack@) =~= views(old(stack)@).push(piece@));
    }
}

/// Splits `path` at its separators and eliminates `.` and `..`.
pub fn split_segments(path: &Vec<char>) -> (segs: Vec<Vec<char>>)
    ensures
        views(segs@) == segments(path@),
{
    let mut stack: Vec<Vec<char>> = Vec::new();
    let mut piece: Vec<char> = Vec::new();
    let mut i: usize = 0;
    assert(path@.take(0) =~= Seq::<char>::empty());
    assert(views(stack@) =~= Seq::<Seq<char>>::empty());
    assert(pieces(path@.take(0)).drop_last() =~= Seq::<Seq<char>>::empty());
    while i < path.len()
        invariant
            i <= path.len(),
            views(stack@) == apply(
                Seq::<Seq<char>>::empty(),
                pieces(path@.take(i as int)).drop_last(),
            ),
            piece@ == pieces(path@.take(i as int)).last(),
            pieces(path@.take(i as int)).len() > 0,
        decreases path.len() - i,
    {
        let c = path[i];
        proof {
            let now = path@.take(i + 1);
            assert(now.drop_last() =~= path@.take(i as int));
            assert(now.last() == c);
            let before = pieces(path@.take(i as int));
            if is_separator(c) {
                assert(pieces(now).drop_last() =~= before);
            } else {
                assert(pieces(now).drop_last() =~= before.drop_last());
            }
        }
        if is_sep(c) {
            take_piece(&mut stack, piece);
            piece = Vec::new();
        } else {
            piece.push(c);
        }
        i += 1;
    }
    assert(path@.take(i as int) =~= path@);
    take_piece(&mut stack, piece);
    stack
}

/// Joins the segments with a forward slash between each two.
pub fn join_segments(segs: &Vec<Vec<char>>) -> (text: Vec<char>)
    ensures
        text@ == join(views(segs@)),
{
    let mut text: Vec<char> = Vec::new();
    let mut i: usize = 0;
    assert(views(segs@).take(0) =~= Seq::<Seq<char>>::empty());
    while i < segs.len()
        invariant
            i <= segs.len(),
            text@ == join(views(segs@).take(i as int)),
        decreases segs.len() - i,
    {
        if i > 0 {
            text.push('/');
        }
        let seg = &segs[i];
        let ghost start = text@;
        let mut j: usize = 0;
        while j < seg.len()
            invariant
                j <= seg.len(),
                text@ == start + seg@.take(j as int),
            decreases seg.len() - j,
        {
            text.push(seg[j]);
            assert(seg@.take(j + 1) =~= seg@.take(j as int).push(seg@[j as int]));
            j += 1;
        }
        proof {
            assert(seg@.take(j as int) =~= seg@);
            let now = views(segs@).take(i + 1);
            assert(now.drop_last() =~= views(segs@).take(i as int));
            assert(now.last() == seg@);
            if i == 0 {
                assert(text@ =~= seg@);
            } else {
                assert(text@ =~= join(now.drop_last()) + seq!['/'] + seg@);
            }
        }
        i += 1;
    }
    assert(views(segs@).take(i as int) =~= views(segs@));
    text
}

} // verus!
