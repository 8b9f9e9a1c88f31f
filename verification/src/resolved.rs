//! What it means for a text to be resolved, and the proof that every
//! result of resolution is.

use vstd::prelude::*;
use crate::common::lead;
use crate::flexible::{resolve_n_spec, resolve_onto, resolve_spec, unprefixed};
use crate::lemmas::{
    all_plain, is_plain, lemma_pieces_around_separator, lemma_pieces_of_join, lemma_pieces_shape,
    lemma_segments_plain,
};
use crate::prefix::{is_bare_marker, resolve_prefix_len};
use crate::segments::{dot, dot_dot, is_separator, join, pieces, segments};
use crate::variant::FlexPathVariant;

verus! {

/// Whether `s` is resolved: none of the pieces between its separators is
/// `.` or `..`.
pub open spec fn dot_free(s: Seq<char>) -> bool {
    forall|i: int|
        0 <= i < pieces(s).len() ==> (#[trigger] pieces(s)[i]) != dot() && pieces(s)[i]
            != dot_dot()
}

/// Whether the full stop occurs nowhere in `s`.
pub open spec fn without_full_stop(s: Seq<char>) -> bool {
    forall|i: int| 0 <= i < s.len() ==> (#[trigger] s[i]) != '.'
}

/// The pieces of a text without a full stop hold none either.
pub proof fn lemma_pieces_without_full_stop(s: Seq<char>)
    requires
        without_full_stop(s),
    ensures
        forall|i: int| 0 <= i < pieces(s).len() ==> without_full_stop(#[trigger] pieces(s)[i]),
    decreases s.len(),
{
    if s.len() > 0 {
        let front = s.drop_last();
        assert(without_full_stop(front)) by {
            assert forall|i: int| 0 <= i < front.len() implies (#[trigger] front[i]) != '.' by {
                assert(front[i] == s[i]);
            }
        }
        lemma_pieces_without_full_stop(front);
        lemma_pieces_shape(front);
        assert(s.last() != '.');
        let before = pieces(front);
        assert forall|i: int| 0 <= i < pieces(s).len() implies without_full_stop(
            #[trigger] pieces(s)[i],
        ) by {
            if i < before.len() - 1 {
                assert(pieces(s)[i] == before[i]);
            } else if is_separator(s.last()) {
                if i < before.len() {
                    assert(pieces(s)[i] == before[i]);
                }
            } else {
                assert(without_full_stop(before.last()));
            }
        }
    }
}

/// A text without a full stop is resolved.
pub proof fn lemma_dot_free_without_full_stop(s: Seq<char>)
    requires
        without_full_stop(s),
    ensures
        dot_free(s),
{
    lemma_pieces_without_full_stop(s);
    assert forall|i: int| 0 <= i < pieces(s).len() implies (#[trigger] pieces(s)[i]) != dot()
        && pieces(s)[i] != dot_dot() by {
        assert(without_full_stop(pieces(s)[i]));
        assert(dot()[0] == '.');
        assert(dot_dot()[0] == '.');
    }
}

/// The join of plain segments is resolved.
pub proof fn lemma_join_dot_free(segs: Seq<Seq<char>>)
    requires
        all_plain(segs),
    ensures
        dot_free(join(segs)),
{
    if segs.len() == 0 {
        lemma_dot_free_without_full_stop(join(segs));
    } else {
        lemma_pieces_of_join(segs);
        assert forall|i: int| 0 <= i < segs.len() implies (#[trigger] segs[i]) != dot() && segs[i]
            != dot_dot() by {
            assert(is_plain(segs[i]));
        }
    }
}

/// A resolved text, a separator and another resolved text make a resolved
/// text.
pub proof fn lemma_dot_free_around_separator(a: Seq<char>, c: char, b: Seq<char>)
    requires
        is_separator(c),
        dot_free(a),
        dot_free(b),
    ensures
        dot_free(a + seq![c] + b),
{
    lemma_pieces_around_separator(a, c, b);
    let all = pieces(a) + pieces(b);
    assert forall|i: int| 0 <= i < all.len() implies (#[trigger] all[i]) != dot() && all[i]
        != dot_dot() by {
        if i < pieces(a).len() {
            assert(all[i] == pieces(a)[i]);
        } else {
            assert(all[i] == pieces(b)[i - pieces(a).len()]);
        }
    }
}

/// The prefix that resolution recognises holds no full stop.
pub proof fn lemma_prefix_without_full_stop(p: Seq<char>)
    ensures
        resolve_prefix_len(p) <= p.len(),
        without_full_stop(p.take(resolve_prefix_len(p) as int)),
{
    let n = resolve_prefix_len(p) as int;
    let prefix = p.take(n);
    assert forall|i: int| 0 <= i < prefix.len() implies (#[trigger] prefix[i]) != '.' by {
        assert(prefix[i] == p[i]);
    }
}

/// What the common resolution gives is resolved, and so is what follows
/// its leading slash.
pub proof fn lemma_common_resolve_dot_free(first: Seq<char>, second: Seq<char>)
    ensures
        dot_free(crate::common::resolve_spec(first, second)),
        crate::segments::starts_with_separator(crate::common::resolve_spec(first, second)) ==> dot_free(
            crate::common::resolve_spec(first, second).skip(1),
        ),
{
    let r = crate::common::resolve_spec(first, second);
    let none = Seq::<char>::empty();
    lemma_dot_free_without_full_stop(none);
    let segs = if crate::segments::starts_with_separator(second) {
        segments(second)
    } else if second.len() == 0 {
        segments(first)
    } else {
        segments(crate::common::bare(first) + seq!['/'] + second)
    };
    let front = if crate::segments::starts_with_separator(second) {
        lead(second)
    } else {
        lead(first)
    };
    lemma_segments_plain(second);
    lemma_segments_plain(first);
    lemma_segments_plain(crate::common::bare(first) + seq!['/'] + second);
    assert(r == front + join(segs));
    lemma_join_dot_free(segs);
    if front.len() == 0 {
        assert(r =~= join(segs));
        crate::lemmas::lemma_join_starts_plain(segs);
    } else {
        assert(r =~= none + seq!['/'] + join(segs));
        lemma_dot_free_around_separator(none, '/', join(segs));
        assert(r.skip(1) =~= join(segs));
    }
}

/// What resolution gives, in either dialect, is resolved.
pub proof fn lemma_resolve_dot_free(first: Seq<char>, second: Seq<char>, v: FlexPathVariant)
    ensures
        dot_free(resolve_spec(first, second, v)),
{
    lemma_common_resolve_dot_free(first, second);
    match v {
        FlexPathVariant::Common => {},
        FlexPathVariant::Windows => {
            let n1 = resolve_prefix_len(first);
            let n2 = resolve_prefix_len(second);
            if n1 != 0 || n2 != 0 {
                let prefix = if n2 > 0 {
                    second.take(n2 as int)
                } else {
                    first.take(n1 as int)
                };
                lemma_prefix_without_full_stop(first);
                lemma_prefix_without_full_stop(second);
                let r = crate::common::resolve_spec(unprefixed(first), unprefixed(second));
                lemma_common_resolve_dot_free(unprefixed(first), unprefixed(second));
                assert(r.len() > 0 && r[0] == '/');
                assert(r =~= seq!['/'] + r.skip(1));
                if is_bare_marker(prefix) {
                    let start = prefix.drop_last();
                    assert(without_full_stop(start)) by {
                        assert forall|i: int| 0 <= i < start.len() implies (#[trigger] start[i])
                            != '.' by {
                            assert(start[i] == prefix[i]);
                        }
                    }
                    lemma_dot_free_without_full_stop(start);
                    lemma_dot_free_around_separator(start, prefix.last(), r.skip(1));
                    assert(prefix + r.skip(1) =~= start + seq![prefix.last()] + r.skip(1));
                } else {
                    lemma_dot_free_without_full_stop(prefix);
                    lemma_dot_free_around_separator(prefix, '/', r.skip(1));
                    assert(prefix + r =~= prefix + seq!['/'] + r.skip(1));
                }
            }
        },
    }
}

/// Resolving one path after another gives a resolved text, if the start is
/// one.
pub proof fn lemma_resolve_onto_dot_free(
    base: Seq<char>,
    rest: Seq<Seq<char>>,
    v: FlexPathVariant,
)
    requires
        dot_free(base),
    ensures
        dot_free(resolve_onto(base, rest, v)),
    decreases rest.len(),
{
    if rest.len() > 0 {
        lemma_resolve_dot_free(resolve_onto(base, rest.drop_last(), v), rest.last(), v);
    }
}

/// What the resolution of several paths gives is resolved.
pub proof fn lemma_resolve_n_dot_free(paths: Seq<Seq<char>>, v: FlexPathVariant)
    ensures
        dot_free(resolve_n_spec(paths, v)),
{
    if paths.len() == 0 {
        lemma_dot_free_without_full_stop(Seq::<char>::empty());
    } else if paths.len() == 1 {
        lemma_resolve_dot_free(paths[0], Seq::<char>::empty(), v);
    } else {
        lemma_resolve_dot_free(paths[0], paths[1], v);
        lemma_resolve_onto_dot_free(resolve_spec(paths[0], paths[1], v), paths.skip(2), v);
    }
}

} // verus!
