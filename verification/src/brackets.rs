//! The theory of bracket nesting that the compiler's contract rests on.
//!
//! Nesting is captured by a single function, [`depth`]: the number of `[`
//! minus the number of `]` in a prefix of the text. Everything else (which
//! brackets pair up, which are left over) is defined from it.

use vstd::prelude::*;

verus! {

/// What one character contributes to the nesting depth.
pub open spec fn delta(c: char) -> int {
    if c == '[' {
        1
    } else if c == ']' {
        -1
    } else {
        0
    }
}

/// Nesting depth after the first `n` characters of `src`: how many `[` they
/// hold, minus how many `]`.
pub open spec fn depth(src: Seq<char>, n: int) -> int
    decreases n,
{
    if n <= 0 {
        0
    } else {
        depth(src, n - 1) + delta(src[n - 1])
    }
}

/// The `[` at position `p` has not been closed within the first `n`
/// characters: from just after it up to `n`, the depth stays above the depth
/// at which it was opened.
pub open spec fn open_through(src: Seq<char>, p: int, n: int) -> bool {
    &&& 0 <= p < n <= src.len()
    &&& src[p] == '['
    &&& forall|r: int| p < r <= n ==> depth(src, r) > depth(src, p)
}

/// The `[` at position `p` and the `]` at position `q` are partners: the
/// bracket at `q` is the first to bring the depth back to where it was before
/// `p`.
pub open spec fn matched(src: Seq<char>, p: int, q: int) -> bool {
    &&& open_through(src, p, q)
    &&& q < src.len()
    &&& src[q] == ']'
    &&& depth(src, q + 1) == depth(src, p)
}

/// The prefix that ends with position `q` closes more brackets than it opens.
pub open spec fn overclosed(src: Seq<char>, q: int) -> bool {
    0 <= q < src.len() && depth(src, q + 1) < 0
}

/// The `[` at position `p` is never closed.
pub open spec fn unclosed(src: Seq<char>, p: int) -> bool {
    open_through(src, p, src.len() as int)
}

/// Every bracket of `src` has a partner.
pub open spec fn balanced(src: Seq<char>) -> bool {
    &&& forall|q: int| !overclosed(src, q)
    &&& forall|p: int| !unclosed(src, p)
}

/// Position of the `]` that closes the `[` at `p`.
pub open spec fn close_of(src: Seq<char>, p: int) -> int {
    choose|q: int| matched(src, p, q)
}

/// Position of the `[` that the `]` at `q` closes.
pub open spec fn open_of(src: Seq<char>, q: int) -> int {
    choose|p: int| matched(src, p, q)
}

/// Position of the first `]` that has nothing to close.
pub open spec fn first_overclosed(src: Seq<char>) -> int {
    choose|q: int| overclosed(src, q) && forall|r: int| overclosed(src, r) ==> q <= r
}

/// Position of the last `[` that is never closed, which is also the
/// innermost one.
pub open spec fn last_unclosed(src: Seq<char>) -> int {
    choose|p: int| unclosed(src, p) && forall|r: int| unclosed(src, r) ==> r <= p
}

/// One more character changes the depth by that character's contribution.
pub proof fn lemma_depth_next(src: Seq<char>, n: int)
    requires
        0 <= n,
    ensures
        depth(src, n + 1) == depth(src, n) + delta(src[n]),
{
}

/// A `[` has at most one closing partner.
pub proof fn lemma_close_unique(src: Seq<char>, p: int, q1: int, q2: int)
    requires
        matched(src, p, q1),
        matched(src, p, q2),
    ensures
        q1 == q2,
{
    if q1 < q2 {
        assert(depth(src, q1 + 1) > depth(src, p));
    } else if q2 < q1 {
        assert(depth(src, q2 + 1) > depth(src, p));
    }
}

/// A `]` has at most one opening partner.
pub proof fn lemma_open_unique(src: Seq<char>, p1: int, p2: int, q: int)
    requires
        matched(src, p1, q),
        matched(src, p2, q),
    ensures
        p1 == p2,
{
    if p1 < p2 {
        assert(depth(src, p2) > depth(src, p1));
    } else if p2 < p1 {
        assert(depth(src, p1) > depth(src, p2));
    }
}

/// Partners determine each other.
pub proof fn lemma_partners(src: Seq<char>, p: int, q: int)
    requires
        matched(src, p, q),
    ensures
        close_of(src, p) == q,
        open_of(src, q) == p,
{
    lemma_close_unique(src, p, q, close_of(src, p));
    lemma_open_unique(src, p, open_of(src, q), q);
}

/// A position after which the depth is negative, with no such position before
/// it, is the first one.
pub proof fn lemma_first_overclosed(src: Seq<char>, q: int)
    requires
        overclosed(src, q),
        forall|r: int| 0 <= r <= q ==> depth(src, r) >= 0,
    ensures
        first_overclosed(src) == q,
{
    assert forall|r: int| overclosed(src, r) implies q <= r by {
        if r < q {
            assert(depth(src, r + 1) >= 0);
        }
    }
    let f = first_overclosed(src);
    assert(overclosed(src, f) && (overclosed(src, q) ==> f <= q));
}

/// An unclosed `[` opened at one below the final depth is the last unclosed
/// one.
pub proof fn lemma_last_unclosed(src: Seq<char>, p: int)
    requires
        unclosed(src, p),
        depth(src, p) + 1 == depth(src, src.len() as int),
    ensures
        last_unclosed(src) == p,
{
    assert forall|r: int| unclosed(src, r) implies r <= p by {
        if p < r {
            assert(depth(src, r) > depth(src, p));
            assert(depth(src, src.len() as int) > depth(src, r));
        }
    }
    let l = last_unclosed(src);
    assert(unclosed(src, l) && (unclosed(src, p) ==> p <= l));
}

/// Within any prefix that reaches past it, a `[` is either still open or has
/// found its partner.
pub proof fn lemma_open_or_closed(src: Seq<char>, p: int, n: int)
    requires
        0 <= p < n <= src.len(),
        src[p] == '[',
    ensures
        open_through(src, p, n) || exists|q: int| q < n && matched(src, p, q),
    decreases n,
{
    lemma_depth_next(src, p);
    if n > p + 1 {
        lemma_open_or_closed(src, p, n - 1);
        lemma_depth_next(src, n - 1);
        if open_through(src, p, n - 1) && !open_through(src, p, n) {
            assert(depth(src, n - 1) > depth(src, p));
            assert(matched(src, p, n - 1));
        }
    }
}

/// A `]` that leaves the depth at `d` has its partner at or after `m`, unless
/// the depth stays above `d` all the way from `m`.
proof fn lemma_closed_from(src: Seq<char>, q: int, m: int)
    requires
        0 <= m <= q < src.len(),
        src[q] == ']',
    ensures
        (forall|r: int| m <= r <= q ==> #[trigger] depth(src, r) > depth(src, q + 1)) || exists|p: int|
            m <= p && matched(src, p, q),
    decreases q - m,
{
    lemma_depth_next(src, q);
    if m < q {
        lemma_closed_from(src, q, m + 1);
        lemma_depth_next(src, m);
        if (forall|r: int| m + 1 <= r <= q ==> #[trigger] depth(src, r) > depth(src, q + 1)) && depth(src, m)
            <= depth(src, q + 1) {
            assert(depth(src, m + 1) > depth(src, q + 1));
            assert(matched(src, m, q));
        }
    }
}

/// A `]` has a partner unless it has nothing to close.
pub proof fn lemma_close_has_partner(src: Seq<char>, q: int)
    requires
        0 <= q < src.len(),
        src[q] == ']',
        depth(src, q + 1) >= 0,
    ensures
        exists|p: int| matched(src, p, q),
{
    lemma_closed_from(src, q, 0);
    assert(depth(src, 0) == 0);
}

/// In a balanced text every bracket has a partner, and partners name each
/// other.
pub proof fn lemma_balanced_partners(src: Seq<char>, p: int)
    requires
        balanced(src),
        0 <= p < src.len(),
    ensures
        src[p] == '[' ==> matched(src, p, close_of(src, p)) && open_of(src, close_of(src, p)) == p,
        src[p] == ']' ==> matched(src, open_of(src, p), p) && close_of(src, open_of(src, p)) == p,
{
    if src[p] == '[' {
        lemma_open_or_closed(src, p, src.len() as int);
        assert(!unclosed(src, p));
        lemma_partners(src, p, close_of(src, p));
    } else if src[p] == ']' {
        assert(!overclosed(src, p));
        lemma_close_has_partner(src, p);
        lemma_partners(src, open_of(src, p), p);
    }
}

} // verus!
