//! Sums of a per-square quantity over the whole board, with lemmas about
//! bounds and about reflecting the board's ranks.

use vstd::prelude::*;

verus! {

/// Sum of `t(ff, r)` over files `1..=f` of rank `r`.
pub open spec fn file_sum(t: spec_fn(int, int) -> int, r: int, f: int) -> int
    decreases f,
{
    if f <= 0 {
        0
    } else {
        file_sum(t, r, f - 1) + t(f, r)
    }
}

/// Sum of whole ranks `1..=r`.
pub open spec fn rank_sum(t: spec_fn(int, int) -> int, r: int) -> int
    decreases r,
{
    if r <= 0 {
        0
    } else {
        rank_sum(t, r - 1) + file_sum(t, r, 8)
    }
}

/// Sum of `t` over all 64 squares.
pub open spec fn board_sum(t: spec_fn(int, int) -> int) -> int {
    rank_sum(t, 8)
}

/// Writes the sum of eight ranks out as its eight summands.
pub proof fn lemma_rank_sum_unfold(t: spec_fn(int, int) -> int)
    ensures
        rank_sum(t, 8) == file_sum(t, 1, 8) + file_sum(t, 2, 8) + file_sum(t, 3, 8) + file_sum(
            t,
            4,
            8,
        ) + file_sum(t, 5, 8) + file_sum(t, 6, 8) + file_sum(t, 7, 8) + file_sum(t, 8, 8),
{
    assert(rank_sum(t, 0) == 0);
    assert(rank_sum(t, 1) == rank_sum(t, 0) + file_sum(t, 1, 8));
    assert(rank_sum(t, 2) == rank_sum(t, 1) + file_sum(t, 2, 8));
    assert(rank_sum(t, 3) == rank_sum(t, 2) + file_sum(t, 3, 8));
    assert(rank_sum(t, 4) == rank_sum(t, 3) + file_sum(t, 4, 8));
    assert(rank_sum(t, 5) == rank_sum(t, 4) + file_sum(t, 5, 8));
    assert(rank_sum(t, 6) == rank_sum(t, 5) + file_sum(t, 6, 8));
    assert(rank_sum(t, 7) == rank_sum(t, 6) + file_sum(t, 7, 8));
    assert(rank_sum(t, 8) == rank_sum(t, 7) + file_sum(t, 8, 8));
}

/// A pointwise bound carries over to a file's sum.
pub proof fn lemma_file_sum_bound(t: spec_fn(int, int) -> int, r: int, f: int, bound: int)
    requires
        0 <= f <= 8,
        forall|ff: int| 1 <= ff <= 8 ==> -bound <= #[trigger] t(ff, r) <= bound,
    ensures
        -(f * bound) <= file_sum(t, r, f) <= f * bound,
    decreases f,
{
    if f > 0 {
        lemma_file_sum_bound(t, r, f - 1, bound);
        assert(-bound <= t(f, r) <= bound);
        assert(file_sum(t, r, f) == file_sum(t, r, f - 1) + t(f, r));
        assert((f - 1) * bound + bound == f * bound) by (nonlinear_arith);
    } else {
        assert(file_sum(t, r, f) == 0);
        assert(f * bound == 0) by (nonlinear_arith)
            requires
                f == 0,
        ;
    }
}

/// A pointwise bound carries over to the whole board's sum.
pub proof fn lemma_board_sum_bound(t: spec_fn(int, int) -> int, bound: int)
    requires
        forall|ff: int, rr: int| 1 <= ff <= 8 && 1 <= rr <= 8 ==> -bound <= #[trigger] t(ff, rr)
            <= bound,
    ensures
        -(64 * bound) <= board_sum(t) <= 64 * bound,
{
    assert forall|r: int| 1 <= r <= 8 implies -(8 * bound) <= #[trigger] file_sum(t, r, 8) <= 8
        * bound by {
        lemma_file_sum_bound(t, r, 8, bound);
    }
    assert(rank_sum(t, 0) == 0);
    assert(rank_sum(t, 1) == rank_sum(t, 0) + file_sum(t, 1, 8));
    assert(rank_sum(t, 2) == rank_sum(t, 1) + file_sum(t, 2, 8));
    assert(rank_sum(t, 3) == rank_sum(t, 2) + file_sum(t, 3, 8));
    assert(rank_sum(t, 4) == rank_sum(t, 3) + file_sum(t, 4, 8));
    assert(rank_sum(t, 5) == rank_sum(t, 4) + file_sum(t, 5, 8));
    assert(rank_sum(t, 6) == rank_sum(t, 5) + file_sum(t, 6, 8));
    assert(rank_sum(t, 7) == rank_sum(t, 6) + file_sum(t, 7, 8));
    assert(rank_sum(t, 8) == rank_sum(t, 7) + file_sum(t, 8, 8));
}

/// If `a` on rank `ra` is pointwise the negation of `c` on rank `rc`, the
/// two file sums negate each other.
pub proof fn lemma_file_sum_neg(
    a: spec_fn(int, int) -> int,
    c: spec_fn(int, int) -> int,
    ra: int,
    rc: int,
    f: int,
)
    requires
        0 <= f <= 8,
        forall|ff: int| 1 <= ff <= 8 ==> #[trigger] a(ff, ra) == -c(ff, rc),
    ensures
        file_sum(a, ra, f) == -file_sum(c, rc, f),
    decreases f,
{
    if f > 0 {
        lemma_file_sum_neg(a, c, ra, rc, f - 1);
    }
}

/// If `a` at (`f`, `r`) is the negation of `c` at (`f`, `9 - r`), the two
/// board sums negate each other: reflecting the ranks only reorders the
/// 64 summands.
pub proof fn lemma_board_sum_neg_flip(a: spec_fn(int, int) -> int, c: spec_fn(int, int) -> int)
    requires
        forall|ff: int, rr: int| 1 <= ff <= 8 && 1 <= rr <= 8 ==> #[trigger] a(ff, rr) == -c(
            ff,
            9 - rr,
        ),
    ensures
        board_sum(a) == -board_sum(c),
{
    assert forall|r: int| 1 <= r <= 8 implies #[trigger] file_sum(a, r, 8) == -file_sum(
        c,
        9 - r,
        8,
    ) by {
        lemma_file_sum_neg(a, c, r, 9 - r, 8);
    }
    lemma_rank_sum_unfold(a);
    lemma_rank_sum_unfold(c);
}

/// If `a` at (`f`, `r`) equals `c` at (`f`, `9 - r`), the board sums agree.
pub proof fn lemma_file_sum_eq(
    a: spec_fn(int, int) -> int,
    c: spec_fn(int, int) -> int,
    ra: int,
    rc: int,
    f: int,
)
    requires
        0 <= f <= 8,
        forall|ff: int| 1 <= ff <= 8 ==> #[trigger] a(ff, ra) == c(ff, rc),
    ensures
        file_sum(a, ra, f) == file_sum(c, rc, f),
    decreases f,
{
    if f > 0 {
        lemma_file_sum_eq(a, c, ra, rc, f - 1);
    }
}

/// Rank reflection preserves a board sum when the summands correspond.
pub proof fn lemma_board_sum_eq_flip(a: spec_fn(int, int) -> int, c: spec_fn(int, int) -> int)
    requires
        forall|ff: int, rr: int| 1 <= ff <= 8 && 1 <= rr <= 8 ==> #[trigger] a(ff, rr) == c(
            ff,
            9 - rr,
        ),
    ensures
        board_sum(a) == board_sum(c),
{
    assert forall|r: int| 1 <= r <= 8 implies #[trigger] file_sum(a, r, 8) == file_sum(
        c,
        9 - r,
        8,
    ) by {
        lemma_file_sum_eq(a, c, r, 9 - r, 8);
    }
    lemma_rank_sum_unfold(a);
    lemma_rank_sum_unfold(c);
}

} // verus!
