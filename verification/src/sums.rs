//! Sums over ranges of a sequence of signed values: the mathematical
//! model that the engine's contracts are stated over.

use vstd::prelude::*;

verus! {

/// The sum of `a[lo..hi)` (zero for an empty range).
pub open spec fn sumrange(a: Seq<i64>, lo: int, hi: int) -> int
    decreases hi - lo,
{
    if lo >= hi {
        0
    } else {
        sumrange(a, lo, hi - 1) + a[hi - 1]
    }
}

/// The sum of the first `k` elements of `a`: in the engine's 1-indexed
/// terms, the sum of Array[1..=k].
pub open spec fn prefix_sum(a: Seq<i64>, k: int) -> int {
    sumrange(a, 0, k)
}

/// A range's sum splits at any point inside it.
pub proof fn lemma_sumrange_split(a: Seq<i64>, lo: int, mid: int, hi: int)
    requires
        lo <= mid <= hi,
    ensures
        sumrange(a, lo, hi) == sumrange(a, lo, mid) + sumrange(a, mid, hi),
    decreases hi - mid,
{
    if mid < hi {
        lemma_sumrange_split(a, lo, mid, hi - 1);
    }
}

/// The sum over a range of all-zero elements is zero.
pub proof fn lemma_sumrange_zero(a: Seq<i64>, lo: int, hi: int)
    requires
        forall|j: int| lo <= j < hi ==> #[trigger] a[j] == 0,
    ensures
        sumrange(a, lo, hi) == 0,
    decreases hi - lo,
{
    if lo < hi {
        lemma_sumrange_zero(a, lo, hi - 1);
    }
}

/// A range's sum is bounded by the range's length times a bound on its
/// elements.
pub proof fn lemma_sumrange_bound(a: Seq<i64>, lo: int, hi: int, b: int)
    requires
        lo <= hi,
        b >= 0,
        forall|j: int| lo <= j < hi ==> -b <= #[trigger] a[j] <= b,
    ensures
        -((hi - lo) * b) <= sumrange(a, lo, hi) <= (hi - lo) * b,
    decreases hi - lo,
{
    if lo < hi {
        lemma_sumrange_bound(a, lo, hi - 1, b);
        assert((hi - lo) * b == (hi - 1 - lo) * b + b) by (nonlinear_arith);
    } else {
        assert((hi - lo) * b == 0) by (nonlinear_arith)
            requires
                lo == hi,
        ;
    }
}

/// Writing to an index inside a range shifts the range's sum by the
/// difference between the new and the old element.
pub proof fn lemma_sumrange_update_in(a: Seq<i64>, j: int, v: i64, lo: int, hi: int)
    requires
        0 <= j < a.len(),
        0 <= lo <= j < hi <= a.len(),
    ensures
        sumrange(a.update(j, v), lo, hi) == sumrange(a, lo, hi) + v - a[j],
    decreases hi - lo,
{
    if j == hi - 1 {
        lemma_sumrange_same(a, a.update(j, v), lo, hi - 1);
    } else {
        lemma_sumrange_update_in(a, j, v, lo, hi - 1);
    }
}

/// Writing to an index outside a range leaves the range's sum unchanged.
pub proof fn lemma_sumrange_update_out(a: Seq<i64>, j: int, v: i64, lo: int, hi: int)
    requires
        0 <= j < a.len(),
        0 <= lo,
        hi <= a.len(),
        j < lo || j >= hi,
    ensures
        sumrange(a.update(j, v), lo, hi) == sumrange(a, lo, hi),
{
    lemma_sumrange_same(a, a.update(j, v), lo, hi);
}

/// Two sequences that agree on a range have the same sum over it.
pub proof fn lemma_sumrange_same(a: Seq<i64>, b: Seq<i64>, lo: int, hi: int)
    requires
        forall|j: int| lo <= j < hi ==> #[trigger] a[j] == #[trigger] b[j],
    ensures
        sumrange(a, lo, hi) == sumrange(b, lo, hi),
    decreases hi - lo,
{
    if lo < hi {
        lemma_sumrange_same(a, b, lo, hi - 1);
    }
}

} // verus!
