//! The Fenwick tree engine: a logical array of signed values, the tree
//! of partial sums derived from it, and the record of which cells the
//! most recent operation touched.

use vstd::prelude::*;

use crate::bits::{
    lowbit, lowbit_exec, in_query_path, in_update_path, lemma_lowbit_bounds,
    lemma_lowbit_add_small, lemma_lowbit_step, lemma_query_path_bounds,
    lemma_query_path_trans, lemma_update_path_bounds, lemma_update_path_trans,
    lemma_update_path_order,
};
use crate::sums::{
    sumrange, prefix_sum, lemma_sumrange_split, lemma_sumrange_zero,
    lemma_sumrange_bound, lemma_sumrange_update_in, lemma_sumrange_update_out,
};

verus! {

/// The largest number of cells the engine will hold; small, since every
/// cell is meant to be shown on screen at once.
pub const MAX_LEN: usize = 64;

/// Bound on the magnitude of a stored value, chosen so that every sum of
/// up to `MAX_LEN` values, and every update delta, stays far inside
/// `i64`.
pub const VAL_BOUND: i64 = 1_000_000_000;

/// Why an operation was rejected; every error is recoverable and leaves
/// the engine untouched.
#[derive(Clone, Copy, Debug, PartialEq, Eq, Structural)]
pub enum ErrorKind {
    /// An index did not parse as an integer.
    InvalidIndexFormat,
    /// A parsed index lies outside `1..=N`.
    IndexOutOfRange,
    /// An update value did not parse as an integer of the expected width.
    InvalidValueFormat,
}

/// A Fenwick tree over `len` logical cells, indexed `1..=len`; cell `i`
/// of the array or the tree is stored at vector position `i - 1`.
pub struct FenwickTree {
    /// The number of logical cells, `1..=MAX_LEN`.
    pub len: usize,
    /// The logical values, `arr[i - 1]` holding Array cell `i`.
    pub arr: Vec<i64>,
    /// Which Array cells the most recent operation touched.
    pub arr_highlighted: Vec<bool>,
    /// The partial sums: `fenwick[i - 1]` holds the sum of Array cells
    /// `i - lowbit(i) + 1 ..= i`.
    pub fenwick: Vec<i64>,
    /// Which Tree cells the most recent operation touched.
    pub fenwick_highlighted: Vec<bool>,
    /// The most recent prefix-sum answer, if any.
    pub query_answer: Option<i64>,
}

impl FenwickTree {
    /// Well-formedness: all four vectors have the logical length, values
    /// are within range, and every tree cell holds the sum of the array
    /// range that the lowest set bit of its index assigns to it.
    pub open spec fn wf(self) -> bool {
        &&& 1 <= self.len <= MAX_LEN
        &&& self.arr@.len() == self.len
        &&& self.fenwick@.len() == self.len
        &&& self.arr_highlighted@.len() == self.len
        &&& self.fenwick_highlighted@.len() == self.len
        &&& forall|j: int|
            0 <= j < self.len ==> -VAL_BOUND <= #[trigger] self.arr@[j] <= VAL_BOUND
        &&& forall|i: int|
            1 <= i <= self.len ==> #[trigger] self.fenwick@[i - 1] == sumrange(
                self.arr@,
                i - lowbit(i as nat),
                i,
            )
    }

    /// Creates an engine of `len` zeroed cells with nothing highlighted
    /// and no answer recorded.
    pub fn new(len: usize) -> (r: FenwickTree)
        requires
            1 <= len <= MAX_LEN,
        ensures
            r.wf(),
            r.len == len,
            forall|j: int| 0 <= j < len ==> #[trigger] r.arr@[j] == 0,
            forall|j: int| 0 <= j < len ==> #[trigger] r.fenwick@[j] == 0,
            forall|j: int| 0 <= j < len ==> !(#[trigger] r.arr_highlighted@[j]),
            forall|j: int| 0 <= j < len ==> !(#[trigger] r.fenwick_highlighted@[j]),
            r.query_answer is None,
    {
        let r = FenwickTree {
            len,
            arr: filled_vec(len, 0i64),
            arr_highlighted: filled_vec(len, false),
            fenwick: filled_vec(len, 0i64),
            fenwick_highlighted: filled_vec(len, false),
            query_answer: None,
        };
        proof {
            lemma_zero_tree_wf(r);
        }
        r
    }

    /// Zeroes every Array and Tree cell and clears both highlight
    /// vectors and the last answer; the length stays as it was.
    pub fn reset(&mut self)
        requires
            old(self).wf(),
        ensures
            final(self).wf(),
            final(self).len == old(self).len,
            forall|j: int| 0 <= j < old(self).len ==> #[trigger] final(self).arr@[j] == 0,
            forall|j: int| 0 <= j < old(self).len ==> #[trigger] final(self).fenwick@[j] == 0,
            forall|j: int|
                0 <= j < old(self).len ==> !(#[trigger] final(self).arr_highlighted@[j]),
            forall|j: int|
                0 <= j < old(self).len ==> !(#[trigger] final(self).fenwick_highlighted@[j]),
            final(self).query_answer is None,
    {
        let n: usize = self.len;
        self.arr = filled_vec(n, 0i64);
        self.arr_highlighted = filled_vec(n, false);
        self.fenwick = filled_vec(n, 0i64);
        self.fenwick_highlighted = filled_vec(n, false);
        self.query_answer = None;
        proof {
            lemma_zero_tree_wf(*self);
        }
    }

    /// Answers the prefix sum of Array cells `1..=ind` by the standard
    /// descent over the tree, records the answer, and highlights exactly
    /// the Array cells `1..=ind` and the Tree cells the descent visits;
    /// an index outside `1..=N` is rejected and nothing changes.
    pub fn query(&mut self, ind: usize) -> (r: Result<i64, ErrorKind>)
        requires
            old(self).wf(),
        ensures
            final(self).wf(),
            final(self).len == old(self).len,
            final(self).arr@ == old(self).arr@,
            final(self).fenwick@ == old(self).fenwick@,
            1 <= ind <= old(self).len ==> {
                &&& r is Ok
                &&& r->Ok_0 == prefix_sum(old(self).arr@, ind as int)
                &&& final(self).query_answer == Some(r->Ok_0)
                &&& forall|j: int|
                    0 <= j < old(self).len ==> #[trigger] final(self).arr_highlighted@[j] == (
                    j < ind)
                &&& forall|i: int|
                    1 <= i <= old(self).len ==> #[trigger] final(self).fenwick_highlighted@[i
                        - 1] == in_query_path(ind as nat, i as nat)
            },
            !(1 <= ind <= old(self).len) ==> {
                &&& r == Err::<i64, ErrorKind>(ErrorKind::IndexOutOfRange)
                &&& final(self).arr_highlighted@ == old(self).arr_highlighted@
                &&& final(self).fenwick_highlighted@ == old(self).fenwick_highlighted@
                &&& final(self).query_answer == old(self).query_answer
            },
    {
        if ind < 1 || ind > self.len {
            return Err(ErrorKind::IndexOutOfRange);
        }
        self.arr_highlighted = prefix_flags(self.len, ind);
        self.fenwick_highlighted = filled_vec(self.len, false);
        let mut i: usize = ind;
        let mut sum: i64 = 0;
        while i > 0
            invariant
                self.wf(),
                i <= ind <= self.len,
                self.len == old(self).len,
                self.arr@ == old(self).arr@,
                self.fenwick@ == old(self).fenwick@,
                self.query_answer == old(self).query_answer,
                forall|j: int|
                    0 <= j < self.len ==> #[trigger] self.arr_highlighted@[j] == (j < ind),
                sum == sumrange(self.arr@, i as int, ind as int),
                i == 0 || in_query_path(ind as nat, i as nat),
                forall|t: int|
                    1 <= t <= self.len ==> #[trigger] self.fenwick_highlighted@[t - 1] == (
                    in_query_path(ind as nat, t as nat) && !in_query_path(i as nat, t as nat)),
            decreases i,
        {
            let lb: usize = lowbit_exec(i);
            proof {
                lemma_lowbit_bounds(i as nat);
            }
            let ghost iold: nat = i as nat;
            let ghost inew: nat = (i - lb) as nat;
            self.fenwick_highlighted.set(i - 1, true);
            proof {
                assert forall|t: int|
                    1 <= t <= self.len implies #[trigger] self.fenwick_highlighted@[t - 1] == (
                    in_query_path(ind as nat, t as nat) && !in_query_path(inew, t as nat)) by {
                    if t == iold {
                        if in_query_path(inew, t as nat) {
                            lemma_query_path_bounds(inew, t as nat);
                        }
                    } else {
                        assert(in_query_path(iold, t as nat) == in_query_path(inew, t as nat));
                    }
                }
                if inew > 0 {
                    assert(in_query_path(inew, inew));
                    assert(in_query_path(iold, inew));
                    lemma_query_path_trans(ind as nat, iold, inew);
                }
                let ghost d: int = ind - (i - lb);
                lemma_sumrange_split(self.arr@, i - lb, i as int, ind as int);
                lemma_sumrange_bound(self.arr@, i - lb, ind as int, VAL_BOUND as int);
                assert(d * (VAL_BOUND as int) <= 64 * (VAL_BOUND as int)) by (nonlinear_arith)
                    requires
                        0 <= d <= 64,
                        VAL_BOUND == 1_000_000_000i64,
                ;
            }
            sum = sum + self.fenwick[i - 1];
            i = i - lb;
        }
        self.query_answer = Some(sum);
        Ok(sum)
    }

    /// Sets Array cell `ind` to `val` and repairs the tree by the
    /// standard ascent, shifting every tree cell whose range covers the
    /// changed cell by the difference; highlights exactly that Array
    /// cell and the Tree cells the ascent visits, and leaves the last
    /// answer as it was; an index outside `1..=N` is rejected and
    /// nothing changes.
    pub fn update(&mut self, ind: usize, val: i64) -> (r: Result<(), ErrorKind>)
        requires
            old(self).wf(),
            -VAL_BOUND <= val <= VAL_BOUND,
        ensures
            final(self).wf(),
            final(self).len == old(self).len,
            final(self).query_answer == old(self).query_answer,
            1 <= ind <= old(self).len ==> {
                &&& r is Ok
                &&& final(self).arr@ == old(self).arr@.update(ind - 1, val)
                &&& forall|j: int|
                    0 <= j < old(self).len ==> #[trigger] final(self).arr_highlighted@[j] == (
                    j == ind - 1)
                &&& forall|i: int|
                    1 <= i <= old(self).len ==> #[trigger] final(self).fenwick_highlighted@[i
                        - 1] == in_update_path(old(self).len as nat, ind as nat, i as nat)
            },
            !(1 <= ind <= old(self).len) ==> {
                &&& r == Err::<(), ErrorKind>(ErrorKind::IndexOutOfRange)
                &&& final(self).arr@ == old(self).arr@
                &&& final(self).fenwick@ == old(self).fenwick@
                &&& final(self).arr_highlighted@ == old(self).arr_highlighted@
                &&& final(self).fenwick_highlighted@ == old(self).fenwick_highlighted@
            },
    {
        if ind < 1 || ind > self.len {
            return Err(ErrorKind::IndexOutOfRange);
        }
        let ghost n = self.len as nat;
        let ghost a0 = self.arr@;
        let old_val: i64 = self.arr[ind - 1];
        let diff: i64 = val - old_val;
        self.arr.set(ind - 1, val);
        self.arr_highlighted = one_flag(self.len, ind - 1);
        self.fenwick_highlighted = filled_vec(self.len, false);
        let ghost a1 = self.arr@;
        proof {
            assert forall|t: int| 1 <= t < ind implies #[trigger] self.fenwick@[t - 1]
                == sumrange(a1, t - lowbit(t as nat), t) by {
                lemma_lowbit_bounds(t as nat);
                lemma_sumrange_update_out(a0, ind - 1, val, t - lowbit(t as nat), t);
            }
            assert forall|t: int|
                1 <= t <= self.len && #[trigger] in_update_path(n, ind as nat, t as nat) implies ind
                <= t by {
                lemma_update_path_bounds(n, ind as nat, t as nat);
            }
            lemma_lowbit_bounds(ind as nat);
        }
        let mut i: usize = ind;
        while i <= self.len
            invariant
                1 <= self.len <= MAX_LEN,
                n == self.len as nat,
                1 <= ind <= self.len,
                ind <= i,
                self.len == old(self).len,
                self.query_answer == old(self).query_answer,
                self.arr@ == a1,
                a0.len() == self.len,
                a1 == a0.update(ind - 1, val),
                self.fenwick@.len() == self.len,
                self.arr_highlighted@.len() == self.len,
                self.fenwick_highlighted@.len() == self.len,
                forall|j: int|
                    0 <= j < self.len ==> -VAL_BOUND <= #[trigger] self.arr@[j] <= VAL_BOUND,
                forall|j: int| 0 <= j < self.len ==> -VAL_BOUND <= #[trigger] a0[j] <= VAL_BOUND,
                -VAL_BOUND <= val <= VAL_BOUND,
                forall|j: int|
                    0 <= j < self.len ==> #[trigger] self.arr_highlighted@[j] == (j == ind - 1),
                diff == val - a0[ind - 1],
                i - lowbit(i as nat) < ind,
                i <= self.len ==> in_update_path(n, ind as nat, i as nat),
                forall|t: int|
                    1 <= t <= self.len && t < i ==> #[trigger] self.fenwick@[t - 1] == sumrange(
                        a1,
                        t - lowbit(t as nat),
                        t,
                    ),
                forall|t: int|
                    1 <= t <= self.len && t >= i ==> #[trigger] self.fenwick@[t - 1] == sumrange(
                        a0,
                        t - lowbit(t as nat),
                        t,
                    ),
                forall|t: int|
                    1 <= t <= self.len ==> #[trigger] self.fenwick_highlighted@[t - 1] == (
                    in_update_path(n, ind as nat, t as nat) && t < i),
                i <= 2 * self.len,
            decreases 2 * self.len - i,
        {
            let lb: usize = lowbit_exec(i);
            proof {
                lemma_lowbit_bounds(i as nat);
                lemma_sumrange_bound(a0, i - lb, i as int, VAL_BOUND as int);
                assert(lb * (VAL_BOUND as int) <= 64 * (VAL_BOUND as int)) by (nonlinear_arith)
                    requires
                        0 <= lb <= 64,
                        VAL_BOUND == 1_000_000_000i64,
                ;
                lemma_sumrange_update_in(a0, ind - 1, val, i - lb, i as int);
            }
            self.fenwick_highlighted.set(i - 1, true);
            let t0: i64 = self.fenwick[i - 1];
            self.fenwick.set(i - 1, t0 + diff);
            let inext: usize = i + lb;
            proof {
                assert forall|t: int| i < t < inext && t <= self.len implies #[trigger] sumrange(
                    a0,
                    t - lowbit(t as nat),
                    t,
                ) == sumrange(a1, t - lowbit(t as nat), t) by {
                    lemma_lowbit_add_small(i as nat, (t - i) as nat);
                    lemma_lowbit_bounds((t - i) as nat);
                    lemma_sumrange_update_out(a0, ind - 1, val, t - lowbit(t as nat), t);
                }
                lemma_lowbit_step(i as nat);
                if inext <= self.len {
                    assert(in_update_path(n, inext as nat, inext as nat));
                    assert(in_update_path(n, i as nat, inext as nat));
                    lemma_update_path_trans(n, ind as nat, i as nat, inext as nat);
                }
                assert forall|t: int| i < t < inext && t <= self.len implies !(
                #[trigger] in_update_path(n, ind as nat, t as nat)) by {
                    if in_update_path(n, ind as nat, t as nat) {
                        lemma_update_path_order(n, ind as nat, i as nat, t as nat);
                        assert(in_update_path(n, i as nat, t as nat));
                        if i + lb <= self.len {
                            lemma_update_path_bounds(n, inext as nat, t as nat);
                        }
                    }
                }
            }
            i = inext;
        }
        Ok(())
    }

    /// Starts afresh and draws every Array cell from `lo..=hi`, applying
    /// one update per cell in increasing order, then clears the
    /// highlights that the last update would otherwise leave showing.
    pub fn randomize(&mut self, lo: i64, hi: i64)
        requires
            old(self).wf(),
            -VAL_BOUND <= lo <= hi <= VAL_BOUND,
        ensures
            final(self).wf(),
            final(self).len == old(self).len,
            forall|j: int|
                0 <= j < old(self).len ==> lo <= #[trigger] final(self).arr@[j] <= hi,
            forall|j: int|
                0 <= j < old(self).len ==> !(#[trigger] final(self).arr_highlighted@[j]),
            forall|j: int|
                0 <= j < old(self).len ==> !(#[trigger] final(self).fenwick_highlighted@[j]),
            final(self).query_answer is None,
    {
        self.reset();
        let mut i: usize = 1;
        while i <= self.len
            invariant
                self.wf(),
                1 <= i <= self.len + 1,
                self.len == old(self).len,
                -VAL_BOUND <= lo <= hi <= VAL_BOUND,
                self.query_answer is None,
                forall|j: int| 0 <= j < i - 1 ==> lo <= #[trigger] self.arr@[j] <= hi,
            decreases self.len + 1 - i,
        {
            let v: i64 = random_in_range(lo, hi);
            let _ = self.update(i, v);
            i = i + 1;
        }
        let n: usize = self.len;
        self.arr_highlighted = filled_vec(n, false);
        self.fenwick_highlighted = filled_vec(n, false);
    }

    /// Replaces the whole structure by freshly zeroed cells of the new
    /// length and clears the last answer; a resize to the current length
    /// is a no-op.
    pub fn resize(&mut self, new_len: usize)
        requires
            old(self).wf(),
            1 <= new_len <= MAX_LEN,
        ensures
            final(self).wf(),
            final(self).len == new_len,
            new_len == old(self).len ==> {
                &&& final(self).arr@ == old(self).arr@
                &&& final(self).fenwick@ == old(self).fenwick@
                &&& final(self).arr_highlighted@ == old(self).arr_highlighted@
                &&& final(self).fenwick_highlighted@ == old(self).fenwick_highlighted@
                &&& final(self).query_answer == old(self).query_answer
            },
            new_len != old(self).len ==> {
                &&& forall|j: int| 0 <= j < new_len ==> #[trigger] final(self).arr@[j] == 0
                &&& forall|j: int| 0 <= j < new_len ==> #[trigger] final(self).fenwick@[j] == 0
                &&& forall|j: int|
                    0 <= j < new_len ==> !(#[trigger] final(self).arr_highlighted@[j])
                &&& forall|j: int|
                    0 <= j < new_len ==> !(#[trigger] final(self).fenwick_highlighted@[j])
                &&& final(self).query_answer is None
            },
    {
        if new_len != self.len {
            self.len = new_len;
            self.arr = filled_vec(new_len, 0i64);
            self.arr_highlighted = filled_vec(new_len, false);
            self.fenwick = filled_vec(new_len, 0i64);
            self.fenwick_highlighted = filled_vec(new_len, false);
            self.query_answer = None;
            proof {
                lemma_zero_tree_wf(*self);
            }
        }
    }
}

/// Two well-formed engines of one length over one array hold the same
/// tree: well-formedness pins every tree cell to the sum of its array
/// range, so the tree is a function of the array.
pub proof fn lemma_tree_determined(e1: FenwickTree, e2: FenwickTree)
    requires
        e1.wf(),
        e2.wf(),
        e1.len == e2.len,
        e1.arr@ == e2.arr@,
    ensures
        e1.fenwick@ == e2.fenwick@,
{
    assert forall|t: int| 0 <= t < e1.fenwick@.len() implies e1.fenwick@[t] == e2.fenwick@[t] by {
        let i: int = t + 1;
        assert(e1.fenwick@[i - 1] == sumrange(e1.arr@, i - lowbit(i as nat), i));
        assert(e2.fenwick@[i - 1] == sumrange(e2.arr@, i - lowbit(i as nat), i));
    }
    assert(e1.fenwick@ =~= e2.fenwick@);
}

/// Repeating an update is idempotent: if `e1` came out of an update of
/// cell `ind` to `v` and `e2` out of the same update applied to `e1`,
/// then `e2` holds the same Array and the same Tree as `e1`. The
/// hypotheses are what `update`'s contract gives for the two calls.
pub proof fn lemma_update_idempotent(e1: FenwickTree, e2: FenwickTree, ind: usize, v: i64)
    requires
        e1.wf(),
        e2.wf(),
        1 <= ind <= e1.len,
        e2.len == e1.len,
        e1.arr@[ind - 1] == v,
        e2.arr@ == e1.arr@.update(ind - 1, v),
    ensures
        e2.arr@ == e1.arr@,
        e2.fenwick@ == e1.fenwick@,
{
    assert(e2.arr@ =~= e1.arr@);
    lemma_tree_determined(e1, e2);
}

/// The reset law's prefix-sum half: over the all-zero array that a
/// reset leaves behind, the prefix sum at every valid index is zero, so
/// a following query answers zero. (The highlight half stands in
/// `reset`'s own contract: every flag is cleared.)
pub proof fn lemma_query_after_reset_is_zero(e: FenwickTree, k: int)
    requires
        e.wf(),
        forall|j: int| 0 <= j < e.len ==> #[trigger] e.arr@[j] == 0,
        1 <= k <= e.len,
    ensures
        prefix_sum(e.arr@, k) == 0,
{
    lemma_sumrange_zero(e.arr@, 0, k);
}

/// Relies on fastrand::i64: a value drawn from the nonempty inclusive
/// range `lo..=hi` lies within it.
#[verifier::external_body]
fn random_in_range(lo: i64, hi: i64) -> (r: i64)
    requires
        lo <= hi,
    ensures
        lo <= r <= hi,
{
    fastrand::i64(lo..=hi)
}

/// An all-zero structure of consistent lengths is well formed: each tree
/// cell holds the (zero) sum of its all-zero array range.
proof fn lemma_zero_tree_wf(t: FenwickTree)
    requires
        1 <= t.len <= MAX_LEN,
        t.arr@.len() == t.len,
        t.fenwick@.len() == t.len,
        t.arr_highlighted@.len() == t.len,
        t.fenwick_highlighted@.len() == t.len,
        forall|j: int| 0 <= j < t.len ==> #[trigger] t.arr@[j] == 0,
        forall|j: int| 0 <= j < t.len ==> #[trigger] t.fenwick@[j] == 0,
    ensures
        t.wf(),
{
    assert forall|i: int|
        1 <= i <= t.len implies #[trigger] t.fenwick@[i - 1] == sumrange(
        t.arr@,
        i - lowbit(i as nat),
        i,
    ) by {
        lemma_lowbit_bounds(i as nat);
        lemma_sumrange_zero(t.arr@, i - lowbit(i as nat), i);
    }
}

/// Builds the Array highlight flags of a point update: exactly cell `j`
/// set.
fn one_flag(n: usize, j: usize) -> (r: Vec<bool>)
    ensures
        r@.len() == n,
        forall|t: int| 0 <= t < n ==> #[trigger] r@[t] == (t == j),
{
    let mut r: Vec<bool> = Vec::new();
    while r.len() < n
        invariant
            r@.len() <= n,
            forall|t: int| 0 <= t < r@.len() ==> #[trigger] r@[t] == (t == j),
        decreases n - r@.len(),
    {
        let flag: bool = r.len() == j;
        r.push(flag);
    }
    r
}

/// Builds the Array highlight flags of a prefix query: the first `k`
/// cells set, the rest clear.
fn prefix_flags(n: usize, k: usize) -> (r: Vec<bool>)
    ensures
        r@.len() == n,
        forall|j: int| 0 <= j < n ==> #[trigger] r@[j] == (j < k),
{
    let mut r: Vec<bool> = Vec::new();
    while r.len() < n
        invariant
            r@.len() <= n,
            forall|j: int| 0 <= j < r@.len() ==> #[trigger] r@[j] == (j < k),
        decreases n - r@.len(),
    {
        let flag: bool = r.len() < k;
        r.push(flag);
    }
    r
}

/// Builds a vector of `n` copies of `x`.
fn filled_vec<T: Copy>(n: usize, x: T) -> (r: Vec<T>)
    ensures
        r@.len() == n,
        forall|j: int| 0 <= j < n ==> #[trigger] r@[j] == x,
{
    let mut r: Vec<T> = Vec::new();
    while r.len() < n
        invariant
            r@.len() <= n,
            forall|j: int| 0 <= j < r@.len() ==> #[trigger] r@[j] == x,
        decreases n - r@.len(),
    {
        r.push(x);
    }
    r
}

} // verus!
