//! The bit-decomposition arithmetic behind the Fenwick tree: the lowest
//! set bit of an index, and the index chains that queries descend and
//! updates ascend.

use vstd::prelude::*;

verus! {

/// The value of the lowest set bit of `i` (and `0` for `i == 0`).
pub open spec fn lowbit(i: nat) -> nat
    decreases i,
{
    if i == 0 {
        0
    } else if i % 2 == 1 {
        1
    } else {
        2 * lowbit(i / 2)
    }
}

/// A positive index's lowest set bit is at least one and at most the
/// index itself.
pub proof fn lemma_lowbit_bounds(i: nat)
    requires
        i >= 1,
    ensures
        1 <= lowbit(i) <= i,
    decreases i,
{
    if i % 2 == 0 {
        lemma_lowbit_bounds(i / 2);
    }
}

/// Adding less than the lowest set bit of `i` only touches the zero bits
/// below it, so the lowest set bit of the sum is that of the addend.
pub proof fn lemma_lowbit_add_small(i: nat, r: nat)
    requires
        i >= 1,
        0 < r < lowbit(i),
    ensures
        lowbit(i + r) == lowbit(r),
    decreases i,
{
    lemma_lowbit_bounds(i);
    if i % 2 == 1 {
        // lowbit(i) == 1 leaves no room for r
        assert(false);
    } else if r % 2 == 1 {
        assert((i + r) % 2 == 1);
    } else {
        assert(i + r == 2 * ((i / 2) + (r / 2)));
        lemma_lowbit_add_small(i / 2, r / 2);
    }
}

/// Adding the lowest set bit of `i` to `i` carries past it: the sum's
/// lowest set bit is at least twice as large.
pub proof fn lemma_lowbit_step(i: nat)
    requires
        i >= 1,
    ensures
        lowbit(i + lowbit(i)) >= 2 * lowbit(i),
    decreases i,
{
    if i % 2 == 1 {
        assert(i + 1 == 2 * ((i + 1) / 2));
        lemma_lowbit_bounds((i + 1) / 2);
    } else {
        assert(i + lowbit(i) == 2 * ((i / 2) + lowbit(i / 2)));
        lemma_lowbit_step(i / 2);
    }
}

/// Computes the lowest set bit of `i` by stripping factors of two.
pub fn lowbit_exec(i: usize) -> (r: usize)
    requires
        i >= 1,
    ensures
        r == lowbit(i as nat),
{
    let mut x: usize = i;
    let mut b: usize = 1;
    while x % 2 == 0
        invariant
            1 <= x,
            1 <= b,
            b * x == i,
            lowbit(i as nat) == b * lowbit(x as nat),
        decreases x,
    {
        proof {
            assert(x >= 2);
            let h: nat = (x / 2) as nat;
            assert(x == 2 * h);
            assert(b * 2 <= b * x) by (nonlinear_arith)
                requires
                    b >= 1,
                    x >= 2,
            ;
            assert((2 * b) * h == b * (2 * h)) by (nonlinear_arith);
            assert(lowbit(x as nat) == 2 * lowbit(h));
            assert(b * (2 * lowbit(h)) == (2 * b) * lowbit(h)) by (nonlinear_arith);
        }
        x = x / 2;
        b = b * 2;
    }
    proof {
        assert(lowbit(x as nat) == 1);
        assert(b * 1 == b) by (nonlinear_arith);
    }
    b
}

/// Whether Tree index `i` is visited by the descent that answers a
/// prefix-sum query at index `k`: the chain `k`, `k - lowbit(k)`, ...
/// down to (and excluding) zero.
pub open spec fn in_query_path(k: nat, i: nat) -> bool
    decreases k,
{
    if k == 0 {
        false
    } else if i == k {
        true
    } else {
        proof {
            lemma_lowbit_bounds(k);
        }
        in_query_path((k - lowbit(k)) as nat, i)
    }
}

/// Every index on a query descent lies between one and the start of the
/// descent.
pub proof fn lemma_query_path_bounds(k: nat, i: nat)
    requires
        in_query_path(k, i),
    ensures
        1 <= i <= k,
    decreases k,
{
    if k != 0 && i != k {
        lemma_lowbit_bounds(k);
        lemma_query_path_bounds((k - lowbit(k)) as nat, i);
    }
}

/// Query descents compose: a descent from `a` that passes through `b`
/// continues exactly as the descent from `b` does.
pub proof fn lemma_query_path_trans(a: nat, b: nat, c: nat)
    requires
        in_query_path(a, b),
        in_query_path(b, c),
    ensures
        in_query_path(a, c),
    decreases a,
{
    if a != b {
        lemma_lowbit_bounds(a);
        lemma_query_path_trans((a - lowbit(a)) as nat, b, c);
    }
}

/// Whether Tree index `t` is visited by the ascent that applies a point
/// update at index `s` in a tree of `n` cells: the chain `s`,
/// `s + lowbit(s)`, ... up to (and excluding) anything beyond `n`.
pub open spec fn in_update_path(n: nat, s: nat, t: nat) -> bool
    decreases n - s when 1 <= s <= n
{
    if t == s {
        true
    } else if s + lowbit(s) > n {
        false
    } else {
        proof {
            lemma_lowbit_bounds(s);
        }
        in_update_path(n, s + lowbit(s), t)
    }
}

/// Every index on an update ascent lies between the start of the ascent
/// and the tree size.
pub proof fn lemma_update_path_bounds(n: nat, s: nat, t: nat)
    requires
        1 <= s <= n,
        in_update_path(n, s, t),
    ensures
        s <= t <= n,
    decreases n - s,
{
    if t != s && s + lowbit(s) <= n {
        lemma_lowbit_bounds(s);
        lemma_update_path_bounds(n, s + lowbit(s), t);
    }
}

/// Update ascents compose: an ascent from `s` that passes through `m`
/// continues exactly as the ascent from `m` does.
pub proof fn lemma_update_path_trans(n: nat, s: nat, m: nat, t: nat)
    requires
        1 <= s <= n,
        in_update_path(n, s, m),
        in_update_path(n, m, t),
    ensures
        in_update_path(n, s, t),
    decreases n - s,
{
    if s != m && s + lowbit(s) <= n {
        lemma_lowbit_bounds(s);
        lemma_update_path_trans(n, s + lowbit(s), m, t);
    }
}

/// Of two indices on one update ascent, the larger is reached from the
/// smaller: the ascent visits a single increasing chain.
pub proof fn lemma_update_path_order(n: nat, s: nat, m: nat, t: nat)
    requires
        1 <= s <= n,
        in_update_path(n, s, m),
        in_update_path(n, s, t),
        m < t,
    ensures
        in_update_path(n, m, t),
    decreases n - s,
{
    if s == m {
        // the ascent from m is the ascent from s itself
    } else if s == t {
        lemma_update_path_bounds(n, s, m);
        assert(false);
    } else {
        lemma_lowbit_bounds(s);
        lemma_update_path_order(n, s + lowbit(s), m, t);
    }
}

} // verus!
