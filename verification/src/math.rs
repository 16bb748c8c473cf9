//! Integer square roots, used for fixed-point distance and root
//! computations. All world-coordinate and difficulty arithmetic in this
//! crate is done on scaled integers, so the square root is the only
//! non-trivial numeric primitive needed.

use vstd::prelude::*;

verus! {

/// The integer square root: the largest `r` with `r * r <= n`.
pub open spec fn sqrt_floor(n: int) -> int
    decreases n,
{
    if n <= 0 {
        0
    } else {
        if (sqrt_floor(n - 1) + 1) * (sqrt_floor(n - 1) + 1) <= n {
            sqrt_floor(n - 1) + 1
        } else {
            sqrt_floor(n - 1)
        }
    }
}

/// `sqrt_floor` is indeed the floor of the square root.
pub proof fn lemma_sqrt_floor_bounds(n: int)
    requires
        n >= 0,
    ensures
        sqrt_floor(n) >= 0,
        sqrt_floor(n) * sqrt_floor(n) <= n,
        (sqrt_floor(n) + 1) * (sqrt_floor(n) + 1) > n,
    decreases n,
{
    if n > 0 {
        lemma_sqrt_floor_bounds(n - 1);
        let s = sqrt_floor(n - 1);
        if (s + 1) * (s + 1) <= n {
            assert((s + 2) * (s + 2) > n) by (nonlinear_arith)
                requires
                    (s + 1) * (s + 1) > n - 1,
                    s >= 0,
            {
            }
        }
    }
}

/// Any `r` that satisfies the two-sided bound is the integer square root.
pub proof fn lemma_sqrt_floor_unique(n: int, r: int)
    requires
        n >= 0,
        r >= 0,
        r * r <= n,
        (r + 1) * (r + 1) > n,
    ensures
        sqrt_floor(n) == r,
{
    lemma_sqrt_floor_bounds(n);
    let s = sqrt_floor(n);
    if s < r {
        assert((s + 1) * (s + 1) <= r * r) by (nonlinear_arith)
            requires
                0 <= s,
                s + 1 <= r,
        {
        }
    }
    if r < s {
        assert((r + 1) * (r + 1) <= s * s) by (nonlinear_arith)
            requires
                0 <= r,
                r + 1 <= s,
        {
        }
    }
}

/// The integer square root never decreases when its argument grows.
pub proof fn lemma_sqrt_floor_monotone(a: int, b: int)
    requires
        a <= b,
    ensures
        sqrt_floor(a) <= sqrt_floor(b),
    decreases b - a,
{
    if a < b {
        lemma_sqrt_floor_monotone(a, b - 1);
    }
}

/// The integer square root of anything at least one is at least one.
pub proof fn lemma_sqrt_floor_at_least_one(n: int)
    requires
        n >= 1,
    ensures
        sqrt_floor(n) >= 1,
{
    lemma_sqrt_floor_bounds(n);
    assert(sqrt_floor(n) >= 1) by (nonlinear_arith)
        requires
            (sqrt_floor(n) + 1) * (sqrt_floor(n) + 1) > n,
            n >= 1,
            sqrt_floor(n) >= 0,
    {
    }
}

/// Executable integer square root by bisection.
pub fn isqrt(n: u64) -> (r: u64)
    ensures
        r == sqrt_floor(n as int),
        r * r <= n,
{
    if n == 0 {
        proof {
            lemma_sqrt_floor_unique(0, 0);
        }
        return 0;
    }
    let mut lo: u64 = 0;
    let mut hi: u64 = 4294967296;
    while hi - lo > 1
        invariant
            n >= 1,
            lo < hi,
            hi <= 4294967296,
            (lo as int) * (lo as int) <= n as int,
            (hi as int) * (hi as int) > n as int,
        decreases hi - lo,
    {
        let mid = lo + (hi - lo) / 2;
        proof {
            assert(mid < 4294967296);
            assert((mid as int) * (mid as int) < 18446744073709551616) by (nonlinear_arith)
                requires
                    0 <= mid < 4294967296,
            {
            }
        }
        if mid * mid <= n {
            lo = mid;
        } else {
            hi = mid;
        }
    }
    proof {
        assert(hi == lo + 1);
        lemma_sqrt_floor_unique(n as int, lo as int);
    }
    lo
}

} // verus!
