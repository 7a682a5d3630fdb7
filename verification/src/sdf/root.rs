//! Whole square roots.

use vstd::prelude::*;

verus! {

/// The largest number whose root is taken: below 2^104.
pub const ROOT_LIMIT: u128 = 0x100_0000_0000_0000_0000_0000_0000;

/// Whether `r` is the square root of `n`, rounded down.
pub open spec fn is_floor_root(n: int, r: int) -> bool {
    r >= 0 && r * r <= n < (r + 1) * (r + 1)
}

/// The square root of `n`, rounded down.
pub open spec fn floor_sqrt(n: int) -> int {
    choose|r: int| is_floor_root(n, r)
}

/// The square root of `n`, rounded up.
pub open spec fn ceil_sqrt(n: int) -> int {
    if floor_sqrt(n) * floor_sqrt(n) == n {
        floor_sqrt(n)
    } else {
        floor_sqrt(n) + 1
    }
}

/// A number has one root rounded down.
pub proof fn lemma_floor_root_unique(n: int, r: int)
    requires
        is_floor_root(n, r),
    ensures
        floor_sqrt(n) == r,
{
    let s = floor_sqrt(n);
    assert(is_floor_root(n, s));
    if s < r {
        assert((s + 1) * (s + 1) <= r * r) by (nonlinear_arith)
            requires
                0 <= s < r,
        ;
    } else if r < s {
        assert((r + 1) * (r + 1) <= s * s) by (nonlinear_arith)
            requires
                0 <= r < s,
        ;
    }
}

/// A larger number has no smaller root.
pub proof fn lemma_floor_root_monotone(a: int, ra: int, b: int, rb: int)
    requires
        is_floor_root(a, ra),
        is_floor_root(b, rb),
        a <= b,
    ensures
        ra <= rb,
{
    if rb < ra {
        assert((rb + 1) * (rb + 1) <= ra * ra) by (nonlinear_arith)
            requires
                0 <= rb < ra,
        ;
    }
}

/// Every number from zero on has a root rounded down.
pub proof fn lemma_floor_root_exists(n: int)
    requires
        n >= 0,
    ensures
        is_floor_root(n, floor_sqrt(n)),
    decreases n,
{
    if n == 0 {
        assert(is_floor_root(0, 0));
    } else {
        lemma_floor_root_exists(n - 1);
        let r = floor_sqrt(n - 1);
        if (r + 1) * (r + 1) <= n {
            assert(n < (r + 2) * (r + 2)) by (nonlinear_arith)
                requires
                    n - 1 < (r + 1) * (r + 1),
                    r >= 0,
            ;
            assert(is_floor_root(n, r + 1));
        } else {
            assert(is_floor_root(n, r));
        }
    }
}

/// A larger number has no smaller root, rounded down or up.
pub proof fn lemma_roots_monotone(a: int, b: int)
    requires
        0 <= a <= b,
    ensures
        floor_sqrt(a) <= floor_sqrt(b),
        ceil_sqrt(a) <= ceil_sqrt(b),
{
    lemma_floor_root_exists(a);
    lemma_floor_root_exists(b);
    let ra = floor_sqrt(a);
    let rb = floor_sqrt(b);
    lemma_floor_root_monotone(a, ra, b, rb);
    if ra == rb && ra * ra != a {
        assert(rb * rb != b);
    }
}

/// The square root of `n`, rounded down.
pub fn floor_root(n: u128) -> (r: u128)
    requires
        n < ROOT_LIMIT,
    ensures
        r == floor_sqrt(n as int),
        is_floor_root(n as int, r as int),
        r < 0x10_0000_0000_0000,
{
    let mut lo: u128 = 0;
    let mut hi: u128 = 0x10_0000_0000_0000;
    assert(0x10_0000_0000_0000 * 0x10_0000_0000_0000 == ROOT_LIMIT) by (nonlinear_arith);
    while hi - lo > 1
        invariant
            lo < hi <= 0x10_0000_0000_0000,
            lo * lo <= n < hi * hi,
        decreases hi - lo,
    {
        let mid: u128 = lo + (hi - lo) / 2;
        assert(mid * mid <= 0x10_0000_0000_0000 * 0x10_0000_0000_0000) by (nonlinear_arith)
            requires
                0 <= mid <= 0x10_0000_0000_0000,
        ;
        if mid * mid <= n {
            lo = mid;
        } else {
            hi = mid;
        }
    }
    proof {
        lemma_floor_root_unique(n as int, lo as int);
    }
    lo
}

/// The square root of `n`, rounded up.
pub fn ceil_root(n: u128) -> (r: u128)
    requires
        n < ROOT_LIMIT,
    ensures
        r == ceil_sqrt(n as int),
        r <= 0x10_0000_0000_0000,
{
    let r = floor_root(n);
    assert(r * r <= n);
    if r * r == n {
        r
    } else {
        r + 1
    }
}

} // verus!
