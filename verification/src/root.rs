use vstd::prelude::*;

verus! {

/// `r` is the integer square root of `n`: the largest integer whose square
/// does not exceed `n`.
pub open spec fn is_int_sqrt(n: int, r: int) -> bool {
    0 <= r && r * r <= n < (r + 1) * (r + 1)
}

/// The integer square root of a non-negative `n`.
pub open spec fn int_sqrt(n: int) -> int {
    choose|r: int| is_int_sqrt(n, r)
}

/// A number has at most one integer square root.
pub proof fn lemma_int_sqrt_unique(n: int, r: int, s: int)
    requires
        is_int_sqrt(n, r),
        is_int_sqrt(n, s),
    ensures
        r == s,
{
    if r < s {
        assert((r + 1) * (r + 1) <= s * s) by (nonlinear_arith)
            requires
                0 <= r,
                r + 1 <= s,
        ;
    } else if s < r {
        assert((s + 1) * (s + 1) <= r * r) by (nonlinear_arith)
            requires
                0 <= s,
                s + 1 <= r,
        ;
    }
}

/// Whatever satisfies the defining bounds is the integer square root.
pub proof fn lemma_int_sqrt_is(n: int, r: int)
    requires
        is_int_sqrt(n, r),
    ensures
        int_sqrt(n) == r,
{
    lemma_int_sqrt_unique(n, r, int_sqrt(n));
}

/// The integer square root of a 128-bit number, found by bisection.
pub fn isqrt(n: u128) -> (r: u128)
    ensures
        is_int_sqrt(n as int, r as int),
        r == int_sqrt(n as int),
        r <= 0xFFFF_FFFF_FFFF_FFFF,
{
    let mut lo: u128 = 0;
    let mut hi: u128 = 0x1_0000_0000_0000_0000;
    assert(0x1_0000_0000_0000_0000int * 0x1_0000_0000_0000_0000int > n) by (nonlinear_arith)
        requires
            n <= 0xFFFF_FFFF_FFFF_FFFF_FFFF_FFFF_FFFF_FFFF,
    ;
    while hi - lo > 1
        invariant
            lo < hi <= 0x1_0000_0000_0000_0000,
            lo * lo <= n < hi * hi,
        decreases hi - lo,
    {
        let mid: u128 = lo + (hi - lo) / 2;
        assert(mid * mid <= 0xFFFF_FFFF_FFFF_FFFF * 0xFFFF_FFFF_FFFF_FFFF) by (nonlinear_arith)
            requires
                0 <= mid <= 0xFFFF_FFFF_FFFF_FFFF,
        ;
        if mid * mid <= n {
            lo = mid;
        } else {
            hi = mid;
        }
    }
    proof {
        lemma_int_sqrt_is(n as int, lo as int);
    }
    lo
}

/// Every non-negative number has an integer square root.
pub proof fn lemma_int_sqrt_exists(n: int)
    requires
        0 <= n,
    ensures
        is_int_sqrt(n, int_sqrt(n)),
    decreases n,
{
    if n == 0 {
        assert(is_int_sqrt(0, 0));
    } else {
        lemma_int_sqrt_exists(n - 1);
        let r = int_sqrt(n - 1);
        if (r + 1) * (r + 1) <= n {
            assert((r + 2) * (r + 2) > n) by (nonlinear_arith)
                requires
                    0 <= r,
                    n - 1 < (r + 1) * (r + 1),
            ;
            assert(is_int_sqrt(n, r + 1));
        } else {
            assert(is_int_sqrt(n, r));
        }
    }
}

/// The integer square root rounded up: the smallest integer whose square
/// is at least `n`.
pub open spec fn root_up(n: int) -> int {
    let r = int_sqrt(n);
    if r * r == n {
        r
    } else {
        r + 1
    }
}

/// The rounded-up root of a positive number lies just above that number's
/// square root.
pub proof fn lemma_root_up(n: int)
    requires
        n > 0,
    ensures
        root_up(n) >= 1,
        (root_up(n) - 1) * (root_up(n) - 1) < n <= root_up(n) * root_up(n),
{
    lemma_int_sqrt_exists(n);
    let r = int_sqrt(n);
    if r * r == n {
        assert(r >= 1) by (nonlinear_arith)
            requires
                r >= 0,
                r * r == n,
                n > 0,
        ;
        assert((r - 1) * (r - 1) < r * r) by (nonlinear_arith)
            requires
                r >= 1,
        ;
    } else {
        assert((r + 1 - 1) * (r + 1 - 1) == r * r) by (nonlinear_arith);
    }
}

/// The integer square root of a 128-bit number, rounded up.
pub fn ceil_sqrt(n: u128) -> (r: u128)
    ensures
        r == root_up(n as int),
        r <= 0x1_0000_0000_0000_0000,
{
    let r = isqrt(n);
    assert(r * r <= 0xFFFF_FFFF_FFFF_FFFF * 0xFFFF_FFFF_FFFF_FFFF) by (nonlinear_arith)
        requires
            0 <= r <= 0xFFFF_FFFF_FFFF_FFFF,
    ;
    if r * r == n {
        r
    } else {
        r + 1
    }
}

} // verus!
