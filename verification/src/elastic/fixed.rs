//! Integer arithmetic for the simulator: division that rounds toward zero,
//! saturation, and the integer square root.

use vstd::prelude::*;

verus! {

/// The quotient of `n` by a positive `d`, rounded toward zero.
pub open spec fn trunc_div(n: int, d: int) -> int {
    if n >= 0 {
        n / d
    } else {
        -((-n) / d)
    }
}

/// `v` held within `-limit ..= limit`.
pub open spec fn clamp(v: int, limit: int) -> int {
    if v < -limit {
        -limit
    } else if v > limit {
        limit
    } else {
        v
    }
}

/// `r` is the integer square root of `n`: the largest natural number whose
/// square does not exceed `n`.
pub open spec fn is_sqrt(n: int, r: int) -> bool {
    0 <= r && r * r <= n < (r + 1) * (r + 1)
}

/// The integer square root of a natural number.
pub open spec fn isqrt(n: int) -> int {
    choose|r: int| is_sqrt(n, r)
}

/// A number has at most one integer square root.
pub proof fn lemma_sqrt_unique(n: int, r: int, s: int)
    requires
        is_sqrt(n, r),
        is_sqrt(n, s),
    ensures
        r == s,
{
    if r < s {
        assert((r + 1) * (r + 1) <= s * s) by (nonlinear_arith)
            requires
                0 <= r,
                r + 1 <= s,
        ;
    } else if s < r {
        assert((s + 1) * (s + 1) <= r * r) by (nonlinear_arith)
            requires
                0 <= s,
                s + 1 <= r,
        ;
    }
}

/// Every natural number has an integer square root.
pub proof fn lemma_sqrt_exists(n: int)
    requires
        n >= 0,
    ensures
        is_sqrt(n, isqrt(n)),
    decreases n,
{
    if n == 0 {
        assert(is_sqrt(0, 0));
    } else {
        lemma_sqrt_exists(n - 1);
        let r = isqrt(n - 1);
        if (r + 1) * (r + 1) <= n {
            assert((r + 1) * (r + 1) < (r + 2) * (r + 2)) by (nonlinear_arith)
                requires
                    r >= 0,
            ;
            assert(is_sqrt(n, r + 1));
        } else {
            assert(is_sqrt(n, r));
        }
    }
}

/// A number with an integer square root `r` has `isqrt` equal to `r`.
pub proof fn lemma_isqrt_is(n: int, r: int)
    requires
        is_sqrt(n, r),
    ensures
        isqrt(n) == r,
{
    lemma_sqrt_unique(n, r, isqrt(n));
}

/// The quotient rounded toward zero is no larger in magnitude than the
/// dividend, has its sign, and is within one of the exact quotient:
/// `q * d` lies between `n` and `n` moved toward zero by less than `d`.
pub proof fn lemma_trunc_div_bounds(n: int, d: int)
    requires
        d > 0,
    ensures
        n >= 0 ==> 0 <= trunc_div(n, d) <= n && n - d < trunc_div(n, d) * d <= n,
        n <= 0 ==> n <= trunc_div(n, d) <= 0 && n <= trunc_div(n, d) * d < n + d,
{
    let m = if n >= 0 { n } else { -n };
    let q = m / d;
    assert(0 <= q <= m && m - d < q * d <= m) by (nonlinear_arith)
        requires
            m >= 0,
            d > 0,
            q == m / d,
    ;
    if n < 0 {
        assert((-q) * d == -(q * d)) by (nonlinear_arith);
    }
}

/// What rounding toward zero leaves of a quotient: the dividend is the
/// quotient times the divisor plus a rest that is smaller than the divisor
/// and has the sign of the dividend.
pub proof fn lemma_trunc_div_rest(n: int, d: int)
    requires
        d > 0,
    ensures
        -d < n - trunc_div(n, d) * d < d,
        n >= 0 ==> n - trunc_div(n, d) * d >= 0,
        n <= 0 ==> n - trunc_div(n, d) * d <= 0,
{
    lemma_trunc_div_bounds(n, d);
}

/// A multiple of the divisor is divided without rounding.
pub proof fn lemma_trunc_div_exact(k: int, d: int)
    requires
        d > 0,
    ensures
        trunc_div(k * d, d) == k,
{
    lemma_trunc_div_bounds(k * d, d);
    let q = trunc_div(k * d, d);
    assert(q == k) by (nonlinear_arith)
        requires
            d > 0,
            k * d >= 0 ==> k * d - d < q * d <= k * d,
            k * d <= 0 ==> k * d <= q * d < k * d + d,
    ;
}

/// `n / d` rounded toward zero, for a positive divisor.
pub fn div_trunc(n: i128, d: i128) -> (q: i128)
    requires
        d > 0,
        n > i128::MIN,
    ensures
        q == trunc_div(n as int, d as int),
{
    proof {
        lemma_trunc_div_bounds(n as int, d as int);
    }
    if n >= 0 {
        n / d
    } else {
        -((-n) / d)
    }
}

/// `v` held within `-limit ..= limit`.
pub fn clamp_to(v: i128, limit: i64) -> (r: i64)
    requires
        limit >= 0,
    ensures
        r == clamp(v as int, limit as int),
{
    if v < -(limit as i128) {
        -limit
    } else if v > limit as i128 {
        limit
    } else {
        v as i64
    }
}

/// The integer square root, by bisection.
pub fn int_sqrt(n: u128) -> (r: u128)
    requires
        n < 0x4000_0000_0000_0000_0000_0000_0000_0000,
    ensures
        r == isqrt(n as int),
        is_sqrt(n as int, r as int),
        r < 0x8000_0000_0000_0000,
{
    let mut lo: u128 = 0;
    let mut hi: u128 = 0x8000_0000_0000_0000;
    while hi - lo > 1
        invariant
            lo < hi <= 0x8000_0000_0000_0000,
            lo * lo <= n < hi * hi,
        decreases hi - lo,
    {
        let mid = lo + (hi - lo) / 2;
        assert(mid * mid < 0x4000_0000_0000_0000_0000_0000_0000_0000) by (nonlinear_arith)
            requires
                mid < 0x8000_0000_0000_0000,
        ;
        if mid * mid <= n {
            lo = mid;
        } else {
            hi = mid;
        }
    }
    proof {
        lemma_isqrt_is(n as int, lo as int);
    }
    lo
}

} // verus!
