//! Machine integers: what the standard library's methods on them return,
//! and what shifts and `trailing_zeros` mean in arithmetic.

use crate::gcd::theory::abs;
use vstd::arithmetic::power2::{lemma2_to64, lemma_pow2_pos, lemma_pow2_unfold, pow2};
use vstd::bits::{lemma_u128_shr_is_div, lemma_u64_shl_is_mul, lemma_u64_shr_is_div};
use vstd::prelude::*;
use vstd::std_specs::bits::{axiom_u64_trailing_zeros, u64_trailing_zeros};

verus! {

/// `i64::unsigned_abs`: the absolute value, which always fits in a `u64`.
pub assume_specification[ i64::unsigned_abs ](x: i64) -> (r: u64)
    ensures
        r == abs(x as int),
;

/// `i128::unsigned_abs`: the absolute value, which always fits in a `u128`.
pub assume_specification[ i128::unsigned_abs ](x: i128) -> (r: u128)
    ensures
        r == abs(x as int),
;

/// `i64::checked_abs`: the absolute value, or `None` for `i64::MIN`, whose
/// absolute value does not fit.
pub assume_specification[ i64::checked_abs ](x: i64) -> (r: Option<i64>)
    ensures
        r == if x == i64::MIN { None } else { Some(abs(x as int) as i64) },
;

/// `i128::checked_abs`: the absolute value, or `None` for `i128::MIN`, whose
/// absolute value does not fit.
pub assume_specification[ i128::checked_abs ](x: i128) -> (r: Option<i128>)
    ensures
        r == if x == i128::MIN { None } else { Some(abs(x as int) as i128) },
;

/// `u128::trailing_zeros`: the number of zero bits below the lowest set bit,
/// and 128 for 0. For a nonzero `x` it is the largest power of two dividing
/// `x`: the quotient by that power is odd.
pub assume_specification[ u128::trailing_zeros ](x: u128) -> (r: u32)
    ensures
        r <= 128,
        x == 0 <==> r == 128,
        x != 0 ==> x as nat % pow2(r as nat) == 0 && (x as nat / pow2(r as nat)) % 2 == 1,
;

/// `x` is `2^z` times the odd number `odd`: `z` counts the trailing zero
/// bits of `x`.
pub open spec fn odd_part(x: nat, z: nat, odd: nat) -> bool {
    x == pow2(z) * odd && odd % 2 == 1
}

/// What `trailing_zeros` says of a nonzero `u64`, in arithmetic: shifting
/// the zeros out leaves the odd part.
pub proof fn lemma_u64_trailing_zeros(x: u64)
    requires
        x != 0,
    ensures
        u64_trailing_zeros(x) < 64,
        odd_part(x as nat, u64_trailing_zeros(x) as nat, (x >> u64_trailing_zeros(x)) as nat),
        x >> u64_trailing_zeros(x) > 0,
{
    axiom_u64_trailing_zeros(x);
    let t = u64_trailing_zeros(x) as u64;
    let s = (64 - t) as u64;
    let y = x >> t;
    assert((y << t) == x) by (bit_vector)
        requires
            t < 64,
            s == 64 - t,
            x << s == 0,
            y == x >> t,
    ;
    assert(y % 2 == 1) by (bit_vector)
        requires
            y & 1 == 1,
    ;
    lemma_u64_shr_is_div(x, t);
    lemma_pow2_pos(t as nat);
    assert(y * pow2(t as nat) <= x) by (nonlinear_arith)
        requires
            y == x as nat / pow2(t as nat),
            pow2(t as nat) > 0,
    ;
    lemma_u64_shl_is_mul(y, t);
    assert(x == pow2(t as nat) * y) by (nonlinear_arith)
        requires
            x == y * pow2(t as nat),
    ;
}

/// Shifting a `u128` left by `shift` multiplies it by `2^shift`, as long as
/// the product fits.
pub proof fn lemma_u128_shl_is_mul(x: u128, shift: u128)
    requires
        shift < 128,
        x * pow2(shift as nat) <= u128::MAX,
    ensures
        x << shift == x * pow2(shift as nat),
    decreases shift,
{
    if shift == 0 {
        lemma2_to64();
        assert(x << 0u128 == x) by (bit_vector);
        assert(x * pow2(0) == x) by (nonlinear_arith)
            requires
                pow2(0) == 1,
        ;
    } else {
        let p = (shift - 1) as u128;
        lemma_pow2_unfold(shift as nat);
        assert(x * pow2(shift as nat) == 2 * (x * pow2(p as nat))) by (nonlinear_arith)
            requires
                pow2(shift as nat) == 2 * pow2(p as nat),
        ;
        lemma_u128_shl_is_mul(x, p);
        let y = x << p;
        assert(x << shift == y << 1u128) by (bit_vector)
            requires
                0 < shift < 128,
                p == shift - 1,
                y == x << p,
        ;
        assert(y << 1u128 == 2 * y) by (bit_vector)
            requires
                y <= 0x7fff_ffff_ffff_ffff_ffff_ffff_ffff_ffffu128,
        ;
    }
}

/// What `trailing_zeros` says of a nonzero `u128`: shifting the zeros out
/// leaves the odd part.
pub proof fn lemma_u128_odd_part(x: u128, z: u32)
    requires
        z < 128,
        x as nat % pow2(z as nat) == 0,
        (x as nat / pow2(z as nat)) % 2 == 1,
    ensures
        odd_part(x as nat, z as nat, (x >> z) as nat),
        0 < x >> z <= x,
{
    lemma_u128_shr_is_div(x, z as u128);
    lemma_pow2_pos(z as nat);
    let p = pow2(z as nat);
    assert(x as nat == p * (x as nat / p) && x as nat / p <= x) by (nonlinear_arith)
        requires
            p > 0,
            x as nat % p == 0,
    ;
}

} // verus!
