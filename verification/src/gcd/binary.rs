//! The binary algorithm for the greatest common divisor: common factors of
//! two are counted with `trailing_zeros` and shifted out, and the odd parts
//! are reduced by subtraction.

use crate::gcd::machine::{
    lemma_u128_odd_part, lemma_u128_shl_is_mul, lemma_u64_trailing_zeros, odd_part,
};
use crate::gcd::theory::{
    abs, gcd, lemma_gcd_bounds, lemma_gcd_drop_pow2, lemma_gcd_scale, lemma_gcd_symmetric,
};
use vstd::arithmetic::power2::{
    lemma2_to64, lemma_pow2_adds, lemma_pow2_pos, lemma_pow2_unfold, pow2,
};
use vstd::bits::{lemma_u128_shr_is_div, lemma_u64_shl_is_mul, lemma_u64_shr_is_div};
use vstd::prelude::*;
use vstd::std_specs::bits::u64_trailing_zeros;
use vstd::wrapping::i64_specs;

verus! {

/// With the powers of two of both numbers known, the greatest common divisor
/// is the smaller power times the greatest common divisor of the odd parts.
pub proof fn lemma_gcd_common_twos(a: nat, za: nat, a1: nat, b: nat, zb: nat, b1: nat, k: nat)
    requires
        odd_part(a, za, a1),
        odd_part(b, zb, b1),
        k == if za < zb { za } else { zb },
    ensures
        gcd(a, b) == pow2(k) * gcd(a1, b1),
        gcd(a, b1) == gcd(a1, b1),
{
    lemma_gcd_drop_pow2(za, a1, b1);
    let ra = (za - k) as nat;
    let rb = (zb - k) as nat;
    lemma_pow2_adds(k, ra);
    lemma_pow2_adds(k, rb);
    let aa = pow2(ra) * a1;
    let bb = pow2(rb) * b1;
    assert(a == pow2(k) * aa) by (nonlinear_arith)
        requires
            a == pow2(za) * a1,
            pow2(za) == pow2(k) * pow2(ra),
            aa == pow2(ra) * a1,
    ;
    assert(b == pow2(k) * bb) by (nonlinear_arith)
        requires
            b == pow2(zb) * b1,
            pow2(zb) == pow2(k) * pow2(rb),
            bb == pow2(rb) * b1,
    ;
    lemma_gcd_scale(pow2(k), aa, bb);
    lemma_gcd_drop_pow2(ra, a1, b1);
    lemma_gcd_drop_pow2(rb, b1, a1);
    lemma_gcd_symmetric(aa, bb);
    lemma_gcd_symmetric(a1, b1);
    lemma2_to64();
    if k == za {
        assert(aa == a1) by (nonlinear_arith)
            requires
                aa == pow2(ra) * a1,
                pow2(ra) == 1,
        ;
    } else {
        assert(bb == b1) by (nonlinear_arith)
            requires
                bb == pow2(rb) * b1,
                pow2(rb) == 1,
        ;
    }
}

/// One subtraction step on positive numbers keeps the greatest common
/// divisor.
pub proof fn lemma_gcd_subtract(a: nat, b: nat)
    requires
        a > 0,
        b > 0,
    ensures
        a >= b ==> gcd((a - b) as nat, b) == gcd(a, b),
        a < b ==> gcd((b - a) as nat, a) == gcd(a, b),
{
    if a < b {
        lemma_gcd_symmetric((b - a) as nat, a);
    }
}

/// The absolute difference of two unsigned integers, twice: as a magnitude
/// and as the value whose trailing zeros are counted next.
fn absdiff_unsigned(x: u64, y: u64) -> (r: (u64, u64))
    ensures
        r.0 == abs(x - y),
        r.1 == r.0,
{
    let d = if x >= y { x - y } else { y - x };
    (d, d)
}

/// The greatest common divisor of two unsigned 64-bit integers.
pub fn gcd_u64(a: u64, b: u64) -> (g: u64)
    ensures
        g == gcd(a as nat, b as nat),
{
    if a == 0 {
        return b;
    }
    if b == 0 {
        return a;
    }
    let ghost a0 = a as nat;
    let ghost b0 = b as nat;
    let mut a: u64 = a;
    let mut za: u32 = a.trailing_zeros();
    let zb: u32 = b.trailing_zeros();
    let k: u32 = if za < zb { za } else { zb };
    proof {
        lemma_u64_trailing_zeros(a);
        lemma_u64_trailing_zeros(b);
        lemma_gcd_common_twos(
            a0,
            za as nat,
            (a >> za) as nat,
            b0,
            zb as nat,
            (b >> zb) as nat,
            k as nat,
        );
    }
    let mut b: u64 = b >> zb;
    while a != 0
        invariant
            b % 2 == 1,
            k < 64,
            a != 0 ==> za == u64_trailing_zeros(a),
            pow2(k as nat) * gcd(a as nat, b as nat) == gcd(a0, b0),
        decreases a + b,
    {
        proof {
            lemma_u64_trailing_zeros(a);
            lemma_gcd_drop_pow2(za as nat, (a >> za) as nat, b as nat);
            lemma_gcd_subtract((a >> za) as nat, b as nat);
            lemma_u64_shr_is_div(a, za as u64);
            lemma_pow2_pos(za as nat);
            assert(a as nat / pow2(za as nat) <= a) by (nonlinear_arith)
                requires
                    pow2(za as nat) > 0,
            ;
        }
        a = a >> za;
        let (absd, diff) = absdiff_unsigned(a, b);
        za = diff.trailing_zeros();
        b = if a < b { a } else { b };
        a = absd;
    }
    proof {
        lemma_gcd_bounds(a0, b0);
        assert(b * pow2(k as nat) == pow2(k as nat) * b) by (nonlinear_arith);
        lemma_u64_shl_is_mul(b, k as u64);
    }
    b << k
}

/// The difference of two signed integers, wrapped to 64 bits, with its
/// magnitude.
fn absdiff_signed(x: i64, y: i64) -> (r: (u64, i64))
    ensures
        r.1 == i64_specs::wrapping_sub(x, y),
        r.0 == abs(r.1 as int),
{
    let d = x.wrapping_sub(y);
    (d.unsigned_abs(), d)
}

/// Whether the greatest common divisor of `a` and `b` fits in an `i64`: it
/// is `2^63` exactly when both are 0 or `i64::MIN` and at least one is
/// `i64::MIN`.
pub open spec fn gcd_fits_i64(a: i64, b: i64) -> bool {
    !(a == i64::MIN && (b == 0 || b == i64::MIN)) && !(b == i64::MIN && a == 0)
}

/// The greatest common divisor of two signed 64-bit integers: that of their
/// absolute values.
pub fn gcd_i64(a: i64, b: i64) -> (g: i64)
    requires
        gcd_fits_i64(a, b),
    ensures
        g >= 0,
        g == gcd(abs(a as int), abs(b as int)),
    decreases (if a == i64::MIN { 1nat } else { 0nat }),
{
    if a == 0 {
        return b.checked_abs().expect("gcd overflow: cannot compute |b|");
    }
    if b == 0 {
        return a.checked_abs().expect("gcd overflow: cannot compute |a|");
    }
    if a == i64::MIN {
        proof {
            lemma_gcd_symmetric(abs(a as int), abs(b as int));
        }
        return gcd_i64(b, a);
    }
    _gcd_i64(a, b)
}

/// The binary algorithm on the magnitudes of two nonzero signed integers,
/// the first of which is not `i64::MIN`.
fn _gcd_i64(ain: i64, bin: i64) -> (g: i64)
    requires
        ain != 0,
        bin != 0,
        ain != i64::MIN,
    ensures
        g > 0,
        g == gcd(abs(ain as int), abs(bin as int)),
{
    let ghost a0 = abs(ain as int);
    let ghost b0 = abs(bin as int);
    let mut a: u64 = ain.unsigned_abs();
    let bmag: u64 = bin.unsigned_abs();
    let zb: u32 = bmag.trailing_zeros();
    let mut za: u32 = a.trailing_zeros();
    let k: u32 = if za < zb { za } else { zb };
    proof {
        lemma_u64_trailing_zeros(a);
        lemma_u64_trailing_zeros(bmag);
        lemma_gcd_common_twos(
            a0,
            za as nat,
            (a >> za) as nat,
            b0,
            zb as nat,
            (bmag >> zb) as nat,
            k as nat,
        );
        lemma_u64_shr_is_div(bmag, zb as u64);
        lemma_pow2_pos(zb as nat);
        lemma2_to64();
        if bmag > i64::MAX {
            assert(bmag == 0x8000_0000_0000_0000u64);
            assert(zb > 0) by {
                if zb == 0 {
                    assert((bmag >> 0u32) % 2 == 0) by (bit_vector)
                        requires
                            bmag == 0x8000_0000_0000_0000u64,
                    ;
                }
            }
            lemma_pow2_unfold(zb as nat);
        }
        assert(bmag as nat / pow2(zb as nat) <= i64::MAX) by (nonlinear_arith)
            requires
                bmag <= i64::MAX || (bmag == 0x8000_0000_0000_0000u64 && pow2(zb as nat) >= 2),
                pow2(zb as nat) > 0,
        ;
    }
    let mut b: u64 = bmag >> zb;
    while a != 0
        invariant
            b % 2 == 1,
            k < 64,
            a <= i64::MAX,
            b <= i64::MAX,
            a != 0 ==> za == u64_trailing_zeros(a),
            pow2(k as nat) * gcd(a as nat, b as nat) == gcd(a0, b0),
        decreases a + b,
    {
        proof {
            lemma_u64_trailing_zeros(a);
            lemma_gcd_drop_pow2(za as nat, (a >> za) as nat, b as nat);
            lemma_gcd_subtract((a >> za) as nat, b as nat);
            lemma_u64_shr_is_div(a, za as u64);
            lemma_pow2_pos(za as nat);
            assert(a as nat / pow2(za as nat) <= a) by (nonlinear_arith)
                requires
                    pow2(za as nat) > 0,
            ;
        }
        a = a >> za;
        let (absd, _diff) = absdiff_signed(a as i64, b as i64);
        za = absd.trailing_zeros();
        b = if a < b { a } else { b };
        a = absd;
    }
    proof {
        lemma_gcd_bounds(a0, b0);
        assert(b * pow2(k as nat) == pow2(k as nat) * b) by (nonlinear_arith);
        lemma_u64_shl_is_mul(b, k as u64);
    }
    (b << k) as i64
}

/// The greatest common divisor of two unsigned 128-bit integers.
pub fn gcd_u128(a: u128, b: u128) -> (g: u128)
    ensures
        g == gcd(a as nat, b as nat),
{
    if a == 0 {
        return b;
    }
    if b == 0 {
        return a;
    }
    let ghost a0 = a as nat;
    let ghost b0 = b as nat;
    let mut a: u128 = a;
    let mut za: u32 = a.trailing_zeros();
    let zb: u32 = b.trailing_zeros();
    let k: u32 = if za < zb { za } else { zb };
    proof {
        lemma_u128_odd_part(a, za);
        lemma_u128_odd_part(b, zb);
        lemma_gcd_common_twos(
            a0,
            za as nat,
            (a >> za) as nat,
            b0,
            zb as nat,
            (b >> zb) as nat,
            k as nat,
        );
    }
    let mut b: u128 = b >> zb;
    while a != 0
        invariant
            b % 2 == 1,
            k < 128,
            a != 0 ==> za < 128 && a as nat % pow2(za as nat) == 0 && (a as nat / pow2(
                za as nat,
            )) % 2 == 1,
            pow2(k as nat) * gcd(a as nat, b as nat) == gcd(a0, b0),
        decreases a + b,
    {
        proof {
            lemma_u128_odd_part(a, za);
            lemma_gcd_drop_pow2(za as nat, (a >> za) as nat, b as nat);
            lemma_gcd_subtract((a >> za) as nat, b as nat);
        }
        a = a >> za;
        let (absd, diff) = if a >= b {
            (a - b, a - b)
        } else {
            (b - a, b - a)
        };
        za = diff.trailing_zeros();
        b = if a < b { a } else { b };
        a = absd;
    }
    proof {
        lemma_gcd_bounds(a0, b0);
        assert(b * pow2(k as nat) == pow2(k as nat) * b) by (nonlinear_arith);
        lemma_u128_shl_is_mul(b, k as u128);
    }
    b << k
}

/// Whether the greatest common divisor of `a` and `b` fits in an `i128`: it
/// is `2^127` exactly when both are 0 or `i128::MIN` and at least one is
/// `i128::MIN`.
pub open spec fn gcd_fits_i128(a: i128, b: i128) -> bool {
    !(a == i128::MIN && (b == 0 || b == i128::MIN)) && !(b == i128::MIN && a == 0)
}

/// The greatest common divisor of two signed 128-bit integers: that of their
/// absolute values.
pub fn gcd_i128(a: i128, b: i128) -> (g: i128)
    requires
        gcd_fits_i128(a, b),
    ensures
        g >= 0,
        g == gcd(abs(a as int), abs(b as int)),
    decreases (if a == i128::MIN { 1nat } else { 0nat }),
{
    if a == 0 {
        return b.checked_abs().expect("gcd overflow: cannot compute |b|");
    }
    if b == 0 {
        return a.checked_abs().expect("gcd overflow: cannot compute |a|");
    }
    if a == i128::MIN {
        proof {
            lemma_gcd_symmetric(abs(a as int), abs(b as int));
        }
        return gcd_i128(b, a);
    }
    _gcd_i128(a, b)
}

/// The binary algorithm on the magnitudes of two nonzero signed integers,
/// the first of which is not `i128::MIN`.
fn _gcd_i128(ain: i128, bin: i128) -> (g: i128)
    requires
        ain != 0,
        bin != 0,
        ain != i128::MIN,
    ensures
        g > 0,
        g == gcd(abs(ain as int), abs(bin as int)),
{
    let ghost a0 = abs(ain as int);
    let ghost b0 = abs(bin as int);
    let mut a: u128 = ain.unsigned_abs();
    let bmag: u128 = bin.unsigned_abs();
    let zb: u32 = bmag.trailing_zeros();
    let mut za: u32 = a.trailing_zeros();
    let k: u32 = if za < zb { za } else { zb };
    proof {
        lemma_u128_odd_part(a, za);
        lemma_u128_odd_part(bmag, zb);
        lemma_gcd_common_twos(
            a0,
            za as nat,
            (a >> za) as nat,
            b0,
            zb as nat,
            (bmag >> zb) as nat,
            k as nat,
        );
        lemma_u128_shr_is_div(bmag, zb as u128);
        lemma_pow2_pos(zb as nat);
        lemma2_to64();
        if bmag > i128::MAX {
            if zb == 0 {
                assert(false) by {
                    assert(pow2(0) == 1);
                    assert(bmag as nat / 1 == bmag);
                }
            }
            lemma_pow2_unfold(zb as nat);
        }
        assert(bmag as nat / pow2(zb as nat) <= i128::MAX) by (nonlinear_arith)
            requires
                bmag <= i128::MAX || (bmag == 0x8000_0000_0000_0000_0000_0000_0000_0000u128
                    && pow2(zb as nat) >= 2),
                pow2(zb as nat) > 0,
        ;
    }
    let mut b: u128 = bmag >> zb;
    while a != 0
        invariant
            b % 2 == 1,
            k < 128,
            a <= i128::MAX,
            b <= i128::MAX,
            a != 0 ==> za < 128 && a as nat % pow2(za as nat) == 0 && (a as nat / pow2(
                za as nat,
            )) % 2 == 1,
            pow2(k as nat) * gcd(a as nat, b as nat) == gcd(a0, b0),
        decreases a + b,
    {
        proof {
            lemma_u128_odd_part(a, za);
            lemma_gcd_drop_pow2(za as nat, (a >> za) as nat, b as nat);
            lemma_gcd_subtract((a >> za) as nat, b as nat);
        }
        a = a >> za;
        let (absd, diff) = if a >= b {
            (a - b, a - b)
        } else {
            (b - a, b - a)
        };
        za = diff.trailing_zeros();
        b = if a < b { a } else { b };
        a = absd;
    }
    proof {
        lemma_gcd_bounds(a0, b0);
        assert(b * pow2(k as nat) == pow2(k as nat) * b) by (nonlinear_arith);
        lemma_u128_shl_is_mul(b, k as u128);
    }
    (b << k) as i128
}

} // verus!
