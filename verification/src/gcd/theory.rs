//! The greatest common divisor of two natural numbers and the facts about it
//! that the implementations rest on.

use vstd::arithmetic::power2::{lemma2_to64, lemma_pow2_unfold, pow2};
use vstd::prelude::*;

verus! {

/// `d` divides `n`: `n` is a multiple of `d`. Every number divides 0, and 0
/// divides only itself.
pub open spec fn divides(d: nat, n: nat) -> bool {
    exists|k: nat| n == #[trigger] (k * d)
}

/// The greatest common divisor of `a` and `b`, by repeated subtraction of the
/// smaller from the larger. `gcd(a, 0) == a`, so `gcd(0, 0) == 0`.
pub open spec fn gcd(a: nat, b: nat) -> nat
    decreases a + b,
{
    if a == 0 {
        b
    } else if b == 0 {
        a
    } else if a >= b {
        gcd((a - b) as nat, b)
    } else {
        gcd(a, (b - a) as nat)
    }
}

/// The absolute value of an integer.
pub open spec fn abs(x: int) -> nat {
    if x < 0 {
        (-x) as nat
    } else {
        x as nat
    }
}

/// Every number divides itself and 0, and 1 divides every number.
pub proof fn lemma_divides_basics(n: nat)
    ensures
        divides(n, n),
        divides(n, 0),
        divides(1, n),
{
    assert(n == 1 * n);
    assert(0 == 0 * n);
    assert(n == n * 1);
}

/// A divisor of two numbers divides their sum.
pub proof fn lemma_divides_sum(d: nat, a: nat, b: nat)
    requires
        divides(d, a),
        divides(d, b),
    ensures
        divides(d, a + b),
{
    let ka = choose|k: nat| a == #[trigger] (k * d);
    let kb = choose|k: nat| b == #[trigger] (k * d);
    assert(a + b == (ka + kb) * d) by (nonlinear_arith)
        requires
            a == ka * d,
            b == kb * d,
    ;
}

/// A divisor of two numbers divides their difference.
pub proof fn lemma_divides_difference(d: nat, a: nat, b: nat)
    requires
        divides(d, a),
        divides(d, b),
        a >= b,
    ensures
        divides(d, (a - b) as nat),
{
    let ka = choose|k: nat| a == #[trigger] (k * d);
    let kb = choose|k: nat| b == #[trigger] (k * d);
    if d == 0 {
        assert(ka * d == 0 && kb * d == 0) by (nonlinear_arith)
            requires
                d == 0,
        ;
        assert(a - b == 0 * d);
    } else {
        assert(ka >= kb && a - b == (ka - kb) * d) by (nonlinear_arith)
            requires
                a == ka * d,
                b == kb * d,
                a >= b,
                d > 0,
        ;
        let k = (ka - kb) as nat;
        assert(a - b == k * d);
    }
}

/// A divisor of a number divides its multiples.
pub proof fn lemma_divides_product(d: nat, a: nat, c: nat)
    requires
        divides(d, a),
    ensures
        divides(d, c * a),
        divides(d, a * c),
{
    let ka = choose|k: nat| a == #[trigger] (k * d);
    assert(c * a == (c * ka) * d && a * c == (c * ka) * d) by (nonlinear_arith)
        requires
            a == ka * d,
    ;
}

/// A divisor of a positive number is positive and no larger than it.
pub proof fn lemma_divisor_bound(d: nat, n: nat)
    requires
        divides(d, n),
        n > 0,
    ensures
        0 < d <= n,
{
    let k = choose|k: nat| n == #[trigger] (k * d);
    assert(0 < d <= n) by (nonlinear_arith)
        requires
            n == k * d,
            n > 0,
    ;
}

/// Two natural numbers that divide each other are equal.
pub proof fn lemma_divides_antisymmetric(x: nat, y: nat)
    requires
        divides(x, y),
        divides(y, x),
    ensures
        x == y,
{
    if x == 0 {
        let k = choose|k: nat| y == #[trigger] (k * x);
        assert(k * x == 0) by (nonlinear_arith)
            requires
                x == 0,
        ;
    } else if y == 0 {
        let k = choose|k: nat| x == #[trigger] (k * y);
        assert(k * y == 0) by (nonlinear_arith)
            requires
                y == 0,
        ;
    } else {
        lemma_divisor_bound(x, y);
        lemma_divisor_bound(y, x);
    }
}

/// The greatest common divisor is a common divisor.
pub proof fn lemma_gcd_divides(a: nat, b: nat)
    ensures
        divides(gcd(a, b), a),
        divides(gcd(a, b), b),
    decreases a + b,
{
    if a == 0 {
        lemma_divides_basics(b);
    } else if b == 0 {
        lemma_divides_basics(a);
    } else if a >= b {
        let c = (a - b) as nat;
        lemma_gcd_divides(c, b);
        lemma_divides_sum(gcd(c, b), c, b);
    } else {
        let c = (b - a) as nat;
        lemma_gcd_divides(a, c);
        lemma_divides_sum(gcd(a, c), a, c);
    }
}

/// Every common divisor divides the greatest common divisor.
pub proof fn lemma_gcd_greatest(a: nat, b: nat, d: nat)
    requires
        divides(d, a),
        divides(d, b),
    ensures
        divides(d, gcd(a, b)),
    decreases a + b,
{
    if a == 0 || b == 0 {
    } else if a >= b {
        lemma_divides_difference(d, a, b);
        lemma_gcd_greatest((a - b) as nat, b, d);
    } else {
        lemma_divides_difference(d, b, a);
        lemma_gcd_greatest(a, (b - a) as nat, d);
    }
}

/// A common divisor that every common divisor divides is the greatest
/// common divisor.
pub proof fn lemma_gcd_unique(a: nat, b: nat, g: nat)
    requires
        divides(g, a),
        divides(g, b),
        forall|d: nat| divides(d, a) && divides(d, b) ==> #[trigger] divides(d, g),
    ensures
        g == gcd(a, b),
{
    lemma_gcd_divides(a, b);
    lemma_gcd_greatest(a, b, g);
    assert(divides(gcd(a, b), g));
    lemma_divides_antisymmetric(g, gcd(a, b));
}

/// The greatest common divisor does not depend on the order of its arguments.
pub proof fn lemma_gcd_symmetric(a: nat, b: nat)
    ensures
        gcd(a, b) == gcd(b, a),
{
    lemma_gcd_divides(a, b);
    lemma_gcd_divides(b, a);
    lemma_gcd_greatest(a, b, gcd(b, a));
    lemma_gcd_greatest(b, a, gcd(a, b));
    lemma_divides_antisymmetric(gcd(a, b), gcd(b, a));
}

/// The greatest common divisor is positive unless both numbers are 0, and is
/// no larger than either positive argument.
pub proof fn lemma_gcd_bounds(a: nat, b: nat)
    ensures
        a > 0 || b > 0 ==> gcd(a, b) > 0,
        a > 0 ==> gcd(a, b) <= a,
        b > 0 ==> gcd(a, b) <= b,
        gcd(a, b) == 0 <==> a == 0 && b == 0,
{
    lemma_gcd_divides(a, b);
    if a > 0 {
        lemma_divisor_bound(gcd(a, b), a);
    }
    if b > 0 {
        lemma_divisor_bound(gcd(a, b), b);
    }
}

/// A common factor can be taken out of the greatest common divisor.
pub proof fn lemma_gcd_scale(c: nat, a: nat, b: nat)
    ensures
        gcd(c * a, c * b) == c * gcd(a, b),
    decreases a + b,
{
    if c == 0 {
        assert(c * a == 0 && c * b == 0 && c * gcd(a, b) == 0) by (nonlinear_arith)
            requires
                c == 0,
        ;
    } else if a == 0 {
        assert(c * a == 0) by (nonlinear_arith)
            requires
                a == 0,
        ;
    } else if b == 0 {
        assert(c * b == 0) by (nonlinear_arith)
            requires
                b == 0,
        ;
        assert(c * a > 0) by (nonlinear_arith)
            requires
                c > 0,
                a > 0,
        ;
    } else if a >= b {
        let d = (a - b) as nat;
        lemma_gcd_scale(c, d, b);
        assert(c * a >= c * b && c * a - c * b == c * d && c * b > 0) by (nonlinear_arith)
            requires
                c > 0,
                a >= b,
                b > 0,
                d == a - b,
        ;
    } else {
        let d = (b - a) as nat;
        lemma_gcd_scale(c, a, d);
        assert(c * a < c * b && c * b - c * a == c * d && c * a > 0) by (nonlinear_arith)
            requires
                c > 0,
                a < b,
                a > 0,
                d == b - a,
        ;
    }
}

/// An odd divisor of twice a number divides the number.
pub proof fn lemma_odd_divisor_of_double(d: nat, a: nat)
    requires
        divides(d, 2 * a),
        d % 2 == 1,
    ensures
        divides(d, a),
{
    let k = choose|k: nat| 2 * a == #[trigger] (k * d);
    let h = k / 2;
    let e = d / 2;
    let m = a - k * e;
    assert(k == 2 * m) by (nonlinear_arith)
        requires
            2 * a == k * d,
            d == 2 * e + 1,
            m == a - k * e,
    ;
    assert(a == h * d) by (nonlinear_arith)
        requires
            2 * a == k * d,
            k == 2 * h,
    ;
}

/// A divisor of an odd number is odd.
pub proof fn lemma_divisor_of_odd(d: nat, b: nat)
    requires
        divides(d, b),
        b % 2 == 1,
    ensures
        d % 2 == 1,
{
    let k = choose|k: nat| b == #[trigger] (k * d);
    let e = d / 2;
    if d % 2 == 0 {
        let m = k * e;
        assert(b == 2 * m) by (nonlinear_arith)
            requires
                b == k * d,
                d == 2 * e,
                m == k * e,
        ;
    }
}

/// Against an odd number, a factor of two can be dropped.
pub proof fn lemma_gcd_halve(a: nat, b: nat)
    requires
        b % 2 == 1,
    ensures
        gcd(2 * a, b) == gcd(a, b),
{
    let g = gcd(2 * a, b);
    let h = gcd(a, b);
    lemma_gcd_divides(2 * a, b);
    lemma_gcd_divides(a, b);
    lemma_divisor_of_odd(g, b);
    lemma_odd_divisor_of_double(g, a);
    lemma_gcd_greatest(a, b, g);
    lemma_divides_product(h, a, 2);
    lemma_gcd_greatest(2 * a, b, h);
    lemma_divides_antisymmetric(g, h);
}

/// Against an odd number, any power of two can be dropped.
pub proof fn lemma_gcd_drop_pow2(z: nat, a: nat, b: nat)
    requires
        b % 2 == 1,
    ensures
        gcd(pow2(z) * a, b) == gcd(a, b),
    decreases z,
{
    if z == 0 {
        lemma2_to64();
        assert(pow2(0) * a == a) by (nonlinear_arith)
            requires
                pow2(0) == 1,
        ;
    } else {
        let p = pow2((z - 1) as nat);
        lemma_pow2_unfold(z);
        assert(pow2(z) * a == 2 * (p * a)) by (nonlinear_arith)
            requires
                pow2(z) == 2 * p,
        ;
        lemma_gcd_halve(p * a, b);
        lemma_gcd_drop_pow2((z - 1) as nat, a, b);
    }
}

/// One step of Euclid's algorithm keeps the greatest common divisor.
pub proof fn lemma_gcd_remainder(a: nat, b: nat)
    requires
        b > 0,
    ensures
        gcd(a, b) == gcd(b, a % b),
{
    let q = a / b;
    let r = a % b;
    let g = gcd(a, b);
    let h = gcd(b, r);
    assert(a == q * b + r) by (nonlinear_arith)
        requires
            b > 0,
            q == a / b,
            r == a % b,
    ;
    lemma_gcd_divides(a, b);
    lemma_gcd_divides(b, r);
    // g divides r = a - q * b
    lemma_divides_product(g, b, q);
    lemma_divides_difference(g, a, q * b);
    assert((a - q * b) as nat == r);
    lemma_gcd_greatest(b, r, g);
    // h divides a = q * b + r
    lemma_divides_product(h, b, q);
    lemma_divides_sum(h, q * b, r);
    lemma_gcd_greatest(a, b, h);
    lemma_divides_antisymmetric(g, h);
}

} // verus!
