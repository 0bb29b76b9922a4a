//! Euclid's algorithm by remainders, and the count of coprime pairs that
//! estimates pi.

use crate::gcd::binary::gcd_i64;
use crate::gcd::theory::{abs, gcd, lemma_gcd_remainder};
use vstd::prelude::*;

verus! {

/// The remainder of a signed division as the machine computes it: it has
/// the sign of the dividend, and its magnitude is the remainder of the
/// magnitudes.
pub open spec fn signed_remainder(a: int, b: int) -> int {
    if a >= 0 {
        (abs(a) % abs(b)) as int
    } else {
        -((abs(a) % abs(b)) as int)
    }
}

/// What Euclid's algorithm leaves on signed integers: the greatest common
/// divisor of the magnitudes, with a sign that depends on the remainders
/// on the way.
pub open spec fn signed_euclid(a: int, b: int) -> int
    decreases abs(b),
{
    if b == 0 {
        a
    } else {
        signed_euclid(b, signed_remainder(a, b))
    }
}

/// The magnitude of what Euclid's algorithm leaves on signed integers is the
/// greatest common divisor of their magnitudes.
pub proof fn lemma_signed_euclid_magnitude(a: int, b: int)
    ensures
        abs(signed_euclid(a, b)) == gcd(abs(a), abs(b)),
    decreases abs(b),
{
    if b != 0 {
        lemma_gcd_remainder(abs(a), abs(b));
        lemma_signed_euclid_magnitude(b, signed_remainder(a, b));
    }
}

/// Machine integers, signed and unsigned, as far as Euclid's algorithm
/// needs them.
pub trait Integer: Copy {
    /// The number that the integer stands for.
    spec fn value(self) -> int;

    /// The least number of the type: 0 for an unsigned type.
    spec fn lowest() -> int;

    /// Every number of the type is at least `lowest()`; in a signed type it
    /// is also less than the negative of `lowest()`.
    proof fn lemma_range(self)
        ensures
            Self::lowest() <= 0,
            Self::lowest() <= self.value(),
            Self::lowest() < 0 ==> self.value() < -Self::lowest(),
    ;

    /// Whether the integer is 0.
    fn is_zero(self) -> (r: bool)
        ensures
            r == (self.value() == 0),
    ;

    /// The remainder of the division by a nonzero `rhs`, with the sign of
    /// `self`. The division of the least number of a signed type by -1
    /// overflows.
    fn remainder(self, rhs: Self) -> (r: Self)
        requires
            rhs.value() != 0,
            !(self.value() == Self::lowest() && rhs.value() == -1),
        ensures
            r.value() == signed_remainder(self.value(), rhs.value()),
    ;
}

impl Integer for u8 {
    open spec fn value(self) -> int {
        self as int
    }

    open spec fn lowest() -> int {
        0
    }

    proof fn lemma_range(self) {
    }

    fn is_zero(self) -> (r: bool) {
        self == 0
    }

    fn remainder(self, rhs: Self) -> (r: Self) {
        self % rhs
    }
}

impl Integer for u16 {
    open spec fn value(self) -> int {
        self as int
    }

    open spec fn lowest() -> int {
        0
    }

    proof fn lemma_range(self) {
    }

    fn is_zero(self) -> (r: bool) {
        self == 0
    }

    fn remainder(self, rhs: Self) -> (r: Self) {
        self % rhs
    }
}

impl Integer for u32 {
    open spec fn value(self) -> int {
        self as int
    }

    open spec fn lowest() -> int {
        0
    }

    proof fn lemma_range(self) {
    }

    fn is_zero(self) -> (r: bool) {
        self == 0
    }

    fn remainder(self, rhs: Self) -> (r: Self) {
        self % rhs
    }
}

impl Integer for u64 {
    open spec fn value(self) -> int {
        self as int
    }

    open spec fn lowest() -> int {
        0
    }

    proof fn lemma_range(self) {
    }

    fn is_zero(self) -> (r: bool) {
        self == 0
    }

    fn remainder(self, rhs: Self) -> (r: Self) {
        self % rhs
    }
}

impl Integer for u128 {
    open spec fn value(self) -> int {
        self as int
    }

    open spec fn lowest() -> int {
        0
    }

    proof fn lemma_range(self) {
    }

    fn is_zero(self) -> (r: bool) {
        self == 0
    }

    fn remainder(self, rhs: Self) -> (r: Self) {
        self % rhs
    }
}

impl Integer for usize {
    open spec fn value(self) -> int {
        self as int
    }

    open spec fn lowest() -> int {
        0
    }

    proof fn lemma_range(self) {
    }

    fn is_zero(self) -> (r: bool) {
        self == 0
    }

    fn remainder(self, rhs: Self) -> (r: Self) {
        self % rhs
    }
}

impl Integer for i8 {
    open spec fn value(self) -> int {
        self as int
    }

    open spec fn lowest() -> int {
        i8::MIN as int
    }

    proof fn lemma_range(self) {
    }

    fn is_zero(self) -> (r: bool) {
        self == 0
    }

    fn remainder(self, rhs: Self) -> (r: Self) {
        proof {
            lemma_machine_remainder(self as int, rhs as int);
        }
        self % rhs
    }
}

impl Integer for i16 {
    open spec fn value(self) -> int {
        self as int
    }

    open spec fn lowest() -> int {
        i16::MIN as int
    }

    proof fn lemma_range(self) {
    }

    fn is_zero(self) -> (r: bool) {
        self == 0
    }

    fn remainder(self, rhs: Self) -> (r: Self) {
        proof {
            lemma_machine_remainder(self as int, rhs as int);
        }
        self % rhs
    }
}

impl Integer for i32 {
    open spec fn value(self) -> int {
        self as int
    }

    open spec fn lowest() -> int {
        i32::MIN as int
    }

    proof fn lemma_range(self) {
    }

    fn is_zero(self) -> (r: bool) {
        self == 0
    }

    fn remainder(self, rhs: Self) -> (r: Self) {
        proof {
            lemma_machine_remainder(self as int, rhs as int);
        }
        self % rhs
    }
}

impl Integer for i64 {
    open spec fn value(self) -> int {
        self as int
    }

    open spec fn lowest() -> int {
        i64::MIN as int
    }

    proof fn lemma_range(self) {
    }

    fn is_zero(self) -> (r: bool) {
        self == 0
    }

    fn remainder(self, rhs: Self) -> (r: Self) {
        proof {
            lemma_machine_remainder(self as int, rhs as int);
        }
        self % rhs
    }
}

impl Integer for i128 {
    open spec fn value(self) -> int {
        self as int
    }

    open spec fn lowest() -> int {
        i128::MIN as int
    }

    proof fn lemma_range(self) {
    }

    fn is_zero(self) -> (r: bool) {
        self == 0
    }

    fn remainder(self, rhs: Self) -> (r: Self) {
        proof {
            lemma_machine_remainder(self as int, rhs as int);
        }
        self % rhs
    }
}

impl Integer for isize {
    open spec fn value(self) -> int {
        self as int
    }

    open spec fn lowest() -> int {
        isize::MIN as int
    }

    proof fn lemma_range(self) {
    }

    fn is_zero(self) -> (r: bool) {
        self == 0
    }

    fn remainder(self, rhs: Self) -> (r: Self) {
        proof {
            lemma_machine_remainder(self as int, rhs as int);
        }
        self % rhs
    }
}

/// Whether Euclid's algorithm on `a` and `b` meets no division that
/// overflows: the least number of a signed type is never divided by -1. In
/// an unsigned type every pair is safe.
pub open spec fn euclid_safe<T: Integer>(a: T, b: T) -> bool {
    &&& !(a.value() == T::lowest() && b.value() == -1)
    &&& !(a.value() == -1 && b.value() == T::lowest())
}

/// What Euclid's algorithm leaves on numbers that are not negative is not
/// negative: it is their greatest common divisor.
pub proof fn lemma_signed_euclid_of_naturals(a: int, b: int)
    requires
        a >= 0,
        b >= 0,
    ensures
        signed_euclid(a, b) == gcd(abs(a), abs(b)),
    decreases abs(b),
{
    lemma_signed_euclid_magnitude(a, b);
    if b != 0 {
        lemma_signed_euclid_of_naturals(b, signed_remainder(a, b));
    }
}

/// The greatest common divisor of two integers of any width, by Euclid's
/// algorithm. Of unsigned integers, and of signed ones that are not
/// negative, the result is the greatest common divisor; of others it is the
/// greatest common divisor up to its sign, which follows the remainders.
pub fn gcd_euclidean<T: Integer>(a: T, b: T) -> (g: T)
    requires
        euclid_safe(a, b),
    ensures
        g.value() == signed_euclid(a.value(), b.value()),
        abs(g.value()) == gcd(abs(a.value()), abs(b.value())),
        a.value() >= 0 && b.value() >= 0 ==> g.value() == gcd(abs(a.value()), abs(b.value())),
{
    let ghost a0 = a.value();
    let ghost b0 = b.value();
    proof {
        lemma_signed_euclid_magnitude(a0, b0);
        if a0 >= 0 && b0 >= 0 {
            lemma_signed_euclid_of_naturals(a0, b0);
        }
    }
    let mut a = a;
    let mut b = b;
    while !b.is_zero()
        invariant
            euclid_safe(a, b),
            signed_euclid(a.value(), b.value()) == signed_euclid(a0, b0),
        decreases abs(b.value()),
    {
        let t = b;
        let r = a.remainder(b);
        proof {
            a.lemma_range();
            b.lemma_range();
            r.lemma_range();
            lemma_machine_remainder(a.value(), b.value());
            if b.value() == T::lowest() && T::lowest() < 0 && a.value() < 0 {
                // a remainder of -1 by the least number comes from -1 alone
                let low = abs(T::lowest());
                if abs(a.value()) < low {
                    vstd::arithmetic::div_mod::lemma_small_mod(abs(a.value()), low);
                } else {
                    vstd::arithmetic::div_mod::lemma_mod_self_0(low as int);
                }
            }
        }
        b = r;
        a = t;
    }
    a
}

/// Euclid's algorithm on signed 32-bit integers. The one division that
/// overflows, `i32::MIN` by -1, is met only from the two excluded inputs.
pub fn mygcd(a: i32, b: i32) -> (g: i32)
    requires
        !(a == i32::MIN && b == -1),
        !(a == -1 && b == i32::MIN),
    ensures
        g == signed_euclid(a as int, b as int),
        abs(g as int) == gcd(abs(a as int), abs(b as int)),
{
    let ghost a0 = a as int;
    let ghost b0 = b as int;
    let mut a = a;
    let mut b = b;
    proof {
        lemma_signed_euclid_magnitude(a0, b0);
    }
    while b != 0
        invariant
            !(a == i32::MIN && b == -1),
            !(a == -1 && b == i32::MIN),
            signed_euclid(a as int, b as int) == signed_euclid(a0, b0),
        decreases abs(b as int),
    {
        let tmp = b;
        proof {
            lemma_machine_remainder(a as int, b as int);
        }
        b = a % b;
        a = tmp;
    }
    a
}

/// The remainder that the machine computes, written with Euclidean
/// remainders of the operands, is `signed_remainder`.
proof fn lemma_machine_remainder(a: int, b: int)
    requires
        b != 0,
    ensures
        a >= 0 ==> a % b == signed_remainder(a, b),
        a < 0 ==> -((-a) % b) == signed_remainder(a, b),
        abs(signed_remainder(a, b)) < abs(b),
{
    let x = abs(a) as int;
    if b < 0 {
        lemma_remainder_of_negated(x, -b);
    }
}

/// The Euclidean remainder does not depend on the sign of the divisor.
proof fn lemma_remainder_of_negated(x: int, d: int)
    requires
        x >= 0,
        d > 0,
    ensures
        x % (-d) == x % d,
{
    assert(x % (-d) == x % d) by (nonlinear_arith)
        requires
            x >= 0,
            d > 0,
    ;
}

/// How many `b` in `1..=m` are coprime to `a`.
pub open spec fn coprime_upto(a: nat, m: nat) -> nat
    decreases m,
{
    if m == 0 {
        0
    } else {
        coprime_upto(a, (m - 1) as nat) + if gcd(a, m) == 1 {
            1nat
        } else {
            0nat
        }
    }
}

/// How many pairs `(a, b)` with `a` in `1..=rows` and `b` in `1..=n` are
/// coprime.
pub open spec fn coprime_pairs(rows: nat, n: nat) -> nat
    decreases rows,
{
    if rows == 0 {
        0
    } else {
        coprime_pairs((rows - 1) as nat, n) + coprime_upto(rows, n)
    }
}

/// There are no more coprime pairs than pairs.
pub proof fn lemma_coprime_counts_bounded(rows: nat, n: nat)
    ensures
        coprime_upto(rows, n) <= n,
        coprime_pairs(rows, n) <= rows * n,
    decreases rows + n,
{
    if n > 0 {
        lemma_coprime_counts_bounded(rows, (n - 1) as nat);
    }
    if rows > 0 {
        lemma_coprime_counts_bounded((rows - 1) as nat, n);
        if n > 0 {
            lemma_coprime_counts_bounded(rows, (n - 1) as nat);
        }
        assert((rows - 1) * n + n == rows * n) by (nonlinear_arith);
    } else {
        assert(rows * n == 0) by (nonlinear_arith)
            requires
                rows == 0,
        ;
    }
}

/// The number of coprime pairs among the `n * n` pairs of integers in
/// `1..=n`; none when `n` is not positive. Their share of all pairs tends
/// to `6 / pi^2`.
pub fn count_coprime_pairs(n: i64) -> (cnt: u128)
    ensures
        n <= 0 ==> cnt == 0,
        n > 0 ==> cnt == coprime_pairs(n as nat, n as nat),
        cnt <= n * n,
{
    let mut cnt: u128 = 0;
    if n <= 0 {
        assert(n * n >= 0) by (nonlinear_arith);
        return cnt;
    }
    let mut a: i64 = 0;
    while a < n
        invariant
            0 <= a <= n,
            cnt == coprime_pairs(a as nat, n as nat),
        decreases n - a,
    {
        a = a + 1;
        let mut b: i64 = 0;
        proof {
            lemma_coprime_counts_bounded((a - 1) as nat, n as nat);
            assert((a - 1) * n + n <= n * n && n * n <= 0x4000_0000_0000_0000_0000_0000_0000_0000)
                by (nonlinear_arith)
                requires
                    1 <= a <= n,
                    n <= 0x7fff_ffff_ffff_ffff,
            ;
        }
        while b < n
            invariant
                1 <= a <= n,
                0 <= b <= n,
                cnt == coprime_pairs((a - 1) as nat, n as nat) + coprime_upto(a as nat, b as nat),
                coprime_pairs((a - 1) as nat, n as nat) <= (a - 1) * n,
                (a - 1) * n + n <= 0x4000_0000_0000_0000_0000_0000_0000_0000,
            decreases n - b,
        {
            b = b + 1;
            proof {
                lemma_coprime_counts_bounded(a as nat, (b - 1) as nat);
            }
            if gcd_i64(a, b) == 1 {
                cnt += 1;
            }
        }
    }
    proof {
        lemma_coprime_counts_bounded(n as nat, n as nat);
    }
    cnt
}

} // verus!
