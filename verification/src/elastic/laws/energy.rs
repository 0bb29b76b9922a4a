//! The law of kinetic energy: the exact elastic impulse keeps the energy of
//! a pair, and the stored velocities differ from the exact ones by their
//! rounding alone.

use crate::elastic::ball::BallModel;
use crate::elastic::collision::{closing, collides, dist_sq, kick, resolved_first, resolved_second};
use crate::elastic::fixed::lemma_trunc_div_rest;
use crate::elastic::laws::pairs::unsaturated;
use crate::gcd::theory::abs;
use vstd::prelude::*;

verus! {

/// Twice the kinetic energy of a ball: its mass times the square of its
/// speed.
pub open spec fn energy_doubled(b: BallModel) -> int {
    b.mass * (b.vx * b.vx + b.vy * b.vy)
}

/// The room that rounding has in twice the kinetic energy of a ball with
/// the given velocity: each velocity component is rounded by less than one
/// unit.
pub open spec fn energy_tolerance(b: BallModel) -> int {
    b.mass * (2 * (abs(b.vx) + abs(b.vy)) + 2)
}

/// A number `w` whose `d`-fold is within `d` of `u` has a square whose
/// `d * d`-fold is within `d * d * (2 |w| + 1)` of the square of `u`.
proof fn lemma_square_near(d: int, w: int, u: int, e: int)
    requires
        d > 0,
        d * w == u - e,
        -d < e < d,
    ensures
        -((d * d) * (2 * abs(w) + 1)) < (d * d) * (w * w) - u * u < (d * d) * (2 * abs(w) + 1),
{
    let g = d * w;
    let m = abs(w) as int;
    let n = abs(e) as int;
    assert((d * d) * (w * w) == g * g) by (nonlinear_arith)
        requires
            g == d * w,
    ;
    assert(g * g - u * u == -(2 * (g * e)) - e * e) by (nonlinear_arith)
        requires
            g == u - e,
    ;
    assert(-((d * m) * n) <= g * e <= (d * m) * n) by (nonlinear_arith)
        requires
            g == d * w,
            d > 0,
            m == if w < 0 { -w } else { w },
            n == if e < 0 { -e } else { e },
    ;
    assert(0 <= e * e == n * n) by (nonlinear_arith)
        requires
            n == if e < 0 { -e } else { e },
    ;
    assert(2 * ((d * m) * n) + n * n < (d * d) * (2 * m + 1)) by (nonlinear_arith)
        requires
            0 <= n < d,
            0 <= m,
    ;
}

/// `m * (den * v + n)^2`, expanded.
proof fn lemma_expand_term(m: int, den: int, v: int, n: int)
    ensures
        m * ((den * v + n) * (den * v + n)) == (den * den) * (m * (v * v)) + 2 * (den * (m * (v
            * n))) + m * (n * n),
{
    let g = den * v;
    let gg = g * g;
    let gn = g * n;
    let nn = n * n;
    let vv = v * v;
    let vn = v * n;
    let a = den * den;
    assert((g + n) * (g + n) == gg + 2 * gn + nn) by (nonlinear_arith)
        requires
            gg == g * g,
            gn == g * n,
            nn == n * n,
    ;
    assert(m * (gg + 2 * gn + nn) == m * gg + 2 * (m * gn) + m * nn) by (nonlinear_arith);
    assert(gg == a * vv) by (nonlinear_arith)
        requires
            gg == g * g,
            g == den * v,
            a == den * den,
            vv == v * v,
    ;
    assert(m * (a * vv) == a * (m * vv)) by (nonlinear_arith);
    assert(gn == den * vn) by (nonlinear_arith)
        requires
            gn == g * n,
            g == den * v,
            vn == v * n,
    ;
    assert(m * (den * vn) == den * (m * vn)) by (nonlinear_arith);
}

/// `m * v * n` for the impulse `n = (t * o) * d`, regrouped.
proof fn lemma_mixed_term(m: int, o: int, t: int, v: int, d: int)
    by (nonlinear_arith)
    ensures
        m * (v * ((t * o) * d)) == (t * (m * o)) * (v * d),
{
}

/// `m * n * n` for the impulse `n = (t * o) * d`, regrouped.
proof fn lemma_square_term(m: int, o: int, t: int, d: int)
    ensures
        m * (((t * o) * d) * ((t * o) * d)) == ((t * t) * (m * o)) * (o * (d * d)),
{
    let n = (t * o) * d;
    let k = t * o;
    assert(n * n == (k * k) * (d * d)) by (nonlinear_arith)
        requires
            n == k * d,
    ;
    assert(k * k == (t * t) * (o * o)) by (nonlinear_arith)
        requires
            k == t * o,
    ;
    let tt = t * t;
    let dd = d * d;
    let oo = o * o;
    assert(m * ((tt * oo) * dd) == (tt * (m * o)) * (o * dd)) by (nonlinear_arith)
        requires
            oo == o * o,
    ;
}

/// The exact elastic impulse keeps the kinetic energy of a pair. With the
/// velocities after the exchange written as fractions over the common
/// denominator `den`, their numerators carry `den * den` times the energy
/// that the pair had before.
proof fn lemma_exact_energy(
    ma: int,
    mb: int,
    dx: int,
    dy: int,
    vax: int,
    vay: int,
    vbx: int,
    vby: int,
)
    ensures
        ({
            let c = (vbx - vax) * dx + (vby - vay) * dy;
            let den = (dx * dx + dy * dy) * (ma + mb);
            let uax = den * vax + 2 * ((c * mb) * dx);
            let uay = den * vay + 2 * ((c * mb) * dy);
            let ubx = den * vbx - 2 * ((c * ma) * dx);
            let uby = den * vby - 2 * ((c * ma) * dy);
            ma * (uax * uax) + ma * (uay * uay) + mb * (ubx * ubx) + mb * (uby * uby) == (den
                * den) * (ma * (vax * vax) + ma * (vay * vay) + mb * (vbx * vbx) + mb * (vby
                * vby))
        }),
{
    let c = (vbx - vax) * dx + (vby - vay) * dy;
    let d2 = dx * dx + dy * dy;
    let den = d2 * (ma + mb);
    let t = 2 * c;
    let ex = -dx;
    let ey = -dy;
    // the impulses, with the second ball's written against the reversed line
    let nax = (t * mb) * dx;
    let nay = (t * mb) * dy;
    let nbx = (t * ma) * ex;
    let nby = (t * ma) * ey;
    assert(nax == 2 * ((c * mb) * dx) && nay == 2 * ((c * mb) * dy)) by (nonlinear_arith)
        requires
            t == 2 * c,
            nax == (t * mb) * dx,
            nay == (t * mb) * dy,
    ;
    assert(nbx == -(2 * ((c * ma) * dx)) && nby == -(2 * ((c * ma) * dy))) by (nonlinear_arith)
        requires
            t == 2 * c,
            nbx == (t * ma) * ex,
            nby == (t * ma) * ey,
            ex == -dx,
            ey == -dy,
    ;
    let uax = den * vax + nax;
    let uay = den * vay + nay;
    let ubx = den * vbx + nbx;
    let uby = den * vby + nby;
    lemma_expand_term(ma, den, vax, nax);
    lemma_expand_term(ma, den, vay, nay);
    lemma_expand_term(mb, den, vbx, nbx);
    lemma_expand_term(mb, den, vby, nby);
    let q = t * (ma * mb);
    assert(t * (mb * ma) == q) by (nonlinear_arith)
        requires
            q == t * (ma * mb),
    ;
    lemma_mixed_term(ma, mb, t, vax, dx);
    lemma_mixed_term(ma, mb, t, vay, dy);
    lemma_mixed_term(mb, ma, t, vbx, ex);
    lemma_mixed_term(mb, ma, t, vby, ey);
    let m1 = ma * (vax * nax);
    let m2 = ma * (vay * nay);
    let m3 = mb * (vbx * nbx);
    let m4 = mb * (vby * nby);
    let mixed = m1 + m2 + m3 + m4;
    let inner = vax * dx + vay * dy + vbx * ex + vby * ey;
    assert(inner == -c) by (nonlinear_arith)
        requires
            inner == vax * dx + vay * dy + vbx * ex + vby * ey,
            c == (vbx - vax) * dx + (vby - vay) * dy,
            ex == -dx,
            ey == -dy,
    ;
    assert(mixed == q * inner) by (nonlinear_arith)
        requires
            mixed == m1 + m2 + m3 + m4,
            m1 == q * (vax * dx),
            m2 == q * (vay * dy),
            m3 == q * (vbx * ex),
            m4 == q * (vby * ey),
            inner == vax * dx + vay * dy + vbx * ex + vby * ey,
    ;
    let k = (t * t) * (ma * mb);
    assert((t * t) * (mb * ma) == k) by (nonlinear_arith)
        requires
            k == (t * t) * (ma * mb),
    ;
    lemma_square_term(ma, mb, t, dx);
    lemma_square_term(ma, mb, t, dy);
    lemma_square_term(mb, ma, t, ex);
    lemma_square_term(mb, ma, t, ey);
    let s1 = ma * (nax * nax);
    let s2 = ma * (nay * nay);
    let s3 = mb * (nbx * nbx);
    let s4 = mb * (nby * nby);
    let squares = s1 + s2 + s3 + s4;
    let xx = dx * dx;
    let yy = dy * dy;
    assert(ex * ex == xx && ey * ey == yy) by (nonlinear_arith)
        requires
            ex == -dx,
            ey == -dy,
            xx == dx * dx,
            yy == dy * dy,
    ;
    assert(squares == k * den) by (nonlinear_arith)
        requires
            squares == s1 + s2 + s3 + s4,
            s1 == k * (mb * xx),
            s2 == k * (mb * yy),
            s3 == k * (ma * xx),
            s4 == k * (ma * yy),
            den == (xx + yy) * (ma + mb),
    ;
    assert(2 * (den * mixed) + squares == 0) by (nonlinear_arith)
        requires
            mixed == q * inner,
            inner == -c,
            squares == k * den,
            t == 2 * c,
            q == t * (ma * mb),
            k == (t * t) * (ma * mb),
    ;
    let a = den * den;
    let e1 = ma * (vax * vax);
    let e2 = ma * (vay * vay);
    let e3 = mb * (vbx * vbx);
    let e4 = mb * (vby * vby);
    assert(a * e1 + a * e2 + a * e3 + a * e4 == a * (e1 + e2 + e3 + e4)) by (nonlinear_arith);
    assert(2 * (den * m1) + 2 * (den * m2) + 2 * (den * m3) + 2 * (den * m4) == 2 * (den * mixed))
        by (nonlinear_arith)
        requires
            mixed == m1 + m2 + m3 + m4,
    ;
}

/// One velocity component of one ball: `den * den` times its share of the
/// energy after the exchange is within the rounding's room of the share
/// that the exact impulse gives.
proof fn lemma_stored_component(m: int, den: int, w: int, u: int, e: int)
    requires
        m > 0,
        den > 0,
        den * w == u - e,
        -den < e < den,
    ensures
        -((den * den) * (m * (2 * abs(w) + 1))) < (den * den) * (m * (w * w)) - m * (u * u) < (den
            * den) * (m * (2 * abs(w) + 1)),
{
    lemma_square_near(den, w, u, e);
    let a = den * den;
    let sq = w * w;
    let uu = u * u;
    let r = 2 * abs(w) + 1;
    let x = a * sq - uu;
    let bound = a * r;
    assert(-(m * bound) < m * x < m * bound) by (nonlinear_arith)
        requires
            m > 0,
            -bound < x < bound,
    ;
    assert(m * x == a * (m * sq) - m * uu) by (nonlinear_arith)
        requires
            x == a * sq - uu,
    ;
    assert(m * bound == a * (m * r)) by (nonlinear_arith)
        requires
            bound == a * r,
    ;
}

/// Pairwise conservation of kinetic energy. When a pair is resolved and no
/// velocity saturates, twice the kinetic energy of the pair, `mass_a *
/// |velocity_a|^2 + mass_b * |velocity_b|^2`, changes by less than the room
/// that the rounding of the four velocity components has: the exact
/// impulse keeps the energy, and each stored component is within one unit
/// of the exact one.
pub proof fn law_energy_conserved(a: BallModel, b: BallModel)
    requires
        a.valid(),
        b.valid(),
        collides(a, b),
        unsaturated(a, b),
    ensures
        ({
            let a2 = resolved_first(a, b);
            let b2 = resolved_second(a, b);
            let before = energy_doubled(a) + energy_doubled(b);
            let after = energy_doubled(a2) + energy_doubled(b2);
            let room = energy_tolerance(a2) + energy_tolerance(b2);
            -room < after - before < room
        }),
{
    let a2 = resolved_first(a, b);
    let b2 = resolved_second(a, b);
    let ma = a.mass;
    let mb = b.mass;
    let dx = b.x - a.x;
    let dy = b.y - a.y;
    let c = closing(a, b);
    let den = dist_sq(a, b) * (ma + mb);
    assert(den > 0) by (nonlinear_arith)
        requires
            den == dist_sq(a, b) * (ma + mb),
            dist_sq(a, b) > 0,
            ma > 0,
            mb > 0,
    ;
    let nax = 2 * ((c * mb) * dx);
    let nay = 2 * ((c * mb) * dy);
    let nbx = 2 * ((c * ma) * dx);
    let nby = 2 * ((c * ma) * dy);
    let kax = kick(a, b, dx, mb);
    let kay = kick(a, b, dy, mb);
    let kbx = kick(a, b, dx, ma);
    let kby = kick(a, b, dy, ma);
    let wax = a.vx + kax;
    let way = a.vy + kay;
    let wbx = b.vx - kbx;
    let wby = b.vy - kby;
    assert(a2.vx == wax && a2.vy == way && b2.vx == wbx && b2.vy == wby);
    let uax = den * a.vx + nax;
    let uay = den * a.vy + nay;
    let ubx = den * b.vx - nbx;
    let uby = den * b.vy - nby;
    lemma_trunc_div_rest(nax, den);
    lemma_trunc_div_rest(nay, den);
    lemma_trunc_div_rest(nbx, den);
    lemma_trunc_div_rest(nby, den);
    let eax = nax - kax * den;
    let eay = nay - kay * den;
    let ebx = kbx * den - nbx;
    let eby = kby * den - nby;
    assert(den * wax == uax - eax) by (nonlinear_arith)
        requires
            wax == a.vx + kax,
            uax == den * a.vx + nax,
            eax == nax - kax * den,
    ;
    assert(den * way == uay - eay) by (nonlinear_arith)
        requires
            way == a.vy + kay,
            uay == den * a.vy + nay,
            eay == nay - kay * den,
    ;
    assert(den * wbx == ubx - ebx) by (nonlinear_arith)
        requires
            wbx == b.vx - kbx,
            ubx == den * b.vx - nbx,
            ebx == kbx * den - nbx,
    ;
    assert(den * wby == uby - eby) by (nonlinear_arith)
        requires
            wby == b.vy - kby,
            uby == den * b.vy - nby,
            eby == kby * den - nby,
    ;
    lemma_stored_component(ma, den, wax, uax, eax);
    lemma_stored_component(ma, den, way, uay, eay);
    lemma_stored_component(mb, den, wbx, ubx, ebx);
    lemma_stored_component(mb, den, wby, uby, eby);
    lemma_exact_energy(ma, mb, dx, dy, a.vx, a.vy, b.vx, b.vy);
    let aa = den * den;
    let s1 = ma * (wax * wax);
    let s2 = ma * (way * way);
    let s3 = mb * (wbx * wbx);
    let s4 = mb * (wby * wby);
    let r1 = ma * (2 * abs(wax) + 1);
    let r2 = ma * (2 * abs(way) + 1);
    let r3 = mb * (2 * abs(wbx) + 1);
    let r4 = mb * (2 * abs(wby) + 1);
    let e1 = ma * (a.vx * a.vx);
    let e2 = ma * (a.vy * a.vy);
    let e3 = mb * (b.vx * b.vx);
    let e4 = mb * (b.vy * b.vy);
    let before = energy_doubled(a) + energy_doubled(b);
    let after = energy_doubled(a2) + energy_doubled(b2);
    let room = energy_tolerance(a2) + energy_tolerance(b2);
    assert(before == e1 + e2 + e3 + e4) by (nonlinear_arith)
        requires
            before == ma * (a.vx * a.vx + a.vy * a.vy) + mb * (b.vx * b.vx + b.vy * b.vy),
            e1 == ma * (a.vx * a.vx),
            e2 == ma * (a.vy * a.vy),
            e3 == mb * (b.vx * b.vx),
            e4 == mb * (b.vy * b.vy),
    ;
    assert(after == s1 + s2 + s3 + s4) by (nonlinear_arith)
        requires
            after == ma * (wax * wax + way * way) + mb * (wbx * wbx + wby * wby),
            s1 == ma * (wax * wax),
            s2 == ma * (way * way),
            s3 == mb * (wbx * wbx),
            s4 == mb * (wby * wby),
    ;
    assert(room == r1 + r2 + r3 + r4) by (nonlinear_arith)
        requires
            room == ma * (2 * (abs(wax) + abs(way)) + 2) + mb * (2 * (abs(wbx) + abs(wby)) + 2),
            r1 == ma * (2 * abs(wax) + 1),
            r2 == ma * (2 * abs(way) + 1),
            r3 == mb * (2 * abs(wbx) + 1),
            r4 == mb * (2 * abs(wby) + 1),
    ;
    assert(aa * s1 + aa * s2 + aa * s3 + aa * s4 == aa * after) by (nonlinear_arith)
        requires
            after == s1 + s2 + s3 + s4,
    ;
    assert(aa * r1 + aa * r2 + aa * r3 + aa * r4 == aa * room) by (nonlinear_arith)
        requires
            room == r1 + r2 + r3 + r4,
    ;
    assert(-(aa * room) < aa * after - aa * before < aa * room);
    assert(-room < after - before < room) by (nonlinear_arith)
        requires
            -(aa * room) < aa * after - aa * before < aa * room,
            aa == den * den,
            den > 0,
    ;
}

} // verus!
