//! The law of the impulse: it acts along the line of centres, where it
//! reverses the relative velocity, and leaves the velocities across the
//! line as they were.

use crate::elastic::ball::BallModel;
use crate::elastic::collision::{
    closing, collides, dist_sq, kick, lemma_product_bound, resolved_first, resolved_second,
};
use crate::elastic::fixed::lemma_trunc_div_rest;
use crate::elastic::laws::pairs::unsaturated;
use crate::gcd::theory::abs;
use vstd::prelude::*;

verus! {

/// The product of a number with a rest that is smaller than `d` is smaller
/// in magnitude than `d` times the number's magnitude, or 0.
proof fn lemma_rest_times(x: int, e: int, d: int)
    requires
        d > 0,
        -d < e < d,
    ensures
        -(d * abs(x)) <= x * e <= d * abs(x),
        x != 0 ==> -(d * abs(x)) < x * e < d * abs(x),
{
    let m = abs(x) as int;
    lemma_product_bound(x, e, m, d - 1);
    assert(m * (d - 1) == d * m - m) by (nonlinear_arith);
}

/// The velocity across the line of centres is kept. The change of a ball's
/// velocity has no part across the line of centres but what the rounding
/// of its two components leaves: measured against the line from `a` to
/// `b`, whose components are `dx` and `dy`, the cross product of the line
/// and the change is less than `|dx| + |dy|`, so that the velocity across
/// the line changes by less than one and a half units.
pub proof fn law_tangential_velocity_kept(a: BallModel, b: BallModel, m: int)
    requires
        a.valid(),
        b.valid(),
        collides(a, b),
    ensures
        ({
            let dx = b.x - a.x;
            let dy = b.y - a.y;
            -(abs(dx) + abs(dy)) < dx * kick(a, b, dy, m) - dy * kick(a, b, dx, m) < abs(dx) + abs(
                dy,
            )
        }),
{
    let dx = b.x - a.x;
    let dy = b.y - a.y;
    let c = closing(a, b);
    let den = dist_sq(a, b) * (a.mass + b.mass);
    assert(den > 0) by (nonlinear_arith)
        requires
            den == dist_sq(a, b) * (a.mass + b.mass),
            dist_sq(a, b) > 0,
            a.mass > 0,
            b.mass > 0,
    ;
    let nx = 2 * ((c * m) * dx);
    let ny = 2 * ((c * m) * dy);
    let kx = kick(a, b, dx, m);
    let ky = kick(a, b, dy, m);
    lemma_trunc_div_rest(nx, den);
    lemma_trunc_div_rest(ny, den);
    let ex = nx - kx * den;
    let ey = ny - ky * den;
    assert(dx * ny == dy * nx) by (nonlinear_arith)
        requires
            nx == 2 * ((c * m) * dx),
            ny == 2 * ((c * m) * dy),
    ;
    let cross = dx * ky - dy * kx;
    assert(den * cross == dy * ex - dx * ey) by (nonlinear_arith)
        requires
            cross == dx * ky - dy * kx,
            ex == nx - kx * den,
            ey == ny - ky * den,
            dx * ny == dy * nx,
    ;
    lemma_rest_times(dy, ex, den);
    lemma_rest_times(dx, ey, den);
    assert(dx != 0 || dy != 0) by {
        if dx == 0 && dy == 0 {
            assert(dist_sq(a, b) == 0);
        }
    }
    let room = abs(dx) + abs(dy);
    assert(den * abs(dy) + den * abs(dx) == den * room) by (nonlinear_arith)
        requires
            room == abs(dx) + abs(dy),
    ;
    assert(-room < cross < room) by (nonlinear_arith)
        requires
            -(den * room) < den * cross < den * room,
            den > 0,
    ;
}

/// The relative velocity along the line of centres is reversed. When a pair
/// is resolved and no velocity saturates, the closing speed changes its
/// sign and keeps its magnitude, up to the rounding of the four velocity
/// changes: the relative velocity times the line from `a` to `b`, whose
/// components are `dx` and `dy`, ends within `2 * (|dx| + |dy|)` of the
/// negative of what it was, so that the closing speed is within three
/// units of its reverse.
pub proof fn law_closing_speed_reversed(a: BallModel, b: BallModel)
    requires
        a.valid(),
        b.valid(),
        collides(a, b),
        unsaturated(a, b),
    ensures
        ({
            let a2 = resolved_first(a, b);
            let b2 = resolved_second(a, b);
            let dx = b.x - a.x;
            let dy = b.y - a.y;
            let after = (b2.vx - a2.vx) * dx + (b2.vy - a2.vy) * dy;
            -2 * (abs(dx) + abs(dy)) < after + closing(a, b) < 2 * (abs(dx) + abs(dy))
        }),
{
    let a2 = resolved_first(a, b);
    let b2 = resolved_second(a, b);
    let ma = a.mass;
    let mb = b.mass;
    let dx = b.x - a.x;
    let dy = b.y - a.y;
    let c = closing(a, b);
    let d2 = dist_sq(a, b);
    let den = d2 * (ma + mb);
    assert(den > 0) by (nonlinear_arith)
        requires
            den == d2 * (ma + mb),
            d2 > 0,
            ma > 0,
            mb > 0,
    ;
    let nax = 2 * ((c * mb) * dx);
    let nay = 2 * ((c * mb) * dy);
    let nbx = 2 * ((c * ma) * dx);
    let nby = 2 * ((c * ma) * dy);
    let kax = kick(a, b, dx, mb);
    let kay = kick(a, b, dy, mb);
    let kbx = kick(a, b, dx, ma);
    let kby = kick(a, b, dy, ma);
    lemma_trunc_div_rest(nax, den);
    lemma_trunc_div_rest(nay, den);
    lemma_trunc_div_rest(nbx, den);
    lemma_trunc_div_rest(nby, den);
    let eax = nax - kax * den;
    let eay = nay - kay * den;
    let ebx = nbx - kbx * den;
    let eby = nby - kby * den;
    let after = (b2.vx - a2.vx) * dx + (b2.vy - a2.vy) * dy;
    let sx = kax + kbx;
    let sy = kay + kby;
    assert(after == c - sx * dx - sy * dy) by (nonlinear_arith)
        requires
            after == ((b.vx - kbx) - (a.vx + kax)) * dx + ((b.vy - kby) - (a.vy + kay)) * dy,
            c == (b.vx - a.vx) * dx + (b.vy - a.vy) * dy,
            sx == kax + kbx,
            sy == kay + kby,
    ;
    // the exact changes add up to twice the closing speed along the line
    let xx = dx * dx;
    let yy = dy * dy;
    let mm = ma + mb;
    let t = 2 * c;
    assert((nax + nbx) * dx == (t * mm) * xx && (nay + nby) * dy == (t * mm) * yy)
        by (nonlinear_arith)
        requires
            nax == 2 * ((c * mb) * dx),
            nbx == 2 * ((c * ma) * dx),
            nay == 2 * ((c * mb) * dy),
            nby == 2 * ((c * ma) * dy),
            xx == dx * dx,
            yy == dy * dy,
            mm == ma + mb,
            t == 2 * c,
    ;
    assert((t * mm) * xx + (t * mm) * yy == t * den) by (nonlinear_arith)
        requires
            den == (xx + yy) * mm,
    ;
    let px = eax * dx;
    let qx = ebx * dx;
    let py = eay * dy;
    let qy = eby * dy;
    assert(den * (sx * dx) == (nax + nbx) * dx - px - qx) by (nonlinear_arith)
        requires
            sx == kax + kbx,
            eax == nax - kax * den,
            ebx == nbx - kbx * den,
            px == eax * dx,
            qx == ebx * dx,
    ;
    assert(den * (sy * dy) == (nay + nby) * dy - py - qy) by (nonlinear_arith)
        requires
            sy == kay + kby,
            eay == nay - kay * den,
            eby == nby - kby * den,
            py == eay * dy,
            qy == eby * dy,
    ;
    let sum = after + c;
    assert(den * sum == px + qx + py + qy) by (nonlinear_arith)
        requires
            sum == 2 * c - sx * dx - sy * dy,
            den * (sx * dx) + den * (sy * dy) == t * den - px - qx - py - qy,
            t == 2 * c,
    ;
    lemma_rest_times(dx, eax, den);
    lemma_rest_times(dx, ebx, den);
    lemma_rest_times(dy, eay, den);
    lemma_rest_times(dy, eby, den);
    assert(px == dx * eax && qx == dx * ebx && py == dy * eay && qy == dy * eby)
        by (nonlinear_arith)
        requires
            px == eax * dx,
            qx == ebx * dx,
            py == eay * dy,
            qy == eby * dy,
    ;
    assert(dx != 0 || dy != 0) by {
        if dx == 0 && dy == 0 {
            assert(d2 == 0);
        }
    }
    let room = abs(dx) + abs(dy);
    assert(2 * (den * abs(dx)) + 2 * (den * abs(dy)) == den * (2 * room)) by (nonlinear_arith)
        requires
            room == abs(dx) + abs(dy),
    ;
    assert(-(2 * room) < sum < 2 * room) by (nonlinear_arith)
        requires
            -(den * (2 * room)) < den * sum < den * (2 * room),
            den > 0,
    ;
}

} // verus!
