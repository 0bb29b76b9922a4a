//! When nothing saturates: pairs that are slow enough keep their velocities
//! within the limit, and pairs far enough from the limit of the coordinates
//! keep their positions within it.

use crate::elastic::ball::{BallModel, COORD_LIMIT, RADIUS_LIMIT, SPEED_LIMIT};
use crate::elastic::collision::{
    closing, collides, dist_sq, fine_distance, fine_overlap, kick, lemma_product_bound, push,
    GRAIN,
};
use crate::elastic::fixed::{lemma_trunc_div_bounds, trunc_div};
use crate::elastic::laws::pairs::unsaturated;
use crate::elastic::laws::separation::{lemma_fine_distance, unclamped};
use crate::gcd::theory::abs;
use vstd::prelude::*;

verus! {

/// A quotient rounded toward zero is no larger in magnitude than a bound
/// whose multiple by the divisor bounds the dividend.
proof fn lemma_trunc_div_within(n: int, d: int, bound: int)
    requires
        d > 0,
        bound >= 0,
        -(bound * d) <= n <= bound * d,
    ensures
        -bound <= trunc_div(n, d) <= bound,
{
    lemma_trunc_div_bounds(n, d);
    let q = trunc_div(n, d);
    assert(-bound <= q <= bound) by (nonlinear_arith)
        requires
            d > 0,
            bound >= 0,
            -(bound * d) <= n <= bound * d,
            n >= 0 ==> 0 <= q && q * d <= n,
            n <= 0 ==> q <= 0 && n <= q * d,
    ;
}

/// The change of a velocity component is at most three times the largest
/// component of the relative velocity.
pub proof fn lemma_kick_bound(a: BallModel, b: BallModel, d: int, m: int, speed: int)
    requires
        a.valid(),
        b.valid(),
        collides(a, b),
        d == b.x - a.x || d == b.y - a.y,
        m == a.mass || m == b.mass,
        -speed <= b.vx - a.vx <= speed,
        -speed <= b.vy - a.vy <= speed,
    ensures
        -3 * speed <= kick(a, b, d, m) <= 3 * speed,
{
    let dx = b.x - a.x;
    let dy = b.y - a.y;
    let c = closing(a, b);
    let d2 = dist_sq(a, b);
    let mm = a.mass + b.mass;
    let den = d2 * mm;
    let x = abs(dx) as int;
    let y = abs(dy) as int;
    let e = abs(d) as int;
    lemma_product_bound(b.vx - a.vx, dx, speed, x);
    lemma_product_bound(b.vy - a.vy, dy, speed, y);
    let span = x + y;
    assert(speed * x + speed * y == speed * span) by (nonlinear_arith)
        requires
            span == x + y,
    ;
    assert(-(speed * span) <= c <= speed * span);
    assert(d2 == x * x + y * y) by (nonlinear_arith)
        requires
            d2 == dx * dx + dy * dy,
            x == if dx < 0 { -dx } else { dx },
            y == if dy < 0 { -dy } else { dy },
    ;
    assert(2 * (span * e) <= 3 * d2) by (nonlinear_arith)
        requires
            span == x + y,
            e == x || e == y,
            d2 == x * x + y * y,
            x >= 0,
            y >= 0,
    ;
    let cd = c * d;
    lemma_product_bound(c, d, speed * span, e);
    assert((speed * span) * e == speed * (span * e)) by (nonlinear_arith);
    assert(2 * (speed * (span * e)) <= 3 * (speed * d2)) by (nonlinear_arith)
        requires
            2 * (span * e) <= 3 * d2,
            speed >= 0,
    ;
    let q = 2 * cd;
    assert(-(3 * (speed * d2)) <= q <= 3 * (speed * d2));
    let n = 2 * ((c * m) * d);
    assert(n == q * m) by (nonlinear_arith)
        requires
            n == 2 * ((c * m) * d),
            q == 2 * (c * d),
    ;
    let bound = 3 * speed;
    assert(den > 0 && -(bound * den) <= n <= bound * den) by (nonlinear_arith)
        requires
            n == q * m,
            -(3 * (speed * d2)) <= q <= 3 * (speed * d2),
            den == d2 * mm,
            0 < m <= mm,
            d2 > 0,
            speed >= 0,
            bound == 3 * speed,
    ;
    lemma_trunc_div_within(n, den, bound);
}

/// Slow pairs do not saturate. When every velocity component of a resolved
/// pair is at most an eighth of `SPEED_LIMIT` in magnitude, no velocity
/// saturates in the pair's turn.
pub proof fn law_slow_pair_unsaturated(a: BallModel, b: BallModel)
    requires
        a.valid(),
        b.valid(),
        collides(a, b),
        -SPEED_LIMIT <= 8 * a.vx <= SPEED_LIMIT,
        -SPEED_LIMIT <= 8 * a.vy <= SPEED_LIMIT,
        -SPEED_LIMIT <= 8 * b.vx <= SPEED_LIMIT,
        -SPEED_LIMIT <= 8 * b.vy <= SPEED_LIMIT,
    ensures
        unsaturated(a, b),
{
    let speed = SPEED_LIMIT / 4;
    lemma_kick_bound(a, b, b.x - a.x, b.mass, speed);
    lemma_kick_bound(a, b, b.y - a.y, b.mass, speed);
    lemma_kick_bound(a, b, b.x - a.x, a.mass, speed);
    lemma_kick_bound(a, b, b.y - a.y, a.mass, speed);
}

/// No ball is pushed farther along an axis than the sum of the radii.
pub proof fn lemma_push_bound(a: BallModel, b: BallModel, d: int, m: int)
    requires
        a.valid(),
        b.valid(),
        collides(a, b),
        d == b.x - a.x || d == b.y - a.y,
        m == a.mass || m == b.mass,
    ensures
        -(a.radius + b.radius) <= push(a, b, d, m) <= a.radius + b.radius,
{
    lemma_fine_distance(a, b);
    let dx = b.x - a.x;
    let dy = b.y - a.y;
    let d2 = dist_sq(a, b);
    let reach = a.radius + b.radius;
    let root = fine_distance(a, b);
    let depth = fine_overlap(a, b);
    let mm = a.mass + b.mass;
    let den = root * mm;
    let e = abs(d) as int;
    let g = e * GRAIN;
    // the component is no longer than the line of centres
    assert(g * g <= d2 * 0x1_0000_0000_0000_0000) by (nonlinear_arith)
        requires
            g == e * 0x1_0000_0000,
            e == if d < 0 { -d } else { d },
            d == dx || d == dy,
            d2 == dx * dx + dy * dy,
    ;
    assert(g <= root) by (nonlinear_arith)
        requires
            g * g <= d2 * 0x1_0000_0000_0000_0000,
            d2 * 0x1_0000_0000_0000_0000 < (root + 1) * (root + 1),
            g >= 0,
            root >= 0,
    ;
    lemma_product_bound(d, depth, e, reach * GRAIN);
    assert(e * (reach * GRAIN) == g * reach) by (nonlinear_arith)
        requires
            g == e * GRAIN,
    ;
    let t = d * depth;
    let n = t * m;
    assert(-(reach * den) <= n <= reach * den) by (nonlinear_arith)
        requires
            n == t * m,
            -(g * reach) <= t <= g * reach,
            0 <= g <= root,
            den == root * mm,
            0 < m <= mm,
            reach > 0,
    ;
    lemma_trunc_div_within(n, den, reach);
}

/// Pairs away from the limit do not saturate their positions. When every
/// coordinate of a resolved pair is within `COORD_LIMIT` less twice
/// `RADIUS_LIMIT`, as it is after the walls of any arena have had their
/// say, no coordinate saturates in the pair's turn.
pub proof fn law_inner_pair_unclamped(a: BallModel, b: BallModel)
    requires
        a.valid(),
        b.valid(),
        collides(a, b),
        -(COORD_LIMIT - 2 * RADIUS_LIMIT) <= a.x <= COORD_LIMIT - 2 * RADIUS_LIMIT,
        -(COORD_LIMIT - 2 * RADIUS_LIMIT) <= a.y <= COORD_LIMIT - 2 * RADIUS_LIMIT,
        -(COORD_LIMIT - 2 * RADIUS_LIMIT) <= b.x <= COORD_LIMIT - 2 * RADIUS_LIMIT,
        -(COORD_LIMIT - 2 * RADIUS_LIMIT) <= b.y <= COORD_LIMIT - 2 * RADIUS_LIMIT,
    ensures
        unclamped(a, b),
{
    lemma_push_bound(a, b, b.x - a.x, b.mass);
    lemma_push_bound(a, b, b.y - a.y, b.mass);
    lemma_push_bound(a, b, b.x - a.x, a.mass);
    lemma_push_bound(a, b, b.y - a.y, a.mass);
}

} // verus!
