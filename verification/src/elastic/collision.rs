//! The collision of two balls: when a pair is resolved, how far each ball is
//! pushed out of the other, and what impulse they exchange.

use crate::elastic::ball::{Ball, BallModel, Vec2, COORD_LIMIT, MASS_LIMIT, SPEED_LIMIT};
use crate::elastic::fixed::{
    clamp, clamp_to, div_trunc, int_sqrt, is_sqrt, isqrt, lemma_trunc_div_bounds, trunc_div,
};
use vstd::prelude::*;

verus! {

/// The square of the distance between the centres.
pub open spec fn dist_sq(a: BallModel, b: BallModel) -> int {
    (b.x - a.x) * (b.x - a.x) + (b.y - a.y) * (b.y - a.y)
}

/// The discs overlap: the centres are closer than the sum of the radii.
pub open spec fn overlapping(a: BallModel, b: BallModel) -> bool {
    dist_sq(a, b) < (a.radius + b.radius) * (a.radius + b.radius)
}

/// The relative velocity of `b` against `a` along the line from `a` to `b`,
/// times the distance between the centres. It has the sign of the closing
/// speed: negative while the balls approach, positive while they separate.
pub open spec fn closing(a: BallModel, b: BallModel) -> int {
    (b.vx - a.vx) * (b.x - a.x) + (b.vy - a.vy) * (b.y - a.y)
}

/// The pair is resolved: the discs overlap, their centres differ, and they
/// are not separating.
pub open spec fn collides(a: BallModel, b: BallModel) -> bool {
    &&& 0 < dist_sq(a, b)
    &&& overlapping(a, b)
    &&& closing(a, b) <= 0
}

/// The grains in a length unit. The distance between two centres is
/// measured in grains, so that its rounding is far below a length unit.
pub const GRAIN: i64 = 0x1_0000_0000;

/// The distance between the centres in grains, rounded down to a whole
/// grain.
pub open spec fn fine_distance(a: BallModel, b: BallModel) -> int {
    isqrt(dist_sq(a, b) * (GRAIN * GRAIN))
}

/// The sum of the radii in grains: how far apart the centres of two discs
/// are that touch.
pub open spec fn fine_reach(a: BallModel, b: BallModel) -> int {
    (a.radius + b.radius) * GRAIN
}

/// How deep the discs reach into each other, in grains.
pub open spec fn fine_overlap(a: BallModel, b: BallModel) -> int {
    fine_reach(a, b) - fine_distance(a, b)
}

/// How far a ball of the pair is pushed along one axis: `d` is that axis'
/// component of the line from `a` to `b`, and `m` the mass of the other
/// ball. It is the component of the unit vector along the line of centres,
/// times the overlap, times the other ball's share of the mass, rounded
/// toward zero once.
pub open spec fn push(a: BallModel, b: BallModel, d: int, m: int) -> int {
    trunc_div((d * fine_overlap(a, b)) * m, fine_distance(a, b) * (a.mass + b.mass))
}

/// The change of one velocity component of a ball of the pair: `d` is that
/// axis' component of the line from `a` to `b`, and `m` the mass of the
/// other ball. It is the perfectly elastic impulse along the line of
/// centres, divided by the ball's own mass.
pub open spec fn kick(a: BallModel, b: BallModel, d: int, m: int) -> int {
    trunc_div(2 * ((closing(a, b) * m) * d), dist_sq(a, b) * (a.mass + b.mass))
}

/// The first ball of a pair after the pair's turn: unchanged unless the pair
/// is resolved; else pushed away from the second ball and given its share
/// of the impulse.
pub open spec fn resolved_first(a: BallModel, b: BallModel) -> BallModel {
    if collides(a, b) {
        BallModel {
            x: clamp(a.x - push(a, b, b.x - a.x, b.mass), COORD_LIMIT as int),
            y: clamp(a.y - push(a, b, b.y - a.y, b.mass), COORD_LIMIT as int),
            vx: clamp(a.vx + kick(a, b, b.x - a.x, b.mass), SPEED_LIMIT as int),
            vy: clamp(a.vy + kick(a, b, b.y - a.y, b.mass), SPEED_LIMIT as int),
            ..a
        }
    } else {
        a
    }
}

/// The second ball of a pair after the pair's turn: unchanged unless the
/// pair is resolved; else pushed away from the first ball and given its
/// share of the impulse.
pub open spec fn resolved_second(a: BallModel, b: BallModel) -> BallModel {
    if collides(a, b) {
        BallModel {
            x: clamp(b.x + push(a, b, b.x - a.x, a.mass), COORD_LIMIT as int),
            y: clamp(b.y + push(a, b, b.y - a.y, a.mass), COORD_LIMIT as int),
            vx: clamp(b.vx - kick(a, b, b.x - a.x, a.mass), SPEED_LIMIT as int),
            vy: clamp(b.vy - kick(a, b, b.y - a.y, a.mass), SPEED_LIMIT as int),
            ..b
        }
    } else {
        b
    }
}

/// The product of two bounded numbers is bounded by the product of the
/// bounds.
pub proof fn lemma_product_bound(a: int, b: int, la: int, lb: int)
    by (nonlinear_arith)
    requires
        -la <= a <= la,
        -lb <= b <= lb,
    ensures
        -(la * lb) <= a * b <= la * lb,
{
}

/// A number whose square is below the square of a positive bound is below
/// the bound in magnitude.
pub proof fn lemma_square_below(d: int, rest: int, m: int)
    by (nonlinear_arith)
    requires
        rest >= 0,
        d * d + rest < m * m,
        m > 0,
    ensures
        -m < d < m,
{
}

/// `trunc_div((d * overlap) * m, den)`, within the machine's range.
fn pushed(d: i128, overlap: i128, m: i64, den: i128) -> (q: i128)
    requires
        -0x80_0000 <= d <= 0x80_0000,
        0 <= overlap <= 0x80_0000_0000_0000,
        0 < m <= MASS_LIMIT,
        den > 0,
    ensures
        q == trunc_div((d * overlap) * m, den as int),
        -0x400_0000_0000_0000_0000_0000_0000_0000 <= q <= 0x400_0000_0000_0000_0000_0000_0000_0000,
{
    proof {
        lemma_product_bound(d as int, overlap as int, 0x80_0000, 0x80_0000_0000_0000);
        lemma_product_bound(
            d * overlap,
            m as int,
            0x4000_0000_0000_0000_0000,
            0x1000_0000_0000,
        );
        lemma_trunc_div_bounds((d * overlap) * m, den as int);
    }
    div_trunc((d * overlap) * (m as i128), den)
}

/// `trunc_div(2 * ((closing * m) * d), den)`, within the machine's range.
fn kicked(closing: i128, m: i64, d: i128, den: i128) -> (q: i128)
    requires
        -0x100_0000_0000_0000 <= closing <= 0x100_0000_0000_0000,
        0 < m <= MASS_LIMIT,
        -0x80_0000 <= d <= 0x80_0000,
        den > 0,
    ensures
        q == trunc_div(2 * ((closing * m) * d), den as int),
        -0x1000_0000_0000_0000_0000_0000_0000_0000 <= q <= 0x1000_0000_0000_0000_0000_0000_0000_0000,
{
    proof {
        lemma_product_bound(closing as int, m as int, 0x100_0000_0000_0000, 0x1000_0000_0000);
        lemma_product_bound(
            closing * m,
            d as int,
            0x10_0000_0000_0000_0000_0000_0000,
            0x80_0000,
        );
        lemma_trunc_div_bounds(2 * ((closing * m) * d), den as int);
    }
    div_trunc(2 * ((closing * (m as i128)) * d), den)
}

/// Whether the discs of two balls overlap.
pub fn overlaps(a: &Ball, b: &Ball) -> (r: bool)
    requires
        a.wf(),
        b.wf(),
    ensures
        r == overlapping(a@, b@),
{
    let dx: i128 = b.position().x as i128 - a.position().x as i128;
    let dy: i128 = b.position().y as i128 - a.position().y as i128;
    let reach: i128 = a.radius() as i128 + b.radius() as i128;
    proof {
        lemma_product_bound(dx as int, dx as int, 0x200_0000_0000, 0x200_0000_0000);
        lemma_product_bound(dy as int, dy as int, 0x200_0000_0000, 0x200_0000_0000);
        lemma_product_bound(reach as int, reach as int, 0x80_0000, 0x80_0000);
    }
    dx * dx + dy * dy < reach * reach
}

/// Gives a pair of balls its turn: if their discs overlap, their centres
/// differ and they are not separating, each is pushed out of the other in
/// proportion to the other's mass, and they exchange the perfectly elastic
/// impulse along the line of centres. Otherwise both stay as they are.
pub fn resolve(a: Ball, b: Ball) -> (out: (Ball, Ball))
    requires
        a.wf(),
        b.wf(),
    ensures
        out.0@ == resolved_first(a@, b@),
        out.1@ == resolved_second(a@, b@),
        out.0.wf(),
        out.1.wf(),
{
    let pa = a.position();
    let pb = b.position();
    let va = a.velocity();
    let vb = b.velocity();
    let dx: i128 = pb.x as i128 - pa.x as i128;
    let dy: i128 = pb.y as i128 - pa.y as i128;
    let reach: i128 = a.radius() as i128 + b.radius() as i128;
    proof {
        lemma_product_bound(dx as int, dx as int, 0x200_0000_0000, 0x200_0000_0000);
        lemma_product_bound(dy as int, dy as int, 0x200_0000_0000, 0x200_0000_0000);
        lemma_product_bound(reach as int, reach as int, 0x80_0000, 0x80_0000);
    }
    let d2: i128 = dx * dx + dy * dy;
    if d2 == 0 || d2 >= reach * reach {
        return (a, b);
    }
    proof {
        assert(dx * dx >= 0 && dy * dy >= 0) by (nonlinear_arith);
        lemma_square_below(dx as int, dy * dy, reach as int);
        lemma_square_below(dy as int, dx * dx, reach as int);
    }
    let rvx: i128 = vb.x as i128 - va.x as i128;
    let rvy: i128 = vb.y as i128 - va.y as i128;
    proof {
        lemma_product_bound(rvx as int, dx as int, 0x1_0000_0000, 0x80_0000);
        lemma_product_bound(rvy as int, dy as int, 0x1_0000_0000, 0x80_0000);
    }
    let closing: i128 = rvx * dx + rvy * dy;
    if closing > 0 {
        return (a, b);
    }
    let total: i128 = a.mass() as i128 + b.mass() as i128;
    let touching: i128 = reach * (GRAIN as i128);
    let dist: i128 = int_sqrt((d2 as u128) * 0x1_0000_0000_0000_0000) as i128;
    proof {
        assert(d2 * (GRAIN * GRAIN) == d2 * 0x1_0000_0000_0000_0000);
        assert(0x1_0000_0000 <= dist < touching) by (nonlinear_arith)
            requires
                is_sqrt(d2 * 0x1_0000_0000_0000_0000, dist as int),
                0 < d2 < reach * reach,
                reach > 0,
                touching == reach * 0x1_0000_0000,
        ;
        lemma_product_bound(dist as int, total as int, 0x80_0000_0000_0000, 0x2000_0000_0000);
        lemma_product_bound(d2 as int, total as int, 0x4000_0000_0000, 0x2000_0000_0000);
        assert(dist * total > 0 && d2 * total > 0) by (nonlinear_arith)
            requires
                dist > 0,
                d2 > 0,
                total > 0,
        ;
    }
    let depth: i128 = touching - dist;
    let pden: i128 = dist * total;
    let iden: i128 = d2 * total;
    let ax = clamp_to(pa.x as i128 - pushed(dx, depth, b.mass(), pden), COORD_LIMIT);
    let ay = clamp_to(pa.y as i128 - pushed(dy, depth, b.mass(), pden), COORD_LIMIT);
    let bx = clamp_to(pb.x as i128 + pushed(dx, depth, a.mass(), pden), COORD_LIMIT);
    let by = clamp_to(pb.y as i128 + pushed(dy, depth, a.mass(), pden), COORD_LIMIT);
    let avx = clamp_to(va.x as i128 + kicked(closing, b.mass(), dx, iden), SPEED_LIMIT);
    let avy = clamp_to(va.y as i128 + kicked(closing, b.mass(), dy, iden), SPEED_LIMIT);
    let bvx = clamp_to(vb.x as i128 - kicked(closing, a.mass(), dx, iden), SPEED_LIMIT);
    let bvy = clamp_to(vb.y as i128 - kicked(closing, a.mass(), dy, iden), SPEED_LIMIT);
    (
        a.placed(Vec2 { x: ax, y: ay }, Vec2 { x: avx, y: avy }),
        b.placed(Vec2 { x: bx, y: by }, Vec2 { x: bvx, y: bvy }),
    )
}

/// Gives a pair of balls its turn, in place.
pub fn resolve_collision(b1: &mut Ball, b2: &mut Ball)
    requires
        old(b1).wf(),
        old(b2).wf(),
    ensures
        final(b1)@ == resolved_first(old(b1)@, old(b2)@),
        final(b2)@ == resolved_second(old(b1)@, old(b2)@),
        final(b1).wf(),
        final(b2).wf(),
{
    let (x, y) = resolve(*b1, *b2);
    *b1 = x;
    *b2 = y;
}

} // verus!
