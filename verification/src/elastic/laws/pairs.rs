//! The laws of a pair's turn: what the two balls exchange, and who is
//! pushed how far.

use crate::elastic::ball::{BallModel, SPEED_LIMIT};
use crate::elastic::collision::{
    closing, collides, dist_sq, fine_distance, fine_overlap, kick, push, resolved_first,
    resolved_second, GRAIN,
};
use crate::elastic::fixed::{
    lemma_sqrt_exists, lemma_trunc_div_bounds, lemma_trunc_div_exact, trunc_div,
};
use crate::gcd::theory::abs;
use vstd::arithmetic::div_mod::lemma_div_is_ordered;
use vstd::prelude::*;

verus! {

/// Both velocity components of both balls stay within `SPEED_LIMIT` when
/// the pair exchanges its impulse, so that none of them saturates.
pub open spec fn unsaturated(a: BallModel, b: BallModel) -> bool {
    &&& -SPEED_LIMIT <= a.vx + kick(a, b, b.x - a.x, b.mass) <= SPEED_LIMIT
    &&& -SPEED_LIMIT <= a.vy + kick(a, b, b.y - a.y, b.mass) <= SPEED_LIMIT
    &&& -SPEED_LIMIT <= b.vx - kick(a, b, b.x - a.x, a.mass) <= SPEED_LIMIT
    &&& -SPEED_LIMIT <= b.vy - kick(a, b, b.y - a.y, a.mass) <= SPEED_LIMIT
}

/// The larger of two masses.
pub open spec fn heavier(a: BallModel, b: BallModel) -> int {
    if a.mass >= b.mass {
        a.mass
    } else {
        b.mass
    }
}

/// Two shares of one quantity `t`, each multiplied by the other's mass and
/// divided with rounding toward zero, balance when each is weighed with its
/// own mass, up to the rounding: the difference is less than the larger
/// mass.
pub proof fn lemma_shares_balance(t: int, ma: int, mb: int, den: int)
    requires
        ma > 0,
        mb > 0,
        den > 0,
    ensures
        ({
            let h = if ma >= mb { ma } else { mb };
            -h < ma * trunc_div(t * mb, den) - mb * trunc_div(t * ma, den) < h
        }),
{
    let na = t * mb;
    let nb = t * ma;
    let ka = trunc_div(na, den);
    let kb = trunc_div(nb, den);
    lemma_trunc_div_bounds(na, den);
    lemma_trunc_div_bounds(nb, den);
    let h = if ma >= mb { ma } else { mb };
    let change = ma * ka - mb * kb;
    if t >= 0 {
        assert(na >= 0 && nb >= 0) by (nonlinear_arith)
            requires
                na == t * mb,
                nb == t * ma,
                t >= 0,
                ma > 0,
                mb > 0,
        ;
        assert(-h < change < h) by (nonlinear_arith)
            requires
                change == ma * ka - mb * kb,
                na == t * mb,
                nb == t * ma,
                na - den < ka * den <= na,
                nb - den < kb * den <= nb,
                den > 0,
                0 < ma <= h,
                0 < mb <= h,
        ;
    } else {
        assert(na <= 0 && nb <= 0) by (nonlinear_arith)
            requires
                na == t * mb,
                nb == t * ma,
                t < 0,
                ma > 0,
                mb > 0,
        ;
        assert(-h < change < h) by (nonlinear_arith)
            requires
                change == ma * ka - mb * kb,
                na == t * mb,
                nb == t * ma,
                na <= ka * den < na + den,
                nb <= kb * den < nb + den,
                den > 0,
                0 < ma <= h,
                0 < mb <= h,
        ;
    }
}

/// Along any axis, what the impulse adds to the momentum of one ball it
/// takes from the other, up to the rounding of the two velocity changes:
/// the sum changes by less than the larger mass.
pub proof fn lemma_kicks_balance(a: BallModel, b: BallModel, d: int)
    requires
        a.mass > 0,
        b.mass > 0,
        dist_sq(a, b) > 0,
    ensures
        -heavier(a, b) < a.mass * kick(a, b, d, b.mass) - b.mass * kick(a, b, d, a.mass)
            < heavier(a, b),
{
    let c = closing(a, b);
    let ma = a.mass;
    let mb = b.mass;
    let den = dist_sq(a, b) * (ma + mb);
    assert(den > 0) by (nonlinear_arith)
        requires
            den == dist_sq(a, b) * (ma + mb),
            dist_sq(a, b) > 0,
            ma > 0,
            mb > 0,
    ;
    let q = 2 * (c * d);
    assert(2 * ((c * mb) * d) == q * mb && 2 * ((c * ma) * d) == q * ma) by (nonlinear_arith)
        requires
            q == 2 * (c * d),
    ;
    lemma_shares_balance(q, ma, mb, den);
}

/// Pairwise momentum conservation. When a pair is resolved and no velocity
/// saturates, the pair's momentum `mass_a * velocity_a + mass_b *
/// velocity_b` changes along each axis by less than the larger of the two
/// masses: by the rounding of the velocities alone.
pub proof fn law_momentum_conserved(a: BallModel, b: BallModel)
    requires
        a.valid(),
        b.valid(),
        collides(a, b),
        unsaturated(a, b),
    ensures
        ({
            let a2 = resolved_first(a, b);
            let b2 = resolved_second(a, b);
            &&& -heavier(a, b) < (a.mass * a2.vx + b.mass * b2.vx) - (a.mass * a.vx + b.mass
                * b.vx) < heavier(a, b)
            &&& -heavier(a, b) < (a.mass * a2.vy + b.mass * b2.vy) - (a.mass * a.vy + b.mass
                * b.vy) < heavier(a, b)
        }),
{
    lemma_kicks_balance(a, b, b.x - a.x);
    lemma_kicks_balance(a, b, b.y - a.y);
    let ma = a.mass;
    let mb = b.mass;
    let kax = kick(a, b, b.x - a.x, mb);
    let kbx = kick(a, b, b.x - a.x, ma);
    let kay = kick(a, b, b.y - a.y, mb);
    let kby = kick(a, b, b.y - a.y, ma);
    assert((ma * (a.vx + kax) + mb * (b.vx - kbx)) - (ma * a.vx + mb * b.vx) == ma * kax - mb
        * kbx) by (nonlinear_arith);
    assert((ma * (a.vy + kay) + mb * (b.vy - kby)) - (ma * a.vy + mb * b.vy) == ma * kay - mb
        * kby) by (nonlinear_arith);
}

/// Equal-mass head-on exchange. When a resolved pair has equal masses and
/// its relative velocity lies along the line of centres, the two balls
/// exchange their velocities exactly. Two balls that approach each other
/// head-on with `+v` and `-v` leave with `-v` and `+v`.
pub proof fn law_equal_mass_exchange(a: BallModel, b: BallModel)
    requires
        a.valid(),
        b.valid(),
        collides(a, b),
        a.mass == b.mass,
        (b.vx - a.vx) * (b.y - a.y) == (b.vy - a.vy) * (b.x - a.x),
    ensures
        resolved_first(a, b).vx == b.vx,
        resolved_first(a, b).vy == b.vy,
        resolved_second(a, b).vx == a.vx,
        resolved_second(a, b).vy == a.vy,
{
    let m = a.mass;
    let dx = b.x - a.x;
    let dy = b.y - a.y;
    let rx = b.vx - a.vx;
    let ry = b.vy - a.vy;
    let c = closing(a, b);
    let d2 = dist_sq(a, b);
    let den = d2 * (m + m);
    assert(den > 0) by (nonlinear_arith)
        requires
            den == d2 * (m + m),
            d2 > 0,
            m > 0,
    ;
    let p = rx * dy;
    assert(c * dx == rx * (dx * dx) + p * dy && c * dy == p * dx + ry * (dy * dy))
        by (nonlinear_arith)
        requires
            c == rx * dx + ry * dy,
            p == ry * dx,
            p == rx * dy,
    ;
    assert(p * dy == rx * (dy * dy) && p * dx == ry * (dx * dx)) by (nonlinear_arith)
        requires
            p == rx * dy,
            p == ry * dx,
    ;
    assert(c * dx == rx * d2 && c * dy == ry * d2) by (nonlinear_arith)
        requires
            c * dx == rx * (dx * dx) + rx * (dy * dy),
            c * dy == ry * (dx * dx) + ry * (dy * dy),
            d2 == dx * dx + dy * dy,
    ;
    assert(2 * ((c * m) * dx) == (c * dx) * (m + m) && 2 * ((c * m) * dy) == (c * dy) * (m + m))
        by (nonlinear_arith);
    assert((rx * d2) * (m + m) == rx * den && (ry * d2) * (m + m) == ry * den)
        by (nonlinear_arith)
        requires
            den == d2 * (m + m),
    ;
    lemma_trunc_div_exact(rx, den);
    lemma_trunc_div_exact(ry, den);
}

/// Separating pairs are left alone. A pair whose balls move apart along the
/// line of centres keeps its positions and its velocities, however deep the
/// discs overlap.
pub proof fn law_separating_pair_unchanged(a: BallModel, b: BallModel)
    requires
        closing(a, b) > 0,
    ensures
        resolved_first(a, b) == a,
        resolved_second(a, b) == b,
{
}

/// The heavier ball is pushed less. When a pair is resolved, the overlap is
/// shared in proportion to the other ball's mass: along any axis the
/// heavier ball is pushed no farther than the lighter one, and equal masses
/// are pushed equally far.
pub proof fn law_heavier_pushed_less(a: BallModel, b: BallModel, d: int)
    requires
        a.valid(),
        b.valid(),
        collides(a, b),
        a.mass >= b.mass,
    ensures
        abs(push(a, b, d, b.mass)) <= abs(push(a, b, d, a.mass)),
        a.mass == b.mass ==> push(a, b, d, b.mass) == push(a, b, d, a.mass),
{
    let ma = a.mass;
    let mb = b.mass;
    let dist = fine_distance(a, b);
    let scaled = dist_sq(a, b) * (GRAIN * GRAIN);
    assert(scaled > 0) by (nonlinear_arith)
        requires
            scaled == dist_sq(a, b) * 0x1_0000_0000_0000_0000,
            dist_sq(a, b) > 0,
    ;
    lemma_sqrt_exists(scaled);
    assert(dist > 0) by (nonlinear_arith)
        requires
            dist >= 0,
            scaled < (dist + 1) * (dist + 1),
            scaled > 0,
    ;
    let den = dist * (ma + mb);
    assert(den > 0) by (nonlinear_arith)
        requires
            den == dist * (ma + mb),
            dist > 0,
            ma > 0,
            mb > 0,
    ;
    let t = d * fine_overlap(a, b);
    let n1 = t * mb;
    let n2 = t * ma;
    if t >= 0 {
        assert(0 <= n1 <= n2) by (nonlinear_arith)
            requires
                n1 == t * mb,
                n2 == t * ma,
                t >= 0,
                0 < mb <= ma,
        ;
        lemma_div_is_ordered(n1, n2, den);
        lemma_trunc_div_bounds(n1, den);
        lemma_trunc_div_bounds(n2, den);
    } else {
        assert(0 <= -n1 <= -n2) by (nonlinear_arith)
            requires
                n1 == t * mb,
                n2 == t * ma,
                t < 0,
                0 < mb <= ma,
        ;
        lemma_div_is_ordered(-n1, -n2, den);
        lemma_trunc_div_bounds(n1, den);
        lemma_trunc_div_bounds(n2, den);
    }
}

} // verus!
