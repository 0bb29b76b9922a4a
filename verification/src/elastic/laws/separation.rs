//! The law of the push: a resolved pair ends with its discs touching, up
//! to the rounding of the pushes.

use crate::elastic::ball::{BallModel, COORD_LIMIT};
use crate::elastic::collision::{
    collides, dist_sq, fine_distance, fine_overlap, fine_reach, push, resolved_first,
    resolved_second, GRAIN,
};
use crate::elastic::fixed::{is_sqrt, lemma_sqrt_exists, lemma_trunc_div_bounds};
use crate::elastic::laws::pairs::{heavier, lemma_shares_balance};
use crate::gcd::theory::abs;
use vstd::prelude::*;

verus! {

/// No coordinate of either ball leaves `COORD_LIMIT` when the pair is
/// pushed apart, so that none of them saturates.
pub open spec fn unclamped(a: BallModel, b: BallModel) -> bool {
    &&& -COORD_LIMIT <= a.x - push(a, b, b.x - a.x, b.mass) <= COORD_LIMIT
    &&& -COORD_LIMIT <= a.y - push(a, b, b.y - a.y, b.mass) <= COORD_LIMIT
    &&& -COORD_LIMIT <= b.x + push(a, b, b.x - a.x, a.mass) <= COORD_LIMIT
    &&& -COORD_LIMIT <= b.y + push(a, b, b.y - a.y, a.mass) <= COORD_LIMIT
}

/// The fine distance of a resolved pair is the distance in grains rounded
/// down: at least one length unit, and less than the sum of the radii.
pub proof fn lemma_fine_distance(a: BallModel, b: BallModel)
    requires
        a.valid(),
        b.valid(),
        collides(a, b),
    ensures
        is_sqrt(dist_sq(a, b) * (GRAIN * GRAIN), fine_distance(a, b)),
        GRAIN <= fine_distance(a, b) < fine_reach(a, b),
        fine_overlap(a, b) > 0,
        fine_distance(a, b) * (a.mass + b.mass) > 0,
{
    let d2 = dist_sq(a, b);
    let reach = a.radius + b.radius;
    let scaled = d2 * (GRAIN * GRAIN);
    let root = fine_distance(a, b);
    assert(scaled >= 0x1_0000_0000_0000_0000 && scaled < (reach * 0x1_0000_0000) * (reach
        * 0x1_0000_0000)) by (nonlinear_arith)
        requires
            scaled == d2 * 0x1_0000_0000_0000_0000,
            0 < d2 < reach * reach,
    ;
    lemma_sqrt_exists(scaled);
    assert(0x1_0000_0000 <= root < reach * 0x1_0000_0000) by (nonlinear_arith)
        requires
            is_sqrt(scaled, root),
            scaled >= 0x1_0000_0000_0000_0000,
            scaled < (reach * 0x1_0000_0000) * (reach * 0x1_0000_0000),
            reach > 0,
    ;
    assert(root * (a.mass + b.mass) > 0) by (nonlinear_arith)
        requires
            root > 0,
            a.mass > 0,
            b.mass > 0,
    ;
}

/// The pushes along one axis. Both balls are pushed apart, and the
/// component of the line of centres grows to that of a line of the length
/// of the sum of the radii, short of it by the rounding of the two pushes:
/// by less than two length units.
pub proof fn law_push_along_axis(a: BallModel, b: BallModel, d: int)
    requires
        a.valid(),
        b.valid(),
        collides(a, b),
    ensures
        ({
            let after = d + push(a, b, d, b.mass) + push(a, b, d, a.mass);
            let root = fine_distance(a, b);
            let full = d * fine_reach(a, b);
            &&& d >= 0 ==> push(a, b, d, b.mass) >= 0 && push(a, b, d, a.mass) >= 0 && full - 2
                * root < root * after <= full
            &&& d <= 0 ==> push(a, b, d, b.mass) <= 0 && push(a, b, d, a.mass) <= 0 && full
                <= root * after < full + 2 * root
        }),
{
    lemma_fine_distance(a, b);
    let ma = a.mass;
    let mb = b.mass;
    let root = fine_distance(a, b);
    let depth = fine_overlap(a, b);
    let den = root * (ma + mb);
    let t = d * depth;
    let na = t * mb;
    let nb = t * ma;
    let pa = push(a, b, d, mb);
    let pb = push(a, b, d, ma);
    lemma_trunc_div_bounds(na, den);
    lemma_trunc_div_bounds(nb, den);
    let sum = pa + pb;
    assert(na + nb == t * (ma + mb) && sum * den == (root * sum) * (ma + mb) && pa * den + pb
        * den == sum * den) by (nonlinear_arith)
        requires
            na == t * mb,
            nb == t * ma,
            den == root * (ma + mb),
            sum == pa + pb,
    ;
    assert(d * fine_reach(a, b) == root * d + t) by (nonlinear_arith)
        requires
            t == d * depth,
            depth == fine_reach(a, b) - root,
    ;
    let after = d + sum;
    assert(root * after == root * d + root * sum) by (nonlinear_arith)
        requires
            after == d + sum,
    ;
    let m = ma + mb;
    let rs = root * sum;
    if d >= 0 {
        assert(t >= 0 && na >= 0 && nb >= 0) by (nonlinear_arith)
            requires
                t == d * depth,
                na == t * mb,
                nb == t * ma,
                d >= 0,
                depth > 0,
                ma > 0,
                mb > 0,
        ;
        assert(t - 2 * root < rs <= t) by (nonlinear_arith)
            requires
                t * m - 2 * den < rs * m <= t * m,
                den == root * m,
                m > 0,
        ;
    }
    if d <= 0 {
        assert(t <= 0 && na <= 0 && nb <= 0) by (nonlinear_arith)
            requires
                t == d * depth,
                na == t * mb,
                nb == t * ma,
                d <= 0,
                depth > 0,
                ma > 0,
                mb > 0,
        ;
        assert(t <= rs < t + 2 * root) by (nonlinear_arith)
            requires
                t * m <= rs * m < t * m + 2 * den,
                den == root * m,
                m > 0,
        ;
    }
}

/// The square of a number that lies between `full - 2 * root` and `full`,
/// on the side of zero of `full`.
proof fn lemma_square_between(x: int, full: int, root: int)
    requires
        root > 0,
        full >= 0 ==> 0 <= x <= full && full - 2 * root < x,
        full <= 0 ==> full <= x <= 0 && x < full + 2 * root,
    ensures
        full * full - 4 * (root * abs(full)) <= x * x <= full * full,
{
    let f = abs(full) as int;
    let y = abs(x) as int;
    assert(x * x == y * y && full * full == f * f) by (nonlinear_arith)
        requires
            y == if x < 0 { -x } else { x },
            f == if full < 0 { -full } else { full },
    ;
    assert(f * f - 4 * (root * f) <= y * y <= f * f) by (nonlinear_arith)
        requires
            root > 0,
            0 <= y <= f,
            f - 2 * root < y,
    ;
}

/// A resolved pair ends with its discs touching. When a pair is resolved
/// and no coordinate saturates, the centres end as far apart as the sum of
/// the radii, up to the rounding of the distance to a grain and of the four
/// pushes to a length unit. With `root` the distance before in grains:
/// the distance after is less than the sum of the radii times `1 + 1 /
/// root`, and its square is short of the square of the sum of the radii by
/// no more than four times the sum of the two components of the line of
/// centres that the exact pushes would leave.
pub proof fn law_pushed_apart(a: BallModel, b: BallModel)
    requires
        a.valid(),
        b.valid(),
        collides(a, b),
        unclamped(a, b),
    ensures
        ({
            let after = dist_sq(resolved_first(a, b), resolved_second(a, b));
            let root = fine_distance(a, b);
            let reach = a.radius + b.radius;
            let exact = dist_sq(a, b) * (fine_reach(a, b) * fine_reach(a, b));
            let slack = 4 * (root * (fine_reach(a, b) * (abs(b.x - a.x) + abs(b.y - a.y))));
            &&& (root * reach) * (root * reach) <= exact < ((root + 1) * reach) * ((root + 1)
                * reach)
            &&& exact - slack <= (root * root) * after <= exact
        }),
{
    lemma_fine_distance(a, b);
    let a2 = resolved_first(a, b);
    let b2 = resolved_second(a, b);
    let dx = b.x - a.x;
    let dy = b.y - a.y;
    let root = fine_distance(a, b);
    let reach = a.radius + b.radius;
    let f = fine_reach(a, b);
    let d2 = dist_sq(a, b);
    let scaled = d2 * (GRAIN * GRAIN);
    law_push_along_axis(a, b, dx);
    law_push_along_axis(a, b, dy);
    let ex = b2.x - a2.x;
    let ey = b2.y - a2.y;
    assert(ex == dx + push(a, b, dx, b.mass) + push(a, b, dx, a.mass));
    assert(ey == dy + push(a, b, dy, b.mass) + push(a, b, dy, a.mass));
    let x = root * ex;
    let y = root * ey;
    let fx = dx * f;
    let fy = dy * f;
    assert(fx >= 0 <==> dx >= 0) by (nonlinear_arith)
        requires
            fx == dx * f,
            f > 0,
    ;
    assert(fy >= 0 <==> dy >= 0) by (nonlinear_arith)
        requires
            fy == dy * f,
            f > 0,
    ;
    assert(fx <= 0 <==> dx <= 0) by (nonlinear_arith)
        requires
            fx == dx * f,
            f > 0,
    ;
    assert(fy <= 0 <==> dy <= 0) by (nonlinear_arith)
        requires
            fy == dy * f,
            f > 0,
    ;
    assert((dx >= 0 ==> x >= 0) && (dx <= 0 ==> x <= 0) && (dy >= 0 ==> y >= 0) && (dy <= 0 ==> y
        <= 0)) by (nonlinear_arith)
        requires
            x == root * ex,
            y == root * ey,
            root > 0,
            dx >= 0 ==> ex >= 0,
            dx <= 0 ==> ex <= 0,
            dy >= 0 ==> ey >= 0,
            dy <= 0 ==> ey <= 0,
    ;
    lemma_square_between(x, fx, root);
    lemma_square_between(y, fy, root);
    let after = dist_sq(a2, b2);
    assert((root * root) * after == x * x + y * y) by (nonlinear_arith)
        requires
            after == ex * ex + ey * ey,
            x == root * ex,
            y == root * ey,
    ;
    let exact = d2 * (f * f);
    assert(fx * fx + fy * fy == exact) by (nonlinear_arith)
        requires
            fx == dx * f,
            fy == dy * f,
            exact == d2 * (f * f),
            d2 == dx * dx + dy * dy,
    ;
    assert(abs(fx) == abs(dx) * f && abs(fy) == abs(dy) * f) by (nonlinear_arith)
        requires
            fx == dx * f,
            fy == dy * f,
            f > 0,
    ;
    let slack = 4 * (root * (f * (abs(dx) + abs(dy))));
    assert(4 * (root * abs(fx)) + 4 * (root * abs(fy)) == slack) by (nonlinear_arith)
        requires
            abs(fx) == abs(dx) * f,
            abs(fy) == abs(dy) * f,
            slack == 4 * (root * (f * (abs(dx) + abs(dy)))),
    ;
    assert(exact == scaled * (reach * reach)) by (nonlinear_arith)
        requires
            exact == d2 * (f * f),
            f == reach * 0x1_0000_0000,
            scaled == d2 * 0x1_0000_0000_0000_0000,
    ;
    let rr = reach * reach;
    assert((root * reach) * (root * reach) == (root * root) * rr && ((root + 1) * reach) * ((root
        + 1) * reach) == ((root + 1) * (root + 1)) * rr) by (nonlinear_arith)
        requires
            rr == reach * reach,
    ;
    assert((root * root) * rr <= scaled * rr < ((root + 1) * (root + 1)) * rr)
        by (nonlinear_arith)
        requires
            root * root <= scaled < (root + 1) * (root + 1),
            rr > 0,
    ;
}

/// The push keeps the centre of mass. Along any axis, what the push moves
/// one ball times its mass it moves the other the opposite way times its
/// mass, up to the rounding of the two pushes: `mass_a * position_a +
/// mass_b * position_b` changes by less than the larger mass.
pub proof fn law_push_keeps_centre_of_mass(a: BallModel, b: BallModel, d: int)
    requires
        a.valid(),
        b.valid(),
        collides(a, b),
    ensures
        -heavier(a, b) < b.mass * push(a, b, d, a.mass) - a.mass * push(a, b, d, b.mass)
            < heavier(a, b),
{
    lemma_fine_distance(a, b);
    let t = d * fine_overlap(a, b);
    let den = fine_distance(a, b) * (a.mass + b.mass);
    lemma_shares_balance(t, a.mass, b.mass, den);
}

} // verus!
