//! A ball: a disc with a position, a velocity, a radius and a mass, and the
//! rule by which it moves and bounces off the walls of the arena.

use crate::elastic::fixed::{div_trunc, trunc_div};
use crate::gcd::theory::abs;
use vstd::prelude::*;

verus! {

/// Ticks in a second.
pub const TICKS_PER_SECOND: i64 = 120_000;

/// The largest magnitude of a coordinate of a ball's centre.
pub const COORD_LIMIT: i64 = 0x100_0000_0000;

/// The largest magnitude of a wall's coordinate; a ball of any radius that
/// touches a wall from either side has its centre within `COORD_LIMIT`.
pub const ARENA_LIMIT: i64 = 0x80_0000_0000;

/// The largest radius of a ball.
pub const RADIUS_LIMIT: i64 = 0x40_0000;

/// The largest magnitude of a component of a ball's velocity.
pub const SPEED_LIMIT: i64 = 0x8000_0000;

/// The largest mass of a ball: that of a ball of the largest radius and
/// density 1.
pub const MASS_LIMIT: i64 = 0x1000_0000_0000;

/// A point or a displacement in the plane.
#[derive(Clone, Copy, Debug, PartialEq, Eq)]
pub struct Vec2 {
    pub x: i64,
    pub y: i64,
}

/// One of the two axes of the plane.
#[derive(Clone, Copy, Debug, PartialEq, Eq)]
pub enum Axis {
    X,
    Y,
}

/// The state of a ball, as mathematical integers.
pub struct BallModel {
    pub x: int,
    pub y: int,
    pub vx: int,
    pub vy: int,
    pub radius: int,
    pub mass: int,
}

/// The coordinate of a centre after one wall rule: a ball whose lower edge
/// is below `lower` is put with that edge on `lower`; otherwise one whose
/// upper edge is above `upper` is put with that edge on `upper`.
pub open spec fn reflect_position(p: int, r: int, lower: int, upper: int) -> int {
    if p - r < lower {
        lower + r
    } else if p + r > upper {
        upper - r
    } else {
        p
    }
}

/// The velocity component after one wall rule: it keeps its magnitude and
/// points away from the wall that the ball crossed.
pub open spec fn reflect_velocity(p: int, v: int, r: int, lower: int, upper: int) -> int {
    if p - r < lower {
        abs(v) as int
    } else if p + r > upper {
        -(abs(v) as int)
    } else {
        v
    }
}

impl BallModel {
    /// Radius and mass are positive, and everything is within its limit.
    pub open spec fn valid(self) -> bool {
        &&& 0 < self.radius <= RADIUS_LIMIT
        &&& 0 < self.mass <= MASS_LIMIT
        &&& -COORD_LIMIT <= self.x <= COORD_LIMIT
        &&& -COORD_LIMIT <= self.y <= COORD_LIMIT
        &&& -SPEED_LIMIT <= self.vx <= SPEED_LIMIT
        &&& -SPEED_LIMIT <= self.vy <= SPEED_LIMIT
    }

    /// The ball after `dt` ticks of free flight: the position advances by
    /// velocity times time, rounded toward zero to a whole length unit, and
    /// the velocity stays. In a step whose displacement is less than a
    /// length unit the ball stays where it is: a host that wants slow balls
    /// to move chooses a finer length unit.
    pub open spec fn moved(self, dt: int) -> BallModel {
        BallModel {
            x: self.x + trunc_div(self.vx * dt, TICKS_PER_SECOND as int),
            y: self.y + trunc_div(self.vy * dt, TICKS_PER_SECOND as int),
            ..self
        }
    }

    /// The ball after the wall rule along one axis, for walls at `lower` and
    /// `upper`.
    pub open spec fn reflected(self, axis: Axis, lower: int, upper: int) -> BallModel {
        match axis {
            Axis::X => BallModel {
                x: reflect_position(self.x, self.radius, lower, upper),
                vx: reflect_velocity(self.x, self.vx, self.radius, lower, upper),
                ..self
            },
            Axis::Y => BallModel {
                y: reflect_position(self.y, self.radius, lower, upper),
                vy: reflect_velocity(self.y, self.vy, self.radius, lower, upper),
                ..self
            },
        }
    }

    /// The ball after `dt` ticks in an arena of the given size with no other
    /// ball in its way: free flight, then the wall rule along X, then along
    /// Y.
    pub open spec fn updated(self, dt: int, width: int, height: int) -> BallModel {
        self.moved(dt).reflected(Axis::X, 0, width).reflected(Axis::Y, 0, height)
    }

    /// The whole disc lies within the arena.
    pub open spec fn contained(self, width: int, height: int) -> bool {
        &&& self.radius <= self.x <= width - self.radius
        &&& self.radius <= self.y <= height - self.radius
    }
}

/// A ball. Its radius and mass are positive for as long as it lives.
#[derive(Clone, Copy, Debug)]
pub struct Ball {
    position: Vec2,
    velocity: Vec2,
    radius: i64,
    mass: i64,
}

impl View for Ball {
    type V = BallModel;

    closed spec fn view(&self) -> BallModel {
        BallModel {
            x: self.position.x as int,
            y: self.position.y as int,
            vx: self.velocity.x as int,
            vy: self.velocity.y as int,
            radius: self.radius as int,
            mass: self.mass as int,
        }
    }
}

/// The states of a sequence of balls.
pub open spec fn models(balls: Seq<Ball>) -> Seq<BallModel> {
    Seq::new(balls.len(), |i: int| balls[i]@)
}

/// One wall rule on a coordinate that free flight may have carried beyond
/// the stored range.
fn reflect(p: i128, v: i64, r: i64, lower: i64, upper: i64) -> (out: (i64, i64))
    requires
        0 < r <= RADIUS_LIMIT,
        -SPEED_LIMIT <= v <= SPEED_LIMIT,
        -ARENA_LIMIT <= lower <= ARENA_LIMIT,
        -ARENA_LIMIT <= upper <= ARENA_LIMIT,
        -0x4000_0000_0000_0000_0000_0000_0000_0000 <= p <= 0x4000_0000_0000_0000_0000_0000_0000_0000,
        (lower + r <= p <= upper - r) ==> -COORD_LIMIT <= p <= COORD_LIMIT,
    ensures
        out.0 == reflect_position(p as int, r as int, lower as int, upper as int),
        out.1 == reflect_velocity(p as int, v as int, r as int, lower as int, upper as int),
        -COORD_LIMIT <= out.0 <= COORD_LIMIT,
        -SPEED_LIMIT <= out.1 <= SPEED_LIMIT,
{
    let speed: i64 = if v < 0 { -v } else { v };
    if p - (r as i128) < lower as i128 {
        (lower + r, speed)
    } else if p + (r as i128) > upper as i128 {
        (upper - r, -speed)
    } else {
        (p as i64, v)
    }
}

/// The displacement of `dt` ticks at velocity `v`.
fn displacement(v: i64, dt: i64) -> (d: i128)
    requires
        -SPEED_LIMIT <= v <= SPEED_LIMIT,
    ensures
        d == trunc_div(v * dt, TICKS_PER_SECOND as int),
        -0x2000_0000_0000_0000_0000_0000_0000_0000 <= d <= 0x2000_0000_0000_0000_0000_0000_0000_0000,
{
    assert(-0x2000_0000_0000_0000_0000_0000_0000_0000 <= v * dt
        <= 0x2000_0000_0000_0000_0000_0000_0000_0000) by (nonlinear_arith)
        requires
            -0x8000_0000 <= v <= 0x8000_0000,
            -0x8000_0000_0000_0000 <= dt <= 0x8000_0000_0000_0000,
    ;
    proof {
        crate::elastic::fixed::lemma_trunc_div_bounds(v * dt, TICKS_PER_SECOND as int);
    }
    div_trunc((v as i128) * (dt as i128), TICKS_PER_SECOND as i128)
}

impl Ball {
    /// Whether the ball's radius and mass are positive and everything is
    /// within its limit. Every ball that this library hands out is.
    pub open spec fn wf(&self) -> bool {
        self@.valid()
    }

    /// Whether a ball with these values can be made: the radius and the
    /// density are positive, and position, velocity, radius and mass are
    /// within their limits.
    pub open spec fn constructible(position: Vec2, velocity: Vec2, radius: i64, density: i64) -> bool {
        &&& 0 < radius <= RADIUS_LIMIT
        &&& 0 < density
        &&& density * (radius * radius) <= MASS_LIMIT
        &&& -COORD_LIMIT <= position.x <= COORD_LIMIT
        &&& -COORD_LIMIT <= position.y <= COORD_LIMIT
        &&& -SPEED_LIMIT <= velocity.x <= SPEED_LIMIT
        &&& -SPEED_LIMIT <= velocity.y <= SPEED_LIMIT
    }

    /// A ball of the given radius whose mass is `density` times the radius
    /// squared. A ball whose radius is not positive is rejected, and so is
    /// one whose density is not positive or that exceeds a limit.
    pub fn new(position: Vec2, velocity: Vec2, radius: i64, density: i64) -> (ball: Option<Ball>)
        ensures
            ball.is_some() == Self::constructible(position, velocity, radius, density),
            radius <= 0 ==> ball.is_none(),
            ball.is_some() ==> ball.unwrap().wf() && ball.unwrap()@ == (BallModel {
                x: position.x as int,
                y: position.y as int,
                vx: velocity.x as int,
                vy: velocity.y as int,
                radius: radius as int,
                mass: density * (radius * radius),
            }),
    {
        if radius <= 0 || radius > RADIUS_LIMIT || density <= 0 || density > MASS_LIMIT {
            proof {
                if density > MASS_LIMIT && radius > 0 {
                    assert(density * (radius * radius) > MASS_LIMIT) by (nonlinear_arith)
                        requires
                            density > MASS_LIMIT,
                            radius > 0,
                    ;
                }
            }
            return None;
        }
        if position.x < -COORD_LIMIT || position.x > COORD_LIMIT || position.y < -COORD_LIMIT
            || position.y > COORD_LIMIT {
            return None;
        }
        if velocity.x < -SPEED_LIMIT || velocity.x > SPEED_LIMIT || velocity.y < -SPEED_LIMIT
            || velocity.y > SPEED_LIMIT {
            return None;
        }
        assert(0 < radius * radius <= 0x1000_0000_0000) by (nonlinear_arith)
            requires
                0 < radius <= 0x40_0000,
        ;
        let square: i128 = (radius as i128) * (radius as i128);
        assert(0 < density * (radius * radius) <= 0x1000_0000_0000 * 0x1000_0000_0000)
            by (nonlinear_arith)
            requires
                0 < density <= 0x1000_0000_0000,
                0 < radius * radius <= 0x1000_0000_0000,
        ;
        let mass: i128 = (density as i128) * square;
        if mass > MASS_LIMIT as i128 {
            return None;
        }
        Some(Ball { position, velocity, radius, mass: mass as i64 })
    }

    /// The centre of the ball.
    pub fn position(&self) -> (p: Vec2)
        ensures
            p.x == self@.x,
            p.y == self@.y,
    {
        self.position
    }

    /// The velocity of the ball, in length units per second.
    pub fn velocity(&self) -> (v: Vec2)
        ensures
            v.x == self@.vx,
            v.y == self@.vy,
    {
        self.velocity
    }

    /// The radius of the ball.
    pub fn radius(&self) -> (r: i64)
        ensures
            r == self@.radius,
    {
        self.radius
    }

    /// The mass of the ball.
    pub fn mass(&self) -> (m: i64)
        ensures
            m == self@.mass,
    {
        self.mass
    }

    /// The same ball at another place and with another velocity.
    pub(crate) fn placed(self, position: Vec2, velocity: Vec2) -> (ball: Ball)
        requires
            self.wf(),
            -COORD_LIMIT <= position.x <= COORD_LIMIT,
            -COORD_LIMIT <= position.y <= COORD_LIMIT,
            -SPEED_LIMIT <= velocity.x <= SPEED_LIMIT,
            -SPEED_LIMIT <= velocity.y <= SPEED_LIMIT,
        ensures
            ball.wf(),
            ball@ == (BallModel {
                x: position.x as int,
                y: position.y as int,
                vx: velocity.x as int,
                vy: velocity.y as int,
                ..self@
            }),
    {
        Ball { position, velocity, radius: self.radius, mass: self.mass }
    }

    /// Applies the wall rule along one axis, for walls at `lower` and
    /// `upper`: a ball that reaches beyond a wall is put against it, and its
    /// velocity along the axis is made to point back inside.
    pub fn reflect_axis(&mut self, axis: Axis, lower: i64, upper: i64)
        requires
            old(self).wf(),
            -ARENA_LIMIT <= lower <= ARENA_LIMIT,
            -ARENA_LIMIT <= upper <= ARENA_LIMIT,
        ensures
            final(self)@ == old(self)@.reflected(axis, lower as int, upper as int),
            final(self).wf(),
    {
        match axis {
            Axis::X => {
                let (p, v) = reflect(self.position.x as i128, self.velocity.x, self.radius, lower, upper);
                self.position.x = p;
                self.velocity.x = v;
            },
            Axis::Y => {
                let (p, v) = reflect(self.position.y as i128, self.velocity.y, self.radius, lower, upper);
                self.position.y = p;
                self.velocity.y = v;
            },
        }
    }

    /// Moves the ball by `dt` ticks of free flight and then applies the wall
    /// rule along X and along Y in an arena of the given size.
    pub fn update(&mut self, dt: i64, width: i64, height: i64)
        requires
            old(self).wf(),
            0 < width <= ARENA_LIMIT,
            0 < height <= ARENA_LIMIT,
        ensures
            final(self)@ == old(self)@.updated(dt as int, width as int, height as int),
            final(self).wf(),
    {
        let x: i128 = self.position.x as i128 + displacement(self.velocity.x, dt);
        let y: i128 = self.position.y as i128 + displacement(self.velocity.y, dt);
        let (px, vx) = reflect(x, self.velocity.x, self.radius, 0, width);
        let (py, vy) = reflect(y, self.velocity.y, self.radius, 0, height);
        self.position = Vec2 { x: px, y: py };
        self.velocity = Vec2 { x: vx, y: vy };
    }
}

} // verus!
