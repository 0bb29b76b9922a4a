//! Random balls: drawn by an outside generator, made and placed by rules
//! that hold whatever is drawn.

use crate::elastic::ball::{Ball, BallModel, Vec2, ARENA_LIMIT, RADIUS_LIMIT, SPEED_LIMIT};
use crate::elastic::collision::overlapping;
use crate::elastic::world::{World, WorldModel, TIME_SCALE_ONE};
use rand::Rng;
use vstd::prelude::*;

verus! {

/// How often a free place is looked for before a ball is put where it
/// overlaps another.
pub const PLACEMENT_ATTEMPTS: u32 = 200;

/// `rand::Rng::gen_range` on the generator of `rand::thread_rng`, for the
/// range `low..high`: the number drawn is at least `low` and below `high`.
/// Nothing else is claimed of it, and two draws may differ.
#[verifier::external_body]
fn draw(low: i64, high: i64) -> (r: i64)
    requires
        low < high,
    ensures
        low <= r < high,
{
    rand::thread_rng().gen_range(low..high)
}

/// The ranges from which random balls are drawn: radii in
/// `min_radius..max_radius`, and each velocity component in
/// `-max_speed..max_speed`.
#[derive(Clone, Copy, Debug)]
pub struct Ranges {
    pub min_radius: i64,
    pub max_radius: i64,
    pub max_speed: i64,
}

impl Ranges {
    /// Whether balls can be drawn from these ranges for an arena of the
    /// given size: the ranges are not empty and within the limits, and a
    /// ball of any radius in the range fits between the walls with room to
    /// spare.
    pub open spec fn fit(self, width: int, height: int) -> bool {
        &&& 0 < self.min_radius < self.max_radius <= RADIUS_LIMIT
        &&& 2 * self.max_radius <= width <= ARENA_LIMIT
        &&& 2 * self.max_radius <= height <= ARENA_LIMIT
        &&& 0 < self.max_speed <= SPEED_LIMIT
    }

    /// What holds of every ball that is drawn from these ranges for an
    /// arena of the given size: its radius and its velocity are within the
    /// ranges, its density is 1, and it lies within the arena.
    pub open spec fn hold(self, ball: BallModel, width: int, height: int) -> bool {
        &&& self.min_radius <= ball.radius < self.max_radius
        &&& ball.mass == ball.radius * ball.radius
        &&& ball.contained(width, height)
        &&& -self.max_speed <= ball.vx < self.max_speed
        &&& -self.max_speed <= ball.vy < self.max_speed
    }

    /// Whether balls can be drawn from these ranges for an arena of the
    /// given size.
    pub fn fits(&self, width: i64, height: i64) -> (r: bool)
        ensures
            r == self.fit(width as int, height as int),
    {
        0 < self.min_radius && self.min_radius < self.max_radius && self.max_radius
            <= RADIUS_LIMIT && 2 * self.max_radius <= width && width <= ARENA_LIMIT && 2
            * self.max_radius <= height && height <= ARENA_LIMIT && 0 < self.max_speed
            && self.max_speed <= SPEED_LIMIT
    }
}

impl Ball {
    /// A ball of the given radius and of density 1, at a random place where
    /// it lies within the arena, with random velocity components in
    /// `-max_speed..max_speed`.
    pub fn random_of_radius(width: i64, height: i64, radius: i64, max_speed: i64) -> (ball: Ball)
        requires
            0 < radius <= RADIUS_LIMIT,
            2 * radius < width <= ARENA_LIMIT,
            2 * radius < height <= ARENA_LIMIT,
            0 < max_speed <= SPEED_LIMIT,
        ensures
            ball.wf(),
            ball@.radius == radius,
            ball@.mass == radius * radius,
            ball@.contained(width as int, height as int),
            -max_speed <= ball@.vx < max_speed,
            -max_speed <= ball@.vy < max_speed,
    {
        let position = Vec2 { x: draw(radius, width - radius), y: draw(radius, height - radius) };
        let velocity = Vec2 { x: draw(-max_speed, max_speed), y: draw(-max_speed, max_speed) };
        assert(1 * (radius * radius) <= 0x1000_0000_0000) by (nonlinear_arith)
            requires
                0 < radius <= 0x40_0000,
        ;
        Ball::new(position, velocity, radius, 1).unwrap()
    }

    /// A ball of a random radius and of density 1, at a random place where
    /// it lies within the arena, with a random velocity.
    pub fn random(width: i64, height: i64, ranges: Ranges) -> (ball: Ball)
        requires
            ranges.fit(width as int, height as int),
        ensures
            ball.wf(),
            ranges.hold(ball@, width as int, height as int),
    {
        let radius = draw(ranges.min_radius, ranges.max_radius);
        Ball::random_of_radius(width, height, radius, ranges.max_speed)
    }
}

impl World {
    /// Adds a random ball, as `Ball::random` draws it for this arena. A
    /// place where it overlaps no ball of the world is looked for
    /// `PLACEMENT_ATTEMPTS` times; if none is found, the ball is put where
    /// one more draw falls. Returns whether the place is free.
    pub fn add_random_ball(&mut self, ranges: Ranges) -> (free: bool)
        requires
            old(self).wf(),
            ranges.fit(old(self)@.width, old(self)@.height),
        ensures
            final(self).wf(),
            final(self)@.balls.len() == old(self)@.balls.len() + 1,
            final(self)@ == (WorldModel {
                balls: old(self)@.balls.push(final(self)@.balls.last()),
                ..old(self)@
            }),
            ranges.hold(final(self)@.balls.last(), old(self)@.width, old(self)@.height),
            free == !exists|k: int|
                0 <= k < old(self)@.balls.len() && #[trigger] overlapping(
                    old(self)@.balls[k],
                    final(self)@.balls.last(),
                ),
    {
        let width = self.width();
        let height = self.height();
        let radius = draw(ranges.min_radius, ranges.max_radius);
        let mut attempt: u32 = 0;
        while attempt < PLACEMENT_ATTEMPTS
            invariant
                *self == *old(self),
                self.wf(),
                width == self@.width,
                height == self@.height,
                ranges.min_radius <= radius < ranges.max_radius,
                ranges.fit(width as int, height as int),
            decreases PLACEMENT_ATTEMPTS - attempt,
        {
            let ball = Ball::random_of_radius(width, height, radius, ranges.max_speed);
            if !self.overlaps_any(&ball) {
                self.add_ball(ball);
                assert(self@.balls.last() == ball@);
                return true;
            }
            attempt += 1;
        }
        let ball = Ball::random_of_radius(width, height, radius, ranges.max_speed);
        let free = !self.overlaps_any(&ball);
        self.add_ball(ball);
        assert(self@.balls.last() == ball@);
        free
    }
}

/// A world of the given size with `count` random balls, each added as
/// `World::add_random_ball` adds it: it runs at the speed of the host's
/// clock, and every ball lies within the arena.
pub fn random_world(width: i64, height: i64, count: usize, ranges: Ranges) -> (world: World)
    requires
        ranges.fit(width as int, height as int),
    ensures
        world.wf(),
        world@.width == width,
        world@.height == height,
        !world@.paused,
        world@.time_scale == TIME_SCALE_ONE,
        world@.balls.len() == count,
        forall|k: int|
            0 <= k < count ==> ranges.hold(#[trigger] world@.balls[k], width as int, height as int),
{
    let mut world = World::new(width, height);
    let mut n: usize = 0;
    while n < count
        invariant
            n <= count,
            world.wf(),
            world@.width == width,
            world@.height == height,
            !world@.paused,
            world@.time_scale == TIME_SCALE_ONE,
            world@.balls.len() == n,
            ranges.fit(width as int, height as int),
            forall|k: int|
                0 <= k < n ==> ranges.hold(#[trigger] world@.balls[k], width as int, height as int),
        decreases count - n,
    {
        world.add_random_ball(ranges);
        n += 1;
    }
    world
}

} // verus!
