use handouts::elastic::ball::{
    Axis, Ball, Vec2, ARENA_LIMIT, COORD_LIMIT, MASS_LIMIT, RADIUS_LIMIT, SPEED_LIMIT,
    TICKS_PER_SECOND,
};
use handouts::elastic::collision::{overlaps, resolve, resolve_collision};
use handouts::elastic::fixed::{clamp_to, div_trunc, int_sqrt};
use handouts::elastic::spawn::{random_world, Ranges};
use handouts::elastic::world::{World, MAX_SUBSTEP, TIME_SCALE_ONE};

const EPS: f64 = 1e-4;

/// Length units in one unit of the scenes below.
const UNIT: f64 = 65536.0;

fn fx(v: f64) -> i64 {
    (v * UNIT).round() as i64
}

fn fl(v: i64) -> f64 {
    v as f64 / UNIT
}

fn ticks(seconds: f64) -> i64 {
    (seconds * TICKS_PER_SECOND as f64).round() as i64
}

fn ball(x: f64, y: f64, vx: f64, vy: f64, radius: f64, density: i64) -> Ball {
    Ball::new(
        Vec2 { x: fx(x), y: fx(y) },
        Vec2 { x: fx(vx), y: fx(vy) },
        fx(radius),
        density,
    )
    .unwrap()
}

fn raw(x: i64, y: i64, vx: i64, vy: i64, radius: i64, density: i64) -> Ball {
    Ball::new(Vec2 { x, y }, Vec2 { x: vx, y: vy }, radius, density).unwrap()
}

fn ranges(min_radius: i64, max_radius: i64, max_speed: i64) -> Ranges {
    Ranges { min_radius, max_radius, max_speed }
}

fn state(b: &Ball) -> (i64, i64, i64, i64) {
    (b.position().x, b.position().y, b.velocity().x, b.velocity().y)
}

fn mass_of(b: &Ball) -> f64 {
    b.mass() as f64 / (UNIT * UNIT)
}

fn kinetic_energy(world: &World) -> f64 {
    world
        .balls()
        .iter()
        .map(|b| {
            let v = b.velocity();
            0.5 * mass_of(b) * (fl(v.x) * fl(v.x) + fl(v.y) * fl(v.y))
        })
        .sum()
}

fn momentum(world: &World) -> (f64, f64) {
    world.balls().iter().fold((0.0, 0.0), |acc, b| {
        let v = b.velocity();
        (acc.0 + mass_of(b) * fl(v.x), acc.1 + mass_of(b) * fl(v.y))
    })
}

#[test]
fn reflects_on_vertical_wall() {
    let mut world = World::new(fx(10.0), fx(10.0));
    world.add_ball(ball(9.0, 5.0, 3.0, 0.0, 1.0, 1));

    world.step(ticks(1.0));

    assert!((fl(world.balls()[0].position().x) - 9.0).abs() < EPS);
    assert!((fl(world.balls()[0].velocity().x) + 3.0).abs() < EPS);
}

#[test]
fn head_on_equal_mass_collision_swaps_velocities() {
    // discs that only touch are not in contact: nothing is exchanged
    let mut world = World::new(fx(30.0), fx(10.0));
    world.add_ball(ball(10.0, 5.0, 1.0, 0.0, 1.0, 1));
    world.add_ball(ball(12.0, 5.0, -1.0, 0.0, 1.0, 1));

    world.step(0);

    assert!((fl(world.balls()[0].velocity().x) - 1.0).abs() < EPS);
    assert!((fl(world.balls()[1].velocity().x) + 1.0).abs() < EPS);

    // once they overlap, they swap their velocities
    let mut world = World::new(fx(30.0), fx(10.0));
    world.add_ball(ball(10.0, 5.0, 1.0, 0.0, 1.0, 1));
    world.add_ball(ball(11.9, 5.0, -1.0, 0.0, 1.0, 1));

    world.step(0);

    assert!((fl(world.balls()[0].velocity().x) + 1.0).abs() < EPS);
    assert!((fl(world.balls()[1].velocity().x) - 1.0).abs() < EPS);
    assert_eq!(world.balls()[0].velocity().x, fx(-1.0));
    assert_eq!(world.balls()[1].velocity().x, fx(1.0));
}

#[test]
fn conserves_total_momentum_and_energy_for_ball_collision() {
    let mut world = World::new(fx(40.0), fx(40.0));
    world.add_ball(ball(10.0, 10.0, 3.0, 1.5, 1.0, 2));
    world.add_ball(ball(11.8, 10.0, -0.5, 0.2, 1.0, 1));
    assert_eq!(mass_of(&world.balls()[0]), 2.0);
    assert_eq!(mass_of(&world.balls()[1]), 1.0);

    let before_p = momentum(&world);
    let before_e = kinetic_energy(&world);

    world.step(0);

    let after_p = momentum(&world);
    let after_e = kinetic_energy(&world);

    assert!((before_p.0 - after_p.0).abs() < 1e-3);
    assert!((before_p.1 - after_p.1).abs() < 1e-3);
    assert!((before_e - after_e).abs() < 1e-3);
    // the collision did happen
    assert_eq!(state(&world.balls()[0]), (650991, 655360, 43691, 98304));
    assert_eq!(state(&world.balls()[1]), (782063, 655360, 273066, 13107));
}

#[test]
fn test_initialization() {
    let b = ball(0.0, 0.0, 10.0, 0.0, 10.0, 1);
    assert_eq!(mass_of(&b), 100.0);
    assert_eq!(b.mass(), fx(10.0) * fx(10.0));
    assert_eq!(b.radius(), fx(10.0));
    assert_eq!(b.position(), Vec2 { x: 0, y: 0 });
    assert_eq!(b.velocity(), Vec2 { x: fx(10.0), y: 0 });
}

#[test]
fn test_collision_resolution() {
    // Head-on collision of equal mass balls
    let mut b1 = ball(0.0, 0.0, 10.0, 0.0, 10.0, 1);
    let b2 = ball(20.0, 0.0, -10.0, 0.0, 10.0, 1); // Just touching at r=10

    // Force a slight overlap to trigger collision logic
    let closer = Vec2 { x: fx(19.9), y: b2.position().y };
    let mut b2 = Ball::new(closer, b2.velocity(), b2.radius(), 1).unwrap();

    resolve_collision(&mut b1, &mut b2);

    // They bounce back
    assert!(b1.velocity().x < 0);
    assert!(b2.velocity().x > 0, "b2 should move right");
    assert_eq!(b1.velocity().x, fx(-10.0));
    assert_eq!(b2.velocity().x, fx(10.0));
}

#[test]
fn new_computes_mass_from_density_and_radius() {
    let b = raw(1, 2, 3, 4, 7, 5);
    assert_eq!(b.mass(), 5 * 7 * 7);
    assert_eq!(state(&b), (1, 2, 3, 4));
    assert_eq!(b.radius(), 7);
}

#[test]
fn new_rejects_radius_that_is_not_positive() {
    let o = Vec2 { x: 0, y: 0 };
    assert!(Ball::new(o, o, 0, 1).is_none());
    assert!(Ball::new(o, o, -1, 1).is_none());
    assert!(Ball::new(o, o, i64::MIN, 1).is_none());
    assert!(Ball::new(o, o, 1, 1).is_some());
}

#[test]
fn new_rejects_what_exceeds_a_limit() {
    let o = Vec2 { x: 0, y: 0 };
    assert!(Ball::new(o, o, 1, 0).is_none());
    assert!(Ball::new(o, o, 1, -3).is_none());
    assert!(Ball::new(o, o, RADIUS_LIMIT, 1).is_some());
    assert_eq!(Ball::new(o, o, RADIUS_LIMIT, 1).unwrap().mass(), MASS_LIMIT);
    assert!(Ball::new(o, o, RADIUS_LIMIT + 1, 1).is_none());
    assert!(Ball::new(o, o, RADIUS_LIMIT, 2).is_none());
    assert!(Ball::new(o, o, 1, MASS_LIMIT).is_some());
    assert!(Ball::new(o, o, 1, MASS_LIMIT + 1).is_none());
    assert!(Ball::new(o, o, 2, i64::MAX).is_none());
    assert!(Ball::new(Vec2 { x: COORD_LIMIT, y: -COORD_LIMIT }, o, 1, 1).is_some());
    assert!(Ball::new(Vec2 { x: COORD_LIMIT + 1, y: 0 }, o, 1, 1).is_none());
    assert!(Ball::new(Vec2 { x: 0, y: -COORD_LIMIT - 1 }, o, 1, 1).is_none());
    assert!(Ball::new(o, Vec2 { x: SPEED_LIMIT, y: -SPEED_LIMIT }, 1, 1).is_some());
    assert!(Ball::new(o, Vec2 { x: SPEED_LIMIT + 1, y: 0 }, 1, 1).is_none());
    assert!(Ball::new(o, Vec2 { x: 0, y: -SPEED_LIMIT - 1 }, 1, 1).is_none());
}

#[test]
fn reflect_axis_at_the_lower_wall() {
    let mut b = raw(3, 50, -8, 6, 5, 1);
    b.reflect_axis(Axis::X, 0, 100);
    assert_eq!(state(&b), (5, 50, 8, 6));
    // a ball beyond the wall that already moves inward keeps its velocity
    let mut b = raw(-20, 50, 8, 6, 5, 1);
    b.reflect_axis(Axis::X, 0, 100);
    assert_eq!(state(&b), (5, 50, 8, 6));
}

#[test]
fn reflect_axis_at_the_upper_wall() {
    let mut b = raw(50, 97, 4, 9, 5, 1);
    b.reflect_axis(Axis::Y, 0, 100);
    assert_eq!(state(&b), (50, 95, 4, -9));
    let mut b = raw(50, 130, 4, -9, 5, 1);
    b.reflect_axis(Axis::Y, 0, 100);
    assert_eq!(state(&b), (50, 95, 4, -9));
}

#[test]
fn reflect_axis_leaves_a_ball_between_the_walls_alone() {
    let mut b = raw(5, 95, -4, 9, 5, 1);
    b.reflect_axis(Axis::X, 0, 100);
    b.reflect_axis(Axis::Y, 0, 100);
    assert_eq!(state(&b), (5, 95, -4, 9));
    let mut b = raw(40, 60, -4, 9, 5, 1);
    b.reflect_axis(Axis::X, -10, 45);
    assert_eq!(state(&b), (40, 60, -4, 9));
    b.reflect_axis(Axis::X, 36, 100);
    assert_eq!(state(&b), (41, 60, 4, 9));
}

#[test]
fn reflect_axis_prefers_the_lower_wall_in_a_narrow_arena() {
    let mut b = raw(4, 0, -3, 0, 5, 1);
    b.reflect_axis(Axis::X, 0, 8);
    assert_eq!(state(&b), (5, 0, 3, 0));
}

#[test]
fn update_moves_by_velocity_times_time() {
    let mut b = raw(1000, 2000, 240, -360, 10, 1);
    b.update(TICKS_PER_SECOND, 100_000, 100_000);
    assert_eq!(state(&b), (1240, 1640, 240, -360));
    b.update(TICKS_PER_SECOND / 2, 100_000, 100_000);
    assert_eq!(state(&b), (1360, 1460, 240, -360));
    b.update(0, 100_000, 100_000);
    assert_eq!(state(&b), (1360, 1460, 240, -360));
    b.update(-TICKS_PER_SECOND, 100_000, 100_000);
    assert_eq!(state(&b), (1120, 1820, 240, -360));
}

#[test]
fn update_rounds_the_displacement_toward_zero() {
    // 250 units per second for 1000 ticks: 2.08 units
    let mut b = raw(1000, 1000, 250, -250, 10, 1);
    b.update(1000, 100_000, 100_000);
    assert_eq!(state(&b), (1002, 998, 250, -250));
    // 100 units per second for 1000 ticks: less than a unit
    let mut b = raw(1000, 1000, 100, -100, 10, 1);
    b.update(1000, 100_000, 100_000);
    assert_eq!(state(&b), (1000, 1000, 100, -100));
}

#[test]
fn update_reflects_in_a_corner_on_both_axes() {
    let mut b = raw(20, 980, -100, 100, 10, 1);
    b.update(TICKS_PER_SECOND, 1000, 1000);
    assert_eq!(state(&b), (10, 990, 100, -100));
}

#[test]
fn update_keeps_the_other_component_when_one_wall_is_hit() {
    let mut b = raw(980, 500, 100, 30, 10, 1);
    b.update(TICKS_PER_SECOND, 1000, 1000);
    assert_eq!(state(&b), (990, 530, -100, 30));
}

#[test]
fn update_with_extreme_time_ends_against_a_wall() {
    let mut b = raw(500, 500, SPEED_LIMIT, -SPEED_LIMIT, 10, 1);
    b.update(i64::MAX, 1000, 1000);
    assert_eq!(state(&b), (990, 10, -SPEED_LIMIT, SPEED_LIMIT));
    b.update(i64::MIN, 1000, 1000);
    assert_eq!(state(&b), (990, 10, -SPEED_LIMIT, SPEED_LIMIT));
}

#[test]
fn update_in_the_largest_arena() {
    let mut b = raw(COORD_LIMIT, -COORD_LIMIT, 0, 0, RADIUS_LIMIT, 1);
    b.update(0, ARENA_LIMIT, ARENA_LIMIT);
    assert_eq!(state(&b), (ARENA_LIMIT - RADIUS_LIMIT, RADIUS_LIMIT, 0, 0));
}

#[test]
fn overlaps_is_strict() {
    let a = raw(0, 0, 0, 0, 40, 1);
    assert!(overlaps(&a, &raw(30, 40, 0, 0, 40, 1)));
    assert!(overlaps(&a, &raw(0, 0, 0, 0, 1, 1)));
    assert!(overlaps(&a, &raw(47, 64, 0, 0, 40, 1)));
    assert!(!overlaps(&a, &raw(48, 64, 0, 0, 40, 1)));
    assert!(!overlaps(&a, &raw(-COORD_LIMIT, COORD_LIMIT, 0, 0, RADIUS_LIMIT, 1)));
}

#[test]
fn resolve_pushes_apart_and_exchanges_the_impulse() {
    let a = raw(0, 0, 5, 0, 40, 1);
    let b = raw(30, 40, 0, 0, 40, 1);
    let (a2, b2) = resolve(a, b);
    assert_eq!(state(&a2), (-9, -12, 4, -2));
    assert_eq!(state(&b2), (39, 52, 1, 2));
    assert_eq!((a2.radius(), a2.mass()), (40, 1600));
    assert_eq!((b2.radius(), b2.mass()), (40, 1600));
}

#[test]
fn resolve_shares_by_the_other_balls_mass() {
    let a = raw(100, 100, 700, -300, 30, 2);
    let b = raw(136, 148, -200, 100, 50, 1);
    assert_eq!((a.mass(), b.mass()), (1800, 2500));
    let (a2, b2) = resolve(a, b);
    assert_eq!(state(&a2), (94, 91, 547, -504));
    assert_eq!(state(&b2), (141, 154, -90, 247));
}

#[test]
fn resolve_measures_the_distance_finely() {
    // the centres are sqrt(3394) = 58.26 apart
    let a = raw(0, 0, 90, 20, 40, 2);
    let b = raw(37, 45, -10, -60, 30, 1);
    let (a2, b2) = resolve(a, b);
    assert_eq!(state(&a2), (-1, -1, 56, -22));
    assert_eq!(state(&b2), (42, 52, 114, 91));
}

#[test]
fn resolve_pushes_close_centres_until_the_discs_touch() {
    // the centres are sqrt(2) apart; each ball takes half of the overlap
    // of 2000 - sqrt(2) along the diagonal
    let a = raw(0, 0, 10, 10, 1000, 1);
    let b = raw(1, 1, 0, 0, 1000, 1);
    let (a2, b2) = resolve(a, b);
    assert_eq!(state(&a2), (-706, -706, 0, 0));
    assert_eq!(state(&b2), (707, 707, 10, 10));
    // the centres are sqrt(34) apart
    let a = raw(0, 0, 10, 10, 30, 1);
    let b = raw(3, 5, 0, 0, 30, 1);
    let (a2, b2) = resolve(a, b);
    assert_eq!(state(&a2), (-13, -23, 3, -1));
    assert_eq!(state(&b2), (16, 28, 7, 11));
    // one unit apart, and the heavier ball moves a quarter of the way
    let a = raw(0, 0, 3, 1, 400, 1);
    let b = raw(1, 0, 0, 0, 400, 3);
    assert_eq!((a.mass(), b.mass()), (160_000, 480_000));
    let (a2, b2) = resolve(a, b);
    assert_eq!(a2.position(), Vec2 { x: -599, y: 0 });
    assert_eq!(b2.position(), Vec2 { x: 200, y: 0 });
}

#[test]
fn resolved_pair_ends_about_the_sum_of_the_radii_apart() {
    let pairs = [
        (raw(0, 0, 5, 0, 40, 1), raw(30, 40, 0, 0, 40, 1)),
        (raw(100, 100, 700, -300, 30, 2), raw(136, 148, -200, 100, 50, 1)),
        (raw(0, 0, 90, 20, 40, 2), raw(37, 45, -10, -60, 30, 1)),
        (raw(0, 0, 10, 10, 1000, 1), raw(1, 1, 0, 0, 1000, 1)),
        (raw(0, 0, 10, 10, 30, 1), raw(3, 5, 0, 0, 30, 1)),
        (raw(0, 0, 1, 0, RADIUS_LIMIT, 1), raw(1, 0, 0, 0, RADIUS_LIMIT, 1)),
        (raw(7, -9, 1, 1, 12_345, 3), raw(4_000, 6_000, 0, 0, 23_456, 1)),
    ];
    for (a, b) in pairs {
        assert!(overlaps(&a, &b));
        let (a2, b2) = resolve(a, b);
        let reach = (a.radius() + b.radius()) as f64;
        let dx = (b2.position().x - a2.position().x) as f64;
        let dy = (b2.position().y - a2.position().y) as f64;
        let apart = (dx * dx + dy * dy).sqrt();
        assert!(reach - 3.0 < apart && apart < reach + 0.01, "{} against {}", apart, reach);
        // the centre of mass stays, up to the rounding
        let shift_x = a.mass() * (a2.position().x - a.position().x)
            + b.mass() * (b2.position().x - b.position().x);
        let shift_y = a.mass() * (a2.position().y - a.position().y)
            + b.mass() * (b2.position().y - b.position().y);
        let heavier = a.mass().max(b.mass());
        assert!(shift_x.abs() < heavier && shift_y.abs() < heavier);
    }
}

#[test]
fn resolved_pair_keeps_its_momentum_up_to_rounding() {
    let a = raw(100, 100, 700, -300, 30, 2);
    let b = raw(136, 148, -200, 100, 50, 1);
    let (a2, b2) = resolve(a, b);
    let px = a.mass() * (a2.velocity().x - a.velocity().x)
        + b.mass() * (b2.velocity().x - b.velocity().x);
    let py = a.mass() * (a2.velocity().y - a.velocity().y)
        + b.mass() * (b2.velocity().y - b.velocity().y);
    assert_eq!((px, py), (-400, 300));
    assert!(px.abs() < 2500 && py.abs() < 2500);
}

#[test]
fn resolved_pair_keeps_its_energy_up_to_rounding() {
    let a = raw(100, 100, 700, -300, 30, 2);
    let b = raw(136, 148, -200, 100, 50, 1);
    let (a2, b2) = resolve(a, b);
    let doubled = |b: &Ball| {
        let v = b.velocity();
        b.mass() * (v.x * v.x + v.y * v.y)
    };
    let room = |b: &Ball| {
        let v = b.velocity();
        b.mass() * (2 * (v.x.abs() + v.y.abs()) + 2)
    };
    let change = doubled(&a2) + doubled(&b2) - doubled(&a) - doubled(&b);
    assert_eq!(change, -422500);
    assert!(change.abs() < room(&a2) + room(&b2));
}

#[test]
fn resolve_reverses_the_closing_speed_and_keeps_the_rest() {
    let a = raw(100, 100, 700, -300, 30, 2);
    let b = raw(136, 148, -200, 100, 50, 1);
    let (a2, b2) = resolve(a, b);
    let (dx, dy) = (36, 48);
    let along = |a: &Ball, b: &Ball| {
        (b.velocity().x - a.velocity().x) * dx + (b.velocity().y - a.velocity().y) * dy
    };
    assert_eq!(along(&a, &b), -13200);
    assert_eq!(along(&a2, &b2), 13116);
    assert!((along(&a2, &b2) + along(&a, &b)).abs() < 2 * (dx + dy));
    // across the line of centres the velocities stay, up to the rounding
    let across = |before: &Ball, after: &Ball| {
        dx * (after.velocity().y - before.velocity().y)
            - dy * (after.velocity().x - before.velocity().x)
    };
    assert_eq!(across(&a, &a2), 0);
    assert_eq!(across(&b, &b2), 12);
    assert!(across(&b, &b2).abs() < dx + dy);
}

#[test]
fn resolve_swaps_velocities_of_equal_masses_head_on() {
    let a = raw(1000, 1000, 321, 0, 100, 1);
    let b = raw(1150, 1000, -321, 0, 100, 1);
    let (a2, b2) = resolve(a, b);
    assert_eq!(a2.velocity(), Vec2 { x: -321, y: 0 });
    assert_eq!(b2.velocity(), Vec2 { x: 321, y: 0 });
    // along a slanted line of centres too
    let a = raw(1000, 1000, 90, 120, 100, 1);
    let b = raw(1030, 1040, -90, -120, 100, 1);
    let (a2, b2) = resolve(a, b);
    assert_eq!(a2.velocity(), Vec2 { x: -90, y: -120 });
    assert_eq!(b2.velocity(), Vec2 { x: 90, y: 120 });
}

#[test]
fn resolve_leaves_a_separating_pair_alone() {
    let a = raw(1000, 1000, -50, 0, 100, 1);
    let b = raw(1150, 1000, 50, 10, 100, 3);
    let (a2, b2) = resolve(a, b);
    assert_eq!(state(&a2), state(&a));
    assert_eq!(state(&b2), state(&b));
}

#[test]
fn resolve_handles_a_pair_at_rest_against_each_other() {
    // no closing speed: pushed apart, velocities kept
    let a = raw(1000, 1000, 7, 7, 100, 1);
    let b = raw(1150, 1000, 7, 7, 100, 1);
    let (a2, b2) = resolve(a, b);
    assert_eq!(state(&a2), (975, 1000, 7, 7));
    assert_eq!(state(&b2), (1175, 1000, 7, 7));
}

#[test]
fn resolve_leaves_coincident_centres_alone() {
    let a = raw(1000, 1000, 50, 0, 100, 1);
    let b = raw(1000, 1000, -50, 0, 80, 1);
    let (a2, b2) = resolve(a, b);
    assert_eq!(state(&a2), state(&a));
    assert_eq!(state(&b2), state(&b));
}

#[test]
fn resolve_leaves_distant_and_touching_pairs_alone() {
    let a = raw(0, 0, 50, 0, 40, 1);
    for b in [raw(48, 64, -50, 0, 40, 1), raw(500, 0, -50, 0, 40, 1)] {
        let (a2, b2) = resolve(a, b);
        assert_eq!(state(&a2), state(&a));
        assert_eq!(state(&b2), state(&b));
    }
}

#[test]
fn resolve_saturates_at_the_speed_limit() {
    let a = raw(0, 0, SPEED_LIMIT, 0, 100, 1);
    let b = Ball::new(
        Vec2 { x: 150, y: 0 },
        Vec2 { x: -SPEED_LIMIT, y: 0 },
        100,
        1,
    )
    .unwrap();
    assert_eq!(a.mass(), 10000);
    let light = raw(0, 0, SPEED_LIMIT, 0, 1, 1);
    let heavy = raw(50, 0, -SPEED_LIMIT, 0, 100, 1);
    let (l2, h2) = resolve(light, heavy);
    assert_eq!(l2.velocity(), Vec2 { x: -SPEED_LIMIT, y: 0 });
    assert_eq!(h2.velocity(), Vec2 { x: -2146624741, y: 0 });
    let (a2, b2) = resolve(a, b);
    assert_eq!(a2.velocity(), Vec2 { x: -SPEED_LIMIT, y: 0 });
    assert_eq!(b2.velocity(), Vec2 { x: SPEED_LIMIT, y: 0 });
}

#[test]
fn resolve_saturates_at_the_coordinate_limit() {
    let a = raw(COORD_LIMIT - 100, 0, 10, 0, 100, 1);
    let b = raw(COORD_LIMIT, 0, -10, 0, 100, 1);
    let (a2, b2) = resolve(a, b);
    assert_eq!(a2.position(), Vec2 { x: COORD_LIMIT - 150, y: 0 });
    assert_eq!(b2.position(), Vec2 { x: COORD_LIMIT, y: 0 });
}

#[test]
fn resolve_at_the_limits_of_every_quantity() {
    let a = raw(0, 0, SPEED_LIMIT, SPEED_LIMIT, RADIUS_LIMIT, 1);
    let b = raw(
        RADIUS_LIMIT,
        RADIUS_LIMIT,
        -SPEED_LIMIT,
        -SPEED_LIMIT,
        RADIUS_LIMIT,
        1,
    );
    let (a2, b2) = resolve(a, b);
    assert_eq!(a2.velocity(), Vec2 { x: -SPEED_LIMIT, y: -SPEED_LIMIT });
    assert_eq!(b2.velocity(), Vec2 { x: SPEED_LIMIT, y: SPEED_LIMIT });
}

#[test]
fn world_starts_empty_and_running() {
    let world = World::new(800, 600);
    assert_eq!(world.ball_count(), 0);
    assert_eq!((world.width(), world.height()), (800, 600));
    assert!(!world.is_paused());
    assert_eq!(world.time_scale(), TIME_SCALE_ONE);
    assert!(world.balls().is_empty());
}

#[test]
fn world_adds_and_clears_balls() {
    let mut world = World::new(800, 600);
    world.add_ball(raw(100, 100, 1, 2, 10, 1));
    world.add_ball(raw(300, 300, 3, 4, 20, 1));
    assert_eq!(world.ball_count(), 2);
    assert_eq!(state(&world.balls()[0]), (100, 100, 1, 2));
    assert_eq!(state(&world.balls()[1]), (300, 300, 3, 4));
    world.clear();
    assert_eq!(world.ball_count(), 0);
    assert_eq!((world.width(), world.height()), (800, 600));
}

#[test]
fn resize_does_not_move_balls() {
    let mut world = World::new(800, 600);
    world.add_ball(raw(700, 500, 0, 0, 10, 1));
    world.resize(400, 300);
    assert_eq!((world.width(), world.height()), (400, 300));
    assert_eq!(state(&world.balls()[0]), (700, 500, 0, 0));
    // the next step puts the ball against the new walls
    world.step(0);
    assert_eq!(state(&world.balls()[0]), (390, 290, 0, 0));
}

#[test]
fn paused_world_does_not_advance() {
    let mut world = World::new(100_000, 100_000);
    world.add_ball(raw(1000, 1000, 2400, 2400, 10, 1));
    world.set_paused(true);
    assert!(world.is_paused());
    world.update(TICKS_PER_SECOND);
    assert_eq!(state(&world.balls()[0]), (1000, 1000, 2400, 2400));
    world.set_paused(false);
    world.update(TICKS_PER_SECOND);
    assert_eq!(state(&world.balls()[0]), (3400, 3400, 2400, 2400));
}

#[test]
fn update_takes_substeps_of_at_most_the_longest() {
    // 130 units per second move 1 unit in each full sub-step, and 130 in
    // one step of a second
    let mut world = World::new(100_000, 100_000);
    world.add_ball(raw(1000, 1000, 130, 0, 10, 1));
    world.update(TICKS_PER_SECOND);
    assert_eq!(world.balls()[0].position().x, 1000 + 120);
    world.step(TICKS_PER_SECOND);
    assert_eq!(world.balls()[0].position().x, 1000 + 120 + 130);
}

#[test]
fn update_ends_with_a_shorter_substep() {
    // 2500 ticks: sub-steps of 1000, 1000 and 500 ticks
    let mut world = World::new(100_000, 100_000);
    world.add_ball(raw(1000, 1000, 240, 0, 10, 1));
    world.update(2 * MAX_SUBSTEP + MAX_SUBSTEP / 2);
    assert_eq!(world.balls()[0].position().x, 1000 + 2 + 2 + 1);
    // the same sub-steps by hand
    let mut by_hand = World::new(100_000, 100_000);
    by_hand.add_ball(raw(1000, 1000, 240, 0, 10, 1));
    by_hand.step(MAX_SUBSTEP);
    by_hand.step(MAX_SUBSTEP);
    by_hand.step(MAX_SUBSTEP / 2);
    assert_eq!(state(&by_hand.balls()[0]), state(&world.balls()[0]));
}

#[test]
fn update_scales_the_interval() {
    let mut world = World::new(100_000, 100_000);
    world.add_ball(raw(1000, 1000, 240, 0, 10, 1));
    world.set_time_scale(2 * TIME_SCALE_ONE);
    assert_eq!(world.time_scale(), 2000);
    // 5000 ticks: five full sub-steps
    world.update(2500);
    assert_eq!(world.balls()[0].position().x, 1010);
    // 1250 ticks: one full sub-step and one of 250 ticks, which moves nothing
    world.set_time_scale(TIME_SCALE_ONE / 2);
    world.update(2500);
    assert_eq!(world.balls()[0].position().x, 1012);
    // less than a tick is no time at all
    world.set_time_scale(1);
    world.update(999);
    assert_eq!(world.balls()[0].position().x, 1012);
}

#[test]
fn update_ignores_an_interval_that_is_not_positive() {
    let mut world = World::new(1000, 1000);
    world.add_ball(raw(5000, 5000, 240, 0, 10, 1));
    world.update(0);
    assert_eq!(state(&world.balls()[0]), (5000, 5000, 240, 0));
    world.update(-TICKS_PER_SECOND);
    assert_eq!(state(&world.balls()[0]), (5000, 5000, 240, 0));
    world.update(i64::MIN);
    assert_eq!(state(&world.balls()[0]), (5000, 5000, 240, 0));
}

#[test]
fn update_contains_a_single_ball() {
    let mut world = World::new(1000, 800);
    world.add_ball(raw(5000, -300, 123_456, -654_321, 10, 1));
    let mut t = 1;
    for _ in 0..40 {
        world.update(t);
        let p = world.balls()[0].position();
        assert!(10 <= p.x && p.x <= 990, "x = {}", p.x);
        assert!(10 <= p.y && p.y <= 790, "y = {}", p.y);
        t = (t * 3) % 7919 + 1;
    }
}

#[test]
fn step_resolves_pairs_one_after_the_other() {
    let mut world = World::new(10_000, 1000);
    world.add_ball(raw(1000, 500, 300, 0, 100, 1));
    world.add_ball(raw(1150, 500, 0, 0, 100, 1));
    world.add_ball(raw(1300, 500, -300, 0, 100, 1));
    world.step(0);
    assert_eq!(state(&world.balls()[0]), (975, 500, 0, 0));
    assert_eq!(state(&world.balls()[1]), (1138, 500, -300, 0));
    assert_eq!(state(&world.balls()[2]), (1337, 500, 300, 0));
}

#[test]
fn step_moves_then_reflects_then_resolves() {
    // the balls meet only after they have flown
    let mut world = World::new(10_000, 1000);
    world.add_ball(raw(1000, 500, 100, 0, 100, 1));
    world.add_ball(raw(1400, 500, -100, 0, 100, 1));
    world.step(TICKS_PER_SECOND / 2);
    // flown to 1050 and 1350, not yet in contact
    assert_eq!(state(&world.balls()[0]), (1050, 500, 100, 0));
    assert_eq!(state(&world.balls()[1]), (1350, 500, -100, 0));
    world.step(TICKS_PER_SECOND / 2);
    // flown to 1100 and 1300: they touch, which is no contact
    assert_eq!(state(&world.balls()[0]), (1100, 500, 100, 0));
    assert_eq!(state(&world.balls()[1]), (1300, 500, -100, 0));
    world.step(TICKS_PER_SECOND / 10);
    // flown to 1110 and 1290: pushed apart by 10 each, velocities swapped
    assert_eq!(state(&world.balls()[0]), (1100, 500, -100, 0));
    assert_eq!(state(&world.balls()[1]), (1300, 500, 100, 0));
}

#[test]
fn step_can_push_a_ball_through_a_wall() {
    // after the walls, the pair's turn pushes the first ball out again
    let mut world = World::new(1000, 1000);
    world.add_ball(raw(100, 500, 0, 0, 100, 1));
    world.add_ball(raw(250, 500, -10, 0, 100, 1));
    world.step(0);
    assert_eq!(state(&world.balls()[0]), (75, 500, -10, 0));
    assert_eq!(state(&world.balls()[1]), (275, 500, 0, 0));
    // the next step puts it against the wall, and the pair pushes it out
    // once more
    world.step(0);
    assert_eq!(state(&world.balls()[0]), (88, 500, 0, 0));
    assert_eq!(state(&world.balls()[1]), (287, 500, 10, 0));
}

#[test]
fn overlaps_any_finds_a_ball_in_the_way() {
    let mut world = World::new(10_000, 1000);
    assert!(!world.overlaps_any(&raw(500, 500, 0, 0, 100, 1)));
    world.add_ball(raw(1000, 500, 0, 0, 100, 1));
    world.add_ball(raw(3000, 500, 0, 0, 100, 1));
    assert!(world.overlaps_any(&raw(3150, 500, 0, 0, 100, 1)));
    assert!(world.overlaps_any(&raw(1000, 500, 0, 0, 1, 1)));
    assert!(!world.overlaps_any(&raw(2000, 500, 0, 0, 100, 1)));
    assert!(!world.overlaps_any(&raw(1200, 500, 0, 0, 100, 1)));
}

#[test]
fn step_of_an_empty_world_does_nothing() {
    let mut world = World::new(1000, 1000);
    world.step(1000);
    world.update(100_000);
    assert_eq!(world.ball_count(), 0);
}

#[test]
fn int_sqrt_rounds_down() {
    assert_eq!(int_sqrt(0), 0);
    assert_eq!(int_sqrt(1), 1);
    assert_eq!(int_sqrt(3), 1);
    assert_eq!(int_sqrt(4), 2);
    assert_eq!(int_sqrt(3394), 58);
    assert_eq!(int_sqrt(99_999_999), 9_999);
    assert_eq!(int_sqrt(100_000_000), 10_000);
    assert_eq!(int_sqrt((1u128 << 126) - 1), (1u128 << 63) - 1);
}

#[test]
fn div_trunc_rounds_toward_zero() {
    assert_eq!(div_trunc(7, 2), 3);
    assert_eq!(div_trunc(-7, 2), -3);
    assert_eq!(div_trunc(6, 3), 2);
    assert_eq!(div_trunc(-6, 3), -2);
    assert_eq!(div_trunc(-1, 1000), 0);
    assert_eq!(div_trunc(0, 5), 0);
    assert_eq!(div_trunc(i128::MAX, 1), i128::MAX);
    assert_eq!(div_trunc(i128::MIN + 1, 1), i128::MIN + 1);
}

#[test]
fn clamp_to_holds_within_the_limit() {
    assert_eq!(clamp_to(5, 10), 5);
    assert_eq!(clamp_to(-5, 10), -5);
    assert_eq!(clamp_to(11, 10), 10);
    assert_eq!(clamp_to(-11, 10), -10);
    assert_eq!(clamp_to(i128::MAX, 0), 0);
    assert_eq!(clamp_to(i128::MIN, i64::MAX), -i64::MAX);
}

#[test]
fn random_ball_lies_within_the_arena() {
    for _ in 0..200 {
        let b = Ball::random(1000, 800, ranges(10, 40, 300));
        let (p, v, r) = (b.position(), b.velocity(), b.radius());
        assert!(10 <= r && r < 40);
        assert_eq!(b.mass(), r * r);
        assert!(r <= p.x && p.x < 1000 - r);
        assert!(r <= p.y && p.y < 800 - r);
        assert!(-300 <= v.x && v.x < 300);
        assert!(-300 <= v.y && v.y < 300);
    }
}

#[test]
fn random_ball_in_the_tightest_arena() {
    // one radius, and one place for it along each axis
    let b = Ball::random(21, 21, ranges(10, 11, 1));
    assert_eq!(b.radius(), 10);
    assert_eq!(b.position(), Vec2 { x: 10, y: 10 });
    assert!(b.velocity().x == -1 || b.velocity().x == 0);
    assert!(b.velocity().y == -1 || b.velocity().y == 0);
}

#[test]
fn random_balls_differ() {
    let balls: Vec<Ball> = (0..50)
        .map(|_| Ball::random_of_radius(1_000_000, 1_000_000, 10, 1000))
        .collect();
    assert!(balls.iter().any(|b| b.position().x != balls[0].position().x));
    assert!(balls.iter().any(|b| b.position().x != 10));
    assert!(balls.iter().any(|b| b.velocity().y != -1000));
}

#[test]
fn add_random_ball_finds_a_free_place() {
    let mut world = World::new(100_000, 100_000);
    for n in 1..=20 {
        let free = world.add_random_ball(ranges(100, 400, 3000));
        assert!(free);
        assert_eq!(world.ball_count(), n);
    }
    let balls = world.balls();
    for i in 0..balls.len() {
        for j in (i + 1)..balls.len() {
            assert!(!overlaps(&balls[i], &balls[j]));
        }
    }
}

#[test]
fn add_random_ball_gives_up_in_a_full_arena() {
    // the arena has room for one ball only
    let mut world = World::new(210, 210);
    assert!(world.add_random_ball(ranges(100, 101, 5)));
    let first = state(&world.balls()[0]);
    assert!(!world.add_random_ball(ranges(100, 101, 5)));
    assert_eq!(world.ball_count(), 2);
    assert_eq!(state(&world.balls()[0]), first);
    assert_eq!(world.balls()[1].radius(), 100);
    assert!(overlaps(&world.balls()[0], &world.balls()[1]));
}

#[test]
fn ranges_fit_an_arena_with_room_for_the_largest_ball() {
    assert!(ranges(10, 40, 300).fits(80, 80));
    assert!(!ranges(10, 40, 300).fits(79, 80));
    assert!(!ranges(10, 40, 300).fits(80, 79));
    assert!(!ranges(10, 10, 300).fits(800, 800));
    assert!(!ranges(0, 10, 300).fits(800, 800));
    assert!(!ranges(10, 40, 0).fits(800, 800));
    assert!(ranges(1, RADIUS_LIMIT, SPEED_LIMIT).fits(ARENA_LIMIT, ARENA_LIMIT));
    assert!(!ranges(1, RADIUS_LIMIT + 1, 1).fits(ARENA_LIMIT, ARENA_LIMIT));
    assert!(!ranges(1, 2, SPEED_LIMIT + 1).fits(ARENA_LIMIT, ARENA_LIMIT));
    assert!(!ranges(1, 2, 1).fits(ARENA_LIMIT + 1, ARENA_LIMIT));
    assert!(!ranges(1, 2, 1).fits(ARENA_LIMIT, ARENA_LIMIT + 1));
    assert!(!ranges(i64::MAX - 1, i64::MAX, 1).fits(ARENA_LIMIT, ARENA_LIMIT));
}

#[test]
fn random_world_holds_as_many_balls_as_asked() {
    let world = random_world(100_000, 80_000, 36, ranges(800, 1600, 18_000));
    assert_eq!(world.ball_count(), 36);
    assert_eq!((world.width(), world.height()), (100_000, 80_000));
    assert!(!world.is_paused());
    assert_eq!(world.time_scale(), TIME_SCALE_ONE);
    for b in world.balls() {
        let (p, r) = (b.position(), b.radius());
        assert!(800 <= r && r < 1600);
        assert!(r <= p.x && p.x <= 100_000 - r);
        assert!(r <= p.y && p.y <= 80_000 - r);
        assert_eq!(b.mass(), r * r);
    }
    assert_eq!(random_world(100, 100, 0, ranges(1, 2, 1)).ball_count(), 0);
}
