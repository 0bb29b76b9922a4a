//! The world: an arena with its balls, advanced in sub-steps of bounded
//! length.

use crate::elastic::ball::{models, Ball, BallModel, ARENA_LIMIT};
use crate::elastic::collision::{overlapping, overlaps, resolve, resolved_first, resolved_second};
use crate::elastic::fixed::{div_trunc, trunc_div};
use vstd::prelude::*;

verus! {

/// The longest sub-step, in ticks: 1/120 of a second.
pub const MAX_SUBSTEP: i64 = 1_000;

/// The time scale at which the world runs at the speed of the host's clock.
pub const TIME_SCALE_ONE: i64 = 1_000;

/// Every ball after `dt` ticks in an arena of the given size, each as if it
/// were alone.
pub open spec fn updated_all(s: Seq<BallModel>, dt: int, width: int, height: int) -> Seq<
    BallModel,
> {
    Seq::new(s.len(), |k: int| s[k].updated(dt, width, height))
}

/// The balls after the pair `(i, j)` has had its turn.
pub open spec fn resolve_pair(s: Seq<BallModel>, i: int, j: int) -> Seq<BallModel> {
    s.update(i, resolved_first(s[i], s[j])).update(j, resolved_second(s[i], s[j]))
}

/// The balls after the pairs `(i, i + 1)`, ..., `(i, j - 1)` have had their
/// turns in this order, each seeing what the turns before it left.
pub open spec fn resolve_row(s: Seq<BallModel>, i: int, j: int) -> Seq<BallModel>
    decreases j - i,
{
    if j <= i + 1 {
        s
    } else {
        resolve_pair(resolve_row(s, i, j - 1), i, j - 1)
    }
}

/// The balls after all pairs `(i, j)` with `i < rows` and `i < j` have had
/// their turns, ordered by `i` and then by `j`.
pub open spec fn resolve_rows(s: Seq<BallModel>, rows: int) -> Seq<BallModel>
    decreases rows,
{
    if rows <= 0 {
        s
    } else {
        resolve_row(resolve_rows(s, rows - 1), rows - 1, s.len() as int)
    }
}

/// The balls after one step of `dt` ticks: every ball flies and bounces off
/// the walls, then every pair has its turn.
pub open spec fn stepped(s: Seq<BallModel>, dt: int, width: int, height: int) -> Seq<BallModel> {
    resolve_rows(updated_all(s, dt, width, height), s.len() as int)
}

/// The length of the next sub-step when `remaining` ticks are left.
pub open spec fn substep(remaining: int) -> int {
    if remaining < MAX_SUBSTEP {
        remaining
    } else {
        MAX_SUBSTEP as int
    }
}

/// The lengths of the sub-steps that consume `remaining` ticks: each is as
/// long as `MAX_SUBSTEP` allows, so that only the last one may be shorter.
pub open spec fn substeps(remaining: int) -> Seq<int>
    decreases remaining,
{
    if remaining <= 0 {
        Seq::empty()
    } else {
        seq![substep(remaining)] + substeps(remaining - substep(remaining))
    }
}

/// The balls after one step for each of the given lengths, in order.
pub open spec fn run(s: Seq<BallModel>, width: int, height: int, steps: Seq<int>) -> Seq<BallModel>
    decreases steps.len(),
{
    if steps.len() == 0 {
        s
    } else {
        run(stepped(s, steps[0], width, height), width, height, steps.drop_first())
    }
}

/// With ticks left, the first sub-step is `substep(remaining)`, and the
/// others are those of the ticks that it leaves.
pub proof fn lemma_substeps_unfold(remaining: int)
    requires
        remaining > 0,
    ensures
        substeps(remaining).len() > 0,
        substeps(remaining)[0] == substep(remaining),
        substeps(remaining).drop_first() == substeps(remaining - substep(remaining)),
{
    assert(substeps(remaining).drop_first() =~= substeps(remaining - substep(remaining)));
}

/// The state of a world.
pub struct WorldModel {
    pub balls: Seq<BallModel>,
    pub width: int,
    pub height: int,
    pub paused: bool,
    pub time_scale: int,
}

impl WorldModel {
    /// The arena and the time scale are positive, the arena is within its
    /// limit, and every ball is valid.
    pub open spec fn valid(self) -> bool {
        &&& 0 < self.width <= ARENA_LIMIT
        &&& 0 < self.height <= ARENA_LIMIT
        &&& 0 < self.time_scale
        &&& forall|k: int| 0 <= k < self.balls.len() ==> (#[trigger] self.balls[k]).valid()
    }

    /// The simulated time, in ticks, that `host_dt` ticks of the host's
    /// clock stand for.
    pub open spec fn scaled(self, host_dt: int) -> int {
        trunc_div(host_dt * self.time_scale, TIME_SCALE_ONE as int)
    }

    /// The world after one step of `dt` ticks.
    pub open spec fn stepped(self, dt: int) -> WorldModel {
        WorldModel { balls: stepped(self.balls, dt, self.width, self.height), ..self }
    }

    /// The world after the host's clock has advanced by `host_dt` ticks: as
    /// it was if it is paused, else run for the scaled time.
    pub open spec fn advanced(self, host_dt: int) -> WorldModel {
        if self.paused {
            self
        } else {
            WorldModel {
                balls: run(self.balls, self.width, self.height, substeps(self.scaled(host_dt))),
                ..self
            }
        }
    }
}

/// A world: a rectangular arena from `(0, 0)` to `(width, height)`, the
/// balls in it, whether it is paused, and its time scale in thousandths.
#[derive(Debug)]
pub struct World {
    balls: Vec<Ball>,
    width: i64,
    height: i64,
    paused: bool,
    time_scale: i64,
}

impl View for World {
    type V = WorldModel;

    closed spec fn view(&self) -> WorldModel {
        WorldModel {
            balls: models(self.balls@),
            width: self.width as int,
            height: self.height as int,
            paused: self.paused,
            time_scale: self.time_scale as int,
        }
    }
}

impl World {
    /// Whether the world's state is valid. Every world that this library
    /// hands out is, and every operation keeps it so.
    pub open spec fn wf(&self) -> bool {
        self@.valid()
    }

    /// An empty world of the given size that runs at the speed of the
    /// host's clock.
    pub fn new(width: i64, height: i64) -> (world: World)
        requires
            0 < width <= ARENA_LIMIT,
            0 < height <= ARENA_LIMIT,
        ensures
            world.wf(),
            world@ == (WorldModel {
                balls: Seq::empty(),
                width: width as int,
                height: height as int,
                paused: false,
                time_scale: TIME_SCALE_ONE as int,
            }),
    {
        let world = World { balls: Vec::new(), width, height, paused: false, time_scale: TIME_SCALE_ONE };
        assert(models(world.balls@) =~= Seq::empty());
        world
    }

    /// Adds a ball behind the others.
    pub fn add_ball(&mut self, ball: Ball)
        requires
            old(self).wf(),
            ball.wf(),
        ensures
            final(self).wf(),
            final(self)@ == (WorldModel { balls: old(self)@.balls.push(ball@), ..old(self)@ }),
    {
        self.balls.push(ball);
        assert(models(self.balls@) =~= models(old(self).balls@).push(ball@));
    }

    /// Removes every ball.
    pub fn clear(&mut self)
        requires
            old(self).wf(),
        ensures
            final(self).wf(),
            final(self)@ == (WorldModel { balls: Seq::empty(), ..old(self)@ }),
    {
        self.balls.clear();
        assert(models(self.balls@) =~= Seq::empty());
    }

    /// The number of balls.
    pub fn ball_count(&self) -> (n: usize)
        ensures
            n == self@.balls.len(),
    {
        self.balls.len()
    }

    /// The balls, in the order in which they were added.
    pub fn balls(&self) -> (balls: &Vec<Ball>)
        ensures
            models(balls@) == self@.balls,
    {
        &self.balls
    }

    /// Whether the disc of `ball` overlaps the disc of a ball of the world,
    /// so that a host can look for a free place.
    pub fn overlaps_any(&self, ball: &Ball) -> (found: bool)
        requires
            self.wf(),
            ball.wf(),
        ensures
            found == exists|k: int|
                0 <= k < self@.balls.len() && #[trigger] overlapping(self@.balls[k], ball@),
    {
        let ghost all = models(self.balls@);
        let n = self.balls.len();
        let mut k: usize = 0;
        while k < n
            invariant
                k <= n,
                n == self.balls.len(),
                all == models(self.balls@),
                all == self@.balls,
                self.wf(),
                ball.wf(),
                forall|m: int| 0 <= m < k ==> !#[trigger] overlapping(all[m], ball@),
            decreases n - k,
        {
            assert(all[k as int].valid());
            if overlaps(&self.balls[k], ball) {
                assert(overlapping(all[k as int], ball@));
                return true;
            }
            k += 1;
        }
        false
    }

    /// The width of the arena.
    pub fn width(&self) -> (w: i64)
        ensures
            w == self@.width,
    {
        self.width
    }

    /// The height of the arena.
    pub fn height(&self) -> (h: i64)
        ensures
            h == self@.height,
    {
        self.height
    }

    /// Whether the world is paused.
    pub fn is_paused(&self) -> (p: bool)
        ensures
            p == self@.paused,
    {
        self.paused
    }

    /// The time scale, in thousandths.
    pub fn time_scale(&self) -> (s: i64)
        ensures
            s == self@.time_scale,
    {
        self.time_scale
    }

    /// Gives the arena another size. The balls stay where they are, also
    /// those that the new walls leave outside.
    pub fn resize(&mut self, width: i64, height: i64)
        requires
            old(self).wf(),
            0 < width <= ARENA_LIMIT,
            0 < height <= ARENA_LIMIT,
        ensures
            final(self).wf(),
            final(self)@ == (WorldModel {
                width: width as int,
                height: height as int,
                ..old(self)@
            }),
    {
        self.width = width;
        self.height = height;
    }

    /// Pauses the world or lets it run.
    pub fn set_paused(&mut self, paused: bool)
        requires
            old(self).wf(),
        ensures
            final(self).wf(),
            final(self)@ == (WorldModel { paused, ..old(self)@ }),
    {
        self.paused = paused;
    }

    /// Sets the time scale, in thousandths: `TIME_SCALE_ONE` is the speed
    /// of the host's clock.
    pub fn set_time_scale(&mut self, time_scale: i64)
        requires
            old(self).wf(),
            0 < time_scale,
        ensures
            final(self).wf(),
            final(self)@ == (WorldModel { time_scale: time_scale as int, ..old(self)@ }),
    {
        self.time_scale = time_scale;
    }

    /// One step of `dt` ticks: every ball flies for `dt` ticks and bounces
    /// off the walls, then every pair of balls has its turn, ordered by the
    /// first ball and then by the second.
    pub fn step(&mut self, dt: i64)
        requires
            old(self).wf(),
        ensures
            final(self).wf(),
            final(self)@ == old(self)@.stepped(dt as int),
    {
        let n = self.balls.len();
        let ghost before = models(self.balls@);
        let ghost width = self.width as int;
        let ghost height = self.height as int;
        assert forall|m: int| 0 <= m < n implies (#[trigger] self.balls[m]).wf() by {
            assert(self@.balls[m].valid());
        }
        let mut k: usize = 0;
        while k < n
            invariant
                k <= n,
                self.balls.len() == n,
                before.len() == n,
                self.width == old(self).width,
                self.height == old(self).height,
                self.paused == old(self).paused,
                self.time_scale == old(self).time_scale,
                width == self.width,
                height == self.height,
                0 < self.width <= ARENA_LIMIT,
                0 < self.height <= ARENA_LIMIT,
                forall|m: int| 0 <= m < n ==> (#[trigger] self.balls[m]).wf(),
                forall|m: int| 0 <= m < k ==> (#[trigger] self.balls[m])@ == before[m].updated(dt as int, width, height),
                forall|m: int| k <= m < n ==> (#[trigger] self.balls[m])@ == before[m],
            decreases n - k,
        {
            let mut ball = self.balls[k];
            ball.update(dt, self.width, self.height);
            self.balls.set(k, ball);
            k += 1;
        }
        let ghost flown = updated_all(before, dt as int, width, height);
        assert(models(self.balls@) =~= flown);
        let mut i: usize = 0;
        while i < n
            invariant
                i <= n,
                self.balls.len() == n,
                flown.len() == n,
                self.width == old(self).width,
                self.height == old(self).height,
                self.paused == old(self).paused,
                self.time_scale == old(self).time_scale,
                forall|m: int| 0 <= m < n ==> (#[trigger] self.balls[m]).wf(),
                models(self.balls@) == resolve_rows(flown, i as int),
            decreases n - i,
        {
            let ghost row = models(self.balls@);
            let mut j: usize = i + 1;
            while j < n
                invariant
                    i < j <= n,
                    self.balls.len() == n,
                    row.len() == n,
                    self.width == old(self).width,
                    self.height == old(self).height,
                    self.paused == old(self).paused,
                    self.time_scale == old(self).time_scale,
                    forall|m: int| 0 <= m < n ==> (#[trigger] self.balls[m]).wf(),
                    models(self.balls@) == resolve_row(row, i as int, j as int),
                decreases n - j,
            {
                let ghost turn = models(self.balls@);
                let (first, second) = resolve(self.balls[i], self.balls[j]);
                self.balls.set(i, first);
                self.balls.set(j, second);
                assert(models(self.balls@) =~= resolve_pair(turn, i as int, j as int));
                j += 1;
            }
            i += 1;
        }
    }

    /// Advances the world by `host_dt` ticks of the host's clock. A paused
    /// world stays as it is. Otherwise the interval is scaled by the time
    /// scale and consumed in steps of at most `MAX_SUBSTEP` ticks.
    pub fn update(&mut self, host_dt: i64)
        requires
            old(self).wf(),
        ensures
            final(self).wf(),
            final(self)@ == old(self)@.advanced(host_dt as int),
    {
        if self.paused {
            return ;
        }
        assert(-0x4000_0000_0000_0000_0000_0000_0000_0000 <= host_dt * self.time_scale
            <= 0x4000_0000_0000_0000_0000_0000_0000_0000) by (nonlinear_arith)
            requires
                -0x8000_0000_0000_0000 <= host_dt <= 0x8000_0000_0000_0000,
                0 < self.time_scale <= 0x8000_0000_0000_0000,
        ;
        let total: i128 = div_trunc((host_dt as i128) * (self.time_scale as i128), TIME_SCALE_ONE as i128);
        let ghost before = models(self.balls@);
        let ghost width = self.width as int;
        let ghost height = self.height as int;
        let mut remaining: i128 = total;
        while remaining > 0
            invariant
                self.wf(),
                self.width == old(self).width,
                self.height == old(self).height,
                self.paused == old(self).paused,
                self.time_scale == old(self).time_scale,
                width == self.width,
                height == self.height,
                run(models(self.balls@), width, height, substeps(remaining as int)) == run(
                    before,
                    width,
                    height,
                    substeps(total as int),
                ),
            decreases remaining,
        {
            proof {
                lemma_substeps_unfold(remaining as int);
            }
            let sub: i64 = if remaining < MAX_SUBSTEP as i128 {
                remaining as i64
            } else {
                MAX_SUBSTEP
            };
            remaining -= sub as i128;
            self.step(sub);
        }
    }
}

} // verus!
