//! The law of containment: when every ball lies within the arena.

use crate::elastic::ball::BallModel;
use crate::elastic::collision::collides;
use crate::elastic::laws::substeps::law_substep_bound;
use crate::elastic::world::{
    resolve_pair, resolve_row, resolve_rows, run, stepped, substeps, updated_all, WorldModel,
};
use vstd::prelude::*;

verus! {

/// No two balls of the sequence are due to be resolved.
pub open spec fn collision_free(s: Seq<BallModel>) -> bool {
    forall|i: int, j: int| 0 <= i < j < s.len() ==> !#[trigger] collides(s[i], s[j])
}

/// Every ball fits between the walls: its diameter is at most the width and
/// the height of the arena.
pub open spec fn all_fit(s: Seq<BallModel>, width: int, height: int) -> bool {
    forall|k: int|
        0 <= k < s.len() ==> 2 * (#[trigger] s[k]).radius <= width && 2 * s[k].radius <= height
}

/// Every ball lies within the arena.
pub open spec fn all_contained(s: Seq<BallModel>, width: int, height: int) -> bool {
    forall|k: int| 0 <= k < s.len() ==> (#[trigger] s[k]).contained(width, height)
}

/// Where no pair is due, the turns of a row change nothing.
pub proof fn lemma_row_of_free_pairs(s: Seq<BallModel>, i: int, j: int)
    requires
        0 <= i < s.len(),
        j <= s.len(),
        collision_free(s),
    ensures
        resolve_row(s, i, j) == s,
    decreases j - i,
{
    if j > i + 1 {
        lemma_row_of_free_pairs(s, i, j - 1);
        assert(!collides(s[i], s[j - 1]));
        assert(resolve_pair(s, i, j - 1) =~= s);
    }
}

/// Where no pair is due, the turns of all rows change nothing.
pub proof fn lemma_rows_of_free_pairs(s: Seq<BallModel>, rows: int)
    requires
        rows <= s.len(),
        collision_free(s),
    ensures
        resolve_rows(s, rows) == s,
    decreases rows,
{
    if rows > 0 {
        lemma_rows_of_free_pairs(s, rows - 1);
        lemma_row_of_free_pairs(s, rows - 1, s.len() as int);
    }
}

/// Containment after the walls. A ball that fits between the walls lies
/// within the arena once it has flown and bounced, wherever it started.
pub proof fn law_update_contained(b: BallModel, dt: int, width: int, height: int)
    requires
        b.radius > 0,
        2 * b.radius <= width,
        2 * b.radius <= height,
    ensures
        b.updated(dt, width, height).contained(width, height),
{
}

/// Containment after a step. When every ball fits between the walls and no
/// pair is due after the balls have flown and bounced, the step leaves
/// every ball where the walls left it, within the arena.
pub proof fn law_step_contained(s: Seq<BallModel>, dt: int, width: int, height: int)
    requires
        forall|k: int| 0 <= k < s.len() ==> (#[trigger] s[k]).radius > 0,
        all_fit(s, width, height),
        collision_free(updated_all(s, dt, width, height)),
    ensures
        stepped(s, dt, width, height) == updated_all(s, dt, width, height),
        all_contained(stepped(s, dt, width, height), width, height),
{
    let flown = updated_all(s, dt, width, height);
    lemma_rows_of_free_pairs(flown, s.len() as int);
    assert forall|k: int| 0 <= k < flown.len() implies (#[trigger] flown[k]).contained(
        width,
        height,
    ) by {
        law_update_contained(s[k], dt, width, height);
    }
}

/// The second sequence has the balls of the first, each with its radius and
/// its mass, whatever became of their positions and velocities.
pub open spec fn same_shape(s: Seq<BallModel>, t: Seq<BallModel>) -> bool {
    &&& t.len() == s.len()
    &&& forall|k: int|
        0 <= k < s.len() ==> (#[trigger] t[k]).radius == s[k].radius && t[k].mass == s[k].mass
}

/// The turns of a row change no radius and no mass.
pub proof fn lemma_row_keeps_shape(s: Seq<BallModel>, i: int, j: int)
    requires
        0 <= i < s.len(),
        j <= s.len(),
    ensures
        same_shape(s, resolve_row(s, i, j)),
    decreases j - i,
{
    if j > i + 1 {
        lemma_row_keeps_shape(s, i, j - 1);
        let before = resolve_row(s, i, j - 1);
        assert(same_shape(before, resolve_pair(before, i, j - 1)));
    }
}

/// The turns of all rows change no radius and no mass.
pub proof fn lemma_rows_keep_shape(s: Seq<BallModel>, rows: int)
    requires
        rows <= s.len(),
    ensures
        same_shape(s, resolve_rows(s, rows)),
    decreases rows,
{
    if rows > 0 {
        lemma_rows_keep_shape(s, rows - 1);
        lemma_row_keeps_shape(resolve_rows(s, rows - 1), rows - 1, s.len() as int);
    }
}

/// Steps change no radius and no mass, and neither add nor remove a ball.
pub proof fn lemma_run_keeps_shape(s: Seq<BallModel>, width: int, height: int, steps: Seq<int>)
    ensures
        same_shape(s, run(s, width, height, steps)),
    decreases steps.len(),
{
    if steps.len() > 0 {
        let flown = updated_all(s, steps[0], width, height);
        lemma_rows_keep_shape(flown, s.len() as int);
        let next = stepped(s, steps[0], width, height);
        assert(same_shape(s, next));
        lemma_run_keeps_shape(next, width, height, steps.drop_first());
    }
}

/// A run ends with its last step: it is the last step taken on what the
/// steps before it left.
pub proof fn lemma_run_ends_with_last(s: Seq<BallModel>, width: int, height: int, steps: Seq<int>)
    requires
        steps.len() > 0,
    ensures
        run(s, width, height, steps) == stepped(
            run(s, width, height, steps.drop_last()),
            steps.last(),
            width,
            height,
        ),
    decreases steps.len(),
{
    let next = stepped(s, steps[0], width, height);
    let rest = steps.drop_first();
    if rest.len() == 0 {
        assert(run(next, width, height, rest) == next);
        assert(steps.drop_last().len() == 0);
        assert(run(s, width, height, steps.drop_last()) == s);
    } else {
        lemma_run_ends_with_last(next, width, height, rest);
        assert(steps.drop_last().drop_first() =~= rest.drop_last());
        assert(steps.drop_last()[0] == steps[0]);
    }
}

/// Containment after a run. When every ball fits between the walls, at
/// least one step is taken and no pair is due in the last step, once the
/// balls have flown and bounced in it, every ball lies within the arena at
/// the end.
pub proof fn law_run_contained(s: Seq<BallModel>, width: int, height: int, steps: Seq<int>)
    requires
        steps.len() > 0,
        forall|k: int| 0 <= k < s.len() ==> (#[trigger] s[k]).radius > 0,
        all_fit(s, width, height),
        collision_free(
            updated_all(run(s, width, height, steps.drop_last()), steps.last(), width, height),
        ),
    ensures
        run(s, width, height, steps).len() == s.len(),
        all_contained(run(s, width, height, steps), width, height),
{
    let before = run(s, width, height, steps.drop_last());
    lemma_run_keeps_shape(s, width, height, steps.drop_last());
    lemma_run_ends_with_last(s, width, height, steps);
    assert forall|k: int| 0 <= k < before.len() implies (#[trigger] before[k]).radius > 0 by {
        assert(before[k].radius == s[k].radius);
    }
    assert(all_fit(before, width, height)) by {
        assert forall|k: int| 0 <= k < before.len() implies 2 * (#[trigger] before[k]).radius
            <= width && 2 * before[k].radius <= height by {
            assert(before[k].radius == s[k].radius);
        }
    }
    law_step_contained(before, steps.last(), width, height);
}

/// No pair is due in the last sub-step that the world takes when the host's
/// clock advances by `host_dt`, once the balls have flown and bounced in
/// it.
pub open spec fn last_substep_free(w: WorldModel, host_dt: int) -> bool {
    let steps = substeps(w.scaled(host_dt));
    collision_free(
        updated_all(
            run(w.balls, w.width, w.height, steps.drop_last()),
            steps.last(),
            w.width,
            w.height,
        ),
    )
}

/// Containment. After a world that is not paused has advanced by an interval
/// whose scaled length is positive, every ball lies within the arena,
/// provided that every ball fits between the walls and that no pair was
/// due in the last sub-step: the turn of a pair pushes its balls apart
/// after the walls have had their say, and may push one across a wall.
pub proof fn law_containment(w: WorldModel, host_dt: int)
    requires
        w.valid(),
        !w.paused,
        w.scaled(host_dt) > 0,
        all_fit(w.balls, w.width, w.height),
        last_substep_free(w, host_dt),
    ensures
        all_contained(w.advanced(host_dt).balls, w.width, w.height),
{
    law_substep_bound(w.scaled(host_dt));
    assert(substeps(w.scaled(host_dt)).len() > 0);
    law_run_contained(w.balls, w.width, w.height, substeps(w.scaled(host_dt)));
}

/// Ball `k` is in no resolved pair among the turns `(i, i + 1)`, ...,
/// `(i, j - 1)` of a row: no turn of a pair that holds it finds the pair
/// due.
pub open spec fn row_spares(s: Seq<BallModel>, i: int, j: int, k: int) -> bool
    decreases j - i,
{
    j <= i + 1 || (row_spares(s, i, j - 1, k) && ((k == i || k == j - 1) ==> !collides(
        resolve_row(s, i, j - 1)[i],
        resolve_row(s, i, j - 1)[j - 1],
    )))
}

/// Ball `k` is in no resolved pair among the turns of the first `rows`
/// rows.
pub open spec fn rows_spare(s: Seq<BallModel>, rows: int, k: int) -> bool
    decreases rows,
{
    rows <= 0 || (rows_spare(s, rows - 1, k) && row_spares(
        resolve_rows(s, rows - 1),
        rows - 1,
        s.len() as int,
        k,
    ))
}

/// Ball `k` is in no resolved pair of a step of `dt` ticks.
pub open spec fn step_spares(s: Seq<BallModel>, dt: int, width: int, height: int, k: int) -> bool {
    rows_spare(updated_all(s, dt, width, height), s.len() as int, k)
}

/// The turns of a row leave a ball that is in no resolved pair as it was.
pub proof fn lemma_row_leaves_spared(s: Seq<BallModel>, i: int, j: int, k: int)
    requires
        0 <= i < s.len(),
        j <= s.len(),
        0 <= k < s.len(),
        row_spares(s, i, j, k),
    ensures
        resolve_row(s, i, j)[k] == s[k],
    decreases j - i,
{
    if j > i + 1 {
        lemma_row_leaves_spared(s, i, j - 1, k);
        lemma_row_keeps_shape(s, i, j - 1);
    }
}

/// The turns of all rows leave a ball that is in no resolved pair as it
/// was.
pub proof fn lemma_rows_leave_spared(s: Seq<BallModel>, rows: int, k: int)
    requires
        rows <= s.len(),
        0 <= k < s.len(),
        rows_spare(s, rows, k),
    ensures
        resolve_rows(s, rows)[k] == s[k],
    decreases rows,
{
    if rows > 0 {
        lemma_rows_leave_spared(s, rows - 1, k);
        lemma_rows_keep_shape(s, rows - 1);
        lemma_row_leaves_spared(resolve_rows(s, rows - 1), rows - 1, s.len() as int, k);
    }
}

/// Containment of a ball after a step. A ball that fits between the walls
/// and is in no resolved pair of the step ends the step where the walls
/// left it, within the arena, whatever becomes of the other balls.
pub proof fn law_spared_ball_contained(
    s: Seq<BallModel>,
    dt: int,
    width: int,
    height: int,
    k: int,
)
    requires
        0 <= k < s.len(),
        s[k].radius > 0,
        2 * s[k].radius <= width,
        2 * s[k].radius <= height,
        step_spares(s, dt, width, height, k),
    ensures
        stepped(s, dt, width, height)[k] == s[k].updated(dt, width, height),
        stepped(s, dt, width, height)[k].contained(width, height),
{
    lemma_rows_leave_spared(updated_all(s, dt, width, height), s.len() as int, k);
    law_update_contained(s[k], dt, width, height);
}

/// Containment of a ball after a run. When at least one step is taken, a
/// ball that fits between the walls and is in no resolved pair of the last
/// step lies within the arena at the end.
pub proof fn law_spared_ball_contained_after_run(
    s: Seq<BallModel>,
    width: int,
    height: int,
    steps: Seq<int>,
    k: int,
)
    requires
        steps.len() > 0,
        0 <= k < s.len(),
        s[k].radius > 0,
        2 * s[k].radius <= width,
        2 * s[k].radius <= height,
        step_spares(
            run(s, width, height, steps.drop_last()),
            steps.last(),
            width,
            height,
            k,
        ),
    ensures
        run(s, width, height, steps).len() == s.len(),
        run(s, width, height, steps)[k].contained(width, height),
{
    let before = run(s, width, height, steps.drop_last());
    lemma_run_keeps_shape(s, width, height, steps.drop_last());
    lemma_run_keeps_shape(s, width, height, steps);
    lemma_run_ends_with_last(s, width, height, steps);
    assert(before[k].radius == s[k].radius);
    law_spared_ball_contained(before, steps.last(), width, height, k);
}

/// Ball `k` is in no resolved pair of the last sub-step that the world
/// takes when the host's clock advances by `host_dt`.
pub open spec fn last_substep_spares(w: WorldModel, host_dt: int, k: int) -> bool {
    let steps = substeps(w.scaled(host_dt));
    step_spares(
        run(w.balls, w.width, w.height, steps.drop_last()),
        steps.last(),
        w.width,
        w.height,
        k,
    )
}

/// Containment of a ball. After a world that is not paused has advanced by
/// an interval whose scaled length is positive, a ball that fits between
/// the walls and was in no resolved pair of the last sub-step lies within
/// the arena. Only the turn of a pair, which comes after the walls, can
/// leave a ball across a wall.
pub proof fn law_ball_containment(w: WorldModel, host_dt: int, k: int)
    requires
        w.valid(),
        !w.paused,
        w.scaled(host_dt) > 0,
        0 <= k < w.balls.len(),
        2 * w.balls[k].radius <= w.width,
        2 * w.balls[k].radius <= w.height,
        last_substep_spares(w, host_dt, k),
    ensures
        w.advanced(host_dt).balls.len() == w.balls.len(),
        w.advanced(host_dt).balls[k].contained(w.width, w.height),
{
    law_substep_bound(w.scaled(host_dt));
    law_spared_ball_contained_after_run(
        w.balls,
        w.width,
        w.height,
        substeps(w.scaled(host_dt)),
        k,
    );
}

} // verus!
