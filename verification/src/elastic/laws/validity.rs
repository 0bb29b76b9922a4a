//! The law of validity: a valid world stays valid.

use crate::elastic::ball::{BallModel, ARENA_LIMIT};
use crate::elastic::world::{
    resolve_pair, resolve_row, resolve_rows, run, stepped, substeps, updated_all, WorldModel,
};
use vstd::prelude::*;

verus! {

/// A turn of a pair keeps the number of balls, and keeps valid balls valid.
pub proof fn lemma_pair_keeps_valid(s: Seq<BallModel>, i: int, j: int)
    requires
        0 <= i < j < s.len(),
        forall|k: int| 0 <= k < s.len() ==> (#[trigger] s[k]).valid(),
    ensures
        resolve_pair(s, i, j).len() == s.len(),
        forall|k: int| 0 <= k < s.len() ==> (#[trigger] resolve_pair(s, i, j)[k]).valid(),
{
}

/// The turns of a row keep the number of balls, and keep valid balls valid.
pub proof fn lemma_row_keeps_valid(s: Seq<BallModel>, i: int, j: int)
    requires
        0 <= i < s.len(),
        j <= s.len(),
        forall|k: int| 0 <= k < s.len() ==> (#[trigger] s[k]).valid(),
    ensures
        resolve_row(s, i, j).len() == s.len(),
        forall|k: int| 0 <= k < s.len() ==> (#[trigger] resolve_row(s, i, j)[k]).valid(),
    decreases j - i,
{
    if j > i + 1 {
        lemma_row_keeps_valid(s, i, j - 1);
        lemma_pair_keeps_valid(resolve_row(s, i, j - 1), i, j - 1);
    }
}

/// The turns of all rows keep the number of balls, and keep valid balls
/// valid.
pub proof fn lemma_rows_keep_valid(s: Seq<BallModel>, rows: int)
    requires
        rows <= s.len(),
        forall|k: int| 0 <= k < s.len() ==> (#[trigger] s[k]).valid(),
    ensures
        resolve_rows(s, rows).len() == s.len(),
        forall|k: int| 0 <= k < s.len() ==> (#[trigger] resolve_rows(s, rows)[k]).valid(),
    decreases rows,
{
    if rows > 0 {
        lemma_rows_keep_valid(s, rows - 1);
        lemma_row_keeps_valid(resolve_rows(s, rows - 1), rows - 1, s.len() as int);
    }
}

/// A step keeps valid balls valid in an arena within its limit.
pub proof fn lemma_step_keeps_valid(s: Seq<BallModel>, dt: int, width: int, height: int)
    requires
        0 < width <= ARENA_LIMIT,
        0 < height <= ARENA_LIMIT,
        forall|k: int| 0 <= k < s.len() ==> (#[trigger] s[k]).valid(),
    ensures
        stepped(s, dt, width, height).len() == s.len(),
        forall|k: int| 0 <= k < s.len() ==> (#[trigger] stepped(s, dt, width, height)[k]).valid(),
{
    let flown = updated_all(s, dt, width, height);
    assert forall|k: int| 0 <= k < flown.len() implies (#[trigger] flown[k]).valid() by {
        assert(s[k].valid());
    }
    lemma_rows_keep_valid(flown, s.len() as int);
}

/// Steps keep valid balls valid in an arena within its limit.
pub proof fn lemma_run_keeps_valid(s: Seq<BallModel>, width: int, height: int, steps: Seq<int>)
    requires
        0 < width <= ARENA_LIMIT,
        0 < height <= ARENA_LIMIT,
        forall|k: int| 0 <= k < s.len() ==> (#[trigger] s[k]).valid(),
    ensures
        run(s, width, height, steps).len() == s.len(),
        forall|k: int| 0 <= k < s.len() ==> (#[trigger] run(s, width, height, steps)[k]).valid(),
    decreases steps.len(),
{
    if steps.len() > 0 {
        lemma_step_keeps_valid(s, steps[0], width, height);
        lemma_run_keeps_valid(stepped(s, steps[0], width, height), width, height, steps.drop_first());
    }
}

/// Validity is kept. A valid world is valid after any step and after any
/// advance of the host's clock: radii and masses stay positive, and
/// everything stays within its limit.
pub proof fn law_world_stays_valid(w: WorldModel, dt: int)
    requires
        w.valid(),
    ensures
        w.stepped(dt).valid(),
        w.advanced(dt).valid(),
{
    lemma_step_keeps_valid(w.balls, dt, w.width, w.height);
    lemma_run_keeps_valid(w.balls, w.width, w.height, substeps(w.scaled(dt)));
}

} // verus!
