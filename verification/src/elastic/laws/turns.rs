//! The laws of a pair's turn within a world: the turn changes the pair
//! alone, and keeps the momentum and the energy of the whole world up to
//! the rounding of the pair's velocities.

use crate::elastic::ball::{Axis, BallModel};
use crate::elastic::collision::{collides, resolved_first, resolved_second};
use crate::elastic::laws::energy::{energy_doubled, energy_tolerance, law_energy_conserved};
use crate::elastic::laws::pairs::{heavier, law_momentum_conserved, unsaturated};
use crate::elastic::world::{resolve_pair, resolve_row, resolve_rows, stepped, updated_all};
use vstd::prelude::*;

verus! {

/// The momentum of a ball along an axis: its mass times its velocity
/// component.
pub open spec fn momentum(b: BallModel, axis: Axis) -> int {
    match axis {
        Axis::X => b.mass * b.vx,
        Axis::Y => b.mass * b.vy,
    }
}

/// The momentum of all balls along an axis.
pub open spec fn total_momentum(s: Seq<BallModel>, axis: Axis) -> int
    decreases s.len(),
{
    if s.len() == 0 {
        0
    } else {
        total_momentum(s.drop_last(), axis) + momentum(s.last(), axis)
    }
}

/// Twice the kinetic energy of all balls.
pub open spec fn total_energy_doubled(s: Seq<BallModel>) -> int
    decreases s.len(),
{
    if s.len() == 0 {
        0
    } else {
        total_energy_doubled(s.drop_last()) + energy_doubled(s.last())
    }
}

/// Putting another ball in a place changes the totals by the difference
/// between the two balls.
pub proof fn lemma_totals_after_update(s: Seq<BallModel>, k: int, ball: BallModel, axis: Axis)
    requires
        0 <= k < s.len(),
    ensures
        total_momentum(s.update(k, ball), axis) == total_momentum(s, axis) - momentum(s[k], axis)
            + momentum(ball, axis),
        total_energy_doubled(s.update(k, ball)) == total_energy_doubled(s) - energy_doubled(s[k])
            + energy_doubled(ball),
    decreases s.len(),
{
    let t = s.update(k, ball);
    if k == s.len() - 1 {
        assert(t.drop_last() =~= s.drop_last());
    } else {
        assert(t.drop_last() =~= s.drop_last().update(k, ball));
        lemma_totals_after_update(s.drop_last(), k, ball, axis);
    }
}

/// A turn changes the pair alone. The two balls of the pair become what the
/// pair's turn makes of them, and every other ball stays as it is.
pub proof fn law_turn_changes_the_pair_alone(s: Seq<BallModel>, i: int, j: int)
    requires
        0 <= i < j < s.len(),
    ensures
        resolve_pair(s, i, j).len() == s.len(),
        resolve_pair(s, i, j)[i] == resolved_first(s[i], s[j]),
        resolve_pair(s, i, j)[j] == resolved_second(s[i], s[j]),
        forall|k: int|
            0 <= k < s.len() && k != i && k != j ==> #[trigger] resolve_pair(s, i, j)[k] == s[k],
{
}

/// A turn keeps the momentum of the world. When the pair of a turn is
/// resolved and no velocity saturates, the momentum of all balls changes
/// along each axis by less than the larger mass of the pair: by the
/// rounding of the pair's velocities alone. A turn of a pair that is not
/// resolved changes nothing.
pub proof fn law_turn_keeps_momentum(s: Seq<BallModel>, i: int, j: int, axis: Axis)
    requires
        0 <= i < j < s.len(),
        s[i].valid(),
        s[j].valid(),
        collides(s[i], s[j]) ==> unsaturated(s[i], s[j]),
    ensures
        !collides(s[i], s[j]) ==> resolve_pair(s, i, j) == s,
        -heavier(s[i], s[j]) < total_momentum(resolve_pair(s, i, j), axis) - total_momentum(s, axis)
            < heavier(s[i], s[j]),
{
    let a = s[i];
    let b = s[j];
    let a2 = resolved_first(a, b);
    let b2 = resolved_second(a, b);
    let mid = s.update(i, a2);
    lemma_totals_after_update(s, i, a2, axis);
    lemma_totals_after_update(mid, j, b2, axis);
    if collides(a, b) {
        law_momentum_conserved(a, b);
    } else {
        assert(resolve_pair(s, i, j) =~= s);
    }
}

/// A turn keeps the kinetic energy of the world. When the pair of a turn is
/// resolved and no velocity saturates, twice the kinetic energy of all
/// balls changes by less than the room that the rounding of the pair's
/// velocities has.
pub proof fn law_turn_keeps_energy(s: Seq<BallModel>, i: int, j: int)
    requires
        0 <= i < j < s.len(),
        s[i].valid(),
        s[j].valid(),
        collides(s[i], s[j]),
        unsaturated(s[i], s[j]),
    ensures
        ({
            let after = resolve_pair(s, i, j);
            let room = energy_tolerance(after[i]) + energy_tolerance(after[j]);
            -room < total_energy_doubled(after) - total_energy_doubled(s) < room
        }),
{
    let a = s[i];
    let b = s[j];
    let a2 = resolved_first(a, b);
    let b2 = resolved_second(a, b);
    let mid = s.update(i, a2);
    lemma_totals_after_update(s, i, a2, Axis::X);
    lemma_totals_after_update(mid, j, b2, Axis::X);
    law_energy_conserved(a, b);
}

/// A step of a world of two balls gives the one pair its turn, once both
/// balls have flown and bounced.
pub proof fn law_step_of_two(s: Seq<BallModel>, dt: int, width: int, height: int)
    requires
        s.len() == 2,
    ensures
        stepped(s, dt, width, height) == resolve_pair(updated_all(s, dt, width, height), 0, 1),
{
    let flown = updated_all(s, dt, width, height);
    assert(resolve_rows(flown, 0) == flown);
    assert(resolve_row(flown, 0, 1) == flown);
    assert(resolve_row(flown, 0, 2) == resolve_pair(flown, 0, 1));
    assert(resolve_rows(flown, 1) == resolve_pair(flown, 0, 1));
    let turned = resolve_pair(flown, 0, 1);
    assert(resolve_row(turned, 1, 2) == turned);
    assert(resolve_rows(flown, 2) == turned);
}

} // verus!
