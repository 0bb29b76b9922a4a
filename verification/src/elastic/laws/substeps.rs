//! The law of sub-stepping: into how many steps of what length an interval
//! is cut.

use crate::elastic::world::{run, substep, substeps, WorldModel, MAX_SUBSTEP};
use vstd::prelude::*;

verus! {

/// The sum of a sequence of integers.
pub open spec fn sum(s: Seq<int>) -> int
    decreases s.len(),
{
    if s.len() == 0 {
        0
    } else {
        s[0] + sum(s.drop_first())
    }
}

/// Sub-step bound. An interval of `total` ticks is consumed in
/// `ceil(total / MAX_SUBSTEP)` sub-steps, none for an interval that is not
/// positive. Each sub-step is positive and no longer than `MAX_SUBSTEP`,
/// all but the last are exactly `MAX_SUBSTEP` long, and together they make
/// up the interval.
pub proof fn law_substep_bound(total: int)
    ensures
        total <= 0 ==> substeps(total).len() == 0,
        total > 0 ==> substeps(total).len() == (total + MAX_SUBSTEP - 1) / (MAX_SUBSTEP as int),
        forall|k: int|
            0 <= k < substeps(total).len() ==> 0 < #[trigger] substeps(total)[k] <= MAX_SUBSTEP,
        forall|k: int|
            0 <= k < substeps(total).len() - 1 ==> #[trigger] substeps(total)[k] == MAX_SUBSTEP,
        total > 0 ==> sum(substeps(total)) == total,
    decreases total,
{
    if total > 0 {
        let first = substep(total);
        let rest = substeps(total - first);
        law_substep_bound(total - first);
        assert(substeps(total).drop_first() =~= rest);
        assert forall|k: int| 0 <= k < substeps(total).len() implies 0 < #[trigger] substeps(
            total,
        )[k] <= MAX_SUBSTEP by {
            if k > 0 {
                assert(substeps(total)[k] == rest[k - 1]);
            }
        }
        assert forall|k: int| 0 <= k < substeps(total).len() - 1 implies #[trigger] substeps(
            total,
        )[k] == MAX_SUBSTEP by {
            if k > 0 {
                assert(substeps(total)[k] == rest[k - 1]);
            }
        }
        if total - first <= 0 {
            assert(sum(rest) == 0);
        }
    }
}

/// A world that is not paused takes `ceil(scaled / MAX_SUBSTEP)` steps when
/// the host's clock advances, where `scaled` is the interval times the time
/// scale; a paused world takes none and stays as it is.
pub proof fn law_advance_substeps(w: WorldModel, host_dt: int)
    ensures
        w.paused ==> w.advanced(host_dt) == w,
        !w.paused ==> w.advanced(host_dt).balls == run(
            w.balls,
            w.width,
            w.height,
            substeps(w.scaled(host_dt)),
        ),
        w.scaled(host_dt) > 0 ==> substeps(w.scaled(host_dt)).len() == (w.scaled(host_dt)
            + MAX_SUBSTEP - 1) / (MAX_SUBSTEP as int),
        w.scaled(host_dt) <= 0 ==> substeps(w.scaled(host_dt)).len() == 0,
{
    law_substep_bound(w.scaled(host_dt));
}

} // verus!
