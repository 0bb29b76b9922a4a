//! The law of the walls: where a ball ends that flies into a wall.

use crate::elastic::ball::BallModel;
use crate::gcd::theory::abs;
use vstd::prelude::*;

verus! {

/// Wall reflection. A ball that free flight carries across a wall ends with
/// its edge on that wall and with the velocity component across the wall
/// pointing back inside at the same magnitude; a ball that stays between
/// the walls of an axis keeps the position and the velocity of free flight
/// along it. What happens along one axis does not touch the other.
pub proof fn law_wall_reflection(b: BallModel, dt: int, width: int, height: int)
    ensures
        ({
            let flown = b.moved(dt);
            let after = b.updated(dt, width, height);
            &&& after.radius == b.radius && after.mass == b.mass
            &&& flown.x - b.radius < 0 ==> after.x == b.radius && after.vx == abs(b.vx)
            &&& flown.x - b.radius >= 0 && flown.x + b.radius > width ==> after.x == width
                - b.radius && after.vx == -abs(b.vx)
            &&& b.radius <= flown.x <= width - b.radius ==> after.x == flown.x && after.vx
                == b.vx
            &&& flown.y - b.radius < 0 ==> after.y == b.radius && after.vy == abs(b.vy)
            &&& flown.y - b.radius >= 0 && flown.y + b.radius > height ==> after.y == height
                - b.radius && after.vy == -abs(b.vy)
            &&& b.radius <= flown.y <= height - b.radius ==> after.y == flown.y && after.vy
                == b.vy
        }),
{
}

} // verus!
