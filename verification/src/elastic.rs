//! Elastic collisions of discs in a rectangular arena, in exact integer
//! arithmetic.
//!
//! Lengths are whole numbers of a length unit that the host chooses,
//! velocities are length units per second, and time is counted in ticks of
//! which `TICKS_PER_SECOND` make a second. Every quotient is rounded toward
//! zero, once. The distance between two centres is measured in grains, of
//! which `GRAIN` make a length unit. Positions and velocities that a
//! collision would push beyond `COORD_LIMIT` or `SPEED_LIMIT` stop there.

pub mod ball;
pub mod collision;
pub mod fixed;
pub mod laws;
pub mod spawn;
pub mod world;
