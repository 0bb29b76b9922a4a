//! What holds of every ball, every pair and every world.

pub mod containment;
pub mod energy;
pub mod impulse;
pub mod limits;
pub mod pairs;
pub mod separation;
pub mod substeps;
pub mod turns;
pub mod validity;
pub mod walls;
