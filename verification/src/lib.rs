//! Verified course handouts: greatest common divisors of machine integers
//! and a fixed-point simulator of elastic collisions between discs.

pub mod elastic;
pub mod gcd;
