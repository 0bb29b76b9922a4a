//! Greatest common divisors: the mathematical definition, its laws, and
//! binary and Euclidean implementations on machine integers.

pub mod binary;
pub mod euclid;
pub mod machine;
pub mod theory;
