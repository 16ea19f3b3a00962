//! Additions to the number and time types of the chain.

pub mod math;
pub mod timestamp;
