//! The parts of the host interface that are plain computations on bytes.

pub mod memory;
