//! The address and asset types of the chain.

pub mod canonical_addr;
pub mod asset;
