//! Typed collections (single item, vector, double-ended queue, set, ordered
//! map) laid over a flat, namespaced, byte-keyed key-value store.
//!
//! Every function of this library carries a contract over a mathematical model
//! of the store: a `Map` from byte strings to byte strings, ordered
//! lexicographically by key.

pub mod bytes;
pub mod data_types;
pub mod error;
pub mod extentions;
pub mod sdk_autogen;
pub mod storage;
pub mod utils;
pub mod wasm_api;
