//! The errors that the library's fallible operations return.

use vstd::prelude::*;

verus! {

/// Why an operation of this library failed.
#[derive(Debug, Clone, Copy, PartialEq, Eq, Structural)]
pub enum StdError {
    /// An index or key lies outside of the collection's current bounds.
    NotFound,
    /// Stored or given bytes do not decode as the expected type.
    ParseErr,
    /// A value has no encoding.
    SerializeErr,
    /// A 32-bit length or cursor has no room left.
    Overflow,
    /// Any other refusal, such as an address of the wrong shape.
    GenericErr,
}

} // verus!
