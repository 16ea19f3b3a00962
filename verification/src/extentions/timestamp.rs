//! Timestamps in milliseconds.

use vstd::prelude::*;

verus! {

/// The number of nanoseconds in a millisecond.
pub const NANOS_PER_MILLI: u64 = 1_000_000;

/// A point in time that can be made of, and read in, milliseconds since the
/// epoch. A `u64` is such a point in time: the nanoseconds since the epoch.
pub trait TimestampExtentions: Sized {
    /// The nanoseconds since the epoch.
    spec fn nanos_spec(&self) -> u64;

    /// The timestamp of the given milliseconds since the epoch, which must
    /// not exceed what a timestamp holds.
    fn from_millis(milliseconds_since_epoch: u64) -> (timestamp: Self)
        requires
            milliseconds_since_epoch * NANOS_PER_MILLI <= u64::MAX,
        ensures
            timestamp.nanos_spec() == milliseconds_since_epoch * NANOS_PER_MILLI,
    ;

    /// The whole milliseconds since the epoch.
    fn millis(&self) -> (milliseconds: u64)
        ensures
            milliseconds == self.nanos_spec() / NANOS_PER_MILLI,
    ;
}

impl TimestampExtentions for u64 {
    open spec fn nanos_spec(&self) -> u64 {
        *self
    }

    fn from_millis(milliseconds_since_epoch: u64) -> (timestamp: Self) {
        milliseconds_since_epoch * NANOS_PER_MILLI
    }

    fn millis(&self) -> (milliseconds: u64) {
        *self / NANOS_PER_MILLI
    }
}

/// The nanoseconds since the epoch of the given milliseconds since the
/// epoch, or `None` where they exceed what a timestamp holds.
pub fn checked_from_millis(milliseconds_since_epoch: u64) -> (timestamp: Option<u64>)
    ensures
        timestamp.is_some() == (milliseconds_since_epoch * NANOS_PER_MILLI <= u64::MAX),
        timestamp matches Some(nanos) ==> nanos == milliseconds_since_epoch * NANOS_PER_MILLI,
{
    if milliseconds_since_epoch > u64::MAX / NANOS_PER_MILLI {
        None
    } else {
        Some(u64::from_millis(milliseconds_since_epoch))
    }
}

} // verus!
