use vstd::prelude::*;

verus! {

/// Nanoseconds in one second.
pub const NANOS_PER_SECOND: i128 = 1_000_000_000;

/// Nanoseconds in one day.
pub const NANOS_PER_DAY: i128 = 86_400_000_000_000;

/// Largest distance from the epoch, in nanoseconds, that date arithmetic
/// accepts: far beyond every calendar date, and small enough that a year can
/// be added or taken away without overflow.
pub const INSTANT_LIMIT: i128 = 1_000_000_000_000_000_000_000_000_000_000;

/// A point in time, as nanoseconds since 1970-01-01T00:00:00Z (negative
/// before it). Leap seconds are not represented.
#[derive(Debug, Clone, Copy, PartialEq, Eq, Structural)]
pub struct Instant {
    pub nanos: i128,
}

impl Instant {
    /// Within the range on which date arithmetic is defined.
    pub open spec fn in_range(self) -> bool {
        -INSTANT_LIMIT <= self.nanos <= INSTANT_LIMIT
    }

    /// The instant `secs` seconds and `nanos` nanoseconds after the epoch.
    pub fn from_unix(secs: i64, nanos: u32) -> (r: Instant)
        requires
            nanos < 1_000_000_000,
        ensures
            r.nanos == secs * NANOS_PER_SECOND + nanos,
            r.in_range(),
    {
        Instant { nanos: (secs as i128) * NANOS_PER_SECOND + (nanos as i128) }
    }

    /// Whole seconds since the epoch, rounded down.
    pub fn unix_seconds(&self) -> (r: i128)
        ensures
            r == self.nanos / NANOS_PER_SECOND,
    {
        match self.nanos.checked_div_euclid(NANOS_PER_SECOND) {
            Some(q) => q,
            None => 0,
        }
    }

    /// Nanoseconds past the whole second, in `0..1_000_000_000`.
    pub fn subsec_nanos(&self) -> (r: u32)
        ensures
            r == self.nanos % NANOS_PER_SECOND,
    {
        match self.nanos.checked_rem_euclid(NANOS_PER_SECOND) {
            Some(m) => m as u32,
            None => 0,
        }
    }
}

} // verus!
