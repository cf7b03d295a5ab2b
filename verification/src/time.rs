//! A monotonic timestamp, counted in milliseconds.
//!
//! The surrounding firmware keeps a millisecond counter updated from a
//! periodic timer interrupt; every scan of the key matrix receives a
//! snapshot of that counter as an [`Instant`].

use vstd::prelude::*;

verus! {

/// A point in time, measured as milliseconds since the counter started.
#[derive(Debug, Clone, Copy, PartialEq, Eq, Structural)]
pub struct Instant {
    pub millis: u64,
}

impl Instant {
    pub fn from_millis(millis: u64) -> (r: Instant)
        ensures
            r.millis == millis,
    {
        Instant { millis }
    }

    pub fn as_millis(&self) -> (r: u64)
        ensures
            r == self.millis,
    {
        self.millis
    }
}

/// An instant split for the display: whole seconds and the millisecond
/// remainder within the second. The rendering itself belongs to the
/// display code outside this library.
#[derive(Debug, Clone, Copy, PartialEq, Eq, Structural)]
pub struct DisplayableInstant(pub Instant);

impl DisplayableInstant {
    pub fn as_secs(&self) -> (r: u64)
        ensures
            r == self.0.millis / 1000,
    {
        self.0.millis / 1000
    }

    pub fn subsec_millis(&self) -> (r: u64)
        ensures
            r == self.0.millis % 1000,
    {
        self.0.millis % 1000
    }
}

impl From<Instant> for DisplayableInstant {
    fn from(i: Instant) -> (r: DisplayableInstant)
        ensures
            r == DisplayableInstant(i),
    {
        DisplayableInstant(i)
    }
}

impl vstd::std_specs::convert::FromSpecImpl<Instant> for DisplayableInstant {
    open spec fn obeys_from_spec() -> bool {
        true
    }

    open spec fn from_spec(i: Instant) -> Self {
        DisplayableInstant(i)
    }
}

} // verus!
