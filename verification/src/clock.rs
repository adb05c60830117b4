//! The monotonic clock that every deadline is measured on.

use crate::outside;
use vstd::prelude::*;

verus! {

/// Nanoseconds in one millisecond.
pub const NANOS_PER_MILLI: u128 = 1000000;

/// A monotonic clock; readings are nanoseconds since the clock was started. It
/// remembers its latest reading.
#[derive(Clone, Copy)]
pub struct Clock {
    origin: tokio::time::Instant,
    latest: u128,
}

/// `ms` milliseconds in nanoseconds.
pub open spec fn millis(ms: u64) -> nat {
    ms as nat * 1000000
}

impl Clock {
    #[verifier::type_invariant]
    spec fn in_range(self) -> bool {
        self.latest <= outside::MAX_NANOS
    }

    /// The latest reading that was taken.
    pub closed spec fn latest(self) -> nat {
        self.latest as nat
    }

    /// Starts a clock at zero. Which moment that is is up to the machine.
    pub fn start() -> (out: Clock)
        ensures
            out.latest() == 0,
    {
        Clock { origin: outside::instant_now(), latest: 0 }
    }

    /// The current reading, which is never below an earlier one and never exceeds
    /// the longest span that can be measured. How far it has advanced depends on
    /// the machine alone.
    pub fn now(&mut self) -> (out: u128)
        ensures
            old(self).latest() <= out <= outside::MAX_NANOS,
            final(self).latest() == out,
    {
        proof {
            use_type_invariant(&*self);
        }
        let elapsed: u128 = outside::nanos_since(&self.origin);
        if elapsed > self.latest {
            self.latest = elapsed;
        }
        self.latest
    }
}

/// `ms` milliseconds in nanoseconds.
pub fn millis_to_nanos(ms: u64) -> (out: u128)
    ensures
        out == millis(ms),
{
    ms as u128 * NANOS_PER_MILLI
}

/// A millisecond has a million nanoseconds.
pub proof fn a_millisecond_is_a_million_nanoseconds(ms: u64)
    ensures
        millis(ms) == ms * 1000000,
{
}

} // verus!
