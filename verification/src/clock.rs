//! The wall clock that decides which scheduled profile is in effect.
use vstd::prelude::*;

verus! {

/// The local time of the machine.
pub struct SystemClock;

impl SystemClock {
    /// Calls `chrono::Local::now` and `Timelike::hour` of the `chrono` crate: the hour of
    /// the local time, which chrono documents as a number from 0 to 23. Which hour it is
    /// depends on the time of the call.
    #[verifier::external_body]
    pub(crate) fn current_hour(&self) -> (r: u32)
        ensures
            r <= 23,
    {
        chrono::Timelike::hour(&chrono::Local::now())
    }
}

} // verus!
