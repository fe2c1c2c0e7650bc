//! A monotonic clock that counts nanoseconds from the moment it was made.
//!
//! The caches never look at the time themselves: every operation that depends
//! on it takes the reading as an argument, so it is specified and proved for
//! every reading. Only the convenience forms of the operations read a `Clock`.

use std::time::Duration;
use std::time::Instant;
use vstd::prelude::*;

verus! {

/// `std::time::Instant`, a moment of the monotonic clock. It is only carried.
#[verifier::external_type_specification]
#[verifier::external_body]
pub struct ExInstant(Instant);

/// `Instant::now`: the present moment. Nothing is claimed of it.
#[verifier::external_body]
fn instant_now() -> Instant {
    Instant::now()
}

/// `Instant::elapsed`: the time since `since`. Nothing is claimed of it.
#[verifier::external_body]
fn instant_elapsed(since: &Instant) -> Duration {
    since.elapsed()
}

/// `Duration::as_nanos`: the span in whole nanoseconds. `Duration` is opaque
/// here, so nothing is claimed of the number.
#[verifier::external_body]
fn duration_as_nanos(span: &Duration) -> u128 {
    span.as_nanos()
}

/// A source of timestamps, in nanoseconds since the clock was made.
pub struct Clock {
    epoch: Instant,
}

impl Clock {
    /// A clock that starts now.
    pub fn new() -> Clock {
        Clock { epoch: instant_now() }
    }

    /// The nanoseconds that have passed since the clock was made.
    pub fn now(&self) -> u128 {
        let span = instant_elapsed(&self.epoch);
        duration_as_nanos(&span)
    }
}

} // verus!
