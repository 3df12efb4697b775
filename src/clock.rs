//! The store's monotonic clock, read as ticks (nanoseconds) since an origin.
use vstd::prelude::*;

verus! {

/// tokio::time::Instant, an opaque reading of the monotonic clock; it is only
/// carried as the clock's origin.
#[verifier::external_type_specification]
#[verifier::external_body]
pub struct ExInstant(tokio::time::Instant);

/// Relies on tokio::time::Instant::now: reads the monotonic clock.
pub assume_specification[ tokio::time::Instant::now ]() -> tokio::time::Instant;

/// Relies on tokio::time::Instant::elapsed: the time since `origin`, taken
/// from a clock that never goes backwards.
#[verifier::external_body]
fn nanos_since(origin: &tokio::time::Instant) -> u64 {
    origin.elapsed().as_nanos() as u64
}

/// A monotonic clock; every copy counts from the same origin.
#[derive(Clone, Copy)]
pub struct Clock {
    origin: tokio::time::Instant,
}

impl Clock {
    /// A clock whose origin is the present moment.
    pub fn new() -> (r: Clock) {
        Clock { origin: tokio::time::Instant::now() }
    }

    /// Ticks elapsed since the origin.
    pub fn now(&self) -> (r: u64) {
        nanos_since(&self.origin)
    }
}

} // verus!
