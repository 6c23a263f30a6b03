//! Wall-clock readings for phase timing.  Readings are opaque; the harness
//! only carries the elapsed time onward as a nanosecond count, and no
//! contract depends on what the clock returns.
use vstd::prelude::*;

verus! {

#[verifier::external_type_specification]
#[verifier::external_body]
pub struct ExInstant(std::time::Instant);

/// Relies on `std::time::Instant::now`: a reading of the monotonic clock.
/// The value depends on when the call runs, so nothing is promised of it.
#[verifier::external_body]
pub fn now() -> std::time::Instant {
    std::time::Instant::now()
}

/// Relies on `Instant::elapsed`: the time since the reading was taken,
/// which depends on when the call runs.
#[verifier::external_body]
pub fn elapsed(start: &std::time::Instant) -> std::time::Duration {
    start.elapsed()
}

/// Relies on `Duration::as_nanos`: the duration in whole nanoseconds
/// (truncated into 64 bits; that covers more than five centuries).
#[verifier::external_body]
pub fn duration_nanos(d: &std::time::Duration) -> u64 {
    d.as_nanos() as u64
}

} // verus!
