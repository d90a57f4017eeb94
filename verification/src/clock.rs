//! Reading the clocks: the wall clock, and the monotonic clock that time-outs
//! go by.
use std::time::Instant;
use vstd::prelude::*;

verus! {

/// Milliseconds since the Unix epoch, as `chrono::Utc::now().timestamp_millis()`
/// reports them. The value depends on the machine's clock, so nothing is
/// promised of it: callers state what holds for every value.
#[verifier::external_body]
pub(crate) fn wall_clock_millis() -> (ms: i64) {
    chrono::Utc::now().timestamp_millis()
}

/// `std::time::Instant`, a reading of the monotonic clock. Verus sees nothing
/// inside it.
#[verifier::external_type_specification]
#[verifier::external_body]
pub struct ExInstant(std::time::Instant);

/// The monotonic clock now, as `Instant::now()` reads it. Nothing is promised
/// of the reading.
#[verifier::external_body]
pub(crate) fn monotonic_now() -> (t: Instant) {
    Instant::now()
}

/// The milliseconds that have passed on the monotonic clock since `origin`,
/// as `origin.elapsed().as_millis()` gives them, cast to `i64`. The value
/// depends on the time of the call, so nothing is promised of it: callers
/// state what holds for every value.
#[verifier::external_body]
pub(crate) fn millis_since(origin: &Instant) -> (ms: i64) {
    origin.elapsed().as_millis() as i64
}

} // verus!
