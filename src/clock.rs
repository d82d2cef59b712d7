//! The monotonic clock that bounds polling sessions in time.
use vstd::prelude::*;
use core::time::Duration;
use std::time::Instant;

verus! {

/// `std::time::Instant`, carried as an opaque value.
#[verifier::external_type_specification]
#[verifier::external_body]
pub struct ExInstant(Instant);

/// Relies on `Instant::now`: the current instant of the monotonic clock.
#[verifier::external_body]
pub(crate) fn clock_now() -> Instant {
    Instant::now()
}

/// Relies on `Instant::elapsed`: the time passed since `start`.
#[verifier::external_body]
pub(crate) fn clock_elapsed(start: &Instant) -> Duration {
    start.elapsed()
}

/// Names what `Duration::as_millis` gives for a duration.
pub uninterp spec fn millis_of(d: Duration) -> u128;

/// Relies on `Duration::as_millis`: the whole milliseconds of `d`, which
/// depend on `d` alone.
#[verifier::external_body]
pub(crate) fn duration_millis(d: &Duration) -> (ms: u128)
    ensures
        ms == millis_of(*d),
{
    d.as_millis()
}

/// Milliseconds passed since `start`.
pub(crate) fn millis_since(start: &Instant) -> u128 {
    duration_millis(&clock_elapsed(start))
}

} // verus!
