//! The clock, as the scheduler reads it: nanoseconds since an origin.
use std::time::{Duration, Instant};
use vstd::prelude::*;

verus! {

/// `std::time::Instant`, kept as the origin of a scheduler's clock.
#[verifier::external_type_specification]
#[verifier::external_body]
pub struct ExInstant(Instant);

/// `Instant::now`: the current instant of the monotonic clock. Nothing is
/// claimed of the value: it depends on when the call is made.
#[verifier::external_body]
pub fn now() -> (t: Instant) {
    Instant::now()
}

/// `Instant::elapsed`: the time since `origin`. Nothing is claimed of the
/// value: it depends on when the call is made.
#[verifier::external_body]
pub fn since(origin: &Instant) -> (d: Duration) {
    origin.elapsed()
}

/// `Duration::as_nanos`: the whole nanoseconds of `d`, which is all of it
/// (a `Duration` counts whole nanoseconds). Nothing is claimed of the value,
/// since `Duration` is opaque here; the only durations handed to it are
/// clock readings, of which nothing is known anyway.
#[verifier::external_body]
pub fn whole_nanos(d: &Duration) -> (ns: u128) {
    d.as_nanos()
}

} // verus!
