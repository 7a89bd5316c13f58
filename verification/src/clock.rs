//! Trusted wrappers around std's monotonic clock. Time is outside the
//! model: nothing is promised of the values, and the search loops are
//! verified for every outcome.

use vstd::prelude::*;
use std::time::{Duration, Instant};

verus! {

#[verifier::external_type_specification]
#[verifier::external_body]
pub struct ExInstant(Instant);

/// Relies on std::time::Instant::now: an opaque point in time.
#[verifier::external_body]
pub(crate) fn instant_now() -> Instant {
    Instant::now()
}

/// Relies on std::time::Instant::elapsed: the time since that point.
#[verifier::external_body]
pub(crate) fn elapsed_of(t: &Instant) -> Duration {
    t.elapsed()
}

/// Relies on std::time::Duration::as_micros: the duration in
/// microseconds, truncated into 64 bits.
#[verifier::external_body]
pub(crate) fn duration_micros(d: &Duration) -> u64 {
    d.as_micros() as u64
}

} // verus!
