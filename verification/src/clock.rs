//! Reading the monotonic clock. What it reads depends on when it is read, so
//! nothing is assumed of the values.

use std::time::{Duration, Instant};
use vstd::prelude::*;

verus! {

/// `std::time::Instant`, carried through the state as an opaque value.
#[verifier::external_type_specification]
#[verifier::external_body]
pub struct ExInstant(Instant);

/// Calls `Instant::now`: the current instant.
#[verifier::external_body]
pub(crate) fn now() -> Instant {
    Instant::now()
}

/// Calls `Instant::elapsed`: the time since `start` (zero if `start` lies in
/// the future).
#[verifier::external_body]
pub(crate) fn elapsed(start: &Instant) -> Duration {
    start.elapsed()
}

/// Calls `Duration::as_secs`: the whole seconds of a duration.
#[verifier::external_body]
pub(crate) fn whole_secs(d: &Duration) -> u64 {
    d.as_secs()
}

/// Calls `Duration::as_nanos`: the whole nanoseconds of a duration.
#[verifier::external_body]
pub(crate) fn whole_nanos(d: &Duration) -> u128 {
    d.as_nanos()
}

/// `n` saturated to fit a `u64`.
pub fn saturate_u64(n: u128) -> (r: u64)
    ensures
        r == (if n > u64::MAX { u64::MAX as u128 } else { n }),
{
    if n > u64::MAX as u128 {
        u64::MAX
    } else {
        n as u64
    }
}

/// Nanoseconds since `start`, saturated to fit a `u64` (about 584 years).
/// Nothing is stated of the value: it depends on when the clock is read.
pub(crate) fn nanos_since(start: &Instant) -> u64 {
    saturate_u64(whole_nanos(&elapsed(start)))
}

/// Whole seconds since `start`. Nothing is stated of the value: it depends
/// on when the clock is read.
pub(crate) fn secs_since(start: &Instant) -> u64 {
    whole_secs(&elapsed(start))
}

} // verus!
