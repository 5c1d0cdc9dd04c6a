//! Monotonic time, read through the standard library.
use vstd::prelude::*;
use std::time::{Duration, Instant};

verus! {

#[verifier::external_type_specification]
#[verifier::external_body]
pub struct ExInstant(Instant);

/// `Duration` is `Copy`; its clone is the same duration.
pub assume_specification[ <Duration as Clone>::clone ](d: &Duration) -> (r: Duration)
    ensures
        r == *d,
;

/// What `Duration::as_nanos` gives for a duration.
pub uninterp spec fn duration_nanos(d: Duration) -> u128;

/// `Instant::now()`: the current instant of the monotonic clock. Nothing is
/// claimed about the value.
#[verifier::external_body]
pub(crate) fn instant_now() -> Instant {
    Instant::now()
}

/// `Instant::elapsed` of `origin`, in whole nanoseconds. The reading depends
/// on the clock, so nothing is claimed about it.
#[verifier::external_body]
pub(crate) fn elapsed_nanos(origin: &Instant) -> u128 {
    origin.elapsed().as_nanos()
}

/// Nanoseconds since `origin`, clamped to `u64` (about 584 years).
pub fn nanos_since(origin: &Instant) -> u64 {
    let n = elapsed_nanos(origin);
    if n > u64::MAX as u128 { u64::MAX } else { n as u64 }
}

/// `Duration::as_nanos`: the length of `d` in whole nanoseconds.
#[verifier::external_body]
pub(crate) fn nanos_of(d: &Duration) -> (r: u128)
    ensures
        r == duration_nanos(*d),
{
    d.as_nanos()
}

/// `Duration::from_secs`: a duration of `secs` whole seconds, whose
/// `as_nanos` is `secs` times a billion.
#[verifier::external_body]
pub(crate) fn duration_from_secs(secs: u64) -> (r: Duration)
    ensures
        duration_nanos(r) == secs as int * 1_000_000_000,
{
    Duration::from_secs(secs)
}

/// A duration's length in nanoseconds, clamped to `u64`.
pub open spec fn clamp_nanos(n: u128) -> u64 {
    if n > u64::MAX as u128 { u64::MAX } else { n as u64 }
}

/// The length of `d` in nanoseconds, clamped to `u64`.
pub fn duration_nanos_u64(d: &Duration) -> (r: u64)
    ensures
        r == clamp_nanos(duration_nanos(*d)),
{
    let n = nanos_of(d);
    if n > u64::MAX as u128 { u64::MAX } else { n as u64 }
}

} // verus!
