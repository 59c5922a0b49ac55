//! Spans of time as the rest of the crate measures them: `std`'s
//! [`Duration`], read and built through its count of nanoseconds.
//!
//! Everything that compares, adds or divides a span does it on that count, so
//! a contract about a span is a contract about one number.

use std::time::Duration;
use vstd::prelude::*;

verus! {

/// How many whole nanoseconds `span` holds, as [`Duration::as_nanos`] counts
/// them.
pub uninterp spec fn duration_nanos(span: Duration) -> u128;

/// Nanoseconds in a second.
pub const NANOS_PER_SECOND: u64 = 1_000_000_000;

/// The longest span a [`Duration`] holds, in nanoseconds: `u64::MAX` seconds
/// and a second less one nanosecond.
pub open spec fn max_nanos() -> int {
    u64::MAX as int * NANOS_PER_SECOND as int + (NANOS_PER_SECOND as int - 1)
}

/// [`Duration::as_nanos`]: the whole span in nanoseconds, which the type
/// bounds by [`Duration::MAX`].
#[verifier::external_body]
pub(crate) fn nanos_of(span: Duration) -> (nanos: u128)
    ensures
        nanos == duration_nanos(span),
        nanos <= max_nanos(),
{
    span.as_nanos()
}

/// [`Duration::new`]: `seconds` and `nanos` more, where `nanos` is under a
/// second and so carries nothing into the seconds.
#[verifier::external_body]
fn duration_new(seconds: u64, nanos: u32) -> (span: Duration)
    requires
        nanos < NANOS_PER_SECOND,
    ensures
        duration_nanos(span) == seconds as int * NANOS_PER_SECOND as int + nanos as int,
{
    Duration::new(seconds, nanos)
}

/// The span of `nanos` nanoseconds.
pub fn from_total_nanos(nanos: u128) -> (span: Duration)
    requires
        nanos <= max_nanos(),
    ensures
        duration_nanos(span) == nanos,
{
    let seconds = nanos / (NANOS_PER_SECOND as u128);
    let rest = nanos % (NANOS_PER_SECOND as u128);
    assert(seconds <= u64::MAX) by (nonlinear_arith)
        requires
            nanos <= max_nanos(),
            seconds == nanos / 1_000_000_000u128,
    ;
    assert(nanos == seconds * 1_000_000_000 + rest) by (nonlinear_arith)
        requires
            seconds == nanos / 1_000_000_000u128,
            rest == nanos % 1_000_000_000u128,
    ;
    duration_new(seconds as u64, rest as u32)
}

/// The span of `nanos` nanoseconds, for a count that fits a `u64`.
pub fn from_nanos(nanos: u64) -> (span: Duration)
    ensures
        duration_nanos(span) == nanos,
{
    from_total_nanos(nanos as u128)
}

/// The empty span.
pub fn zero() -> (span: Duration)
    ensures
        duration_nanos(span) == 0,
{
    from_nanos(0)
}

} // verus!
