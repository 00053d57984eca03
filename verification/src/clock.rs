//! Wall-clock time for the cost of loading and hashing.

use vstd::prelude::*;

verus! {

/// `std::time::Instant`, a point in time that only the clock can produce.
#[verifier::external_type_specification]
#[verifier::external_body]
pub struct ExInstant(std::time::Instant);

/// The present moment. This is `Instant::now`; nothing is known of what it
/// returns.
#[verifier::external_body]
pub(crate) fn now() -> (at: std::time::Instant) {
    std::time::Instant::now()
}

/// The time that has passed since `start`. This is `Instant::elapsed`;
/// nothing is known of what it returns.
#[verifier::external_body]
pub(crate) fn since(start: &std::time::Instant) -> (passed: std::time::Duration) {
    start.elapsed()
}

/// The whole seconds of `d`. This is `Duration::as_secs`; nothing is claimed
/// of the number.
#[verifier::external_body]
pub(crate) fn whole_seconds(d: &std::time::Duration) -> (secs: u64) {
    d.as_secs()
}

/// The part of `d` below one second, in nanoseconds. This is
/// `Duration::subsec_nanos`, which is documented to stay below one second.
#[verifier::external_body]
pub(crate) fn subsec_nanos(d: &std::time::Duration) -> (nanos: u32)
    ensures
        nanos < 1_000_000_000,
{
    d.subsec_nanos()
}

/// Milliseconds in `secs` seconds and `nanos` nanoseconds, capped at the
/// largest number that fits.
pub open spec fn spec_millis(secs: u64, nanos: u32) -> u64 {
    if secs * 1000 + nanos / 1_000_000 > u64::MAX {
        u64::MAX
    } else {
        (secs * 1000 + nanos / 1_000_000) as u64
    }
}

/// Milliseconds in a duration of `secs` whole seconds and `nanos`
/// nanoseconds beyond them: one second is a thousand milliseconds, one
/// millisecond a million nanoseconds, and what is left of a millisecond is
/// dropped.
pub fn duration_millis(secs: u64, nanos: u32) -> (ms: u64)
    ensures
        ms == spec_millis(secs, nanos),
{
    let from_nanos: u64 = (nanos / 1_000_000) as u64;
    if secs > (u64::MAX - from_nanos) / 1000 {
        u64::MAX
    } else {
        secs * 1000 + from_nanos
    }
}

/// The milliseconds that have passed since `start`.
pub(crate) fn elapsed_millis(start: &std::time::Instant) -> (ms: u64) {
    let passed = since(start);
    duration_millis(whole_seconds(&passed), subsec_nanos(&passed))
}

/// The sum of two counts, capped at the largest number that fits.
pub open spec fn capped_sum(a: u64, b: u64) -> u64 {
    if a + b > u64::MAX {
        u64::MAX
    } else {
        (a + b) as u64
    }
}

/// The sum of two counts, capped at the largest number that fits.
pub fn add_capped(a: u64, b: u64) -> (sum: u64)
    ensures
        sum == capped_sum(a, b),
{
    if a > u64::MAX - b {
        u64::MAX
    } else {
        a + b
    }
}

} // verus!
