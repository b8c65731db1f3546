//! Durations and the clock, as the broker reads them.
//!
//! Points in time are `Timestamp`s (nanoseconds since the Unix epoch);
//! durations are the standard library's, whose length the broker reads in
//! nanoseconds.

use vstd::prelude::*;
use std::time::Duration;
use crate::qiss::types::Timestamp;

verus! {

/// The length of a duration in nanoseconds, as `Duration::as_nanos` gives it.
pub uninterp spec fn duration_nanos(d: Duration) -> u128;

/// `Duration` is `Copy`; its clone is the same value.
pub assume_specification[ <Duration as Clone>::clone ](d: &Duration) -> (r: Duration)
    ensures
        r == *d,
;

/// Calls `Duration::as_nanos`.
#[verifier::external_body]
pub fn duration_as_nanos(d: &Duration) -> (n: u128)
    ensures
        n == duration_nanos(*d),
{
    d.as_nanos()
}

/// Calls `Duration::from_secs`: a duration of `secs` whole seconds, whose
/// nanoseconds are `secs * 10^9` (as the standard library documents).
#[verifier::external_body]
pub fn duration_from_secs(secs: u64) -> (d: Duration)
    ensures
        duration_nanos(d) == secs * 1_000_000_000,
{
    Duration::from_secs(secs)
}

/// Calls `Duration::from_millis`: a duration of `millis` milliseconds, whose
/// nanoseconds are `millis * 10^6`.
#[verifier::external_body]
pub fn duration_from_millis(millis: u64) -> (d: Duration)
    ensures
        duration_nanos(d) == millis * 1_000_000,
{
    Duration::from_millis(millis)
}

/// The point `d` after `t`, saturating at the largest timestamp.
pub open spec fn later_by(t: Timestamp, d: u128) -> Timestamp {
    if t.0 + d > u64::MAX {
        Timestamp(u64::MAX)
    } else {
        Timestamp((t.0 + d) as u64)
    }
}

/// The point `d` after `t`, saturating at the largest timestamp.
pub fn add_duration(t: Timestamp, d: &Duration) -> (r: Timestamp)
    ensures
        r == later_by(t, duration_nanos(*d)),
{
    let n = duration_as_nanos(d);
    if n > (u64::MAX - t.0) as u128 {
        Timestamp(u64::MAX)
    } else {
        Timestamp(t.0 + n as u64)
    }
}

/// How long before `now` the point `t` lies; zero when `t` is not before
/// `now` (as `SystemTime::duration_since(..).unwrap_or_default()`).
pub open spec fn age(now: Timestamp, t: Timestamp) -> u128 {
    if now.0 >= t.0 {
        (now.0 - t.0) as u128
    } else {
        0
    }
}

} // verus!
