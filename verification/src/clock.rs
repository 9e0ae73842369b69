//! The wall clock, as plain numbers.

use vstd::prelude::*;

verus! {

/// Nanoseconds in a millisecond.
pub const NANOS_PER_MILLI: u64 = 1_000_000;

/// Reads the system clock with `std::time::SystemTime::now`, turns the
/// reading into a date with chrono's `DateTime::<Utc>::from`, and calls
/// `DateTime::timestamp_nanos_opt`: the time in nanoseconds since the Unix
/// epoch, negative for a clock that reads before it, or `None` where that
/// does not fit 64 bits. Nothing is claimed of the value: it differs from
/// call to call.
#[verifier::external_body]
fn utc_now_nanos() -> Option<i64> {
    chrono::DateTime::<chrono::Utc>::from(std::time::SystemTime::now()).timestamp_nanos_opt()
}

/// The reading `raw` as unsigned nanoseconds: zero where the clock gave no
/// value or one before the epoch.
pub open spec fn nanos_of(raw: Option<i64>) -> u64 {
    match raw {
        Some(t) => if t < 0 {
            0
        } else {
            t as u64
        },
        None => 0,
    }
}

/// Turns a clock reading into unsigned nanoseconds.
pub fn nanos_from_reading(raw: Option<i64>) -> (t: u64)
    ensures
        t == nanos_of(raw),
{
    match raw {
        Some(t) => if t < 0 {
            0
        } else {
            t as u64
        },
        None => 0,
    }
}

/// The current time in nanoseconds since the Unix epoch; zero where the
/// clock reads a time before the epoch or one that does not fit 64 bits.
pub fn now_nanos() -> (t: u64)
    ensures
        t <= i64::MAX,
{
    nanos_from_reading(utc_now_nanos())
}

/// The current time in milliseconds since the Unix epoch.
pub fn now_millis() -> (t: u64)
    ensures
        t <= i64::MAX / 1_000_000,
{
    now_nanos() / NANOS_PER_MILLI
}

} // verus!
