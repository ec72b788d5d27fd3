//! The machine's clock.
use std::time::{Duration, SystemTime};
use vstd::prelude::*;

verus! {

/// `std::time::SystemTime`: a reading of the machine's clock.
#[verifier::external_type_specification]
#[verifier::external_body]
pub struct ExSystemTime(std::time::SystemTime);

/// The clock now.
///
/// Calls `SystemTime::now`: a reading of the machine's clock, of which
/// nothing is stated.
#[verifier::external_body]
fn system_time_now() -> SystemTime {
    SystemTime::now()
}

/// How long after the Unix epoch `t` is, or `None` for a time before it.
///
/// Calls `SystemTime::duration_since` with `UNIX_EPOCH`, whose error (a time
/// before the epoch) becomes `None`; nothing is stated of the duration.
#[verifier::external_body]
fn since_unix_epoch(t: &SystemTime) -> Option<Duration> {
    t.duration_since(std::time::UNIX_EPOCH).ok()
}

/// The whole milliseconds of `d`.
///
/// Calls `Duration::as_millis`; nothing is stated of the value.
#[verifier::external_body]
fn duration_millis(d: &Duration) -> u128 {
    d.as_millis()
}

/// The milliseconds since the Unix epoch, now, or `None` when the clock
/// reads a time before the epoch.
pub(crate) fn unix_time_millis() -> Option<u128> {
    let now = system_time_now();
    match since_unix_epoch(&now) {
        Some(d) => Some(duration_millis(&d)),
        None => None,
    }
}

} // verus!
