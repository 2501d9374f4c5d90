//! Clock reads. Every value here depends on when it is read, so the wrappers
//! promise nothing about it; the verified code takes the readings as inputs.

use vstd::prelude::*;

verus! {

#[verifier::external_type_specification]
#[verifier::external_body]
pub struct ExInstant(std::time::Instant);

#[verifier::external_type_specification]
#[verifier::external_body]
pub struct ExSystemTime(std::time::SystemTime);

/// Calls `Instant::now`: a reading of the monotonic clock.
#[verifier::external_body]
pub(crate) fn instant_now() -> (r: std::time::Instant) {
    std::time::Instant::now()
}

/// Calls `Instant::elapsed` on `origin`, in nanoseconds: the time since that
/// reading, which depends on when the call is made.
#[verifier::external_body]
pub(crate) fn nanos_since(origin: &std::time::Instant) -> (r: u128) {
    origin.elapsed().as_nanos()
}

/// Calls `SystemTime::now`: a reading of the wall clock.
#[verifier::external_body]
fn system_now() -> (r: std::time::SystemTime) {
    std::time::SystemTime::now()
}

/// Calls `SystemTime::duration_since(UNIX_EPOCH)` on `t`, in nanoseconds;
/// `None` when `t` is before the epoch.
#[verifier::external_body]
fn unix_elapsed_nanos(t: &std::time::SystemTime) -> (r: Option<u128>) {
    match t.duration_since(std::time::UNIX_EPOCH) {
        Ok(d) => Some(d.as_nanos()),
        Err(_) => None,
    }
}

/// Calls `SystemTime::duration_since(UNIX_EPOCH)` on `t`, in whole seconds;
/// `None` when `t` is before the epoch.
#[verifier::external_body]
fn unix_elapsed_secs(t: &std::time::SystemTime) -> (r: Option<u64>) {
    match t.duration_since(std::time::UNIX_EPOCH) {
        Ok(d) => Some(d.as_secs()),
        Err(_) => None,
    }
}

/// Nanoseconds since `origin`, saturated to `u64`.
pub fn ticks_since(origin: &std::time::Instant) -> (r: u64) {
    let n = nanos_since(origin);
    if n > u64::MAX as u128 {
        u64::MAX
    } else {
        n as u64
    }
}

/// Nanoseconds since the Unix epoch by the wall clock (0 when the clock is
/// before the epoch).
pub fn unix_nanos() -> (r: u128) {
    match unix_elapsed_nanos(&system_now()) {
        Some(n) => n,
        None => 0,
    }
}

/// Seconds since the Unix epoch by the wall clock, as `i64` (0 when the clock
/// is before the epoch).
pub fn now_secs() -> (r: i64) {
    match unix_elapsed_secs(&system_now()) {
        Some(s) => s as i64,
        None => 0,
    }
}

} // verus!
