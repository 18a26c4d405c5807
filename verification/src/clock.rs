//! Reading the clocks: wall-clock Unix milliseconds for last-seen stamps,
//! and monotonic elapsed time for throttling progress events.
use vstd::prelude::*;

verus! {

#[verifier::external_type_specification]
#[verifier::external_body]
pub struct ExSystemTime(std::time::SystemTime);

#[verifier::external_type_specification]
#[verifier::external_body]
pub struct ExSystemTimeError(std::time::SystemTimeError);

/// `SystemTime::now`; depends on the clock.
#[verifier::external_body]
fn system_time_now() -> (res: std::time::SystemTime) {
    std::time::SystemTime::now()
}

/// `SystemTime::duration_since(UNIX_EPOCH)`: the time from the Unix epoch
/// to `t`, or an error when `t` lies before it; depends on the clock's
/// reading, so nothing is stated.
#[verifier::external_body]
fn since_unix_epoch(t: &std::time::SystemTime) -> (res: Result<std::time::Duration, std::time::SystemTimeError>) {
    t.duration_since(std::time::UNIX_EPOCH)
}

/// `Duration::as_millis`.
#[verifier::external_body]
fn duration_millis(d: &std::time::Duration) -> (res: u128) {
    d.as_millis()
}

/// `Duration::as_nanos`.
#[verifier::external_body]
fn duration_nanos(d: &std::time::Duration) -> (res: u128) {
    d.as_nanos()
}

/// The Unix-millisecond stamp for a reading of the clock: the milliseconds
/// truncated to `u64`, or 0 for a time before the epoch.
pub open spec fn unix_ms_of(millis: Option<u128>) -> u64 {
    match millis {
        Some(m) => m as u64,
        None => 0,
    }
}

/// The Unix-millisecond stamp for a reading of the clock (see `unix_ms_of`).
pub fn unix_ms_from(millis: Option<u128>) -> (res: u64)
    ensures
        res == unix_ms_of(millis),
{
    match millis {
        Some(m) => m as u64,
        None => 0,
    }
}

/// The current time in Unix milliseconds, or 0 if the clock reads before
/// the epoch.
pub fn current_unix_ms() -> (res: u64) {
    let t = system_time_now();
    let millis = match since_unix_epoch(&t) {
        Ok(d) => Some(duration_millis(&d)),
        Err(_) => None,
    };
    unix_ms_from(millis)
}

#[verifier::external_type_specification]
#[verifier::external_body]
pub struct ExInstant(std::time::Instant);

/// `Instant::now`; depends on the clock.
#[verifier::external_body]
pub(crate) fn instant_now() -> (res: std::time::Instant) {
    std::time::Instant::now()
}

/// `Instant::elapsed`; depends on the clock, so nothing is stated.
#[verifier::external_body]
fn instant_elapsed(since: &std::time::Instant) -> (res: std::time::Duration) {
    since.elapsed()
}

/// Nanoseconds elapsed since `since`.
pub(crate) fn elapsed_nanos(since: &std::time::Instant) -> (res: u128) {
    duration_nanos(&instant_elapsed(since))
}

/// The minimum time between two progress events (100 ms, in nanoseconds).
pub const EMIT_INTERVAL_NS: u128 = 100_000_000;

/// Whether a progress event is due after `elapsed_ns` nanoseconds since
/// the last one: at least 100 ms have passed, or the transfer is finished.
pub fn should_emit_after(elapsed_ns: u128, is_final: bool) -> (res: bool)
    ensures
        res == (elapsed_ns >= EMIT_INTERVAL_NS || is_final),
{
    elapsed_ns >= EMIT_INTERVAL_NS || is_final
}

/// Whether a progress event is due since `last_emit` (see
/// `should_emit_after`); a final event is always due.
pub fn should_emit(last_emit: &std::time::Instant, is_final: bool) -> (res: bool)
    ensures
        is_final ==> res,
{
    should_emit_after(elapsed_nanos(last_emit), is_final)
}

} // verus!
