//! Readings of the clocks: the monotonic clock and the system clock (std), and
//! date arithmetic (chrono).

use vstd::prelude::*;

verus! {

#[verifier::external_type_specification]
#[verifier::external_body]
pub struct ExInstant(std::time::Instant);

/// `std::time::Instant::now`: the current reading of the monotonic clock.
/// Nothing is promised of its value.
#[verifier::external_body]
pub(crate) fn instant_now() -> std::time::Instant {
    std::time::Instant::now()
}

/// `std::time::Instant::elapsed`, in nanoseconds: the time since `origin` by the
/// monotonic clock. Nothing is promised of its value.
#[verifier::external_body]
pub(crate) fn nanos_since(origin: &std::time::Instant) -> u128 {
    origin.elapsed().as_nanos()
}


#[verifier::external_type_specification]
#[verifier::external_body]
pub struct ExSystemTime(std::time::SystemTime);

/// `std::time::SystemTime::now`: the current reading of the system clock.
/// Nothing is promised of its value.
#[verifier::external_body]
fn system_now() -> std::time::SystemTime {
    std::time::SystemTime::now()
}

/// `std::time::SystemTime::duration_since(UNIX_EPOCH)`: the time since the
/// Unix epoch, or `None` where the reading is earlier. Nothing is promised of
/// its value.
#[verifier::external_body]
fn since_unix_epoch(t: &std::time::SystemTime) -> Option<std::time::Duration> {
    match t.duration_since(std::time::UNIX_EPOCH) {
        Ok(d) => Some(d),
        Err(_) => None,
    }
}

/// `std::time::Duration::as_secs`: the whole seconds of a duration. Nothing is
/// promised of its value.
#[verifier::external_body]
fn whole_seconds(d: &std::time::Duration) -> u64 {
    d.as_secs()
}

/// The current Unix time in whole seconds, or `None` where the system clock
/// reads before 1970 (or beyond `i64`). Nothing is promised of the reading.
pub fn unix_time() -> (r: Option<i64>)
    ensures
        r matches Some(t) ==> t >= 0,
{
    match since_unix_epoch(&system_now()) {
        Some(d) => {
            let secs = whole_seconds(&d);
            if secs <= i64::MAX as u64 {
                Some(secs as i64)
            } else {
                None
            }
        },
        None => None,
    }
}

/// The latest Unix time (in seconds) up to which chrono is sure to represent
/// an instant: chrono's dates reach the year 262142, far beyond this bound
/// (about the year 255000).
pub open spec fn chrono_sure_max() -> int {
    8_000_000_000_000
}

/// `chrono::DateTime::checked_add_signed` on the instant `ts` (Unix seconds)
/// and a span of `secs` seconds, read back as Unix seconds: `None` where the
/// result is out of chrono's range, else `ts + secs`. Between 1970 and
/// `chrono_sure_max` every instant is in range.
#[verifier::external_body]
pub(crate) fn checked_add_seconds(ts: i64, secs: i64) -> (r: Option<i64>)
    requires
        -(i64::MAX / 1000) <= secs <= i64::MAX / 1000,
    ensures
        r matches Some(t) ==> t == ts + secs,
        0 <= ts && 0 <= secs && ts + secs <= chrono_sure_max() ==> r is Some,
{
    match chrono::DateTime::from_timestamp_secs(ts) {
        Some(d) => match d.checked_add_signed(chrono::TimeDelta::seconds(secs)) {
            Some(later) => Some(later.timestamp()),
            None => None,
        },
        None => None,
    }
}

} // verus!
