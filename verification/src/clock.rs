//! Wall-clock and monotonic time, read through `std::time`.
//! Nothing is promised of the values read: they depend on the machine's clock.

use vstd::prelude::*;

verus! {

#[verifier::external_type_specification]
#[verifier::external_body]
pub struct ExInstant(std::time::Instant);

/// Where the system clock stands against the Unix epoch: `Ok` with the whole seconds and
/// the milliseconds of the second since the epoch, or `Err` with how far before the epoch
/// it reads, in the same form.
///
/// Trusted: `SystemTime::now().duration_since(UNIX_EPOCH)` returns the duration since the
/// epoch, or an error carrying the duration by which the clock reads earlier; of either,
/// `subsec_millis` is below 1000, as std documents. Nothing else is stated of the reading.
#[verifier::external_body]
pub(crate) fn epoch_offset() -> (r: Result<(u64, u32), (u64, u32)>)
    ensures
        match r {
            Ok((_, ms)) => ms < 1000,
            Err((_, ms)) => ms < 1000,
        },
{
    match std::time::SystemTime::now().duration_since(std::time::UNIX_EPOCH) {
        Ok(d) => Ok((d.as_secs(), d.subsec_millis())),
        Err(e) => Err((e.duration().as_secs(), e.duration().subsec_millis())),
    }
}

/// Signed milliseconds since the Unix epoch of a clock reading, negative before the epoch,
/// held at the bounds of `i64`.
pub open spec fn offset_millis(r: Result<(u64, u32), (u64, u32)>) -> int {
    let m = match r {
        Ok((s, ms)) => s * 1000 + ms,
        Err((s, ms)) => -(s * 1000 + ms),
    };
    if m > i64::MAX {
        i64::MAX as int
    } else if m < i64::MIN {
        i64::MIN as int
    } else {
        m
    }
}

/// Converts a clock reading into signed milliseconds since the Unix epoch.
pub fn millis_from_offset(r: Result<(u64, u32), (u64, u32)>) -> (m: i64)
    ensures
        m == offset_millis(r),
{
    let (secs, ms, before) = match r {
        Ok((s, ms)) => (s, ms, false),
        Err((s, ms)) => (s, ms, true),
    };
    let limit: u64 = 9223372036854775u64;
    if secs > limit {
        if before { i64::MIN } else { i64::MAX }
    } else {
        let total: u64 = secs * 1000 + ms as u64;
        if before {
            if total >= 9223372036854775808u64 {
                i64::MIN
            } else {
                -(total as i64)
            }
        } else if total > 9223372036854775807u64 {
            i64::MAX
        } else {
            total as i64
        }
    }
}

/// The current time in milliseconds since the Unix epoch, negative when the system clock
/// reads before the epoch.
pub(crate) fn utc_now_millis() -> i64 {
    millis_from_offset(epoch_offset())
}

/// A reading of the monotonic clock.
///
/// Trusted: `std::time::Instant::now`; nothing is stated of the value.
#[verifier::external_body]
pub(crate) fn instant_now() -> std::time::Instant {
    std::time::Instant::now()
}

/// Whole milliseconds elapsed since `start`.
///
/// Trusted: `Instant::elapsed` measures the time since `start`; nothing is stated of the value.
#[verifier::external_body]
pub(crate) fn elapsed_millis(start: &std::time::Instant) -> u64 {
    start.elapsed().as_millis() as u64
}

/// Whole seconds since the Unix epoch, or `None` when the system clock reads earlier.
pub(crate) fn unix_time_secs() -> Option<u64> {
    match epoch_offset() {
        Ok((s, _)) => Some(s),
        Err(_) => None,
    }
}

} // verus!
