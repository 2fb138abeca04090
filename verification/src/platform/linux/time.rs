//! Monotonic time from `clock_gettime(CLOCK_MONOTONIC_RAW)`: converting the
//! kernel's `timespec` to nanoseconds.
use vstd::prelude::*;

verus! {

/// Linux `CLOCK_MONOTONIC_RAW`.
pub const CLOCK_MONOTONIC_RAW: i32 = 4;

/// `clock_gettime` returned a nonzero code.
#[derive(Debug, Clone, Copy, PartialEq, Eq, Structural)]
pub struct TimeError {
    pub retcode: i32,
}

/// Nanoseconds of a `timespec`: seconds times 10^9 plus nanoseconds, each
/// step saturating at `u64::MAX`; both fields are read as unsigned (a
/// negative value by its two's-complement bits).
pub open spec fn spec_timespec_ns(tv_sec: i64, tv_nsec: i64) -> u64 {
    let secs = tv_sec as u64;
    let scaled = if secs * 1_000_000_000 > u64::MAX {
        u64::MAX
    } else {
        (secs * 1_000_000_000) as u64
    };
    if scaled + (tv_nsec as u64) > u64::MAX {
        u64::MAX
    } else {
        (scaled + (tv_nsec as u64)) as u64
    }
}

/// The monotonic reading, in nanoseconds, of a successful `clock_gettime`.
pub fn timespec_to_ns(tv_sec: i64, tv_nsec: i64) -> (r: u64)
    ensures
        r == spec_timespec_ns(tv_sec, tv_nsec),
{
    let secs = tv_sec as u64;
    let scaled = match secs.checked_mul(1_000_000_000) {
        Some(v) => v,
        None => u64::MAX,
    };
    scaled.saturating_add(tv_nsec as u64)
}

/// The clock reading of a `clock_gettime` call: its conversion when the call
/// returned 0, else the call's code.
pub fn clock_reading(rc: i32, tv_sec: i64, tv_nsec: i64) -> (r: Result<u64, TimeError>)
    ensures
        rc != 0 ==> r == Err::<u64, TimeError>(TimeError { retcode: rc }),
        rc == 0 ==> r == Ok::<u64, TimeError>(spec_timespec_ns(tv_sec, tv_nsec)),
{
    if rc != 0 {
        return Err(TimeError { retcode: rc });
    }
    Ok(timespec_to_ns(tv_sec, tv_nsec))
}

} // verus!
