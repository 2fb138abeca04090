//! The monotonic-clock contract every backend implements, and the portable
//! clock built on `std::time::Instant`.
use vstd::prelude::*;

verus! {

#[verifier::external_type_specification]
#[verifier::external_body]
pub struct ExInstant(std::time::Instant);

/// Monotonic clock: nanoseconds since an arbitrary fixed epoch, never
/// jumping backwards.
pub trait Clock {
    /// Nanoseconds since the clock's epoch.
    fn now_ns(&self) -> u64;

    /// Nominal tick period of the underlying source, in nanoseconds.
    fn resolution_ns(&self) -> u64;
}

/// `Instant::now`: the current instant of the monotonic clock. Nothing is
/// promised of the value; it depends on when it is called.
#[verifier::external_body]
fn instant_now() -> (r: std::time::Instant) {
    std::time::Instant::now()
}

/// `Instant::elapsed`: the time since `epoch`. Nothing is promised of the
/// value; it depends on when it is called.
#[verifier::external_body]
fn instant_elapsed(epoch: &std::time::Instant) -> (r: std::time::Duration) {
    epoch.elapsed()
}

/// `Duration::as_nanos`: the whole nanoseconds of a duration. Nothing is
/// stated of the value: a `Duration` is opaque here.
#[verifier::external_body]
fn duration_nanos(d: &std::time::Duration) -> (r: u128) {
    d.as_nanos()
}

/// A reading of `nanos` elapsed nanoseconds: never 0 (a zero reading is
/// reported as 1), then truncated to 64 bits.
pub open spec fn spec_reading(nanos: u128) -> u64 {
    (if nanos < 1 {
        1
    } else {
        nanos
    }) as u64
}

pub fn elapsed_reading(nanos: u128) -> (r: u64)
    ensures
        r == spec_reading(nanos),
{
    let n = if nanos < 1 {
        1
    } else {
        nanos
    };
    #[verifier::truncate]
    let r = n as u64;
    r
}

/// Portable fallback clock: nanoseconds since it was created.
pub struct StdClock {
    epoch: std::time::Instant,
}

impl StdClock {
    pub fn new() -> (r: Self) {
        StdClock { epoch: instant_now() }
    }
}

impl Clock for StdClock {
    fn now_ns(&self) -> u64 {
        let elapsed = instant_elapsed(&self.epoch);
        elapsed_reading(duration_nanos(&elapsed))
    }

    fn resolution_ns(&self) -> (r: u64)
        ensures
            r == 1,
    {
        1
    }
}

impl Default for StdClock {
    fn default() -> (r: Self) {
        StdClock::new()
    }
}

} // verus!
