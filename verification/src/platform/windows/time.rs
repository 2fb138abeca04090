//! Monotonic time from `QueryPerformanceCounter`: converting counter ticks
//! to nanoseconds.
use vstd::prelude::*;

verus! {

/// A performance-counter query failed with this Win32 error.
#[derive(Clone, Copy, Debug, PartialEq, Eq, Structural)]
pub struct TimeError(pub u32);

/// `counter` ticks of a `frequency`-Hz counter in nanoseconds, computed in
/// 128 bits and truncated to 64.
pub open spec fn spec_counter_ns(counter: i64, frequency: i64) -> u64 {
    (((counter as int) * 1_000_000_000) / (frequency as int)) as u64
}

/// Nanoseconds since the counter's epoch for a successful query; the
/// caller rejects a zero frequency and a negative counter first.
pub fn counter_to_ns(counter: i64, frequency: i64) -> (r: u64)
    requires
        counter >= 0,
        frequency > 0,
    ensures
        r == spec_counter_ns(counter, frequency),
{
    let ticks = counter as u128;
    assert(ticks * 1_000_000_000 <= u128::MAX) by (nonlinear_arith)
        requires
            ticks <= i64::MAX,
    ;
    let scaled = ticks * 1_000_000_000;
    let quotient = scaled / (frequency as u128);
    #[verifier::truncate]
    let r = quotient as u64;
    r
}

/// Whether a counter or frequency query succeeded: the call returned
/// nonzero and the value is usable (a frequency must be positive, a counter
/// nonnegative).
pub fn query_succeeded(ok: i32, value: i64, is_frequency: bool) -> (r: bool)
    ensures
        r == (ok != 0 && if is_frequency {
            value > 0
        } else {
            value >= 0
        }),
{
    ok != 0 && if is_frequency {
        value > 0
    } else {
        value >= 0
    }
}

} // verus!
