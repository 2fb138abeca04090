//! Windows thread placement: the affinity mask for one logical processor,
//! and the priority of latency-sensitive scheduler threads.
use vstd::prelude::*;

verus! {

pub const THREAD_PRIORITY_NORMAL: i32 = 0;

pub const THREAD_PRIORITY_ABOVE_NORMAL: i32 = 1;

/// `ERROR_INVALID_PARAMETER`.
pub const ERROR_INVALID_PARAMETER: u32 = 87;

#[derive(Debug, Clone, Copy, PartialEq, Eq)]
pub struct ThreadingError {
    pub op: &'static str,
    pub code: u32,
}

/// The single-processor affinity mask for `cpu`; a processor beyond the
/// mask's width is refused as an invalid parameter.
pub fn affinity_mask(cpu: u32) -> (r: Result<usize, ThreadingError>)
    ensures
        cpu >= usize::BITS ==> r == Err::<usize, ThreadingError>(
            ThreadingError { op: "SetThreadAffinityMask", code: ERROR_INVALID_PARAMETER },
        ),
        cpu < usize::BITS ==> r == Ok::<usize, ThreadingError>(1usize << cpu),
{
    if cpu >= usize::BITS {
        return Err(ThreadingError { op: "SetThreadAffinityMask", code: ERROR_INVALID_PARAMETER });
    }
    Ok(1usize << cpu)
}

/// Above-normal priority for opted-in latency-sensitive threads, normal
/// otherwise; never a real-time class.
pub fn latency_priority(enabled: bool) -> (r: i32)
    ensures
        r == if enabled {
            THREAD_PRIORITY_ABOVE_NORMAL
        } else {
            THREAD_PRIORITY_NORMAL
        },
{
    if enabled {
        THREAD_PRIORITY_ABOVE_NORMAL
    } else {
        THREAD_PRIORITY_NORMAL
    }
}

} // verus!
