//! Sizing and admission rules of the worker thread pool.
use vstd::prelude::*;

verus! {

/// Queued jobs allowed per worker.
pub const JOBS_PER_WORKER: usize = 1024;

#[derive(Debug, Clone, Copy, PartialEq, Eq, Structural)]
pub enum ThreadPoolError {
    ThreadSpawn,
    QueueFull,
    Stopped,
    AllocationFailed,
}

/// `(workers, max_jobs)` for a requested worker count: at least one worker,
/// and room for 1024 queued jobs per worker (saturating, never fewer jobs
/// than workers).
pub fn pool_limits(requested: usize) -> (r: (usize, usize))
    ensures
        r.0 == if requested == 0 {
            1
        } else {
            requested
        },
        r.1 == if r.0 * JOBS_PER_WORKER > usize::MAX {
            usize::MAX
        } else {
            (r.0 * JOBS_PER_WORKER) as usize
        },
        r.1 >= r.0,
{
    let workers = if requested == 0 {
        1
    } else {
        requested
    };
    let max_jobs = match workers.checked_mul(JOBS_PER_WORKER) {
        Some(n) => n,
        None => usize::MAX,
    };
    let max_jobs = if max_jobs < workers {
        workers
    } else {
        max_jobs
    };
    (workers, max_jobs)
}

/// Whether a job may be queued: refused once the pool is stopping, and
/// when the queue is at its bound.
pub fn admit_job(stopping: bool, queued: usize, max_jobs: usize) -> (r: Result<(), ThreadPoolError>)
    ensures
        stopping ==> r == Err::<(), ThreadPoolError>(ThreadPoolError::Stopped),
        !stopping && queued >= max_jobs ==> r == Err::<(), ThreadPoolError>(
            ThreadPoolError::QueueFull,
        ),
        !stopping && queued < max_jobs ==> r is Ok,
{
    if stopping {
        return Err(ThreadPoolError::Stopped);
    }
    if queued >= max_jobs {
        return Err(ThreadPoolError::QueueFull);
    }
    Ok(())
}

/// The pool is idle when nothing is queued and nothing is running.
pub fn is_idle(queued: usize, running: usize) -> (r: bool)
    ensures
        r == (queued == 0 && running == 0),
{
    queued == 0 && running == 0
}

} // verus!
