//! Fallible growth of the event queues that the window and input backends
//! fill between steps.
use std::collections::TryReserveError;
use std::collections::VecDeque;

use vstd::prelude::*;

verus! {

/// `VecDeque::try_reserve`: reserves room for `additional` more items; the
/// queue contents are unchanged whether or not the reservation succeeds.
#[verifier::external_body]
pub(crate) fn deque_try_reserve<T>(queue: &mut VecDeque<T>, additional: usize) -> (r: Result<
    (),
    TryReserveError,
>)
    ensures
        final(queue)@ == old(queue)@,
{
    queue.try_reserve(additional)
}

} // verus!
