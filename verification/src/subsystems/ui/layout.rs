//! Layout pass statistics.
use vstd::prelude::*;

verus! {

#[derive(Clone, Copy, Debug, Default, PartialEq, Eq, Structural)]
pub struct LayoutStats {
    pub visited: usize,
    pub dirty: usize,
    pub iterations: usize,
}

} // verus!
