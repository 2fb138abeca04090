//! Windows CPU topology as reported by the processor-count and NUMA
//! queries.
use vstd::prelude::*;

verus! {

#[derive(Clone, Copy, Debug, PartialEq, Eq, Structural)]
pub struct CpuTopology {
    pub logical_processors: u32,
    pub highest_numa_node: u8,
}

impl CpuTopology {
    /// The topology from the query results: the highest NUMA node counts
    /// only when its query succeeded.
    pub fn from_queries(logical_processors: u32, numa_ok: bool, highest_node: u8) -> (r: Self)
        ensures
            r.logical_processors == logical_processors,
            r.highest_numa_node == if numa_ok {
                highest_node
            } else {
                0
            },
    {
        CpuTopology {
            logical_processors,
            highest_numa_node: if numa_ok {
                highest_node
            } else {
                0
            },
        }
    }

    /// An empty affinity mask would leave the thread nowhere to run and is
    /// never applied.
    pub fn mask_is_applicable(mask: usize) -> (r: bool)
        ensures
            r == (mask != 0),
    {
        mask != 0
    }
}

} // verus!
