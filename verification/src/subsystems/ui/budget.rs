//! UI errors and per-frame diagnostics.
use vstd::prelude::*;

verus! {

#[derive(Clone, Copy, Debug, PartialEq, Eq, Structural)]
pub enum UiError {
    CapacityExceeded,
    AllocationFailed,
    InvalidNode,
    InvalidParent,
    Cycle,
    DepthExceeded,
    InvalidValue,
    LayoutDidNotConverge,
    OutputTooSmall,
    IndexOverflow,
    ResourceUnavailable,
}

#[derive(Clone, Copy, Debug, Default, PartialEq, Eq, Structural)]
pub struct UiDiagnostics {
    pub dirty_nodes: usize,
    pub layout_passes: usize,
    pub paint_items: usize,
    pub batches: usize,
    pub glyphs: usize,
    pub uploaded_bytes: usize,
    pub clipped_items: usize,
    pub overflow_fallbacks: usize,
}

impl UiDiagnostics {
    /// Counts one more fallback (saturating); nothing else changes.
    pub fn record_error(&mut self)
        ensures
            *final(self) == (UiDiagnostics {
                overflow_fallbacks: if old(self).overflow_fallbacks == usize::MAX {
                    usize::MAX
                } else {
                    (old(self).overflow_fallbacks + 1) as usize
                },
                ..*old(self)
            }),
    {
        self.overflow_fallbacks = self.overflow_fallbacks.saturating_add(1);
    }
}

} // verus!
