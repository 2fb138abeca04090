//! Retained UI bookkeeping that does not depend on floating point: ids,
//! errors and diagnostics, component vocabulary, the retained tree and its
//! command queue, per-frame message handling, focus and capture, resources,
//! the glyph atlas, batching, the upload stream, and dirty upload ranges.
use vstd::prelude::*;

pub mod budget;
pub mod commands;
pub mod components;
pub mod id;
pub mod input;
pub mod layout;
pub mod paint;
pub mod placeholder;
pub mod resources;
pub mod text;
pub mod tick;
pub mod tree;
pub mod wire;

verus! {

/// Frame-ready notification published after a UI frame is built.
#[derive(Clone, Copy, Debug, Default, PartialEq, Eq, Structural)]
pub struct UiFrameReady {
    pub nodes: usize,
    pub paint_items: usize,
    pub batches: usize,
    pub glyphs: usize,
    pub uploaded_bytes: usize,
}

} // verus!
