//! Verified core of a microkernel-style game-engine foundation: queue and
//! device selection policy, swapchain/present policy, renderer lifecycle
//! state machines, deterministic input/window/audio/physics/scripting
//! subsystems, and bounded UI bookkeeping.
pub mod permutation;
pub mod platform;
pub mod subsystems;
