//! Engine subsystems: renderer lifecycle and frame planning, input, window,
//! audio, physics, scripting, and UI bookkeeping.
pub mod audio;
pub mod hello;
pub mod input;
pub mod messages;
pub mod physics;
pub mod queue;
pub mod renderer;
pub mod scripting;
pub mod tock;
pub mod window;
pub mod ui;
