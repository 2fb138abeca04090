//! Windows-specific policy: performance-counter conversion, thread
//! affinity and priority choice, overlapped-read bookkeeping, Win32
//! message decoding, and the geometry of the fallback painter's board.
pub mod board;
pub mod cpu;
pub mod iocp;
pub mod threading;
pub mod time;
pub mod winapi;
pub mod window;
