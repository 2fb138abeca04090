//! Linux-specific policy: clock conversion, errno classification, the
//! io_uring read ledger, CPU-set masks, and X11 event decoding.
pub mod io_uring;
pub mod syscalls;
pub mod threading;
pub mod time;
pub mod x11;
