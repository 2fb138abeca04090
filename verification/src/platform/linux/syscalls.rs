//! The error vocabulary of the raw POSIX file calls: which `errno` values
//! are worth retrying.
use vstd::prelude::*;

verus! {

pub const O_RDONLY: i32 = 0;

pub const O_CLOEXEC: i32 = 0o2000000;

pub const PROT_READ: i32 = 0x1;

pub const PROT_WRITE: i32 = 0x2;

pub const MAP_SHARED: i32 = 0x01;

pub const MAP_PRIVATE: i32 = 0x02;

pub const MAP_FIXED: i32 = 0x10;

pub const MAP_ANONYMOUS: i32 = 0x20;

pub const MAP_POPULATE: i32 = 0x008000;

pub const MAP_HUGETLB: i32 = 0x40000;

pub const SEEK_CUR: i32 = 1;

pub const SEEK_END: i32 = 2;

pub const SEEK_SET: i32 = 0;

/// `EINTR`.
pub const ERRNO_INTERRUPTED: i32 = 4;

/// `EAGAIN` / `EWOULDBLOCK`.
pub const ERRNO_WOULD_BLOCK: i32 = 11;

#[derive(Debug, Clone, Copy, PartialEq, Eq, Structural)]
pub enum SysErrno {
    /// Retry (signal interrupted the call).
    Interrupted,
    /// Resource temporarily unavailable, retry later.
    WouldBlock,
    Other(i32),
}

impl SysErrno {
    /// Classifies a raw `errno` value.
    pub fn from_raw(raw: i32) -> (r: Self)
        ensures
            raw == ERRNO_INTERRUPTED ==> r == SysErrno::Interrupted,
            raw == ERRNO_WOULD_BLOCK ==> r == SysErrno::WouldBlock,
            raw != ERRNO_INTERRUPTED && raw != ERRNO_WOULD_BLOCK ==> r == SysErrno::Other(raw),
    {
        if raw == ERRNO_INTERRUPTED {
            SysErrno::Interrupted
        } else if raw == ERRNO_WOULD_BLOCK {
            SysErrno::WouldBlock
        } else {
            SysErrno::Other(raw)
        }
    }

    /// The call may succeed if repeated.
    pub fn is_transient(self) -> (r: bool)
        ensures
            r == (self is Interrupted || self is WouldBlock),
    {
        match self {
            SysErrno::Other(_) => false,
            _ => true,
        }
    }
}

/// A failed system call: what went wrong, which call, and on which path.
#[derive(Debug)]
pub struct SysError {
    pub errno: SysErrno,
    pub op: &'static str,
    pub path: Option<String>,
}

impl SysError {
    /// The error of call `op` that failed with `errno` value `raw`.
    pub fn from_errno(raw: i32, op: &'static str, path: Option<String>) -> (r: Self)
        ensures
            r.errno == SysErrno::from_raw_spec(raw),
            r.op == op,
            r.path == path,
    {
        SysError { errno: SysErrno::from_raw(raw), op, path }
    }
}

impl SysErrno {
    pub open spec fn from_raw_spec(raw: i32) -> SysErrno {
        if raw == ERRNO_INTERRUPTED {
            SysErrno::Interrupted
        } else if raw == ERRNO_WOULD_BLOCK {
            SysErrno::WouldBlock
        } else {
            SysErrno::Other(raw)
        }
    }
}

} // verus!
