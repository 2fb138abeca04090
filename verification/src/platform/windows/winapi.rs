//! The error of the synchronous Win32 file calls.
use vstd::prelude::*;

verus! {

#[derive(Debug, Clone, PartialEq, Eq)]
pub struct WinApiError {
    pub op: &'static str,
    pub code: u32,
    pub path: Option<String>,
}

/// A file size from `GetFileSizeEx` is usable when the call succeeded and
/// the size is not negative.
pub fn file_size(ok: i32, size: i64) -> (r: Option<u64>)
    ensures
        r == if ok != 0 && size >= 0 {
            Some(size as u64)
        } else {
            None::<u64>
        },
{
    if ok != 0 && size >= 0 {
        Some(size as u64)
    } else {
        None
    }
}

} // verus!
