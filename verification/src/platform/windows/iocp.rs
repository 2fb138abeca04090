//! Overlapped-read bookkeeping for the IOCP file path: completion records,
//! the read request's offsets and length, and how a read's issue and a
//! queue poll are interpreted.
use vstd::prelude::*;

verus! {

/// `ERROR_IO_PENDING`: the read was queued and completes later.
pub const ERROR_IO_PENDING: u32 = 997;

/// `ERROR_INVALID_HANDLE`, reported for a completion with no request.
pub const ERROR_INVALID_HANDLE: u32 = 6;

/// `ERROR_INVALID_PARAMETER`.
pub const ERROR_INVALID_PARAMETER: u32 = 87;

#[derive(Clone, Copy, Debug, PartialEq, Eq, Structural)]
pub struct Completion {
    pub bytes: u32,
    pub key: usize,
    pub overlapped: usize,
}

#[derive(Debug, Clone, Copy, PartialEq, Eq, Structural)]
pub enum IocpError {
    CreateFailed,
    PostFailed,
    OpenFailed(u32),
    ReadFailed(u32),
    CompletionFailed(u32),
}

/// The low and high halves of a 64-bit file offset, as `OVERLAPPED` holds
/// them.
pub fn split_offset(offset: u64) -> (r: (u32, u32))
    ensures
        r.0 == offset % 0x1_0000_0000,
        r.1 == offset / 0x1_0000_0000,
        r.1 as u64 * 0x1_0000_0000 + r.0 as u64 == offset,
{
    let low = (offset & 0xFFFF_FFFF) as u32;
    let high = (offset >> 32) as u32;
    assert(offset & 0xFFFF_FFFF == offset % 0x1_0000_0000) by (bit_vector);
    assert(offset >> 32 == offset / 0x1_0000_0000) by (bit_vector);
    (low, high)
}

/// A read length must fit the 32-bit length field.
pub fn read_length(length: usize) -> (r: Result<u32, IocpError>)
    ensures
        length <= u32::MAX ==> r == Ok::<u32, IocpError>(length as u32),
        length > u32::MAX ==> r == Err::<u32, IocpError>(IocpError::ReadFailed(ERROR_INVALID_PARAMETER)),
{
    if length > 0xFFFF_FFFFusize {
        Err(IocpError::ReadFailed(ERROR_INVALID_PARAMETER))
    } else {
        Ok(length as u32)
    }
}

/// A `ReadFile` that returned zero failed unless the error says the read
/// is pending.
pub fn read_issued(ok: i32, last_error: u32) -> (r: Result<(), IocpError>)
    ensures
        ok != 0 || last_error == ERROR_IO_PENDING ==> r is Ok,
        ok == 0 && last_error != ERROR_IO_PENDING ==> r == Err::<(), IocpError>(IocpError::ReadFailed(last_error)),
{
    if ok == 0 && last_error != ERROR_IO_PENDING {
        Err(IocpError::ReadFailed(last_error))
    } else {
        Ok(())
    }
}

/// A dequeued completion counts only when the call succeeded and carried
/// an `OVERLAPPED`.
pub fn polled_completion(ok: i32, bytes: u32, key: usize, overlapped: usize) -> (r: Option<Completion>)
    ensures
        r == if ok != 0 && overlapped != 0 {
            Some(Completion { bytes, key, overlapped })
        } else {
            None::<Completion>
        },
{
    if ok != 0 && overlapped != 0 {
        Some(Completion { bytes, key, overlapped })
    } else {
        None
    }
}

} // verus!
