//! The bookkeeping side of the io_uring read path: ring layout sizes, the
//! admission checks for a read, and the ledger that owns each read's buffer
//! from submission until its completion is taken.
use vstd::prelude::*;

verus! {

pub const OP_READ: u8 = 22;

/// `IORING_FEAT_SINGLE_MMAP`: the SQ and CQ rings share one mapping.
pub const FEAT_SINGLE_MMAP: u32 = 1;

/// `ENOMEM`, reported when a ring mapping or the ledger cannot be set up.
pub const ERRNO_NO_MEMORY: i32 = 12;

/// Bytes of one submission queue entry.
pub const SUBMISSION_ENTRY_SIZE: u64 = 64;

/// Bytes of one completion queue entry.
pub const COMPLETION_ENTRY_SIZE: u64 = 16;

#[derive(Clone, Copy, Debug, Default, PartialEq, Eq)]
pub struct SubmissionEntry {
    pub opcode: u8,
    pub flags: u8,
    pub ioprio: u16,
    pub fd: i32,
    pub off: u64,
    pub addr: u64,
    pub len: u32,
    pub rw_flags: u32,
    pub user_data: u64,
    pub extra: [u64; 3],
}

#[derive(Clone, Copy, Debug, Default, PartialEq, Eq, Structural)]
pub struct CompletionEntry {
    pub user_data: u64,
    pub result: i32,
    pub flags: u32,
}

/// Token of a submitted read; the ring keeps the buffer until the read's
/// completion is taken.
pub struct ReadRequest {
    user_data: u64,
}

impl ReadRequest {
    pub closed spec fn spec_user_data(&self) -> u64 {
        self.user_data
    }

    pub fn user_data(&self) -> (r: u64)
        ensures
            r == self.spec_user_data(),
    {
        self.user_data
    }
}

/// io_uring failures; the system-call failures carry the OS error code.
#[derive(Debug, Clone, Copy, PartialEq, Eq, Structural)]
pub enum IoUringError {
    InvalidEntries,
    InvalidRead,
    ReadTooLarge,
    Setup(i32),
    Mmap(i32),
    QueueFull,
    CompletionUnknown,
    Enter(i32),
}

/// Sizes of the three ring mappings.
#[derive(Clone, Copy, Debug, PartialEq, Eq, Structural)]
pub struct RingLayout {
    pub sq_ring_len: u64,
    pub cq_ring_len: u64,
    pub sqes_len: u64,
    /// The SQ and CQ rings share one mapping of the larger length.
    pub single_mmap: bool,
}

/// The mapping sizes for the parameters `io_uring_setup` reported: the SQ
/// ring ends with its index array (one `u32` per entry), the CQ ring with
/// its entries (which start at `cqes_offset`), and the SQE array holds one
/// entry per SQ slot. With a single mapping both rings use the larger size.
pub fn ring_layout(
    sq_array_offset: u32,
    sq_entries: u32,
    cqes_offset: u32,
    cq_entries: u32,
    features: u32,
) -> (r: RingLayout)
    ensures
        r.single_mmap == (features & FEAT_SINGLE_MMAP != 0),
        !r.single_mmap ==> r.sq_ring_len == sq_array_offset + sq_entries * 4 && r.cq_ring_len
            == cqes_offset + cq_entries * COMPLETION_ENTRY_SIZE,
        r.single_mmap ==> {
            let sq = sq_array_offset + sq_entries * 4;
            let cq = cqes_offset + cq_entries * COMPLETION_ENTRY_SIZE;
            r.sq_ring_len == (if sq >= cq {
                sq
            } else {
                cq
            }) && r.cq_ring_len == 0
        },
        r.sqes_len == sq_entries * SUBMISSION_ENTRY_SIZE,
{
    let sq = sq_array_offset as u64 + sq_entries as u64 * 4;
    let cq = cqes_offset as u64 + cq_entries as u64 * COMPLETION_ENTRY_SIZE;
    let single = features & FEAT_SINGLE_MMAP != 0;
    RingLayout {
        sq_ring_len: if single {
            if sq >= cq {
                sq
            } else {
                cq
            }
        } else {
            sq
        },
        cq_ring_len: if single {
            0
        } else {
            cq
        },
        sqes_len: sq_entries as u64 * SUBMISSION_ENTRY_SIZE,
        single_mmap: single,
    }
}

/// A ring needs at least one entry.
pub fn check_entries(entries: u32) -> (r: Result<(), IoUringError>)
    ensures
        r is Err <==> entries == 0,
        r matches Err(e) ==> e == IoUringError::InvalidEntries,
{
    if entries == 0 {
        Err(IoUringError::InvalidEntries)
    } else {
        Ok(())
    }
}

/// The submission slot of the entry at ring position `tail`.
pub fn sq_slot(tail: u32, ring_mask: u32) -> (r: u32)
    ensures
        r == tail & ring_mask,
        r <= ring_mask,
{
    assert(tail & ring_mask <= ring_mask) by (bit_vector);
    tail & ring_mask
}

/// A read's buffer, held until its completion is taken.
pub struct PendingRead {
    pub user_data: u64,
    pub buffer: Vec<u8>,
}

/// The first position in `pending` whose read has `user_data`.
pub open spec fn first_pending(pending: Seq<PendingRead>, user_data: u64) -> Option<int> {
    if exists|k: int| 0 <= k < pending.len() && pending[k].user_data == user_data {
        Some(
            choose|k: int|
                0 <= k < pending.len() && pending[k].user_data == user_data && forall|m: int|
                    0 <= m < k ==> pending[m].user_data != user_data,
        )
    } else {
        None
    }
}

/// The first position in `completed` whose entry has `user_data`.
pub open spec fn first_completed(completed: Seq<(CompletionEntry, Vec<u8>)>, user_data: u64) -> Option<int> {
    if exists|k: int| 0 <= k < completed.len() && completed[k].0.user_data == user_data {
        Some(
            choose|k: int|
                0 <= k < completed.len() && completed[k].0.user_data == user_data && forall|m: int|
                    0 <= m < k ==> completed[m].0.user_data != user_data,
        )
    } else {
        None
    }
}

/// `Vec::swap_remove`: the last element takes the place of the removed one.
pub open spec fn swap_removed<A>(s: Seq<A>, i: int) -> Seq<A> {
    s.update(i, s.last()).drop_last()
}

/// The bytes a completed read delivered: its first `result` bytes, none
/// when the read failed.
pub open spec fn delivered(buffer: Seq<u8>, result: i32) -> Seq<u8> {
    if result < 0 {
        Seq::empty()
    } else if result as int <= buffer.len() {
        buffer.subrange(0, result as int)
    } else {
        buffer
    }
}

/// The buffers of reads in flight and of reads completed but not yet taken.
pub struct ReadLedger {
    pending: Vec<PendingRead>,
    completed: Vec<(CompletionEntry, Vec<u8>)>,
    cq_entries: u32,
}

impl ReadLedger {
    pub closed spec fn spec_pending(&self) -> Seq<PendingRead> {
        self.pending@
    }

    pub closed spec fn spec_completed(&self) -> Seq<(CompletionEntry, Vec<u8>)> {
        self.completed@
    }

    pub closed spec fn spec_cq_entries(&self) -> u32 {
        self.cq_entries
    }

    /// An empty ledger for a ring with `cq_entries` completion slots.
    pub fn new(cq_entries: u32) -> (r: Self)
        ensures
            r.spec_pending().len() == 0,
            r.spec_completed().len() == 0,
            r.spec_cq_entries() == cq_entries,
    {
        ReadLedger { pending: Vec::new(), completed: Vec::new(), cq_entries }
    }

    /// Checks a read of `len` bytes on `fd` before any ring access: the fd
    /// must be valid and the buffer non-empty, its length must fit the
    /// 32-bit length field, the reads held must leave a completion slot,
    /// and the submission ring (`head`..`tail`) must have room. Gives the
    /// length to encode.
    pub fn check_read(&self, fd: i32, len: usize, sq_head: u32, sq_tail: u32, sq_entries: u32) -> (r:
        Result<u32, IoUringError>)
        ensures
            fd < 0 || len == 0 ==> r == Err::<u32, IoUringError>(IoUringError::InvalidRead),
            !(fd < 0 || len == 0) && len > u32::MAX ==> r == Err::<u32, IoUringError>(
                IoUringError::ReadTooLarge,
            ),
            !(fd < 0 || len == 0) && len <= u32::MAX && (self.spec_pending().len()
                + self.spec_completed().len() >= self.spec_cq_entries() || (sq_tail - sq_head)
                % 0x1_0000_0000 >= sq_entries) ==> r == Err::<u32, IoUringError>(
                IoUringError::QueueFull,
            ),
            !(fd < 0 || len == 0) && len <= u32::MAX && self.spec_pending().len()
                + self.spec_completed().len() < self.spec_cq_entries() && (sq_tail - sq_head)
                % 0x1_0000_0000 < sq_entries ==> r == Ok::<u32, IoUringError>(len as u32),
    {
        if fd < 0 || len == 0 {
            return Err(IoUringError::InvalidRead);
        }
        if len > 0xFFFF_FFFFusize {
            return Err(IoUringError::ReadTooLarge);
        }
        let held = self.pending.len() as u128 + self.completed.len() as u128;
        if held >= self.cq_entries as u128 {
            return Err(IoUringError::QueueFull);
        }
        let used = sq_tail.wrapping_sub(sq_head);
        assert(used == (sq_tail - sq_head) % 0x1_0000_0000) by {
            assert(sq_tail.wrapping_sub(sq_head) == (sq_tail - sq_head) % 0x1_0000_0000) by (bit_vector);
        }
        if used >= sq_entries {
            return Err(IoUringError::QueueFull);
        }
        Ok(len as u32)
    }

    /// Takes ownership of a submitted read's buffer.
    pub fn record_read(&mut self, user_data: u64, buffer: Vec<u8>) -> (r: ReadRequest)
        ensures
            r.spec_user_data() == user_data,
            final(self).spec_pending() == old(self).spec_pending().push(
                PendingRead { user_data, buffer },
            ),
            final(self).spec_completed() == old(self).spec_completed(),
            final(self).spec_cq_entries() == old(self).spec_cq_entries(),
    {
        self.pending.push(PendingRead { user_data, buffer });
        ReadRequest { user_data }
    }

    /// Files a completion: the first pending read with its `user_data`
    /// leaves the pending list (the last pending read takes its place) and
    /// its delivered bytes join the completed list. A completion for no
    /// pending read is ignored. Returns whether one matched.
    pub fn complete(&mut self, entry: CompletionEntry) -> (r: bool)
        ensures
            final(self).spec_cq_entries() == old(self).spec_cq_entries(),
            r == first_pending(old(self).spec_pending(), entry.user_data) is Some,
            first_pending(old(self).spec_pending(), entry.user_data) is None ==> final(self).spec_pending() == old(self).spec_pending() && final(self).spec_completed() == old(self).spec_completed(),
            first_pending(old(self).spec_pending(), entry.user_data) matches Some(i) ==> {
                &&& final(self).spec_pending() == swap_removed(old(self).spec_pending(), i)
                &&& final(self).spec_completed().len() == old(self).spec_completed().len() + 1
                &&& final(self).spec_completed().drop_last() == old(self).spec_completed()
                &&& final(self).spec_completed().last().0 == entry
                &&& final(self).spec_completed().last().1@ == delivered(
                    old(self).spec_pending()[i].buffer@,
                    entry.result,
                )
            },
    {
        let mut k: usize = 0;
        while k < self.pending.len()
            invariant
                k <= self.pending@.len(),
                self.pending@ == old(self).pending@,
                self.completed@ == old(self).completed@,
                self.cq_entries == old(self).cq_entries,
                forall|m: int| 0 <= m < k ==> self.pending@[m].user_data != entry.user_data,
            decreases self.pending.len() - k,
        {
            if self.pending[k].user_data == entry.user_data {
                proof {
                    let p = old(self).pending@;
                    let w = choose|j: int|
                        0 <= j < p.len() && p[j].user_data == entry.user_data && forall|m: int|
                            0 <= m < j ==> p[m].user_data != entry.user_data;
                    assert(0 <= k < p.len() && p[k as int].user_data == entry.user_data);
                    assert(w == k) by {
                        if w < k {
                            assert(p[w].user_data != entry.user_data);
                        }
                        if w > k {
                            assert(p[k as int].user_data != entry.user_data);
                        }
                    }
                }
                let request = self.pending.swap_remove(k);
                let mut buffer = request.buffer;
                if entry.result >= 0 {
                    buffer.truncate(entry.result as usize);
                } else {
                    buffer.clear();
                }
                proof {
                    assert(buffer@ =~= delivered(old(self).pending@[k as int].buffer@, entry.result));
                }
                self.completed.push((entry, buffer));
                return true;
            }
            k = k + 1;
        }
        false
    }

    /// Hands out the bytes of the first completed read with `user_data`
    /// (the last completed read takes its place in the list).
    pub fn take_completed(&mut self, user_data: u64) -> (r: Result<Vec<u8>, IoUringError>)
        ensures
            final(self).spec_pending() == old(self).spec_pending(),
            final(self).spec_cq_entries() == old(self).spec_cq_entries(),
            first_completed(old(self).spec_completed(), user_data) is None ==> r == Err::<
                Vec<u8>,
                IoUringError,
            >(IoUringError::CompletionUnknown) && final(self).spec_completed() == old(self).spec_completed(),
            first_completed(old(self).spec_completed(), user_data) matches Some(i) ==> r == Ok::<
                Vec<u8>,
                IoUringError,
            >(old(self).spec_completed()[i].1) && final(self).spec_completed() == swap_removed(
                old(self).spec_completed(),
                i,
            ),
    {
        let mut k: usize = 0;
        while k < self.completed.len()
            invariant
                k <= self.completed@.len(),
                self.pending@ == old(self).pending@,
                self.completed@ == old(self).completed@,
                self.cq_entries == old(self).cq_entries,
                forall|m: int| 0 <= m < k ==> self.completed@[m].0.user_data != user_data,
            decreases self.completed.len() - k,
        {
            if self.completed[k].0.user_data == user_data {
                proof {
                    let c = old(self).completed@;
                    let w = choose|j: int|
                        0 <= j < c.len() && c[j].0.user_data == user_data && forall|m: int|
                            0 <= m < j ==> c[m].0.user_data != user_data;
                    assert(0 <= k < c.len() && c[k as int].0.user_data == user_data);
                    assert(w == k) by {
                        if w < k {
                            assert(c[w].0.user_data != user_data);
                        }
                        if w > k {
                            assert(c[k as int].0.user_data != user_data);
                        }
                    }
                }
                let (_, bytes) = self.completed.swap_remove(k);
                return Ok(bytes);
            }
            k = k + 1;
        }
        Err(IoUringError::CompletionUnknown)
    }

    pub fn pending_len(&self) -> (r: usize)
        ensures
            r == self.spec_pending().len(),
    {
        self.pending.len()
    }

    pub fn completed_len(&self) -> (r: usize)
        ensures
            r == self.spec_completed().len(),
    {
        self.completed.len()
    }
}

} // verus!
