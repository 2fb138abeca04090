//! Paint batching and GPU upload ranges.
//!
//! Batching reads of a paint item only its clip, its z-index and what kind
//! of paint it is (with the texture or font it samples); colours, radii and
//! glyph geometry travel beside it untouched. Upload ranges are computed on
//! the encoded byte stream of a frame.
use vstd::prelude::*;

use crate::platform::present::{apply_ranges, range_fits, resized};
use crate::subsystems::ui::budget::UiError;
use crate::subsystems::ui::id::{FontId, TextureId};

verus! {

/// Bytes of one encoded paint item in the upload stream.
pub const UI_ITEM_STRIDE_BYTES: usize = 80;

/// Bytes of one encoded glyph in the upload stream.
pub const UI_GLYPH_STRIDE_BYTES: usize = 32;

/// Upload ranges are aligned to chunks of this many bytes.
pub const UI_DIRTY_CHUNK_BYTES: usize = 32;

#[derive(Clone, Copy, Debug, PartialEq, Eq, Hash, Structural)]
pub struct ClipId(pub u32);

/// What batching reads of a paint kind: the variant, and the texture or font
/// that an image or a glyph run samples.
#[derive(Clone, Copy, Debug, PartialEq, Eq, Structural)]
pub enum PaintClass {
    Rect,
    Gradient,
    RoundedRect,
    Border,
    Image { texture: TextureId },
    GlyphRun { font: FontId },
    Custom { token: u32 },
}

#[derive(Clone, Copy, Debug, PartialEq, Eq, Hash, Structural)]
pub struct UiBatchKey {
    pub pass: u8,
    pub clip: ClipId,
    pub texture: Option<TextureId>,
    pub font: Option<FontId>,
    pub z_index: i32,
    pub kind: u8,
}

#[derive(Clone, Copy, Debug, PartialEq, Eq, Structural)]
pub struct UiBatch {
    pub key: UiBatchKey,
    pub first: u32,
    pub count: u32,
}

#[derive(Clone, Copy, Debug, Default, PartialEq, Eq, Structural)]
pub struct UiUploadPlan {
    pub item_count: u32,
    pub batch_count: u32,
    pub glyph_count: u32,
    pub upload_bytes: usize,
}

/// A byte range of the UI upload stream that changed since the last frame.
#[derive(Clone, Debug, PartialEq, Eq)]
pub struct UiUploadRange {
    pub offset: usize,
    pub bytes: Vec<u8>,
}

/// The record kind written for a paint class in the render snapshot.
pub open spec fn spec_kind_code(class: PaintClass) -> u8 {
    match class {
        PaintClass::Rect => 0,
        PaintClass::Border => 1,
        PaintClass::Image { .. } => 2,
        PaintClass::GlyphRun { .. } => 3,
        PaintClass::Custom { .. } => 4,
        PaintClass::Gradient => 5,
        PaintClass::RoundedRect => 6,
    }
}

/// The pass a paint class is drawn in: shapes and images, then text, then
/// custom content.
pub open spec fn spec_pass(class: PaintClass) -> u8 {
    match class {
        PaintClass::GlyphRun { .. } => 1,
        PaintClass::Custom { .. } => 2,
        _ => 0,
    }
}

pub open spec fn spec_batch_key(class: PaintClass, clip: ClipId, z_index: i32) -> UiBatchKey {
    UiBatchKey {
        pass: spec_pass(class),
        clip,
        texture: match class {
            PaintClass::Image { texture } => Some(texture),
            _ => None,
        },
        font: match class {
            PaintClass::GlyphRun { font } => Some(font),
            _ => None,
        },
        z_index,
        kind: spec_kind_code(class),
    }
}

/// The record kind written for `class` in the render snapshot.
pub fn kind_code(class: PaintClass) -> (r: u8)
    ensures
        r == spec_kind_code(class),
{
    match class {
        PaintClass::Rect => 0,
        PaintClass::Border => 1,
        PaintClass::Image { .. } => 2,
        PaintClass::GlyphRun { .. } => 3,
        PaintClass::Custom { .. } => 4,
        PaintClass::Gradient => 5,
        PaintClass::RoundedRect => 6,
    }
}

/// The batch key of a paint item of `class` under `clip` at `z_index`.
pub fn batch_key(class: PaintClass, clip: ClipId, z_index: i32) -> (r: UiBatchKey)
    ensures
        r == spec_batch_key(class, clip, z_index),
{
    let pass: u8 = match class {
        PaintClass::GlyphRun { .. } => 1,
        PaintClass::Custom { .. } => 2,
        _ => 0,
    };
    let texture = match class {
        PaintClass::Image { texture } => Some(texture),
        _ => None,
    };
    let font = match class {
        PaintClass::GlyphRun { font } => Some(font),
        _ => None,
    };
    UiBatchKey { pass, clip, texture, font, z_index, kind: kind_code(class) }
}

/// Bytes that `items` paint items and `glyphs` glyphs occupy in the upload
/// stream; `IndexOverflow` when that does not fit in `usize`.
pub fn upload_bytes(items: usize, glyphs: usize) -> (r: Result<usize, UiError>)
    ensures
        items * UI_ITEM_STRIDE_BYTES + glyphs * UI_GLYPH_STRIDE_BYTES <= usize::MAX
            ==> r == Ok::<usize, UiError>((items * UI_ITEM_STRIDE_BYTES + glyphs * UI_GLYPH_STRIDE_BYTES) as usize),
        items * UI_ITEM_STRIDE_BYTES + glyphs * UI_GLYPH_STRIDE_BYTES > usize::MAX
            ==> r == Err::<usize, UiError>(UiError::IndexOverflow),
{
    let item_bytes = match items.checked_mul(UI_ITEM_STRIDE_BYTES) {
        Some(b) => b,
        None => return Err(UiError::IndexOverflow),
    };
    let glyph_bytes = match glyphs.checked_mul(UI_GLYPH_STRIDE_BYTES) {
        Some(b) => b,
        None => return Err(UiError::IndexOverflow),
    };
    match item_bytes.checked_add(glyph_bytes) {
        Some(b) => Ok(b),
        None => Err(UiError::IndexOverflow),
    }
}

/// The upload plan of a frame with these counts; `IndexOverflow` when a
/// count does not fit in `u32` or the byte total does not fit in `usize`.
pub fn upload_plan(items: usize, batches: usize, glyphs: usize) -> (r: Result<UiUploadPlan, UiError>)
    ensures
        match r {
            Ok(plan) => {
                &&& plan.item_count == items && plan.batch_count == batches && plan.glyph_count == glyphs
                &&& plan.upload_bytes == items * UI_ITEM_STRIDE_BYTES + glyphs * UI_GLYPH_STRIDE_BYTES
            },
            Err(e) => e == UiError::IndexOverflow && (items > u32::MAX || batches > u32::MAX || glyphs
                > u32::MAX || items * UI_ITEM_STRIDE_BYTES + glyphs * UI_GLYPH_STRIDE_BYTES > usize::MAX),
        },
        items <= u32::MAX && batches <= u32::MAX && glyphs <= u32::MAX && items * UI_ITEM_STRIDE_BYTES
            + glyphs * UI_GLYPH_STRIDE_BYTES <= usize::MAX ==> r is Ok,
{
    let bytes = match upload_bytes(items, glyphs) {
        Ok(b) => b,
        Err(e) => return Err(e),
    };
    if items > u32::MAX as usize || batches > u32::MAX as usize || glyphs > u32::MAX as usize {
        return Err(UiError::IndexOverflow);
    }
    Ok(UiUploadPlan {
        item_count: items as u32,
        batch_count: batches as u32,
        glyph_count: glyphs as u32,
        upload_bytes: bytes,
    })
}

/// The upload plan of a frame that must fit in `max_upload_bytes`: as
/// `upload_plan`, and `CapacityExceeded` when the frame's bytes exceed the
/// budget.
pub fn budgeted_upload_plan(items: usize, batches: usize, glyphs: usize, max_upload_bytes: usize) -> (r:
    Result<UiUploadPlan, UiError>)
    ensures
        ({
            let bytes = items * UI_ITEM_STRIDE_BYTES + glyphs * UI_GLYPH_STRIDE_BYTES;
            let fits = items <= u32::MAX && batches <= u32::MAX && glyphs <= u32::MAX && bytes
                <= usize::MAX;
            &&& !fits ==> r == Err::<UiUploadPlan, UiError>(UiError::IndexOverflow)
            &&& fits && bytes > max_upload_bytes ==> r == Err::<UiUploadPlan, UiError>(
                UiError::CapacityExceeded,
            )
            &&& fits && bytes <= max_upload_bytes ==> r == Ok::<UiUploadPlan, UiError>(
                UiUploadPlan {
                    item_count: items as u32,
                    batch_count: batches as u32,
                    glyph_count: glyphs as u32,
                    upload_bytes: bytes as usize,
                },
            )
        }),
{
    let plan = match upload_plan(items, batches, glyphs) {
        Ok(plan) => plan,
        Err(e) => return Err(e),
    };
    if plan.upload_bytes > max_upload_bytes {
        return Err(UiError::CapacityExceeded);
    }
    Ok(plan)
}

// ---------------------------------------------------------------------------
// Batching

/// `n` saturated to `u32::MAX`.
pub open spec fn clamp_u32(n: int) -> int {
    if n > u32::MAX {
        u32::MAX as int
    } else {
        n
    }
}

/// Where batch `k` ends: where the next one starts, or at `n` for the last.
pub open spec fn batch_end(batches: Seq<UiBatch>, k: int, n: int) -> int {
    if k + 1 < batches.len() {
        batches[k + 1].first as int
    } else {
        n
    }
}

/// `batches` split the first `n` keys into maximal runs of equal keys, in
/// order; each count is its run's length, saturated at `u32::MAX`.
pub open spec fn batches_are_runs(keys: Seq<UiBatchKey>, batches: Seq<UiBatch>, n: int) -> bool {
    &&& batches.len() == 0 <==> n == 0
    &&& batches.len() > 0 ==> batches[0].first == 0 && batches.last().first < n
    &&& forall|k: int| 0 <= k < batches.len() - 1 ==> (#[trigger] batches[k]).first < batches[k + 1].first
    &&& forall|k: int|
        0 <= k < batches.len() ==> (#[trigger] batches[k]).count == clamp_u32(
            batch_end(batches, k, n) - batches[k].first,
        )
    &&& forall|k: int, i: int|
        0 <= k < batches.len() && batches[k].first <= i < batch_end(batches, k, n) ==> #[trigger] keys[i]
            == (#[trigger] batches[k]).key
    &&& forall|k: int| 0 <= k < batches.len() - 1 ==> (#[trigger] batches[k]).key != batches[k + 1].key
}

/// A run of equal keys starts at `i`.
pub open spec fn key_run_starts(keys: Seq<UiBatchKey>, i: int) -> bool {
    i == 0 || keys[i - 1] != keys[i]
}

/// Number of runs of equal keys among the first `n` keys.
pub open spec fn key_run_count(keys: Seq<UiBatchKey>, n: int) -> nat
    decreases n,
{
    if n <= 0 {
        0
    } else {
        key_run_count(keys, n - 1) + if key_run_starts(keys, n - 1) {
            1nat
        } else {
            0nat
        }
    }
}

proof fn lemma_key_run_count_monotonic(keys: Seq<UiBatchKey>, n: int, m: int)
    requires
        n <= m,
    ensures
        key_run_count(keys, n) <= key_run_count(keys, m),
    decreases m - n,
{
    if n < m {
        lemma_key_run_count_monotonic(keys, n, m - 1);
    }
}

/// Extending the last batch by key `k` keeps the runs.
proof fn lemma_runs_extend(keys: Seq<UiBatchKey>, batches: Seq<UiBatch>, k: int, last: UiBatch)
    requires
        0 < k < keys.len(),
        batches_are_runs(keys, batches, k),
        batches.last().key == keys[k],
        last == (UiBatch { count: clamp_u32(k + 1 - batches.last().first) as u32, ..batches.last() }),
    ensures
        batches_are_runs(keys, batches.update(batches.len() - 1, last), k + 1),
        !key_run_starts(keys, k),
{
    let b = batches.update(batches.len() - 1, last);
    let n = batches.len() - 1;
    assert(batch_end(batches, n, k) == k);
    assert(keys[k - 1] == batches[n].key);
    assert forall|j: int| 0 <= j < b.len() implies (#[trigger] b[j]).count == clamp_u32(
        batch_end(b, j, k + 1) - b[j].first,
    ) by {
        if j < n {
            assert(b[j] == batches[j]);
            assert(batch_end(b, j, k + 1) == batch_end(batches, j, k));
        }
    }
    assert forall|j: int, i: int|
        0 <= j < b.len() && b[j].first <= i < batch_end(b, j, k + 1) implies #[trigger] keys[i]
        == (#[trigger] b[j]).key by {
        if j < n {
            assert(b[j] == batches[j]);
            assert(batch_end(b, j, k + 1) == batch_end(batches, j, k));
        } else if i < k {
            assert(batches[j].first <= i < batch_end(batches, j, k));
        }
    }
    assert forall|j: int| 0 <= j < b.len() - 1 implies (#[trigger] b[j]).first < b[j + 1].first by {
        assert(b[j] == batches[j]);
    }
    assert forall|j: int| 0 <= j < b.len() - 1 implies (#[trigger] b[j]).key != b[j + 1].key by {
        assert(b[j] == batches[j]);
    }
}

/// Opening a new batch at key `k` keeps the runs.
proof fn lemma_runs_push(keys: Seq<UiBatchKey>, batches: Seq<UiBatch>, k: int, batch: UiBatch)
    requires
        0 <= k < keys.len(),
        k <= u32::MAX,
        batches_are_runs(keys, batches, k),
        batches.len() > 0 ==> batches.last().key != keys[k],
        batch == (UiBatch { key: keys[k], first: k as u32, count: 1 }),
    ensures
        batches_are_runs(keys, batches.push(batch), k + 1),
        key_run_starts(keys, k),
{
    let b = batches.push(batch);
    let n = batches.len();
    if n > 0 {
        assert(batch_end(batches, n - 1, k) == k);
        assert(keys[k - 1] == batches[n - 1].key);
    }
    assert(b[n as int] == batch);
    assert forall|j: int| 0 <= j < b.len() implies (#[trigger] b[j]).count == clamp_u32(
        batch_end(b, j, k + 1) - b[j].first,
    ) by {
        if j < n {
            assert(b[j] == batches[j]);
            assert(batch_end(b, j, k + 1) == batch_end(batches, j, k));
        }
    }
    assert forall|j: int, i: int|
        0 <= j < b.len() && b[j].first <= i < batch_end(b, j, k + 1) implies #[trigger] keys[i]
        == (#[trigger] b[j]).key by {
        if j < n {
            assert(b[j] == batches[j]);
            assert(batch_end(b, j, k + 1) == batch_end(batches, j, k));
        }
    }
    assert forall|j: int| 0 <= j < b.len() - 1 implies (#[trigger] b[j]).first < b[j + 1].first by {
        assert(b[j] == batches[j]);
        if j + 1 < n {
            assert(b[j + 1] == batches[j + 1]);
        }
    }
    assert forall|j: int| 0 <= j < b.len() - 1 implies (#[trigger] b[j]).key != b[j + 1].key by {
        assert(b[j] == batches[j]);
        if j + 1 < n {
            assert(b[j + 1] == batches[j + 1]);
        }
    }
}

/// Groups consecutive paint items with equal batch keys into batches, in
/// order. More than `max_batches` batches is `CapacityExceeded`; an item
/// index past `u32::MAX` is `IndexOverflow`, whichever comes first.
#[verifier::spinoff_prover]
pub fn build_batches(keys: &[UiBatchKey], max_batches: usize) -> (r: Result<Vec<UiBatch>, UiError>)
    ensures
        r is Ok <==> keys@.len() <= 0x1_0000_0000 && key_run_count(keys@, keys@.len() as int)
            <= max_batches,
        r matches Ok(batches) ==> batches_are_runs(keys@, batches@, keys@.len() as int)
            && batches@.len() == key_run_count(keys@, keys@.len() as int),
        r matches Err(e) ==> e == (if key_run_count(
            keys@,
            if keys@.len() <= 0x1_0000_0000 { keys@.len() as int } else { 0x1_0000_0000 },
        ) > max_batches {
            UiError::CapacityExceeded
        } else {
            UiError::IndexOverflow
        }),
{
    let n = keys.len();
    let mut batches: Vec<UiBatch> = Vec::new();
    let mut k: usize = 0;
    while k < n
        invariant
            n == keys@.len(),
            k <= n,
            k <= 0x1_0000_0000,
            batches_are_runs(keys@, batches@, k as int),
            batches@.len() == key_run_count(keys@, k as int),
            batches@.len() <= max_batches,
        decreases n - k,
    {
        if k > u32::MAX as usize {
            proof {
                lemma_key_run_count_monotonic(keys@, k as int, 0x1_0000_0000);
            }
            return Err(UiError::IndexOverflow);
        }
        let index = k as u32;
        let key = keys[k];
        let blen = batches.len();
        if blen > 0 {
            let last = batches[blen - 1];
            let contiguous = match last.first.checked_add(last.count) {
                Some(end) => end == index,
                None => false,
            };
            if last.key == key && contiguous {
                let grown = UiBatch { count: last.count.saturating_add(1), ..last };
                proof {
                    lemma_runs_extend(keys@, batches@, k as int, grown);
                }
                batches.set(blen - 1, grown);
                k = k + 1;
                continue;
            }
            proof {
                assert(batch_end(batches@, blen - 1, k as int) == k);
                assert(last.key != key);
            }
        }
        let batch = UiBatch { key, first: index, count: 1 };
        proof {
            lemma_runs_push(keys@, batches@, k as int, batch);
        }
        if blen >= max_batches {
            proof {
                lemma_key_run_count_monotonic(
                    keys@,
                    k as int + 1,
                    if n <= 0x1_0000_0000 { n as int } else { 0x1_0000_0000 },
                );
            }
            return Err(UiError::CapacityExceeded);
        }
        batches.push(batch);
        k = k + 1;
    }
    Ok(batches)
}

// ---------------------------------------------------------------------------
// Dirty upload ranges

/// The bytes of `s` in `[start, end)`, or `None` when `start` lies past
/// `end` (as a slice `get` gives them).
pub open spec fn window(s: Seq<u8>, start: int, end: int) -> Option<Seq<u8>> {
    if start <= end {
        Some(s.subrange(start, end))
    } else {
        None
    }
}

/// Chunk `c` of the stream differs between `current` and `old`.
pub open spec fn chunk_changed(current: Seq<u8>, old: Seq<u8>, c: int) -> bool {
    let start = c * 32;
    let end = if start + 32 <= current.len() { start + 32 } else { current.len() as int };
    let old_end = if start + 32 <= old.len() { start + 32 } else { old.len() as int };
    window(current, start, end) != window(old, start, old_end)
}

/// Each range carries the bytes of `current` at its offset.
pub open spec fn ranges_carry(current: Seq<u8>, ranges: Seq<UiUploadRange>) -> bool {
    forall|j: int|
        0 <= j < ranges.len() ==> (#[trigger] ranges[j]).offset + ranges[j].bytes@.len() <= current.len()
            && ranges[j].bytes@ == current.subrange(
            ranges[j].offset as int,
            ranges[j].offset + ranges[j].bytes@.len(),
        )
}

/// Byte `i` lies in one of the ranges.
pub open spec fn covered(ranges: Seq<UiUploadRange>, i: int) -> bool {
    exists|j: int|
        0 <= j < ranges.len() && (#[trigger] ranges[j]).offset <= i < ranges[j].offset
            + ranges[j].bytes@.len()
}

/// Ranges that carry `current`'s bytes turn a buffer of its length into one
/// that agrees with `current` on every covered byte.
proof fn lemma_apply_carried(buf: Seq<u8>, current: Seq<u8>, ranges: Seq<UiUploadRange>)
    requires
        buf.len() == current.len(),
        ranges_carry(current, ranges),
    ensures
        apply_ranges(buf, ranges).len() == buf.len(),
        forall|i: int|
            0 <= i < buf.len() ==> #[trigger] apply_ranges(buf, ranges)[i] == if covered(ranges, i) {
                current[i]
            } else {
                buf[i]
            },
    decreases ranges.len(),
{
    if ranges.len() > 0 {
        let init = ranges.drop_last();
        let last = ranges.last();
        assert forall|j: int| 0 <= j < init.len() implies (#[trigger] init[j]).offset + init[j].bytes@.len()
            <= current.len() && init[j].bytes@ == current.subrange(
            init[j].offset as int,
            init[j].offset + init[j].bytes@.len(),
        ) by {
            assert(init[j] == ranges[j]);
        }
        lemma_apply_carried(buf, current, init);
        let prev = apply_ranges(buf, init);
        assert(ranges[ranges.len() - 1] == last);
        assert forall|i: int| 0 <= i < buf.len() implies #[trigger] apply_ranges(buf, ranges)[i] == if covered(
            ranges,
            i,
        ) {
            current[i]
        } else {
            buf[i]
        } by {
            let in_last = last.offset <= i < last.offset + last.bytes@.len();
            if in_last {
                assert(covered(ranges, i));
                assert(last.bytes@[i - last.offset] == current[i]);
            } else {
                if covered(init, i) {
                    let j = choose|j: int|
                        0 <= j < init.len() && (#[trigger] init[j]).offset <= i < init[j].offset
                            + init[j].bytes@.len();
                    assert(ranges[j] == init[j]);
                    assert(covered(ranges, i));
                } else if covered(ranges, i) {
                    let j = choose|j: int|
                        0 <= j < ranges.len() && (#[trigger] ranges[j]).offset <= i < ranges[j].offset
                            + ranges[j].bytes@.len();
                    assert(j < init.len());
                    assert(ranges[j] == init[j]);
                    assert(covered(init, i));
                }
            }
        }
    }
}

/// Pushing a carried range keeps every earlier covered byte covered.
proof fn lemma_covered_push(ranges: Seq<UiUploadRange>, range: UiUploadRange, i: int)
    requires
        covered(ranges, i) || range.offset <= i < range.offset + range.bytes@.len(),
    ensures
        covered(ranges.push(range), i),
{
    let r = ranges.push(range);
    if covered(ranges, i) {
        let j = choose|j: int|
            0 <= j < ranges.len() && (#[trigger] ranges[j]).offset <= i < ranges[j].offset
                + ranges[j].bytes@.len();
        assert(r[j] == ranges[j]);
    } else {
        assert(r[ranges.len() as int] == range);
    }
}

/// The 32-byte chunk holding byte `i` differs between `current` and `old`.
pub open spec fn byte_changed(current: Seq<u8>, old: Seq<u8>, i: int) -> bool {
    chunk_changed(current, old, i / 32)
}

/// A byte covered after pushing a range was covered before or lies in it.
proof fn lemma_covered_split(ranges: Seq<UiUploadRange>, range: UiUploadRange, i: int)
    requires
        covered(ranges.push(range), i),
    ensures
        covered(ranges, i) || range.offset <= i < range.offset + range.bytes@.len(),
{
    let r = ranges.push(range);
    let j = choose|j: int| 0 <= j < r.len() && (#[trigger] r[j]).offset <= i < r[j].offset + r[j].bytes@.len();
    if j < ranges.len() {
        assert(r[j] == ranges[j]);
    }
}

/// Ranges cut from a stream fit within it, so staging them over a buffer of
/// the stream's length never refuses one of them.
pub proof fn lemma_carried_ranges_fit(current: Seq<u8>, ranges: Seq<UiUploadRange>)
    requires
        ranges_carry(current, ranges),
    ensures
        forall|j: int| 0 <= j < ranges.len() ==> range_fits(#[trigger] ranges[j], current.len() as int),
{
}

/// Bytes `[start, end)` of `current` as an upload range at `start`.
fn range_of(current: &[u8], start: usize, end: usize) -> (r: Result<UiUploadRange, UiError>)
    requires
        start < end <= current@.len(),
    ensures
        r matches Ok(range) ==> range.offset == start && range.bytes@ == current@.subrange(
            start as int,
            end as int,
        ),
        r matches Err(e) ==> e == UiError::AllocationFailed,
{
    let mut bytes: Vec<u8> = Vec::new();
    if bytes.try_reserve(end - start).is_err() {
        return Err(UiError::AllocationFailed);
    }
    let mut j: usize = start;
    while j < end
        invariant
            start <= j <= end <= current@.len(),
            bytes@ == current@.subrange(start as int, j as int),
        decreases end - j,
    {
        bytes.push(current[j]);
        j = j + 1;
    }
    Ok(UiUploadRange { offset: start, bytes })
}

/// Whether `[start, end)` of `a` equals `[start, old_end)` of `b`, each
/// taken as a slice `get` takes it.
fn windows_equal(a: &[u8], start: usize, end: usize, b: &[u8], old_end: usize) -> (r: bool)
    requires
        end <= a@.len(),
        old_end <= b@.len(),
    ensures
        r == (window(a@, start as int, end as int) == window(b@, start as int, old_end as int)),
{
    if start > end || start > old_end {
        return start > end && start > old_end;
    }
    if end - start != old_end - start {
        proof {
            assert(a@.subrange(start as int, end as int).len() != b@.subrange(start as int, old_end as int).len());
        }
        return false;
    }
    let mut j: usize = start;
    while j < end
        invariant
            start <= j <= end <= a@.len(),
            end == old_end,
            old_end <= b@.len(),
            forall|i: int| start <= i < j ==> a@[i] == b@[i],
        decreases end - j,
    {
        if a[j] != b[j] {
            proof {
                assert(a@.subrange(start as int, end as int)[j - start] != b@.subrange(start as int, old_end as int)[j - start]);
            }
            return false;
        }
        j = j + 1;
    }
    proof {
        assert(a@.subrange(start as int, end as int) =~= b@.subrange(start as int, old_end as int));
    }
    true
}

/// The upload ranges that bring the previous frame's stream to `current`.
///
/// Without a previous frame the whole stream is one range at offset 0.
/// Otherwise the streams are compared in 32-byte chunks, and each maximal
/// run of changed chunks becomes one range of `current`'s bytes (clipped to
/// its length), in increasing offset. Writing the ranges into the previous
/// stream, resized to `current`'s length, gives back `current`. A failed
/// allocation is `AllocationFailed`.
pub fn encode_dirty_ranges(current: &[u8], previous: Option<&[u8]>) -> (r: Result<
    Vec<UiUploadRange>,
    UiError,
>)
    ensures
        r matches Err(e) ==> e == UiError::AllocationFailed,
        r matches Ok(ranges) ==> ranges_carry(current@, ranges@) && match previous {
            None => ranges@.len() == 1 && ranges@[0].offset == 0 && ranges@[0].bytes@ == current@,
            Some(old) => apply_ranges(resized(old@, current@.len()), ranges@) == current@
                && (forall|j: int|
                0 <= j < ranges@.len() ==> (#[trigger] ranges@[j]).offset % 32 == 0
                    && ranges@[j].bytes@.len() > 0)
                && (forall|j: int|
                0 <= j < ranges@.len() - 1 ==> (#[trigger] ranges@[j]).offset + ranges@[j].bytes@.len()
                    < ranges@[j + 1].offset)
                && (forall|i: int|
                0 <= i < current@.len() ==> (#[trigger] covered(ranges@, i) <==> byte_changed(
                    current@,
                    old@,
                    i,
                ))),
        },
{
    let old = match previous {
        None => {
            let mut bytes: Vec<u8> = Vec::new();
            if bytes.try_reserve(current.len()).is_err() {
                return Err(UiError::AllocationFailed);
            }
            let mut j: usize = 0;
            while j < current.len()
                invariant
                    j <= current@.len(),
                    bytes@ == current@.subrange(0, j as int),
                decreases current@.len() - j,
            {
                bytes.push(current[j]);
                j = j + 1;
            }
            let mut ranges: Vec<UiUploadRange> = Vec::new();
            let whole = UiUploadRange { offset: 0, bytes };
            ranges.push(whole);
            proof {
                assert(current@.subrange(0, current@.len() as int) =~= current@);
                assert(ranges@[0] == whole);
            }
            return Ok(ranges);
        },
        Some(old) => old,
    };
    let cur_len = current.len();
    let old_len = old.len();
    let longest = if cur_len >= old_len { cur_len } else { old_len };
    let chunk_count = longest / 32 + if longest % 32 != 0 { 1 } else { 0 };
    let mut ranges: Vec<UiUploadRange> = Vec::new();
    if ranges.try_reserve(chunk_count).is_err() {
        return Err(UiError::AllocationFailed);
    }
    let mut pending: Option<usize> = None;
    let mut chunk: usize = 0;
    while chunk < chunk_count
        invariant
            cur_len == current@.len(),
            old_len == old@.len(),
            longest == if cur_len >= old_len { cur_len } else { old_len },
            chunk_count == longest / 32 + if longest % 32 != 0 { 1int } else { 0int },
            chunk <= chunk_count,
            ranges_carry(current@, ranges@),
            forall|j: int|
                0 <= j < ranges@.len() ==> (#[trigger] ranges@[j]).offset % 32 == 0
                    && ranges@[j].bytes@.len() > 0,
            forall|j: int|
                0 <= j < ranges@.len() - 1 ==> (#[trigger] ranges@[j]).offset + ranges@[j].bytes@.len()
                    < ranges@[j + 1].offset,
            ranges@.len() > 0 && chunk < chunk_count ==> ranges@.last().offset + ranges@.last().bytes@.len()
                < chunk * 32,
            pending matches Some(p) ==> p % 32 == 0 && p < chunk * 32 && (ranges@.len() > 0
                ==> ranges@.last().offset + ranges@.last().bytes@.len() < p),
            chunk == chunk_count ==> pending is None,
            forall|i: int|
                0 <= i < cur_len && i < chunk * 32 ==> covered(ranges@, i) || (pending matches Some(p) && p
                    <= i) || (i < old_len && old@[i] == current@[i]),
            forall|i: int| 0 <= i < cur_len && #[trigger] covered(ranges@, i) ==> byte_changed(current@, old@, i),
            forall|i: int|
                0 <= i < cur_len && i < chunk * 32 && #[trigger] byte_changed(current@, old@, i) ==> covered(
                    ranges@,
                    i,
                ) || (pending matches Some(p) && p <= i),
            pending matches Some(p) ==> forall|c: int|
                p / 32 <= c < chunk ==> #[trigger] chunk_changed(current@, old@, c),
        decreases chunk_count - chunk,
    {
        let start = chunk * 32;
        let end = if start > cur_len {
            cur_len
        } else if cur_len - start >= 32 {
            start + 32
        } else {
            cur_len
        };
        let old_end = if start > old_len { old_len } else if old_len - start >= 32 { start + 32 } else { old_len };
        proof {
            assert(end == if start + 32 <= cur_len { start + 32 } else { cur_len as int });
            assert(old_end == if start + 32 <= old_len { start + 32 } else { old_len as int });
        }
        let changed = !windows_equal(current, start, end, old, old_end);
        proof {
            assert(changed == chunk_changed(current@, old@, chunk as int));
            if !changed && start <= end {
                assert(start <= old_end);
                let cs = current@.subrange(start as int, end as int);
                let os = old@.subrange(start as int, old_end as int);
                assert(cs == os);
                assert(cs.len() == os.len());
                assert(end == old_end);
                assert forall|i: int| start <= i < end implies i < old_len && old@[i] == current@[i] by {
                    assert(cs[i - start] == current@[i]);
                    assert(os[i - start] == old@[i]);
                }
            }
        }
        let ghost pending0 = pending;
        if changed && pending.is_none() {
            pending = Some(start);
        }
        let is_last = chunk + 1 == chunk_count;
        let ghost before = ranges@;
        let ghost pending_before = pending;
        if (!changed && pending.is_some()) || (changed && is_last) {
            let range_start = match pending {
                Some(p) => p,
                None => start,
            };
            pending = None;
            let range_end = if changed && is_last {
                cur_len
            } else if start < cur_len {
                start
            } else {
                cur_len
            };
            if range_start < range_end {
                let range = match range_of(current, range_start, range_end) {
                    Ok(r) => r,
                    Err(e) => return Err(e),
                };
                proof {
                    assert forall|i: int|
                        0 <= i < cur_len && i < (chunk + 1) * 32 && (covered(before, i) || range_start <= i < range_end)
                        implies covered(before.push(range), i) by {
                        lemma_covered_push(before, range, i);
                    }
                    let r2 = before.push(range);
                    assert(r2.last() == range);
                    assert forall|j: int| 0 <= j < r2.len() implies (#[trigger] r2[j]).offset + r2[j].bytes@.len()
                        <= current@.len() && r2[j].bytes@ == current@.subrange(
                        r2[j].offset as int,
                        r2[j].offset + r2[j].bytes@.len(),
                    ) by {
                        if j < before.len() {
                            assert(r2[j] == before[j]);
                        }
                    }
                    assert forall|j: int| 0 <= j < r2.len() implies (#[trigger] r2[j]).offset % 32 == 0
                        && r2[j].bytes@.len() > 0 by {
                        if j < before.len() {
                            assert(r2[j] == before[j]);
                        }
                    }
                    assert forall|j: int| 0 <= j < r2.len() - 1 implies (#[trigger] r2[j]).offset
                        + r2[j].bytes@.len() < r2[j + 1].offset by {
                        assert(r2[j] == before[j]);
                        if j + 1 < before.len() {
                            assert(r2[j + 1] == before[j + 1]);
                        }
                    }
                }
                ranges.push(range);
            }
        }
        proof {
            assert forall|i: int|
                0 <= i < cur_len && i < (chunk + 1) * 32 implies covered(ranges@, i) || (pending matches Some(p)
                    && p <= i) || (i < old_len && old@[i] == current@[i]) by {
                if i < chunk * 32 {
                    if covered(before, i) {
                        if ranges@ != before {
                            lemma_covered_push(before, ranges@.last(), i);
                            assert(ranges@ == before.push(ranges@.last()));
                        }
                    }
                }
            }
            assert(longest <= chunk_count * 32);
            assert forall|i: int| 0 <= i < cur_len && #[trigger] covered(ranges@, i) implies byte_changed(
                current@,
                old@,
                i,
            ) by {
                if ranges@ != before {
                    assert(ranges@ == before.push(ranges@.last()));
                    lemma_covered_split(before, ranges@.last(), i);
                    if !covered(before, i) {
                        let p = pending_before.unwrap();
                        assert(p / 32 <= i / 32);
                        assert(i / 32 <= chunk);
                        if i / 32 < chunk {
                            assert(chunk_changed(current@, old@, i / 32));
                        }
                    }
                }
            }
            assert forall|i: int|
                0 <= i < cur_len && i < (chunk + 1) * 32 && #[trigger] byte_changed(current@, old@, i) implies covered(
                ranges@,
                i,
            ) || (pending matches Some(p) && p <= i) by {
                if ranges@ != before {
                    assert(ranges@ == before.push(ranges@.last()));
                }
                if i < chunk * 32 {
                    if covered(before, i) {
                        if ranges@ != before {
                            lemma_covered_push(before, ranges@.last(), i);
                        }
                    }
                } else {
                    assert(i / 32 == chunk);
                }
                if !covered(ranges@, i) && !(pending matches Some(p) && p <= i) {
                    if ranges@ != before {
                        lemma_covered_push(before, ranges@.last(), i);
                    }
                }
            }
        }
        chunk = chunk + 1;
    }
    proof {
        let buf = resized(old@, cur_len as nat);
        lemma_apply_carried(buf, current@, ranges@);
        assert(apply_ranges(buf, ranges@) =~= current@);
    }
    Ok(ranges)
}

} // verus!
