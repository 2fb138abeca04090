//! The byte stream a UI render snapshot is uploaded as: one fixed-stride
//! little-endian record per render item, then one per glyph. Floating-point
//! fields travel as their IEEE-754 bit patterns.
use vstd::prelude::*;

use crate::subsystems::renderer::frame::le_word_bytes;
use crate::subsystems::ui::budget::UiError;
use crate::subsystems::ui::paint::{upload_bytes, UI_GLYPH_STRIDE_BYTES, UI_ITEM_STRIDE_BYTES};

verus! {

/// A render item as the stream carries it.
#[derive(Clone, Copy, Debug, PartialEq, Eq)]
pub struct UiItemRecord {
    /// `x`, `y`, `width`, `height` of the item.
    pub rect: [u32; 4],
    /// `x`, `y`, `width`, `height` of its clip.
    pub clip_rect: [u32; 4],
    pub color: [u32; 4],
    pub clip: u32,
    pub z_index: i32,
    pub opacity: u32,
    /// The paint-kind code (see `kind_code`).
    pub kind: u8,
    pub glyph_count: u32,
    pub glyph_offset: u32,
    /// Texture slot index, `u32::MAX` for none.
    pub texture: u32,
    /// Font slot index, `u32::MAX` for none.
    pub font: u32,
}

/// A glyph as the stream carries it.
#[derive(Clone, Copy, Debug, PartialEq, Eq, Structural)]
pub struct UiGlyphRecord {
    pub codepoint: u32,
    pub advance: u32,
    pub atlas_x: u16,
    pub atlas_y: u16,
    pub width: u16,
    pub height: u16,
}

/// The two bytes of `x`, least significant first.
pub open spec fn le_half_bytes(x: u16) -> Seq<u8> {
    seq![(x & 0xff) as u8, ((x >> 8) & 0xff) as u8]
}

/// `n` zero bytes.
pub open spec fn zeros(n: nat) -> Seq<u8> {
    Seq::new(n, |i: int| 0u8)
}

/// The four words of a rectangle or colour.
pub open spec fn quad_bytes(q: [u32; 4]) -> Seq<u8> {
    le_word_bytes(q[0]) + le_word_bytes(q[1]) + le_word_bytes(q[2]) + le_word_bytes(q[3])
}

/// The 80-byte record of an item: rectangle, clip rectangle, colour, clip
/// id, z-index, opacity, kind and a zero byte, glyph count and offset,
/// texture and font indices, then two bytes of padding.
pub open spec fn item_bytes(r: UiItemRecord) -> Seq<u8> {
    quad_bytes(r.rect) + quad_bytes(r.clip_rect) + quad_bytes(r.color) + le_word_bytes(r.clip)
        + le_word_bytes(r.z_index as u32) + le_word_bytes(r.opacity) + seq![r.kind, 0u8]
        + le_word_bytes(r.glyph_count) + le_word_bytes(r.glyph_offset) + le_word_bytes(r.texture)
        + le_word_bytes(r.font) + zeros(2)
}

/// The 32-byte record of a glyph: codepoint, advance, atlas position and
/// size, then sixteen bytes of padding.
pub open spec fn glyph_bytes(g: UiGlyphRecord) -> Seq<u8> {
    le_word_bytes(g.codepoint) + le_word_bytes(g.advance) + le_half_bytes(g.atlas_x) + le_half_bytes(
        g.atlas_y,
    ) + le_half_bytes(g.width) + le_half_bytes(g.height) + zeros(16)
}

pub open spec fn items_stream(items: Seq<UiItemRecord>) -> Seq<u8>
    decreases items.len(),
{
    if items.len() == 0 {
        Seq::empty()
    } else {
        items_stream(items.drop_last()) + item_bytes(items.last())
    }
}

pub open spec fn glyphs_stream(glyphs: Seq<UiGlyphRecord>) -> Seq<u8>
    decreases glyphs.len(),
{
    if glyphs.len() == 0 {
        Seq::empty()
    } else {
        glyphs_stream(glyphs.drop_last()) + glyph_bytes(glyphs.last())
    }
}

/// The upload stream of a snapshot: every item record, then every glyph
/// record.
pub open spec fn wire_stream(items: Seq<UiItemRecord>, glyphs: Seq<UiGlyphRecord>) -> Seq<u8> {
    items_stream(items) + glyphs_stream(glyphs)
}

proof fn lemma_items_len(items: Seq<UiItemRecord>)
    ensures
        items_stream(items).len() == items.len() * UI_ITEM_STRIDE_BYTES,
    decreases items.len(),
{
    if items.len() > 0 {
        lemma_items_len(items.drop_last());
        assert(item_bytes(items.last()).len() == 80);
    }
}

proof fn lemma_glyphs_len(glyphs: Seq<UiGlyphRecord>)
    ensures
        glyphs_stream(glyphs).len() == glyphs.len() * UI_GLYPH_STRIDE_BYTES,
    decreases glyphs.len(),
{
    if glyphs.len() > 0 {
        lemma_glyphs_len(glyphs.drop_last());
        assert(glyph_bytes(glyphs.last()).len() == 32);
    }
}

/// The stream is exactly as long as the upload plan of the same snapshot
/// declares: one full item stride per item and one full glyph stride per
/// glyph.
pub proof fn lemma_wire_size_is_planned_size(items: Seq<UiItemRecord>, glyphs: Seq<UiGlyphRecord>)
    ensures
        wire_stream(items, glyphs).len() == items.len() * UI_ITEM_STRIDE_BYTES + glyphs.len()
            * UI_GLYPH_STRIDE_BYTES,
{
    lemma_items_len(items);
    lemma_glyphs_len(glyphs);
}

fn push_word(out: &mut Vec<u8>, x: u32)
    ensures
        final(out)@ == old(out)@ + le_word_bytes(x),
{
    out.push((x & 0xff) as u8);
    out.push(((x >> 8) & 0xff) as u8);
    out.push(((x >> 16) & 0xff) as u8);
    out.push(((x >> 24) & 0xff) as u8);
    assert(final(out)@ =~= old(out)@ + le_word_bytes(x));
}

fn push_half(out: &mut Vec<u8>, x: u16)
    ensures
        final(out)@ == old(out)@ + le_half_bytes(x),
{
    out.push((x & 0xff) as u8);
    out.push(((x >> 8) & 0xff) as u8);
    assert(final(out)@ =~= old(out)@ + le_half_bytes(x));
}

fn push_zeros(out: &mut Vec<u8>, n: usize)
    ensures
        final(out)@ == old(out)@ + zeros(n as nat),
{
    let ghost start = out@;
    let mut i: usize = 0;
    while i < n
        invariant
            i <= n,
            out@ == start + zeros(i as nat),
        decreases n - i,
    {
        out.push(0u8);
        assert(start + zeros((i + 1) as nat) =~= start + zeros(i as nat) + seq![0u8]);
        i = i + 1;
    }
}

fn push_quad(out: &mut Vec<u8>, q: [u32; 4])
    ensures
        final(out)@ == old(out)@ + quad_bytes(q),
{
    push_word(out, q[0]);
    push_word(out, q[1]);
    push_word(out, q[2]);
    push_word(out, q[3]);
    assert(final(out)@ =~= old(out)@ + quad_bytes(q));
}

fn push_item(out: &mut Vec<u8>, r: &UiItemRecord)
    ensures
        final(out)@ == old(out)@ + item_bytes(*r),
{
    let ghost start = out@;
    push_quad(out, r.rect);
    push_quad(out, r.clip_rect);
    push_quad(out, r.color);
    push_word(out, r.clip);
    push_word(out, r.z_index as u32);
    push_word(out, r.opacity);
    out.push(r.kind);
    out.push(0u8);
    push_word(out, r.glyph_count);
    push_word(out, r.glyph_offset);
    push_word(out, r.texture);
    push_word(out, r.font);
    push_zeros(out, 2);
    assert(out@ =~= start + item_bytes(*r));
}

fn push_glyph(out: &mut Vec<u8>, g: &UiGlyphRecord)
    ensures
        final(out)@ == old(out)@ + glyph_bytes(*g),
{
    let ghost start = out@;
    push_word(out, g.codepoint);
    push_word(out, g.advance);
    push_half(out, g.atlas_x);
    push_half(out, g.atlas_y);
    push_half(out, g.width);
    push_half(out, g.height);
    push_zeros(out, 16);
    assert(out@ =~= start + glyph_bytes(*g));
}

/// Encodes a snapshot's records into its upload stream. A stream whose
/// length does not fit in `usize` is `IndexOverflow`; a failed allocation of
/// the whole stream up front is `AllocationFailed`.
pub fn encode_records(items: &[UiItemRecord], glyphs: &[UiGlyphRecord]) -> (r: Result<Vec<u8>, UiError>)
    ensures
        items@.len() * UI_ITEM_STRIDE_BYTES + glyphs@.len() * UI_GLYPH_STRIDE_BYTES > usize::MAX
            ==> r == Err::<Vec<u8>, UiError>(UiError::IndexOverflow),
        r matches Ok(bytes) ==> bytes@ == wire_stream(items@, glyphs@),
        r == Err::<Vec<u8>, UiError>(UiError::IndexOverflow) ==> items@.len() * UI_ITEM_STRIDE_BYTES
            + glyphs@.len() * UI_GLYPH_STRIDE_BYTES > usize::MAX,
        r matches Err(e) ==> e == UiError::IndexOverflow || e == UiError::AllocationFailed,
{
    let total = match upload_bytes(items.len(), glyphs.len()) {
        Ok(total) => total,
        Err(e) => return Err(e),
    };
    let mut out: Vec<u8> = Vec::new();
    if out.try_reserve(total).is_err() {
        return Err(UiError::AllocationFailed);
    }
    let mut k: usize = 0;
    while k < items.len()
        invariant
            k <= items@.len(),
            out@ == items_stream(items@.take(k as int)),
        decreases items.len() - k,
    {
        push_item(&mut out, &items[k]);
        proof {
            let t = items@.take(k as int + 1);
            assert(t.drop_last() =~= items@.take(k as int));
            assert(t.last() == items@[k as int]);
        }
        k = k + 1;
    }
    proof {
        assert(items@.take(items@.len() as int) =~= items@);
    }
    let ghost head = out@;
    let mut j: usize = 0;
    while j < glyphs.len()
        invariant
            j <= glyphs@.len(),
            head == items_stream(items@),
            out@ == head + glyphs_stream(glyphs@.take(j as int)),
        decreases glyphs.len() - j,
    {
        push_glyph(&mut out, &glyphs[j]);
        proof {
            let t = glyphs@.take(j as int + 1);
            assert(t.drop_last() =~= glyphs@.take(j as int));
            assert(t.last() == glyphs@[j as int]);
        }
        j = j + 1;
    }
    proof {
        assert(glyphs@.take(glyphs@.len() as int) =~= glyphs@);
    }
    Ok(out)
}

/// Glyphs of the runs before run `k`.
pub open spec fn glyphs_before(run_lengths: Seq<usize>, k: int) -> int
    decreases k,
{
    if k <= 0 {
        0
    } else {
        glyphs_before(run_lengths, k - 1) + run_lengths[k - 1]
    }
}

/// Each run's glyphs fit the `u32` counts of the stream: its offset (the
/// glyphs of the runs before it) and its own length.
pub open spec fn run_fits(run_lengths: Seq<usize>, k: int) -> bool {
    glyphs_before(run_lengths, k) <= u32::MAX && run_lengths[k] <= u32::MAX
}

/// Where each item's glyph run starts in the snapshot's glyph list, for
/// items whose runs hold `run_lengths` glyphs (0 for an item without
/// text). `IndexOverflow` when some run's offset or length does not fit in
/// `u32`.
pub fn glyph_offsets(run_lengths: &[usize]) -> (r: Result<Vec<u32>, UiError>)
    ensures
        r is Ok <==> forall|k: int| 0 <= k < run_lengths@.len() ==> #[trigger] run_fits(run_lengths@, k),
        r matches Ok(offsets) ==> offsets@.len() == run_lengths@.len() && forall|k: int|
            0 <= k < run_lengths@.len() ==> #[trigger] offsets@[k] == glyphs_before(run_lengths@, k),
        r matches Err(e) ==> e == UiError::IndexOverflow,
{
    let mut offsets: Vec<u32> = Vec::new();
    let mut total: u64 = 0;
    let mut k: usize = 0;
    while k < run_lengths.len()
        invariant
            k <= run_lengths@.len(),
            offsets@.len() == k,
            total == glyphs_before(run_lengths@, k as int),
            total <= 2 * (u32::MAX as int),
            forall|j: int| 0 <= j < k ==> #[trigger] run_fits(run_lengths@, j),
            forall|j: int| 0 <= j < k ==> #[trigger] offsets@[j] == glyphs_before(run_lengths@, j),
        decreases run_lengths.len() - k,
    {
        let length = run_lengths[k];
        if total > u32::MAX as u64 || length > u32::MAX as usize {
            assert(!run_fits(run_lengths@, k as int));
            return Err(UiError::IndexOverflow);
        }
        offsets.push(total as u32);
        total = total + length as u64;
        k = k + 1;
    }
    Ok(offsets)
}

} // verus!
