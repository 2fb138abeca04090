//! The glyph atlas: a bounded ring of 64x64 cells, each allocation stamped
//! with a fresh generation so stale glyphs can be evicted together.
use vstd::prelude::*;

use crate::subsystems::ui::budget::UiError;

verus! {

/// Most cells an atlas holds (a 256 x 256 grid).
pub const MAX_ATLAS_SLOTS: usize = 65536;

/// Side of one atlas cell, in texels.
pub const ATLAS_CELL: u16 = 64;

#[derive(Clone, Copy, Debug, PartialEq, Eq, Structural)]
pub struct AtlasSlot {
    pub generation: u32,
    pub x: u16,
    pub y: u16,
    pub width: u16,
    pub height: u16,
}

/// Number of occupied cells among the first `n`.
pub open spec fn occupied_count(slots: Seq<Option<AtlasSlot>>, n: int) -> nat
    decreases n,
{
    if n <= 0 {
        0
    } else {
        occupied_count(slots, n - 1) + if slots[n - 1] is Some {
            1nat
        } else {
            0nat
        }
    }
}

/// Number of cells among the first `n` holding a glyph of `generation`.
pub open spec fn generation_count(slots: Seq<Option<AtlasSlot>>, generation: u32, n: int) -> nat
    decreases n,
{
    if n <= 0 {
        0
    } else {
        generation_count(slots, generation, n - 1) + if slots[n - 1] matches Some(s)
            && s.generation == generation {
            1nat
        } else {
            0nat
        }
    }
}

/// `slots` with every cell of `generation` emptied.
pub open spec fn without_generation(slots: Seq<Option<AtlasSlot>>, generation: u32) -> Seq<
    Option<AtlasSlot>,
> {
    slots.map_values(
        |s: Option<AtlasSlot>|
            if s matches Some(v) && v.generation == generation {
                None
            } else {
                s
            },
    )
}

/// The cell at ring position `index`: column `index % 256`, row
/// `index / 256`, 64 texels apart.
pub open spec fn cell_at(index: int, generation: u32, width: u16, height: u16) -> AtlasSlot {
    AtlasSlot {
        generation,
        x: ((index % 256) * 64) as u16,
        y: ((index / 256) * 64) as u16,
        width,
        height,
    }
}

pub struct GlyphAtlas {
    slots: Vec<Option<AtlasSlot>>,
    capacity: usize,
    next: usize,
}

impl View for GlyphAtlas {
    type V = Seq<Option<AtlasSlot>>;

    closed spec fn view(&self) -> Seq<Option<AtlasSlot>> {
        self.slots@
    }
}

impl GlyphAtlas {
    /// Allocations made so far.
    pub closed spec fn allocations(&self) -> nat {
        self.next as nat
    }

    /// One cell per slot, at most 65536 of them; every glyph's generation
    /// is one of the allocations made so far, and it sits in its slot's
    /// cell.
    pub closed spec fn wf(&self) -> bool {
        &&& self.slots@.len() == self.capacity
        &&& self.capacity <= MAX_ATLAS_SLOTS
        &&& forall|i: int|
            0 <= i < self.slots@.len() ==> (#[trigger] self.slots@[i] matches Some(s) ==> 1
                <= s.generation <= self.next && s == cell_at(i, s.generation, s.width, s.height))
    }

    /// An empty atlas of `min(max_glyphs, 65536)` cells.
    pub fn try_new(max_glyphs: usize) -> (r: Result<Self, UiError>)
        ensures
            r matches Ok(a) ==> a.wf() && a@.len() == if max_glyphs < MAX_ATLAS_SLOTS {
                max_glyphs as nat
            } else {
                MAX_ATLAS_SLOTS as nat
            } && (forall|i: int| 0 <= i < a@.len() ==> #[trigger] a@[i] is None)
                && a.allocations() == 0,
            r matches Err(e) ==> e == UiError::AllocationFailed,
    {
        let capacity = if max_glyphs < MAX_ATLAS_SLOTS {
            max_glyphs
        } else {
            MAX_ATLAS_SLOTS
        };
        let mut slots: Vec<Option<AtlasSlot>> = Vec::new();
        if slots.try_reserve(capacity).is_err() {
            return Err(UiError::AllocationFailed);
        }
        let mut i: usize = 0;
        while i < capacity
            invariant
                i <= capacity,
                slots@.len() == i,
                forall|k: int| 0 <= k < i ==> #[trigger] slots@[k] is None,
            decreases capacity - i,
        {
            slots.push(None);
            i = i + 1;
        }
        Ok(GlyphAtlas { slots, capacity, next: 0 })
    }

    /// Places a `width` x `height` glyph in the next cell of the ring,
    /// replacing whatever it held, stamped with the allocation's number as
    /// its generation.
    pub fn allocate(&mut self, width: u16, height: u16) -> (r: Result<AtlasSlot, UiError>)
        requires
            old(self).wf(),
        ensures
            final(self).wf(),
            final(self)@.len() == old(self)@.len(),
            final(self).allocations() >= old(self).allocations(),
            r matches Ok(slot) ==> allocation_step(*old(self), *final(self), slot),
            width == 0 || height == 0 || old(self)@.len() == 0 ==> r == Err::<AtlasSlot, UiError>(
                UiError::InvalidValue,
            ) && final(self)@ == old(self)@ && final(self).allocations() == old(self).allocations(),
            !(width == 0 || height == 0 || old(self)@.len() == 0) ==> {
                let index = old(self).allocations() as int % old(self)@.len() as int;
                &&& old(self).allocations() == usize::MAX ==> r == Err::<AtlasSlot, UiError>(
                    UiError::IndexOverflow,
                ) && final(self)@ == old(self)@
                &&& old(self).allocations() < usize::MAX && old(self).allocations() + 1 > u32::MAX
                    ==> r == Err::<AtlasSlot, UiError>(UiError::IndexOverflow) && final(self)@
                    == old(self)@ && final(self).allocations() == old(self).allocations() + 1
                &&& old(self).allocations() + 1 <= u32::MAX ==> {
                    let slot = cell_at(index, (old(self).allocations() + 1) as u32, width, height);
                    &&& r == Ok::<AtlasSlot, UiError>(slot)
                    &&& final(self)@ == old(self)@.update(index, Some(slot))
                    &&& final(self).allocations() == old(self).allocations() + 1
                    &&& generation_count(final(self)@, slot.generation, final(self)@.len() as int)
                        == 1
                }
            },
    {
        if width == 0 || height == 0 || self.capacity == 0 {
            return Err(UiError::InvalidValue);
        }
        let index = self.next % self.capacity;
        let next = match self.next.checked_add(1) {
            Some(n) => n,
            None => {
                return Err(UiError::IndexOverflow);
            },
        };
        self.next = next;
        if next > 0xFFFF_FFFFusize {
            return Err(UiError::IndexOverflow);
        }
        let generation = next as u32;
        let slot = AtlasSlot {
            generation,
            x: ((index % 256) as u16) * ATLAS_CELL,
            y: ((index / 256) as u16) * ATLAS_CELL,
            width,
            height,
        };
        let ghost before = self.slots@;
        self.slots.set(index, Some(slot));
        proof {
            lemma_fresh_generation_once(before, index as int, slot, before.len() as int);
        }
        Ok(slot)
    }

    /// Empties every cell holding a glyph of `generation`; returns how many.
    pub fn evict_generation(&mut self, generation: u32) -> (r: usize)
        requires
            old(self).wf(),
        ensures
            final(self).wf(),
            final(self).allocations() == old(self).allocations(),
            final(self)@ == without_generation(old(self)@, generation),
            r == generation_count(old(self)@, generation, old(self)@.len() as int),
            generation_count(final(self)@, generation, final(self)@.len() as int) == 0,
    {
        let mut evicted: usize = 0;
        let mut i: usize = 0;
        let ghost original = self.slots@;
        while i < self.slots.len()
            invariant
                i <= self.slots@.len(),
                self.slots@.len() == original.len(),
                original.len() <= MAX_ATLAS_SLOTS,
                self.capacity == old(self).capacity,
                self.next == old(self).next,
                original == old(self).slots@,
                old(self).wf(),
                forall|k: int| 0 <= k < i ==> #[trigger] self.slots@[k] == without_generation(original, generation)[k],
                forall|k: int| i <= k < original.len() ==> #[trigger] self.slots@[k] == original[k],
                evicted == generation_count(original, generation, i as int),
                evicted <= i,
            decreases self.slots.len() - i,
        {
            let hit = match self.slots[i] {
                Some(s) => s.generation == generation,
                None => false,
            };
            if hit {
                self.slots.set(i, None);
                evicted = evicted + 1;
            }
            i = i + 1;
        }
        proof {
            assert(self.slots@ =~= without_generation(original, generation));
            lemma_without_generation_count(original, generation, original.len() as int);
        }
        evicted
    }

    /// Each live glyph sits in the cell of its slot.
    pub proof fn lemma_view_cells(&self, i: int)
        requires
            self.wf(),
            0 <= i < self@.len(),
        ensures
            self@[i] matches Some(s) ==> s == cell_at(i, s.generation, s.width, s.height),
            self@.len() <= MAX_ATLAS_SLOTS,
    {
    }

    /// Number of occupied cells.
    pub fn occupied(&self) -> (r: usize)
        ensures
            r == occupied_count(self@, self@.len() as int),
            r <= self@.len(),
    {
        let mut count: usize = 0;
        let mut i: usize = 0;
        while i < self.slots.len()
            invariant
                i <= self.slots@.len(),
                count == occupied_count(self.slots@, i as int),
                count <= i,
            decreases self.slots.len() - i,
        {
            if self.slots[i].is_some() {
                count = count + 1;
            }
            i = i + 1;
        }
        count
    }
}

/// One successful allocation from `before` to `after`: the allocation
/// count rose by one and the new glyph's generation is that count.
pub open spec fn allocation_step(before: GlyphAtlas, after: GlyphAtlas, slot: AtlasSlot) -> bool {
    &&& after.allocations() == before.allocations() + 1
    &&& slot.generation == after.allocations()
}

/// Over any history of calls, each successful allocation's generation is
/// above every earlier one's (exactly one above the previous when nothing
/// came between), since the allocation count never falls.
pub proof fn law_allocation_generations_increase(
    a0: GlyphAtlas,
    a1: GlyphAtlas,
    first: AtlasSlot,
    a2: GlyphAtlas,
    a3: GlyphAtlas,
    second: AtlasSlot,
)
    requires
        allocation_step(a0, a1, first),
        a2.allocations() >= a1.allocations(),
        allocation_step(a2, a3, second),
    ensures
        second.generation > first.generation,
        a2.allocations() == a1.allocations() ==> second.generation == first.generation + 1,
{
}

/// Occupied cells never outnumber the cells of the atlas.
pub proof fn law_occupancy_within_capacity(s: Seq<Option<AtlasSlot>>, n: int)
    requires
        0 <= n <= s.len(),
    ensures
        occupied_count(s, n) <= n,
    decreases n,
{
    if n > 0 {
        law_occupancy_within_capacity(s, n - 1);
    }
}

/// Distinct ring positions have distinct cell origins, each on the
/// 64-texel grid: no two cells of an atlas overlap.
pub proof fn law_cells_do_not_overlap(
    i: int,
    j: int,
    gi: u32,
    wi: u16,
    hi: u16,
    gj: u32,
    wj: u16,
    hj: u16,
)
    requires
        0 <= i < MAX_ATLAS_SLOTS,
        0 <= j < MAX_ATLAS_SLOTS,
        i != j,
    ensures
        cell_at(i, gi, wi, hi).x != cell_at(j, gj, wj, hj).x || cell_at(i, gi, wi, hi).y != cell_at(
            j,
            gj,
            wj,
            hj,
        ).y,
        cell_at(i, gi, wi, hi).x % 64 == 0 && cell_at(i, gi, wi, hi).y % 64 == 0,
        cell_at(i, gi, wi, hi).x as int + 64 <= 256 * 64,
        cell_at(i, gi, wi, hi).y as int + 64 <= 256 * 64,
{
    assert(i == 256 * (i / 256) + i % 256);
    assert(j == 256 * (j / 256) + j % 256);
}

/// Two live glyphs of a well-formed atlas in different slots never share
/// texels: their cell origins differ.
pub proof fn law_live_glyphs_do_not_overlap(atlas: GlyphAtlas, i: int, j: int)
    requires
        atlas.wf(),
        0 <= i < atlas@.len(),
        0 <= j < atlas@.len(),
        i != j,
        atlas@[i] is Some,
        atlas@[j] is Some,
    ensures
        atlas@[i].unwrap().x != atlas@[j].unwrap().x || atlas@[i].unwrap().y != atlas@[j].unwrap().y,
{
    let a = atlas@[i].unwrap();
    let b = atlas@[j].unwrap();
    atlas.lemma_view_cells(i);
    atlas.lemma_view_cells(j);
    law_cells_do_not_overlap(i, j, a.generation, a.width, a.height, b.generation, b.width, b.height);
}

/// Writing a glyph whose generation no other cell holds leaves exactly one
/// cell of that generation.
proof fn lemma_fresh_generation_once(s: Seq<Option<AtlasSlot>>, index: int, slot: AtlasSlot, n: int)
    requires
        0 <= index < s.len(),
        0 <= n <= s.len(),
        forall|i: int| 0 <= i < s.len() ==> (#[trigger] s[i] matches Some(v) ==> v.generation
            < slot.generation),
    ensures
        generation_count(s.update(index, Some(slot)), slot.generation, n) == if index < n {
            1nat
        } else {
            0nat
        },
    decreases n,
{
    if n > 0 {
        lemma_fresh_generation_once(s, index, slot, n - 1);
        if n - 1 != index {
            assert(s.update(index, Some(slot))[n - 1] == s[n - 1]);
        }
    }
}

/// Emptying a generation's cells leaves none of it.
proof fn lemma_without_generation_count(s: Seq<Option<AtlasSlot>>, generation: u32, n: int)
    requires
        0 <= n <= s.len(),
    ensures
        generation_count(without_generation(s, generation), generation, n) == 0,
    decreases n,
{
    if n > 0 {
        lemma_without_generation_count(s, generation, n - 1);
    }
}

} // verus!
