//! Stable, generation-checked identifiers used by the retained UI world.
use vstd::prelude::*;

verus! {

/// A retained UI node. A slot index and the generation of the value in that slot.
#[derive(Clone, Copy, Debug, PartialEq, Eq, Hash, PartialOrd, Ord, Structural)]
pub struct UiNodeId {
    index: u32,
    generation: u32,
}

impl UiNodeId {
    pub closed spec fn spec_index(self) -> u32 {
        self.index
    }

    pub closed spec fn spec_generation(self) -> u32 {
        self.generation
    }

    /// The handle of slot `index` at `generation`.
    pub closed spec fn spec_new(index: u32, generation: u32) -> Self {
        UiNodeId { index, generation }
    }

    pub broadcast proof fn lemma_spec_new(index: u32, generation: u32)
        ensures
            #[trigger] Self::spec_new(index, generation).spec_index() == index,
            Self::spec_new(index, generation).spec_generation() == generation,
    {
    }

    /// A handle is determined by its index and generation.
    pub broadcast proof fn lemma_rebuild(id: Self)
        ensures
            #[trigger] Self::spec_new(id.spec_index(), id.spec_generation()) == id,
    {
    }

    pub fn new(index: u32, generation: u32) -> (r: Self)
        ensures
            r.spec_index() == index,
            r.spec_generation() == generation,
            r == Self::spec_new(index, generation),
    {
        UiNodeId { index, generation }
    }

    pub fn index(self) -> (r: u32)
        ensures
            r == self.spec_index(),
    {
        self.index
    }

    pub fn generation(self) -> (r: u32)
        ensures
            r == self.spec_generation(),
    {
        self.generation
    }

    /// Two handles are the same exactly when index and generation agree.
    pub proof fn lemma_eq(self, other: Self)
        ensures
            (self == other) <==> (self.spec_index() == other.spec_index() && self.spec_generation()
                == other.spec_generation()),
    {
    }
}

/// A shared style. A slot index and the generation of the value in that slot.
#[derive(Clone, Copy, Debug, PartialEq, Eq, Hash, PartialOrd, Ord, Structural)]
pub struct StyleId {
    index: u32,
    generation: u32,
}

impl StyleId {
    pub closed spec fn spec_index(self) -> u32 {
        self.index
    }

    pub closed spec fn spec_generation(self) -> u32 {
        self.generation
    }

    pub fn new(index: u32, generation: u32) -> (r: Self)
        ensures
            r.spec_index() == index,
            r.spec_generation() == generation,
    {
        StyleId { index, generation }
    }

    pub fn index(self) -> (r: u32)
        ensures
            r == self.spec_index(),
    {
        self.index
    }

    pub fn generation(self) -> (r: u32)
        ensures
            r == self.spec_generation(),
    {
        self.generation
    }

    /// Two handles are the same exactly when index and generation agree.
    pub proof fn lemma_eq(self, other: Self)
        ensures
            (self == other) <==> (self.spec_index() == other.spec_index() && self.spec_generation()
                == other.spec_generation()),
    {
    }
}

/// A texture asset. A slot index and the generation of the value in that slot.
#[derive(Clone, Copy, Debug, PartialEq, Eq, Hash, PartialOrd, Ord, Structural)]
pub struct TextureId {
    index: u32,
    generation: u32,
}

impl TextureId {
    pub closed spec fn spec_index(self) -> u32 {
        self.index
    }

    pub closed spec fn spec_generation(self) -> u32 {
        self.generation
    }

    /// The handle of slot `index` at `generation`.
    pub closed spec fn spec_new(index: u32, generation: u32) -> Self {
        TextureId { index, generation }
    }

    pub fn new(index: u32, generation: u32) -> (r: Self)
        ensures
            r.spec_index() == index,
            r.spec_generation() == generation,
            r == Self::spec_new(index, generation),
    {
        TextureId { index, generation }
    }

    pub fn index(self) -> (r: u32)
        ensures
            r == self.spec_index(),
    {
        self.index
    }

    pub fn generation(self) -> (r: u32)
        ensures
            r == self.spec_generation(),
    {
        self.generation
    }

    /// Two handles are the same exactly when index and generation agree.
    pub proof fn lemma_eq(self, other: Self)
        ensures
            (self == other) <==> (self.spec_index() == other.spec_index() && self.spec_generation()
                == other.spec_generation()),
    {
    }
}

/// A font asset. A slot index and the generation of the value in that slot.
#[derive(Clone, Copy, Debug, PartialEq, Eq, Hash, PartialOrd, Ord, Structural)]
pub struct FontId {
    index: u32,
    generation: u32,
}

impl FontId {
    pub closed spec fn spec_index(self) -> u32 {
        self.index
    }

    pub closed spec fn spec_generation(self) -> u32 {
        self.generation
    }

    /// The handle of slot `index` at `generation`.
    pub closed spec fn spec_new(index: u32, generation: u32) -> Self {
        FontId { index, generation }
    }

    pub fn new(index: u32, generation: u32) -> (r: Self)
        ensures
            r.spec_index() == index,
            r.spec_generation() == generation,
            r == Self::spec_new(index, generation),
    {
        FontId { index, generation }
    }

    pub fn index(self) -> (r: u32)
        ensures
            r == self.spec_index(),
    {
        self.index
    }

    pub fn generation(self) -> (r: u32)
        ensures
            r == self.spec_generation(),
    {
        self.generation
    }

    /// Two handles are the same exactly when index and generation agree.
    pub proof fn lemma_eq(self, other: Self)
        ensures
            (self == other) <==> (self.spec_index() == other.spec_index() && self.spec_generation()
                == other.spec_generation()),
    {
    }
}

} // verus!
