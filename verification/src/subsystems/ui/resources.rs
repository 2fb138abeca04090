//! Bounded UI resource readiness and generation tracking.
use vstd::prelude::*;

use crate::subsystems::ui::budget::UiError;
use crate::subsystems::ui::id::{FontId, TextureId};

verus! {

#[derive(Clone, Copy, Debug, PartialEq, Eq, Structural)]
pub enum UiAssetState {
    Missing,
    Loading,
    Ready,
    Failed,
}

#[derive(Clone, Copy, Debug, PartialEq, Eq, Structural)]
pub struct UiTextureResource {
    pub id: TextureId,
    pub state: UiAssetState,
    pub generation: u32,
}

#[derive(Clone, Copy, Debug, PartialEq, Eq, Structural)]
pub struct UiFontResource {
    pub id: FontId,
    pub state: UiAssetState,
    pub generation: u32,
}

/// A resource's record: its state and generation (bumped on every change).
#[derive(Clone, Copy, Debug, PartialEq, Eq, Structural)]
pub struct ResourceRecord {
    pub state: UiAssetState,
    pub generation: u32,
}

/// Resource readiness by id: each id appears at most once, and a record is
/// created with generation 1 and bumped on every later change.
pub struct UiResourceTable {
    textures: Vec<UiTextureResource>,
    fonts: Vec<UiFontResource>,
    max_resources: usize,
}

pub open spec fn texture_ids_distinct(s: Seq<UiTextureResource>) -> bool {
    forall|i: int, j: int| 0 <= i < j < s.len() ==> s[i].id != s[j].id
}

pub open spec fn font_ids_distinct(s: Seq<UiFontResource>) -> bool {
    forall|i: int, j: int| 0 <= i < j < s.len() ==> s[i].id != s[j].id
}

/// The record of texture `id`, if registered.
pub open spec fn texture_record(s: Seq<UiTextureResource>, id: TextureId) -> Option<ResourceRecord> {
    if exists|i: int| 0 <= i < s.len() && s[i].id == id {
        let i = choose|i: int| 0 <= i < s.len() && s[i].id == id;
        Some(ResourceRecord { state: s[i].state, generation: s[i].generation })
    } else {
        None
    }
}

/// The record of font `id`, if registered.
pub open spec fn font_record(s: Seq<UiFontResource>, id: FontId) -> Option<ResourceRecord> {
    if exists|i: int| 0 <= i < s.len() && s[i].id == id {
        let i = choose|i: int| 0 <= i < s.len() && s[i].id == id;
        Some(ResourceRecord { state: s[i].state, generation: s[i].generation })
    } else {
        None
    }
}

/// `r` moved to `state` with its generation bumped.
pub open spec fn bumped(r: ResourceRecord, state: UiAssetState) -> ResourceRecord {
    ResourceRecord { state, generation: (r.generation + 1) as u32 }
}

/// What a change to `state` leaves of `r`: the state always moves; the
/// generation is bumped unless it is already at its maximum.
pub open spec fn restated(r: ResourceRecord, state: UiAssetState) -> ResourceRecord {
    if r.generation == u32::MAX {
        ResourceRecord { state, generation: r.generation }
    } else {
        bumped(r, state)
    }
}

fn find_texture(s: &Vec<UiTextureResource>, id: TextureId) -> (r: Option<usize>)
    requires
        texture_ids_distinct(s@),
    ensures
        r matches Some(i) ==> i < s@.len() && s@[i as int].id == id,
        r is None ==> forall|i: int| 0 <= i < s@.len() ==> s@[i].id != id,
{
    let mut k: usize = 0;
    while k < s.len()
        invariant
            k <= s@.len(),
            forall|i: int| 0 <= i < k ==> s@[i].id != id,
        decreases s.len() - k,
    {
        if s[k].id == id {
            return Some(k);
        }
        k = k + 1;
    }
    None
}

fn find_font(s: &Vec<UiFontResource>, id: FontId) -> (r: Option<usize>)
    requires
        font_ids_distinct(s@),
    ensures
        r matches Some(i) ==> i < s@.len() && s@[i as int].id == id,
        r is None ==> forall|i: int| 0 <= i < s@.len() ==> s@[i].id != id,
{
    let mut k: usize = 0;
    while k < s.len()
        invariant
            k <= s@.len(),
            forall|i: int| 0 <= i < k ==> s@[i].id != id,
        decreases s.len() - k,
    {
        if s[k].id == id {
            return Some(k);
        }
        k = k + 1;
    }
    None
}

proof fn lemma_texture_record_at(s: Seq<UiTextureResource>, i: int)
    requires
        texture_ids_distinct(s),
        0 <= i < s.len(),
    ensures
        texture_record(s, s[i].id) == Some(ResourceRecord { state: s[i].state, generation: s[i].generation }),
{
    let j = choose|j: int| 0 <= j < s.len() && s[j].id == s[i].id;
    if j != i {
        assert(s[j].id != s[i].id);
    }
}

proof fn lemma_font_record_at(s: Seq<UiFontResource>, i: int)
    requires
        font_ids_distinct(s),
        0 <= i < s.len(),
    ensures
        font_record(s, s[i].id) == Some(ResourceRecord { state: s[i].state, generation: s[i].generation }),
{
    let j = choose|j: int| 0 <= j < s.len() && s[j].id == s[i].id;
    if j != i {
        assert(s[j].id != s[i].id);
    }
}

/// After changing entry `i` only, other ids keep their records.
proof fn lemma_texture_update_distinct(s: Seq<UiTextureResource>, i: int, v: UiTextureResource)
    requires
        texture_ids_distinct(s),
        0 <= i < s.len(),
        v.id == s[i].id,
    ensures
        texture_ids_distinct(s.update(i, v)),
{
    let t = s.update(i, v);
    assert forall|a: int, b: int| 0 <= a < b < t.len() implies t[a].id != t[b].id by {
        if a != i && b != i {
            assert(t[a] == s[a] && t[b] == s[b]);
        } else if a == i {
            assert(t[b] == s[b]);
        } else {
            assert(t[a] == s[a]);
        }
    }
}

/// After changing entry `i` only, other ids keep their records.
proof fn lemma_texture_update_others(s: Seq<UiTextureResource>, i: int, v: UiTextureResource, other: TextureId)
    requires
        texture_ids_distinct(s),
        0 <= i < s.len(),
        v.id == s[i].id,
        other != s[i].id,
    ensures
        texture_record(s.update(i, v), other) == texture_record(s, other),
{
    let t = s.update(i, v);
    lemma_texture_update_distinct(s, i, v);
    if exists|k: int| 0 <= k < s.len() && s[k].id == other {
        let k = choose|k: int| 0 <= k < s.len() && s[k].id == other;
        assert(t[k] == s[k]);
        lemma_texture_record_at(s, k);
        lemma_texture_record_at(t, k);
    } else {
        assert forall|k: int| 0 <= k < t.len() implies t[k].id != other by {
            if k != i {
                assert(t[k] == s[k]);
            }
        }
    }
}

proof fn lemma_texture_push(s: Seq<UiTextureResource>, v: UiTextureResource, other: TextureId)
    requires
        texture_ids_distinct(s),
        forall|i: int| 0 <= i < s.len() ==> s[i].id != v.id,
    ensures
        texture_ids_distinct(s.push(v)),
        other != v.id ==> texture_record(s.push(v), other) == texture_record(s, other),
        texture_record(s.push(v), v.id) == Some(ResourceRecord { state: v.state, generation: v.generation }),
{
    let t = s.push(v);
    assert forall|a: int, b: int| 0 <= a < b < t.len() implies t[a].id != t[b].id by {
        if b < s.len() {
            assert(t[a] == s[a] && t[b] == s[b]);
        } else {
            assert(t[a] == s[a]);
        }
    }
    lemma_texture_record_at(t, s.len() as int);
    if other != v.id {
        if exists|k: int| 0 <= k < s.len() && s[k].id == other {
            let k = choose|k: int| 0 <= k < s.len() && s[k].id == other;
            assert(t[k] == s[k]);
            lemma_texture_record_at(s, k);
            lemma_texture_record_at(t, k);
        } else {
            assert forall|k: int| 0 <= k < t.len() implies t[k].id != other by {
                if k < s.len() {
                    assert(t[k] == s[k]);
                }
            }
        }
    }
}

/// Changing entry `i` of the fonts, keeping its id, keeps ids distinct.
proof fn lemma_font_update_distinct(s: Seq<UiFontResource>, i: int, v: UiFontResource)
    requires
        font_ids_distinct(s),
        0 <= i < s.len(),
        v.id == s[i].id,
    ensures
        font_ids_distinct(s.update(i, v)),
{
    let t = s.update(i, v);
    assert forall|a: int, b: int| 0 <= a < b < t.len() implies t[a].id != t[b].id by {
        if a != i && b != i {
            assert(t[a] == s[a] && t[b] == s[b]);
        } else if a == i {
            assert(t[b] == s[b]);
        } else {
            assert(t[a] == s[a]);
        }
    }
}

/// After changing font entry `i` only, other ids keep their records.
proof fn lemma_font_update_others(s: Seq<UiFontResource>, i: int, v: UiFontResource, other: FontId)
    requires
        font_ids_distinct(s),
        0 <= i < s.len(),
        v.id == s[i].id,
        other != s[i].id,
    ensures
        font_record(s.update(i, v), other) == font_record(s, other),
{
    let t = s.update(i, v);
    lemma_font_update_distinct(s, i, v);
    if exists|k: int| 0 <= k < s.len() && s[k].id == other {
        let k = choose|k: int| 0 <= k < s.len() && s[k].id == other;
        assert(t[k] == s[k]);
        lemma_font_record_at(s, k);
        lemma_font_record_at(t, k);
    } else {
        assert forall|k: int| 0 <= k < t.len() implies t[k].id != other by {
            if k != i {
                assert(t[k] == s[k]);
            }
        }
    }
}

proof fn lemma_font_push(s: Seq<UiFontResource>, v: UiFontResource, other: FontId)
    requires
        font_ids_distinct(s),
        forall|i: int| 0 <= i < s.len() ==> s[i].id != v.id,
    ensures
        font_ids_distinct(s.push(v)),
        other != v.id ==> font_record(s.push(v), other) == font_record(s, other),
        font_record(s.push(v), v.id) == Some(ResourceRecord { state: v.state, generation: v.generation }),
{
    let t = s.push(v);
    assert forall|a: int, b: int| 0 <= a < b < t.len() implies t[a].id != t[b].id by {
        if b < s.len() {
            assert(t[a] == s[a] && t[b] == s[b]);
        } else {
            assert(t[a] == s[a]);
        }
    }
    lemma_font_record_at(t, s.len() as int);
    if other != v.id {
        if exists|k: int| 0 <= k < s.len() && s[k].id == other {
            let k = choose|k: int| 0 <= k < s.len() && s[k].id == other;
            assert(t[k] == s[k]);
            lemma_font_record_at(s, k);
            lemma_font_record_at(t, k);
        } else {
            assert forall|k: int| 0 <= k < t.len() implies t[k].id != other by {
                if k < s.len() {
                    assert(t[k] == s[k]);
                }
            }
        }
    }
}

proof fn lemma_texture_absent(s: Seq<UiTextureResource>, id: TextureId)
    requires
        forall|i: int| 0 <= i < s.len() ==> s[i].id != id,
    ensures
        texture_record(s, id) is None,
{
}

proof fn lemma_font_absent(s: Seq<UiFontResource>, id: FontId)
    requires
        forall|i: int| 0 <= i < s.len() ==> s[i].id != id,
    ensures
        font_record(s, id) is None,
{
}

impl UiResourceTable {
    pub closed spec fn texture_of(&self, id: TextureId) -> Option<ResourceRecord> {
        texture_record(self.textures@, id)
    }

    pub closed spec fn font_of(&self, id: FontId) -> Option<ResourceRecord> {
        font_record(self.fonts@, id)
    }

    pub closed spec fn texture_count(&self) -> nat {
        self.textures@.len()
    }

    pub closed spec fn font_count(&self) -> nat {
        self.fonts@.len()
    }

    pub closed spec fn capacity(&self) -> nat {
        self.max_resources as nat
    }

    pub closed spec fn wf(&self) -> bool {
        texture_ids_distinct(self.textures@) && font_ids_distinct(self.fonts@)
    }

    /// An empty table holding at most `max_resources` textures and as many
    /// fonts.
    pub fn try_new(max_resources: usize) -> (r: Result<Self, UiError>)
        ensures
            r matches Ok(t) ==> t.wf() && t.texture_count() == 0 && t.font_count() == 0
                && t.capacity() == max_resources
                && (forall|id: TextureId| t.texture_of(id) is None)
                && (forall|id: FontId| t.font_of(id) is None),
            r matches Err(e) ==> e == UiError::AllocationFailed,
    {
        let mut textures: Vec<UiTextureResource> = Vec::new();
        let mut fonts: Vec<UiFontResource> = Vec::new();
        if textures.try_reserve(max_resources).is_err() {
            return Err(UiError::AllocationFailed);
        }
        if fonts.try_reserve(max_resources).is_err() {
            return Err(UiError::AllocationFailed);
        }
        Ok(UiResourceTable { textures, fonts, max_resources })
    }

    /// Moves texture entry `i` to `state` and bumps its generation; at the
    /// maximum generation the state still moves and `IndexOverflow` comes
    /// back.
    fn restate_texture(&mut self, i: usize, state: UiAssetState) -> (r: Result<u32, UiError>)
        requires
            old(self).wf(),
            i < old(self).textures@.len(),
        ensures
            final(self).wf(),
            final(self).capacity() == old(self).capacity(),
            final(self).texture_count() == old(self).texture_count(),
            final(self).fonts@ == old(self).fonts@,
            ({
                let id = old(self).textures@[i as int].id;
                let rec = old(self).texture_of(id).unwrap();
                &&& old(self).texture_of(id) is Some
                &&& final(self).texture_of(id) == Some(restated(rec, state))
                &&& forall|other: TextureId| other != id ==> final(self).texture_of(other) == old(self).texture_of(other)
                &&& if rec.generation == u32::MAX {
                    r == Err::<u32, UiError>(UiError::IndexOverflow)
                } else {
                    r == Ok::<u32, UiError>((rec.generation + 1) as u32)
                }
            }),
    {
        proof {
            lemma_texture_record_at(self.textures@, i as int);
        }
        let entry = self.textures[i];
        let overflow = entry.generation == u32::MAX;
        let generation = if overflow { entry.generation } else { entry.generation + 1 };
        let updated = UiTextureResource { id: entry.id, state, generation };
        proof {
            assert forall|other: TextureId| other != entry.id implies texture_record(self.textures@.update(i as int, updated), other) == texture_record(self.textures@, other) by {
                lemma_texture_update_others(self.textures@, i as int, updated, other);
            }
            lemma_texture_update_distinct(self.textures@, i as int, updated);
        }
        self.textures.set(i, updated);
        proof {
            lemma_texture_record_at(self.textures@, i as int);
        }
        if overflow {
            Err(UiError::IndexOverflow)
        } else {
            Ok(generation)
        }
    }

    /// Moves font entry `i` to `state` and bumps its generation; at the
    /// maximum generation the state still moves and `IndexOverflow` comes
    /// back.
    fn restate_font(&mut self, i: usize, state: UiAssetState) -> (r: Result<u32, UiError>)
        requires
            old(self).wf(),
            i < old(self).fonts@.len(),
        ensures
            final(self).wf(),
            final(self).capacity() == old(self).capacity(),
            final(self).font_count() == old(self).font_count(),
            final(self).textures@ == old(self).textures@,
            ({
                let id = old(self).fonts@[i as int].id;
                let rec = old(self).font_of(id).unwrap();
                &&& old(self).font_of(id) is Some
                &&& final(self).font_of(id) == Some(restated(rec, state))
                &&& forall|other: FontId| other != id ==> final(self).font_of(other) == old(self).font_of(other)
                &&& if rec.generation == u32::MAX {
                    r == Err::<u32, UiError>(UiError::IndexOverflow)
                } else {
                    r == Ok::<u32, UiError>((rec.generation + 1) as u32)
                }
            }),
    {
        proof {
            lemma_font_record_at(self.fonts@, i as int);
        }
        let entry = self.fonts[i];
        let overflow = entry.generation == u32::MAX;
        let generation = if overflow { entry.generation } else { entry.generation + 1 };
        let updated = UiFontResource { id: entry.id, state, generation };
        proof {
            assert forall|other: FontId| other != entry.id implies font_record(self.fonts@.update(i as int, updated), other) == font_record(self.fonts@, other) by {
                lemma_font_update_others(self.fonts@, i as int, updated, other);
            }
            lemma_font_update_distinct(self.fonts@, i as int, updated);
        }
        self.fonts.set(i, updated);
        proof {
            lemma_font_record_at(self.fonts@, i as int);
        }
        if overflow {
            Err(UiError::IndexOverflow)
        } else {
            Ok(generation)
        }
    }

    /// Records texture `id` in `state`: a known texture moves to `state`
    /// with its generation bumped (at the maximum generation the state moves
    /// and `IndexOverflow` comes back); a new one is added at generation 1
    /// when there is room.
    pub fn register_texture(&mut self, id: TextureId, state: UiAssetState) -> (r: Result<(), UiError>)
        requires
            old(self).wf(),
        ensures
            final(self).wf(),
            final(self).capacity() == old(self).capacity(),
            forall|f: FontId| final(self).font_of(f) == old(self).font_of(f),
            forall|other: TextureId| other != id ==> final(self).texture_of(other) == old(self).texture_of(other),
            old(self).texture_of(id) matches Some(rec) ==> {
                &&& final(self).texture_of(id) == Some(restated(rec, state))
                &&& if rec.generation == u32::MAX {
                    r == Err::<(), UiError>(UiError::IndexOverflow)
                } else {
                    r is Ok
                }
            },
            old(self).texture_of(id) is None ==> if old(self).texture_count() >= old(self).capacity() {
                r == Err::<(), UiError>(UiError::CapacityExceeded) && final(self).texture_of(id) is None
            } else {
                r is Ok && final(self).texture_of(id) == Some(ResourceRecord { state, generation: 1 })
            },
    {
        match find_texture(&self.textures, id) {
            Some(i) => {
                match self.restate_texture(i, state) {
                    Ok(_) => Ok(()),
                    Err(e) => Err(e),
                }
            },
            None => {
                proof {
                    lemma_texture_absent(self.textures@, id);
                }
                if self.textures.len() >= self.max_resources {
                    return Err(UiError::CapacityExceeded);
                }
                let added = UiTextureResource { id, state, generation: 1 };
                proof {
                    assert forall|other: TextureId| other != id implies texture_record(self.textures@.push(added), other) == texture_record(self.textures@, other) by {
                        lemma_texture_push(self.textures@, added, other);
                    }
                    lemma_texture_push(self.textures@, added, id);
                }
                self.textures.push(added);
                Ok(())
            },
        }
    }

    /// Moves a known texture to `state`, bumping its generation; an unknown
    /// one is `ResourceUnavailable` and nothing changes.
    pub fn set_texture_state(&mut self, id: TextureId, state: UiAssetState) -> (r: Result<(), UiError>)
        requires
            old(self).wf(),
        ensures
            final(self).wf(),
            final(self).capacity() == old(self).capacity(),
            forall|f: FontId| final(self).font_of(f) == old(self).font_of(f),
            forall|other: TextureId| other != id ==> final(self).texture_of(other) == old(self).texture_of(other),
            match old(self).texture_of(id) {
                Some(rec) => {
                    &&& final(self).texture_of(id) == Some(restated(rec, state))
                    &&& if rec.generation == u32::MAX {
                        r == Err::<(), UiError>(UiError::IndexOverflow)
                    } else {
                        r is Ok
                    }
                },
                None => r == Err::<(), UiError>(UiError::ResourceUnavailable) && final(self).texture_of(id) is None,
            },
    {
        match find_texture(&self.textures, id) {
            Some(i) => {
                match self.restate_texture(i, state) {
                    Ok(_) => Ok(()),
                    Err(e) => Err(e),
                }
            },
            None => {
                proof {
                    lemma_texture_absent(self.textures@, id);
                }
                Err(UiError::ResourceUnavailable)
            },
        }
    }

    /// The texture `id`, if registered.
    pub fn texture(&self, id: TextureId) -> (r: Option<UiTextureResource>)
        requires
            self.wf(),
        ensures
            match self.texture_of(id) {
                Some(rec) => r == Some(UiTextureResource { id, state: rec.state, generation: rec.generation }),
                None => r is None,
            },
    {
        match find_texture(&self.textures, id) {
            Some(i) => {
                proof {
                    lemma_texture_record_at(self.textures@, i as int);
                }
                Some(self.textures[i])
            },
            None => {
                proof {
                    lemma_texture_absent(self.textures@, id);
                }
                None
            },
        }
    }

    /// Whether texture `id` is registered and `Ready`.
    pub fn texture_ready(&self, id: TextureId) -> (r: bool)
        requires
            self.wf(),
        ensures
            r == (self.texture_of(id) matches Some(rec) && rec.state == UiAssetState::Ready),
    {
        match self.texture(id) {
            Some(t) => t.state == UiAssetState::Ready,
            None => false,
        }
    }

    /// Marks a known texture `Missing` and returns its new generation; an
    /// unknown one is `ResourceUnavailable` and nothing changes.
    pub fn evict_texture(&mut self, id: TextureId) -> (r: Result<u32, UiError>)
        requires
            old(self).wf(),
        ensures
            final(self).wf(),
            final(self).capacity() == old(self).capacity(),
            forall|f: FontId| final(self).font_of(f) == old(self).font_of(f),
            forall|other: TextureId| other != id ==> final(self).texture_of(other) == old(self).texture_of(other),
            match old(self).texture_of(id) {
                Some(rec) => {
                    &&& final(self).texture_of(id) == Some(restated(rec, UiAssetState::Missing))
                    &&& if rec.generation == u32::MAX {
                        r == Err::<u32, UiError>(UiError::IndexOverflow)
                    } else {
                        r == Ok::<u32, UiError>((rec.generation + 1) as u32)
                    }
                },
                None => r == Err::<u32, UiError>(UiError::ResourceUnavailable) && final(self).texture_of(id) is None,
            },
    {
        match find_texture(&self.textures, id) {
            Some(i) => self.restate_texture(i, UiAssetState::Missing),
            None => {
                proof {
                    lemma_texture_absent(self.textures@, id);
                }
                Err(UiError::ResourceUnavailable)
            },
        }
    }

    /// Records font `id` in `state`: a known font moves to `state` with its
    /// generation bumped (at the maximum generation the state moves and
    /// `IndexOverflow` comes back); a new one is added at generation 1 when
    /// there is room.
    pub fn register_font(&mut self, id: FontId, state: UiAssetState) -> (r: Result<(), UiError>)
        requires
            old(self).wf(),
        ensures
            final(self).wf(),
            final(self).capacity() == old(self).capacity(),
            forall|t: TextureId| final(self).texture_of(t) == old(self).texture_of(t),
            forall|other: FontId| other != id ==> final(self).font_of(other) == old(self).font_of(other),
            old(self).font_of(id) matches Some(rec) ==> {
                &&& final(self).font_of(id) == Some(restated(rec, state))
                &&& if rec.generation == u32::MAX {
                    r == Err::<(), UiError>(UiError::IndexOverflow)
                } else {
                    r is Ok
                }
            },
            old(self).font_of(id) is None ==> if old(self).font_count() >= old(self).capacity() {
                r == Err::<(), UiError>(UiError::CapacityExceeded) && final(self).font_of(id) is None
            } else {
                r is Ok && final(self).font_of(id) == Some(ResourceRecord { state, generation: 1 })
            },
    {
        match find_font(&self.fonts, id) {
            Some(i) => {
                match self.restate_font(i, state) {
                    Ok(_) => Ok(()),
                    Err(e) => Err(e),
                }
            },
            None => {
                proof {
                    lemma_font_absent(self.fonts@, id);
                }
                if self.fonts.len() >= self.max_resources {
                    return Err(UiError::CapacityExceeded);
                }
                let added = UiFontResource { id, state, generation: 1 };
                proof {
                    assert forall|other: FontId| other != id implies font_record(self.fonts@.push(added), other) == font_record(self.fonts@, other) by {
                        lemma_font_push(self.fonts@, added, other);
                    }
                    lemma_font_push(self.fonts@, added, id);
                }
                self.fonts.push(added);
                Ok(())
            },
        }
    }

    /// The font `id`, if registered.
    pub fn font(&self, id: FontId) -> (r: Option<UiFontResource>)
        requires
            self.wf(),
        ensures
            match self.font_of(id) {
                Some(rec) => r == Some(UiFontResource { id, state: rec.state, generation: rec.generation }),
                None => r is None,
            },
    {
        match find_font(&self.fonts, id) {
            Some(i) => {
                proof {
                    lemma_font_record_at(self.fonts@, i as int);
                }
                Some(self.fonts[i])
            },
            None => {
                proof {
                    lemma_font_absent(self.fonts@, id);
                }
                None
            },
        }
    }

    /// Moves a known font to `state`, bumping its generation; an unknown one
    /// is `ResourceUnavailable` and nothing changes.
    pub fn set_font_state(&mut self, id: FontId, state: UiAssetState) -> (r: Result<(), UiError>)
        requires
            old(self).wf(),
        ensures
            final(self).wf(),
            final(self).capacity() == old(self).capacity(),
            forall|t: TextureId| final(self).texture_of(t) == old(self).texture_of(t),
            forall|other: FontId| other != id ==> final(self).font_of(other) == old(self).font_of(other),
            match old(self).font_of(id) {
                Some(rec) => {
                    &&& final(self).font_of(id) == Some(restated(rec, state))
                    &&& if rec.generation == u32::MAX {
                        r == Err::<(), UiError>(UiError::IndexOverflow)
                    } else {
                        r is Ok
                    }
                },
                None => r == Err::<(), UiError>(UiError::ResourceUnavailable) && final(self).font_of(id) is None,
            },
    {
        match find_font(&self.fonts, id) {
            Some(i) => {
                match self.restate_font(i, state) {
                    Ok(_) => Ok(()),
                    Err(e) => Err(e),
                }
            },
            None => {
                proof {
                    lemma_font_absent(self.fonts@, id);
                }
                Err(UiError::ResourceUnavailable)
            },
        }
    }

    /// Whether font `id` is registered and `Ready`.
    pub fn font_ready(&self, id: FontId) -> (r: bool)
        requires
            self.wf(),
        ensures
            r == (self.font_of(id) matches Some(rec) && rec.state == UiAssetState::Ready),
    {
        match self.font(id) {
            Some(f) => f.state == UiAssetState::Ready,
            None => false,
        }
    }

    /// Marks a known font `Missing` and returns its new generation; an
    /// unknown one is `ResourceUnavailable` and nothing changes.
    pub fn evict_font(&mut self, id: FontId) -> (r: Result<u32, UiError>)
        requires
            old(self).wf(),
        ensures
            final(self).wf(),
            final(self).capacity() == old(self).capacity(),
            forall|t: TextureId| final(self).texture_of(t) == old(self).texture_of(t),
            forall|other: FontId| other != id ==> final(self).font_of(other) == old(self).font_of(other),
            match old(self).font_of(id) {
                Some(rec) => {
                    &&& final(self).font_of(id) == Some(restated(rec, UiAssetState::Missing))
                    &&& if rec.generation == u32::MAX {
                        r == Err::<u32, UiError>(UiError::IndexOverflow)
                    } else {
                        r == Ok::<u32, UiError>((rec.generation + 1) as u32)
                    }
                },
                None => r == Err::<u32, UiError>(UiError::ResourceUnavailable) && final(self).font_of(id) is None,
            },
    {
        match find_font(&self.fonts, id) {
            Some(i) => self.restate_font(i, UiAssetState::Missing),
            None => {
                proof {
                    lemma_font_absent(self.fonts@, id);
                }
                Err(UiError::ResourceUnavailable)
            },
        }
    }
}

} // verus!
