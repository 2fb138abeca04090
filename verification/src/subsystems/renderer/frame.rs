//! The renderer's frame pipeline over plain values: the bounded render world
//! copied out of the simulation, the deterministic CPU manifest that sorts
//! and batches it, the GPU preparation that validates and encodes it, and the
//! headless backend that accepts it.
//!
//! Transform and bounds values are carried as the IEEE-754 bit patterns of
//! the original `f32` values; nothing here inspects them, they are only
//! copied and encoded.
use vstd::prelude::*;

use vstd::endian::{endianness, Endian};

verus! {

/// Generation-checked handle of a simulation entity.
#[derive(Clone, Copy, Debug, PartialEq, Eq, Hash, Structural)]
pub struct Entity {
    pub index: u32,
    pub generation: u32,
}

impl Entity {
    pub fn new(index: u32, generation: u32) -> (r: Self)
        ensures
            r.index == index,
            r.generation == generation,
    {
        Entity { index, generation }
    }
}

/// One drawable copied out of the simulation for a frame.
#[derive(Clone, Copy, Debug, PartialEq, Eq)]
pub struct RenderInstance {
    pub entity: Entity,
    /// Row-major 3x4 transform, as `f32` bit patterns.
    pub transform: [u32; 12],
    /// Bounding sphere or box, as `f32` bit patterns.
    pub bounds: [u32; 4],
    pub mesh_id: u32,
    pub material_id: u32,
}

#[derive(Clone, Copy, Debug, PartialEq, Eq)]
pub struct RenderTransform {
    pub matrix: [u32; 12],
    pub bounds: [u32; 4],
}

#[derive(Clone, Copy, Debug, PartialEq, Eq, Structural)]
pub struct RenderMaterial {
    pub mesh_id: u32,
    pub material_id: u32,
}

#[derive(Clone, Copy, Debug, PartialEq, Eq, Structural)]
pub enum RenderWorldError {
    CapacityExceeded,
    AllocationFailed,
}

#[derive(Clone, Copy, Debug, Default, PartialEq, Eq, Structural)]
pub struct ExtractionStats {
    pub considered: usize,
    pub extracted: usize,
    pub rejected: usize,
}

#[derive(Clone, Copy, Debug, PartialEq, Eq, Structural)]
pub struct DrawBatch {
    pub mesh_id: u32,
    pub material_id: u32,
    pub first_instance: u32,
    pub instance_count: u32,
}

#[derive(Clone, Copy, Debug, PartialEq, Eq, Structural)]
pub enum RenderManifestError {
    CapacityExceeded,
    AllocationFailed,
    IndexOverflow,
}

#[derive(Clone, Copy, Debug, PartialEq, Eq, Structural)]
pub enum GpuPreparationError {
    CapacityExceeded,
    AllocationFailed,
    IndexOverflow,
    InvalidRange,
    MissingGeometry,
    OutputTooSmall,
    InvalidGeometry,
    InvalidWorkgroupSize,
}

#[derive(Clone, Copy, Debug, PartialEq, Eq, Structural)]
pub enum RenderSubmitError {
    InvalidPreparation,
    DeviceLost,
    Unsupported,
    OutOfDate,
}

#[derive(Clone, Copy, Debug, Default, PartialEq, Eq, Structural)]
pub struct RenderSubmissionStats {
    pub submitted_frames: u64,
    pub submitted_instances: u64,
    pub submitted_commands: u64,
}

#[derive(Clone, Copy, Debug, PartialEq, Eq, Structural)]
pub struct IndirectDrawCommand {
    pub mesh_id: u32,
    pub material_id: u32,
    pub first_instance: u32,
    pub instance_count: u32,
}

/// Geometry metadata required to translate a logical mesh batch into the
/// Vulkan `VkDrawIndexedIndirectCommand` layout. Material identity remains
/// in the instance stream; it is not part of Vulkan's indirect command.
#[derive(Clone, Copy, Debug, PartialEq, Eq, Structural)]
pub struct IndexedGeometry {
    pub mesh_id: u32,
    pub index_count: u32,
    pub first_index: u32,
    pub vertex_offset: i32,
}

/// The five fields of `VkDrawIndexedIndirectCommand`, in wire order.
#[derive(Clone, Copy, Debug, Default, PartialEq, Eq, Structural)]
pub struct VulkanIndexedIndirectCommand {
    pub index_count: u32,
    pub instance_count: u32,
    pub first_index: u32,
    pub vertex_offset: i32,
    pub first_instance: u32,
}

/// Bytes of one encoded `VkDrawIndexedIndirectCommand`: five 4-byte fields.
pub const VULKAN_INDEXED_INDIRECT_COMMAND_SIZE: usize = 20;

/// Stable host-to-device instance record: 12 transform words, 4 bounds
/// words, then entity index, entity generation, mesh and material.
#[derive(Clone, Copy, Debug, Default, PartialEq, Eq)]
pub struct GpuInstanceRecord {
    pub transform: [u32; 12],
    pub bounds: [u32; 4],
    pub entity_index: u32,
    pub entity_generation: u32,
    pub mesh_id: u32,
    pub material_id: u32,
}

/// Bytes of one encoded instance record: twenty 4-byte words.
pub const GPU_INSTANCE_RECORD_SIZE: usize = 80;

#[derive(Clone, Copy, Debug, Default, PartialEq, Eq, Structural)]
pub struct GpuFrameCommandPlan {
    pub instance_count: u32,
    pub draw_count: u32,
    pub instance_upload_bytes: usize,
    pub indirect_upload_bytes: usize,
    pub cull_workgroups: u32,
}

#[derive(Clone, Copy, Debug, PartialEq, Eq, Structural)]
pub enum GpuUploadError {
    Preparation(GpuPreparationError),
    AllocationFailed,
}

// ---------------------------------------------------------------------------
// Render world
// ---------------------------------------------------------------------------

/// Frame-owned, bounded data copied out of the simulation world for
/// rendering. It never holds references into component storage.
pub struct RenderWorld {
    instances: Vec<RenderInstance>,
    max_instances: usize,
}

impl View for RenderWorld {
    type V = Seq<RenderInstance>;

    closed spec fn view(&self) -> Seq<RenderInstance> {
        self.instances@
    }
}

impl RenderWorld {
    pub closed spec fn capacity(&self) -> nat {
        self.max_instances as nat
    }

    /// The world holds no more instances than its capacity.
    pub closed spec fn wf(&self) -> bool {
        self.instances@.len() <= self.max_instances
    }

    pub fn try_with_capacity(max_instances: usize) -> (r: Result<Self, RenderWorldError>)
        ensures
            r matches Ok(w) ==> w.wf() && w@ == Seq::<RenderInstance>::empty() && w.capacity()
                == max_instances,
            r matches Err(e) ==> e == RenderWorldError::AllocationFailed,
    {
        let mut instances: Vec<RenderInstance> = Vec::new();
        if instances.try_reserve(max_instances).is_err() {
            return Err(RenderWorldError::AllocationFailed);
        }
        Ok(RenderWorld { instances, max_instances })
    }

    pub fn with_capacity(max_instances: usize) -> (r: Self)
        ensures
            r.wf(),
            r@ == Seq::<RenderInstance>::empty(),
            r.capacity() == max_instances,
    {
        RenderWorld { instances: Vec::with_capacity(max_instances), max_instances }
    }

    pub fn clear(&mut self)
        ensures
            final(self).wf(),
            final(self)@ == Seq::<RenderInstance>::empty(),
            final(self).capacity() == old(self).capacity(),
    {
        self.instances.clear();
    }

    pub fn max_instances(&self) -> (r: usize)
        ensures
            r == self.capacity(),
    {
        self.max_instances
    }

    pub fn instances(&self) -> (r: &[RenderInstance])
        ensures
            r@ == self@,
    {
        self.instances.as_slice()
    }

    /// Appends one instance; refused when the world is full.
    pub fn try_push(&mut self, instance: RenderInstance) -> (r: Result<(), RenderWorldError>)
        requires
            old(self).wf(),
        ensures
            final(self).wf(),
            final(self).capacity() == old(self).capacity(),
            old(self)@.len() >= old(self).capacity() <==> r == Err::<(), RenderWorldError>(
                RenderWorldError::CapacityExceeded,
            ),
            r is Ok ==> final(self)@ == old(self)@.push(instance),
            r is Err ==> final(self)@ == old(self)@,
            r matches Err(e) ==> e == RenderWorldError::CapacityExceeded || e
                == RenderWorldError::AllocationFailed,
            r matches Err(RenderWorldError::AllocationFailed) ==> old(self)@.len() < old(self).capacity(),
    {
        if self.instances.len() >= self.max_instances {
            return Err(RenderWorldError::CapacityExceeded);
        }
        if self.instances.try_reserve(1).is_err() {
            return Err(RenderWorldError::AllocationFailed);
        }
        self.instances.push(instance);
        Ok(())
    }

    /// Refills the world from one projection per simulation entity, in
    /// entity order (`None`: the entity has nothing to draw). Stops at the
    /// first instance that does not fit and reports why.
    pub fn extract_with(&mut self, projections: &[Option<RenderInstance>]) -> (r: Result<
        ExtractionStats,
        RenderWorldError,
    >)
        requires
            old(self).wf(),
        ensures
            final(self).wf(),
            final(self).capacity() == old(self).capacity(),
            r matches Ok(stats) ==> {
                &&& final(self)@ == drawables(projections@)
                &&& stats.considered == projections@.len()
                &&& stats.extracted == drawables(projections@).len()
                &&& stats.rejected == 0
            },
            drawables(projections@).len() > old(self).capacity() ==> r is Err,
            r matches Err(e) ==> {
                &&& e == RenderWorldError::CapacityExceeded ==> final(self)@.len()
                    == old(self).capacity() && final(self)@ == drawables(projections@).take(
                    final(self)@.len() as int,
                ) && drawables(projections@).len() > old(self).capacity()
                &&& e == RenderWorldError::AllocationFailed ==> final(self)@ == drawables(
                    projections@,
                ).take(final(self)@.len() as int) && final(self)@.len() < old(self).capacity()
            },
    {
        self.instances.clear();
        let mut considered: usize = 0;
        let mut extracted: usize = 0;
        let mut i: usize = 0;
        while i < projections.len()
            invariant
                i <= projections@.len(),
                self.wf(),
                self.capacity() == old(self).capacity(),
                considered == i,
                extracted == self@.len(),
                self@ == drawables(projections@.take(i as int)),
            decreases projections.len() - i,
        {
            proof {
                lemma_drawables_step(projections@, i as int);
            }
            considered = considered + 1;
            if let Some(instance) = projections[i] {
                match self.try_push(instance) {
                    Ok(()) => {
                        extracted = extracted + 1;
                    },
                    Err(e) => {
                        proof {
                            lemma_drawables_prefix(projections@, i as int + 1);
                            assert(drawables(projections@.take(i as int)) =~= drawables(
                                projections@,
                            ).take(self@.len() as int));
                        }
                        return Err(e);
                    },
                }
            }
            i = i + 1;
        }
        proof {
            assert(projections@.take(projections@.len() as int) =~= projections@);
        }
        Ok(ExtractionStats { considered, extracted, rejected: 0 })
    }

    /// Extracts entities that carry both render components: `components`
    /// holds, per simulation entity in order, the entity and its transform
    /// and material when present.
    pub fn extract_typed(
        &mut self,
        components: &[(Entity, Option<RenderTransform>, Option<RenderMaterial>)],
    ) -> (r: Result<ExtractionStats, RenderWorldError>)
        requires
            old(self).wf(),
        ensures
            final(self).wf(),
            final(self).capacity() == old(self).capacity(),
            r matches Ok(stats) ==> final(self)@ == drawables(typed_projections(components@))
                && stats.considered == components@.len() && stats.rejected == 0
                && stats.extracted == final(self)@.len(),
            drawables(typed_projections(components@)).len() > old(self).capacity() ==> r is Err,
            r matches Err(e) ==> {
                &&& e == RenderWorldError::CapacityExceeded ==> final(self)@.len() == old(self).capacity()
                    && final(self)@ == drawables(typed_projections(components@)).take(
                    final(self)@.len() as int,
                ) && drawables(typed_projections(components@)).len() > old(self).capacity()
                &&& e == RenderWorldError::AllocationFailed ==> final(self)@ == drawables(
                    typed_projections(components@),
                ).take(final(self)@.len() as int) && final(self)@.len() < old(self).capacity()
            },
    {
        let mut projections: Vec<Option<RenderInstance>> = Vec::new();
        let mut i: usize = 0;
        while i < components.len()
            invariant
                i <= components@.len(),
                projections@ == typed_projections(components@).take(i as int),
            decreases components.len() - i,
        {
            let (entity, transform, material) = components[i];
            let projected = match (transform, material) {
                (Some(t), Some(m)) => Some(
                    RenderInstance {
                        entity,
                        transform: t.matrix,
                        bounds: t.bounds,
                        mesh_id: m.mesh_id,
                        material_id: m.material_id,
                    },
                ),
                _ => None,
            };
            projections.push(projected);
            proof {
                assert(typed_projections(components@).take(i as int + 1) =~= typed_projections(
                    components@,
                ).take(i as int).push(projected));
            }
            i = i + 1;
        }
        proof {
            assert(typed_projections(components@).take(components@.len() as int)
                =~= typed_projections(components@));
        }
        self.extract_with(projections.as_slice())
    }
}

/// The instance an entity projects to when it has both render components.
pub open spec fn typed_projection(
    c: (Entity, Option<RenderTransform>, Option<RenderMaterial>),
) -> Option<RenderInstance> {
    match (c.1, c.2) {
        (Some(t), Some(m)) => Some(
            RenderInstance {
                entity: c.0,
                transform: t.matrix,
                bounds: t.bounds,
                mesh_id: m.mesh_id,
                material_id: m.material_id,
            },
        ),
        _ => None,
    }
}

pub open spec fn typed_projections(
    components: Seq<(Entity, Option<RenderTransform>, Option<RenderMaterial>)>,
) -> Seq<Option<RenderInstance>> {
    components.map_values(|c: (Entity, Option<RenderTransform>, Option<RenderMaterial>)| typed_projection(c))
}

/// The projected instances, in entity order, skipping entities with
/// nothing to draw.
pub open spec fn drawables(projections: Seq<Option<RenderInstance>>) -> Seq<RenderInstance>
    decreases projections.len(),
{
    if projections.len() == 0 {
        Seq::empty()
    } else {
        let rest = drawables(projections.drop_last());
        match projections.last() {
            Some(instance) => rest.push(instance),
            None => rest,
        }
    }
}

proof fn lemma_drawables_step(projections: Seq<Option<RenderInstance>>, i: int)
    requires
        0 <= i < projections.len(),
    ensures
        drawables(projections.take(i + 1)) == match projections[i] {
            Some(instance) => drawables(projections.take(i)).push(instance),
            None => drawables(projections.take(i)),
        },
{
    assert(projections.take(i + 1).drop_last() =~= projections.take(i));
}

/// Drawables of a prefix are a prefix of the drawables.
proof fn lemma_drawables_prefix(projections: Seq<Option<RenderInstance>>, n: int)
    requires
        0 <= n <= projections.len(),
    ensures
        drawables(projections.take(n)).len() <= drawables(projections).len(),
        drawables(projections.take(n)) =~= drawables(projections).take(
            drawables(projections.take(n)).len() as int,
        ),
    decreases projections.len() - n,
{
    if n < projections.len() {
        lemma_drawables_prefix(projections, n + 1);
        lemma_drawables_step(projections, n);
    } else {
        assert(projections.take(n) =~= projections);
    }
}

// ---------------------------------------------------------------------------
// CPU manifest
// ---------------------------------------------------------------------------

/// Draw order: by mesh, then material, then entity index, then entity
/// generation.
pub open spec fn draw_order_le(a: RenderInstance, b: RenderInstance) -> bool {
    a.mesh_id < b.mesh_id || (a.mesh_id == b.mesh_id && (a.material_id < b.material_id || (
    a.material_id == b.material_id && (a.entity.index < b.entity.index || (a.entity.index
        == b.entity.index && a.entity.generation <= b.entity.generation)))))
}

pub open spec fn sorted_for_draw(s: Seq<RenderInstance>) -> bool {
    forall|i: int, j: int| 0 <= i < j < s.len() ==> draw_order_le(#[trigger] s[i], #[trigger] s[j])
}

/// Two instances are drawn by the same indirect command.
pub open spec fn same_draw(a: RenderInstance, b: RenderInstance) -> bool {
    a.mesh_id == b.mesh_id && a.material_id == b.material_id
}

pub open spec fn batch_end(b: DrawBatch) -> int {
    b.first_instance + b.instance_count
}

/// `batches` split the first `n` instances into maximal runs of
/// consecutive instances with the same mesh and material, in order.
pub open spec fn batches_cover(s: Seq<RenderInstance>, batches: Seq<DrawBatch>, n: int) -> bool {
    &&& batches.len() == 0 <==> n == 0
    &&& batches.len() > 0 ==> batches[0].first_instance == 0 && batch_end(batches.last()) == n
    &&& forall|k: int| 0 <= k < batches.len() ==> (#[trigger] batches[k]).instance_count > 0
    &&& forall|k: int|
        0 <= k < batches.len() - 1 ==> batch_end(#[trigger] batches[k]) == batches[k
            + 1].first_instance
    &&& forall|k: int, i: int|
        0 <= k < batches.len() && batches[k].first_instance <= i < batch_end(batches[k])
            ==> (#[trigger] s[i]).mesh_id == (#[trigger] batches[k]).mesh_id && s[i].material_id
            == batches[k].material_id
    &&& forall|k: int|
        0 <= k < batches.len() - 1 ==> !((#[trigger] batches[k]).mesh_id == batches[k
            + 1].mesh_id && batches[k].material_id == batches[k + 1].material_id)
}

/// A run of same-draw instances starts at `i`.
pub open spec fn starts_run(s: Seq<RenderInstance>, i: int) -> bool {
    i == 0 || !same_draw(s[i - 1], s[i])
}

/// Number of same-draw runs among the first `n` instances.
pub open spec fn run_count(s: Seq<RenderInstance>, n: int) -> nat
    decreases n,
{
    if n <= 0 {
        0
    } else {
        run_count(s, n - 1) + if starts_run(s, n - 1) {
            1nat
        } else {
            0nat
        }
    }
}

proof fn lemma_run_count_monotonic(s: Seq<RenderInstance>, n: int, m: int)
    requires
        n <= m,
    ensures
        run_count(s, n) <= run_count(s, m),
    decreases m - n,
{
    if n < m {
        lemma_run_count_monotonic(s, n, m - 1);
    }
}

fn draw_order_less(a: &RenderInstance, b: &RenderInstance) -> (r: bool)
    ensures
        r == !draw_order_le(*b, *a),
{
    if a.mesh_id != b.mesh_id {
        return a.mesh_id < b.mesh_id;
    }
    if a.material_id != b.material_id {
        return a.material_id < b.material_id;
    }
    if a.entity.index != b.entity.index {
        return a.entity.index < b.entity.index;
    }
    a.entity.generation < b.entity.generation
}

/// Sorts into draw order by insertion; a permutation of the input.
fn sort_for_draw(v: &mut Vec<RenderInstance>)
    ensures
        final(v)@.len() == old(v)@.len(),
        final(v)@.to_multiset() == old(v)@.to_multiset(),
        sorted_for_draw(final(v)@),
{
    let n = v.len();
    if n == 0 {
        return;
    }
    let mut i: usize = 1;
    while i < n
        invariant
            1 <= i <= n,
            v@.len() == n,
            v@.to_multiset() == old(v)@.to_multiset(),
            forall|a: int, b: int| 0 <= a < b < i ==> draw_order_le(#[trigger] v@[a], #[trigger] v@[b]),
        decreases n - i,
    {
        let mut j: usize = i;
        while j > 0 && draw_order_less(&v[j], &v[j - 1])
            invariant
                0 <= j <= i < n,
                v@.len() == n,
                v@.to_multiset() == old(v)@.to_multiset(),
                forall|a: int, b: int| 0 <= a < b < j ==> draw_order_le(#[trigger] v@[a], #[trigger] v@[b]),
                forall|a: int, b: int|
                    j <= a < b <= i ==> draw_order_le(#[trigger] v@[a], #[trigger] v@[b]),
                forall|a: int, b: int|
                    0 <= a < j && j < b <= i ==> draw_order_le(#[trigger] v@[a], #[trigger] v@[b]),
            decreases j,
        {
            let lower = v[j - 1];
            let upper = v[j];
            proof {
                crate::permutation::lemma_swap_preserves_multiset(v@, j - 1, j as int);
            }
            v.set(j - 1, upper);
            v.set(j, lower);
            j = j - 1;
        }
        proof {
            assert forall|a: int, b: int| 0 <= a < b < i + 1 implies draw_order_le(
                #[trigger] v@[a],
                #[trigger] v@[b],
            ) by {
                if b == j && a < j {
                    assert(draw_order_le(v@[a], v@[j - 1]) || a == j - 1);
                }
            }
        }
        i = i + 1;
    }
}

/// Appending the run `[start, end)` as a batch extends a cover of the
/// first `start` instances to one of the first `end`.
proof fn lemma_cover_extend(
    s: Seq<RenderInstance>,
    batches: Seq<DrawBatch>,
    start: int,
    end: int,
    batch: DrawBatch,
)
    requires
        0 <= start < end <= s.len(),
        batches_cover(s, batches, start),
        0 < start ==> !same_draw(s[start - 1], s[start]),
        forall|i: int| start <= i < end ==> same_draw(#[trigger] s[i], s[start]),
        batch.mesh_id == s[start].mesh_id,
        batch.material_id == s[start].material_id,
        batch.first_instance == start,
        batch.instance_count == end - start,
    ensures
        batches_cover(s, batches.push(batch), end),
{
    let b = batches.push(batch);
    assert(b.last() == batch);
    assert forall|k: int, i: int|
        0 <= k < b.len() && b[k].first_instance <= i < batch_end(b[k]) implies (
        #[trigger] s[i]).mesh_id == (#[trigger] b[k]).mesh_id && s[i].material_id
        == b[k].material_id by {
        if k < b.len() - 1 {
            assert(b[k] == batches[k]);
        } else {
            assert(same_draw(s[i], s[start]));
        }
    }
    if batches.len() > 0 {
        let last = batches.len() - 1;
        assert(batches[last].first_instance <= start - 1 < batch_end(batches[last]));
        assert(s[start - 1].mesh_id == batches[last].mesh_id);
    }
    assert forall|k: int| 0 <= k < b.len() - 1 implies batch_end(#[trigger] b[k]) == b[k
        + 1].first_instance by {
        if k < b.len() - 2 {
            assert(b[k] == batches[k] && b[k + 1] == batches[k + 1]);
        }
    }
    assert forall|k: int| 0 <= k < b.len() - 1 implies !((#[trigger] b[k]).mesh_id == b[k
        + 1].mesh_id && b[k].material_id == b[k + 1].material_id) by {
        if k < b.len() - 2 {
            assert(b[k] == batches[k] && b[k + 1] == batches[k + 1]);
        }
    }
}

/// Deterministic CPU reference manifest: the frame's instances in draw
/// order and one batch per run of same-draw instances. GPU indirect
/// generation must produce an equivalent batch list for the same world.
pub struct CpuRenderManifest {
    instances: Vec<RenderInstance>,
    batches: Vec<DrawBatch>,
    max_instances: usize,
    max_batches: usize,
}

impl CpuRenderManifest {
    pub closed spec fn spec_instances(&self) -> Seq<RenderInstance> {
        self.instances@
    }

    pub closed spec fn spec_batches(&self) -> Seq<DrawBatch> {
        self.batches@
    }

    pub closed spec fn instance_capacity(&self) -> nat {
        self.max_instances as nat
    }

    pub closed spec fn batch_capacity(&self) -> nat {
        self.max_batches as nat
    }

    pub fn try_with_capacity(max_instances: usize, max_batches: usize) -> (r: Result<
        Self,
        RenderManifestError,
    >)
        ensures
            r matches Ok(m) ==> m.spec_instances() == Seq::<RenderInstance>::empty()
                && m.spec_batches() == Seq::<DrawBatch>::empty() && m.instance_capacity()
                == max_instances && m.batch_capacity() == max_batches,
            r matches Err(e) ==> e == RenderManifestError::AllocationFailed,
    {
        let mut instances: Vec<RenderInstance> = Vec::new();
        if instances.try_reserve(max_instances).is_err() {
            return Err(RenderManifestError::AllocationFailed);
        }
        let mut batches: Vec<DrawBatch> = Vec::new();
        if batches.try_reserve(max_batches).is_err() {
            return Err(RenderManifestError::AllocationFailed);
        }
        Ok(CpuRenderManifest { instances, batches, max_instances, max_batches })
    }

    pub fn with_capacity(max_instances: usize, max_batches: usize) -> (r: Self)
        ensures
            r.spec_instances() == Seq::<RenderInstance>::empty(),
            r.spec_batches() == Seq::<DrawBatch>::empty(),
            r.instance_capacity() == max_instances,
            r.batch_capacity() == max_batches,
    {
        CpuRenderManifest {
            instances: Vec::with_capacity(max_instances),
            batches: Vec::with_capacity(max_batches),
            max_instances,
            max_batches,
        }
    }

    pub fn clear(&mut self)
        ensures
            final(self).spec_instances() == Seq::<RenderInstance>::empty(),
            final(self).spec_batches() == Seq::<DrawBatch>::empty(),
            final(self).instance_capacity() == old(self).instance_capacity(),
            final(self).batch_capacity() == old(self).batch_capacity(),
    {
        self.instances.clear();
        self.batches.clear();
    }

    pub fn instances(&self) -> (r: &[RenderInstance])
        ensures
            r@ == self.spec_instances(),
    {
        self.instances.as_slice()
    }

    pub fn batches(&self) -> (r: &[DrawBatch])
        ensures
            r@ == self.spec_batches(),
    {
        self.batches.as_slice()
    }

    pub fn max_instances(&self) -> (r: usize)
        ensures
            r == self.instance_capacity(),
    {
        self.max_instances
    }

    pub fn max_batches(&self) -> (r: usize)
        ensures
            r == self.batch_capacity(),
    {
        self.max_batches
    }

    /// Rebuilds the manifest from the render world: the instances sorted
    /// into draw order, then one batch per run of instances that share mesh
    /// and material. Refused when the world or its runs exceed the
    /// manifest's capacities, or a batch offset does not fit in `u32`.
    pub fn build(&mut self, render_world: &RenderWorld) -> (r: Result<(), RenderManifestError>)
        ensures
            final(self).instance_capacity() == old(self).instance_capacity(),
            final(self).batch_capacity() == old(self).batch_capacity(),
            final(self).spec_batches().len() <= final(self).batch_capacity(),
            render_world@.len() > old(self).instance_capacity() ==> r == Err::<
                (),
                RenderManifestError,
            >(RenderManifestError::CapacityExceeded) && final(self).spec_instances()
                == Seq::<RenderInstance>::empty() && final(self).spec_batches() == Seq::<
                DrawBatch,
            >::empty(),
            r is Ok ==> {
                &&& final(self).spec_instances().to_multiset() == render_world@.to_multiset()
                &&& sorted_for_draw(final(self).spec_instances())
                &&& batches_cover(
                    final(self).spec_instances(),
                    final(self).spec_batches(),
                    final(self).spec_instances().len() as int,
                )
            },
            r == Err::<(), RenderManifestError>(RenderManifestError::CapacityExceeded)
                ==> render_world@.len() > old(self).instance_capacity() || (
            final(self).spec_instances().to_multiset() == render_world@.to_multiset()
                && sorted_for_draw(final(self).spec_instances()) && run_count(
                final(self).spec_instances(),
                final(self).spec_instances().len() as int,
            ) > old(self).batch_capacity()),
            r == Err::<(), RenderManifestError>(RenderManifestError::IndexOverflow) ==> final(self).spec_instances().len() > u32::MAX && final(self).spec_instances().to_multiset()
                == render_world@.to_multiset() && sorted_for_draw(final(self).spec_instances()),
            r == Err::<(), RenderManifestError>(RenderManifestError::AllocationFailed) ==> final(self).spec_instances() == Seq::<RenderInstance>::empty(),
    {
        self.instances.clear();
        self.batches.clear();
        let count = render_world.instances().len();
        if count > self.max_instances {
            return Err(RenderManifestError::CapacityExceeded);
        }
        if self.instances.try_reserve(count).is_err() {
            return Err(RenderManifestError::AllocationFailed);
        }
        let source = render_world.instances();
        let mut c: usize = 0;
        while c < count
            invariant
                c <= count,
                count == source@.len(),
                source@ == render_world@,
                self.instances@ == source@.take(c as int),
                self.batches@ == Seq::<DrawBatch>::empty(),
                self.max_instances == old(self).max_instances,
                self.max_batches == old(self).max_batches,
            decreases count - c,
        {
            self.instances.push(source[c]);
            proof {
                assert(source@.take(c as int + 1) =~= source@.take(c as int).push(source@[c as int]));
            }
            c = c + 1;
        }
        assert(source@.take(count as int) =~= source@);
        sort_for_draw(&mut self.instances);
        let len = self.instances.len();
        let ghost s = self.instances@;
        let mut start: usize = 0;
        while start < len
            invariant
                start <= len,
                len == s.len(),
                self.instances@ == s,
                s.to_multiset() == render_world@.to_multiset(),
                render_world@.len() <= self.max_instances,
                sorted_for_draw(s),
                batches_cover(s, self.batches@, start as int),
                0 < start < len ==> !same_draw(s[start - 1], s[start as int]),
                self.batches@.len() == run_count(s, start as int),
                self.batches@.len() <= self.max_batches,
                self.max_instances == old(self).max_instances,
                self.max_batches == old(self).max_batches,
            decreases len - start,
        {
            let first = self.instances[start];
            let mut end: usize = start + 1;
            assert(starts_run(s, start as int));
            while end < len && self.instances[end].mesh_id == first.mesh_id
                && self.instances[end].material_id == first.material_id
                invariant
                    start < end <= len,
                    len == s.len(),
                    self.instances@ == s,
                    first == s[start as int],
                    forall|i: int| start <= i < end ==> same_draw(#[trigger] s[i], first),
                    run_count(s, end as int) == run_count(s, start as int) + 1,
                decreases len - end,
            {
                assert(same_draw(s[end - 1], s[end as int]));
                end = end + 1;
            }
            if self.batches.len() >= self.max_batches {
                proof {
                    lemma_run_count_monotonic(s, end as int, len as int);
                }
                return Err(RenderManifestError::CapacityExceeded);
            }
            if start > 0xFFFF_FFFFusize || end - start > 0xFFFF_FFFFusize {
                return Err(RenderManifestError::IndexOverflow);
            }
            let batch = DrawBatch {
                mesh_id: first.mesh_id,
                material_id: first.material_id,
                first_instance: start as u32,
                instance_count: (end - start) as u32,
            };
            proof {
                lemma_cover_extend(s, self.batches@, start as int, end as int, batch);
                if end < len {
                    assert(!same_draw(s[end as int], first));
                    assert(same_draw(s[end - 1], first));
                }
            }
            self.batches.push(batch);
            start = end;
        }
        Ok(())
    }
}

// ---------------------------------------------------------------------------
// Upload byte encoding
// ---------------------------------------------------------------------------

/// The four bytes of `x`, least significant first.
pub open spec fn le_word_bytes(x: u32) -> Seq<u8> {
    seq![(x & 0xff) as u8, ((x >> 8) & 0xff) as u8, ((x >> 16) & 0xff) as u8, ((x >> 24) & 0xff) as u8]
}

/// The four bytes of `x` in the executing machine's byte order.
pub open spec fn native_word_bytes(x: u32) -> Seq<u8> {
    match endianness() {
        Endian::Little => le_word_bytes(x),
        Endian::Big => le_word_bytes(x).reverse(),
    }
}

/// `u32::to_ne_bytes`: the memory representation of `x` in native byte
/// order, which is the little-endian bytes on a little-endian machine and
/// those bytes reversed on a big-endian one.
#[verifier::external_body]
fn word_to_ne_bytes(x: u32) -> (r: [u8; 4])
    ensures
        r@ == native_word_bytes(x),
{
    x.to_ne_bytes()
}

/// Writes the native-order bytes of `x` at `pos`.
fn write_word(output: &mut [u8], pos: usize, x: u32)
    requires
        pos + 4 <= old(output)@.len(),
    ensures
        final(output)@.len() == old(output)@.len(),
        forall|p: int|
            0 <= p < final(output)@.len() ==> #[trigger] final(output)@[p] == if pos <= p < pos + 4 {
                native_word_bytes(x)[p - pos]
            } else {
                old(output)@[p]
            },
{
    let bytes = word_to_ne_bytes(x);
    output[pos] = bytes[0];
    output[pos + 1] = bytes[1];
    output[pos + 2] = bytes[2];
    output[pos + 3] = bytes[3];
}

/// Byte `p` of a stream of 4-byte fields grouped in records of `fields`
/// fields lies in record `p / (4 * fields)`, field `(p % (4 * fields)) / 4`,
/// at offset `p % 4` of that field.
proof fn lemma_record_position(k: int, f: int, j: int, fields: int)
    requires
        0 <= k,
        0 <= f < fields,
        0 <= j < 4,
        fields == 5 || fields == 20,
    ensures
        (k * (4 * fields) + 4 * f + j) / (4 * fields) == k,
        ((k * (4 * fields) + 4 * f + j) % (4 * fields)) / 4 == f,
        (k * (4 * fields) + 4 * f + j) % 4 == j,
{
    if fields == 5 {
        assert((k * 20 + 4 * f + j) / 20 == k) by (nonlinear_arith)
            requires
                0 <= k,
                0 <= 4 * f + j < 20,
        ;
        assert((k * 20 + 4 * f + j) % 20 == 4 * f + j) by (nonlinear_arith)
            requires
                0 <= k,
                0 <= 4 * f + j < 20,
        ;
        assert((k * 20 + 4 * f + j) % 4 == j) by (nonlinear_arith)
            requires
                0 <= k,
                0 <= j < 4,
                0 <= f,
        ;
    } else {
        assert((k * 80 + 4 * f + j) / 80 == k) by (nonlinear_arith)
            requires
                0 <= k,
                0 <= 4 * f + j < 80,
        ;
        assert((k * 80 + 4 * f + j) % 80 == 4 * f + j) by (nonlinear_arith)
            requires
                0 <= k,
                0 <= 4 * f + j < 80,
        ;
        assert((k * 80 + 4 * f + j) % 4 == j) by (nonlinear_arith)
            requires
                0 <= k,
                0 <= j < 4,
                0 <= f,
        ;
    }
}

/// Field `f` of an instance's GPU record: 12 transform words, 4 bounds
/// words, entity index, entity generation, mesh, material.
pub open spec fn instance_field(instance: RenderInstance, f: int) -> u32 {
    if f < 12 {
        instance.transform@[f]
    } else if f < 16 {
        instance.bounds@[f - 12]
    } else if f == 16 {
        instance.entity.index
    } else if f == 17 {
        instance.entity.generation
    } else if f == 18 {
        instance.mesh_id
    } else {
        instance.material_id
    }
}

/// Byte `p` of the encoded instance stream.
pub open spec fn instance_stream_byte(instances: Seq<RenderInstance>, p: int) -> u8 {
    native_word_bytes(instance_field(instances[p / 80], (p % 80) / 4))[p % 4]
}

/// The geometry entry used for a mesh: the first one with its id.
pub open spec fn geometry_for(geometry: Seq<IndexedGeometry>, mesh_id: u32) -> Option<
    IndexedGeometry,
> {
    crate::platform::vulkan_policy::first_where(geometry, mesh_matches(mesh_id))
}

pub open spec fn mesh_matches(mesh_id: u32) -> spec_fn(IndexedGeometry) -> bool {
    |g: IndexedGeometry| g.mesh_id == mesh_id
}

/// Why a command cannot be encoded against `geometry`, if it cannot.
pub open spec fn geometry_error(geometry: Seq<IndexedGeometry>, command: IndirectDrawCommand) -> Option<
    GpuPreparationError,
> {
    match geometry_for(geometry, command.mesh_id) {
        None => Some(GpuPreparationError::MissingGeometry),
        Some(g) => if g.index_count == 0 {
            Some(GpuPreparationError::InvalidGeometry)
        } else {
            None
        },
    }
}

/// The first geometry error among commands `k..`.
pub open spec fn first_geometry_error_from(
    geometry: Seq<IndexedGeometry>,
    commands: Seq<IndirectDrawCommand>,
    k: int,
) -> Option<GpuPreparationError>
    decreases commands.len() - k,
{
    if k < 0 || k >= commands.len() {
        None
    } else {
        match geometry_error(geometry, commands[k]) {
            Some(e) => Some(e),
            None => first_geometry_error_from(geometry, commands, k + 1),
        }
    }
}

/// The Vulkan command for a prepared command and its mesh's geometry.
pub open spec fn spec_vulkan_command(command: IndirectDrawCommand, g: IndexedGeometry) -> VulkanIndexedIndirectCommand {
    VulkanIndexedIndirectCommand {
        index_count: g.index_count,
        instance_count: command.instance_count,
        first_index: g.first_index,
        vertex_offset: g.vertex_offset,
        first_instance: command.first_instance,
    }
}

/// Field `f` of the encoded Vulkan command, as a 4-byte word (the vertex
/// offset by its two's-complement bits).
pub open spec fn indirect_field(c: VulkanIndexedIndirectCommand, f: int) -> u32 {
    if f == 0 {
        c.index_count
    } else if f == 1 {
        c.instance_count
    } else if f == 2 {
        c.first_index
    } else if f == 3 {
        c.vertex_offset as u32
    } else {
        c.first_instance
    }
}

/// Byte `p` of the encoded indirect command stream.
pub open spec fn indirect_stream_byte(
    geometry: Seq<IndexedGeometry>,
    commands: Seq<IndirectDrawCommand>,
    p: int,
) -> u8 {
    let c = commands[p / 20];
    native_word_bytes(
        indirect_field(spec_vulkan_command(c, geometry_for(geometry, c.mesh_id).unwrap()), (p % 20) / 4),
    )[p % 4]
}

fn find_geometry(geometry: &[IndexedGeometry], mesh_id: u32) -> (r: Option<IndexedGeometry>)
    ensures
        r == geometry_for(geometry@, mesh_id),
{
    let ghost pred = mesh_matches(mesh_id);
    let mut i: usize = 0;
    assert(geometry@.subrange(0, geometry@.len() as int) =~= geometry@);
    while i < geometry.len()
        invariant
            i <= geometry@.len(),
            pred == mesh_matches(mesh_id),
            geometry_for(geometry@, mesh_id) == crate::platform::vulkan_policy::first_where(
                geometry@.subrange(i as int, geometry@.len() as int),
                pred,
            ),
        decreases geometry.len() - i,
    {
        proof {
            crate::platform::vulkan_policy::lemma_first_where_step(geometry@, i as int, pred);
            assert(pred(geometry@[i as int]) == (geometry@[i as int].mesh_id == mesh_id));
        }
        if geometry[i].mesh_id == mesh_id {
            return Some(geometry[i]);
        }
        i = i + 1;
    }
    None
}

// ---------------------------------------------------------------------------
// GPU preparation
// ---------------------------------------------------------------------------

/// Why the instance range `[first, first + count)` is unusable over `len`
/// instances, if it is.
pub open spec fn range_error(first: u32, count: u32, len: int) -> Option<GpuPreparationError> {
    if first + count > u32::MAX {
        Some(GpuPreparationError::IndexOverflow)
    } else if first + count > len {
        Some(GpuPreparationError::InvalidRange)
    } else {
        None
    }
}

/// The first range error among `ranges[k..]`.
pub open spec fn first_range_error_from(ranges: Seq<(u32, u32)>, len: int, k: int) -> Option<
    GpuPreparationError,
>
    decreases ranges.len() - k,
{
    if k < 0 || k >= ranges.len() {
        None
    } else {
        match range_error(ranges[k].0, ranges[k].1, len) {
            Some(e) => Some(e),
            None => first_range_error_from(ranges, len, k + 1),
        }
    }
}

pub open spec fn command_ranges(commands: Seq<IndirectDrawCommand>) -> Seq<(u32, u32)> {
    commands.map_values(|c: IndirectDrawCommand| (c.first_instance, c.instance_count))
}

pub open spec fn batch_ranges(batches: Seq<DrawBatch>) -> Seq<(u32, u32)> {
    batches.map_values(|b: DrawBatch| (b.first_instance, b.instance_count))
}

pub open spec fn command_of(b: DrawBatch) -> IndirectDrawCommand {
    IndirectDrawCommand {
        mesh_id: b.mesh_id,
        material_id: b.material_id,
        first_instance: b.first_instance,
        instance_count: b.instance_count,
    }
}

pub open spec fn commands_of(batches: Seq<DrawBatch>) -> Seq<IndirectDrawCommand> {
    batches.map_values(|b: DrawBatch| command_of(b))
}

/// Commands made from batches cover the same instance ranges.
pub proof fn lemma_prepared_commands_valid(batches: Seq<DrawBatch>)
    ensures
        command_ranges(commands_of(batches)) == batch_ranges(batches),
{
    assert(command_ranges(commands_of(batches)) =~= batch_ranges(batches));
}

/// Validation outcome of commands over `len` instances.
pub open spec fn spec_validate(commands: Seq<IndirectDrawCommand>, len: int) -> Result<(), GpuPreparationError> {
    match first_range_error_from(command_ranges(commands), len, 0) {
        Some(e) => Err(e),
        None => Ok(()),
    }
}

/// The cull dispatch: one workgroup per `workgroup_size` instances,
/// rounded up.
pub open spec fn spec_workgroups(instances: int, workgroup_size: int) -> int {
    (instances + workgroup_size - 1) / workgroup_size
}

/// The frame's upload sizes and cull dispatch: refused for a zero
/// workgroup size, for an invalid command range, and when a count or byte
/// size does not fit its integer type.
pub open spec fn spec_command_plan(
    instances: Seq<RenderInstance>,
    commands: Seq<IndirectDrawCommand>,
    workgroup_size: u32,
) -> Result<GpuFrameCommandPlan, GpuPreparationError> {
    let n = instances.len();
    let m = commands.len();
    if workgroup_size == 0 {
        Err(GpuPreparationError::InvalidWorkgroupSize)
    } else {
        match spec_validate(commands, n as int) {
            Err(e) => Err(e),
            Ok(_) => if n > u32::MAX || m > u32::MAX || n * 80 > usize::MAX || m * 20 > usize::MAX
                || n + workgroup_size - 1 > u32::MAX {
                Err(GpuPreparationError::IndexOverflow)
            } else {
                Ok(
                    GpuFrameCommandPlan {
                        instance_count: n as u32,
                        draw_count: m as u32,
                        instance_upload_bytes: (n * 80) as usize,
                        indirect_upload_bytes: (m * 20) as usize,
                        cull_workgroups: spec_workgroups(n as int, workgroup_size as int) as u32,
                    },
                )
            },
        }
    }
}

/// The encoded instance stream.
pub open spec fn instance_stream(instances: Seq<RenderInstance>) -> Seq<u8> {
    Seq::new(instances.len() * 80, |p: int| instance_stream_byte(instances, p))
}

/// The encoded indirect command stream.
pub open spec fn indirect_stream(
    geometry: Seq<IndexedGeometry>,
    commands: Seq<IndirectDrawCommand>,
) -> Seq<u8> {
    Seq::new(commands.len() * 20, |p: int| indirect_stream_byte(geometry, commands, p))
}

/// CPU-owned model of the GPU-visible frame buffers. It holds no device
/// handle; it validates the bounds the native backend must enforce before
/// copying data into device-local or host-visible buffers.
pub struct GpuFramePreparation {
    instances: Vec<RenderInstance>,
    commands: Vec<IndirectDrawCommand>,
    max_instances: usize,
    max_commands: usize,
}

impl GpuFramePreparation {
    pub closed spec fn spec_instances(&self) -> Seq<RenderInstance> {
        self.instances@
    }

    pub closed spec fn spec_commands(&self) -> Seq<IndirectDrawCommand> {
        self.commands@
    }

    pub closed spec fn instance_capacity(&self) -> nat {
        self.max_instances as nat
    }

    pub closed spec fn command_capacity(&self) -> nat {
        self.max_commands as nat
    }

    pub fn try_with_capacity(max_instances: usize, max_commands: usize) -> (r: Result<
        Self,
        GpuPreparationError,
    >)
        ensures
            r matches Ok(g) ==> g.spec_instances() == Seq::<RenderInstance>::empty()
                && g.spec_commands() == Seq::<IndirectDrawCommand>::empty()
                && g.instance_capacity() == max_instances && g.command_capacity()
                == max_commands,
            r matches Err(e) ==> e == GpuPreparationError::AllocationFailed,
    {
        let mut instances: Vec<RenderInstance> = Vec::new();
        if instances.try_reserve(max_instances).is_err() {
            return Err(GpuPreparationError::AllocationFailed);
        }
        let mut commands: Vec<IndirectDrawCommand> = Vec::new();
        if commands.try_reserve(max_commands).is_err() {
            return Err(GpuPreparationError::AllocationFailed);
        }
        Ok(GpuFramePreparation { instances, commands, max_instances, max_commands })
    }

    pub fn with_capacity(max_instances: usize, max_commands: usize) -> (r: Self)
        ensures
            r.spec_instances() == Seq::<RenderInstance>::empty(),
            r.spec_commands() == Seq::<IndirectDrawCommand>::empty(),
            r.instance_capacity() == max_instances,
            r.command_capacity() == max_commands,
    {
        GpuFramePreparation {
            instances: Vec::with_capacity(max_instances),
            commands: Vec::with_capacity(max_commands),
            max_instances,
            max_commands,
        }
    }

    pub fn instances(&self) -> (r: &[RenderInstance])
        ensures
            r@ == self.spec_instances(),
    {
        self.instances.as_slice()
    }

    pub fn commands(&self) -> (r: &[IndirectDrawCommand])
        ensures
            r@ == self.spec_commands(),
    {
        self.commands.as_slice()
    }

    pub fn max_instances(&self) -> (r: usize)
        ensures
            r == self.instance_capacity(),
    {
        self.max_instances
    }

    pub fn max_commands(&self) -> (r: usize)
        ensures
            r == self.command_capacity(),
    {
        self.max_commands
    }

    /// Copies the manifest's instances and turns each batch into an
    /// indirect command, checking each batch's instance range in order.
    pub fn prepare(&mut self, manifest: &CpuRenderManifest) -> (r: Result<(), GpuPreparationError>)
        ensures
            final(self).instance_capacity() == old(self).instance_capacity(),
            final(self).command_capacity() == old(self).command_capacity(),
            manifest.spec_instances().len() > old(self).instance_capacity()
                || manifest.spec_batches().len() > old(self).command_capacity() ==> r == Err::<
                (),
                GpuPreparationError,
            >(GpuPreparationError::CapacityExceeded) && final(self).spec_instances() == Seq::<
                RenderInstance,
            >::empty() && final(self).spec_commands() == Seq::<IndirectDrawCommand>::empty(),
            r is Ok ==> {
                &&& final(self).spec_instances() == manifest.spec_instances()
                &&& final(self).spec_commands() == commands_of(manifest.spec_batches())
                &&& first_range_error_from(
                    batch_ranges(manifest.spec_batches()),
                    manifest.spec_instances().len() as int,
                    0,
                ) is None
            },
            r matches Err(e) ==> e == GpuPreparationError::CapacityExceeded || e
                == GpuPreparationError::AllocationFailed || Some(e) == first_range_error_from(
                batch_ranges(manifest.spec_batches()),
                manifest.spec_instances().len() as int,
                0,
            ),
            manifest.spec_instances().len() <= old(self).instance_capacity()
                && manifest.spec_batches().len() <= old(self).command_capacity() ==> match first_range_error_from(
                batch_ranges(manifest.spec_batches()),
                manifest.spec_instances().len() as int,
                0,
            ) {
                Some(e) => r == Err::<(), GpuPreparationError>(e) || r == Err::<
                    (),
                    GpuPreparationError,
                >(GpuPreparationError::AllocationFailed),
                None => r is Ok || r == Err::<(), GpuPreparationError>(
                    GpuPreparationError::AllocationFailed,
                ),
            },
    {
        self.instances.clear();
        self.commands.clear();
        let source = manifest.instances();
        let batches = manifest.batches();
        if source.len() > self.max_instances || batches.len() > self.max_commands {
            return Err(GpuPreparationError::CapacityExceeded);
        }
        if self.instances.try_reserve(source.len()).is_err() {
            return Err(GpuPreparationError::AllocationFailed);
        }
        let mut c: usize = 0;
        while c < source.len()
            invariant
                c <= source@.len(),
                self.instances@ == source@.take(c as int),
                self.commands@ == Seq::<IndirectDrawCommand>::empty(),
                self.max_instances == old(self).max_instances,
                self.max_commands == old(self).max_commands,
            decreases source.len() - c,
        {
            self.instances.push(source[c]);
            proof {
                assert(source@.take(c as int + 1) =~= source@.take(c as int).push(source@[c as int]));
            }
            c = c + 1;
        }
        assert(source@.take(source@.len() as int) =~= source@);
        let len = self.instances.len();
        let ghost ranges = batch_ranges(batches@);
        let mut k: usize = 0;
        while k < batches.len()
            invariant
                k <= batches@.len(),
                len == source@.len(),
                self.instances@ == source@,
                ranges == batch_ranges(batches@),
                source@.len() <= self.max_instances,
                batches@.len() <= self.max_commands,
                batches@ == manifest.spec_batches(),
                source@ == manifest.spec_instances(),
                self.commands@ == commands_of(batches@).take(k as int),
                first_range_error_from(ranges, len as int, 0) == first_range_error_from(
                    ranges,
                    len as int,
                    k as int,
                ),
                self.max_instances == old(self).max_instances,
                self.max_commands == old(self).max_commands,
            decreases batches.len() - k,
        {
            let batch = batches[k];
            assert(ranges[k as int] == (batch.first_instance, batch.instance_count));
            let end = match batch.first_instance.checked_add(batch.instance_count) {
                Some(end) => end,
                None => {
                    return Err(GpuPreparationError::IndexOverflow);
                },
            };
            if end as usize > len {
                return Err(GpuPreparationError::InvalidRange);
            }
            self.commands.push(
                IndirectDrawCommand {
                    mesh_id: batch.mesh_id,
                    material_id: batch.material_id,
                    first_instance: batch.first_instance,
                    instance_count: batch.instance_count,
                },
            );
            proof {
                assert(commands_of(batches@).take(k as int + 1) =~= commands_of(batches@).take(
                    k as int,
                ).push(command_of(batch)));
            }
            k = k + 1;
        }
        assert(commands_of(batches@).take(batches@.len() as int) =~= commands_of(batches@));
        Ok(())
    }

    /// Every command's instance range lies within the prepared instances;
    /// the first one that does not is reported.
    pub fn validate(&self) -> (r: Result<(), GpuPreparationError>)
        ensures
            r == spec_validate(self.spec_commands(), self.spec_instances().len() as int),
    {
        let len = self.instances.len();
        let ghost ranges = command_ranges(self.commands@);
        let mut k: usize = 0;
        while k < self.commands.len()
            invariant
                k <= self.commands@.len(),
                len == self.instances@.len(),
                ranges == command_ranges(self.commands@),
                first_range_error_from(ranges, len as int, 0) == first_range_error_from(
                    ranges,
                    len as int,
                    k as int,
                ),
            decreases self.commands.len() - k,
        {
            let command = self.commands[k];
            assert(ranges[k as int] == (command.first_instance, command.instance_count));
            let end = match command.first_instance.checked_add(command.instance_count) {
                Some(end) => end,
                None => {
                    return Err(GpuPreparationError::IndexOverflow);
                },
            };
            if end as usize > len {
                return Err(GpuPreparationError::InvalidRange);
            }
            k = k + 1;
        }
        Ok(())
    }

    /// Encodes the prepared commands as tightly packed Vulkan indirect draw
    /// commands into `output` (never allocating) and returns the byte count.
    /// Bytes past that count are left as they were.
    pub fn encode_indexed_commands(
        &self,
        geometry: &[IndexedGeometry],
        output: &mut [u8],
    ) -> (r: Result<usize, GpuPreparationError>)
        ensures
            final(output)@.len() == old(output)@.len(),
            spec_validate(self.spec_commands(), self.spec_instances().len() as int) matches Err(e)
                ==> r == Err::<usize, GpuPreparationError>(e) && final(output)@ == old(output)@,
            spec_validate(self.spec_commands(), self.spec_instances().len() as int) is Ok
                && self.spec_commands().len() * 20 > usize::MAX ==> r == Err::<
                usize,
                GpuPreparationError,
            >(GpuPreparationError::IndexOverflow),
            spec_validate(self.spec_commands(), self.spec_instances().len() as int) is Ok
                && self.spec_commands().len() * 20 <= usize::MAX && old(output)@.len()
                < self.spec_commands().len() * 20 ==> r == Err::<usize, GpuPreparationError>(
                GpuPreparationError::OutputTooSmall,
            ) && final(output)@ == old(output)@,
            spec_validate(self.spec_commands(), self.spec_instances().len() as int) is Ok
                && self.spec_commands().len() * 20 <= old(output)@.len() ==> match first_geometry_error_from(geometry@, self.spec_commands(), 0) {
                Some(e) => r == Err::<usize, GpuPreparationError>(e),
                None => r == Ok::<usize, GpuPreparationError>(
                    (self.spec_commands().len() * 20) as usize,
                ),
            },
            r is Ok ==> forall|p: int|
                0 <= p < final(output)@.len() ==> #[trigger] final(output)@[p] == if p
                    < self.spec_commands().len() * 20 {
                    indirect_stream_byte(geometry@, self.spec_commands(), p)
                } else {
                    old(output)@[p]
                },
    {
        match self.validate() {
            Err(e) => {
                return Err(e);
            },
            Ok(()) => {},
        }
        let n = self.commands.len();
        let out_len = output.len();
        let required = match n.checked_mul(VULKAN_INDEXED_INDIRECT_COMMAND_SIZE) {
            Some(required) => required,
            None => {
                return Err(GpuPreparationError::IndexOverflow);
            },
        };
        if output.len() < required {
            return Err(GpuPreparationError::OutputTooSmall);
        }
        let ghost cmds = self.commands@;
        let mut k: usize = 0;
        while k < n
            invariant
                k <= n,
                n == cmds.len(),
                cmds == self.commands@,
                spec_validate(cmds, self.instances@.len() as int) is Ok,
                required == n * 20,
                required <= output@.len(),
                out_len == output@.len(),
                output@.len() == old(output)@.len(),
                first_geometry_error_from(geometry@, cmds, 0) == first_geometry_error_from(
                    geometry@,
                    cmds,
                    k as int,
                ),
                forall|p: int|
                    0 <= p < output@.len() ==> #[trigger] output@[p] == if p < k * 20 {
                        indirect_stream_byte(geometry@, cmds, p)
                    } else {
                        old(output)@[p]
                    },
            decreases n - k,
        {
            let command = self.commands[k];
            let mesh = match find_geometry(geometry, command.mesh_id) {
                Some(mesh) => mesh,
                None => {
                    return Err(GpuPreparationError::MissingGeometry);
                },
            };
            if mesh.index_count == 0 {
                return Err(GpuPreparationError::InvalidGeometry);
            }
            let encoded = VulkanIndexedIndirectCommand {
                index_count: mesh.index_count,
                instance_count: command.instance_count,
                first_index: mesh.first_index,
                vertex_offset: mesh.vertex_offset,
                first_instance: command.first_instance,
            };
            assert(encoded == spec_vulkan_command(command, mesh));
            let base = k * VULKAN_INDEXED_INDIRECT_COMMAND_SIZE;
            let mut f: usize = 0;
            while f < 5
                invariant
                    f <= 5,
                    k < n,
                    base == k * 20,
                    base + 20 <= output@.len(),
                    out_len == output@.len(),
                    output@.len() == old(output)@.len(),
                    cmds[k as int] == command,
                    geometry_for(geometry@, command.mesh_id) == Some(mesh),
                    encoded == spec_vulkan_command(command, mesh),
                    forall|p: int|
                        0 <= p < output@.len() ==> #[trigger] output@[p] == if p < base + 4 * f {
                            indirect_stream_byte(geometry@, cmds, p)
                        } else {
                            old(output)@[p]
                        },
                decreases 5 - f,
            {
                let value: u32 = if f == 0 {
                    encoded.index_count
                } else if f == 1 {
                    encoded.instance_count
                } else if f == 2 {
                    encoded.first_index
                } else if f == 3 {
                    encoded.vertex_offset as u32
                } else {
                    encoded.first_instance
                };
                assert(value == indirect_field(encoded, f as int));
                let ghost before = output@;
                write_word(output, base + 4 * f, value);
                proof {
                    assert forall|p: int| 0 <= p < output@.len() implies #[trigger] output@[p]
                        == if p < base + 4 * (f + 1) {
                        indirect_stream_byte(geometry@, cmds, p)
                    } else {
                        old(output)@[p]
                    } by {
                        if base + 4 * f <= p < base + 4 * f + 4 {
                            lemma_record_position(k as int, f as int, p - base - 4 * f, 5);
                        }
                    }
                }
                f = f + 1;
            }
            k = k + 1;
        }
        Ok(required)
    }

    /// Encodes the instance stream in the stable GPU record layout into
    /// `output` (never allocating) and returns the byte count. Bytes past
    /// that count are left as they were.
    pub fn encode_instance_records(&self, output: &mut [u8]) -> (r: Result<usize, GpuPreparationError>)
        ensures
            final(output)@.len() == old(output)@.len(),
            self.spec_instances().len() * 80 > usize::MAX ==> r == Err::<usize, GpuPreparationError>(
                GpuPreparationError::IndexOverflow,
            ),
            self.spec_instances().len() * 80 <= usize::MAX && old(output)@.len()
                < self.spec_instances().len() * 80 ==> r == Err::<usize, GpuPreparationError>(
                GpuPreparationError::OutputTooSmall,
            ),
            self.spec_instances().len() * 80 <= old(output)@.len() ==> r == Ok::<
                usize,
                GpuPreparationError,
            >((self.spec_instances().len() * 80) as usize),
            r is Err ==> final(output)@ == old(output)@,
            r is Ok ==> forall|p: int|
                0 <= p < final(output)@.len() ==> #[trigger] final(output)@[p] == if p
                    < self.spec_instances().len() * 80 {
                    instance_stream_byte(self.spec_instances(), p)
                } else {
                    old(output)@[p]
                },
    {
        let n = self.instances.len();
        let out_len = output.len();
        let required = match n.checked_mul(GPU_INSTANCE_RECORD_SIZE) {
            Some(required) => required,
            None => {
                return Err(GpuPreparationError::IndexOverflow);
            },
        };
        if output.len() < required {
            return Err(GpuPreparationError::OutputTooSmall);
        }
        let ghost insts = self.instances@;
        let mut k: usize = 0;
        while k < n
            invariant
                k <= n,
                n == insts.len(),
                insts == self.instances@,
                required == n * 80,
                required <= output@.len(),
                out_len == output@.len(),
                output@.len() == old(output)@.len(),
                forall|p: int|
                    0 <= p < output@.len() ==> #[trigger] output@[p] == if p < k * 80 {
                        instance_stream_byte(insts, p)
                    } else {
                        old(output)@[p]
                    },
            decreases n - k,
        {
            let instance = self.instances[k];
            let base = k * GPU_INSTANCE_RECORD_SIZE;
            let mut f: usize = 0;
            while f < 20
                invariant
                    f <= 20,
                    k < n,
                    base == k * 80,
                    base + 80 <= output@.len(),
                    out_len == output@.len(),
                    output@.len() == old(output)@.len(),
                    insts[k as int] == instance,
                    forall|p: int|
                        0 <= p < output@.len() ==> #[trigger] output@[p] == if p < base + 4 * f {
                            instance_stream_byte(insts, p)
                        } else {
                            old(output)@[p]
                        },
                decreases 20 - f,
            {
                let value: u32 = if f < 12 {
                    instance.transform[f]
                } else if f < 16 {
                    instance.bounds[f - 12]
                } else if f == 16 {
                    instance.entity.index
                } else if f == 17 {
                    instance.entity.generation
                } else if f == 18 {
                    instance.mesh_id
                } else {
                    instance.material_id
                };
                assert(value == instance_field(instance, f as int));
                write_word(output, base + 4 * f, value);
                proof {
                    assert forall|p: int| 0 <= p < output@.len() implies #[trigger] output@[p]
                        == if p < base + 4 * (f + 1) {
                        instance_stream_byte(insts, p)
                    } else {
                        old(output)@[p]
                    } by {
                        if base + 4 * f <= p < base + 4 * f + 4 {
                            lemma_record_position(k as int, f as int, p - base - 4 * f, 20);
                        }
                    }
                }
                f = f + 1;
            }
            k = k + 1;
        }
        Ok(required)
    }

    /// Byte counts and dispatch size for a native frame, computed without
    /// allocating. `workgroup_size` is the culling shader's X dimension.
    pub fn command_plan(&self, workgroup_size: u32) -> (r: Result<
        GpuFrameCommandPlan,
        GpuPreparationError,
    >)
        ensures
            r == spec_command_plan(self.spec_instances(), self.spec_commands(), workgroup_size),
    {
        if workgroup_size == 0 {
            return Err(GpuPreparationError::InvalidWorkgroupSize);
        }
        match self.validate() {
            Err(e) => {
                return Err(e);
            },
            Ok(()) => {},
        }
        let n = self.instances.len();
        let m = self.commands.len();
        if n > 0xFFFF_FFFFusize || m > 0xFFFF_FFFFusize {
            return Err(GpuPreparationError::IndexOverflow);
        }
        let instance_count = n as u32;
        let draw_count = m as u32;
        let instance_upload_bytes = match n.checked_mul(GPU_INSTANCE_RECORD_SIZE) {
            Some(bytes) => bytes,
            None => {
                return Err(GpuPreparationError::IndexOverflow);
            },
        };
        let indirect_upload_bytes = match m.checked_mul(VULKAN_INDEXED_INDIRECT_COMMAND_SIZE) {
            Some(bytes) => bytes,
            None => {
                return Err(GpuPreparationError::IndexOverflow);
            },
        };
        let rounded = match instance_count.checked_add(workgroup_size - 1) {
            Some(rounded) => rounded,
            None => {
                return Err(GpuPreparationError::IndexOverflow);
            },
        };
        let cull_workgroups = rounded / workgroup_size;
        Ok(
            GpuFrameCommandPlan {
                instance_count,
                draw_count,
                instance_upload_bytes,
                indirect_upload_bytes,
                cull_workgroups,
            },
        )
    }
}

/// Fully encoded, bounded upload payload for one frame. Native backends copy
/// these slices into staging buffers without re-deriving sizes or touching
/// simulation data.
pub struct GpuFrameUpload {
    plan: GpuFrameCommandPlan,
    instances: Vec<u8>,
    indirect_commands: Vec<u8>,
}

impl GpuFrameUpload {
    pub closed spec fn spec_plan(&self) -> GpuFrameCommandPlan {
        self.plan
    }

    pub closed spec fn spec_instance_bytes(&self) -> Seq<u8> {
        self.instances@
    }

    pub closed spec fn spec_indirect_bytes(&self) -> Seq<u8> {
        self.indirect_commands@
    }

    /// Plans and encodes a frame's payload into fresh buffers.
    pub fn try_build(
        preparation: &GpuFramePreparation,
        geometry: &[IndexedGeometry],
        workgroup_size: u32,
    ) -> (r: Result<Self, GpuUploadError>)
        ensures
            spec_command_plan(
                preparation.spec_instances(),
                preparation.spec_commands(),
                workgroup_size,
            ) matches Err(e) ==> r == Err::<Self, GpuUploadError>(GpuUploadError::Preparation(e)),
            r matches Ok(upload) ==> {
                &&& Ok::<GpuFrameCommandPlan, GpuPreparationError>(upload.spec_plan()) == spec_command_plan(
                    preparation.spec_instances(),
                    preparation.spec_commands(),
                    workgroup_size,
                )
                &&& first_geometry_error_from(geometry@, preparation.spec_commands(), 0) is None
                &&& upload.spec_instance_bytes() == instance_stream(preparation.spec_instances())
                &&& upload.spec_indirect_bytes() == indirect_stream(
                    geometry@,
                    preparation.spec_commands(),
                )
            },
            spec_command_plan(
                preparation.spec_instances(),
                preparation.spec_commands(),
                workgroup_size,
            ) is Ok ==> match first_geometry_error_from(geometry@, preparation.spec_commands(), 0) {
                Some(e) => r == Err::<Self, GpuUploadError>(GpuUploadError::Preparation(e)) || r
                    == Err::<Self, GpuUploadError>(GpuUploadError::AllocationFailed),
                None => r is Ok || r == Err::<Self, GpuUploadError>(
                    GpuUploadError::AllocationFailed,
                ),
            },
    {
        let mut instances: Vec<u8> = Vec::new();
        let mut indirect_commands: Vec<u8> = Vec::new();
        match Self::try_encode_into(
            preparation,
            geometry,
            workgroup_size,
            &mut instances,
            &mut indirect_commands,
        ) {
            Ok(plan) => Ok(GpuFrameUpload { plan, instances, indirect_commands }),
            Err(e) => Err(e),
        }
    }

    /// Encodes the payload into caller-owned staging storage, so frame
    /// rings can reuse buffers across frames. The plan is computed before
    /// either buffer is touched: planning errors and failed allocations
    /// leave both buffers as they were.
    pub fn try_encode_into(
        preparation: &GpuFramePreparation,
        geometry: &[IndexedGeometry],
        workgroup_size: u32,
        instances: &mut Vec<u8>,
        indirect_commands: &mut Vec<u8>,
    ) -> (r: Result<GpuFrameCommandPlan, GpuUploadError>)
        ensures
            spec_command_plan(
                preparation.spec_instances(),
                preparation.spec_commands(),
                workgroup_size,
            ) matches Err(e) ==> r == Err::<GpuFrameCommandPlan, GpuUploadError>(
                GpuUploadError::Preparation(e),
            ),
            r == Err::<GpuFrameCommandPlan, GpuUploadError>(GpuUploadError::AllocationFailed) || (
            spec_command_plan(
                preparation.spec_instances(),
                preparation.spec_commands(),
                workgroup_size,
            ) is Err) ==> final(instances)@ == old(instances)@ && final(indirect_commands)@
                == old(indirect_commands)@,
            r matches Ok(plan) ==> {
                &&& Ok::<GpuFrameCommandPlan, GpuPreparationError>(plan) == spec_command_plan(
                    preparation.spec_instances(),
                    preparation.spec_commands(),
                    workgroup_size,
                )
                &&& first_geometry_error_from(geometry@, preparation.spec_commands(), 0) is None
                &&& final(instances)@ == instance_stream(preparation.spec_instances())
                &&& final(indirect_commands)@ == indirect_stream(
                    geometry@,
                    preparation.spec_commands(),
                )
            },
            spec_command_plan(
                preparation.spec_instances(),
                preparation.spec_commands(),
                workgroup_size,
            ) is Ok ==> match first_geometry_error_from(geometry@, preparation.spec_commands(), 0) {
                Some(e) => r == Err::<GpuFrameCommandPlan, GpuUploadError>(
                    GpuUploadError::Preparation(e),
                ) || r == Err::<GpuFrameCommandPlan, GpuUploadError>(
                    GpuUploadError::AllocationFailed,
                ),
                None => r is Ok || r == Err::<GpuFrameCommandPlan, GpuUploadError>(
                    GpuUploadError::AllocationFailed,
                ),
            },
    {
        let plan = match preparation.command_plan(workgroup_size) {
            Ok(plan) => plan,
            Err(e) => {
                return Err(GpuUploadError::Preparation(e));
            },
        };
        let instance_bytes = plan.instance_upload_bytes;
        let indirect_bytes = plan.indirect_upload_bytes;
        if instances.try_reserve(instance_bytes.saturating_sub(instances.len())).is_err() {
            return Err(GpuUploadError::AllocationFailed);
        }
        if indirect_commands.try_reserve(indirect_bytes.saturating_sub(indirect_commands.len())).is_err() {
            return Err(GpuUploadError::AllocationFailed);
        }
        resize_zeroed(instances, instance_bytes);
        resize_zeroed(indirect_commands, indirect_bytes);
        let ghost insts = preparation.spec_instances();
        let ghost cmds = preparation.spec_commands();
        match preparation.encode_instance_records(instances.as_mut_slice()) {
            Ok(_) => {},
            Err(e) => {
                return Err(GpuUploadError::Preparation(e));
            },
        }
        assert(instances@ =~= instance_stream(insts));
        match preparation.encode_indexed_commands(geometry, indirect_commands.as_mut_slice()) {
            Ok(_) => {},
            Err(e) => {
                return Err(GpuUploadError::Preparation(e));
            },
        }
        assert(indirect_commands@ =~= indirect_stream(geometry@, cmds));
        Ok(plan)
    }

    pub fn plan(&self) -> (r: GpuFrameCommandPlan)
        ensures
            r == self.spec_plan(),
    {
        self.plan
    }

    pub fn instance_bytes(&self) -> (r: &[u8])
        ensures
            r@ == self.spec_instance_bytes(),
    {
        self.instances.as_slice()
    }

    pub fn indirect_command_bytes(&self) -> (r: &[u8])
        ensures
            r@ == self.spec_indirect_bytes(),
    {
        self.indirect_commands.as_slice()
    }
}

/// Cuts `v` to `len` bytes or extends it with zeros.
fn resize_zeroed(v: &mut Vec<u8>, len: usize)
    ensures
        final(v)@.len() == len,
        forall|i: int| 0 <= i < len ==> #[trigger] final(v)@[i] == if i < old(v)@.len() {
            old(v)@[i]
        } else {
            0u8
        },
{
    if len <= v.len() {
        v.truncate(len);
    } else {
        while v.len() < len
            invariant
                old(v)@.len() <= v@.len() <= len,
                forall|i: int| 0 <= i < v@.len() ==> #[trigger] v@[i] == if i < old(v)@.len() {
                    old(v)@[i]
                } else {
                    0u8
                },
            decreases len - v.len(),
        {
            v.push(0);
        }
    }
}

/// Backend boundary shared by headless, native Vulkan and test backends.
pub trait RenderBackend {
    fn submit(&mut self, preparation: &GpuFramePreparation) -> Result<
        RenderSubmissionStats,
        RenderSubmitError,
    >;
}

/// Deterministic no-GPU backend: counts the frames, instances and commands
/// of every valid preparation it is handed.
pub struct HeadlessRenderBackend {
    stats: RenderSubmissionStats,
}

impl HeadlessRenderBackend {
    pub closed spec fn spec_stats(&self) -> RenderSubmissionStats {
        self.stats
    }

    pub fn new() -> (r: Self)
        ensures
            r.spec_stats() == (RenderSubmissionStats {
                submitted_frames: 0,
                submitted_instances: 0,
                submitted_commands: 0,
            }),
    {
        HeadlessRenderBackend {
            stats: RenderSubmissionStats {
                submitted_frames: 0,
                submitted_instances: 0,
                submitted_commands: 0,
            },
        }
    }

    pub fn stats(&self) -> (r: RenderSubmissionStats)
        ensures
            r == self.spec_stats(),
    {
        self.stats
    }
}

impl Default for HeadlessRenderBackend {
    fn default() -> (r: Self)
        ensures
            r.spec_stats() == (RenderSubmissionStats {
                submitted_frames: 0,
                submitted_instances: 0,
                submitted_commands: 0,
            }),
    {
        HeadlessRenderBackend::new()
    }
}

/// Counter `c` after adding `n`, saturating at the top of `u64`.
pub open spec fn saturating_add_u64(c: u64, n: int) -> u64 {
    if c + n > u64::MAX {
        u64::MAX
    } else {
        (c + n) as u64
    }
}

impl RenderBackend for HeadlessRenderBackend {
    /// Accepts a valid preparation and adds it to the running totals
    /// (saturating); an invalid one is refused and counts nothing.
    fn submit(&mut self, preparation: &GpuFramePreparation) -> (r: Result<
        RenderSubmissionStats,
        RenderSubmitError,
    >)
        ensures
            spec_validate(
                preparation.spec_commands(),
                preparation.spec_instances().len() as int,
            ) is Err ==> r == Err::<RenderSubmissionStats, RenderSubmitError>(
                RenderSubmitError::InvalidPreparation,
            ) && final(self).spec_stats() == old(self).spec_stats(),
            spec_validate(
                preparation.spec_commands(),
                preparation.spec_instances().len() as int,
            ) is Ok ==> {
                &&& final(self).spec_stats().submitted_frames == saturating_add_u64(
                    old(self).spec_stats().submitted_frames,
                    1,
                )
                &&& final(self).spec_stats().submitted_instances == saturating_add_u64(
                    old(self).spec_stats().submitted_instances,
                    preparation.spec_instances().len() as int,
                )
                &&& final(self).spec_stats().submitted_commands == saturating_add_u64(
                    old(self).spec_stats().submitted_commands,
                    preparation.spec_commands().len() as int,
                )
                &&& r == Ok::<RenderSubmissionStats, RenderSubmitError>(final(self).spec_stats())
            },
    {
        match preparation.validate() {
            Err(_) => {
                return Err(RenderSubmitError::InvalidPreparation);
            },
            Ok(()) => {},
        }
        self.stats.submitted_frames = self.stats.submitted_frames.saturating_add(1);
        self.stats.submitted_instances = self.stats.submitted_instances.saturating_add(
            preparation.instances().len() as u64,
        );
        self.stats.submitted_commands = self.stats.submitted_commands.saturating_add(
            preparation.commands().len() as u64,
        );
        Ok(self.stats)
    }
}

} // verus!
