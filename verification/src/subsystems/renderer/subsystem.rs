//! The renderer subsystem's per-frame decisions. Each tick copies the
//! frame's drawables into the render world, rebuilds the manifest and the
//! GPU preparation, and submits it: to the headless backend here, or, when
//! a native present engine is attached, by asking the caller to present and
//! report back.
use vstd::prelude::*;

use crate::platform::present::{PresentSize, PresentStatus};
use crate::subsystems::messages::WindowResized;
use crate::subsystems::renderer::frame::{
    drawables, spec_validate, typed_projections, CpuRenderManifest, Entity, ExtractionStats,
    GpuFramePreparation, GpuFrameUpload, GpuUploadError, HeadlessRenderBackend, IndexedGeometry,
    RenderBackend, RenderMaterial, RenderSubmissionStats, RenderSubmitError, RenderTransform,
    RenderWorld, spec_command_plan, first_geometry_error_from,
};
use crate::subsystems::renderer::{RenderStats, RendererState};

verus! {

/// Capacity of the render world, manifest and GPU preparation.
pub const RENDER_CAPACITY: usize = 4096;

/// Topic on which window resizes arrive.
pub const TOPIC_WINDOW_RESIZED: u16 = 1;

/// What the caller must do for the renderer after a step.
#[derive(Clone, Copy, Debug, PartialEq, Eq, Structural)]
pub enum RendererAction {
    Nothing,
    /// Present the prepared frame on the native engine and report the
    /// outcome with `native_presented`.
    PresentNative,
    /// Rebuild the native swapchain at this size.
    RecreateNative(PresentSize),
}

/// Stats after one more frame of `dt_ns`, both saturating.
pub open spec fn next_stats(s: RenderStats, dt_ns: u64) -> RenderStats {
    RenderStats {
        frames: if s.frames == u64::MAX {
            u64::MAX
        } else {
            (s.frames + 1) as u64
        },
        total_dt_ns: if s.total_dt_ns + dt_ns > u128::MAX {
            u128::MAX
        } else {
            (s.total_dt_ns + dt_ns) as u128
        },
    }
}

pub struct RendererSubsystem {
    state: RendererState,
    stats: RenderStats,
    native: Option<PresentSize>,
    last_resize: Option<(u32, u32)>,
    render_world: RenderWorld,
    manifest: CpuRenderManifest,
    gpu_preparation: GpuFramePreparation,
    headless_backend: HeadlessRenderBackend,
    last_submission: Option<RenderSubmissionStats>,
    last_extraction: Option<ExtractionStats>,
    extraction_overflowed: bool,
    manifest_overflowed: bool,
}

impl RendererSubsystem {
    pub closed spec fn spec_state(&self) -> RendererState {
        self.state
    }

    pub closed spec fn spec_stats(&self) -> RenderStats {
        self.stats
    }

    pub closed spec fn spec_native(&self) -> Option<PresentSize> {
        self.native
    }

    pub closed spec fn spec_last_resize(&self) -> Option<(u32, u32)> {
        self.last_resize
    }

    pub closed spec fn spec_render_world(&self) -> RenderWorld {
        self.render_world
    }

    pub closed spec fn spec_manifest(&self) -> CpuRenderManifest {
        self.manifest
    }

    pub closed spec fn spec_preparation(&self) -> GpuFramePreparation {
        self.gpu_preparation
    }

    pub closed spec fn spec_last_submission(&self) -> Option<RenderSubmissionStats> {
        self.last_submission
    }

    pub closed spec fn spec_last_extraction(&self) -> Option<ExtractionStats> {
        self.last_extraction
    }

    pub closed spec fn spec_extraction_overflowed(&self) -> bool {
        self.extraction_overflowed
    }

    pub closed spec fn spec_manifest_overflowed(&self) -> bool {
        self.manifest_overflowed
    }

    /// The render world stays within its capacity.
    pub closed spec fn wf(&self) -> bool {
        self.render_world.wf()
    }

    /// A headless renderer with empty frame state.
    pub fn new() -> (r: Self)
        ensures
            r.wf(),
            r.spec_state() == RendererState::New,
            r.spec_stats() == (RenderStats { frames: 0, total_dt_ns: 0 }),
            r.spec_native() is None,
            r.spec_render_world()@.len() == 0,
            r.spec_render_world().capacity() == RENDER_CAPACITY,
            r.spec_last_submission() is None,
            r.spec_last_extraction() is None,
            r.spec_last_resize() is None,
            !r.spec_extraction_overflowed(),
            !r.spec_manifest_overflowed(),
    {
        RendererSubsystem {
            state: RendererState::New,
            stats: RenderStats { frames: 0, total_dt_ns: 0 },
            native: None,
            last_resize: None,
            render_world: RenderWorld::with_capacity(RENDER_CAPACITY),
            manifest: CpuRenderManifest::with_capacity(RENDER_CAPACITY, RENDER_CAPACITY),
            gpu_preparation: GpuFramePreparation::with_capacity(RENDER_CAPACITY, RENDER_CAPACITY),
            headless_backend: HeadlessRenderBackend::new(),
            last_submission: None,
            last_extraction: None,
            extraction_overflowed: false,
            manifest_overflowed: false,
        }
    }

    /// A renderer that presents through a native engine of window `size`.
    pub fn with_native(size: PresentSize) -> (r: Self)
        ensures
            r.wf(),
            r.spec_state() == RendererState::New,
            r.spec_stats() == (RenderStats { frames: 0, total_dt_ns: 0 }),
            r.spec_native() == Some(size),
            r.spec_render_world()@.len() == 0,
            r.spec_last_submission() is None,
    {
        let mut r = Self::new();
        r.native = Some(size);
        r
    }

    pub fn name(&self) -> (r: &'static str)
        ensures
            r@ == "renderer"@,
    {
        "renderer"
    }

    /// The subsystems that must tick before the renderer.
    pub fn dependencies(&self) -> (r: Vec<&'static str>)
        ensures
            r@.len() == 1,
            r@[0]@ == "window"@,
    {
        let mut v: Vec<&'static str> = Vec::new();
        v.push("window");
        v
    }

    /// Start-up: a new renderer becomes ready.
    pub fn init(&mut self)
        ensures
            old(self).spec_state() == RendererState::New ==> final(self).spec_state()
                == RendererState::Ready,
            old(self).spec_state() != RendererState::New ==> final(self).spec_state() == old(
                self).spec_state(),
            final(self).spec_stats() == old(self).spec_stats(),
            final(self).wf() == old(self).wf(),
    {
        if self.state == RendererState::New {
            self.state = RendererState::Ready;
        }
    }

    /// Shutdown: a ready renderer stops; any other state stays.
    pub fn shutdown(&mut self)
        ensures
            old(self).spec_state() == RendererState::Ready ==> final(self).spec_state()
                == RendererState::Shutdown,
            old(self).spec_state() != RendererState::Ready ==> final(self).spec_state() == old(
                self).spec_state(),
            final(self).wf() == old(self).wf(),
    {
        if self.state == RendererState::Ready {
            self.state = RendererState::Shutdown;
        }
    }

    /// One frame. A renderer that is not ready does nothing. Otherwise the
    /// frame's drawables (one entry per simulation entity, with its render
    /// components when present) are extracted; on success the manifest and
    /// GPU preparation are rebuilt, and the prepared frame is submitted to
    /// the headless backend, or the caller is asked to present it natively.
    /// A failed extraction (more drawables than the render world holds, or
    /// an allocation that failed partway, leaving the leading drawables)
    /// marks both the extraction and the manifest as overflowed. The frame counter and elapsed time advance (saturating).
    pub fn tick(
        &mut self,
        components: &[(Entity, Option<RenderTransform>, Option<RenderMaterial>)],
        dt_ns: u64,
    ) -> (r: RendererAction)
        requires
            old(self).wf(),
        ensures
            final(self).wf(),
            final(self).spec_native() == old(self).spec_native(),
            final(self).spec_state() == old(self).spec_state(),
            final(self).spec_last_resize() == old(self).spec_last_resize(),
            old(self).spec_state() != RendererState::Ready ==> r == RendererAction::Nothing
                && final(self).spec_stats() == old(self).spec_stats() && final(
                self).spec_last_submission() == old(self).spec_last_submission()
                && final(self).spec_render_world()@ == old(self).spec_render_world()@,
            old(self).spec_state() == RendererState::Ready ==> {
                &&& final(self).spec_stats() == next_stats(old(self).spec_stats(), dt_ns)
                &&& !final(self).spec_extraction_overflowed() ==> (final(
                    self).spec_last_extraction() matches Some(stats) && stats.considered
                    == components@.len())
                &&& !final(self).spec_extraction_overflowed() ==> final(
                    self).spec_render_world()@ == drawables(typed_projections(components@))
                &&& drawables(typed_projections(components@)).len() > RENDER_CAPACITY
                    && old(self).spec_render_world().capacity() == RENDER_CAPACITY ==> final(
                    self).spec_extraction_overflowed()
                &&& final(self).spec_extraction_overflowed() ==> final(
                    self).spec_manifest_overflowed() && r == RendererAction::Nothing
                &&& final(self).spec_extraction_overflowed() ==> {
                    let d = drawables(typed_projections(components@));
                    let w = final(self).spec_render_world()@;
                    &&& w == d.take(w.len() as int)
                    &&& d.len() > old(self).spec_render_world().capacity() || w.len() < old(
                        self,
                    ).spec_render_world().capacity()
                }
                &&& !final(self).spec_manifest_overflowed() ==> {
                    &&& final(self).spec_preparation().spec_instances() == final(
                        self).spec_manifest().spec_instances()
                    &&& final(self).spec_manifest().spec_instances().to_multiset() == final(
                        self).spec_render_world()@.to_multiset()
                }
                &&& r == RendererAction::PresentNative <==> old(self).spec_native() is Some
                    && !final(self).spec_manifest_overflowed()
                &&& old(self).spec_native() is None && !final(self).spec_manifest_overflowed()
                    ==> final(self).spec_last_submission() is Some
            },
    {
        if self.state != RendererState::Ready {
            return RendererAction::Nothing;
        }
        let mut action = RendererAction::Nothing;
        match self.render_world.extract_typed(components) {
            Ok(stats) => {
                self.last_extraction = Some(stats);
                self.extraction_overflowed = false;
                self.manifest_overflowed = self.manifest.build(&self.render_world).is_err();
                if !self.manifest_overflowed {
                    self.manifest_overflowed = self.gpu_preparation.prepare(&self.manifest).is_err();
                }
                if !self.manifest_overflowed {
                    proof {
                        crate::subsystems::renderer::frame::lemma_prepared_commands_valid(
                            self.manifest.spec_batches(),
                        );
                    }
                    if self.native.is_some() {
                        action = RendererAction::PresentNative;
                    } else {
                        match self.headless_backend.submit(&self.gpu_preparation) {
                            Ok(stats) => {
                                self.last_submission = Some(stats);
                            },
                            Err(_) => {},
                        }
                    }
                }
            },
            Err(_) => {
                self.extraction_overflowed = true;
                self.manifest_overflowed = true;
            },
        }
        self.stats.frames = self.stats.frames.saturating_add(1);
        self.stats.total_dt_ns = self.stats.total_dt_ns.saturating_add(dt_ns as u128);
        action
    }

    /// The native engine's outcome for the frame the last tick asked to
    /// present. A frame that is not a valid preparation counts as refused;
    /// a presented frame records one frame's submission; an out-of-date
    /// swapchain asks for a rebuild at the current size; a failure clears
    /// the last submission.
    pub fn native_presented(&mut self, outcome: Result<PresentStatus, ()>) -> (r: RendererAction)
        ensures
            final(self).wf() == old(self).wf(),
            final(self).spec_stats() == old(self).spec_stats(),
            final(self).spec_native() == old(self).spec_native(),
            spec_validate(
                old(self).spec_preparation().spec_commands(),
                old(self).spec_preparation().spec_instances().len() as int,
            ) is Ok && outcome == Ok::<PresentStatus, ()>(PresentStatus::Presented) ==> r
                == RendererAction::Nothing && final(self).spec_last_submission() == Some(
                RenderSubmissionStats {
                    submitted_frames: 1,
                    submitted_instances: old(self).spec_preparation().spec_instances().len() as u64,
                    submitted_commands: old(self).spec_preparation().spec_commands().len() as u64,
                },
            ),
            spec_validate(
                old(self).spec_preparation().spec_commands(),
                old(self).spec_preparation().spec_instances().len() as int,
            ) is Ok && outcome == Ok::<PresentStatus, ()>(PresentStatus::OutOfDate) ==> final(
                self).spec_last_submission() == old(self).spec_last_submission() && (match old(
                self).spec_native() {
                Some(size) => r == RendererAction::RecreateNative(size),
                None => r == RendererAction::Nothing,
            }),
            spec_validate(
                old(self).spec_preparation().spec_commands(),
                old(self).spec_preparation().spec_instances().len() as int,
            ) is Err || outcome is Err ==> r == RendererAction::Nothing && final(
                self).spec_last_submission() is None,
    {
        if self.gpu_preparation.validate().is_err() {
            self.last_submission = None;
            return RendererAction::Nothing;
        }
        match outcome {
            Ok(PresentStatus::Presented) => {
                self.last_submission = Some(
                    RenderSubmissionStats {
                        submitted_frames: 1,
                        submitted_instances: self.gpu_preparation.instances().len() as u64,
                        submitted_commands: self.gpu_preparation.commands().len() as u64,
                    },
                );
                RendererAction::Nothing
            },
            Ok(PresentStatus::OutOfDate) => match self.native {
                Some(size) => RendererAction::RecreateNative(size),
                None => RendererAction::Nothing,
            },
            Err(()) => {
                self.last_submission = None;
                RendererAction::Nothing
            },
        }
    }

    /// A message from the bus: a window resize (topic 1) is remembered and,
    /// with a native engine, asks for a swapchain rebuild at the new size.
    pub fn receive(&mut self, topic: u16, resize: Option<WindowResized>) -> (r: RendererAction)
        ensures
            final(self).wf() == old(self).wf(),
            final(self).spec_stats() == old(self).spec_stats(),
            topic == TOPIC_WINDOW_RESIZED && resize is Some ==> {
                let size = resize.unwrap();
                &&& final(self).spec_last_resize() == Some((size.width, size.height))
                &&& old(self).spec_native() is Some ==> final(self).spec_native() == Some(
                    PresentSize { width: size.width, height: size.height },
                ) && r == RendererAction::RecreateNative(
                    PresentSize { width: size.width, height: size.height },
                )
                &&& old(self).spec_native() is None ==> final(self).spec_native() is None && r
                    == RendererAction::Nothing
            },
            !(topic == TOPIC_WINDOW_RESIZED && resize is Some) ==> r == RendererAction::Nothing
                && final(self).spec_last_resize() == old(self).spec_last_resize() && final(
                self).spec_native() == old(self).spec_native(),
    {
        if topic != TOPIC_WINDOW_RESIZED {
            return RendererAction::Nothing;
        }
        match resize {
            Some(size) => {
                self.last_resize = Some((size.width, size.height));
                self.recreate_native(PresentSize { width: size.width, height: size.height })
            },
            None => RendererAction::Nothing,
        }
    }

    /// Notes a new native size and asks for a swapchain rebuild; a headless
    /// renderer ignores it.
    pub fn recreate_native(&mut self, size: PresentSize) -> (r: RendererAction)
        ensures
            final(self).wf() == old(self).wf(),
            final(self).spec_stats() == old(self).spec_stats(),
            final(self).spec_last_resize() == old(self).spec_last_resize(),
            old(self).spec_native() is Some ==> final(self).spec_native() == Some(size) && r
                == RendererAction::RecreateNative(size),
            old(self).spec_native() is None ==> final(self).spec_native() is None && r
                == RendererAction::Nothing,
    {
        if self.native.is_some() {
            self.native = Some(size);
            RendererAction::RecreateNative(size)
        } else {
            RendererAction::Nothing
        }
    }

    pub fn is_native(&self) -> (r: bool)
        ensures
            r == self.spec_native() is Some,
    {
        self.native.is_some()
    }

    pub fn state(&self) -> (r: RendererState)
        ensures
            r == self.spec_state(),
    {
        self.state
    }

    pub fn stats(&self) -> (r: RenderStats)
        ensures
            r == self.spec_stats(),
    {
        self.stats
    }

    pub fn last_resize(&self) -> (r: Option<(u32, u32)>)
        ensures
            r == self.spec_last_resize(),
    {
        self.last_resize
    }

    pub fn render_world(&self) -> (r: &RenderWorld)
        ensures
            *r == self.spec_render_world(),
    {
        &self.render_world
    }

    pub fn manifest(&self) -> (r: &CpuRenderManifest)
        ensures
            *r == self.spec_manifest(),
    {
        &self.manifest
    }

    pub fn manifest_overflowed(&self) -> (r: bool)
        ensures
            r == self.spec_manifest_overflowed(),
    {
        self.manifest_overflowed
    }

    pub fn gpu_preparation(&self) -> (r: &GpuFramePreparation)
        ensures
            *r == self.spec_preparation(),
    {
        &self.gpu_preparation
    }

    /// The upload payload of the latest prepared frame.
    pub fn build_gpu_upload(&self, geometry: &[IndexedGeometry], workgroup_size: u32) -> (r:
        Result<GpuFrameUpload, GpuUploadError>)
        ensures
            spec_command_plan(
                self.spec_preparation().spec_instances(),
                self.spec_preparation().spec_commands(),
                workgroup_size,
            ) matches Err(e) ==> r == Err::<GpuFrameUpload, GpuUploadError>(
                GpuUploadError::Preparation(e),
            ),
            r matches Ok(upload) ==> Ok::<_, crate::subsystems::renderer::frame::GpuPreparationError>(upload.spec_plan())
                == spec_command_plan(
                self.spec_preparation().spec_instances(),
                self.spec_preparation().spec_commands(),
                workgroup_size,
            ) && first_geometry_error_from(geometry@, self.spec_preparation().spec_commands(), 0)
                is None,
    {
        GpuFrameUpload::try_build(&self.gpu_preparation, geometry, workgroup_size)
    }

    pub fn last_submission(&self) -> (r: Option<RenderSubmissionStats>)
        ensures
            r == self.spec_last_submission(),
    {
        self.last_submission
    }

    pub fn last_extraction(&self) -> (r: Option<ExtractionStats>)
        ensures
            r == self.spec_last_extraction(),
    {
        self.last_extraction
    }

    pub fn extraction_overflowed(&self) -> (r: bool)
        ensures
            r == self.spec_extraction_overflowed(),
    {
        self.extraction_overflowed
    }
}

impl Default for RendererSubsystem {
    fn default() -> (r: Self)
        ensures
            r.wf(),
            r.spec_state() == RendererState::New,
            r.spec_native() is None,
    {
        Self::new()
    }
}

} // verus!
