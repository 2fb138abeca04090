//! Renderer lifecycle state machines, device planning, and bounded frame
//! planning. Every lifecycle object accepts exactly one transition out of
//! each state and leaves itself unchanged when a transition is refused.
use vstd::prelude::*;

pub mod determinism;
pub mod frame;
pub mod subsystem;

pub use subsystem::{RendererAction, RendererSubsystem};

pub use frame::{
    CpuRenderManifest, DrawBatch, Entity, ExtractionStats, GpuFrameCommandPlan,
    GpuFramePreparation, GpuFrameUpload, GpuInstanceRecord, GpuPreparationError, GpuUploadError,
    HeadlessRenderBackend, IndexedGeometry, IndirectDrawCommand, RenderBackend, RenderInstance,
    RenderManifestError, RenderMaterial, RenderSubmissionStats, RenderSubmitError,
    RenderTransform, RenderWorld, RenderWorldError, VulkanIndexedIndirectCommand,
    GPU_INSTANCE_RECORD_SIZE, VULKAN_INDEXED_INDIRECT_COMMAND_SIZE,
};

use crate::platform::vulkan_policy::{
    select_queue_families, spec_select_queue_families, QueueFamilyInfo, QueueSelection,
};

verus! {

#[derive(Clone, Copy, Debug, PartialEq, Eq)]
pub struct GpuCandidate {
    pub device_score: u8,
    pub queue_families: &'static [QueueFamilyInfo],
}

#[derive(Clone, Copy, Debug, PartialEq, Eq)]
pub struct RenderDevicePlan {
    pub candidate_index: usize,
    pub queues: QueueSelection,
}

#[derive(Clone, Copy, Debug, PartialEq, Eq, Structural)]
pub enum RenderDevicePlanError {
    NoSuitableDevice,
}

#[derive(Clone, Copy, Debug, PartialEq, Eq, Structural)]
pub enum CommandState {
    Initial,
    Recording,
    Executable,
    Submitted,
}

#[derive(Clone, Copy, Debug, PartialEq, Eq, Structural)]
pub enum CommandError {
    InvalidTransition,
    AllocationFailed,
}

#[derive(Clone, Copy, Debug, PartialEq, Eq, Structural)]
pub enum FrameState {
    Available,
    Acquired,
    Submitted,
}

#[derive(Clone, Copy, Debug, PartialEq, Eq, Structural)]
pub enum FenceState {
    Unsignaled,
    Submitted,
    Signaled,
}

#[derive(Clone, Copy, Debug, PartialEq, Eq, Structural)]
pub enum SemaphoreState {
    Unsignaled,
    Signaled,
}

#[derive(Clone, Copy, Debug, PartialEq, Eq, Structural)]
pub enum SurfaceState {
    Uncreated,
    Ready,
    Destroyed,
}

#[derive(Clone, Copy, Debug, PartialEq, Eq, Structural)]
pub enum SwapchainState {
    Uncreated,
    Ready,
    OutOfDate,
    Destroyed,
}

/// The outcome of one guarded transition: it succeeds exactly when
/// `allowed`, moving to `target`; a refused transition reports
/// `InvalidTransition` and leaves the state as it was.
pub open spec fn guarded<S>(
    r: Result<(), CommandError>,
    before: S,
    after: S,
    allowed: bool,
    target: S,
) -> bool {
    &&& r is Ok <==> allowed
    &&& allowed ==> after == target
    &&& !allowed ==> after == before && r == Err::<(), CommandError>(CommandError::InvalidTransition)
}

#[derive(Clone, Copy, Debug, PartialEq, Eq)]
pub struct SurfaceLifecycle {
    state: SurfaceState,
}

impl View for SurfaceLifecycle {
    type V = SurfaceState;

    closed spec fn view(&self) -> SurfaceState {
        self.state
    }
}

impl SurfaceLifecycle {
    pub fn new() -> (r: Self)
        ensures
            r@ == SurfaceState::Uncreated,
    {
        Self { state: SurfaceState::Uncreated }
    }

    pub fn state(self) -> (r: SurfaceState)
        ensures
            r == self@,
    {
        self.state
    }

    pub fn create(&mut self) -> (r: Result<(), CommandError>)
        ensures
            guarded(r, old(self)@, final(self)@, old(self)@ == SurfaceState::Uncreated, SurfaceState::Ready),
    {
        if self.state != SurfaceState::Uncreated {
            return Err(CommandError::InvalidTransition);
        }
        self.state = SurfaceState::Ready;
        Ok(())
    }

    pub fn destroy(&mut self) -> (r: Result<(), CommandError>)
        ensures
            guarded(r, old(self)@, final(self)@, old(self)@ == SurfaceState::Ready, SurfaceState::Destroyed),
    {
        if self.state != SurfaceState::Ready {
            return Err(CommandError::InvalidTransition);
        }
        self.state = SurfaceState::Destroyed;
        Ok(())
    }
}

impl Default for SurfaceLifecycle {
    fn default() -> (r: Self)
        ensures
            r@ == SurfaceState::Uncreated,
    {
        Self::new()
    }
}

#[derive(Clone, Copy, Debug, PartialEq, Eq)]
pub struct SwapchainConfig {
    pub width: u32,
    pub height: u32,
    pub image_count: u32,
    pub format: u32,
    pub present_mode: u32,
}

impl SwapchainConfig {
    /// A usable configuration has a nonzero extent, at least two images and a
    /// defined format.
    pub open spec fn spec_valid(self) -> bool {
        self.width != 0 && self.height != 0 && self.image_count >= 2 && self.format != 0
    }

    pub fn validate(self) -> (r: Result<Self, CommandError>)
        ensures
            r is Ok <==> self.spec_valid(),
            r matches Ok(c) ==> c == self,
            r matches Err(e) ==> e == CommandError::InvalidTransition,
    {
        if self.width == 0 || self.height == 0 || self.image_count < 2 || self.format == 0 {
            return Err(CommandError::InvalidTransition);
        }
        Ok(self)
    }
}

#[derive(Clone, Copy, Debug, PartialEq, Eq)]
pub struct SwapchainLifecycle {
    state: SwapchainState,
}

impl View for SwapchainLifecycle {
    type V = SwapchainState;

    closed spec fn view(&self) -> SwapchainState {
        self.state
    }
}

impl SwapchainLifecycle {
    pub fn new() -> (r: Self)
        ensures
            r@ == SwapchainState::Uncreated,
    {
        Self { state: SwapchainState::Uncreated }
    }

    pub fn state(self) -> (r: SwapchainState)
        ensures
            r == self@,
    {
        self.state
    }

    /// A swapchain is created once, and only over a ready surface.
    pub fn create(&mut self, surface: SurfaceState) -> (r: Result<(), CommandError>)
        ensures
            guarded(
                r,
                old(self)@,
                final(self)@,
                old(self)@ == SwapchainState::Uncreated && surface == SurfaceState::Ready,
                SwapchainState::Ready,
            ),
    {
        if self.state != SwapchainState::Uncreated || surface != SurfaceState::Ready {
            return Err(CommandError::InvalidTransition);
        }
        self.state = SwapchainState::Ready;
        Ok(())
    }

    pub fn mark_out_of_date(&mut self) -> (r: Result<(), CommandError>)
        ensures
            guarded(r, old(self)@, final(self)@, old(self)@ == SwapchainState::Ready, SwapchainState::OutOfDate),
    {
        if self.state != SwapchainState::Ready {
            return Err(CommandError::InvalidTransition);
        }
        self.state = SwapchainState::OutOfDate;
        Ok(())
    }

    pub fn destroy(&mut self) -> (r: Result<(), CommandError>)
        ensures
            guarded(
                r,
                old(self)@,
                final(self)@,
                old(self)@ == SwapchainState::Ready || old(self)@ == SwapchainState::OutOfDate,
                SwapchainState::Destroyed,
            ),
    {
        if !matches!(self.state, SwapchainState::Ready | SwapchainState::OutOfDate) {
            return Err(CommandError::InvalidTransition);
        }
        self.state = SwapchainState::Destroyed;
        Ok(())
    }
}

impl Default for SwapchainLifecycle {
    fn default() -> (r: Self)
        ensures
            r@ == SwapchainState::Uncreated,
    {
        Self::new()
    }
}

#[derive(Clone, Copy, Debug, PartialEq, Eq)]
pub struct BinarySemaphore {
    state: SemaphoreState,
}

impl View for BinarySemaphore {
    type V = SemaphoreState;

    closed spec fn view(&self) -> SemaphoreState {
        self.state
    }
}

impl BinarySemaphore {
    pub fn new() -> (r: Self)
        ensures
            r@ == SemaphoreState::Unsignaled,
    {
        Self { state: SemaphoreState::Unsignaled }
    }

    pub fn state(self) -> (r: SemaphoreState)
        ensures
            r == self@,
    {
        self.state
    }

    pub fn signal(&mut self) -> (r: Result<(), CommandError>)
        ensures
            guarded(r, old(self)@, final(self)@, old(self)@ == SemaphoreState::Unsignaled, SemaphoreState::Signaled),
    {
        if self.state != SemaphoreState::Unsignaled {
            return Err(CommandError::InvalidTransition);
        }
        self.state = SemaphoreState::Signaled;
        Ok(())
    }

    pub fn consume(&mut self) -> (r: Result<(), CommandError>)
        ensures
            guarded(r, old(self)@, final(self)@, old(self)@ == SemaphoreState::Signaled, SemaphoreState::Unsignaled),
    {
        if self.state != SemaphoreState::Signaled {
            return Err(CommandError::InvalidTransition);
        }
        self.state = SemaphoreState::Unsignaled;
        Ok(())
    }
}

impl Default for BinarySemaphore {
    fn default() -> (r: Self)
        ensures
            r@ == SemaphoreState::Unsignaled,
    {
        Self::new()
    }
}

#[derive(Clone, Copy, Debug, PartialEq, Eq)]
pub struct Fence {
    state: FenceState,
}

impl View for Fence {
    type V = FenceState;

    closed spec fn view(&self) -> FenceState {
        self.state
    }
}

impl Fence {
    pub fn new() -> (r: Self)
        ensures
            r@ == FenceState::Unsignaled,
    {
        Self { state: FenceState::Unsignaled }
    }

    pub fn state(self) -> (r: FenceState)
        ensures
            r == self@,
    {
        self.state
    }

    pub fn submit(&mut self) -> (r: Result<(), CommandError>)
        ensures
            guarded(r, old(self)@, final(self)@, old(self)@ == FenceState::Unsignaled, FenceState::Submitted),
    {
        if self.state != FenceState::Unsignaled {
            return Err(CommandError::InvalidTransition);
        }
        self.state = FenceState::Submitted;
        Ok(())
    }

    pub fn signal(&mut self) -> (r: Result<(), CommandError>)
        ensures
            guarded(r, old(self)@, final(self)@, old(self)@ == FenceState::Submitted, FenceState::Signaled),
    {
        if self.state != FenceState::Submitted {
            return Err(CommandError::InvalidTransition);
        }
        self.state = FenceState::Signaled;
        Ok(())
    }

    pub fn reset(&mut self) -> (r: Result<(), CommandError>)
        ensures
            guarded(r, old(self)@, final(self)@, old(self)@ == FenceState::Signaled, FenceState::Unsignaled),
    {
        if self.state != FenceState::Signaled {
            return Err(CommandError::InvalidTransition);
        }
        self.state = FenceState::Unsignaled;
        Ok(())
    }
}

impl Default for Fence {
    fn default() -> (r: Self)
        ensures
            r@ == FenceState::Unsignaled,
    {
        Self::new()
    }
}

#[derive(Clone, Copy, Debug, PartialEq, Eq)]
pub struct FrameSlot {
    state: FrameState,
}

impl View for FrameSlot {
    type V = FrameState;

    closed spec fn view(&self) -> FrameState {
        self.state
    }
}

impl FrameSlot {
    pub fn new() -> (r: Self)
        ensures
            r@ == FrameState::Available,
    {
        Self { state: FrameState::Available }
    }

    pub fn state(self) -> (r: FrameState)
        ensures
            r == self@,
    {
        self.state
    }

    pub fn acquire(&mut self) -> (r: Result<(), CommandError>)
        ensures
            guarded(r, old(self)@, final(self)@, old(self)@ == FrameState::Available, FrameState::Acquired),
    {
        if self.state != FrameState::Available {
            return Err(CommandError::InvalidTransition);
        }
        self.state = FrameState::Acquired;
        Ok(())
    }

    pub fn submit(&mut self) -> (r: Result<(), CommandError>)
        ensures
            guarded(r, old(self)@, final(self)@, old(self)@ == FrameState::Acquired, FrameState::Submitted),
    {
        if self.state != FrameState::Acquired {
            return Err(CommandError::InvalidTransition);
        }
        self.state = FrameState::Submitted;
        Ok(())
    }

    pub fn signal(&mut self) -> (r: Result<(), CommandError>)
        ensures
            guarded(r, old(self)@, final(self)@, old(self)@ == FrameState::Submitted, FrameState::Available),
    {
        if self.state != FrameState::Submitted {
            return Err(CommandError::InvalidTransition);
        }
        self.state = FrameState::Available;
        Ok(())
    }
}

impl Default for FrameSlot {
    fn default() -> (r: Self)
        ensures
            r@ == FrameState::Available,
    {
        Self::new()
    }
}

#[derive(Clone, Copy, Debug, PartialEq, Eq)]
pub struct CommandBufferState {
    state: CommandState,
}

impl View for CommandBufferState {
    type V = CommandState;

    closed spec fn view(&self) -> CommandState {
        self.state
    }
}

impl CommandBufferState {
    pub fn new() -> (r: Self)
        ensures
            r@ == CommandState::Initial,
    {
        Self { state: CommandState::Initial }
    }

    pub fn state(self) -> (r: CommandState)
        ensures
            r == self@,
    {
        self.state
    }

    pub fn begin(&mut self) -> (r: Result<(), CommandError>)
        ensures
            guarded(r, old(self)@, final(self)@, old(self)@ == CommandState::Initial, CommandState::Recording),
    {
        if self.state != CommandState::Initial {
            return Err(CommandError::InvalidTransition);
        }
        self.state = CommandState::Recording;
        Ok(())
    }

    pub fn end(&mut self) -> (r: Result<(), CommandError>)
        ensures
            guarded(r, old(self)@, final(self)@, old(self)@ == CommandState::Recording, CommandState::Executable),
    {
        if self.state != CommandState::Recording {
            return Err(CommandError::InvalidTransition);
        }
        self.state = CommandState::Executable;
        Ok(())
    }

    pub fn submit(&mut self) -> (r: Result<(), CommandError>)
        ensures
            guarded(r, old(self)@, final(self)@, old(self)@ == CommandState::Executable, CommandState::Submitted),
    {
        if self.state != CommandState::Executable {
            return Err(CommandError::InvalidTransition);
        }
        self.state = CommandState::Submitted;
        Ok(())
    }

    pub fn reset(&mut self) -> (r: Result<(), CommandError>)
        ensures
            guarded(r, old(self)@, final(self)@, old(self)@ == CommandState::Submitted, CommandState::Initial),
    {
        if self.state != CommandState::Submitted {
            return Err(CommandError::InvalidTransition);
        }
        self.state = CommandState::Initial;
        Ok(())
    }
}

impl Default for CommandBufferState {
    fn default() -> (r: Self)
        ensures
            r@ == CommandState::Initial,
    {
        Self::new()
    }
}

/// Submits a recorded command buffer: consumes the wait semaphore, signals
/// the completion semaphore and arms the fence. All four objects move
/// together or none of them moves.
pub fn submit_frame(
    command: &mut CommandBufferState,
    wait: &mut BinarySemaphore,
    signal: &mut BinarySemaphore,
    fence: &mut Fence,
) -> (r: Result<(), CommandError>)
    ensures
        r is Ok <==> (old(command)@ == CommandState::Executable && old(wait)@
            == SemaphoreState::Signaled && old(signal)@ == SemaphoreState::Unsignaled
            && old(fence)@ == FenceState::Unsignaled),
        r is Ok ==> final(command)@ == CommandState::Submitted && final(wait)@
            == SemaphoreState::Unsignaled && final(signal)@ == SemaphoreState::Signaled
            && final(fence)@ == FenceState::Submitted,
        r is Err ==> r == Err::<(), CommandError>(CommandError::InvalidTransition)
            && final(command)@ == old(command)@ && final(wait)@ == old(wait)@ && final(signal)@
            == old(signal)@ && final(fence)@ == old(fence)@,
{
    if command.state() != CommandState::Executable || wait.state() != SemaphoreState::Signaled
        || signal.state() != SemaphoreState::Unsignaled || fence.state()
        != FenceState::Unsignaled {
        return Err(CommandError::InvalidTransition);
    }
    command.submit()?;
    wait.consume()?;
    signal.signal()?;
    fence.submit()?;
    Ok(())
}

/// The states of the five synchronization objects of one frame in flight.
pub struct FrameModel {
    pub command: CommandState,
    pub slot: FrameState,
    pub wait: SemaphoreState,
    pub signal: SemaphoreState,
    pub fence: FenceState,
}

/// `begin`: acquire the slot, then start recording. A refused recording start
/// leaves the slot acquired.
pub open spec fn frame_begin(m: FrameModel) -> (FrameModel, bool) {
    if m.slot != FrameState::Available {
        (m, false)
    } else if m.command != CommandState::Initial {
        (FrameModel { slot: FrameState::Acquired, ..m }, false)
    } else {
        (FrameModel { slot: FrameState::Acquired, command: CommandState::Recording, ..m }, true)
    }
}

/// `submit`: finish recording, submit all sync objects together, then mark
/// the slot submitted; each step keeps the effects of the steps before it.
pub open spec fn frame_submit(m: FrameModel) -> (FrameModel, bool) {
    if m.command != CommandState::Recording {
        (m, false)
    } else {
        let m1 = FrameModel { command: CommandState::Executable, ..m };
        if !(m.wait == SemaphoreState::Signaled && m.signal == SemaphoreState::Unsignaled
            && m.fence == FenceState::Unsignaled) {
            (m1, false)
        } else {
            let m2 = FrameModel {
                command: CommandState::Submitted,
                wait: SemaphoreState::Unsignaled,
                signal: SemaphoreState::Signaled,
                fence: FenceState::Submitted,
                ..m
            };
            if m2.slot != FrameState::Acquired {
                (m2, false)
            } else {
                (FrameModel { slot: FrameState::Submitted, ..m2 }, true)
            }
        }
    }
}

/// `complete`: consume the completion semaphore, signal and reset the fence,
/// release the slot and reset the command buffer, stopping at the first
/// refused step.
pub open spec fn frame_complete(m: FrameModel) -> (FrameModel, bool) {
    if m.signal != SemaphoreState::Signaled {
        (m, false)
    } else {
        let m1 = FrameModel { signal: SemaphoreState::Unsignaled, ..m };
        if m.fence != FenceState::Submitted {
            (m1, false)
        } else {
            let m2 = FrameModel { fence: FenceState::Unsignaled, ..m1 };
            if m.slot != FrameState::Submitted {
                (m2, false)
            } else {
                let m3 = FrameModel { slot: FrameState::Available, ..m2 };
                if m.command != CommandState::Submitted {
                    (m3, false)
                } else {
                    (FrameModel { command: CommandState::Initial, ..m3 }, true)
                }
            }
        }
    }
}

pub struct RenderFrame {
    pub command: CommandBufferState,
    pub slot: FrameSlot,
    pub wait: BinarySemaphore,
    pub signal: BinarySemaphore,
    pub fence: Fence,
}

impl RenderFrame {
    pub open spec fn model(&self) -> FrameModel {
        FrameModel {
            command: self.command@,
            slot: self.slot@,
            wait: self.wait@,
            signal: self.signal@,
            fence: self.fence@,
        }
    }

    pub fn new() -> (r: Self)
        ensures
            r.model() == (FrameModel {
                command: CommandState::Initial,
                slot: FrameState::Available,
                wait: SemaphoreState::Unsignaled,
                signal: SemaphoreState::Unsignaled,
                fence: FenceState::Unsignaled,
            }),
    {
        Self {
            command: CommandBufferState::new(),
            slot: FrameSlot::new(),
            wait: BinarySemaphore::new(),
            signal: BinarySemaphore::new(),
            fence: Fence::new(),
        }
    }

    pub fn begin(&mut self) -> (r: Result<(), CommandError>)
        ensures
            final(self).model() == frame_begin(old(self).model()).0,
            r is Ok <==> frame_begin(old(self).model()).1,
            r is Err ==> r == Err::<(), CommandError>(CommandError::InvalidTransition),
    {
        self.slot.acquire()?;
        self.command.begin()
    }

    pub fn submit(&mut self) -> (r: Result<(), CommandError>)
        ensures
            final(self).model() == frame_submit(old(self).model()).0,
            r is Ok <==> frame_submit(old(self).model()).1,
            r is Err ==> r == Err::<(), CommandError>(CommandError::InvalidTransition),
    {
        self.command.end()?;
        submit_frame(&mut self.command, &mut self.wait, &mut self.signal, &mut self.fence)?;
        self.slot.submit()
    }

    pub fn complete(&mut self) -> (r: Result<(), CommandError>)
        ensures
            final(self).model() == frame_complete(old(self).model()).0,
            r is Ok <==> frame_complete(old(self).model()).1,
            r is Err ==> r == Err::<(), CommandError>(CommandError::InvalidTransition),
    {
        self.signal.consume()?;
        self.fence.signal()?;
        self.fence.reset()?;
        self.slot.signal()?;
        self.command.reset()
    }
}

impl Default for RenderFrame {
    fn default() -> (r: Self)
        ensures
            r.model() == (FrameModel {
                command: CommandState::Initial,
                slot: FrameState::Available,
                wait: SemaphoreState::Unsignaled,
                signal: SemaphoreState::Unsignaled,
                fence: FenceState::Unsignaled,
            }),
    {
        Self::new()
    }
}

/// A fresh frame whose wait semaphore has been signaled runs `begin`,
/// `submit` and `complete` successfully and ends in the fresh state again,
/// ready for the next frame.
pub proof fn law_frame_cycle_returns_to_start()
    ensures
        ({
            let start = FrameModel {
                command: CommandState::Initial,
                slot: FrameState::Available,
                wait: SemaphoreState::Signaled,
                signal: SemaphoreState::Unsignaled,
                fence: FenceState::Unsignaled,
            };
            let (a, ok1) = frame_begin(start);
            let (b, ok2) = frame_submit(a);
            let (c, ok3) = frame_complete(b);
            &&& ok1 && ok2 && ok3
            &&& c == FrameModel { wait: SemaphoreState::Unsignaled, ..start }
        }),
{
}

/// A bounded pool of command buffers. Its view is the states of the
/// allocated buffers, in allocation order.
pub struct CommandPool {
    buffers: Vec<CommandBufferState>,
    capacity: usize,
}

impl View for CommandPool {
    type V = Seq<CommandState>;

    closed spec fn view(&self) -> Seq<CommandState> {
        self.buffers@.map_values(|b: CommandBufferState| b@)
    }
}

impl CommandPool {
    pub closed spec fn spec_capacity(&self) -> nat {
        self.capacity as nat
    }

    pub closed spec fn wf(&self) -> bool {
        self.buffers@.len() <= self.capacity
    }

    pub fn with_capacity(capacity: usize) -> (r: Self)
        ensures
            r.wf(),
            r@ == Seq::<CommandState>::empty(),
            r.spec_capacity() == capacity,
    {
        let r = Self { buffers: Vec::with_capacity(capacity), capacity };
        assert(r@ =~= Seq::<CommandState>::empty());
        r
    }

    pub fn try_with_capacity(capacity: usize) -> (r: Result<Self, CommandError>)
        ensures
            r matches Ok(p) ==> p.wf() && p@ == Seq::<CommandState>::empty()
                && p.spec_capacity() == capacity,
            r matches Err(e) ==> e == CommandError::AllocationFailed,
    {
        let mut buffers: Vec<CommandBufferState> = Vec::new();
        if buffers.try_reserve(capacity).is_err() {
            return Err(CommandError::AllocationFailed);
        }
        let r = Self { buffers, capacity };
        assert(r@ =~= Seq::<CommandState>::empty());
        Ok(r)
    }

    /// Appends a buffer in the initial state and returns its index, or
    /// `None` when the pool is full.
    pub fn allocate(&mut self) -> (r: Option<usize>)
        requires
            old(self).wf(),
        ensures
            final(self).wf(),
            final(self).spec_capacity() == old(self).spec_capacity(),
            old(self)@.len() == old(self).spec_capacity() ==> r is None && final(self)@
                == old(self)@,
            old(self)@.len() < old(self).spec_capacity() ==> r == Some(old(self)@.len() as usize)
                && final(self)@ == old(self)@.push(CommandState::Initial),
    {
        if self.buffers.len() == self.capacity {
            return None;
        }
        self.buffers.push(CommandBufferState::new());
        proof {
            assert(self@ =~= old(self)@.push(CommandState::Initial));
        }
        Some(self.buffers.len() - 1)
    }

    pub fn buffer(&self, index: usize) -> (r: Option<CommandBufferState>)
        ensures
            index < self@.len() ==> (r matches Some(b) && b@ == self@[index as int]),
            index >= self@.len() ==> r is None,
    {
        if index < self.buffers.len() {
            Some(self.buffers[index])
        } else {
            None
        }
    }

    /// Mutable access to one allocated buffer; writes through the returned
    /// reference land in the pool.
    pub fn buffer_mut(&mut self, index: usize) -> (r: Option<&mut CommandBufferState>)
        requires
            old(self).wf(),
        ensures
            r is Some <==> index < old(self)@.len(),
            final(self).wf(),
            final(self).spec_capacity() == old(self).spec_capacity(),
            r is Some ==> r.unwrap()@ == old(self)@[index as int] && final(self)@ == old(
                self,
            )@.update(index as int, final(r.unwrap())@),
            r is None ==> final(self)@ == old(self)@,
    {
        if index < self.buffers.len() {
            let b = &mut self.buffers[index];
            Some(b)
        } else {
            None
        }
    }

    /// Returns every buffer to the initial state, unless one of them is still
    /// submitted, in which case nothing changes.
    pub fn reset(&mut self) -> (r: Result<(), CommandError>)
        requires
            old(self).wf(),
        ensures
            final(self).wf(),
            final(self).spec_capacity() == old(self).spec_capacity(),
            r is Ok <==> !old(self)@.contains(CommandState::Submitted),
            r is Ok ==> final(self)@ == Seq::new(old(self)@.len(), |i: int| CommandState::Initial),
            r is Err ==> r == Err::<(), CommandError>(CommandError::InvalidTransition)
                && final(self)@ == old(self)@,
    {
        let mut i: usize = 0;
        while i < self.buffers.len()
            invariant
                i <= self.buffers@.len(),
                self.buffers@ == old(self).buffers@,
                self.capacity == old(self).capacity,
                self.buffers@.len() <= self.capacity,
                forall|j: int| 0 <= j < i ==> self.buffers@[j]@ != CommandState::Submitted,
            decreases self.buffers.len() - i,
        {
            if self.buffers[i].state() == CommandState::Submitted {
                proof {
                    assert(self@[i as int] == CommandState::Submitted);
                }
                return Err(CommandError::InvalidTransition);
            }
            i = i + 1;
        }
        proof {
            assert forall|j: int| 0 <= j < self@.len() implies self@[j] != CommandState::Submitted by {
                assert(self@[j] == self.buffers@[j]@);
            }
        }
        let ghost n = self.buffers@.len();
        let mut k: usize = 0;
        while k < self.buffers.len()
            invariant
                k <= self.buffers@.len(),
                self.buffers@.len() == n,
                n == old(self).buffers@.len(),
                n <= self.capacity,
                self.capacity == old(self).capacity,
                forall|j: int| 0 <= j < k ==> self.buffers@[j]@ == CommandState::Initial,
            decreases self.buffers.len() - k,
        {
            self.buffers.set(k, CommandBufferState::new());
            k = k + 1;
        }
        proof {
            assert(self@ =~= Seq::new(old(self)@.len(), |i: int| CommandState::Initial));
        }
        Ok(())
    }
}

/// A candidate is usable when its queue families cover graphics, compute and
/// transfer.
pub open spec fn candidate_suitable(c: GpuCandidate) -> bool {
    spec_select_queue_families(c.queue_families@) is Some
}

/// Candidate `i` is usable and no usable candidate scores higher or scores
/// the same at a smaller index.
pub open spec fn is_best_candidate(candidates: Seq<GpuCandidate>, i: int) -> bool {
    &&& 0 <= i < candidates.len()
    &&& candidate_suitable(candidates[i])
    &&& forall|j: int|
        0 <= j < candidates.len() && candidate_suitable(#[trigger] candidates[j]) ==> (
        candidates[j].device_score < candidates[i].device_score || (candidates[j].device_score
            == candidates[i].device_score && i <= j))
}

/// Chooses the highest-scored GPU whose queue families are complete; ties go
/// to the earliest candidate.
pub fn choose_render_device(candidates: &[GpuCandidate]) -> (r: Result<
    RenderDevicePlan,
    RenderDevicePlanError,
>)
    ensures
        r is Ok <==> exists|j: int|
            0 <= j < candidates@.len() && candidate_suitable(#[trigger] candidates@[j]),
        r matches Ok(plan) ==> is_best_candidate(candidates@, plan.candidate_index as int)
            && spec_select_queue_families(candidates@[plan.candidate_index as int].queue_families@)
            == Some(plan.queues),
        r matches Err(e) ==> e == RenderDevicePlanError::NoSuitableDevice,
{
    let mut best: Option<(usize, u8, QueueSelection)> = None;
    let mut i: usize = 0;
    while i < candidates.len()
        invariant
            i <= candidates@.len(),
            best is None ==> forall|j: int|
                0 <= j < i ==> !candidate_suitable(#[trigger] candidates@[j]),
            best matches Some(b) ==> {
                &&& b.0 < i
                &&& b.1 == candidates@[b.0 as int].device_score
                &&& spec_select_queue_families(candidates@[b.0 as int].queue_families@) == Some(b.2)
                &&& forall|j: int|
                    0 <= j < i && candidate_suitable(#[trigger] candidates@[j]) ==> (
                    candidates@[j].device_score < b.1 || (candidates@[j].device_score == b.1
                        && b.0 <= j))
            },
        decreases candidates.len() - i,
    {
        let candidate = candidates[i];
        match select_queue_families(candidate.queue_families) {
            Ok(queues) => {
                let better = match best {
                    None => true,
                    Some((_, score, _)) => candidate.device_score > score,
                };
                if better {
                    best = Some((i, candidate.device_score, queues));
                }
            },
            Err(_) => {},
        }
        i = i + 1;
    }
    match best {
        Some((candidate_index, _, queues)) => Ok(RenderDevicePlan { candidate_index, queues }),
        None => Err(RenderDevicePlanError::NoSuitableDevice),
    }
}

#[derive(Clone, Copy, Debug, PartialEq, Eq, Structural)]
pub enum RendererState {
    New,
    Ready,
    Shutdown,
}

#[derive(Clone, Copy, Debug, Default, PartialEq, Eq)]
pub struct RenderStats {
    pub frames: u64,
    pub total_dt_ns: u128,
}

} // verus!
