//! Presentation-engine policy: which device and queue family present, how
//! the swapchain is configured for a window size, how the per-frame command
//! stream is laid out, and how UI upload bytes are staged.
use vstd::prelude::*;

use crate::platform::swapchain::{
    default_image_count, select_format, spec_default_image_count, spec_select_format, Extent2D,
    SurfaceCapabilities, SurfaceFormat, VK_COLOR_SPACE_SRGB_NONLINEAR_KHR,
    VK_FORMAT_B8G8R8A8_UNORM, VK_FORMAT_R8G8B8A8_UNORM, VK_PRESENT_MODE_FIFO_KHR,
    VK_PRESENT_MODE_FIFO_RELAXED_KHR, VK_PRESENT_MODE_IMMEDIATE_KHR, VK_PRESENT_MODE_MAILBOX_KHR,
};
use crate::platform::vulkan::{
    spec_selection_score, PhysicalDeviceInfo, VulkanLoaderError, VK_ACCESS_SHADER_READ_BIT,
    VK_ACCESS_TRANSFER_WRITE_BIT, VK_ACCESS_VERTEX_ATTRIBUTE_READ_BIT,
    VK_PIPELINE_STAGE_TRANSFER_BIT, VK_PIPELINE_STAGE_VERTEX_INPUT_BIT,
    VK_PIPELINE_STAGE_VERTEX_SHADER_BIT,
};
use crate::platform::vulkan_policy::{QueueFamilyInfo, QUEUE_GRAPHICS};
use crate::subsystems::ui::paint::UiUploadRange;

verus! {

broadcast use vstd::std_specs::bits::axiom_u32_trailing_zeros;

/// The opaque composite-alpha bit.
pub const OPAQUE_COMPOSITE_ALPHA: u32 = 0x0000_0001;

/// Size of the staging and device buffers that hold the UI upload stream.
pub const UI_UPLOAD_CAPACITY: u64 = 16 * 1024 * 1024;

#[derive(Clone, Copy, Debug, PartialEq, Eq, Structural)]
pub struct PresentSize {
    pub width: u32,
    pub height: u32,
}

#[derive(Debug)]
pub enum PresentError {
    Vulkan(VulkanLoaderError),
    NoSuitableDevice,
    NullWindowHandle,
    FormatUnavailable,
    AllocationFailed,
}

impl PresentError {
    /// Human-readable description of the failure.
    pub fn message(&self) -> (r: String)
        ensures
            self is Vulkan ==> r@ == "vulkan present failure"@,
            self is NoSuitableDevice ==> r@ == "no physical device has a presentable graphics queue"@,
            self is NullWindowHandle ==> r@ == "present window handles were null"@,
            self is FormatUnavailable ==> r@ == "no supported swapchain format was found"@,
            self is AllocationFailed ==> r@ == "present frame allocation failed"@,
    {
        match self {
            PresentError::Vulkan(_) => "vulkan present failure".to_string(),
            PresentError::NoSuitableDevice => {
                "no physical device has a presentable graphics queue".to_string()
            },
            PresentError::NullWindowHandle => "present window handles were null".to_string(),
            PresentError::FormatUnavailable => "no supported swapchain format was found".to_string(),
            PresentError::AllocationFailed => "present frame allocation failed".to_string(),
        }
    }
}

#[derive(Clone, Copy, Debug, PartialEq, Eq, Structural)]
pub enum PresentStatus {
    Presented,
    OutOfDate,
}

/// `v` clamped into `[lo, hi]`.
pub open spec fn clamp_u32(v: u32, lo: u32, hi: u32) -> u32 {
    if v < lo {
        lo
    } else if v > hi {
        hi
    } else {
        v
    }
}

/// A driver that reports `u32::MAX` in either dimension lets the
/// application choose the extent.
pub open spec fn extent_is_free(caps: SurfaceCapabilities) -> bool {
    caps.current_extent.width == u32::MAX || caps.current_extent.height == u32::MAX
}

/// The surface's current extent when it dictates one; otherwise the
/// requested size clamped into the supported range.
pub open spec fn spec_pick_extent(caps: SurfaceCapabilities, size: PresentSize) -> Extent2D {
    if !extent_is_free(caps) {
        caps.current_extent
    } else {
        Extent2D {
            width: clamp_u32(size.width, caps.min_image_extent.width, caps.max_image_extent.width),
            height: clamp_u32(
                size.height,
                caps.min_image_extent.height,
                caps.max_image_extent.height,
            ),
        }
    }
}

/// Where the application chooses the extent, the driver's range must not be
/// empty.
pub open spec fn extent_range_valid(caps: SurfaceCapabilities) -> bool {
    extent_is_free(caps) ==> caps.min_image_extent.width <= caps.max_image_extent.width
        && caps.min_image_extent.height <= caps.max_image_extent.height
}

fn clamp_dimension(v: u32, lo: u32, hi: u32) -> (r: u32)
    requires
        lo <= hi,
    ensures
        r == clamp_u32(v, lo, hi),
{
    if v < lo {
        lo
    } else if v > hi {
        hi
    } else {
        v
    }
}

/// Swapchain extent for a window of `size`.
pub fn pick_extent(caps: &SurfaceCapabilities, size: PresentSize) -> (r: Extent2D)
    requires
        extent_range_valid(*caps),
    ensures
        r == spec_pick_extent(*caps, size),
{
    if caps.current_extent.width != u32::MAX && caps.current_extent.height != u32::MAX {
        return caps.current_extent;
    }
    Extent2D {
        width: clamp_dimension(
            size.width,
            caps.min_image_extent.width,
            caps.max_image_extent.width,
        ),
        height: clamp_dimension(
            size.height,
            caps.min_image_extent.height,
            caps.max_image_extent.height,
        ),
    }
}

/// Mailbox, then immediate, then FIFO, then relaxed FIFO, whichever the
/// surface offers first in that order; else the surface's first mode.
pub open spec fn spec_pick_present_mode(modes: Seq<u32>) -> Option<u32> {
    if modes.contains(VK_PRESENT_MODE_MAILBOX_KHR) {
        Some(VK_PRESENT_MODE_MAILBOX_KHR)
    } else if modes.contains(VK_PRESENT_MODE_IMMEDIATE_KHR) {
        Some(VK_PRESENT_MODE_IMMEDIATE_KHR)
    } else if modes.contains(VK_PRESENT_MODE_FIFO_KHR) {
        Some(VK_PRESENT_MODE_FIFO_KHR)
    } else if modes.contains(VK_PRESENT_MODE_FIFO_RELAXED_KHR) {
        Some(VK_PRESENT_MODE_FIFO_RELAXED_KHR)
    } else if modes.len() > 0 {
        Some(modes[0])
    } else {
        None
    }
}

fn offers_mode(modes: &[u32], mode: u32) -> (r: bool)
    ensures
        r == modes@.contains(mode),
{
    let mut i: usize = 0;
    while i < modes.len()
        invariant
            i <= modes@.len(),
            forall|j: int| 0 <= j < i ==> modes@[j] != mode,
        decreases modes.len() - i,
    {
        if modes[i] == mode {
            assert(modes@[i as int] == mode);
            return true;
        }
        i = i + 1;
    }
    false
}

/// The preferred present mode the surface supports, if it supports any.
pub fn pick_present_mode(modes: &[u32]) -> (r: Option<u32>)
    ensures
        r == spec_pick_present_mode(modes@),
{
    if offers_mode(modes, VK_PRESENT_MODE_MAILBOX_KHR) {
        return Some(VK_PRESENT_MODE_MAILBOX_KHR);
    }
    if offers_mode(modes, VK_PRESENT_MODE_IMMEDIATE_KHR) {
        return Some(VK_PRESENT_MODE_IMMEDIATE_KHR);
    }
    if offers_mode(modes, VK_PRESENT_MODE_FIFO_KHR) {
        return Some(VK_PRESENT_MODE_FIFO_KHR);
    }
    if offers_mode(modes, VK_PRESENT_MODE_FIFO_RELAXED_KHR) {
        return Some(VK_PRESENT_MODE_FIFO_RELAXED_KHR);
    }
    if modes.len() > 0 {
        Some(modes[0])
    } else {
        None
    }
}

/// The chosen present mode is one the surface offers, and the preference
/// is strict: mailbox whenever it is offered; immediate only when mailbox
/// is not; FIFO only when neither is; relaxed FIFO only when none of those
/// three is; the surface's first mode only when none of the four is; and a
/// mode is chosen whenever the surface offers any.
pub proof fn law_present_mode_preference(modes: Seq<u32>)
    ensures
        spec_pick_present_mode(modes) is Some <==> modes.len() > 0,
        spec_pick_present_mode(modes) matches Some(m) ==> modes.contains(m),
        modes.contains(VK_PRESENT_MODE_MAILBOX_KHR) ==> spec_pick_present_mode(modes) == Some(
            VK_PRESENT_MODE_MAILBOX_KHR,
        ),
        spec_pick_present_mode(modes) == Some(VK_PRESENT_MODE_IMMEDIATE_KHR) ==> !modes.contains(
            VK_PRESENT_MODE_MAILBOX_KHR,
        ),
        !modes.contains(VK_PRESENT_MODE_MAILBOX_KHR) && modes.contains(VK_PRESENT_MODE_IMMEDIATE_KHR)
            ==> spec_pick_present_mode(modes) == Some(VK_PRESENT_MODE_IMMEDIATE_KHR),
        !modes.contains(VK_PRESENT_MODE_MAILBOX_KHR) && !modes.contains(VK_PRESENT_MODE_IMMEDIATE_KHR)
            && modes.contains(VK_PRESENT_MODE_FIFO_KHR) ==> spec_pick_present_mode(modes) == Some(
            VK_PRESENT_MODE_FIFO_KHR,
        ),
        !modes.contains(VK_PRESENT_MODE_MAILBOX_KHR) && !modes.contains(VK_PRESENT_MODE_IMMEDIATE_KHR)
            && !modes.contains(VK_PRESENT_MODE_FIFO_KHR) && modes.contains(
            VK_PRESENT_MODE_FIFO_RELAXED_KHR,
        ) ==> spec_pick_present_mode(modes) == Some(VK_PRESENT_MODE_FIFO_RELAXED_KHR),
        !modes.contains(VK_PRESENT_MODE_MAILBOX_KHR) && !modes.contains(VK_PRESENT_MODE_IMMEDIATE_KHR)
            && !modes.contains(VK_PRESENT_MODE_FIFO_KHR) && !modes.contains(
            VK_PRESENT_MODE_FIFO_RELAXED_KHR,
        ) && modes.len() > 0 ==> spec_pick_present_mode(modes) == Some(modes[0]),
{
    if modes.len() > 0 {
        assert(modes.contains(modes[0]));
    }
}

/// Opaque when the surface supports it or reports nothing; otherwise the
/// lowest composite-alpha bit the surface supports.
pub open spec fn spec_pick_composite_alpha(mask: u32) -> u32 {
    if mask & OPAQUE_COMPOSITE_ALPHA != 0 || mask == 0 {
        OPAQUE_COMPOSITE_ALPHA
    } else {
        1u32 << mask.trailing_zeros()
    }
}

/// Composite-alpha mode for a surface with capabilities `caps`.
pub fn pick_composite_alpha(caps: &SurfaceCapabilities) -> (r: u32)
    ensures
        r == spec_pick_composite_alpha(caps.supported_composite_alpha),
        caps.supported_composite_alpha != 0 ==> r & caps.supported_composite_alpha == r && r
            != 0,
{
    let mask = caps.supported_composite_alpha;
    if mask & OPAQUE_COMPOSITE_ALPHA != 0 {
        assert(mask & 1 != 0 ==> 1u32 & mask == 1u32) by (bit_vector);
        return OPAQUE_COMPOSITE_ALPHA;
    }
    if mask == 0 {
        return OPAQUE_COMPOSITE_ALPHA;
    }
    let shift = mask.trailing_zeros();
    let r = 1u32 << shift;
    proof {
        let t = shift;
        assert(t < 32);
        assert((mask >> t) & 1u32 == 1u32);
        assert((mask >> t) & 1u32 == 1u32 && t < 32 ==> (1u32 << t) & mask == (1u32 << t) && (
        1u32 << t) != 0) by (bit_vector);
    }
    r
}

/// The preference order for swapchain formats: B8G8R8A8 then R8G8B8A8,
/// both in the sRGB non-linear color space.
pub open spec fn preferred_formats() -> Seq<(u32, u32)> {
    seq![
        (VK_FORMAT_B8G8R8A8_UNORM, VK_COLOR_SPACE_SRGB_NONLINEAR_KHR),
        (VK_FORMAT_R8G8B8A8_UNORM, VK_COLOR_SPACE_SRGB_NONLINEAR_KHR),
    ]
}

/// The requested image count, never below two.
pub open spec fn spec_present_image_count(caps: SurfaceCapabilities) -> u32 {
    if spec_default_image_count(caps) < 2 {
        2
    } else {
        spec_default_image_count(caps)
    }
}

/// The surface configuration for a window of `size`, from what the surface
/// reports: (format, present mode, extent, image count). Fails only when
/// the surface offers no present mode at all.
pub fn configure_surface(
    caps: &SurfaceCapabilities,
    formats: &[SurfaceFormat],
    modes: &[u32],
    size: PresentSize,
) -> (r: Result<(SurfaceFormat, u32, Extent2D, u32), PresentError>)
    requires
        extent_range_valid(*caps),
        caps.min_image_count < u32::MAX,
        caps.max_image_count != 0 ==> caps.min_image_count <= caps.max_image_count,
    ensures
        r is Err <==> modes@.len() == 0,
        r matches Err(e) ==> e is FormatUnavailable,
        r matches Ok((format, mode, extent, count)) ==> {
            &&& format == spec_select_format(formats@, preferred_formats())
            &&& spec_pick_present_mode(modes@) == Some(mode)
            &&& extent == spec_pick_extent(*caps, size)
            &&& count == spec_present_image_count(*caps)
        },
{
    let preferred = [
        (VK_FORMAT_B8G8R8A8_UNORM, VK_COLOR_SPACE_SRGB_NONLINEAR_KHR),
        (VK_FORMAT_R8G8B8A8_UNORM, VK_COLOR_SPACE_SRGB_NONLINEAR_KHR),
    ];
    assert(preferred@ =~= preferred_formats());
    let format = select_format(formats, &preferred);
    let present_mode = match pick_present_mode(modes) {
        Some(mode) => mode,
        None => {
            return Err(PresentError::FormatUnavailable);
        },
    };
    let count = default_image_count(caps);
    let count = if count < 2 {
        2
    } else {
        count
    };
    Ok((format, present_mode, pick_extent(caps, size), count))
}

/// A queue family that can present: graphics-capable, with at least one
/// queue, and accepted by the surface (`supported` lists, per family, what
/// the surface reported; a family it does not list is not accepted).
pub open spec fn can_present(families: Seq<QueueFamilyInfo>, supported: Seq<bool>, k: int) -> bool {
    &&& families[k].flags & QUEUE_GRAPHICS != 0
    &&& families[k].queue_count != 0
    &&& k < supported.len()
    &&& supported[k]
}

/// The index field of the first presentable family at or after `k`.
pub open spec fn first_presentable_from(
    families: Seq<QueueFamilyInfo>,
    supported: Seq<bool>,
    k: int,
) -> Option<u32>
    decreases families.len() - k,
{
    if k < 0 || k >= families.len() {
        None
    } else if can_present(families, supported, k) {
        Some(families[k].index)
    } else {
        first_presentable_from(families, supported, k + 1)
    }
}

/// The family a device would present from, if any.
pub open spec fn presenting_family(device: PhysicalDeviceInfo, supported: Seq<bool>) -> Option<
    u32,
> {
    first_presentable_from(device.queue_families@, supported, 0)
}

pub open spec fn support_of(support: Seq<Vec<bool>>, i: int) -> Seq<bool> {
    if 0 <= i < support.len() {
        support[i]@
    } else {
        Seq::empty()
    }
}

fn first_presentable_family(families: &[QueueFamilyInfo], supported: &[bool]) -> (r: Option<u32>)
    ensures
        r == first_presentable_from(families@, supported@, 0),
{
    let mut k: usize = 0;
    while k < families.len()
        invariant
            k <= families@.len(),
            first_presentable_from(families@, supported@, 0) == first_presentable_from(
                families@,
                supported@,
                k as int,
            ),
        decreases families.len() - k,
    {
        let family = families[k];
        if family.flags & QUEUE_GRAPHICS != 0 && family.queue_count != 0 && k < supported.len()
            && supported[k] {
            return Some(family.index);
        }
        k = k + 1;
    }
    None
}

/// The device and family to present from: among devices with a presentable
/// family, the highest-scored one, the earliest on ties; its first
/// presentable family. `surface_support[i][k]` is whether the surface
/// accepts family `k` of device `i`.
pub fn pick_present_device(
    devices: &[PhysicalDeviceInfo],
    surface_support: &[Vec<bool>],
) -> (r: Result<(usize, u32), PresentError>)
    ensures
        r is Err <==> forall|j: int|
            0 <= j < devices@.len() ==> presenting_family(
                #[trigger] devices@[j],
                support_of(surface_support@, j),
            ) is None,
        r matches Err(e) ==> e is NoSuitableDevice,
        r matches Ok((i, family)) ==> {
            &&& i < devices@.len()
            &&& presenting_family(devices@[i as int], support_of(surface_support@, i as int))
                == Some(family)
            &&& forall|j: int|
                0 <= j < devices@.len() && presenting_family(
                    #[trigger] devices@[j],
                    support_of(surface_support@, j),
                ) is Some ==> spec_selection_score(devices@[j].device_type)
                    <= spec_selection_score(devices@[i as int].device_type)
            &&& forall|j: int|
                0 <= j < i && presenting_family(
                    #[trigger] devices@[j],
                    support_of(surface_support@, j),
                ) is Some ==> spec_selection_score(devices@[j].device_type)
                    < spec_selection_score(devices@[i as int].device_type)
        },
{
    let mut best: Option<(usize, u32, u8)> = None;
    let mut i: usize = 0;
    while i < devices.len()
        invariant
            i <= devices@.len(),
            best is None ==> forall|j: int|
                0 <= j < i ==> presenting_family(
                    #[trigger] devices@[j],
                    support_of(surface_support@, j),
                ) is None,
            best matches Some((b, family, score)) ==> {
                &&& b < i
                &&& score == spec_selection_score(devices@[b as int].device_type)
                &&& presenting_family(devices@[b as int], support_of(surface_support@, b as int))
                    == Some(family)
                &&& forall|j: int|
                    0 <= j < i && presenting_family(
                        #[trigger] devices@[j],
                        support_of(surface_support@, j),
                    ) is Some ==> spec_selection_score(devices@[j].device_type) <= score
                &&& forall|j: int|
                    0 <= j < b && presenting_family(
                        #[trigger] devices@[j],
                        support_of(surface_support@, j),
                    ) is Some ==> spec_selection_score(devices@[j].device_type) < score
            },
        decreases devices.len() - i,
    {
        let empty: Vec<bool> = Vec::new();
        let supported: &Vec<bool> = if i < surface_support.len() {
            &surface_support[i]
        } else {
            &empty
        };
        assert(supported@ == support_of(surface_support@, i as int));
        let found = first_presentable_family(devices[i].queue_families.as_slice(), supported.as_slice());
        if let Some(family) = found {
            let score = devices[i].selection_score();
            let better = match best {
                Some((_, _, current)) => score > current,
                None => true,
            };
            if better {
                best = Some((i, family, score));
            }
        }
        i = i + 1;
    }
    match best {
        Some((b, family, _)) => Ok((b, family)),
        None => Err(PresentError::NoSuitableDevice),
    }
}

/// What a failed acquire or present means for the frame: an out-of-date
/// swapchain is reported as a status for the caller to recreate; anything
/// else is an error.
pub fn classify_present_error(error: VulkanLoaderError) -> (r: Result<PresentStatus, PresentError>)
    ensures
        error is OutOfDate ==> r == Ok::<PresentStatus, PresentError>(PresentStatus::OutOfDate),
        !(error is OutOfDate) ==> (r matches Err(PresentError::Vulkan(e)) && e == error),
{
    match error {
        VulkanLoaderError::OutOfDate => Ok(PresentStatus::OutOfDate),
        other => Err(PresentError::Vulkan(other)),
    }
}

/// How one frame's command buffer is recorded.
#[derive(Clone, Copy, Debug, PartialEq, Eq)]
pub struct FramePlan {
    /// Which frame slot (command buffer, semaphores, fence) is used.
    pub frame_index: usize,
    /// Bytes copied from the staging buffer to the device buffer; zero
    /// means no copy and no barrier.
    pub upload_bytes: u64,
    /// Pipeline stage and access that wait on the copy.
    pub barrier_dst_stage: u32,
    pub barrier_dst_access: u32,
    /// Whether the UI pass is drawn; otherwise the image is cleared.
    pub draw_ui: bool,
}

/// The UI pass is drawn when there is something to draw and the pipeline
/// and targets exist.
pub open spec fn spec_draws_ui(pipeline_ready: bool, targets_ready: bool, draw_commands: usize) -> bool {
    draw_commands != 0 && pipeline_ready && targets_ready
}

/// The native handles a presentation engine is built from (the module
/// instance and the window, as addresses) must both be non-null; otherwise
/// the build is refused with `NullWindowHandle` before the loader is touched.
pub fn check_present_handles(device: usize, window: usize) -> (r: Result<(), PresentError>)
    ensures
        r is Ok <==> device != 0 && window != 0,
        r matches Err(e) ==> e is NullWindowHandle,
{
    if device == 0 || window == 0 {
        return Err(PresentError::NullWindowHandle);
    }
    Ok(())
}

/// Lays out a frame: slot `image_index % frame_count`; the pending upload
/// is copied first, then made visible to the vertex shader when the UI pass
/// reads it, else to vertex input.
pub fn plan_present_frame(
    image_index: u32,
    frame_count: usize,
    upload_len: usize,
    pipeline_ready: bool,
    targets_ready: bool,
    draw_commands: usize,
) -> (r: FramePlan)
    requires
        frame_count > 0,
    ensures
        r.frame_index == image_index as int % frame_count as int,
        r.frame_index < frame_count,
        r.upload_bytes == upload_len,
        r.draw_ui == spec_draws_ui(pipeline_ready, targets_ready, draw_commands),
        pipeline_ready && draw_commands != 0 ==> r.barrier_dst_stage
            == VK_PIPELINE_STAGE_VERTEX_SHADER_BIT && r.barrier_dst_access
            == VK_ACCESS_SHADER_READ_BIT,
        !(pipeline_ready && draw_commands != 0) ==> r.barrier_dst_stage
            == VK_PIPELINE_STAGE_VERTEX_INPUT_BIT && r.barrier_dst_access
            == VK_ACCESS_VERTEX_ATTRIBUTE_READ_BIT,
{
    let frame_index = (image_index as usize) % frame_count;
    let shader_reads = pipeline_ready && draw_commands != 0;
    FramePlan {
        frame_index,
        upload_bytes: upload_len as u64,
        barrier_dst_stage: if shader_reads {
            VK_PIPELINE_STAGE_VERTEX_SHADER_BIT
        } else {
            VK_PIPELINE_STAGE_VERTEX_INPUT_BIT
        },
        barrier_dst_access: if shader_reads {
            VK_ACCESS_SHADER_READ_BIT
        } else {
            VK_ACCESS_VERTEX_ATTRIBUTE_READ_BIT
        },
        draw_ui: draw_commands != 0 && pipeline_ready && targets_ready,
    }
}

/// The copy into the device buffer starts at the transfer stage with a
/// transfer write.
pub fn upload_barrier_source() -> (r: (u32, u32))
    ensures
        r == (VK_PIPELINE_STAGE_TRANSFER_BIT, VK_ACCESS_TRANSFER_WRITE_BIT),
{
    (VK_PIPELINE_STAGE_TRANSFER_BIT, VK_ACCESS_TRANSFER_WRITE_BIT)
}

/// Replaces the staged UI upload with `bytes`. More than the buffer
/// capacity is refused; so is a failed allocation. On failure the staged
/// bytes are left as they were.
pub fn stage_ui_upload(upload: &mut Vec<u8>, bytes: &[u8]) -> (r: Result<(), PresentError>)
    ensures
        bytes@.len() > UI_UPLOAD_CAPACITY ==> r is Err,
        r is Ok ==> final(upload)@ == bytes@,
        r matches Err(e) ==> e is AllocationFailed && final(upload)@ == old(upload)@,
{
    if bytes.len() as u64 > UI_UPLOAD_CAPACITY {
        return Err(PresentError::AllocationFailed);
    }
    let additional = bytes.len().saturating_sub(upload.len());
    if upload.try_reserve(additional).is_err() {
        return Err(PresentError::AllocationFailed);
    }
    upload.clear();
    let mut i: usize = 0;
    while i < bytes.len()
        invariant
            i <= bytes@.len(),
            upload@ == bytes@.subrange(0, i as int),
        decreases bytes.len() - i,
    {
        upload.push(bytes[i]);
        i = i + 1;
    }
    assert(bytes@.subrange(0, bytes@.len() as int) =~= bytes@);
    Ok(())
}

/// `buf` with `bytes` written from `offset` on (positions past the end of
/// `buf` are dropped).
pub open spec fn write_at(buf: Seq<u8>, offset: int, bytes: Seq<u8>) -> Seq<u8> {
    Seq::new(
        buf.len(),
        |i: int|
            if offset <= i < offset + bytes.len() {
                bytes[i - offset]
            } else {
                buf[i]
            },
    )
}

/// `buf` after writing each range in order.
pub open spec fn apply_ranges(buf: Seq<u8>, ranges: Seq<UiUploadRange>) -> Seq<u8>
    decreases ranges.len(),
{
    if ranges.len() == 0 {
        buf
    } else {
        write_at(
            apply_ranges(buf, ranges.drop_last()),
            ranges.last().offset as int,
            ranges.last().bytes@,
        )
    }
}

/// `buf` cut or zero-extended to `total` bytes.
pub open spec fn resized(buf: Seq<u8>, total: nat) -> Seq<u8> {
    Seq::new(
        total,
        |i: int|
            if i < buf.len() {
                buf[i]
            } else {
                0u8
            },
    )
}

/// The range ends within the first `total` bytes.
pub open spec fn range_fits(range: UiUploadRange, total: int) -> bool {
    range.offset + range.bytes@.len() <= total
}

/// Resizes the staged UI upload to `total_bytes` (keeping its prefix,
/// zero-filling growth) and writes each dirty range in order. A total above
/// the buffer capacity is refused with nothing changed; a range that ends
/// past the total is refused after the ranges before it were written; a
/// failed allocation changes nothing.
pub fn stage_ui_upload_ranges(
    upload: &mut Vec<u8>,
    ranges: &[UiUploadRange],
    total_bytes: usize,
) -> (r: Result<(), PresentError>)
    ensures
        r matches Err(e) ==> e is AllocationFailed,
        total_bytes > UI_UPLOAD_CAPACITY ==> r is Err && final(upload)@ == old(upload)@,
        (exists|j: int| 0 <= j < ranges@.len() && !range_fits(#[trigger] ranges@[j], total_bytes as int))
            ==> r is Err,
        r is Ok ==> total_bytes <= UI_UPLOAD_CAPACITY && (forall|j: int|
            0 <= j < ranges@.len() ==> range_fits(#[trigger] ranges@[j], total_bytes as int))
            && final(upload)@ == apply_ranges(resized(old(upload)@, total_bytes as nat), ranges@),
        r is Err ==> final(upload)@ == old(upload)@ || exists|k: int|
            0 <= k < ranges@.len() && !range_fits(#[trigger] ranges@[k], total_bytes as int)
                && (forall|j: int|
                0 <= j < k ==> range_fits(#[trigger] ranges@[j], total_bytes as int))
                && final(upload)@ == apply_ranges(
                resized(old(upload)@, total_bytes as nat),
                ranges@.take(k),
            ),
{
    if total_bytes as u64 > UI_UPLOAD_CAPACITY {
        return Err(PresentError::AllocationFailed);
    }
    let additional = total_bytes.saturating_sub(upload.len());
    if upload.try_reserve(additional).is_err() {
        return Err(PresentError::AllocationFailed);
    }
    let ghost original = upload@;
    if total_bytes <= upload.len() {
        upload.truncate(total_bytes);
    } else {
        while upload.len() < total_bytes
            invariant
                original.len() <= upload@.len() <= total_bytes,
                upload@ == resized(original, upload@.len()),
            decreases total_bytes - upload.len(),
        {
            upload.push(0);
        }
    }
    assert(upload@ =~= resized(original, total_bytes as nat));
    assert(ranges@.take(0) =~= Seq::<UiUploadRange>::empty());
    let mut i: usize = 0;
    while i < ranges.len()
        invariant
            i <= ranges@.len(),
            total_bytes <= UI_UPLOAD_CAPACITY,
            original == old(upload)@,
            upload@.len() == total_bytes,
            forall|j: int| 0 <= j < i ==> range_fits(#[trigger] ranges@[j], total_bytes as int),
            upload@ == apply_ranges(resized(original, total_bytes as nat), ranges@.take(i as int)),
        decreases ranges.len() - i,
    {
        let range = &ranges[i];
        let end = match range.offset.checked_add(range.bytes.len()) {
            Some(end) => end,
            None => {
                assert(!range_fits(ranges@[i as int], total_bytes as int));
                assert(!range_fits(ranges@[i as int], total_bytes as int) && (forall|j: int|
                    0 <= j < i ==> range_fits(#[trigger] ranges@[j], total_bytes as int)));
                return Err(PresentError::AllocationFailed);
            },
        };
        if end > total_bytes {
            assert(!range_fits(ranges@[i as int], total_bytes as int) && (forall|j: int|
                0 <= j < i ==> range_fits(#[trigger] ranges@[j], total_bytes as int)));
            return Err(PresentError::AllocationFailed);
        }
        let ghost before = upload@;
        let mut k: usize = 0;
        while k < range.bytes.len()
            invariant
                k <= range.bytes@.len(),
                range.offset + range.bytes@.len() <= total_bytes,
                upload@.len() == total_bytes,
                before.len() == total_bytes,
                forall|p: int|
                    0 <= p < total_bytes ==> #[trigger] upload@[p] == (if range.offset <= p
                        < range.offset + k {
                        range.bytes@[p - range.offset]
                    } else {
                        before[p]
                    }),
            decreases range.bytes.len() - k,
        {
            upload.set(range.offset + k, range.bytes[k]);
            k = k + 1;
        }
        proof {
            assert(ranges@.take(i as int + 1).drop_last() =~= ranges@.take(i as int));
            assert(ranges@.take(i as int + 1).last() == ranges@[i as int]);
            assert(upload@ =~= write_at(before, range.offset as int, range.bytes@));
        }
        i = i + 1;
    }
    assert(ranges@.take(ranges@.len() as int) =~= ranges@);
    Ok(())
}

} // verus!
