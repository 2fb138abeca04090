//! Plain-value Vulkan device policy: device ranking, memory type choice,
//! queue family flag normalization, host-visible write planning, and the
//! loader's error vocabulary.
use vstd::prelude::*;

use crate::platform::vulkan_policy::{QueueFamilyInfo, QUEUE_COMPUTE, QUEUE_TRANSFER};

verus! {

pub type VkResult = i32;

pub const VK_SUCCESS: VkResult = 0;

pub const VK_INCOMPLETE: VkResult = 5;

pub const VK_NOT_READY: VkResult = 1;

pub const VK_SUBOPTIMAL_KHR: VkResult = 1000001003;

pub const VK_ERROR_OUT_OF_DATE_KHR: VkResult = -1000001004;

pub const VK_API_VERSION_1_0: u32 = 0x0040_0000;

pub const VK_MEMORY_PROPERTY_DEVICE_LOCAL_BIT: u32 = 0x0000_0001;

pub const VK_MEMORY_PROPERTY_HOST_VISIBLE_BIT: u32 = 0x0000_0002;

pub const VK_MEMORY_PROPERTY_HOST_COHERENT_BIT: u32 = 0x0000_0004;

pub const VK_IMAGE_ASPECT_COLOR_BIT: u32 = 0x0000_0001;

pub const VK_PIPELINE_STAGE_TRANSFER_BIT: u32 = 0x0000_0100;

pub const VK_PIPELINE_STAGE_VERTEX_INPUT_BIT: u32 = 0x0000_0004;

pub const VK_PIPELINE_STAGE_VERTEX_SHADER_BIT: u32 = 0x0000_0008;

pub const VK_ACCESS_TRANSFER_WRITE_BIT: u32 = 0x0000_1000;

pub const VK_ACCESS_VERTEX_ATTRIBUTE_READ_BIT: u32 = 0x0000_0004;

pub const VK_ACCESS_SHADER_READ_BIT: u32 = 0x0000_0020;

/// Number of memory types a physical device can report.
pub const VK_MAX_MEMORY_TYPES: usize = 32;

/// Errors of the shared-object loader.
#[derive(Debug, Clone, PartialEq, Eq)]
pub enum DlError {
    /// `dlopen` could not load the object (lib missing / deps unresolved).
    Open { lib: String },
    /// `dlsym` could not resolve the symbol name.
    Symbol { lib: String, name: String },
    /// The reason string reported by `dlerror`.
    Detail { reason: String },
}

#[derive(Debug)]
pub enum VulkanLoaderError {
    Library(DlError),
    MissingEntry(DlError),
    ApiQuery(VkResult),
    MissingCommand(String),
    Api(VkResult),
    NoPhysicalDevices,
    InvalidQueuePlan,
    /// The swapchain images are out of date with the surface (resize); the
    /// renderer must recreate the swapchain.
    OutOfDate,
    /// The swapchain works but its configuration is now suboptimal.
    Suboptimal,
    AllocationFailed,
}

#[derive(Clone, Copy, Debug, PartialEq, Eq)]
pub struct ImageSubresourceRange {
    pub aspect_mask: u32,
    pub base_mip_level: u32,
    pub level_count: u32,
    pub base_array_layer: u32,
    pub layer_count: u32,
}

impl ImageSubresourceRange {
    /// The single-mip, single-layer color range used for presentable images.
    pub fn color() -> (r: Self)
        ensures
            r == (ImageSubresourceRange {
                aspect_mask: VK_IMAGE_ASPECT_COLOR_BIT,
                base_mip_level: 0,
                level_count: 1,
                base_array_layer: 0,
                layer_count: 1,
            }),
    {
        ImageSubresourceRange {
            aspect_mask: VK_IMAGE_ASPECT_COLOR_BIT,
            base_mip_level: 0,
            level_count: 1,
            base_array_layer: 0,
            layer_count: 1,
        }
    }
}

/// A command name can be handed to the loader only when NUL-terminated.
pub fn command_name_is_terminated(name: &[u8]) -> (r: bool)
    ensures
        r == (name@.len() > 0 && name@.last() == 0),
{
    name.len() > 0 && name[name.len() - 1] == 0
}

#[derive(Clone, Debug, PartialEq, Eq)]
pub struct PhysicalDeviceInfo {
    pub api_version: u32,
    pub driver_version: u32,
    pub vendor_id: u32,
    pub device_id: u32,
    pub device_type: u32,
    pub name: String,
    pub queue_families: Vec<QueueFamilyInfo>,
}

/// Preference by device type: discrete (2) over integrated (1) over virtual
/// (3) over CPU (4) over anything else.
pub open spec fn spec_selection_score(device_type: u32) -> u8 {
    if device_type == 2 {
        4
    } else if device_type == 1 {
        3
    } else if device_type == 3 {
        2
    } else if device_type == 4 {
        1
    } else {
        0
    }
}

impl PhysicalDeviceInfo {
    pub fn selection_score(&self) -> (r: u8)
        ensures
            r == spec_selection_score(self.device_type),
    {
        match self.device_type {
            2 => 4,
            1 => 3,
            3 => 2,
            4 => 1,
            _ => 0,
        }
    }

    /// The highest-scored device; among equally scored devices, the last one.
    pub fn select_preferred(devices: &[Self]) -> (r: Option<&Self>)
        ensures
            r is None <==> devices@.len() == 0,
            r matches Some(d) ==> exists|i: int|
                0 <= i < devices@.len() && devices@[i] == *d && (forall|j: int|
                    0 <= j < devices@.len() ==> spec_selection_score(
                        (#[trigger] devices@[j]).device_type,
                    ) <= spec_selection_score(devices@[i].device_type)) && (forall|j: int|
                    i < j < devices@.len() ==> spec_selection_score(
                        (#[trigger] devices@[j]).device_type,
                    ) < spec_selection_score(devices@[i].device_type)),
    {
        if devices.len() == 0 {
            return None;
        }
        let mut best: usize = 0;
        let mut best_score = devices[0].selection_score();
        let mut i: usize = 1;
        while i < devices.len()
            invariant
                1 <= i <= devices@.len(),
                best < i,
                best_score == spec_selection_score(devices@[best as int].device_type),
                forall|j: int|
                    0 <= j < i ==> spec_selection_score((#[trigger] devices@[j]).device_type)
                        <= best_score,
                forall|j: int|
                    best < j < i ==> spec_selection_score((#[trigger] devices@[j]).device_type)
                        < best_score,
            decreases devices.len() - i,
        {
            let score = devices[i].selection_score();
            if score >= best_score {
                best = i;
                best_score = score;
            }
            i = i + 1;
        }
        Some(&devices[best])
    }
}

/// Device types rank strictly: discrete above integrated above virtual
/// above CPU above any other type.
pub proof fn law_device_type_ranking()
    ensures
        spec_selection_score(2) > spec_selection_score(1),
        spec_selection_score(1) > spec_selection_score(3),
        spec_selection_score(3) > spec_selection_score(4),
        forall|t: u32|
            t != 1 && t != 2 && t != 3 && t != 4 ==> spec_selection_score(4) > #[trigger] spec_selection_score(t),
{
}

/// A device whose score is the highest among `devices` (as `select_preferred`
/// returns) is discrete when any device is discrete; else integrated when
/// any is; else virtual when any is; else a CPU device when any is.
pub proof fn law_best_scored_device_kind(devices: Seq<PhysicalDeviceInfo>, i: int)
    requires
        0 <= i < devices.len(),
        forall|j: int|
            0 <= j < devices.len() ==> spec_selection_score((#[trigger] devices[j]).device_type)
                <= spec_selection_score(devices[i].device_type),
    ensures
        (exists|j: int| 0 <= j < devices.len() && (#[trigger] devices[j]).device_type == 2)
            ==> devices[i].device_type == 2,
        (exists|j: int| 0 <= j < devices.len() && (#[trigger] devices[j]).device_type == 1)
            && !(exists|j: int| 0 <= j < devices.len() && (#[trigger] devices[j]).device_type == 2)
            ==> devices[i].device_type == 1,
        (exists|j: int| 0 <= j < devices.len() && (#[trigger] devices[j]).device_type == 3)
            && !(exists|j: int| 0 <= j < devices.len() && ((#[trigger] devices[j]).device_type == 2
            || devices[j].device_type == 1)) ==> devices[i].device_type == 3,
        (exists|j: int| 0 <= j < devices.len() && (#[trigger] devices[j]).device_type == 4)
            && !(exists|j: int| 0 <= j < devices.len() && ((#[trigger] devices[j]).device_type == 2
            || devices[j].device_type == 1 || devices[j].device_type == 3)) ==> devices[i].device_type
            == 4,
{
    law_device_type_ranking();
}

/// Number of set bits.
pub open spec fn popcount(x: u32) -> nat
    decreases x,
{
    if x == 0 {
        0
    } else {
        (x % 2) as nat + popcount(x / 2)
    }
}

proof fn lemma_popcount_bound(x: u32)
    ensures
        popcount(x) <= x,
    decreases x,
{
    if x != 0 {
        lemma_popcount_bound(x / 2);
    }
}

fn count_ones(x: u32) -> (r: u32)
    ensures
        r == popcount(x),
{
    let mut v = x;
    let mut n: u32 = 0;
    proof {
        lemma_popcount_bound(x);
    }
    while v != 0
        invariant
            n + popcount(v) == popcount(x),
            popcount(x) <= u32::MAX,
        decreases v,
    {
        n = n + v % 2;
        v = v / 2;
    }
    n
}

/// The memory type the allocation should use: among the first
/// `memory_type_count` types (at most 32) that `compatible_bits` allows and
/// whose flags include `required`, the one with the most `preferred` flags,
/// the lowest index on a tie.
pub open spec fn is_selected_memory_type(
    type_flags: Seq<u32>,
    count: int,
    compatible_bits: u32,
    required: u32,
    preferred: u32,
    index: int,
) -> bool {
    &&& 0 <= index < count
    &&& memory_type_usable(type_flags, compatible_bits, required, index)
    &&& forall|j: int|
        0 <= j < count && memory_type_usable(type_flags, compatible_bits, required, j) ==> (
        popcount(#[trigger] type_flags[j] & preferred) < popcount(type_flags[index] & preferred)
            || (popcount(type_flags[j] & preferred) == popcount(type_flags[index] & preferred)
            && index <= j))
}

pub open spec fn memory_type_usable(
    type_flags: Seq<u32>,
    compatible_bits: u32,
    required: u32,
    index: int,
) -> bool {
    &&& compatible_bits & (1u32 << (index as u32)) != 0
    &&& type_flags[index] & required == required
}

pub fn select_memory_type(
    type_flags: &[u32; 32],
    memory_type_count: u32,
    compatible_bits: u32,
    required: u32,
    preferred: u32,
) -> (r: Option<u32>)
    ensures
        ({
            let count = if memory_type_count < 32 {
                memory_type_count as int
            } else {
                32
            };
            &&& r is None <==> forall|j: int|
                0 <= j < count ==> !memory_type_usable(type_flags@, compatible_bits, required, j)
            &&& r matches Some(index) ==> is_selected_memory_type(
                type_flags@,
                count,
                compatible_bits,
                required,
                preferred,
                index as int,
            )
        }),
{
    let count: usize = if memory_type_count < 32 {
        memory_type_count as usize
    } else {
        32
    };
    let mut best: Option<u32> = None;
    let mut best_score: u32 = 0;
    let mut index: usize = 0;
    while index < count
        invariant
            index <= count <= 32,
            count == (if memory_type_count < 32 {
                memory_type_count as int
            } else {
                32
            }),
            best is None ==> forall|j: int|
                0 <= j < index ==> !memory_type_usable(type_flags@, compatible_bits, required, j),
            best matches Some(b) ==> {
                &&& b < index
                &&& best_score == popcount(type_flags@[b as int] & preferred)
                &&& memory_type_usable(type_flags@, compatible_bits, required, b as int)
                &&& forall|j: int|
                    0 <= j < index && memory_type_usable(type_flags@, compatible_bits, required, j)
                        ==> (popcount(#[trigger] type_flags@[j] & preferred) < best_score || (
                    popcount(type_flags@[j] & preferred) == best_score && b <= j))
            },
        decreases count - index,
    {
        let bit = 1u32 << (index as u32);
        if compatible_bits & bit != 0 {
            let flags = type_flags[index];
            if flags & required == required {
                let score = count_ones(flags & preferred);
                if best.is_none() || score > best_score {
                    best = Some(index as u32);
                    best_score = score;
                }
            }
        }
        index = index + 1;
    }
    best
}

/// Keeps the graphics bit and maps the compute (0x2) and transfer (0x4)
/// bits of a raw Vulkan queue family onto the policy's flags.
pub open spec fn spec_normalize_queue_flags(raw: u32) -> u32 {
    (raw & 0x1) | (if raw & 0x2 != 0 {
        QUEUE_COMPUTE
    } else {
        0
    }) | (if raw & 0x4 != 0 {
        QUEUE_TRANSFER
    } else {
        0
    })
}

/// Turns the raw `(flags, queue_count)` pairs a device reports into queue
/// family descriptions indexed by position.
pub fn describe_queue_families(raw: &[(u32, u32)]) -> (r: Vec<QueueFamilyInfo>)
    requires
        raw@.len() <= u32::MAX,
    ensures
        r@.len() == raw@.len(),
        forall|i: int|
            0 <= i < raw@.len() ==> #[trigger] r@[i] == (QueueFamilyInfo {
                index: i as u32,
                flags: spec_normalize_queue_flags(raw@[i].0),
                queue_count: raw@[i].1,
            }),
{
    let mut out: Vec<QueueFamilyInfo> = Vec::new();
    let mut i: usize = 0;
    while i < raw.len()
        invariant
            i <= raw@.len() <= u32::MAX,
            out@.len() == i,
            forall|j: int|
                0 <= j < i ==> #[trigger] out@[j] == (QueueFamilyInfo {
                    index: j as u32,
                    flags: spec_normalize_queue_flags(raw@[j].0),
                    queue_count: raw@[j].1,
                }),
        decreases raw.len() - i,
    {
        let (flags, queue_count) = raw[i];
        let compute = if flags & 0x2 != 0 {
            QUEUE_COMPUTE
        } else {
            0
        };
        let transfer = if flags & 0x4 != 0 {
            QUEUE_TRANSFER
        } else {
            0
        };
        out.push(QueueFamilyInfo { index: i as u32, flags: (flags & 0x1) | compute | transfer, queue_count });
        i = i + 1;
    }
    out
}

/// Where to map and copy a host-visible write: the mapped window is the
/// write range widened to whole non-coherent atoms.
#[derive(Clone, Copy, Debug, PartialEq, Eq)]
pub struct HostWritePlan {
    pub mapped_offset: u64,
    pub mapped_size: u64,
    pub relative_offset: u64,
    pub flush: bool,
}

pub open spec fn spec_host_write_plan(
    memory_properties: u32,
    buffer_size: u64,
    offset: u64,
    length: u64,
    non_coherent_atom_size: u64,
) -> Option<HostWritePlan> {
    let coherent = memory_properties & VK_MEMORY_PROPERTY_HOST_COHERENT_BIT != 0;
    let atom: int = if coherent {
        1
    } else {
        non_coherent_atom_size as int
    };
    let end = offset + length;
    if memory_properties & VK_MEMORY_PROPERTY_HOST_VISIBLE_BIT == 0 || end > u64::MAX || end
        > buffer_size || atom == 0 || end + atom - 1 > u64::MAX {
        None
    } else {
        let mapped_offset = offset as int / atom * atom;
        let mapped_end = (end + atom - 1) / atom * atom;
        if mapped_end > buffer_size {
            None
        } else {
            Some(
                HostWritePlan {
                    mapped_offset: mapped_offset as u64,
                    mapped_size: (mapped_end - mapped_offset) as u64,
                    relative_offset: (offset - mapped_offset) as u64,
                    flush: !coherent,
                },
            )
        }
    }
}

/// Whether a UI draw may be recorded: every handle it binds is non-null,
/// the render area is not empty and there is at least one draw. Any refusal
/// is `InvalidQueuePlan`, before anything is recorded.
pub fn check_ui_draw(
    command_buffer: usize,
    render_pass: u64,
    framebuffer: u64,
    pipeline: u64,
    pipeline_layout: u64,
    descriptor_set: u64,
    width: u32,
    height: u32,
    draw_count: usize,
) -> (r: Result<(), VulkanLoaderError>)
    ensures
        r is Ok <==> (command_buffer != 0 && render_pass != 0 && framebuffer != 0 && pipeline != 0
            && pipeline_layout != 0 && descriptor_set != 0 && width != 0 && height != 0 && draw_count
            != 0),
        r matches Err(e) ==> e is InvalidQueuePlan,
{
    if command_buffer == 0 || render_pass == 0 || framebuffer == 0 || pipeline == 0 || pipeline_layout == 0
        || descriptor_set == 0 || width == 0 || height == 0 || draw_count == 0 {
        return Err(VulkanLoaderError::InvalidQueuePlan);
    }
    Ok(())
}

/// Whether the UI graphics pipeline may be created: both shader modules,
/// the pipeline layout and the render pass are non-null and the viewport is
/// not empty. Any refusal is `InvalidQueuePlan`, before any call is made.
pub fn check_ui_pipeline_inputs(
    vertex_shader: u64,
    fragment_shader: u64,
    pipeline_layout: u64,
    render_pass: u64,
    width: u32,
    height: u32,
) -> (r: Result<(), VulkanLoaderError>)
    ensures
        r is Ok <==> (vertex_shader != 0 && fragment_shader != 0 && pipeline_layout != 0 && render_pass
            != 0 && width != 0 && height != 0),
        r matches Err(e) ==> e is InvalidQueuePlan,
{
    if vertex_shader == 0 || fragment_shader == 0 || pipeline_layout == 0 || render_pass == 0 || width
        == 0 || height == 0 {
        return Err(VulkanLoaderError::InvalidQueuePlan);
    }
    Ok(())
}

/// Whether a buffer may be created: the physical device (as an address) is
/// non-null, and the size and usage flags are non-zero. Any refusal is
/// `InvalidQueuePlan`, before any call is made.
pub fn check_buffer_request(physical_device: usize, size: u64, usage: u32) -> (r: Result<
    (),
    VulkanLoaderError,
>)
    ensures
        r is Ok <==> (physical_device != 0 && size != 0 && usage != 0),
        r matches Err(e) ==> e is InvalidQueuePlan,
{
    if physical_device == 0 || size == 0 || usage == 0 {
        return Err(VulkanLoaderError::InvalidQueuePlan);
    }
    Ok(())
}

/// Validates a write of `length` bytes at `offset` into a host-visible
/// allocation of `buffer_size` bytes and computes the atom-aligned window to
/// map; every refusal is `InvalidQueuePlan`.
pub fn plan_host_visible_write(
    memory_properties: u32,
    buffer_size: u64,
    offset: u64,
    length: u64,
    non_coherent_atom_size: u64,
) -> (r: Result<HostWritePlan, VulkanLoaderError>)
    ensures
        r is Ok <==> spec_host_write_plan(
            memory_properties,
            buffer_size,
            offset,
            length,
            non_coherent_atom_size,
        ) is Some,
        r matches Ok(plan) ==> Some(plan) == spec_host_write_plan(
            memory_properties,
            buffer_size,
            offset,
            length,
            non_coherent_atom_size,
        ),
        r matches Err(e) ==> e is InvalidQueuePlan,
{
    if memory_properties & VK_MEMORY_PROPERTY_HOST_VISIBLE_BIT == 0 {
        return Err(VulkanLoaderError::InvalidQueuePlan);
    }
    let end = match offset.checked_add(length) {
        Some(end) => end,
        None => return Err(VulkanLoaderError::InvalidQueuePlan),
    };
    if end > buffer_size {
        return Err(VulkanLoaderError::InvalidQueuePlan);
    }
    let coherent = memory_properties & VK_MEMORY_PROPERTY_HOST_COHERENT_BIT != 0;
    let atom: u64 = if coherent {
        1
    } else {
        non_coherent_atom_size
    };
    if atom == 0 {
        return Err(VulkanLoaderError::InvalidQueuePlan);
    }
    let widened = match end.checked_add(atom - 1) {
        Some(v) => v,
        None => return Err(VulkanLoaderError::InvalidQueuePlan),
    };
    proof {
        lemma_round_down(offset as int, atom as int);
        lemma_round_down(widened as int, atom as int);
    }
    let mapped_offset = offset / atom * atom;
    let mapped_end = widened / atom * atom;
    if mapped_end > buffer_size {
        return Err(VulkanLoaderError::InvalidQueuePlan);
    }
    Ok(
        HostWritePlan {
            mapped_offset,
            mapped_size: mapped_end - mapped_offset,
            relative_offset: offset - mapped_offset,
            flush: !coherent,
        },
    )
}

proof fn lemma_round_down(x: int, a: int)
    requires
        x >= 0,
        a > 0,
    ensures
        0 <= (x / a) * a <= x,
        x - (x / a) * a < a,
        ((x / a) * a) % a == 0,
{
    vstd::arithmetic::div_mod::lemma_fundamental_div_mod(x, a);
    vstd::arithmetic::div_mod::lemma_mod_bound(x, a);
    vstd::arithmetic::div_mod::lemma_mod_multiples_basic(x / a, a);
    vstd::arithmetic::div_mod::lemma_div_pos_is_pos(x, a);
    assert((x / a) * a == a * (x / a)) by (nonlinear_arith);
    assert(0 <= (x / a) * a) by (nonlinear_arith)
        requires
            x / a >= 0,
            a > 0,
    ;
}

/// A planned window always covers the whole write and stays inside the
/// allocation, and it starts and ends on atom boundaries.
pub proof fn law_host_write_window_covers_write(
    memory_properties: u32,
    buffer_size: u64,
    offset: u64,
    length: u64,
    non_coherent_atom_size: u64,
)
    ensures
        spec_host_write_plan(memory_properties, buffer_size, offset, length, non_coherent_atom_size)
            matches Some(plan) ==> {
            &&& plan.mapped_offset <= offset
            &&& offset + length <= plan.mapped_offset + plan.mapped_size <= buffer_size
            &&& plan.relative_offset == offset - plan.mapped_offset
            &&& plan.flush ==> plan.mapped_offset as int % non_coherent_atom_size as int == 0
                && (plan.mapped_offset + plan.mapped_size) % (non_coherent_atom_size as int) == 0
        },
{
    let coherent = memory_properties & VK_MEMORY_PROPERTY_HOST_COHERENT_BIT != 0;
    let atom: int = if coherent {
        1
    } else {
        non_coherent_atom_size as int
    };
    let end = offset + length;
    if spec_host_write_plan(memory_properties, buffer_size, offset, length, non_coherent_atom_size) is Some {
        lemma_round_down(offset as int, atom);
        lemma_round_down(end + atom - 1, atom);
    }
}

} // verus!
