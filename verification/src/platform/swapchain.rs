//! Swapchain configuration policy: surface format choice and image count.
use vstd::prelude::*;

use crate::platform::vulkan_policy::first_where;

verus! {

pub const VK_FORMAT_B8G8R8A8_UNORM: u32 = 44;

pub const VK_FORMAT_R8G8B8A8_UNORM: u32 = 37;

pub const VK_FORMAT_UNDEFINED: u32 = 0;

pub const VK_COLOR_SPACE_SRGB_NONLINEAR_KHR: u32 = 0;

pub const VK_PRESENT_MODE_IMMEDIATE_KHR: u32 = 0;

pub const VK_PRESENT_MODE_MAILBOX_KHR: u32 = 1;

pub const VK_PRESENT_MODE_FIFO_KHR: u32 = 2;

pub const VK_PRESENT_MODE_FIFO_RELAXED_KHR: u32 = 3;

pub const VK_COMPOSITE_ALPHA_OPAQUE_BIT_KHR: u32 = 0x0000_0001;

pub const VK_SURFACE_TRANSFORM_IDENTITY_BIT_KHR: u32 = 0x0000_0001;

#[derive(Clone, Copy, Debug, Default, PartialEq, Eq)]
pub struct Extent2D {
    pub width: u32,
    pub height: u32,
}

/// Image format + color space pair, as enumerated for a surface.
#[derive(Clone, Copy, Debug, PartialEq, Eq)]
pub struct SurfaceFormat {
    pub format: u32,
    pub color_space: u32,
}

#[derive(Clone, Copy, Debug)]
pub struct SurfaceCapabilities {
    pub min_image_count: u32,
    pub max_image_count: u32,
    pub current_extent: Extent2D,
    pub min_image_extent: Extent2D,
    pub max_image_extent: Extent2D,
    pub max_image_array_layers: u32,
    pub supported_transforms: u32,
    pub current_transform: u32,
    pub supported_composite_alpha: u32,
    pub supported_usage_flags: u32,
}

pub open spec fn offered(formats: Seq<SurfaceFormat>) -> spec_fn((u32, u32)) -> bool {
    |pair: (u32, u32)|
        exists|i: int|
            0 <= i < formats.len() && #[trigger] formats[i].format == pair.0 && formats[i].color_space
                == pair.1
}

/// The first preferred (format, color space) pair the surface offers; else
/// the surface's first format; else B8G8R8A8_UNORM in sRGB.
pub open spec fn spec_select_format(
    formats: Seq<SurfaceFormat>,
    preferred: Seq<(u32, u32)>,
) -> SurfaceFormat {
    match first_where(preferred, offered(formats)) {
        Some(pair) => SurfaceFormat { format: pair.0, color_space: pair.1 },
        None => if formats.len() > 0 {
            formats[0]
        } else {
            SurfaceFormat {
                format: VK_FORMAT_B8G8R8A8_UNORM,
                color_space: VK_COLOR_SPACE_SRGB_NONLINEAR_KHR,
            }
        },
    }
}

fn offers(formats: &[SurfaceFormat], format: u32, color_space: u32) -> (r: bool)
    ensures
        r == offered(formats@)((format, color_space)),
{
    let mut i: usize = 0;
    while i < formats.len()
        invariant
            i <= formats@.len(),
            forall|j: int|
                0 <= j < i ==> !(formats@[j].format == format && formats@[j].color_space
                    == color_space),
        decreases formats.len() - i,
    {
        if formats[i].format == format && formats[i].color_space == color_space {
            proof {
                assert(formats@[i as int].format == format);
            }
            return true;
        }
        i = i + 1;
    }
    false
}

/// Picks the first requested format present in `formats`, else the driver's
/// first entry.
pub fn select_format(formats: &[SurfaceFormat], preferred: &[(u32, u32)]) -> (r: SurfaceFormat)
    ensures
        r == spec_select_format(formats@, preferred@),
{
    let mut i: usize = 0;
    assert(preferred@.subrange(0, preferred@.len() as int) =~= preferred@);
    while i < preferred.len()
        invariant
            i <= preferred@.len(),
            first_where(preferred@, offered(formats@)) == first_where(
                preferred@.subrange(i as int, preferred@.len() as int),
                offered(formats@),
            ),
        decreases preferred.len() - i,
    {
        proof {
            crate::platform::vulkan_policy::lemma_first_where_step(preferred@, i as int, offered(formats@));
        }
        let (format, color_space) = preferred[i];
        if offers(formats, format, color_space) {
            return SurfaceFormat { format, color_space };
        }
        i = i + 1;
    }
    if formats.len() > 0 {
        formats[0]
    } else {
        SurfaceFormat {
            format: VK_FORMAT_B8G8R8A8_UNORM,
            color_space: VK_COLOR_SPACE_SRGB_NONLINEAR_KHR,
        }
    }
}

/// Requested swapchain image count: one more than the driver's minimum but
/// at least three, lowered to the driver's maximum when it reports one.
pub open spec fn spec_default_image_count(caps: SurfaceCapabilities) -> u32 {
    let wanted = if caps.min_image_count + 1 > 3 {
        (caps.min_image_count + 1) as u32
    } else {
        3u32
    };
    if caps.max_image_count != 0 && wanted > caps.max_image_count {
        caps.max_image_count
    } else {
        wanted
    }
}

/// Number of swapchain images to request (>= 3 when the driver allows it,
/// else clamped). The driver's minimum must leave room for one more image,
/// and a reported maximum must not be below the minimum.
pub fn default_image_count(caps: &SurfaceCapabilities) -> (r: u32)
    requires
        caps.min_image_count < u32::MAX,
        caps.max_image_count != 0 ==> caps.min_image_count <= caps.max_image_count,
    ensures
        r == spec_default_image_count(*caps),
{
    let desired = caps.min_image_count + 1;
    let wanted = if desired > 3 {
        desired
    } else {
        3
    };
    if caps.max_image_count != 0 && wanted > caps.max_image_count {
        caps.max_image_count
    } else {
        wanted
    }
}

/// The requested count lies within the driver's range (never below its
/// minimum, never above a reported maximum), is at least three whenever
/// the driver allows three, and is one more than the minimum whenever the
/// driver allows that.
pub proof fn law_image_count_within_driver_limits(caps: SurfaceCapabilities)
    requires
        caps.min_image_count < u32::MAX,
        caps.max_image_count != 0 ==> caps.min_image_count <= caps.max_image_count,
    ensures
        spec_default_image_count(caps) >= caps.min_image_count,
        caps.max_image_count != 0 ==> spec_default_image_count(caps) <= caps.max_image_count,
        caps.max_image_count == 0 || caps.max_image_count >= 3 ==> spec_default_image_count(caps) >= 3,
        caps.max_image_count == 0 || caps.max_image_count > caps.min_image_count
            ==> spec_default_image_count(caps) > caps.min_image_count,
{
}

} // verus!
