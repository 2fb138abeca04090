use rust_kernel_game_engine_kit::platform::cpu::{
    expand_cpulist, try_expand_cpulist, CpuTopologyError, NumaTopology,
};
use rust_kernel_game_engine_kit::platform::present::{
    check_present_handles, classify_present_error, configure_surface, pick_composite_alpha, pick_extent, pick_present_device, pick_present_mode,
    plan_present_frame, stage_ui_upload, stage_ui_upload_ranges, PresentError, PresentSize,
    PresentStatus, OPAQUE_COMPOSITE_ALPHA, UI_UPLOAD_CAPACITY,
};
use rust_kernel_game_engine_kit::platform::swapchain::{
    default_image_count, select_format, Extent2D, SurfaceCapabilities, SurfaceFormat,
    VK_COLOR_SPACE_SRGB_NONLINEAR_KHR, VK_FORMAT_B8G8R8A8_UNORM, VK_FORMAT_R8G8B8A8_UNORM,
    VK_PRESENT_MODE_FIFO_KHR, VK_PRESENT_MODE_IMMEDIATE_KHR, VK_PRESENT_MODE_MAILBOX_KHR,
    VK_SURFACE_TRANSFORM_IDENTITY_BIT_KHR,
};
use rust_kernel_game_engine_kit::platform::vulkan::{
    check_buffer_request, check_ui_draw, check_ui_pipeline_inputs, command_name_is_terminated, PhysicalDeviceInfo, VulkanLoaderError, VK_API_VERSION_1_0,
    VK_SUCCESS,
};
use rust_kernel_game_engine_kit::platform::vulkan_policy::{
    build_queue_create_requests, select_queue_families, QueueCreateRequest, QueueFamilyInfo,
    QueueSelection, QueueSelectionError, QUEUE_COMPUTE, QUEUE_GRAPHICS, QUEUE_TRANSFER,
};
use rust_kernel_game_engine_kit::subsystems::ui::paint::UiUploadRange;

fn dummy_caps() -> SurfaceCapabilities {
    SurfaceCapabilities {
        min_image_count: 0,
        max_image_count: 0,
        current_extent: Extent2D {
            width: 640,
            height: 480,
        },
        min_image_extent: Extent2D {
            width: 1,
            height: 1,
        },
        max_image_extent: Extent2D {
            width: 4096,
            height: 4096,
        },
        max_image_array_layers: 1,
        supported_transforms: VK_SURFACE_TRANSFORM_IDENTITY_BIT_KHR,
        current_transform: VK_SURFACE_TRANSFORM_IDENTITY_BIT_KHR,
        supported_composite_alpha: 0,
        supported_usage_flags: 0,
    }
}

#[test]
fn cpulist_expansion() {
    assert_eq!(
        expand_cpulist("0-3,7,9-11"),
        vec![0usize, 1, 2, 3, 7, 9, 10, 11]
    );
    assert_eq!(expand_cpulist("5"), vec![5usize]);
    assert_eq!(expand_cpulist(""), Vec::<usize>::new());
}

#[test]
fn cpulist_sorts_merges_and_trims() {
    assert_eq!(
        try_expand_cpulist(" 9-10 , 2,\n3-4,2-3 ,, x ,+7").unwrap(),
        vec![2usize, 3, 4, 7, 9, 10]
    );
    assert_eq!(try_expand_cpulist("\u{a0}6\u{3000}").unwrap(), vec![6usize]);
    assert_eq!(try_expand_cpulist("4-").unwrap(), vec![4usize]);
    assert_eq!(try_expand_cpulist("-2").unwrap(), vec![0usize, 1, 2]);
}

#[test]
fn cpulist_rejects_reversed_and_oversized_ranges() {
    assert_eq!(
        try_expand_cpulist("5-3"),
        Err(CpuTopologyError::RangeTooLarge)
    );
    assert_eq!(
        try_expand_cpulist("0,0-1048576"),
        Err(CpuTopologyError::RangeTooLarge)
    );
    assert_eq!(try_expand_cpulist("0-1048575").unwrap().len(), 1 << 20);
}

#[test]
fn numa_topology_maps_cpus_to_their_first_node() {
    let entries = vec![
        (b"node1".to_vec(), b"2-3".to_vec()),
        (b"power".to_vec(), b"9".to_vec()),
        (b"node0".to_vec(), b"0-1".to_vec()),
        (b"node1".to_vec(), b"4".to_vec()),
    ];
    let topo = NumaTopology::from_sysfs_entries(&entries);
    assert_eq!(topo.node_count(), 2);
    assert_eq!(topo.cpus_of(0), Some(&[0usize, 1][..]));
    assert_eq!(topo.cpus_of(1), Some(&[4usize][..]));
    assert_eq!(topo.cpus_of(2), None);
    assert_eq!(topo.node_for_cpu(1), Some(0));
    assert_eq!(topo.node_for_cpu(4), Some(1));
    assert_eq!(topo.node_for_cpu(2), None);
    for node in 0..topo.node_count() {
        if let Some(cpus) = topo.cpus_of(node) {
            for &cpu in cpus {
                assert_eq!(topo.node_for_cpu(cpu), Some(node));
            }
        }
    }
}

#[test]
fn numa_topology_falls_back_to_one_node() {
    let topo = NumaTopology::from_sysfs_entries(&[(b"cpu0".to_vec(), b"0".to_vec())]);
    assert_eq!(topo.node_count(), 1);
    assert_eq!(topo.cpus_of(0), Some(&[0usize][..]));
    let sparse = NumaTopology::from_nodes(vec![None, Some(vec![5, 6])]);
    assert_eq!(sparse.cpus_of(0), None);
    assert_eq!(sparse.node_for_cpu(6), Some(1));
}

#[test]
fn caps_with_unlimited_max_requests_three() {
    let caps = dummy_caps();
    assert_eq!(default_image_count(&caps), 3);
}

#[test]
fn caps_with_max_clamp_respects_driver_limit() {
    let caps = SurfaceCapabilities {
        min_image_count: 2,
        max_image_count: 3,
        ..dummy_caps()
    };
    assert_eq!(default_image_count(&caps), 3);
}

#[test]
fn selects_preferred_format_when_available() {
    let formats = [
        SurfaceFormat {
            format: VK_FORMAT_R8G8B8A8_UNORM,
            color_space: VK_COLOR_SPACE_SRGB_NONLINEAR_KHR,
        },
        SurfaceFormat {
            format: VK_FORMAT_B8G8R8A8_UNORM,
            color_space: VK_COLOR_SPACE_SRGB_NONLINEAR_KHR,
        },
    ];
    let picked = select_format(
        &formats,
        &[(VK_FORMAT_B8G8R8A8_UNORM, VK_COLOR_SPACE_SRGB_NONLINEAR_KHR)],
    );
    assert_eq!(picked.format, VK_FORMAT_B8G8R8A8_UNORM);
}

#[test]
fn falls_back_to_first_surface_format() {
    let formats = [SurfaceFormat {
        format: VK_FORMAT_R8G8B8A8_UNORM,
        color_space: VK_COLOR_SPACE_SRGB_NONLINEAR_KHR,
    }];
    let picked = select_format(
        &formats,
        &[(VK_FORMAT_B8G8R8A8_UNORM, VK_COLOR_SPACE_SRGB_NONLINEAR_KHR)],
    );
    assert_eq!(picked.format, VK_FORMAT_R8G8B8A8_UNORM);
    let _ = VK_SURFACE_TRANSFORM_IDENTITY_BIT_KHR;
}

#[test]
fn version_constant_is_abi_correct() {
    assert_eq!(VK_SUCCESS, 0);
    assert_eq!(VK_API_VERSION_1_0, 0x0040_0000);
}

#[test]
fn success_constant_matches_vulkan_abi() {
    assert_eq!(VK_SUCCESS, 0);
    assert_eq!(VK_API_VERSION_1_0, 0x0040_0000);
}

#[test]
fn invalid_command_name_is_rejected_before_ffi() {
    let name = b"vkCreateInstance";
    let terminated = command_name_is_terminated(name);
    assert!(!terminated);
    assert!(command_name_is_terminated(b"vkCreateInstance\0"));
}

#[test]
fn selects_first_deterministic_family_for_each_role() {
    let families = [
        QueueFamilyInfo {
            index: 0,
            flags: QUEUE_GRAPHICS | QUEUE_COMPUTE | QUEUE_TRANSFER,
            queue_count: 1,
        },
        QueueFamilyInfo {
            index: 1,
            flags: QUEUE_TRANSFER,
            queue_count: 1,
        },
    ];
    assert_eq!(
        select_queue_families(&families).unwrap(),
        QueueSelection {
            graphics: 0,
            compute: 0,
            transfer: 1
        }
    );
}

#[test]
fn rejects_missing_required_family() {
    let families = [QueueFamilyInfo {
        index: 0,
        flags: QUEUE_GRAPHICS,
        queue_count: 1,
    }];
    assert_eq!(select_queue_families(&families), Err(QueueSelectionError));
}

#[test]
fn prefers_dedicated_compute_and_transfer_families() {
    let families = [
        QueueFamilyInfo {
            index: 0,
            flags: QUEUE_GRAPHICS | QUEUE_COMPUTE | QUEUE_TRANSFER,
            queue_count: 1,
        },
        QueueFamilyInfo {
            index: 1,
            flags: QUEUE_COMPUTE,
            queue_count: 1,
        },
        QueueFamilyInfo {
            index: 2,
            flags: QUEUE_TRANSFER,
            queue_count: 1,
        },
    ];
    assert_eq!(
        select_queue_families(&families).unwrap(),
        QueueSelection {
            graphics: 0,
            compute: 1,
            transfer: 2
        }
    );
}

#[test]
fn queue_create_requests_deduplicate_shared_families() {
    let requests = build_queue_create_requests(QueueSelection {
        graphics: 2,
        compute: 2,
        transfer: 7,
    });
    assert_eq!(
        requests[0],
        QueueCreateRequest {
            family_index: 2,
            queue_count: 2
        }
    );
    assert_eq!(requests[1].queue_count, 0);
    assert_eq!(
        requests[2],
        QueueCreateRequest {
            family_index: 7,
            queue_count: 1
        }
    );
}

#[test]
fn present_mode_prefers_mailbox_over_fifo() {
    assert_eq!(
        pick_present_mode(&[VK_PRESENT_MODE_FIFO_KHR, VK_PRESENT_MODE_MAILBOX_KHR]),
        Some(VK_PRESENT_MODE_MAILBOX_KHR)
    );
    assert_eq!(
        pick_present_mode(&[VK_PRESENT_MODE_FIFO_KHR]),
        Some(VK_PRESENT_MODE_FIFO_KHR)
    );
    assert_eq!(pick_present_mode(&[]), None);
    assert_eq!(
        pick_present_mode(&[VK_PRESENT_MODE_FIFO_KHR, VK_PRESENT_MODE_IMMEDIATE_KHR]),
        Some(VK_PRESENT_MODE_IMMEDIATE_KHR)
    );
    assert_eq!(pick_present_mode(&[1000, 7]), Some(1000));
}

#[test]
fn extent_falls_back_to_request_size_clamped() {
    let caps = SurfaceCapabilities {
        min_image_count: 0,
        max_image_count: 0,
        current_extent: Extent2D {
            width: u32::MAX,
            height: u32::MAX,
        },
        min_image_extent: Extent2D {
            width: 320,
            height: 240,
        },
        max_image_extent: Extent2D {
            width: 4096,
            height: 2160,
        },
        max_image_array_layers: 1,
        supported_transforms: 0,
        current_transform: 0,
        supported_composite_alpha: 0,
        supported_usage_flags: 0,
    };
    let pick = pick_extent(
        &caps,
        PresentSize {
            width: 10_000,
            height: 100,
        },
    );
    assert_eq!(pick.width, 4096);
    assert_eq!(pick.height, 240);
}

#[test]
fn extent_follows_the_surface_when_it_dictates_one() {
    let pick = pick_extent(
        &dummy_caps(),
        PresentSize {
            width: 10,
            height: 10,
        },
    );
    assert_eq!(
        pick,
        Extent2D {
            width: 640,
            height: 480
        }
    );
}

#[test]
fn composite_alpha_masks_are_laid_out_as_bit_flags() {
    assert_eq!(OPAQUE_COMPOSITE_ALPHA, 1);
    assert_eq!(1u32 << 3, 8);
}

#[test]
fn composite_alpha_prefers_opaque_then_lowest_supported_bit() {
    let with_mask = |mask: u32| SurfaceCapabilities {
        supported_composite_alpha: mask,
        ..dummy_caps()
    };
    assert_eq!(pick_composite_alpha(&with_mask(0)), 1);
    assert_eq!(pick_composite_alpha(&with_mask(0b1011)), 1);
    assert_eq!(pick_composite_alpha(&with_mask(0b1100)), 4);
    assert_eq!(pick_composite_alpha(&with_mask(0b1000)), 8);
}

#[test]
fn surface_configuration_requires_a_present_mode() {
    let caps = SurfaceCapabilities {
        min_image_count: 1,
        max_image_count: 1,
        ..dummy_caps()
    };
    let formats = [SurfaceFormat {
        format: VK_FORMAT_R8G8B8A8_UNORM,
        color_space: VK_COLOR_SPACE_SRGB_NONLINEAR_KHR,
    }];
    let size = PresentSize {
        width: 800,
        height: 600,
    };
    let (format, mode, extent, count) =
        configure_surface(&caps, &formats, &[VK_PRESENT_MODE_FIFO_KHR], size).unwrap();
    assert_eq!(format.format, VK_FORMAT_R8G8B8A8_UNORM);
    assert_eq!(mode, VK_PRESENT_MODE_FIFO_KHR);
    assert_eq!(extent.width, 640);
    assert_eq!(count, 2);
    assert!(matches!(
        configure_surface(&caps, &formats, &[], size),
        Err(PresentError::FormatUnavailable)
    ));
}

#[test]
fn present_device_prefers_score_then_first_device() {
    let family = |index: u32, flags: u32| QueueFamilyInfo {
        index,
        flags,
        queue_count: 1,
    };
    let device = |device_type: u32, families: Vec<QueueFamilyInfo>| PhysicalDeviceInfo {
        api_version: VK_API_VERSION_1_0,
        driver_version: 0,
        vendor_id: 0,
        device_id: 0,
        device_type,
        name: String::from("gpu"),
        queue_families: families,
    };
    let devices = vec![
        device(1, vec![family(0, QUEUE_GRAPHICS)]),
        device(2, vec![family(0, QUEUE_COMPUTE), family(1, QUEUE_GRAPHICS)]),
        device(2, vec![family(0, QUEUE_GRAPHICS)]),
    ];
    let support = vec![vec![true], vec![true, true], vec![true]];
    assert_eq!(pick_present_device(&devices, &support).unwrap(), (1, 1));
    let no_surface = vec![vec![true], vec![true, false], vec![false]];
    assert_eq!(pick_present_device(&devices, &no_surface).unwrap(), (0, 0));
    assert!(matches!(
        pick_present_device(&devices, &[]),
        Err(PresentError::NoSuitableDevice)
    ));
}

#[test]
fn frame_plan_routes_the_upload_to_the_ui_pass() {
    let plan = plan_present_frame(7, 3, 64, true, true, 2);
    assert_eq!(plan.frame_index, 1);
    assert_eq!(plan.upload_bytes, 64);
    assert!(plan.draw_ui);
    let clear_only = plan_present_frame(2, 3, 0, false, true, 2);
    assert_eq!(clear_only.frame_index, 2);
    assert!(!clear_only.draw_ui);
    assert_eq!(clear_only.barrier_dst_stage, 0x4);
}

#[test]
fn out_of_date_is_a_status_not_an_error() {
    assert!(matches!(
        classify_present_error(VulkanLoaderError::OutOfDate),
        Ok(PresentStatus::OutOfDate)
    ));
    assert!(matches!(
        classify_present_error(VulkanLoaderError::NoPhysicalDevices),
        Err(PresentError::Vulkan(VulkanLoaderError::NoPhysicalDevices))
    ));
}

#[test]
fn ui_upload_staging_is_bounded_and_patched_in_place() {
    let mut upload = Vec::new();
    stage_ui_upload(&mut upload, &[1, 2, 3, 4]).unwrap();
    assert_eq!(upload, vec![1, 2, 3, 4]);
    let ranges = [
        UiUploadRange {
            offset: 1,
            bytes: vec![9, 9],
        },
        UiUploadRange {
            offset: 5,
            bytes: vec![7],
        },
    ];
    stage_ui_upload_ranges(&mut upload, &ranges, 6).unwrap();
    assert_eq!(upload, vec![1, 9, 9, 4, 0, 7]);
    let bad = [UiUploadRange {
        offset: 5,
        bytes: vec![1, 2],
    }];
    assert!(matches!(
        stage_ui_upload_ranges(&mut upload, &bad, 6),
        Err(PresentError::AllocationFailed)
    ));
    let mut untouched = vec![5u8];
    assert!(stage_ui_upload_ranges(&mut untouched, &[], UI_UPLOAD_CAPACITY as usize + 1).is_err());
    assert_eq!(untouched, vec![5]);
}

#[test]
fn ui_draw_refuses_null_handles_empty_area_and_no_draws() {
    assert!(check_ui_draw(8, 1, 2, 3, 4, 5, 640, 480, 2).is_ok());
    for refused in [
        check_ui_draw(0, 1, 2, 3, 4, 5, 640, 480, 2),
        check_ui_draw(8, 1, 2, 3, 4, 0, 640, 480, 2),
        check_ui_draw(8, 1, 2, 3, 4, 5, 640, 0, 2),
        check_ui_draw(8, 1, 2, 3, 4, 5, 640, 480, 0),
    ] {
        assert!(matches!(refused, Err(VulkanLoaderError::InvalidQueuePlan)));
    }
}

#[test]
fn image_count_is_at_least_three_within_driver_range() {
    let with = |min_image_count: u32, max_image_count: u32| SurfaceCapabilities {
        min_image_count,
        max_image_count,
        ..dummy_caps()
    };
    assert_eq!(default_image_count(&with(0, 0)), 3);
    assert_eq!(default_image_count(&with(1, 0)), 3);
    assert_eq!(default_image_count(&with(3, 0)), 4);
    assert_eq!(default_image_count(&with(0, 2)), 2);
    assert_eq!(default_image_count(&with(1, 1)), 1);
    assert_eq!(default_image_count(&with(2, 8)), 3);
    assert_eq!(default_image_count(&with(4, 4)), 4);
}

#[test]
fn present_engine_needs_both_native_handles() {
    assert!(check_present_handles(0x1000, 0x2000).is_ok());
    assert!(matches!(check_present_handles(0, 0x2000), Err(PresentError::NullWindowHandle)));
    assert!(matches!(check_present_handles(0x1000, 0), Err(PresentError::NullWindowHandle)));
}

#[test]
fn pipeline_and_buffer_requests_refuse_null_or_empty_inputs() {
    assert!(check_ui_pipeline_inputs(1, 2, 3, 4, 800, 600).is_ok());
    for refused in [
        check_ui_pipeline_inputs(0, 2, 3, 4, 800, 600),
        check_ui_pipeline_inputs(1, 2, 0, 4, 800, 600),
        check_ui_pipeline_inputs(1, 2, 3, 4, 0, 600),
    ] {
        assert!(matches!(refused, Err(VulkanLoaderError::InvalidQueuePlan)));
    }
    assert!(check_buffer_request(0x10, 256, 0x20).is_ok());
    for refused in [
        check_buffer_request(0, 256, 0x20),
        check_buffer_request(0x10, 0, 0x20),
        check_buffer_request(0x10, 256, 0),
    ] {
        assert!(matches!(refused, Err(VulkanLoaderError::InvalidQueuePlan)));
    }
}
