use rust_kernel_game_engine_kit::subsystems::renderer::frame::{
    CpuRenderManifest, DrawBatch, Entity, GpuFrameCommandPlan, GpuFramePreparation,
    GpuFrameUpload, GpuPreparationError, HeadlessRenderBackend, IndexedGeometry,
    IndirectDrawCommand, RenderBackend, RenderInstance, RenderMaterial, RenderTransform,
    RenderWorld, RenderWorldError, VulkanIndexedIndirectCommand, GPU_INSTANCE_RECORD_SIZE,
    VULKAN_INDEXED_INDIRECT_COMMAND_SIZE,
};
use rust_kernel_game_engine_kit::subsystems::renderer::{
    RendererAction, RendererState, RendererSubsystem, RenderStats,
};

fn bits<const N: usize>(value: f32) -> [u32; N] {
    [value.to_bits(); N]
}

fn instance(index: u32, generation: u32, mesh_id: u32, material_id: u32) -> RenderInstance {
    RenderInstance {
        entity: Entity::new(index, generation),
        transform: bits(0.0),
        bounds: bits(1.0),
        mesh_id,
        material_id,
    }
}

fn prepared(instance: RenderInstance) -> GpuFramePreparation {
    let mut render = RenderWorld::with_capacity(1);
    render.try_push(instance).unwrap();
    let mut manifest = CpuRenderManifest::with_capacity(1, 1);
    manifest.build(&render).unwrap();
    let mut gpu = GpuFramePreparation::with_capacity(1, 1);
    gpu.prepare(&manifest).unwrap();
    gpu
}

#[test]
fn new_renderer_has_stable_empty_state() {
    let renderer = RendererSubsystem::new();
    assert_eq!(renderer.state(), RendererState::New);
    assert_eq!(renderer.stats(), RenderStats::default());
    assert_eq!(renderer.dependencies(), vec!["window"]);
    assert_eq!(renderer.render_world().max_instances(), 4096);
}

#[test]
fn render_world_extract_is_bounded_and_generation_safe() {
    // Entity 0 was despawned and its slot reused at generation 1; entity 1
    // is still alive. Both project an instance.
    let first = Entity::new(0, 0);
    let replacement = Entity::new(0, 1);
    let survivor = Entity::new(1, 0);
    let project = |entity: Entity| RenderInstance {
        entity,
        transform: bits(0.0),
        bounds: bits(1.0),
        mesh_id: 1,
        material_id: 2,
    };
    let mut render = RenderWorld::with_capacity(1);
    let err = render
        .extract_with(&[Some(project(replacement)), Some(project(survivor))])
        .unwrap_err();
    assert_eq!(err, RenderWorldError::CapacityExceeded);
    assert_eq!(render.instances().len(), 1);
    assert!(render.instances()[0].entity != first);
    assert!(render.instances()[0].entity == replacement || render.instances()[0].entity.index == 1);
}

#[test]
fn typed_render_components_extract_into_frame_world() {
    let entity = Entity::new(0, 0);
    let transform = RenderTransform {
        matrix: bits(3.0),
        bounds: bits(2.0),
    };
    let material = RenderMaterial {
        mesh_id: 7,
        material_id: 9,
    };
    let mut render = RenderWorld::with_capacity(4);
    let stats = render
        .extract_typed(&[(entity, Some(transform), Some(material))])
        .unwrap();
    assert_eq!(stats.extracted, 1);
    assert_eq!(render.instances()[0].entity, entity);
    assert_eq!(render.instances()[0].mesh_id, 7);
    assert_eq!(render.instances()[0].transform, bits::<12>(3.0));
}

#[test]
fn typed_extraction_skips_entities_missing_a_component() {
    let transform = RenderTransform {
        matrix: bits(1.0),
        bounds: bits(1.0),
    };
    let material = RenderMaterial {
        mesh_id: 2,
        material_id: 3,
    };
    let mut render = RenderWorld::with_capacity(4);
    let stats = render
        .extract_typed(&[
            (Entity::new(0, 0), Some(transform), None),
            (Entity::new(1, 0), None, Some(material)),
            (Entity::new(2, 0), Some(transform), Some(material)),
        ])
        .unwrap();
    assert_eq!(stats.considered, 3);
    assert_eq!(stats.extracted, 1);
    assert_eq!(stats.rejected, 0);
    assert_eq!(render.instances()[0].entity, Entity::new(2, 0));
}

#[test]
fn cpu_manifest_batches_deterministically_by_mesh_and_material() {
    let mut render = RenderWorld::with_capacity(4);
    for (entity, mesh, material) in [(2, 4, 8), (0, 1, 3), (1, 4, 8), (3, 1, 3)] {
        render.try_push(instance(entity, 0, mesh, material)).unwrap();
    }
    let mut manifest = CpuRenderManifest::with_capacity(4, 4);
    manifest.build(&render).unwrap();
    assert_eq!(
        manifest.batches(),
        &[
            DrawBatch {
                mesh_id: 1,
                material_id: 3,
                first_instance: 0,
                instance_count: 2
            },
            DrawBatch {
                mesh_id: 4,
                material_id: 8,
                first_instance: 2,
                instance_count: 2
            },
        ]
    );
    assert_eq!(manifest.instances()[0].entity.index, 0);
    assert_eq!(manifest.instances()[2].entity.index, 1);
}

#[test]
fn manifest_is_independent_of_extraction_order() {
    let items = [(2, 4, 8), (0, 1, 3), (1, 4, 8), (3, 1, 3)];
    let mut forward = RenderWorld::with_capacity(4);
    let mut backward = RenderWorld::with_capacity(4);
    for &(entity, mesh, material) in items.iter() {
        forward.try_push(instance(entity, 0, mesh, material)).unwrap();
    }
    for &(entity, mesh, material) in items.iter().rev() {
        backward.try_push(instance(entity, 0, mesh, material)).unwrap();
    }
    let mut a = CpuRenderManifest::with_capacity(4, 4);
    let mut b = CpuRenderManifest::with_capacity(4, 4);
    a.build(&forward).unwrap();
    b.build(&backward).unwrap();
    assert_eq!(a.batches(), b.batches());
    assert_eq!(a.instances(), b.instances());
}

#[test]
fn manifest_refuses_more_batches_than_its_capacity() {
    let mut render = RenderWorld::with_capacity(3);
    for (entity, mesh) in [(0, 1), (1, 2), (2, 3)] {
        render.try_push(instance(entity, 0, mesh, 0)).unwrap();
    }
    let mut manifest = CpuRenderManifest::with_capacity(3, 2);
    assert!(manifest.build(&render).is_err());
}

#[test]
fn gpu_preparation_rejects_invalid_indirect_ranges() {
    let gpu = prepared(instance(0, 0, 1, 1));
    assert_eq!(gpu.instances().len(), 1);
    assert_eq!(
        gpu.commands(),
        &[IndirectDrawCommand {
            mesh_id: 1,
            material_id: 1,
            first_instance: 0,
            instance_count: 1,
        }]
    );
    assert_eq!(gpu.validate(), Ok(()));
}

#[test]
fn gpu_preparation_encodes_vulkan_indirect_layout_without_allocating() {
    let gpu = prepared(instance(0, 0, 7, 3));
    let geometry = [IndexedGeometry {
        mesh_id: 7,
        index_count: 36,
        first_index: 12,
        vertex_offset: -4,
    }];
    let mut bytes = [0_u8; VULKAN_INDEXED_INDIRECT_COMMAND_SIZE];
    assert_eq!(
        gpu.encode_indexed_commands(&geometry, &mut bytes).unwrap(),
        VULKAN_INDEXED_INDIRECT_COMMAND_SIZE
    );
    let expected = VulkanIndexedIndirectCommand {
        index_count: 36,
        instance_count: 1,
        first_index: 12,
        vertex_offset: -4,
        first_instance: 0,
    };
    let mut expected_bytes = [0_u8; VULKAN_INDEXED_INDIRECT_COMMAND_SIZE];
    for (field_index, field) in [
        expected.index_count.to_ne_bytes(),
        expected.instance_count.to_ne_bytes(),
        expected.first_index.to_ne_bytes(),
        expected.vertex_offset.to_ne_bytes(),
        expected.first_instance.to_ne_bytes(),
    ]
    .iter()
    .enumerate()
    {
        let start = field_index * core::mem::size_of::<u32>();
        expected_bytes[start..start + field.len()].copy_from_slice(field);
    }
    assert_eq!(bytes, expected_bytes);
}

#[test]
fn gpu_preparation_rejects_missing_geometry_and_short_output() {
    let gpu = prepared(instance(0, 0, 7, 3));
    let mut short = [0_u8; VULKAN_INDEXED_INDIRECT_COMMAND_SIZE - 1];
    assert_eq!(
        gpu.encode_indexed_commands(&[], &mut short),
        Err(GpuPreparationError::OutputTooSmall)
    );
    let mut output = [0_u8; VULKAN_INDEXED_INDIRECT_COMMAND_SIZE];
    assert_eq!(
        gpu.encode_indexed_commands(&[], &mut output),
        Err(GpuPreparationError::MissingGeometry)
    );
    assert_eq!(output, [0_u8; VULKAN_INDEXED_INDIRECT_COMMAND_SIZE]);
}

#[test]
fn gpu_preparation_encodes_stable_instance_records_and_command_plan() {
    let gpu = prepared(RenderInstance {
        entity: Entity::new(4, 9),
        transform: bits(1.0),
        bounds: bits(2.0),
        mesh_id: 7,
        material_id: 3,
    });
    let plan = gpu.command_plan(64).unwrap();
    assert_eq!(
        plan,
        GpuFrameCommandPlan {
            instance_count: 1,
            draw_count: 1,
            instance_upload_bytes: GPU_INSTANCE_RECORD_SIZE,
            indirect_upload_bytes: VULKAN_INDEXED_INDIRECT_COMMAND_SIZE,
            cull_workgroups: 1,
        }
    );
    let mut bytes = [0_u8; GPU_INSTANCE_RECORD_SIZE];
    assert_eq!(
        gpu.encode_instance_records(&mut bytes).unwrap(),
        GPU_INSTANCE_RECORD_SIZE
    );
    assert_eq!(
        bytes[0..4],
        1.0_f32.to_ne_bytes(),
        "first transform value must use native shader upload byte order"
    );
    let entity_offset = 16 * core::mem::size_of::<f32>();
    assert_eq!(bytes[entity_offset..entity_offset + 4], 4_u32.to_ne_bytes());
    assert_eq!(bytes[entity_offset + 4..entity_offset + 8], 9_u32.to_ne_bytes());
    assert_eq!(bytes[entity_offset + 12..entity_offset + 16], 3_u32.to_ne_bytes());
}

#[test]
fn gpu_preparation_rejects_zero_workgroup_size() {
    let gpu = GpuFramePreparation::with_capacity(0, 0);
    assert_eq!(
        gpu.command_plan(0),
        Err(GpuPreparationError::InvalidWorkgroupSize)
    );
}

#[test]
fn command_plan_rounds_cull_workgroups_up() {
    let mut render = RenderWorld::with_capacity(3);
    for entity in 0..3 {
        render.try_push(instance(entity, 0, 1, 1)).unwrap();
    }
    let mut manifest = CpuRenderManifest::with_capacity(3, 1);
    manifest.build(&render).unwrap();
    let mut gpu = GpuFramePreparation::with_capacity(3, 1);
    gpu.prepare(&manifest).unwrap();
    let plan = gpu.command_plan(2).unwrap();
    assert_eq!(plan.instance_count, 3);
    assert_eq!(plan.draw_count, 1);
    assert_eq!(plan.cull_workgroups, 2);
    assert_eq!(plan.instance_upload_bytes, 3 * GPU_INSTANCE_RECORD_SIZE);
}

#[test]
fn gpu_frame_upload_builds_bounded_native_payload_once() {
    let preparation = prepared(instance(0, 0, 5, 2));
    let upload = GpuFrameUpload::try_build(
        &preparation,
        &[IndexedGeometry {
            mesh_id: 5,
            index_count: 3,
            first_index: 0,
            vertex_offset: 0,
        }],
        32,
    )
    .unwrap();
    assert_eq!(upload.plan().instance_count, 1);
    assert_eq!(upload.plan().draw_count, 1);
    assert_eq!(upload.instance_bytes().len(), GPU_INSTANCE_RECORD_SIZE);
    assert_eq!(
        upload.indirect_command_bytes().len(),
        VULKAN_INDEXED_INDIRECT_COMMAND_SIZE
    );
    assert_eq!(upload.indirect_command_bytes()[0..4], 3_u32.to_ne_bytes());
}

#[test]
fn gpu_upload_reuses_caller_owned_staging_buffers() {
    let preparation = prepared(instance(0, 0, 5, 2));
    let geometry = [IndexedGeometry {
        mesh_id: 5,
        index_count: 3,
        first_index: 0,
        vertex_offset: 0,
    }];
    let mut instances = Vec::new();
    let mut commands = Vec::new();
    let plan =
        GpuFrameUpload::try_encode_into(&preparation, &geometry, 32, &mut instances, &mut commands)
            .unwrap();
    let instance_ptr = instances.as_ptr();
    let command_ptr = commands.as_ptr();

    let second =
        GpuFrameUpload::try_encode_into(&preparation, &geometry, 32, &mut instances, &mut commands)
            .unwrap();

    assert_eq!(plan, second);
    assert_eq!(instance_ptr, instances.as_ptr());
    assert_eq!(command_ptr, commands.as_ptr());
}

#[test]
fn renderer_entrypoint_builds_empty_upload_without_touching_ecs() {
    let renderer = RendererSubsystem::new();
    let upload = renderer.build_gpu_upload(&[], 64).unwrap();

    assert_eq!(upload.plan().instance_count, 0);
    assert_eq!(upload.plan().draw_count, 0);
    assert_eq!(upload.plan().cull_workgroups, 0);
    assert!(upload.instance_bytes().is_empty());
    assert!(upload.indirect_command_bytes().is_empty());
}

#[test]
fn headless_backend_counts_only_valid_prepared_frames() {
    let preparation = prepared(instance(0, 0, 1, 1));
    let mut backend = HeadlessRenderBackend::new();
    let stats = backend.submit(&preparation).unwrap();
    assert_eq!(stats.submitted_frames, 1);
    assert_eq!(stats.submitted_instances, 1);
    assert_eq!(stats.submitted_commands, 1);
}

#[test]
fn ready_renderer_ticks_through_the_headless_backend() {
    let mut renderer = RendererSubsystem::new();
    renderer.init();
    assert_eq!(renderer.state(), RendererState::Ready);
    let transform = RenderTransform {
        matrix: bits(1.0),
        bounds: bits(1.0),
    };
    let material = RenderMaterial {
        mesh_id: 3,
        material_id: 4,
    };
    let action = renderer.tick(&[(Entity::new(0, 0), Some(transform), Some(material))], 16);
    assert_eq!(action, RendererAction::Nothing);
    assert_eq!(renderer.stats().frames, 1);
    assert_eq!(renderer.stats().total_dt_ns, 16);
    assert_eq!(renderer.last_submission().unwrap().submitted_instances, 1);
    assert!(!renderer.manifest_overflowed());
    renderer.shutdown();
    assert_eq!(renderer.state(), RendererState::Shutdown);
}
