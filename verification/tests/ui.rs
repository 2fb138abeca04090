use rust_kernel_game_engine_kit::platform::present::stage_ui_upload_ranges;
use rust_kernel_game_engine_kit::subsystems::messages::{InputFrame, UiAssetReady};
use rust_kernel_game_engine_kit::subsystems::ui::tick::{
    apply_asset_ready, asset_state, frame_events, frame_ready, queue_command,
};
use rust_kernel_game_engine_kit::subsystems::ui::budget::{UiDiagnostics, UiError};
use rust_kernel_game_engine_kit::subsystems::ui::commands::{UiCommand, UiCommandBuffer};
use rust_kernel_game_engine_kit::subsystems::ui::components::{UiNodeKind, UiText};
use rust_kernel_game_engine_kit::subsystems::ui::placeholder::paint_class;
use rust_kernel_game_engine_kit::subsystems::ui::id::{FontId, TextureId, UiNodeId};
use rust_kernel_game_engine_kit::subsystems::ui::input::{topmost_hit, UiFocusCapture, UiInputEvent};
use rust_kernel_game_engine_kit::subsystems::ui::paint::{
    batch_key, budgeted_upload_plan, build_batches, encode_dirty_ranges, kind_code, upload_bytes, upload_plan, ClipId,
    PaintClass, UiBatch, UiUploadPlan, UI_GLYPH_STRIDE_BYTES, UI_ITEM_STRIDE_BYTES,
};
use rust_kernel_game_engine_kit::subsystems::ui::resources::{UiAssetState, UiResourceTable};
use rust_kernel_game_engine_kit::subsystems::ui::text::GlyphAtlas;
use rust_kernel_game_engine_kit::subsystems::ui::wire::{encode_records, glyph_offsets, UiGlyphRecord, UiItemRecord};

#[test]
fn atlas_eviction_invalidates_generation() {
    let mut atlas = GlyphAtlas::try_new(2).unwrap();
    let first = atlas.allocate(8, 8).unwrap();
    assert_eq!(atlas.occupied(), 1);
    assert_eq!(atlas.evict_generation(first.generation), 1);
    assert_eq!(atlas.occupied(), 0);
}

#[test]
fn atlas_reuses_slots_round_robin() {
    let mut atlas = GlyphAtlas::try_new(1).unwrap();
    let first = atlas.allocate(4, 4).unwrap();
    let second = atlas.allocate(4, 4).unwrap();
    assert_eq!(second.generation, first.generation + 1);
    assert_eq!((second.x, second.y), (0, 0));
    assert_eq!(atlas.occupied(), 1);
    // The overwritten generation is gone already.
    assert_eq!(atlas.evict_generation(first.generation), 0);
    assert_eq!(atlas.allocate(0, 4), Err(UiError::InvalidValue));
}

#[test]
fn resource_generation_bumps_on_every_change() {
    let mut table = UiResourceTable::try_new(2).unwrap();
    let texture = TextureId::new(3, 1);
    table.register_texture(texture, UiAssetState::Loading).unwrap();
    assert_eq!(table.texture(texture).unwrap().generation, 1);
    assert!(!table.texture_ready(texture));
    table.set_texture_state(texture, UiAssetState::Ready).unwrap();
    assert!(table.texture_ready(texture));
    assert_eq!(table.texture(texture).unwrap().generation, 2);
    assert_eq!(table.evict_texture(texture), Ok(3));
    assert_eq!(table.texture(texture).unwrap().state, UiAssetState::Missing);
    assert!(!table.texture_ready(texture));
}

#[test]
fn unknown_resources_are_unavailable() {
    let mut table = UiResourceTable::try_new(1).unwrap();
    let font = FontId::new(1, 1);
    assert_eq!(
        table.set_font_state(font, UiAssetState::Ready),
        Err(UiError::ResourceUnavailable)
    );
    assert_eq!(table.evict_font(font), Err(UiError::ResourceUnavailable));
    assert!(table.font(font).is_none());
    assert!(!table.font_ready(font));
}

#[test]
fn resource_table_is_bounded_per_kind() {
    let mut table = UiResourceTable::try_new(1).unwrap();
    table.register_font(FontId::new(0, 1), UiAssetState::Ready).unwrap();
    assert_eq!(
        table.register_font(FontId::new(1, 1), UiAssetState::Ready),
        Err(UiError::CapacityExceeded)
    );
    // Re-registering a known font is an update, not a new entry.
    table.register_font(FontId::new(0, 1), UiAssetState::Failed).unwrap();
    assert_eq!(table.font(FontId::new(0, 1)).unwrap().generation, 2);
    // Textures have their own budget.
    table.register_texture(TextureId::new(0, 1), UiAssetState::Ready).unwrap();
    assert!(table.font_ready(FontId::new(0, 1)) == false);
}

#[test]
fn batch_keys_separate_passes_and_samplers() {
    let clip = ClipId(2);
    let rect = batch_key(PaintClass::Rect, clip, 5);
    assert_eq!(rect.pass, 0);
    assert_eq!(rect.kind, 0);
    assert_eq!(rect.texture, None);
    let image = batch_key(
        PaintClass::Image {
            texture: TextureId::new(4, 1),
        },
        clip,
        5,
    );
    assert_eq!(image.kind, 2);
    assert_eq!(image.texture, Some(TextureId::new(4, 1)));
    let glyphs = batch_key(
        PaintClass::GlyphRun {
            font: FontId::new(0, 1),
        },
        clip,
        5,
    );
    assert_eq!(glyphs.pass, 1);
    assert_eq!(glyphs.font, Some(FontId::new(0, 1)));
    assert_eq!(batch_key(PaintClass::Custom { token: 9 }, clip, 5).pass, 2);
    assert_eq!(kind_code(PaintClass::Gradient), 5);
    assert_eq!(kind_code(PaintClass::RoundedRect), 6);
    assert_eq!(kind_code(PaintClass::Border), 1);
}

#[test]
fn consecutive_equal_keys_share_a_batch() {
    let a = batch_key(PaintClass::Rect, ClipId(0), 0);
    let b = batch_key(PaintClass::Border, ClipId(0), 0);
    let batches = build_batches(&[a, a, b, a], 8).unwrap();
    assert_eq!(
        batches,
        vec![
            UiBatch {
                key: a,
                first: 0,
                count: 2
            },
            UiBatch {
                key: b,
                first: 2,
                count: 1
            },
            UiBatch {
                key: a,
                first: 3,
                count: 1
            },
        ]
    );
    assert_eq!(build_batches(&[], 0).unwrap(), vec![]);
}

#[test]
fn batching_refuses_more_batches_than_allowed() {
    let a = batch_key(PaintClass::Rect, ClipId(0), 0);
    let b = batch_key(PaintClass::Rect, ClipId(1), 0);
    assert_eq!(build_batches(&[a, b, a], 2), Err(UiError::CapacityExceeded));
    assert_eq!(build_batches(&[a, a, a], 1).unwrap().len(), 1);
}

#[test]
fn upload_plan_counts_item_and_glyph_strides() {
    assert_eq!(UI_ITEM_STRIDE_BYTES, 80);
    assert_eq!(UI_GLYPH_STRIDE_BYTES, 32);
    assert_eq!(upload_bytes(2, 3), Ok(2 * 80 + 3 * 32));
    assert_eq!(
        upload_plan(2, 1, 3),
        Ok(UiUploadPlan {
            item_count: 2,
            batch_count: 1,
            glyph_count: 3,
            upload_bytes: 256,
        })
    );
    assert_eq!(upload_bytes(usize::MAX, 0), Err(UiError::IndexOverflow));
    assert_eq!(
        upload_plan(u32::MAX as usize + 1, 0, 0),
        Err(UiError::IndexOverflow)
    );
}

fn stream(items: usize) -> Vec<u8> {
    (0..items * UI_ITEM_STRIDE_BYTES)
        .map(|i| (i % 251) as u8)
        .collect()
}

#[test]
fn unchanged_snapshot_has_no_dirty_ranges_and_new_snapshot_is_one_range() {
    // A root and one panel paint two items and no glyphs.
    let snapshot = stream(2);
    let plan = upload_plan(2, 2, 0).unwrap();
    assert!(encode_dirty_ranges(&snapshot, Some(&snapshot))
        .unwrap()
        .is_empty());
    let ranges = encode_dirty_ranges(&snapshot, None).unwrap();
    assert_eq!(ranges.len(), 1);
    assert_eq!(ranges[0].offset, 0);
    assert_eq!(ranges[0].bytes.len(), plan.upload_bytes);
}

#[test]
fn dirty_upload_aligns_changed_record_to_bounded_patch() {
    let baseline = stream(1);
    let mut changed = baseline.clone();
    // The opacity of the first item sits at bytes 56..60.
    changed[56] ^= 0xff;
    let ranges = encode_dirty_ranges(&changed, Some(&baseline)).unwrap();
    assert_eq!(ranges.len(), 1);
    assert_eq!(ranges[0].offset, 32);
    assert_eq!(ranges[0].bytes.len(), 32);
    assert_eq!(ranges[0].bytes[..], changed[32..64]);
}

#[test]
fn dirty_ranges_cover_growth_and_clip_to_a_shorter_stream() {
    let old = stream(1);
    let grown = stream(2);
    let ranges = encode_dirty_ranges(&grown, Some(&old)).unwrap();
    assert_eq!(ranges.len(), 1);
    assert_eq!(ranges[0].offset, 64);
    assert_eq!(ranges[0].bytes[..], grown[64..160]);

    // The chunk cut short by the shrink is resent up to the new end.
    let shrunk = encode_dirty_ranges(&old[..40], Some(&old)).unwrap();
    assert_eq!(shrunk.len(), 1);
    assert_eq!(shrunk[0].offset, 32);
    assert_eq!(shrunk[0].bytes[..], old[32..40]);
}

#[test]
fn staging_dirty_ranges_rebuilds_the_current_stream() {
    let previous = stream(3);
    let mut current = stream(3);
    current[5] = 1;
    current[100] = 2;
    current[230] = 3;
    let ranges = encode_dirty_ranges(&current, Some(&previous)).unwrap();
    assert_eq!(ranges.len(), 3);
    let mut staged = previous.clone();
    stage_ui_upload_ranges(&mut staged, &ranges, current.len()).unwrap();
    assert_eq!(staged, current);
}

#[test]
fn ui_text_is_bounded_by_bytes() {
    let text = UiText::try_new("héllo", 6).unwrap();
    assert_eq!(text.as_str(), "héllo");
    assert_eq!(text.byte_len(), 6);
    assert_eq!(UiText::try_new("héllo", 5), Err(UiError::CapacityExceeded));
}

#[test]
fn press_on_a_focusable_target_captures_and_focuses() {
    let a = UiNodeId::new(1, 1);
    let b = UiNodeId::new(2, 1);
    let live = [a, b];
    let mut focus = UiFocusCapture::new();
    let press = UiInputEvent::PointerButton {
        button: 0,
        pressed: true,
        x: 1,
        y: 1,
    };
    let result = focus.route(press, &live, Some(a), &[a]);
    assert_eq!(result.target, Some(a));
    assert_eq!(result.focused, Some(a));
    assert!(result.consumed);
    assert_eq!(focus.captured(), Some(a));
    // While captured, pointer events go to the capturing node.
    let moved = focus.route(UiInputEvent::PointerMove { x: 5, y: 5 }, &live, Some(b), &[a]);
    assert_eq!(moved.target, Some(a));
    let release = UiInputEvent::PointerButton {
        button: 0,
        pressed: false,
        x: 5,
        y: 5,
    };
    focus.route(release, &live, Some(b), &[a]);
    assert_eq!(focus.captured(), None);
    assert_eq!(focus.focused(), Some(a));
    // A destroyed node loses focus.
    focus.clear_stale(&[b]);
    assert_eq!(focus.focused(), None);
}

#[test]
fn diagnostics_count_fallbacks_saturating() {
    let mut diagnostics = UiDiagnostics {
        overflow_fallbacks: usize::MAX - 1,
        ..UiDiagnostics::default()
    };
    diagnostics.record_error();
    diagnostics.record_error();
    assert_eq!(diagnostics.overflow_fallbacks, usize::MAX);
}

#[test]
fn missing_resources_use_bounded_placeholders() {
    let node = UiNodeId::new(3, 1);
    let font = FontId::new(2, 1);
    let texture = TextureId::new(5, 1);
    let mut table = UiResourceTable::try_new(4).unwrap();
    table.register_font(font, UiAssetState::Loading).unwrap();
    table.register_texture(texture, UiAssetState::Loading).unwrap();
    // Not ready yet: both stand in as rectangles.
    assert_eq!(
        paint_class(node, UiNodeKind::Text, false, false, Some(font), None, Some(&table)),
        (PaintClass::Rect, true)
    );
    assert_eq!(
        paint_class(node, UiNodeKind::Image, false, false, None, Some(texture), Some(&table)),
        (PaintClass::Rect, true)
    );
    // An image without a texture is a placeholder too.
    assert_eq!(
        paint_class(node, UiNodeKind::Image, false, false, None, None, None),
        (PaintClass::Rect, true)
    );
    table.set_font_state(font, UiAssetState::Ready).unwrap();
    table.set_texture_state(texture, UiAssetState::Ready).unwrap();
    assert_eq!(
        paint_class(node, UiNodeKind::Text, false, false, Some(font), None, Some(&table)),
        (PaintClass::GlyphRun { font }, false)
    );
    assert_eq!(
        paint_class(node, UiNodeKind::Image, false, false, None, Some(texture), Some(&table)),
        (PaintClass::Image { texture }, false)
    );
    // Text that names no font uses the fallback font.
    assert_eq!(
        paint_class(node, UiNodeKind::Text, false, false, None, None, Some(&table)),
        (
            PaintClass::GlyphRun {
                font: FontId::new(0, 1)
            },
            false
        )
    );
}

#[test]
fn panels_paint_by_their_style() {
    let node = UiNodeId::new(7, 2);
    assert_eq!(
        paint_class(node, UiNodeKind::Panel, true, true, None, None, None),
        (PaintClass::Gradient, false)
    );
    assert_eq!(
        paint_class(node, UiNodeKind::Root, false, true, None, None, None),
        (PaintClass::RoundedRect, false)
    );
    assert_eq!(
        paint_class(node, UiNodeKind::Panel, false, false, None, None, None),
        (PaintClass::Rect, false)
    );
    assert_eq!(
        paint_class(node, UiNodeKind::Custom, false, false, None, None, None),
        (PaintClass::Custom { token: 7 }, false)
    );
}

#[test]
fn topmost_hit_prefers_higher_z_then_later_preorder() {
    let a = UiNodeId::new(1, 0);
    let b = UiNodeId::new(2, 0);
    let c = UiNodeId::new(3, 0);
    assert_eq!(topmost_hit(&[]), None);
    assert_eq!(topmost_hit(&[(a, 0)]), Some(a));
    // The highest z-index wins wherever it stands.
    assert_eq!(topmost_hit(&[(a, 5), (b, 1), (c, 2)]), Some(a));
    // Among equal z-indices the node latest in preorder is on top.
    assert_eq!(topmost_hit(&[(a, 2), (b, 2), (c, 1)]), Some(b));
    assert_eq!(topmost_hit(&[(a, -1), (b, -1), (c, -1)]), Some(c));
}

#[test]
fn command_buffer_is_bounded_and_drains_in_order() {
    let mut buffer: UiCommandBuffer<UiCommand<u8, u8>> = UiCommandBuffer::try_with_capacity(2).unwrap();
    assert!(buffer.is_empty());
    assert_eq!(buffer.capacity(), 2);
    let a = UiNodeId::new(1, 1);
    let b = UiNodeId::new(2, 1);
    buffer.try_push(UiCommand::Destroy(a)).unwrap();
    buffer.try_push(UiCommand::SetZIndex { node: b, z_index: 3 }).unwrap();
    assert_eq!(
        buffer.try_push(UiCommand::SetVisible { node: a, visible: false }).err(),
        Some(UiError::CapacityExceeded)
    );
    assert_eq!(buffer.len(), 2);
    let drained = buffer.drain_all();
    assert_eq!(drained.len(), 2);
    assert!(matches!(drained[0], UiCommand::Destroy(id) if id == a));
    assert!(matches!(drained[1], UiCommand::SetZIndex { node, z_index: 3 } if node == b));
    assert!(buffer.is_empty());
    assert_eq!(buffer.capacity(), 2);
    buffer.try_push(UiCommand::Destroy(b)).unwrap();
    assert_eq!(buffer.len(), 1);
}

fn quiet_input() -> InputFrame {
    InputFrame {
        mouse_x: 0,
        mouse_y: 0,
        mouse_buttons: 0,
        pressed_buttons: 0,
        released_buttons: 0,
        key_count: 0,
        keys: [0; 32],
        pressed_key_count: 0,
        pressed_keys: [0; 32],
        released_key_count: 0,
        released_keys: [0; 32],
        text_count: 0,
        text: [0; 64],
    }
}

#[test]
fn input_frame_becomes_ordered_ui_events() {
    let mut input = quiet_input();
    input.pressed_buttons = 0b101;
    input.released_buttons = 0b100;
    input.pressed_key_count = 2;
    input.pressed_keys[0] = 30;
    input.pressed_keys[1] = 31;
    input.released_key_count = 1;
    input.released_keys[0] = 40;
    input.text_count = 2;
    input.text[0] = b'h';
    input.text[1] = b'i';
    let events = frame_events(&input, 12, -3);
    assert_eq!(
        events,
        vec![
            UiInputEvent::PointerMove { x: 12, y: -3 },
            UiInputEvent::PointerButton { button: 0, pressed: true, x: 12, y: -3 },
            UiInputEvent::PointerButton { button: 2, pressed: true, x: 12, y: -3 },
            UiInputEvent::PointerButton { button: 2, pressed: false, x: 12, y: -3 },
            UiInputEvent::Key { key: 30, pressed: true },
            UiInputEvent::Key { key: 31, pressed: true },
            UiInputEvent::Key { key: 40, pressed: false },
            UiInputEvent::TextByte { byte: b'h' },
            UiInputEvent::TextByte { byte: b'i' },
        ]
    );
    // Counts beyond the arrays are capped at their length.
    let mut flood = quiet_input();
    flood.text_count = 200;
    flood.pressed_key_count = 255;
    assert_eq!(frame_events(&flood, 0, 0).len(), 1 + 32 + 64);
    assert_eq!(frame_events(&quiet_input(), 0, 0), vec![UiInputEvent::PointerMove { x: 0, y: 0 }]);
}

#[test]
fn asset_notifications_update_resources_and_count_refusals() {
    assert_eq!(asset_state(0), Some(UiAssetState::Missing));
    assert_eq!(asset_state(1), Some(UiAssetState::Loading));
    assert_eq!(asset_state(2), Some(UiAssetState::Ready));
    assert_eq!(asset_state(3), Some(UiAssetState::Failed));
    assert_eq!(asset_state(4), None);
    let texture = TextureId::new(3, 2);
    let font = FontId::new(1, 1);
    let mut table = UiResourceTable::try_new(4).unwrap();
    table.register_texture(texture, UiAssetState::Loading).unwrap();
    table.register_font(font, UiAssetState::Loading).unwrap();
    let mut diagnostics = UiDiagnostics::default();
    let ready_texture = UiAssetReady { kind: 0, index: 3, generation: 2, state: 2 };
    assert_eq!(apply_asset_ready(&mut table, &mut diagnostics, ready_texture), Ok(()));
    assert!(table.texture_ready(texture));
    assert!(!table.font_ready(font));
    let ready_font = UiAssetReady { kind: 1, index: 1, generation: 1, state: 2 };
    assert_eq!(apply_asset_ready(&mut table, &mut diagnostics, ready_font), Ok(()));
    assert!(table.font_ready(font));
    assert_eq!(diagnostics.overflow_fallbacks, 0);
    let unknown = UiAssetReady { kind: 0, index: 9, generation: 1, state: 2 };
    assert_eq!(
        apply_asset_ready(&mut table, &mut diagnostics, unknown),
        Err(UiError::ResourceUnavailable)
    );
    let bad_kind = UiAssetReady { kind: 7, index: 3, generation: 2, state: 1 };
    assert_eq!(
        apply_asset_ready(&mut table, &mut diagnostics, bad_kind),
        Err(UiError::InvalidValue)
    );
    let bad_state = UiAssetReady { kind: 0, index: 3, generation: 2, state: 9 };
    assert_eq!(
        apply_asset_ready(&mut table, &mut diagnostics, bad_state),
        Err(UiError::InvalidValue)
    );
    assert!(table.texture_ready(texture));
    assert_eq!(diagnostics.overflow_fallbacks, 3);
}

#[test]
fn full_command_queue_drops_and_counts() {
    let mut buffer: UiCommandBuffer<u8> = UiCommandBuffer::try_with_capacity(1).unwrap();
    let mut diagnostics = UiDiagnostics::default();
    assert_eq!(queue_command(&mut buffer, &mut diagnostics, 1), Ok(()));
    assert_eq!(
        queue_command(&mut buffer, &mut diagnostics, 2),
        Err(UiError::CapacityExceeded)
    );
    assert_eq!(diagnostics.overflow_fallbacks, 1);
    assert_eq!(buffer.drain_all(), vec![1]);
}

#[test]
fn frame_routing_folds_every_event() {
    let node = UiNodeId::new(4, 1);
    let live = [node];
    let mut one_by_one = UiFocusCapture::new();
    let mut framed = UiFocusCapture::new();
    let events = [
        UiInputEvent::PointerMove { x: 1, y: 1 },
        UiInputEvent::PointerButton { button: 0, pressed: true, x: 1, y: 1 },
        UiInputEvent::Key { key: 5, pressed: true },
    ];
    for event in events {
        one_by_one.route(event, &live, Some(node), &live);
    }
    framed.route_frame(&events, &live, Some(node), &live);
    assert_eq!(framed, one_by_one);
    assert_eq!(framed.focused(), Some(node));
    assert_eq!(framed.captured(), Some(node));
}

#[test]
fn upload_budget_is_enforced_after_overflow_checks() {
    let plan = budgeted_upload_plan(2, 1, 3, 2 * 80 + 3 * 32).unwrap();
    assert_eq!(plan.upload_bytes, 256);
    assert_eq!(plan.item_count, 2);
    assert_eq!(
        budgeted_upload_plan(2, 1, 3, 255),
        Err(UiError::CapacityExceeded)
    );
    assert_eq!(
        budgeted_upload_plan(usize::MAX, 1, 0, usize::MAX),
        Err(UiError::IndexOverflow)
    );
}

#[test]
fn upload_stream_records_have_fixed_layout_and_planned_size() {
    let item = UiItemRecord {
        rect: [1.0f32.to_bits(), 2.0f32.to_bits(), 3.0f32.to_bits(), 4.0f32.to_bits()],
        clip_rect: [0, 0, 0x01020304, 0],
        color: [0; 4],
        clip: 7,
        z_index: -1,
        opacity: 1.0f32.to_bits(),
        kind: 3,
        glyph_count: 1,
        glyph_offset: 0,
        texture: u32::MAX,
        font: 2,
    };
    let glyph = UiGlyphRecord {
        codepoint: 'A' as u32,
        advance: 8.0f32.to_bits(),
        atlas_x: 0x0102,
        atlas_y: 3,
        width: 8,
        height: 16,
    };
    let bytes = encode_records(&[item], &[glyph]).unwrap();
    let plan = upload_plan(1, 1, 1).unwrap();
    assert_eq!(bytes.len(), plan.upload_bytes);
    assert_eq!(bytes.len(), UI_ITEM_STRIDE_BYTES + UI_GLYPH_STRIDE_BYTES);
    assert_eq!(&bytes[0..4], &1.0f32.to_le_bytes());
    assert_eq!(&bytes[24..28], &[4, 3, 2, 1]);
    assert_eq!(&bytes[48..52], &[7, 0, 0, 0]);
    assert_eq!(&bytes[52..56], &[255, 255, 255, 255]);
    assert_eq!(&bytes[60..62], &[3, 0]);
    assert_eq!(&bytes[62..66], &[1, 0, 0, 0]);
    assert_eq!(&bytes[70..74], &[255, 255, 255, 255]);
    assert_eq!(&bytes[74..78], &[2, 0, 0, 0]);
    assert_eq!(&bytes[78..80], &[0, 0]);
    assert_eq!(&bytes[80..84], &[65, 0, 0, 0]);
    assert_eq!(&bytes[84..88], &8.0f32.to_le_bytes());
    assert_eq!(&bytes[88..96], &[2, 1, 3, 0, 8, 0, 16, 0]);
    assert!(bytes[96..112].iter().all(|b| *b == 0));
    assert_eq!(encode_records(&[], &[]).unwrap(), Vec::<u8>::new());
}

#[test]
fn glyph_runs_are_laid_out_back_to_back() {
    assert_eq!(glyph_offsets(&[3, 0, 2, 4]), Ok(vec![0, 3, 3, 5]));
    assert_eq!(glyph_offsets(&[]), Ok(vec![]));
    assert_eq!(glyph_offsets(&[u32::MAX as usize, 1, 0]), Err(UiError::IndexOverflow));
    assert_eq!(glyph_offsets(&[u32::MAX as usize, 0]), Ok(vec![0, u32::MAX]));
    assert_eq!(glyph_offsets(&[u32::MAX as usize + 1]), Err(UiError::IndexOverflow));
}

#[test]
fn atlas_generations_rise_once_per_allocation_and_occupancy_stays_bounded() {
    let mut atlas = GlyphAtlas::try_new(2).unwrap();
    let mut previous = 0;
    for _ in 0..5 {
        let slot = atlas.allocate(8, 8).unwrap();
        assert_eq!(slot.generation, previous + 1);
        previous = slot.generation;
        assert!(atlas.occupied() <= 2);
    }
    atlas.evict_generation(5);
    assert_eq!(atlas.allocate(8, 8).unwrap().generation, 6);
}

fn panel_record(rect: [f32; 4], clip: [f32; 4], color: [f32; 4], kind: u8) -> UiItemRecord {
    UiItemRecord {
        rect: rect.map(f32::to_bits),
        clip_rect: clip.map(f32::to_bits),
        color: color.map(f32::to_bits),
        clip: 0,
        z_index: 0,
        opacity: 1.0f32.to_bits(),
        kind,
        glyph_count: 0,
        glyph_offset: 0,
        texture: u32::MAX,
        font: u32::MAX,
    }
}

#[test]
fn snapshot_wire_size_matches_declared_upload_budget() {
    // The snapshot of a root and one text node "hello" in a 640 x 480
    // viewport: two items and five glyphs.
    let viewport = [0.0, 0.0, 640.0, 480.0];
    let root = panel_record(viewport, viewport, [0.0, 0.0, 0.0, 0.0], kind_code(PaintClass::Rect));
    let mut text = panel_record(
        [0.0, 0.0, 640.0, 16.0],
        [0.0, 0.0, 640.0, 16.0],
        [1.0, 1.0, 1.0, 1.0],
        kind_code(PaintClass::GlyphRun { font: FontId::new(0, 1) }),
    );
    text.glyph_count = 5;
    text.font = 0;
    let glyphs: Vec<UiGlyphRecord> = "hello"
        .chars()
        .enumerate()
        .map(|(i, ch)| UiGlyphRecord {
            codepoint: ch as u32,
            advance: 8.0f32.to_bits(),
            atlas_x: i as u16,
            atlas_y: 0,
            width: 8,
            height: 16,
        })
        .collect();
    let items = [root, text];
    let plan = upload_plan(items.len(), 2, glyphs.len()).unwrap();
    let bytes = encode_records(&items, &glyphs).unwrap();
    assert_eq!(bytes.len(), plan.upload_bytes);
    assert_eq!(glyphs.len(), plan.glyph_count as usize);
    assert_eq!(bytes.len(), items.len() * 80 + glyphs.len() * 32);
    let word = |at: usize| f32::from_le_bytes(bytes[at..at + 4].try_into().unwrap());
    assert_eq!(word(32), 0.0);
    assert_eq!(word(44), 0.0);
    assert_eq!([word(16), word(20), word(24), word(28)], [0.0, 0.0, 640.0, 480.0]);
}

#[test]
fn paint_budget_accounts_for_the_full_native_item_stride() {
    // A root and one panel paint two items in two clips; 79 bytes cannot
    // hold even one 80-byte item.
    assert_eq!(budgeted_upload_plan(2, 2, 0, 79), Err(UiError::CapacityExceeded));
    assert_eq!(budgeted_upload_plan(1, 1, 0, 79), Err(UiError::CapacityExceeded));
    assert!(budgeted_upload_plan(2, 2, 0, 160).is_ok());
}

#[test]
fn unavailable_font_is_a_placeholder_until_asset_ready() {
    let font = FontId::new(7, 1);
    let node = UiNodeId::new(1, 1);
    let mut resources = UiResourceTable::try_new(8).unwrap();
    resources.register_font(font, UiAssetState::Loading).unwrap();
    let (class, placeholder) =
        paint_class(node, UiNodeKind::Text, false, false, Some(font), None, Some(&resources));
    assert_eq!(class, PaintClass::Rect);
    assert!(placeholder);
    resources.set_font_state(font, UiAssetState::Ready).unwrap();
    let (class, placeholder) =
        paint_class(node, UiNodeKind::Text, false, false, Some(font), None, Some(&resources));
    assert!(matches!(class, PaintClass::GlyphRun { .. }));
    assert!(!placeholder);
}

#[test]
fn only_changed_chunks_are_resent() {
    let previous = stream(4);
    let mut current = stream(4);
    current[40] ^= 1;
    current[300] ^= 1;
    let ranges = encode_dirty_ranges(&current, Some(&previous)).unwrap();
    let covered: Vec<usize> = ranges
        .iter()
        .flat_map(|r| r.offset..r.offset + r.bytes.len())
        .collect();
    let expected: Vec<usize> = (32..64).chain(288..320).collect();
    assert_eq!(covered, expected);
}

#[test]
fn frame_report_counts_the_painted_frame_or_the_failure() {
    let mut diagnostics = UiDiagnostics::default();
    let plan = upload_plan(3, 2, 5).unwrap();
    let ready = frame_ready(4, Ok(plan), &mut diagnostics);
    assert_eq!((ready.nodes, ready.paint_items, ready.batches, ready.glyphs), (4, 3, 2, 5));
    assert_eq!(ready.uploaded_bytes, 3 * 80 + 5 * 32);
    assert_eq!(diagnostics.overflow_fallbacks, 0);
    let failed = frame_ready(4, Err(UiError::CapacityExceeded), &mut diagnostics);
    assert_eq!((failed.nodes, failed.paint_items, failed.uploaded_bytes), (4, 0, 0));
    assert_eq!(diagnostics.overflow_fallbacks, 1);
}
