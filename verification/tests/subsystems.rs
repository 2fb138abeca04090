use rust_kernel_game_engine_kit::platform::vulkan_policy::{
    QueueFamilyInfo, QUEUE_COMPUTE, QUEUE_GRAPHICS, QUEUE_TRANSFER,
};
use rust_kernel_game_engine_kit::subsystems::audio::AudioSubsystem;
use rust_kernel_game_engine_kit::subsystems::input::{HeadlessInput, InputEvent, InputSubsystem};
use rust_kernel_game_engine_kit::subsystems::physics::{Body, PhysicsSubsystem};
use rust_kernel_game_engine_kit::subsystems::renderer::{
    choose_render_device, submit_frame, BinarySemaphore, CommandBufferState, CommandError,
    CommandPool, CommandState, Fence, FenceState, FrameSlot, FrameState, GpuCandidate,
    RenderDevicePlanError, RenderFrame, SemaphoreState, SurfaceLifecycle, SwapchainConfig,
    SwapchainLifecycle,
};
use rust_kernel_game_engine_kit::subsystems::scripting::{
    Instruction, ScriptError, ScriptingSubsystem,
};
use rust_kernel_game_engine_kit::subsystems::window::{
    HeadlessWindow, WindowEvent, WindowId, WindowSize,
};

const COMPLETE: [QueueFamilyInfo; 1] = [QueueFamilyInfo {
    index: 4,
    flags: QUEUE_GRAPHICS | QUEUE_COMPUTE | QUEUE_TRANSFER,
    queue_count: 1,
}];

const GRAPHICS_ONLY: [QueueFamilyInfo; 1] = [QueueFamilyInfo {
    index: 0,
    flags: QUEUE_GRAPHICS,
    queue_count: 1,
}];

#[test]
fn advances_active_voices_and_freezes_stopped_voices() {
    let mut audio = AudioSubsystem::with_capacity(2);
    assert_eq!(audio.add_voice(3, 500), Some(0));
    assert_eq!(audio.add_voice(7, 1000), Some(1));
    audio.advance(10);
    assert_eq!(audio.voices()[0].phase, 30);
    assert_eq!(audio.voices()[1].phase, 70);
    assert!(audio.stop_voice(1));
    audio.advance(10);
    assert_eq!(audio.voices()[0].phase, 60);
    assert_eq!(audio.voices()[1].phase, 70);
}

#[test]
fn audio_rejects_voices_past_capacity() {
    let mut audio = AudioSubsystem::with_capacity(1);
    assert_eq!(audio.add_voice(1, 0), Some(0));
    assert_eq!(audio.add_voice(1, 0), None);
    assert!(!audio.stop_voice(3));
}

#[test]
fn snapshot_applies_events_deterministically() {
    let mut input = HeadlessInput::default();
    input.push(InputEvent::Key {
        key: 32,
        pressed: true,
    });
    input.push(InputEvent::MouseMoved { x: 10, y: -4 });
    input.push(InputEvent::MouseButton {
        button: 1,
        pressed: true,
    });

    let snapshot = input.advance();
    assert!(snapshot.key_down(32));
    assert!(snapshot.mouse_button_down(1));
    assert_eq!(snapshot.mouse_position(), (10, -4));
}

#[test]
fn release_and_invalid_button_are_safe() {
    let mut input = HeadlessInput::default();
    input.push(InputEvent::Key {
        key: 7,
        pressed: true,
    });
    input.push(InputEvent::Key {
        key: 7,
        pressed: false,
    });
    input.push(InputEvent::MouseButton {
        button: 16,
        pressed: true,
    });
    let snapshot = input.advance();
    assert!(!snapshot.key_down(7));
    assert!(!snapshot.mouse_button_down(16));
}

#[test]
fn text_input_is_bounded_to_one_frame() {
    let mut input = HeadlessInput::default();
    input.push(InputEvent::TextByte { byte: b'A' });
    input.push(InputEvent::TextByte { byte: b'B' });
    assert_eq!(input.advance().text(), b"AB");
    assert!(input.advance().text().is_empty());
}

#[test]
fn integrates_in_fixed_point_without_allocating() {
    let mut physics = PhysicsSubsystem::with_capacity(1);
    assert_eq!(
        physics.add_body(Body {
            position: [0, 10],
            velocity: [2, -4]
        }),
        Some(0)
    );
    assert_eq!(
        physics.add_body(Body {
            position: [0, 0],
            velocity: [0, 0]
        }),
        None
    );
    physics.integrate(500_000_000);
    assert_eq!(physics.bodies()[0].position, [1, 8]);
}

#[test]
fn evaluates_arithmetic_without_allocating_during_execution() {
    let mut vm = ScriptingSubsystem::with_capacity(8, 4, 8);
    assert!(vm.load(&[
        Instruction::Push(6),
        Instruction::Push(7),
        Instruction::Mul,
        Instruction::Halt
    ]));
    vm.execute();
    assert_eq!(vm.stack(), &[42]);
    assert_eq!(vm.last_error(), None);
}

#[test]
fn instruction_budget_stops_non_terminating_programs() {
    let mut vm = ScriptingSubsystem::with_capacity(4, 4, 2);
    assert!(vm.load(&[Instruction::Push(1), Instruction::Push(2), Instruction::Add]));
    vm.execute();
    assert_eq!(
        vm.last_error(),
        Some(ScriptError::InstructionBudgetExceeded)
    );
}

#[test]
fn scripting_reports_stack_underflow_and_overflow() {
    let mut vm = ScriptingSubsystem::with_capacity(4, 1, 8);
    assert!(vm.load(&[Instruction::Add]));
    vm.execute();
    assert_eq!(vm.last_error(), Some(ScriptError::StackUnderflow));
    assert!(vm.load(&[Instruction::Push(1), Instruction::Push(2)]));
    vm.execute();
    assert_eq!(vm.last_error(), Some(ScriptError::StackOverflow));
    assert!(!vm.load(&[Instruction::Halt; 5]));
}

#[test]
fn invalid_size_is_rejected() {
    assert_eq!(WindowSize::new(0, 720), None);
    assert_eq!(WindowSize::new(1280, 0), None);
}

#[test]
fn events_update_state_and_drain_in_order() {
    let size = WindowSize::new(1280, 720).unwrap();
    let resized = WindowSize::new(1920, 1080).unwrap();
    let mut window = HeadlessWindow::new(WindowId(1), size);
    window.push_event(WindowEvent::Resized(resized));
    window.push_event(WindowEvent::Focused(false));
    window.push_event(WindowEvent::CloseRequested);

    let mut events = Vec::new();
    window.drain_events(&mut events);

    assert_eq!(window.size(), resized);
    assert!(!window.is_focused());
    assert!(!window.is_open());
    assert_eq!(events.len(), 3);
}

#[test]
fn chooses_highest_scored_device_with_complete_queues() {
    let candidates = [
        GpuCandidate {
            device_score: 9,
            queue_families: &GRAPHICS_ONLY,
        },
        GpuCandidate {
            device_score: 3,
            queue_families: &COMPLETE,
        },
    ];
    let plan = choose_render_device(&candidates).unwrap();
    assert_eq!(plan.candidate_index, 1);
    assert_eq!(plan.queues.graphics, 4);
}

#[test]
fn rejects_devices_without_complete_queues() {
    assert_eq!(
        choose_render_device(&[GpuCandidate {
            device_score: 10,
            queue_families: &GRAPHICS_ONLY
        }]),
        Err(RenderDevicePlanError::NoSuitableDevice)
    );
}

#[test]
fn command_buffer_requires_deterministic_lifecycle() {
    let mut command = CommandBufferState::new();
    assert_eq!(command.end(), Err(CommandError::InvalidTransition));
    command.begin().unwrap();
    command.end().unwrap();
    command.submit().unwrap();
    command.reset().unwrap();
    assert_eq!(command.state(), CommandState::Initial);
}

#[test]
fn frame_slot_requires_signal_after_submit() {
    let mut frame = FrameSlot::new();
    assert_eq!(frame.signal(), Err(CommandError::InvalidTransition));
    frame.acquire().unwrap();
    frame.submit().unwrap();
    frame.signal().unwrap();
    assert_eq!(frame.state(), FrameState::Available);
}

#[test]
fn command_pool_enforces_capacity_and_reset_safety() {
    let mut pool = CommandPool::with_capacity(1);
    assert_eq!(pool.allocate(), Some(0));
    assert_eq!(pool.allocate(), None);
    let buffer = pool.buffer_mut(0).unwrap();
    buffer.begin().unwrap();
    buffer.end().unwrap();
    buffer.submit().unwrap();
    assert_eq!(pool.reset(), Err(CommandError::InvalidTransition));
}

#[test]
fn fence_requires_submit_signal_reset_order() {
    let mut fence = Fence::new();
    assert_eq!(fence.signal(), Err(CommandError::InvalidTransition));
    fence.submit().unwrap();
    fence.signal().unwrap();
    fence.reset().unwrap();
    assert_eq!(fence.state(), FenceState::Unsignaled);
}

#[test]
fn binary_semaphore_is_consumed_once() {
    let mut semaphore = BinarySemaphore::new();
    assert_eq!(semaphore.consume(), Err(CommandError::InvalidTransition));
    semaphore.signal().unwrap();
    semaphore.consume().unwrap();
    assert_eq!(semaphore.state(), SemaphoreState::Unsignaled);
    assert_eq!(semaphore.consume(), Err(CommandError::InvalidTransition));
}

#[test]
fn submit_frame_transitions_all_sync_objects_atomically_in_order() {
    let mut command = CommandBufferState::new();
    command.begin().unwrap();
    command.end().unwrap();
    let mut wait = BinarySemaphore::new();
    wait.signal().unwrap();
    let mut signal = BinarySemaphore::new();
    let mut fence = Fence::new();
    submit_frame(&mut command, &mut wait, &mut signal, &mut fence).unwrap();
    assert_eq!(command.state(), CommandState::Submitted);
    assert_eq!(wait.state(), SemaphoreState::Unsignaled);
    assert_eq!(signal.state(), SemaphoreState::Signaled);
    assert_eq!(fence.state(), FenceState::Submitted);
}

#[test]
fn submit_frame_refusal_changes_nothing() {
    let mut command = CommandBufferState::new();
    command.begin().unwrap();
    command.end().unwrap();
    let mut wait = BinarySemaphore::new();
    let mut signal = BinarySemaphore::new();
    let mut fence = Fence::new();
    assert_eq!(
        submit_frame(&mut command, &mut wait, &mut signal, &mut fence),
        Err(CommandError::InvalidTransition)
    );
    assert_eq!(command.state(), CommandState::Executable);
    assert_eq!(signal.state(), SemaphoreState::Unsignaled);
    assert_eq!(fence.state(), FenceState::Unsignaled);
}

#[test]
fn render_frame_runs_complete_frame_lifecycle() {
    let mut frame = RenderFrame::new();
    frame.wait.signal().unwrap();
    frame.begin().unwrap();
    frame.submit().unwrap();
    frame.complete().unwrap();
    assert_eq!(frame.slot.state(), FrameState::Available);
    assert_eq!(frame.command.state(), CommandState::Initial);
}

#[test]
fn swapchain_requires_ready_surface_and_handles_resize() {
    let mut surface = SurfaceLifecycle::new();
    let mut swapchain = SwapchainLifecycle::new();
    assert_eq!(
        swapchain.create(surface.state()),
        Err(CommandError::InvalidTransition)
    );
    surface.create().unwrap();
    swapchain.create(surface.state()).unwrap();
    swapchain.mark_out_of_date().unwrap();
    swapchain.destroy().unwrap();
}

#[test]
fn swapchain_config_rejects_invalid_extent_and_buffer_count() {
    assert!(SwapchainConfig {
        width: 0,
        height: 720,
        image_count: 2,
        format: 1,
        present_mode: 0
    }
    .validate()
    .is_err());
    assert!(SwapchainConfig {
        width: 1280,
        height: 720,
        image_count: 1,
        format: 1,
        present_mode: 0
    }
    .validate()
    .is_err());
    assert!(SwapchainConfig {
        width: 1280,
        height: 720,
        image_count: 2,
        format: 1,
        present_mode: 0
    }
    .validate()
    .is_ok());
}

#[test]
fn held_keys_and_buttons_follow_the_last_event_for_each() {
    let mut input = HeadlessInput::default();
    for event in [
        InputEvent::Key { key: 5, pressed: true },
        InputEvent::Key { key: 6, pressed: true },
        InputEvent::Key { key: 5, pressed: false },
        InputEvent::Key { key: 7, pressed: false },
        InputEvent::MouseButton { button: 3, pressed: true },
        InputEvent::MouseButton { button: 3, pressed: false },
        InputEvent::MouseButton { button: 3, pressed: true },
        InputEvent::MouseButton { button: 20, pressed: true },
    ] {
        input.try_push(event).unwrap();
    }
    let snapshot = input.try_advance().unwrap();
    assert_eq!(snapshot.keys(), &[6]);
    assert!(!snapshot.key_down(5));
    assert!(snapshot.key_down(6));
    assert!(!snapshot.key_down(7));
    assert!(snapshot.mouse_button_down(3));
    assert!(!snapshot.mouse_button_down(20));
    input.try_push(InputEvent::Key { key: 5, pressed: true }).unwrap();
    let snapshot = input.try_advance().unwrap();
    assert_eq!(snapshot.keys(), &[5, 6]);
}

#[test]
fn input_step_queues_events_in_delivery_order() {
    let mut subsystem = InputSubsystem::new();
    let frame = subsystem.tick(&[
        InputEvent::MouseMoved { x: 1, y: 1 },
        InputEvent::MouseMoved { x: 9, y: 4 },
        InputEvent::TextByte { byte: b'a' },
        InputEvent::TextByte { byte: b'b' },
    ]);
    assert_eq!((frame.mouse_x, frame.mouse_y), (9, 4));
    assert_eq!(frame.text_count, 2);
    assert_eq!(&frame.text[..2], b"ab");
}

#[test]
fn advance_fails_only_on_a_key_press() {
    let mut input = HeadlessInput::default();
    input.try_push(InputEvent::MouseMoved { x: 3, y: 4 }).unwrap();
    input.try_push(InputEvent::TextByte { byte: b'z' }).unwrap();
    input.try_push(InputEvent::Key { key: 9, pressed: false }).unwrap();
    let snapshot = input.try_advance().unwrap();
    assert_eq!(snapshot.mouse_position(), (3, 4));
    assert_eq!(snapshot.text(), b"z");
}
