use rust_kernel_game_engine_kit::platform::clock::elapsed_reading;
use rust_kernel_game_engine_kit::platform::windows::board::{board_layout, DigitMark, KeypadButton, PixelRect};
use rust_kernel_game_engine_kit::platform::cpu::NumaTopology;
use rust_kernel_game_engine_kit::platform::linux::io_uring::{
    check_entries, ring_layout, sq_slot, CompletionEntry, IoUringError, ReadLedger,
    FEAT_SINGLE_MMAP,
};
use rust_kernel_game_engine_kit::platform::linux::syscalls::{SysErrno, SysError};
use rust_kernel_game_engine_kit::platform::linux::threading::{
    arrival_releases, barrier_total, cpu_set_mask, generation_passed,
};
use rust_kernel_game_engine_kit::platform::linux::time::{clock_reading, timespec_to_ns, TimeError};
use rust_kernel_game_engine_kit::platform::linux::x11::{
    decode_x11_event, X11Decoded, X11Error, CLIENT_MESSAGE, CONFIGURE_NOTIFY, KEY_PRESS,
    KEY_RELEASE, MOTION_NOTIFY,
};
use rust_kernel_game_engine_kit::platform::thread_pool::{
    admit_job, is_idle, pool_limits, ThreadPoolError,
};
use rust_kernel_game_engine_kit::platform::windows::cpu::CpuTopology;
use rust_kernel_game_engine_kit::platform::windows::iocp::{
    polled_completion, read_issued, read_length, split_offset, Completion, IocpError,
    ERROR_IO_PENDING,
};
use rust_kernel_game_engine_kit::platform::windows::threading::{
    affinity_mask, latency_priority, ThreadingError, THREAD_PRIORITY_ABOVE_NORMAL,
    THREAD_PRIORITY_NORMAL,
};
use rust_kernel_game_engine_kit::platform::windows::time::{counter_to_ns, query_succeeded};
use rust_kernel_game_engine_kit::platform::windows::winapi::file_size;
use rust_kernel_game_engine_kit::platform::windows::window::{
    check_class_registration, CLASS_ALREADY_EXISTS,
    check_dimensions, decode_message, WindowError, INVALID_DIMENSION, WM_CLOSE, WM_KEYDOWN,
    WM_LBUTTONDOWN, WM_MOUSEMOVE, WM_SIZE,
};
use rust_kernel_game_engine_kit::subsystems::input::InputEvent;
use rust_kernel_game_engine_kit::subsystems::window::{WindowEvent, WindowSize};

#[test]
fn zero_entries_rejected_before_syscall() {
    assert!(matches!(check_entries(0), Err(IoUringError::InvalidEntries)));
    assert!(check_entries(8).is_ok());
}

#[test]
fn invalid_read_inputs_are_rejected_before_queue_access() {
    let ledger = ReadLedger::new(0);
    assert!(matches!(
        ledger.check_read(-1, 0, 0, 0, 1),
        Err(IoUringError::InvalidRead)
    ));
}

#[test]
fn read_admission_checks_queue_room() {
    let ledger = ReadLedger::new(1);
    assert_eq!(ledger.check_read(3, 16, 0, 0, 4), Ok(16));
    // The submission ring is full.
    assert_eq!(
        ledger.check_read(3, 16, 0, 4, 4),
        Err(IoUringError::QueueFull)
    );
    // No completion slot is left.
    let empty = ReadLedger::new(0);
    assert_eq!(empty.check_read(3, 16, 0, 0, 4), Err(IoUringError::QueueFull));
}

#[test]
fn completed_read_hands_back_its_delivered_bytes() {
    let mut ledger = ReadLedger::new(4);
    let request = ledger.record_read(7, vec![1, 2, 3, 4, 5]);
    assert_eq!(request.user_data(), 7);
    assert_eq!(ledger.pending_len(), 1);
    assert!(!ledger.complete(CompletionEntry {
        user_data: 99,
        result: 1,
        flags: 0
    }));
    assert!(ledger.complete(CompletionEntry {
        user_data: 7,
        result: 3,
        flags: 0
    }));
    assert_eq!(ledger.pending_len(), 0);
    assert_eq!(ledger.completed_len(), 1);
    assert_eq!(ledger.take_completed(7), Ok(vec![1, 2, 3]));
    assert_eq!(
        ledger.take_completed(7),
        Err(IoUringError::CompletionUnknown)
    );
}

#[test]
fn failed_read_delivers_no_bytes() {
    let mut ledger = ReadLedger::new(4);
    ledger.record_read(1, vec![9; 8]);
    assert!(ledger.complete(CompletionEntry {
        user_data: 1,
        result: -5,
        flags: 0
    }));
    assert_eq!(ledger.take_completed(1), Ok(Vec::new()));
}

#[test]
fn ring_layout_follows_the_reported_offsets() {
    let split = ring_layout(64, 8, 128, 16, 0);
    assert!(!split.single_mmap);
    assert_eq!(split.sq_ring_len, 64 + 8 * 4);
    assert_eq!(split.cq_ring_len, 128 + 16 * 16);
    assert_eq!(split.sqes_len, 8 * 64);
    let single = ring_layout(64, 8, 128, 16, FEAT_SINGLE_MMAP);
    assert!(single.single_mmap);
    assert_eq!(single.sq_ring_len, 128 + 16 * 16);
    assert_eq!(sq_slot(9, 7), 1);
}

#[test]
fn errno_classification_marks_retryable_errors() {
    assert_eq!(SysErrno::from_raw(4), SysErrno::Interrupted);
    assert_eq!(SysErrno::from_raw(11), SysErrno::WouldBlock);
    assert_eq!(SysErrno::from_raw(2), SysErrno::Other(2));
    assert!(SysErrno::Interrupted.is_transient());
    assert!(!SysErrno::Other(2).is_transient());
    let err = SysError::from_errno(2, "open", Some("/nonexistent".to_string()));
    assert_eq!(err.op, "open");
    assert!(matches!(err.errno, SysErrno::Other(_)));
}

#[test]
fn cpu_set_mask_sets_one_bit_per_listed_cpu() {
    let mask = cpu_set_mask(&[0, 9, 1023, 1024]);
    assert_eq!(mask[0], 0b0000_0001);
    assert_eq!(mask[1], 0b0000_0010);
    assert_eq!(mask[127], 0b1000_0000);
    assert_eq!(mask.iter().map(|b| b.count_ones()).sum::<u32>(), 3);
}

#[test]
fn barrier_releases_on_the_last_arrival() {
    assert_eq!(barrier_total(0), 1);
    assert_eq!(barrier_total(3), 3);
    assert!(!arrival_releases(0, 3));
    assert!(arrival_releases(2, 3));
    assert!(generation_passed(1, 0));
    assert!(!generation_passed(4, 4));
}

#[test]
fn timespec_converts_to_nanoseconds() {
    assert_eq!(timespec_to_ns(2, 5), 2_000_000_005);
    assert_eq!(timespec_to_ns(i64::MAX, 0), u64::MAX);
    assert_eq!(clock_reading(0, 1, 1), Ok(1_000_000_001));
    assert_eq!(clock_reading(-1, 1, 1), Err(TimeError { retcode: -1 }));
}

#[test]
fn display_error_is_actionable() {
    assert_eq!(
        X11Error::DisplayUnavailable.message(),
        "XOpenDisplay returned no display"
    );
}

#[test]
fn x11_events_decode_to_engine_events() {
    assert_eq!(
        decode_x11_event(KEY_PRESS, 38, 0, 0, 0, 0),
        X11Decoded::Input(InputEvent::Key {
            key: 38,
            pressed: true
        })
    );
    assert_eq!(
        decode_x11_event(KEY_RELEASE, 38, 0, 0, 0, 0),
        X11Decoded::Input(InputEvent::Key {
            key: 38,
            pressed: false
        })
    );
    assert_eq!(
        decode_x11_event(MOTION_NOTIFY, 0, -3, 7, 0, 0),
        X11Decoded::Input(InputEvent::MouseMoved { x: -3, y: 7 })
    );
    assert_eq!(
        decode_x11_event(CONFIGURE_NOTIFY, 0, 0, 0, 0, 480),
        X11Decoded::Window(WindowEvent::Resized(WindowSize {
            width: 1,
            height: 480
        }))
    );
    assert_eq!(
        decode_x11_event(CLIENT_MESSAGE, 0, 0, 0, 0, 0),
        X11Decoded::Window(WindowEvent::CloseRequested)
    );
    assert_eq!(decode_x11_event(12, 0, 0, 0, 0, 0), X11Decoded::Ignored);
}

#[test]
fn accepts_normal_priority_contract() {
    assert_eq!(THREAD_PRIORITY_NORMAL, 0);
    assert_eq!(THREAD_PRIORITY_ABOVE_NORMAL, 1);
    assert_eq!(latency_priority(false), THREAD_PRIORITY_NORMAL);
    assert_eq!(latency_priority(true), THREAD_PRIORITY_ABOVE_NORMAL);
}

#[test]
fn rejects_affinity_outside_native_mask_width() {
    assert_eq!(
        affinity_mask(usize::BITS),
        Err(ThreadingError {
            op: "SetThreadAffinityMask",
            code: 87
        })
    );
    assert_eq!(affinity_mask(3), Ok(8));
}

#[test]
fn zero_affinity_mask_is_rejected_before_ffi() {
    assert!(!CpuTopology::mask_is_applicable(0));
    assert!(CpuTopology::mask_is_applicable(1));
}

#[test]
fn failed_numa_query_reports_node_zero() {
    let topology = CpuTopology::from_queries(8, false, 3);
    assert_eq!(topology.logical_processors, 8);
    assert_eq!(topology.highest_numa_node, 0);
    assert_eq!(CpuTopology::from_queries(8, true, 3).highest_numa_node, 3);
}

#[test]
fn rejects_invalid_dimensions_without_ffi() {
    assert!(matches!(
        check_dimensions(0, 720),
        Err(WindowError {
            op: "CreateWindowExA dimensions",
            code: INVALID_DIMENSION
        })
    ));
    assert!(check_dimensions(1280, 720).is_ok());
}

#[test]
fn win32_messages_decode_to_engine_events() {
    let key = decode_message(WM_KEYDOWN, 65, 0);
    assert_eq!(key.window, None);
    assert_eq!(
        key.input,
        vec![InputEvent::Key {
            key: 65,
            pressed: true
        }]
    );
    // x = -2, y = 5 packed as two signed 16-bit halves.
    let packed = ((5_u32 << 16) | 0xfffe) as isize;
    assert_eq!(
        decode_message(WM_MOUSEMOVE, 0, packed).input,
        vec![InputEvent::MouseMoved { x: -2, y: 5 }]
    );
    assert_eq!(
        decode_message(WM_LBUTTONDOWN, 0, packed).input,
        vec![
            InputEvent::MouseMoved { x: -2, y: 5 },
            InputEvent::MouseButton {
                button: 0,
                pressed: true
            },
        ]
    );
    let size = decode_message(WM_SIZE, 0, (600 << 16) as isize);
    assert_eq!(
        size.window,
        Some(WindowEvent::Resized(WindowSize {
            width: 1,
            height: 600
        }))
    );
    assert_eq!(
        decode_message(WM_CLOSE, 0, 0).window,
        Some(WindowEvent::CloseRequested)
    );
    let other = decode_message(0x7fff, 0, 0);
    assert_eq!(other.window, None);
    assert!(other.input.is_empty());
}

#[test]
fn counter_converts_through_its_frequency() {
    assert_eq!(counter_to_ns(10_000_000, 10_000_000), 1_000_000_000);
    assert_eq!(counter_to_ns(3, 1_000), 3_000_000);
    assert!(query_succeeded(1, 10, true));
    assert!(!query_succeeded(1, 0, true));
    assert!(query_succeeded(1, 0, false));
    assert!(!query_succeeded(0, 10, false));
}

#[test]
fn overlapped_requests_are_checked_before_ffi() {
    assert_eq!(split_offset(0x1_0000_0005), (5, 1));
    assert_eq!(read_length(4096), Ok(4096));
    assert_eq!(
        read_length(u32::MAX as usize + 1),
        Err(IocpError::ReadFailed(87))
    );
    assert_eq!(read_issued(0, ERROR_IO_PENDING), Ok(()));
    assert_eq!(read_issued(0, 5), Err(IocpError::ReadFailed(5)));
    assert_eq!(
        polled_completion(1, 12, 3, 0x1000),
        Some(Completion {
            bytes: 12,
            key: 3,
            overlapped: 0x1000
        })
    );
    assert_eq!(polled_completion(1, 12, 3, 0), None);
    assert_eq!(file_size(1, 42), Some(42));
    assert_eq!(file_size(1, -1), None);
}

#[test]
fn thread_pool_limits_and_admission() {
    assert_eq!(pool_limits(0), (1, 1024));
    assert_eq!(pool_limits(4), (4, 4096));
    assert_eq!(pool_limits(usize::MAX).1, usize::MAX);
    assert_eq!(admit_job(true, 0, 10), Err(ThreadPoolError::Stopped));
    assert_eq!(admit_job(false, 10, 10), Err(ThreadPoolError::QueueFull));
    assert_eq!(admit_job(false, 9, 10), Ok(()));
    assert!(is_idle(0, 0));
    assert!(!is_idle(0, 1));
}

#[test]
fn clock_readings_are_never_zero() {
    assert_eq!(elapsed_reading(0), 1);
    assert_eq!(elapsed_reading(5), 5);
}

#[test]
fn empty_sysfs_falls_back_to_one_node_holding_every_cpu() {
    let topology = NumaTopology::from_sysfs_entries(&[]);
    assert!(topology.node_count() >= 1);
    for node in 0..topology.node_count() {
        if let Some(cpus) = topology.cpus_of(node) {
            for &cpu in cpus {
                assert_eq!(topology.node_for_cpu(cpu), Some(node));
            }
        }
    }
}

#[test]
fn fallback_board_geometry_is_fixed() {
    let layout = board_layout();
    assert_eq!(layout.cells.len(), 81);
    assert_eq!(layout.cells[0], PixelRect { left: 72, top: 140, right: 142, bottom: 210 });
    assert_eq!(layout.cells[80], PixelRect { left: 648, top: 716, right: 718, bottom: 786 });
    assert_eq!(layout.digits.len(), 32);
    assert_eq!(layout.digits[0], DigitMark { x: 388, y: 162, digit: 5 });
    assert_eq!(layout.digits[31], DigitMark { x: 460, y: 738, digit: 3 });
    assert_eq!(layout.keypad.len(), 9);
    assert_eq!(
        layout.keypad[4],
        KeypadButton { rect: PixelRect { left: 720, top: 455, right: 775, bottom: 510 }, digit: 5 }
    );
    assert_eq!(layout.keypad[8].digit, 9);
}

#[test]
fn class_registration_tolerates_an_existing_class() {
    assert!(check_class_registration(0xC001, 0).is_ok());
    assert!(check_class_registration(0, CLASS_ALREADY_EXISTS).is_ok());
    let refused = check_class_registration(0, 5).unwrap_err();
    assert_eq!((refused.op, refused.code), ("RegisterClassA", 5));
}
