//! The Win32 window backend's vocabulary: its error, the size check before
//! window creation, and the decoding of window messages into window and
//! input events.
use vstd::prelude::*;

use crate::subsystems::input::InputEvent;
use crate::subsystems::window::{WindowEvent, WindowSize};

verus! {

/// `ERROR_INVALID_PARAMETER`, reported for a non-positive window size.
pub const INVALID_DIMENSION: u32 = 87;

pub const WM_SIZE: u32 = 0x0005;

pub const WM_CLOSE: u32 = 0x0010;

pub const WM_KEYDOWN: u32 = 0x0100;

pub const WM_KEYUP: u32 = 0x0101;

pub const WM_MOUSEMOVE: u32 = 0x0200;

pub const WM_LBUTTONDOWN: u32 = 0x0201;

pub const WM_LBUTTONUP: u32 = 0x0202;

#[derive(Debug, Clone, Copy, PartialEq, Eq)]
pub struct WindowError {
    pub op: &'static str,
    pub code: u32,
}

/// A window must have a positive width and height.
pub fn check_dimensions(width: i32, height: i32) -> (r: Result<(), WindowError>)
    ensures
        width <= 0 || height <= 0 ==> r == Err::<(), WindowError>(
            WindowError { op: "CreateWindowExA dimensions", code: INVALID_DIMENSION },
        ),
        width > 0 && height > 0 ==> r is Ok,
{
    if width <= 0 || height <= 0 {
        return Err(WindowError { op: "CreateWindowExA dimensions", code: INVALID_DIMENSION });
    }
    Ok(())
}

/// `ERROR_CLASS_ALREADY_EXISTS`: the window class was registered earlier.
pub const CLASS_ALREADY_EXISTS: u32 = 1410;

/// Whether registering the window class succeeded: `RegisterClassA`
/// returned a class atom, or it failed only because the class already
/// exists; any other failure is reported with the thread's last error.
pub fn check_class_registration(atom: u16, last_error: u32) -> (r: Result<(), WindowError>)
    ensures
        atom != 0 || last_error == CLASS_ALREADY_EXISTS ==> r is Ok,
        atom == 0 && last_error != CLASS_ALREADY_EXISTS ==> r == Err::<(), WindowError>(
            WindowError { op: "RegisterClassA", code: last_error },
        ),
{
    if atom == 0 && last_error != CLASS_ALREADY_EXISTS {
        return Err(WindowError { op: "RegisterClassA", code: last_error });
    }
    Ok(())
}

/// What one window message means to the engine: at most one window event
/// and up to two input events, in order.
#[derive(Clone, Debug, PartialEq, Eq)]
pub struct Win32Decoded {
    pub window: Option<WindowEvent>,
    pub input: Vec<InputEvent>,
}

/// Low 16 bits of the message parameter, as a signed coordinate.
pub open spec fn low_coordinate(l_param: isize) -> i32 {
    (((l_param as u32) & 0xffff) as i16) as i32
}

/// High 16 bits of the message parameter, as a signed coordinate.
pub open spec fn high_coordinate(l_param: isize) -> i32 {
    ((((l_param as u32) >> 16) & 0xffff) as i16) as i32
}

/// A 16-bit size component, at least 1.
pub open spec fn size_component(v: u32) -> u32 {
    if v == 0 {
        1
    } else {
        v
    }
}

/// Decodes a window message: key down/up carry the virtual-key code, mouse
/// messages the signed client position (and, for the left button, its new
/// state), a size message the client size (each side at least 1), and a
/// close message the close request; others mean nothing.
pub fn decode_message(message: u32, w_param: usize, l_param: isize) -> (r: Win32Decoded)
    ensures
        message == WM_KEYDOWN || message == WM_KEYUP ==> r.window is None && r.input@ == seq![
            InputEvent::Key { key: w_param as u32, pressed: message == WM_KEYDOWN },
        ],
        message == WM_MOUSEMOVE ==> r.window is None && r.input@ == seq![
            InputEvent::MouseMoved { x: low_coordinate(l_param), y: high_coordinate(l_param) },
        ],
        message == WM_LBUTTONDOWN || message == WM_LBUTTONUP ==> r.window is None && r.input@
            == seq![
            InputEvent::MouseMoved { x: low_coordinate(l_param), y: high_coordinate(l_param) },
            InputEvent::MouseButton { button: 0, pressed: message == WM_LBUTTONDOWN },
        ],
        message == WM_SIZE ==> r.input@.len() == 0 && r.window == Some(
            WindowEvent::Resized(
                WindowSize {
                    width: size_component((l_param as u32) & 0xffff),
                    height: size_component(((l_param as u32) >> 16) & 0xffff),
                },
            ),
        ),
        message == WM_CLOSE ==> r.input@.len() == 0 && r.window == Some(WindowEvent::CloseRequested),
        message != WM_KEYDOWN && message != WM_KEYUP && message != WM_MOUSEMOVE && message
            != WM_LBUTTONDOWN && message != WM_LBUTTONUP && message != WM_SIZE && message
            != WM_CLOSE ==> r.window is None && r.input@.len() == 0,
{
    let mut input: Vec<InputEvent> = Vec::new();
    let mut window: Option<WindowEvent> = None;
    let bits = l_param as u32;
    if message == WM_KEYDOWN || message == WM_KEYUP {
        input.push(InputEvent::Key { key: w_param as u32, pressed: message == WM_KEYDOWN });
    } else if message == WM_MOUSEMOVE || message == WM_LBUTTONDOWN || message == WM_LBUTTONUP {
        let x = ((bits & 0xffff) as i16) as i32;
        let y = (((bits >> 16) & 0xffff) as i16) as i32;
        input.push(InputEvent::MouseMoved { x, y });
        if message != WM_MOUSEMOVE {
            input.push(InputEvent::MouseButton { button: 0, pressed: message == WM_LBUTTONDOWN });
        }
    } else if message == WM_SIZE {
        let w = bits & 0xffff;
        let h = (bits >> 16) & 0xffff;
        window = Some(
            WindowEvent::Resized(
                WindowSize {
                    width: if w == 0 {
                        1
                    } else {
                        w
                    },
                    height: if h == 0 {
                        1
                    } else {
                        h
                    },
                },
            ),
        );
    } else if message == WM_CLOSE {
        window = Some(WindowEvent::CloseRequested);
    }
    Win32Decoded { window, input }
}

} // verus!
