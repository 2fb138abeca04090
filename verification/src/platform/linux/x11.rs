//! The X11 window backend's vocabulary: its load errors and the decoding of
//! raw `XEvent` records into window and input events.
use vstd::prelude::*;

use crate::platform::vulkan::DlError;
use crate::subsystems::input::InputEvent;
use crate::subsystems::window::{WindowEvent, WindowSize};

verus! {

pub const KEY_PRESS: i32 = 2;

pub const KEY_RELEASE: i32 = 3;

pub const MOTION_NOTIFY: i32 = 6;

pub const CONFIGURE_NOTIFY: i32 = 22;

pub const CLIENT_MESSAGE: i32 = 33;

#[derive(Debug)]
pub enum X11Error {
    Library(DlError),
    MissingSymbol(DlError),
    DisplayUnavailable,
}

impl X11Error {
    /// What failed, without the loader's own detail.
    pub fn message(&self) -> (r: String)
        ensures
            self is DisplayUnavailable ==> r@ == "XOpenDisplay returned no display"@,
            self is Library ==> r@ == "X11 library load failed"@,
            self is MissingSymbol ==> r@ == "X11 symbol missing"@,
    {
        match self {
            X11Error::Library(_) => "X11 library load failed".to_string(),
            X11Error::MissingSymbol(_) => "X11 symbol missing".to_string(),
            X11Error::DisplayUnavailable => "XOpenDisplay returned no display".to_string(),
        }
    }
}

/// What one X event means to the engine.
#[derive(Clone, Copy, Debug, PartialEq, Eq)]
pub enum X11Decoded {
    Input(InputEvent),
    Window(WindowEvent),
    Ignored,
}

/// Decodes an `XEvent` from its type and the fields the engine reads: key
/// press/release carry the keycode, pointer motion the 16-bit position,
/// configure the 16-bit size (each at least 1), and a client message is the
/// window manager's close request; everything else is ignored.
pub fn decode_x11_event(event_type: i32, keycode: u32, x: i16, y: i16, width: u16, height: u16) -> (r: X11Decoded)
    ensures
        event_type == KEY_PRESS ==> r == X11Decoded::Input(InputEvent::Key { key: keycode, pressed: true }),
        event_type == KEY_RELEASE ==> r == X11Decoded::Input(InputEvent::Key { key: keycode, pressed: false }),
        event_type == MOTION_NOTIFY ==> r == X11Decoded::Input(InputEvent::MouseMoved { x: x as i32, y: y as i32 }),
        event_type == CONFIGURE_NOTIFY ==> r == X11Decoded::Window(WindowEvent::Resized(WindowSize {
            width: if width == 0 { 1 } else { width as u32 },
            height: if height == 0 { 1 } else { height as u32 },
        })),
        event_type == CLIENT_MESSAGE ==> r == X11Decoded::Window(WindowEvent::CloseRequested),
        event_type != KEY_PRESS && event_type != KEY_RELEASE && event_type != MOTION_NOTIFY
            && event_type != CONFIGURE_NOTIFY && event_type != CLIENT_MESSAGE ==> r == X11Decoded::Ignored,
{
    if event_type == KEY_PRESS || event_type == KEY_RELEASE {
        X11Decoded::Input(InputEvent::Key { key: keycode, pressed: event_type == KEY_PRESS })
    } else if event_type == MOTION_NOTIFY {
        X11Decoded::Input(InputEvent::MouseMoved { x: x as i32, y: y as i32 })
    } else if event_type == CONFIGURE_NOTIFY {
        let w: u32 = if width == 0 { 1 } else { width as u32 };
        let h: u32 = if height == 0 { 1 } else { height as u32 };
        X11Decoded::Window(WindowEvent::Resized(WindowSize { width: w, height: h }))
    } else if event_type == CLIENT_MESSAGE {
        X11Decoded::Window(WindowEvent::CloseRequested)
    } else {
        X11Decoded::Ignored
    }
}

} // verus!
