//! OS-neutral window contract and deterministic headless backend.
use std::collections::VecDeque;

use vstd::prelude::*;

use crate::subsystems::messages::WindowResized;
use crate::subsystems::queue::deque_try_reserve;

verus! {

#[derive(Clone, Copy, Debug, PartialEq, Eq)]
pub struct WindowId(pub u32);

#[derive(Clone, Copy, Debug, PartialEq, Eq)]
pub struct WindowSize {
    pub width: u32,
    pub height: u32,
}

impl WindowSize {
    /// A size with both dimensions nonzero; `None` otherwise.
    pub fn new(width: u32, height: u32) -> (r: Option<Self>)
        ensures
            r is Some <==> (width != 0 && height != 0),
            r matches Some(s) ==> s.width == width && s.height == height,
    {
        if width == 0 || height == 0 {
            None
        } else {
            Some(Self { width, height })
        }
    }
}

#[derive(Clone, Copy, Debug, PartialEq, Eq)]
pub enum WindowEvent {
    Resized(WindowSize),
    CloseRequested,
    Focused(bool),
}

#[derive(Clone, Copy, Debug, PartialEq, Eq, Structural)]
pub enum WindowError {
    AllocationFailed,
}

/// The window state that events change.
pub struct WindowModel {
    pub id: WindowId,
    pub size: WindowSize,
    pub open: bool,
    pub focused: bool,
}

pub open spec fn spec_window_event(m: WindowModel, event: WindowEvent) -> WindowModel {
    match event {
        WindowEvent::Resized(size) => WindowModel { size, ..m },
        WindowEvent::CloseRequested => WindowModel { open: false, ..m },
        WindowEvent::Focused(focused) => WindowModel { focused, ..m },
    }
}

/// Deterministic window backend for tests and headless/server execution:
/// events change the window state when pushed and are queued for the next
/// drain.
pub struct HeadlessWindow {
    id: WindowId,
    size: WindowSize,
    open: bool,
    focused: bool,
    events: VecDeque<WindowEvent>,
}

impl View for HeadlessWindow {
    type V = WindowModel;

    closed spec fn view(&self) -> WindowModel {
        WindowModel { id: self.id, size: self.size, open: self.open, focused: self.focused }
    }
}

impl HeadlessWindow {
    pub closed spec fn queued(&self) -> Seq<WindowEvent> {
        self.events@
    }

    pub fn new(id: WindowId, size: WindowSize) -> (r: Self)
        ensures
            r@ == (WindowModel { id, size, open: true, focused: true }),
            r.queued() == Seq::<WindowEvent>::empty(),
    {
        Self { id, size, open: true, focused: true, events: VecDeque::new() }
    }

    pub fn id(&self) -> (r: WindowId)
        ensures
            r == self@.id,
    {
        self.id
    }

    pub fn size(&self) -> (r: WindowSize)
        ensures
            r == self@.size,
    {
        self.size
    }

    pub fn is_open(&self) -> (r: bool)
        ensures
            r == self@.open,
    {
        self.open
    }

    pub fn is_focused(&self) -> (r: bool)
        ensures
            r == self@.focused,
    {
        self.focused
    }

    pub fn push_event(&mut self, event: WindowEvent)
        ensures
            final(self)@ == spec_window_event(old(self)@, event),
            final(self).queued() == old(self).queued().push(event),
    {
        self.apply(event);
        self.events.push_back(event);
    }

    fn apply(&mut self, event: WindowEvent)
        ensures
            final(self)@ == spec_window_event(old(self)@, event),
            final(self).queued() == old(self).queued(),
    {
        match event {
            WindowEvent::Resized(size) => self.size = size,
            WindowEvent::CloseRequested => self.open = false,
            WindowEvent::Focused(focused) => self.focused = focused,
        }
    }

    /// Applies and queues an event; when the queue cannot grow nothing
    /// changes and `AllocationFailed` is returned.
    pub fn try_push_event(&mut self, event: WindowEvent) -> (r: Result<(), WindowError>)
        ensures
            r is Ok ==> final(self)@ == spec_window_event(old(self)@, event) && final(self).queued()
                == old(self).queued().push(event),
            r is Err ==> final(self)@ == old(self)@ && final(self).queued() == old(self).queued(),
    {
        if deque_try_reserve(&mut self.events, 1).is_err() {
            return Err(WindowError::AllocationFailed);
        }
        self.apply(event);
        self.events.push_back(event);
        Ok(())
    }

    /// Moves every queued event, in order, into `out`, replacing its previous
    /// contents.
    pub fn drain_events(&mut self, out: &mut Vec<WindowEvent>)
        ensures
            final(out)@ == old(self).queued(),
            final(self).queued() == Seq::<WindowEvent>::empty(),
            final(self)@ == old(self)@,
    {
        out.clear();
        while self.events.len() > 0
            invariant
                old(self).queued() == out@ + self.events@,
                self@ == old(self)@,
            decreases self.events@.len(),
        {
            let event = self.events[0];
            self.events.pop_front();
            out.push(event);
            proof {
                assert(old(self).queued() =~= out@ + self.events@);
            }
        }
        proof {
            assert(out@ =~= old(self).queued());
        }
    }
}

/// Owns the headless window and reports a resize to the renderer once per
/// step.
pub struct WindowSubsystem {
    window: HeadlessWindow,
    frame_events: Vec<WindowEvent>,
}

impl WindowSubsystem {
    pub closed spec fn spec_window(&self) -> HeadlessWindow {
        self.window
    }

    pub closed spec fn spec_frame_events(&self) -> Seq<WindowEvent> {
        self.frame_events@
    }

    pub fn new(id: WindowId, size: WindowSize) -> (r: Self)
        ensures
            r.spec_window()@ == (WindowModel { id, size, open: true, focused: true }),
            r.spec_window().queued() == Seq::<WindowEvent>::empty(),
            r.spec_frame_events() == Seq::<WindowEvent>::empty(),
    {
        Self { window: HeadlessWindow::new(id, size), frame_events: Vec::with_capacity(16) }
    }

    pub fn try_new(id: WindowId, size: WindowSize) -> (r: Result<Self, WindowError>)
        ensures
            r matches Ok(w) ==> w.spec_window()@ == (WindowModel {
                id,
                size,
                open: true,
                focused: true,
            }) && w.spec_window().queued() == Seq::<WindowEvent>::empty()
                && w.spec_frame_events() == Seq::<WindowEvent>::empty(),
            r matches Err(e) ==> e == WindowError::AllocationFailed,
    {
        let mut frame_events: Vec<WindowEvent> = Vec::new();
        if frame_events.try_reserve(16).is_err() {
            return Err(WindowError::AllocationFailed);
        }
        Ok(Self { window: HeadlessWindow::new(id, size), frame_events })
    }

    pub fn window(&self) -> (r: &HeadlessWindow)
        ensures
            *r == self.spec_window(),
    {
        &self.window
    }

    pub fn window_mut(&mut self) -> (r: &mut HeadlessWindow)
        ensures
            *r == old(self).spec_window(),
            final(self).spec_window() == *final(r),
            final(self).spec_frame_events() == old(self).spec_frame_events(),
    {
        &mut self.window
    }

    pub fn frame_events(&self) -> (r: &[WindowEvent])
        ensures
            r@ == self.spec_frame_events(),
    {
        self.frame_events.as_slice()
    }

    /// One fixed step: drains the window's queued events into this step's
    /// event list and, when any of them is a resize, returns the window's
    /// current size as the resize notice for the renderer.
    pub fn tick(&mut self) -> (r: Option<WindowResized>)
        ensures
            final(self).spec_frame_events() == old(self).spec_window().queued(),
            final(self).spec_window().queued() == Seq::<WindowEvent>::empty(),
            final(self).spec_window()@ == old(self).spec_window()@,
            r is Some <==> exists|i: int|
                0 <= i < old(self).spec_window().queued().len() && #[trigger] old(
                    self,
                ).spec_window().queued()[i] is Resized,
            r matches Some(m) ==> m.width == old(self).spec_window()@.size.width && m.height
                == old(self).spec_window()@.size.height,
    {
        self.window.drain_events(&mut self.frame_events);
        let mut resized = false;
        let mut i: usize = 0;
        while i < self.frame_events.len()
            invariant
                i <= self.frame_events@.len(),
                resized <==> exists|j: int|
                    0 <= j < i && #[trigger] self.frame_events@[j] is Resized,
            decreases self.frame_events.len() - i,
        {
            if let WindowEvent::Resized(_) = self.frame_events[i] {
                resized = true;
            }
            i = i + 1;
        }
        if resized {
            let size = self.window.size();
            Some(WindowResized { width: size.width, height: size.height })
        } else {
            None
        }
    }
}

} // verus!
