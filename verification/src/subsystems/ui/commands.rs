//! Deferred UI mutations, queued in a bounded buffer and applied at a
//! deterministic frame boundary. A command carries the node content `C` and
//! style `S` it installs; the buffer only queues and hands them back in
//! order.
use vstd::prelude::*;

use crate::subsystems::ui::budget::UiError;
use crate::subsystems::ui::components::{UiAccessibility, UiText};
use crate::subsystems::ui::id::UiNodeId;

verus! {

#[derive(Clone, Debug, PartialEq)]
pub enum UiCommand<C, S> {
    Create { parent: UiNodeId, content: C },
    Destroy(UiNodeId),
    Reparent { node: UiNodeId, parent: UiNodeId },
    SetStyle { node: UiNodeId, style: S },
    SetText { node: UiNodeId, text: UiText },
    SetVisible { node: UiNodeId, visible: bool },
    SetZIndex { node: UiNodeId, z_index: i32 },
    SetAccessibility { node: UiNodeId, accessibility: UiAccessibility },
}

/// A queue of at most `capacity` commands, reserved up front.
pub struct UiCommandBuffer<T> {
    commands: Vec<T>,
    capacity: usize,
}

impl<T> UiCommandBuffer<T> {
    /// The queued commands, oldest first.
    pub closed spec fn spec_commands(&self) -> Seq<T> {
        self.commands@
    }

    pub closed spec fn spec_capacity(&self) -> nat {
        self.capacity as nat
    }

    /// The queue never holds more than its capacity.
    pub closed spec fn wf(&self) -> bool {
        self.commands@.len() <= self.capacity
    }

    /// An empty buffer for `capacity` commands; `AllocationFailed` when the
    /// room cannot be reserved.
    pub fn try_with_capacity(capacity: usize) -> (r: Result<Self, UiError>)
        ensures
            r matches Ok(b) ==> b.wf() && b.spec_commands() == Seq::<T>::empty() && b.spec_capacity()
                == capacity,
            r matches Err(e) ==> e == UiError::AllocationFailed,
    {
        let mut commands: Vec<T> = Vec::new();
        if commands.try_reserve(capacity).is_err() {
            return Err(UiError::AllocationFailed);
        }
        Ok(UiCommandBuffer { commands, capacity })
    }

    /// Queues `command` behind the others; a full buffer refuses it with
    /// `CapacityExceeded` and stays as it was.
    pub fn try_push(&mut self, command: T) -> (r: Result<(), UiError>)
        requires
            old(self).wf(),
        ensures
            final(self).wf(),
            final(self).spec_capacity() == old(self).spec_capacity(),
            old(self).spec_commands().len() < old(self).spec_capacity() ==> r is Ok
                && final(self).spec_commands() == old(self).spec_commands().push(command),
            old(self).spec_commands().len() >= old(self).spec_capacity() ==> r == Err::<(), UiError>(
                UiError::CapacityExceeded,
            ) && final(self).spec_commands() == old(self).spec_commands(),
    {
        if self.commands.len() >= self.capacity {
            return Err(UiError::CapacityExceeded);
        }
        self.commands.push(command);
        Ok(())
    }

    pub fn len(&self) -> (r: usize)
        ensures
            r == self.spec_commands().len(),
    {
        self.commands.len()
    }

    pub fn is_empty(&self) -> (r: bool)
        ensures
            r == (self.spec_commands().len() == 0),
    {
        self.commands.len() == 0
    }

    pub fn capacity(&self) -> (r: usize)
        ensures
            r == self.spec_capacity(),
    {
        self.capacity
    }

    /// Hands back every queued command, oldest first, and leaves the buffer
    /// empty with its capacity unchanged.
    pub fn drain_all(&mut self) -> (r: Vec<T>)
        requires
            old(self).wf(),
        ensures
            final(self).wf(),
            r@ == old(self).spec_commands(),
            final(self).spec_commands() == Seq::<T>::empty(),
            final(self).spec_capacity() == old(self).spec_capacity(),
    {
        let mut drained: Vec<T> = Vec::new();
        std::mem::swap(&mut drained, &mut self.commands);
        // Keep the room reserved for the next frame's commands; if it cannot
        // be had, later pushes allocate as they go.
        let _ = self.commands.try_reserve(self.capacity);
        drained
    }
}

} // verus!
