//! Deterministic focus and pointer capture for UI input. Hit testing works
//! on layout rectangles; its result is handed in.
use vstd::prelude::*;

use crate::subsystems::ui::id::UiNodeId;

verus! {

#[derive(Clone, Copy, Debug, PartialEq, Eq, Structural)]
pub enum UiInputEvent {
    PointerMove { x: i32, y: i32 },
    PointerButton { button: u8, pressed: bool, x: i32, y: i32 },
    Key { key: u32, pressed: bool },
    TextByte { byte: u8 },
}

#[derive(Clone, Copy, Debug, Default, PartialEq, Eq, Structural)]
pub struct UiInputResult {
    pub target: Option<UiNodeId>,
    pub focused: Option<UiNodeId>,
    pub consumed: bool,
}

/// The node holding keyboard focus and the node capturing the pointer.
#[derive(Clone, Copy, Debug, Default, PartialEq, Eq, Structural)]
pub struct UiFocusCapture {
    focused: Option<UiNodeId>,
    captured: Option<UiNodeId>,
}

/// `id` is listed in `nodes`.
pub open spec fn listed(nodes: Seq<UiNodeId>, id: UiNodeId) -> bool {
    nodes.contains(id)
}

/// `slot` with a node that is no longer live cleared.
pub open spec fn live_or_none(slot: Option<UiNodeId>, live: Seq<UiNodeId>) -> Option<UiNodeId> {
    match slot {
        Some(id) => if live.contains(id) {
            Some(id)
        } else {
            None
        },
        None => None,
    }
}

/// The node a pointer lands on among `candidates`, the hittable nodes under
/// it in preorder with their z-index: the highest z-index wins, and among
/// equals the one latest in preorder (drawn last, so on top).
pub fn topmost_hit(candidates: &[(UiNodeId, i32)]) -> (r: Option<UiNodeId>)
    ensures
        candidates@.len() == 0 <==> r is None,
        r matches Some(id) ==> exists|k: int|
            0 <= k < candidates@.len() && (#[trigger] candidates@[k]).0 == id && (forall|j: int|
                0 <= j < candidates@.len() ==> (#[trigger] candidates@[j]).1 <= candidates@[k].1) && (forall|
                j: int,
            |
                k < j < candidates@.len() ==> (#[trigger] candidates@[j]).1 < candidates@[k].1),
{
    if candidates.len() == 0 {
        return None;
    }
    let mut best: usize = 0;
    let mut k: usize = 1;
    while k < candidates.len()
        invariant
            1 <= k <= candidates@.len(),
            best < k,
            forall|j: int| 0 <= j < k ==> (#[trigger] candidates@[j]).1 <= candidates@[best as int].1,
            forall|j: int| best < j < k ==> (#[trigger] candidates@[j]).1 < candidates@[best as int].1,
        decreases candidates@.len() - k,
    {
        if candidates[k].1 >= candidates[best].1 {
            best = k;
        }
        k = k + 1;
    }
    Some(candidates[best].0)
}

fn contains_node(nodes: &[UiNodeId], id: UiNodeId) -> (r: bool)
    ensures
        r == nodes@.contains(id),
{
    let mut k: usize = 0;
    while k < nodes.len()
        invariant
            k <= nodes@.len(),
            forall|j: int| 0 <= j < k ==> nodes@[j] != id,
        decreases nodes.len() - k,
    {
        if nodes[k] == id {
            assert(nodes@[k as int] == id);
            return true;
        }
        k = k + 1;
    }
    false
}

impl UiFocusCapture {
    pub closed spec fn spec_focused(&self) -> Option<UiNodeId> {
        self.focused
    }

    pub closed spec fn spec_captured(&self) -> Option<UiNodeId> {
        self.captured
    }

    pub fn new() -> (r: Self)
        ensures
            r.spec_focused() is None,
            r.spec_captured() is None,
    {
        UiFocusCapture { focused: None, captured: None }
    }

    pub fn focused(&self) -> (r: Option<UiNodeId>)
        ensures
            r == self.spec_focused(),
    {
        self.focused
    }

    pub fn captured(&self) -> (r: Option<UiNodeId>)
        ensures
            r == self.spec_captured(),
    {
        self.captured
    }

    /// Drops focus or capture held by a node that is no longer in the tree
    /// (`live` lists the nodes that are).
    pub fn clear_stale(&mut self, live: &[UiNodeId])
        ensures
            final(self).spec_focused() == live_or_none(old(self).spec_focused(), live@),
            final(self).spec_captured() == live_or_none(old(self).spec_captured(), live@),
    {
        if let Some(id) = self.focused {
            if !contains_node(live, id) {
                self.focused = None;
            }
        }
        if let Some(id) = self.captured {
            if !contains_node(live, id) {
                self.captured = None;
            }
        }
    }

    /// The focus and capture after routing `event` (see `route`).
    pub closed spec fn routed(
        self,
        event: UiInputEvent,
        live: Seq<UiNodeId>,
        hit: Option<UiNodeId>,
        focusable: Seq<UiNodeId>,
    ) -> Self {
        let focused0 = live_or_none(self.focused, live);
        let captured0 = live_or_none(self.captured, live);
        let pointer = event is PointerMove || event is PointerButton;
        let target = match captured0 {
            Some(id) => Some(id),
            None => if pointer {
                hit
            } else {
                None
            },
        };
        let pressed = event matches UiInputEvent::PointerButton { pressed, .. } && pressed;
        let released = event matches UiInputEvent::PointerButton { pressed, .. } && !pressed;
        UiFocusCapture {
            captured: if pressed && target is Some {
                target
            } else if released {
                None
            } else {
                captured0
            },
            focused: if pressed && target is Some {
                if focusable.contains(target.unwrap()) {
                    target
                } else {
                    None
                }
            } else {
                focused0
            },
        }
    }

    /// The focus and capture after routing `events` in order.
    pub open spec fn routed_all(
        self,
        events: Seq<UiInputEvent>,
        live: Seq<UiNodeId>,
        hit: Option<UiNodeId>,
        focusable: Seq<UiNodeId>,
    ) -> Self
        decreases events.len(),
    {
        if events.len() == 0 {
            self
        } else {
            self.routed(events[0], live, hit, focusable).routed_all(events.drop_first(), live, hit, focusable)
        }
    }

    /// Routes one event. Stale focus and capture are dropped first. The
    /// target is the capturing node, else, for pointer events, the node
    /// under the pointer (`hit`). A press on a target captures the pointer
    /// and moves focus to the target when it is focusable (else clears
    /// it); any release ends the capture. The event is consumed when it has
    /// a target or some node holds focus.
    pub fn route(
        &mut self,
        event: UiInputEvent,
        live: &[UiNodeId],
        hit: Option<UiNodeId>,
        focusable: &[UiNodeId],
    ) -> (r: UiInputResult)
        ensures
            ({
                let focused0 = live_or_none(old(self).spec_focused(), live@);
                let captured0 = live_or_none(old(self).spec_captured(), live@);
                let pointer = event is PointerMove || event is PointerButton;
                let target = match captured0 {
                    Some(id) => Some(id),
                    None => if pointer {
                        hit
                    } else {
                        None
                    },
                };
                let pressed = event matches UiInputEvent::PointerButton { pressed, .. } && pressed;
                let released = event matches UiInputEvent::PointerButton { pressed, .. } && !pressed;
                &&& r.target == target
                &&& final(self).spec_captured() == if pressed && target is Some {
                    target
                } else if released {
                    None
                } else {
                    captured0
                }
                &&& final(self).spec_focused() == if pressed && target is Some {
                    if focusable@.contains(target.unwrap()) {
                        target
                    } else {
                        None
                    }
                } else {
                    focused0
                }
                &&& r.focused == final(self).spec_focused()
                &&& r.consumed == (target is Some || final(self).spec_focused() is Some)
            }),
            *final(self) == old(self).routed(event, live@, hit, focusable@),
    {
        self.clear_stale(live);
        let pointer = match event {
            UiInputEvent::PointerMove { .. } => true,
            UiInputEvent::PointerButton { .. } => true,
            _ => false,
        };
        let target = match self.captured {
            Some(id) => Some(id),
            None => if pointer {
                hit
            } else {
                None
            },
        };
        match event {
            UiInputEvent::PointerButton { pressed, .. } => {
                if pressed {
                    if let Some(id) = target {
                        self.captured = Some(id);
                        self.focused = if contains_node(focusable, id) {
                            Some(id)
                        } else {
                            None
                        };
                    }
                } else {
                    self.captured = None;
                }
            },
            _ => {},
        }
        UiInputResult {
            target,
            focused: self.focused,
            consumed: target.is_some() || self.focused.is_some(),
        }
    }

    /// Routes every event of one frame in order against the same live
    /// nodes, pointer hit and focusable nodes.
    pub fn route_frame(
        &mut self,
        events: &[UiInputEvent],
        live: &[UiNodeId],
        hit: Option<UiNodeId>,
        focusable: &[UiNodeId],
    )
        ensures
            *final(self) == old(self).routed_all(events@, live@, hit, focusable@),
    {
        let mut i: usize = 0;
        proof {
            assert(events@.skip(0) =~= events@);
        }
        while i < events.len()
            invariant
                i <= events@.len(),
                old(self).routed_all(events@, live@, hit, focusable@) == self.routed_all(
                    events@.skip(i as int),
                    live@,
                    hit,
                    focusable@,
                ),
            decreases events.len() - i,
        {
            let _ = self.route(events[i], live, hit, focusable);
            proof {
                assert(events@.skip(i as int).drop_first() =~= events@.skip(i as int + 1));
                assert(events@.skip(i as int)[0] == events@[i as int]);
            }
            i = i + 1;
        }
        proof {
            assert(events@.skip(i as int) =~= Seq::<UiInputEvent>::empty());
        }
    }
}

} // verus!
