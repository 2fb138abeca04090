//! Deterministic input snapshot and headless event collector.
use std::collections::VecDeque;

use vstd::prelude::*;

use crate::subsystems::messages::InputFrame;
use crate::subsystems::queue::deque_try_reserve;

verus! {

#[derive(Clone, Copy, Debug, PartialEq, Eq)]
pub enum InputEvent {
    Key { key: u32, pressed: bool },
    MouseButton { button: u8, pressed: bool },
    MouseMoved { x: i32, y: i32 },
    TextByte { byte: u8 },
}

#[derive(Clone, Copy, Debug, PartialEq, Eq, Structural)]
pub enum InputError {
    AllocationFailed,
}

/// Number of bytes of text one snapshot can hold.
pub const TEXT_CAPACITY: usize = 64;

/// The observable state of a snapshot: the set of held keys, the held mouse
/// buttons as a bit mask, the pointer position, and the text typed this frame.
pub struct SnapshotModel {
    pub keys: Set<u32>,
    pub mouse_buttons: u16,
    pub mouse_position: (i32, i32),
    pub text: Seq<u8>,
}

/// The state after one event: keys are held or released, buttons below 16
/// set or clear their bit (others are ignored), moves replace the position,
/// and text bytes are kept while fewer than 64 are held.
pub open spec fn spec_apply(m: SnapshotModel, event: InputEvent) -> SnapshotModel {
    match event {
        InputEvent::Key { key, pressed } => SnapshotModel {
            keys: if pressed {
                m.keys.insert(key)
            } else {
                m.keys.remove(key)
            },
            ..m
        },
        InputEvent::MouseButton { button, pressed } => if button < 16 {
            SnapshotModel {
                mouse_buttons: if pressed {
                    m.mouse_buttons | (1u16 << button)
                } else {
                    m.mouse_buttons & !(1u16 << button)
                },
                ..m
            }
        } else {
            m
        },
        InputEvent::MouseMoved { x, y } => SnapshotModel { mouse_position: (x, y), ..m },
        InputEvent::TextByte { byte } => if m.text.len() < TEXT_CAPACITY {
            SnapshotModel { text: m.text.push(byte), ..m }
        } else {
            m
        },
    }
}

/// The state after applying `events` in order.
pub open spec fn spec_apply_all(m: SnapshotModel, events: Seq<InputEvent>) -> SnapshotModel
    decreases events.len(),
{
    if events.len() == 0 {
        m
    } else {
        spec_apply(spec_apply_all(m, events.drop_last()), events.last())
    }
}

/// An event queued behind others takes effect after all of them: applying
/// the queue with `event` pushed last is applying the queue, then `event`.
pub proof fn law_queued_event_applies_last(m: SnapshotModel, queued: Seq<InputEvent>, event: InputEvent)
    ensures
        spec_apply_all(m, queued.push(event)) == spec_apply(spec_apply_all(m, queued), event),
{
    assert(queued.push(event).drop_last() =~= queued);
}

/// Whether `key` is held after `events`, reading only the key events for
/// it: the last one decides, and `held` stands when there is none.
pub open spec fn last_key_state(held: bool, events: Seq<InputEvent>, key: u32) -> bool
    decreases events.len(),
{
    if events.len() == 0 {
        held
    } else {
        match events.last() {
            InputEvent::Key { key: k, pressed } if k == key => pressed,
            _ => last_key_state(held, events.drop_last(), key),
        }
    }
}

/// Whether `button` is held after `events`, reading only the button events
/// for it: the last one decides, and `held` stands when there is none.
pub open spec fn last_button_state(held: bool, events: Seq<InputEvent>, button: u8) -> bool
    decreases events.len(),
{
    if events.len() == 0 {
        held
    } else {
        match events.last() {
            InputEvent::MouseButton { button: b, pressed } if b == button => pressed,
            _ => last_button_state(held, events.drop_last(), button),
        }
    }
}

/// Bit `button` of the button mask.
pub open spec fn button_bit(mask: u16, button: u8) -> bool {
    mask & (1u16 << button) != 0
}

proof fn lemma_button_bits(mask: u16, b: u8, button: u8)
    requires
        b < 16,
        button < 16,
    ensures
        button_bit(mask | (1u16 << b), button) == (b == button || button_bit(mask, button)),
        button_bit(mask & !(1u16 << b), button) == (b != button && button_bit(mask, button)),
{
    assert((mask | (1u16 << b)) & (1u16 << button) != 0 <==> (b == button || mask & (1u16 << button)
        != 0)) by (bit_vector)
        requires
            b < 16,
            button < 16,
    ;
    assert((mask & !(1u16 << b)) & (1u16 << button) != 0 <==> (b != button && mask & (1u16 << button)
        != 0)) by (bit_vector)
        requires
            b < 16,
            button < 16,
    ;
}

/// A key is held after any history of events exactly when the last key
/// event for it was a press (or, with none, when it was held before).
pub proof fn law_key_held_follows_last_key_event(m: SnapshotModel, events: Seq<InputEvent>, key: u32)
    ensures
        spec_apply_all(m, events).keys.contains(key) == last_key_state(m.keys.contains(key), events, key),
    decreases events.len(),
{
    if events.len() > 0 {
        law_key_held_follows_last_key_event(m, events.drop_last(), key);
    }
}

/// A button below 16 is held after any history of events exactly when the
/// last button event for it was a press (or, with none, when it was held
/// before); buttons from 16 up never change the mask.
pub proof fn law_button_held_follows_last_button_event(
    m: SnapshotModel,
    events: Seq<InputEvent>,
    button: u8,
)
    requires
        button < 16,
    ensures
        button_bit(spec_apply_all(m, events).mouse_buttons, button) == last_button_state(
            button_bit(m.mouse_buttons, button),
            events,
            button,
        ),
    decreases events.len(),
{
    if events.len() > 0 {
        law_button_held_follows_last_button_event(m, events.drop_last(), button);
        let prev = spec_apply_all(m, events.drop_last());
        match events.last() {
            InputEvent::MouseButton { button: b, pressed } => {
                if b < 16 {
                    lemma_button_bits(prev.mouse_buttons, b, button);
                }
            },
            _ => {},
        }
    }
}

pub open spec fn strictly_sorted(s: Seq<u32>) -> bool {
    forall|i: int, j: int| 0 <= i < j < s.len() ==> s[i] < s[j]
}

#[derive(Clone, Debug, PartialEq, Eq)]
pub struct InputSnapshot {
    keys: Vec<u32>,
    mouse_buttons: u16,
    mouse_x: i32,
    mouse_y: i32,
    text: [u8; 64],
    text_count: u8,
}

impl View for InputSnapshot {
    type V = SnapshotModel;

    closed spec fn view(&self) -> SnapshotModel {
        SnapshotModel {
            keys: self.keys@.to_set(),
            mouse_buttons: self.mouse_buttons,
            mouse_position: (self.mouse_x, self.mouse_y),
            text: self.text@.take(self.text_count as int),
        }
    }
}

/// Locates `key` in a strictly increasing sequence: `Ok` with its index, or
/// `Err` with the index at which it would be inserted.
fn search_sorted(keys: &Vec<u32>, key: u32) -> (r: Result<usize, usize>)
    requires
        strictly_sorted(keys@),
    ensures
        r matches Ok(i) ==> i < keys@.len() && keys@[i as int] == key,
        r matches Err(i) ==> i <= keys@.len() && (forall|j: int| 0 <= j < i ==> keys@[j] < key)
            && (forall|j: int| i <= j < keys@.len() ==> keys@[j] > key),
{
    let mut lo: usize = 0;
    let mut hi: usize = keys.len();
    while lo < hi
        invariant
            lo <= hi <= keys@.len(),
            strictly_sorted(keys@),
            forall|j: int| 0 <= j < lo ==> keys@[j] < key,
            forall|j: int| hi <= j < keys@.len() ==> keys@[j] > key,
        decreases hi - lo,
    {
        let mid = lo + (hi - lo) / 2;
        if keys[mid] == key {
            return Ok(mid);
        } else if keys[mid] < key {
            lo = mid + 1;
        } else {
            hi = mid;
        }
    }
    Err(lo)
}

proof fn lemma_sorted_insert(s: Seq<u32>, i: int, key: u32)
    requires
        strictly_sorted(s),
        0 <= i <= s.len(),
        forall|j: int| 0 <= j < i ==> s[j] < key,
        forall|j: int| i <= j < s.len() ==> s[j] > key,
    ensures
        strictly_sorted(s.insert(i, key)),
        s.insert(i, key).to_set() == s.to_set().insert(key),
{
    let t = s.insert(i, key);
    assert forall|a: int, b: int| 0 <= a < b < t.len() implies t[a] < t[b] by {
        if b < i {
        } else if b == i {
        } else if a < i {
        } else if a == i {
        } else {
        }
    }
    assert forall|x: u32| t.to_set().contains(x) <==> s.to_set().insert(key).contains(x) by {
        if t.contains(x) {
            let k = choose|k: int| 0 <= k < t.len() && t[k] == x;
            if k < i {
                assert(s[k] == x);
            } else if k > i {
                assert(s[k - 1] == x);
            }
        }
        if s.contains(x) {
            let k = choose|k: int| 0 <= k < s.len() && s[k] == x;
            if k < i {
                assert(t[k] == x);
            } else {
                assert(t[k + 1] == x);
            }
        }
        if x == key {
            assert(t[i] == key);
        }
    }
    assert(t.to_set() =~= s.to_set().insert(key));
}

proof fn lemma_sorted_remove(s: Seq<u32>, i: int)
    requires
        strictly_sorted(s),
        0 <= i < s.len(),
    ensures
        strictly_sorted(s.remove(i)),
        s.remove(i).to_set() == s.to_set().remove(s[i]),
{
    let t = s.remove(i);
    let key = s[i];
    assert forall|a: int, b: int| 0 <= a < b < t.len() implies t[a] < t[b] by {
        if b < i {
        } else if a < i {
            assert(t[b] == s[b + 1]);
        } else {
            assert(t[a] == s[a + 1]);
            assert(t[b] == s[b + 1]);
        }
    }
    assert forall|x: u32| t.to_set().contains(x) <==> s.to_set().remove(key).contains(x) by {
        if t.contains(x) {
            let k = choose|k: int| 0 <= k < t.len() && t[k] == x;
            if k < i {
                assert(s[k] == x);
                assert(s[k] < s[i]);
            } else {
                assert(s[k + 1] == x);
                assert(s[k + 1] > s[i]);
            }
        }
        if s.contains(x) && x != key {
            let k = choose|k: int| 0 <= k < s.len() && s[k] == x;
            if k < i {
                assert(t[k] == x);
            } else {
                assert(k != i);
                assert(t[k - 1] == x);
            }
        }
    }
    assert(t.to_set() =~= s.to_set().remove(key));
}

impl InputSnapshot {
    pub closed spec fn wf(&self) -> bool {
        strictly_sorted(self.keys@) && self.text_count <= 64
    }

    /// The held keys as an increasing sequence.
    pub closed spec fn key_list(&self) -> Seq<u32> {
        self.keys@
    }

    pub proof fn lemma_key_list(&self)
        requires
            self.wf(),
        ensures
            strictly_sorted(self.key_list()),
            self.key_list().to_set() == self@.keys,
    {
    }

    /// A snapshot with no keys, no buttons, the pointer at the origin and no
    /// text.
    pub fn new() -> (r: Self)
        ensures
            r.wf(),
            r@.keys == Set::<u32>::empty(),
            r@.mouse_buttons == 0,
            r@.mouse_position == (0i32, 0i32),
            r@.text == Seq::<u8>::empty(),
    {
        let r = Self {
            keys: Vec::new(),
            mouse_buttons: 0,
            mouse_x: 0,
            mouse_y: 0,
            text: [0; 64],
            text_count: 0,
        };
        proof {
            assert(r@.keys =~= Set::<u32>::empty());
            assert(r@.text =~= Seq::<u8>::empty());
        }
        r
    }

    pub fn key_down(&self, key: u32) -> (r: bool)
        requires
            self.wf(),
        ensures
            r == self@.keys.contains(key),
    {
        match search_sorted(&self.keys, key) {
            Ok(i) => {
                proof {
                    assert(self.keys@.contains(key));
                }
                true
            },
            Err(_) => false,
        }
    }

    pub fn mouse_button_down(&self, button: u8) -> (r: bool)
        ensures
            r == (button < 16 && self@.mouse_buttons & (1u16 << button) != 0),
    {
        button < 16 && self.mouse_buttons & (1u16 << button) != 0
    }

    pub fn mouse_position(&self) -> (r: (i32, i32))
        ensures
            r == self@.mouse_position,
    {
        (self.mouse_x, self.mouse_y)
    }

    /// The held keys in increasing order.
    pub fn keys(&self) -> (r: &[u32])
        requires
            self.wf(),
        ensures
            strictly_sorted(r@),
            r@.to_set() == self@.keys,
            r@ == self.key_list(),
    {
        self.keys.as_slice()
    }

    /// The text bytes received this frame, in arrival order.
    pub fn text(&self) -> (r: &[u8])
        requires
            self.wf(),
        ensures
            r@ == self@.text,
    {
        let count = self.text_count as usize;
        let r = slice_prefix(&self.text, count);
        r
    }

    fn apply(&mut self, event: InputEvent)
        requires
            old(self).wf(),
        ensures
            final(self).wf(),
            final(self)@ == spec_apply(old(self)@, event),
    {
        match event {
            InputEvent::Key { key, pressed } => {
                match search_sorted(&self.keys, key) {
                    Err(index) => {
                        if pressed {
                            proof {
                                lemma_sorted_insert(self.keys@, index as int, key);
                            }
                            self.keys.insert(index, key);
                        } else {
                            proof {
                                assert(!self.keys@.contains(key));
                                assert(self.keys@.to_set().remove(key) =~= self.keys@.to_set());
                            }
                        }
                    },
                    Ok(index) => {
                        if !pressed {
                            proof {
                                lemma_sorted_remove(self.keys@, index as int);
                            }
                            self.keys.remove(index);
                        } else {
                            proof {
                                assert(self.keys@.contains(key));
                                assert(self.keys@.to_set().insert(key) =~= self.keys@.to_set());
                            }
                        }
                    },
                }
            },
            InputEvent::MouseButton { button, pressed } => {
                if button < 16 {
                    let mask = 1u16 << button;
                    if pressed {
                        self.mouse_buttons = self.mouse_buttons | mask;
                    } else {
                        self.mouse_buttons = self.mouse_buttons & !mask;
                    }
                }
            },
            InputEvent::MouseMoved { x, y } => {
                self.mouse_x = x;
                self.mouse_y = y;
            },
            InputEvent::TextByte { byte } => {
                let index = self.text_count as usize;
                if index < 64 {
                    self.text[index] = byte;
                    self.text_count = self.text_count + 1;
                    proof {
                        assert(self@.text =~= old(self)@.text.push(byte));
                    }
                }
            },
        }
    }

    /// Applies one event. Holding a new key may need one more slot; when that
    /// reservation fails the snapshot is unchanged and `AllocationFailed` is
    /// returned.
    pub fn try_apply(&mut self, event: InputEvent) -> (r: Result<(), InputError>)
        requires
            old(self).wf(),
        ensures
            final(self).wf(),
            r is Ok ==> final(self)@ == spec_apply(old(self)@, event),
            r is Err ==> final(self)@ == old(self)@ && (event matches InputEvent::Key {
                pressed,
                ..
            } && pressed),
    {
        if let InputEvent::Key { key: _, pressed: true } = event {
            if self.keys.try_reserve(1).is_err() {
                return Err(InputError::AllocationFailed);
            }
        }
        self.apply(event);
        Ok(())
    }

    fn clear_text(&mut self)
        requires
            old(self).wf(),
        ensures
            final(self).wf(),
            final(self)@ == (SnapshotModel { text: Seq::empty(), ..old(self)@ }),
    {
        self.text_count = 0;
        proof {
            assert(self@.text =~= Seq::<u8>::empty());
        }
    }
}

impl Default for InputSnapshot {
    fn default() -> (r: Self)
        ensures
            r.wf(),
            r@.keys == Set::<u32>::empty(),
            r@.mouse_buttons == 0,
            r@.mouse_position == (0i32, 0i32),
            r@.text == Seq::<u8>::empty(),
    {
        Self::new()
    }
}

fn slice_prefix(bytes: &[u8; 64], count: usize) -> (r: &[u8])
    requires
        count <= 64,
    ensures
        r@ == bytes@.take(count as int),
{
    let s: &[u8] = bytes.as_slice();
    let (head, _) = s.split_at(count);
    assert(head@ =~= bytes@.take(count as int));
    head
}

/// Collects events between fixed steps and applies them at the step
/// boundary.
pub struct HeadlessInput {
    pending: VecDeque<InputEvent>,
    current: InputSnapshot,
}

impl HeadlessInput {
    pub closed spec fn wf(&self) -> bool {
        self.current.wf()
    }

    /// The events queued since the last step, oldest first.
    pub closed spec fn pending(&self) -> Seq<InputEvent> {
        self.pending@
    }

    pub closed spec fn current(&self) -> SnapshotModel {
        self.current@
    }

    pub closed spec fn current_key_list(&self) -> Seq<u32> {
        self.current.key_list()
    }

    pub fn new() -> (r: Self)
        ensures
            r.wf(),
            r.pending() == Seq::<InputEvent>::empty(),
            r.current().keys == Set::<u32>::empty(),
            r.current().mouse_buttons == 0,
            r.current().mouse_position == (0i32, 0i32),
            r.current().text == Seq::<u8>::empty(),
    {
        Self { pending: VecDeque::new(), current: InputSnapshot::new() }
    }

    pub fn push(&mut self, event: InputEvent)
        ensures
            final(self).pending() == old(self).pending().push(event),
            final(self).current() == old(self).current(),
            final(self).wf() == old(self).wf(),
    {
        self.pending.push_back(event);
    }

    pub fn try_push(&mut self, event: InputEvent) -> (r: Result<(), InputError>)
        ensures
            r is Ok ==> final(self).pending() == old(self).pending().push(event),
            r is Err ==> final(self).pending() == old(self).pending(),
            final(self).current() == old(self).current(),
            final(self).wf() == old(self).wf(),
    {
        if deque_try_reserve(&mut self.pending, 1).is_err() {
            return Err(InputError::AllocationFailed);
        }
        self.pending.push_back(event);
        Ok(())
    }

    /// Starts a new frame's text and applies every queued event in arrival
    /// order, leaving the queue empty; returns the resulting snapshot.
    pub fn advance(&mut self) -> (r: &InputSnapshot)
        requires
            old(self).wf(),
        ensures
            final(self).wf(),
            r.wf(),
            final(self).pending() == Seq::<InputEvent>::empty(),
            final(self).current() == spec_apply_all(
                SnapshotModel { text: Seq::empty(), ..old(self).current() },
                old(self).pending(),
            ),
            r@ == final(self).current(),
            r.key_list() == final(self).current_key_list(),
    {
        self.current.clear_text();
        let ghost start = self.current@;
        let ghost all = self.pending@;
        let ghost mut done: Seq<InputEvent> = Seq::empty();
        while self.pending.len() > 0
            invariant
                self.current.wf(),
                all == done + self.pending@,
                self.current@ == spec_apply_all(start, done),
            decreases self.pending@.len(),
        {
            let event = self.pending[0];
            self.current.apply(event);
            self.pending.pop_front();
            proof {
                let prev = done;
                done = done.push(event);
                assert(done.drop_last() =~= prev);
                assert(all =~= done + self.pending@);
            }
        }
        proof {
            assert(done =~= all);
        }
        &self.current
    }

    /// Like `advance`, but a key press that cannot reserve room stops the
    /// step: the events before it stay applied, it and the events after it
    /// stay queued, and `AllocationFailed` is returned.
    pub fn try_advance(&mut self) -> (r: Result<&InputSnapshot, InputError>)
        requires
            old(self).wf(),
        ensures
            final(self).wf(),
            r matches Ok(s) ==> {
                &&& final(self).pending() == Seq::<InputEvent>::empty()
                &&& final(self).current() == spec_apply_all(
                    SnapshotModel { text: Seq::empty(), ..old(self).current() },
                    old(self).pending(),
                )
                &&& s@ == final(self).current()
            },
            r is Err ==> exists|k: int|
                0 <= k < old(self).pending().len() && (#[trigger] old(self).pending()[k] matches InputEvent::Key {
                    pressed,
                    ..
                } && pressed) && final(self).pending() == old(self).pending().skip(k)
                    && final(self).current() == spec_apply_all(
                    SnapshotModel { text: Seq::empty(), ..old(self).current() },
                    old(self).pending().take(k),
                ),
            (forall|k: int|
                0 <= k < old(self).pending().len() ==> !(#[trigger] old(self).pending()[k] matches InputEvent::Key {
                    pressed,
                    ..
                } && pressed)) ==> r is Ok,
    {
        self.current.clear_text();
        let ghost start = self.current@;
        let ghost all = self.pending@;
        let ghost mut done: Seq<InputEvent> = Seq::empty();
        while self.pending.len() > 0
            invariant
                self.current.wf(),
                all == done + self.pending@,
                all == old(self).pending@,
                start == (SnapshotModel { text: Seq::empty(), ..old(self).current@ }),
                self.current@ == spec_apply_all(start, done),
            decreases self.pending@.len(),
        {
            let event = self.pending[0];
            match self.current.try_apply(event) {
                Ok(()) => {},
                Err(e) => {
                    proof {
                        assert(all.take(done.len() as int) =~= done);
                        assert(all.skip(done.len() as int) =~= self.pending@);
                        let k = done.len() as int;
                        assert(0 <= k < old(self).pending().len());
                        assert(old(self).pending()[k] == event);
                        assert(self.pending() == old(self).pending().skip(k));
                        assert(self.current() == spec_apply_all(
                            SnapshotModel { text: Seq::empty(), ..old(self).current() },
                            old(self).pending().take(k),
                        ));
                    }
                    return Err(e);
                },
            }
            self.pending.pop_front();
            proof {
                let prev = done;
                done = done.push(event);
                assert(done.drop_last() =~= prev);
                assert(all =~= done + self.pending@);
            }
        }
        proof {
            assert(done =~= all);
        }
        Ok(&self.current)
    }

    pub fn snapshot(&self) -> (r: &InputSnapshot)
        requires
            self.wf(),
        ensures
            r.wf(),
            r@ == self.current(),
            r.key_list() == self.current_key_list(),
    {
        &self.current
    }
}

impl Default for HeadlessInput {
    fn default() -> (r: Self)
        ensures
            r.wf(),
            r.pending() == Seq::<InputEvent>::empty(),
            r.current().keys == Set::<u32>::empty(),
            r.current().mouse_buttons == 0,
            r.current().mouse_position == (0i32, 0i32),
            r.current().text == Seq::<u8>::empty(),
    {
        Self::new()
    }
}

/// `slots` holds `items` from the front (at most as many as fit) and zero in
/// every remaining slot.
pub open spec fn packed<T>(slots: Seq<T>, items: Seq<T>, zero: T) -> bool {
    forall|j: int|
        0 <= j < slots.len() ==> #[trigger] slots[j] == if j < items.len() {
            items[j]
        } else {
            zero
        }
}

pub open spec fn not_in(s: Seq<u32>) -> spec_fn(u32) -> bool {
    |k: u32| !s.contains(k)
}

pub open spec fn min_usize(a: int, b: int) -> int {
    if a < b {
        a
    } else {
        b
    }
}

proof fn lemma_filter_take_step(s: Seq<u32>, i: int, p: spec_fn(u32) -> bool)
    requires
        0 <= i < s.len(),
    ensures
        s.take(i + 1).filter(p) == (if p(s[i]) {
            s.take(i).filter(p).push(s[i])
        } else {
            s.take(i).filter(p)
        }),
{
    reveal(Seq::filter);
    assert(s.take(i + 1).drop_last() =~= s.take(i));
}

proof fn lemma_accumulate_bit(m: u16, acc: u16, b: u32)
    by (bit_vector)
    requires
        b < 16,
        acc as u32 == (m as u32) & (((1u32 << b) - 1) as u32),
    ensures
        (if m & (1u16 << (b as u16)) != 0 {
            acc | (1u16 << (b as u16))
        } else {
            acc
        }) as u32 == (m as u32) & (((1u32 << (b + 1)) - 1) as u32),
{
}

proof fn lemma_all_bits(m: u16, acc: u16)
    by (bit_vector)
    requires
        acc as u32 == (m as u32) & (((1u32 << 16u32) - 1) as u32),
    ensures
        acc == m,
{
}

fn contains_key(keys: &[u32], key: u32) -> (r: bool)
    ensures
        r == keys@.contains(key),
{
    let mut i: usize = 0;
    while i < keys.len()
        invariant
            i <= keys@.len(),
            forall|j: int| 0 <= j < i ==> keys@[j] != key,
        decreases keys.len() - i,
    {
        if keys[i] == key {
            return true;
        }
        i = i + 1;
    }
    false
}

/// Copies into 32 slots, in order, the elements of `source` that `exclude`
/// does not contain, stopping when the slots are full.
fn pack_missing(source: &[u32], exclude: &[u32]) -> (r: ([u32; 32], usize))
    ensures
        r.1 == min_usize(source@.filter(not_in(exclude@)).len() as int, 32),
        packed(r.0@, source@.filter(not_in(exclude@)).take(r.1 as int), 0u32),
{
    let mut out = [0u32; 32];
    let mut count: usize = 0;
    let mut i: usize = 0;
    let ghost p = not_in(exclude@);
    while i < source.len()
        invariant
            i <= source@.len(),
            p == not_in(exclude@),
            count == min_usize(source@.take(i as int).filter(p).len() as int, 32),
            packed(out@, source@.take(i as int).filter(p).take(count as int), 0u32),
        decreases source.len() - i,
    {
        proof {
            lemma_filter_take_step(source@, i as int, p);
        }
        let key = source[i];
        if !contains_key(exclude, key) && count < 32 {
            out[count] = key;
            count = count + 1;
            proof {
                let f = source@.take(i as int + 1).filter(p);
                assert forall|j: int| 0 <= j < out@.len() implies #[trigger] out@[j] == (if j
                    < f.take(count as int).len() {
                    f.take(count as int)[j]
                } else {
                    0u32
                }) by {
                    if j < count - 1 {
                        assert(source@.take(i as int).filter(p).take(count - 1)[j] == f.take(
                            count as int,
                        )[j]);
                    }
                }
            }
        } else {
            proof {
                let f0 = source@.take(i as int).filter(p);
                let f = source@.take(i as int + 1).filter(p);
                assert(f0.take(count as int) =~= f.take(count as int));
            }
        }
        i = i + 1;
    }
    proof {
        assert(source@.take(source@.len() as int) =~= source@);
    }
    (out, count)
}

/// The events of `events` whose flag in `keep` is set, in their order.
pub open spec fn kept_events(events: Seq<InputEvent>, keep: Seq<bool>) -> Seq<InputEvent>
    decreases events.len(),
{
    if events.len() == 0 {
        Seq::empty()
    } else {
        let rest = kept_events(events.drop_last(), keep.drop_last());
        if keep.last() {
            rest.push(events.last())
        } else {
            rest
        }
    }
}

/// Publishes one frame of input per fixed step and remembers the previous
/// step's buttons and keys to report edges.
pub struct InputSubsystem {
    input: HeadlessInput,
    previous_mouse_buttons: u16,
    previous_keys: Vec<u32>,
}

impl InputSubsystem {
    pub closed spec fn wf(&self) -> bool {
        self.input.wf()
    }

    pub closed spec fn spec_input(&self) -> HeadlessInput {
        self.input
    }

    pub closed spec fn previous_mouse_buttons(&self) -> u16 {
        self.previous_mouse_buttons
    }

    pub closed spec fn previous_keys(&self) -> Seq<u32> {
        self.previous_keys@
    }

    pub fn new() -> (r: Self)
        ensures
            r.wf(),
            r.spec_input().pending() == Seq::<InputEvent>::empty(),
            r.spec_input().current().keys == Set::<u32>::empty(),
            r.spec_input().current().mouse_buttons == 0,
            r.spec_input().current().mouse_position == (0i32, 0i32),
            r.spec_input().current().text == Seq::<u8>::empty(),
            r.previous_mouse_buttons() == 0,
            r.previous_keys() == Seq::<u32>::empty(),
    {
        Self {
            input: HeadlessInput::new(),
            previous_mouse_buttons: 0,
            previous_keys: Vec::with_capacity(32),
        }
    }

    pub fn input(&self) -> (r: &HeadlessInput)
        ensures
            *r == self.spec_input(),
    {
        &self.input
    }

    pub fn input_mut(&mut self) -> (r: &mut HeadlessInput)
        ensures
            *r == old(self).spec_input(),
            final(self).spec_input() == *final(r),
            final(self).previous_mouse_buttons() == old(self).previous_mouse_buttons(),
            final(self).previous_keys() == old(self).previous_keys(),
    {
        &mut self.input
    }

    /// One fixed step: queues the events delivered this step (dropping any
    /// that cannot be queued), applies the queue, and reports the snapshot
    /// together with the buttons and keys pressed or released since the
    /// previous step. At most 32 keys of each list are reported.
    pub fn tick(&mut self, events: &[InputEvent]) -> (frame: InputFrame)
        requires
            old(self).wf(),
        ensures
            final(self).wf(),
            final(self).spec_input().pending() == Seq::<InputEvent>::empty(),
            exists|keep: Seq<bool>|
                keep.len() == events@.len() && final(self).spec_input().current() == spec_apply_all(
                    SnapshotModel { text: Seq::empty(), ..old(self).spec_input().current() },
                    old(self).spec_input().pending() + #[trigger] kept_events(events@, keep),
                ),
            ({
                let snap = final(self).spec_input().current();
                let keys = final(self).spec_input().current_key_list();
                let prev_keys = old(self).previous_keys();
                let prev_buttons = old(self).previous_mouse_buttons();
                let pressed = keys.filter(not_in(prev_keys));
                let released = prev_keys.filter(not_in(keys));
                &&& frame.mouse_x == snap.mouse_position.0
                &&& frame.mouse_y == snap.mouse_position.1
                &&& frame.mouse_buttons == snap.mouse_buttons
                &&& frame.pressed_buttons == snap.mouse_buttons & !prev_buttons
                &&& frame.released_buttons == prev_buttons & !snap.mouse_buttons
                &&& frame.key_count == min_usize(keys.len() as int, 32)
                &&& packed(frame.keys@, keys.take(frame.key_count as int), 0u32)
                &&& frame.pressed_key_count == min_usize(pressed.len() as int, 32)
                &&& packed(frame.pressed_keys@, pressed.take(frame.pressed_key_count as int), 0u32)
                &&& frame.released_key_count == min_usize(released.len() as int, 32)
                &&& packed(
                    frame.released_keys@,
                    released.take(frame.released_key_count as int),
                    0u32,
                )
                &&& frame.text_count == snap.text.len()
                &&& packed(frame.text@, snap.text, 0u8)
                &&& final(self).previous_mouse_buttons() == snap.mouse_buttons
                &&& final(self).previous_keys() == keys
            }),
    {
        let ghost pending0 = self.input.pending@;
        let ghost mut queued: Seq<InputEvent> = Seq::empty();
        let ghost mut keep: Seq<bool> = Seq::empty();
        let mut e: usize = 0;
        while e < events.len()
            invariant
                e <= events@.len(),
                self.input.wf(),
                self.input.current@ == old(self).input.current@,
                self.input.pending@ == pending0 + queued,
                pending0 == old(self).input.pending@,
                keep.len() == e,
                queued == kept_events(events@.take(e as int), keep),
                self.previous_keys@ == old(self).previous_keys@,
                self.previous_mouse_buttons == old(self).previous_mouse_buttons,
            decreases events.len() - e,
        {
            let pushed = self.input.try_push(events[e]);
            proof {
                let before = queued;
                let old_keep = keep;
                assert(before == kept_events(events@.take(e as int), old_keep));
                if pushed is Ok {
                    queued = queued.push(events@[e as int]);
                    assert(self.input.pending@ =~= pending0 + queued);
                }
                let t = events@.take(e as int + 1);
                assert(t.drop_last() =~= events@.take(e as int));
                assert(t.last() == events@[e as int]);
                keep = keep.push(pushed is Ok);
                assert(keep.drop_last() =~= old_keep);
                assert(keep.last() == (pushed is Ok));
                assert(kept_events(t, keep) =~= queued);
            }
            e = e + 1;
        }
        proof {
            assert(events@.take(events@.len() as int) =~= events@);
        }
        let _ = self.input.advance();
        let snapshot = self.input.snapshot();
        proof {
            snapshot.lemma_key_list();
        }
        let (mouse_x, mouse_y) = snapshot.mouse_position();
        let mut buttons: u16 = 0;
        let mut button: u8 = 0;
        let ghost m = snapshot@.mouse_buttons;
        assert((m as u32) & (((1u32 << 0u32) - 1) as u32) == 0) by (bit_vector);
        while button < 16
            invariant
                button <= 16,
                m == snapshot@.mouse_buttons,
                buttons as u32 == (m as u32) & (((1u32 << (button as u32)) - 1) as u32),
            decreases 16 - button,
        {
            proof {
                lemma_accumulate_bit(m, buttons, button as u32);
            }
            if snapshot.mouse_button_down(button) {
                buttons = buttons | (1u16 << button);
            }
            button = button + 1;
        }
        proof {
            lemma_all_bits(m, buttons);
        }
        let pressed_buttons = buttons & !self.previous_mouse_buttons;
        let released_buttons = self.previous_mouse_buttons & !buttons;
        let current_keys = snapshot.keys();
        let mut keys = [0u32; 32];
        let key_count = if current_keys.len() < 32 {
            current_keys.len()
        } else {
            32
        };
        let mut k: usize = 0;
        while k < key_count
            invariant
                k <= key_count <= 32,
                key_count <= current_keys@.len(),
                forall|j: int| 0 <= j < k ==> keys@[j] == current_keys@[j],
                forall|j: int| k <= j < 32 ==> keys@[j] == 0,
            decreases key_count - k,
        {
            keys[k] = current_keys[k];
            k = k + 1;
        }
        let (pressed_keys, pressed_key_count) = pack_missing(current_keys, self.previous_keys.as_slice());
        let (released_keys, released_key_count) = pack_missing(self.previous_keys.as_slice(), current_keys);
        let text_bytes = snapshot.text();
        let mut text = [0u8; 64];
        let mut t: usize = 0;
        while t < text_bytes.len()
            invariant
                t <= text_bytes@.len() <= 64,
                forall|j: int| 0 <= j < t ==> text@[j] == text_bytes@[j],
                forall|j: int| t <= j < 64 ==> text@[j] == 0,
            decreases text_bytes.len() - t,
        {
            text[t] = text_bytes[t];
            t = t + 1;
        }
        let text_count = text_bytes.len() as u8;
        let mut new_previous: Vec<u32> = Vec::new();
        let mut c: usize = 0;
        while c < current_keys.len()
            invariant
                c <= current_keys@.len(),
                new_previous@ == current_keys@.take(c as int),
            decreases current_keys.len() - c,
        {
            new_previous.push(current_keys[c]);
            c = c + 1;
            proof {
                assert(new_previous@ =~= current_keys@.take(c as int));
            }
        }
        proof {
            assert(new_previous@ =~= current_keys@);
        }
        self.previous_mouse_buttons = buttons;
        self.previous_keys = new_previous;
        let frame = InputFrame {
            mouse_x,
            mouse_y,
            mouse_buttons: buttons,
            pressed_buttons,
            released_buttons,
            key_count: key_count as u8,
            keys,
            pressed_key_count: pressed_key_count as u8,
            pressed_keys,
            released_key_count: released_key_count as u8,
            released_keys,
            text_count,
            text,
        };
        proof {
            let snap = self.input.current();
            let kl = self.input.current_key_list();
            assert(packed(frame.keys@, kl.take(frame.key_count as int), 0u32));
            assert(packed(frame.text@, snap.text, 0u8));
            assert(self.input.current() == spec_apply_all(
                SnapshotModel { text: Seq::empty(), ..old(self).spec_input().current() },
                old(self).spec_input().pending() + queued,
            ));
        }
        frame
    }
}

impl Default for InputSubsystem {
    fn default() -> (r: Self)
        ensures
            r.wf(),
            r.spec_input().pending() == Seq::<InputEvent>::empty(),
            r.spec_input().current().keys == Set::<u32>::empty(),
            r.spec_input().current().mouse_buttons == 0,
            r.spec_input().current().mouse_position == (0i32, 0i32),
            r.spec_input().current().text == Seq::<u8>::empty(),
            r.previous_mouse_buttons() == 0,
            r.previous_keys() == Seq::<u32>::empty(),
    {
        Self::new()
    }
}

} // verus!
