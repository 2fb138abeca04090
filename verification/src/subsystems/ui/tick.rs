//! What the UI subsystem does with each frame's messages before layout:
//! input frames become a fixed sequence of UI input events, asset
//! notifications update the resource table, and command messages are queued.
//! Every refused message is counted in the diagnostics.
use vstd::prelude::*;

use crate::subsystems::messages::{InputFrame, UiAssetReady};
use crate::subsystems::ui::budget::{UiDiagnostics, UiError};
use crate::subsystems::ui::commands::UiCommandBuffer;
use crate::subsystems::ui::id::{FontId, TextureId};
use crate::subsystems::ui::input::UiInputEvent;
use crate::subsystems::ui::paint::UiUploadPlan;
use crate::subsystems::ui::resources::{restated, UiAssetState, UiResourceTable};
use crate::subsystems::ui::UiFrameReady;

verus! {

/// Mouse buttons an input frame reports, as bits 0 to 15.
pub const UI_MOUSE_BUTTONS: u8 = 16;

/// The asset state an asset notification encodes: 0 missing, 1 loading,
/// 2 ready, 3 failed; any other code names none.
pub open spec fn spec_asset_state(code: u8) -> Option<UiAssetState> {
    if code == 0 {
        Some(UiAssetState::Missing)
    } else if code == 1 {
        Some(UiAssetState::Loading)
    } else if code == 2 {
        Some(UiAssetState::Ready)
    } else if code == 3 {
        Some(UiAssetState::Failed)
    } else {
        None
    }
}

pub fn asset_state(code: u8) -> (r: Option<UiAssetState>)
    ensures
        r == spec_asset_state(code),
{
    match code {
        0 => Some(UiAssetState::Missing),
        1 => Some(UiAssetState::Loading),
        2 => Some(UiAssetState::Ready),
        3 => Some(UiAssetState::Failed),
        _ => None,
    }
}

/// `d` with one more error counted.
pub open spec fn with_error(d: UiDiagnostics) -> UiDiagnostics {
    UiDiagnostics {
        overflow_fallbacks: if d.overflow_fallbacks == usize::MAX {
            usize::MAX
        } else {
            (d.overflow_fallbacks + 1) as usize
        },
        ..d
    }
}

/// Bit `b` of `mask` is set.
pub open spec fn bit_set(mask: u16, b: u16) -> bool {
    (mask >> b) & 1u16 == 1u16
}

/// The button events of buttons `b` and up: for each button in order, a
/// press when it went down this frame, then a release when it went up.
pub open spec fn button_events(pressed: u16, released: u16, x: i32, y: i32, b: u16) -> Seq<UiInputEvent>
    decreases 16 - b,
{
    if b >= 16 {
        Seq::empty()
    } else {
        let down = if bit_set(pressed, b) {
            seq![UiInputEvent::PointerButton { button: b as u8, pressed: true, x, y }]
        } else {
            Seq::empty()
        };
        let up = if bit_set(released, b) {
            seq![UiInputEvent::PointerButton { button: b as u8, pressed: false, x, y }]
        } else {
            Seq::empty()
        };
        down + up + button_events(pressed, released, x, y, (b + 1) as u16)
    }
}

/// One key event for each of the first `count` keys (at most all of them).
pub open spec fn key_events(keys: Seq<u32>, count: u8, pressed: bool) -> Seq<UiInputEvent> {
    let n = if count as int <= keys.len() {
        count as int
    } else {
        keys.len() as int
    };
    Seq::new(n as nat, |i: int| UiInputEvent::Key { key: keys[i], pressed })
}

/// One text event for each of the first `count` bytes (at most all of them).
pub open spec fn text_events(text: Seq<u8>, count: u8) -> Seq<UiInputEvent> {
    let n = if count as int <= text.len() {
        count as int
    } else {
        text.len() as int
    };
    Seq::new(n as nat, |i: int| UiInputEvent::TextByte { byte: text[i] })
}

/// The UI events of one input frame whose pointer, in UI units, is at
/// (`x`, `y`): a pointer move, the button presses and releases, the key
/// presses, the key releases, then the text bytes.
pub open spec fn spec_frame_events(input: InputFrame, x: i32, y: i32) -> Seq<UiInputEvent> {
    seq![UiInputEvent::PointerMove { x, y }] + button_events(
        input.pressed_buttons,
        input.released_buttons,
        x,
        y,
        0,
    ) + key_events(input.pressed_keys@, input.pressed_key_count, true) + key_events(
        input.released_keys@,
        input.released_key_count,
        false,
    ) + text_events(input.text@, input.text_count)
}

/// Appends the key events of the first `count` keys to `out`.
fn push_key_events(out: &mut Vec<UiInputEvent>, keys: &[u32; 32], count: u8, pressed: bool)
    ensures
        final(out)@ == old(out)@ + key_events(keys@, count, pressed),
{
    let n: usize = if (count as usize) < 32 {
        count as usize
    } else {
        32
    };
    let ghost start = out@;
    let mut i: usize = 0;
    while i < n
        invariant
            n <= 32,
            keys@.len() == 32,
            n == (if count as int <= 32 {
                count as int
            } else {
                32int
            }),
            i <= n,
            out@ == start + key_events(keys@, count, pressed).take(i as int),
        decreases n - i,
    {
        out.push(UiInputEvent::Key { key: keys[i], pressed });
        proof {
            assert(key_events(keys@, count, pressed).take(i as int + 1) =~= key_events(
                keys@,
                count,
                pressed,
            ).take(i as int).push(UiInputEvent::Key { key: keys@[i as int], pressed }));
        }
        i = i + 1;
    }
    proof {
        assert(key_events(keys@, count, pressed).take(n as int) =~= key_events(keys@, count, pressed));
    }
}

/// The UI events of one input frame whose pointer, in UI units, is at
/// (`x`, `y`), in the order they are routed.
pub fn frame_events(input: &InputFrame, x: i32, y: i32) -> (r: Vec<UiInputEvent>)
    ensures
        r@ == spec_frame_events(*input, x, y),
{
    let mut out: Vec<UiInputEvent> = Vec::new();
    out.push(UiInputEvent::PointerMove { x, y });
    let ghost head = out@;
    let mut b: u16 = 0;
    while b < 16
        invariant
            b <= 16,
            head + button_events(input.pressed_buttons, input.released_buttons, x, y, 0) == out@
                + button_events(input.pressed_buttons, input.released_buttons, x, y, b),
        decreases 16 - b,
    {
        let ghost before = out@;
        if (input.pressed_buttons >> b) & 1u16 == 1u16 {
            out.push(UiInputEvent::PointerButton { button: b as u8, pressed: true, x, y });
        }
        if (input.released_buttons >> b) & 1u16 == 1u16 {
            out.push(UiInputEvent::PointerButton { button: b as u8, pressed: false, x, y });
        }
        proof {
            let rest = button_events(input.pressed_buttons, input.released_buttons, x, y, (b + 1) as u16);
            let down = if bit_set(input.pressed_buttons, b) {
                seq![UiInputEvent::PointerButton { button: b as u8, pressed: true, x, y }]
            } else {
                Seq::empty()
            };
            let up = if bit_set(input.released_buttons, b) {
                seq![UiInputEvent::PointerButton { button: b as u8, pressed: false, x, y }]
            } else {
                Seq::empty()
            };
            assert(out@ =~= before + down + up);
            assert(before + (down + up + rest) =~= out@ + rest);
        }
        b = b + 1;
    }
    proof {
        assert(button_events(input.pressed_buttons, input.released_buttons, x, y, 16) =~= Seq::<
            UiInputEvent,
        >::empty());
        assert(out@ =~= head + button_events(input.pressed_buttons, input.released_buttons, x, y, 0));
    }
    push_key_events(&mut out, &input.pressed_keys, input.pressed_key_count, true);
    push_key_events(&mut out, &input.released_keys, input.released_key_count, false);
    let n: usize = if (input.text_count as usize) < 64 {
        input.text_count as usize
    } else {
        64
    };
    let ghost mid = out@;
    let mut i: usize = 0;
    while i < n
        invariant
            n <= 64,
            input.text@.len() == 64,
            n == (if input.text_count as int <= 64 {
                input.text_count as int
            } else {
                64int
            }),
            i <= n,
            out@ == mid + text_events(input.text@, input.text_count).take(i as int),
        decreases n - i,
    {
        out.push(UiInputEvent::TextByte { byte: input.text[i] });
        proof {
            assert(text_events(input.text@, input.text_count).take(i as int + 1) =~= text_events(
                input.text@,
                input.text_count,
            ).take(i as int).push(UiInputEvent::TextByte { byte: input.text@[i as int] }));
        }
        i = i + 1;
    }
    proof {
        assert(text_events(input.text@, input.text_count).take(n as int) =~= text_events(
            input.text@,
            input.text_count,
        ));
        assert(out@ =~= spec_frame_events(*input, x, y));
    }
    out
}

/// Applies one asset notification: `kind` 0 moves texture (`index`,
/// `generation`) and `kind` 1 moves that font to the encoded state, as
/// `set_texture_state` and `set_font_state` do. An unknown state code or
/// kind is `InvalidValue` and changes no resource. Every failure is
/// counted once in `diagnostics`.
pub fn apply_asset_ready(
    resources: &mut UiResourceTable,
    diagnostics: &mut UiDiagnostics,
    asset: UiAssetReady,
) -> (r: Result<(), UiError>)
    requires
        old(resources).wf(),
    ensures
        final(resources).wf(),
        final(resources).capacity() == old(resources).capacity(),
        *final(diagnostics) == if r is Ok {
            *old(diagnostics)
        } else {
            with_error(*old(diagnostics))
        },
        ({
            let texture = TextureId::spec_new(asset.index, asset.generation);
            let font = FontId::spec_new(asset.index, asset.generation);
            let st = spec_asset_state(asset.state);
            st is Some && asset.kind == 0 ==> {
                &&& forall|f: FontId| final(resources).font_of(f) == old(resources).font_of(f)
                &&& forall|t: TextureId|
                    t != texture ==> final(resources).texture_of(t) == old(resources).texture_of(t)
                &&& match old(resources).texture_of(texture) {
                    Some(rec) => {
                        &&& final(resources).texture_of(texture) == Some(restated(rec, st.unwrap()))
                        &&& if rec.generation == u32::MAX {
                            r == Err::<(), UiError>(UiError::IndexOverflow)
                        } else {
                            r is Ok
                        }
                    },
                    None => r == Err::<(), UiError>(UiError::ResourceUnavailable)
                        && final(resources).texture_of(texture) is None,
                }
            }
        }),
        ({
            let font = FontId::spec_new(asset.index, asset.generation);
            let st = spec_asset_state(asset.state);
            st is Some && asset.kind == 1 ==> {
                &&& forall|t: TextureId| final(resources).texture_of(t) == old(resources).texture_of(t)
                &&& forall|f: FontId| f != font ==> final(resources).font_of(f) == old(resources).font_of(f)
                &&& match old(resources).font_of(font) {
                    Some(rec) => {
                        &&& final(resources).font_of(font) == Some(restated(rec, st.unwrap()))
                        &&& if rec.generation == u32::MAX {
                            r == Err::<(), UiError>(UiError::IndexOverflow)
                        } else {
                            r is Ok
                        }
                    },
                    None => r == Err::<(), UiError>(UiError::ResourceUnavailable)
                        && final(resources).font_of(font) is None,
                }
            }
        }),
        ({
            let st = spec_asset_state(asset.state);
            !(st is Some && (asset.kind == 0 || asset.kind == 1)) ==> {
                &&& r == Err::<(), UiError>(UiError::InvalidValue)
                &&& forall|t: TextureId| final(resources).texture_of(t) == old(resources).texture_of(t)
                &&& forall|f: FontId| final(resources).font_of(f) == old(resources).font_of(f)
            }
        }),
{
    let result = match asset_state(asset.state) {
        Some(state) => {
            if asset.kind == 0 {
                resources.set_texture_state(TextureId::new(asset.index, asset.generation), state)
            } else if asset.kind == 1 {
                resources.set_font_state(FontId::new(asset.index, asset.generation), state)
            } else {
                Err(UiError::InvalidValue)
            }
        },
        None => Err(UiError::InvalidValue),
    };
    if result.is_err() {
        diagnostics.record_error();
    }
    result
}

/// Queues a command message; a full buffer drops it and counts the error.
pub fn queue_command<T>(commands: &mut UiCommandBuffer<T>, diagnostics: &mut UiDiagnostics, command: T) -> (r:
    Result<(), UiError>)
    requires
        old(commands).wf(),
    ensures
        final(commands).wf(),
        final(commands).spec_capacity() == old(commands).spec_capacity(),
        old(commands).spec_commands().len() < old(commands).spec_capacity() ==> r is Ok
            && final(commands).spec_commands() == old(commands).spec_commands().push(command)
            && *final(diagnostics) == *old(diagnostics),
        old(commands).spec_commands().len() >= old(commands).spec_capacity() ==> r == Err::<(), UiError>(
            UiError::CapacityExceeded,
        ) && final(commands).spec_commands() == old(commands).spec_commands() && *final(diagnostics)
            == with_error(*old(diagnostics)),
{
    let result = commands.try_push(command);
    if result.is_err() {
        diagnostics.record_error();
    }
    result
}

/// The frame report for a tree of `nodes` nodes after painting: the paint
/// plan's counts when painting succeeded, else only the node count; a
/// failed paint also counts one error in `diagnostics`.
pub fn frame_ready(nodes: usize, painted: Result<UiUploadPlan, UiError>, diagnostics: &mut UiDiagnostics) -> (r:
    UiFrameReady)
    ensures
        painted matches Ok(plan) ==> r == (UiFrameReady {
            nodes,
            paint_items: plan.item_count as usize,
            batches: plan.batch_count as usize,
            glyphs: plan.glyph_count as usize,
            uploaded_bytes: plan.upload_bytes,
        }) && *final(diagnostics) == *old(diagnostics),
        painted is Err ==> r == (UiFrameReady {
            nodes,
            paint_items: 0,
            batches: 0,
            glyphs: 0,
            uploaded_bytes: 0,
        }) && *final(diagnostics) == with_error(*old(diagnostics)),
{
    match painted {
        Ok(plan) => UiFrameReady {
            nodes,
            paint_items: plan.item_count as usize,
            batches: plan.batch_count as usize,
            glyphs: plan.glyph_count as usize,
            uploaded_bytes: plan.upload_bytes,
        },
        Err(_) => {
            diagnostics.record_error();
            UiFrameReady { nodes, paint_items: 0, batches: 0, glyphs: 0, uploaded_bytes: 0 }
        },
    }
}

} // verus!
