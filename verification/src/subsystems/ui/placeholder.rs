//! What a visible node paints as, with placeholders standing in for fonts
//! and textures that are not ready yet.
use vstd::prelude::*;

use crate::subsystems::ui::components::UiNodeKind;
use crate::subsystems::ui::id::{FontId, TextureId, UiNodeId};
use crate::subsystems::ui::paint::PaintClass;
use crate::subsystems::ui::resources::{UiAssetState, UiResourceTable};

verus! {

/// The font a text node is drawn with when it names none.
pub open spec fn spec_fallback_font() -> FontId {
    FontId::spec_new(0, 1)
}

/// The paint class of a visible node and whether a placeholder stands in
/// for it: panels by their style (a gradient, else rounded corners, else a
/// plain rectangle); text as a glyph run in its font (the fallback font when
/// it names none), or a placeholder rectangle while a named font is not
/// ready in `resources`; an image as its texture when it has one that is
/// ready (any texture counts when there is no resource table), else a
/// placeholder rectangle; custom content by its node's index.
pub open spec fn spec_paint_class(
    node: UiNodeId,
    kind: UiNodeKind,
    gradient: bool,
    rounded: bool,
    font: Option<FontId>,
    image: Option<TextureId>,
    resources: Option<UiResourceTable>,
) -> (PaintClass, bool) {
    match kind {
        UiNodeKind::Root | UiNodeKind::Panel => (
            if gradient {
                PaintClass::Gradient
            } else if rounded {
                PaintClass::RoundedRect
            } else {
                PaintClass::Rect
            },
            false,
        ),
        UiNodeKind::Text => {
            let unavailable = match (resources, font) {
                (Some(table), Some(f)) => !(table.font_of(f) matches Some(rec) && rec.state
                    == UiAssetState::Ready),
                _ => false,
            };
            if unavailable {
                (PaintClass::Rect, true)
            } else {
                (
                    PaintClass::GlyphRun {
                        font: match font {
                            Some(f) => f,
                            None => spec_fallback_font(),
                        },
                    },
                    false,
                )
            }
        },
        UiNodeKind::Image => {
            let ready = match image {
                Some(t) => match resources {
                    Some(table) => table.texture_of(t) matches Some(rec) && rec.state == UiAssetState::Ready,
                    None => true,
                },
                None => false,
            };
            if ready {
                (PaintClass::Image { texture: image.unwrap() }, false)
            } else {
                (PaintClass::Rect, true)
            }
        },
        UiNodeKind::Custom => (PaintClass::Custom { token: node.spec_index() }, false),
    }
}

/// What a visible node paints as, and whether a placeholder stands in for a
/// font or texture that is not ready (see `spec_paint_class`).
pub fn paint_class(
    node: UiNodeId,
    kind: UiNodeKind,
    gradient: bool,
    rounded: bool,
    font: Option<FontId>,
    image: Option<TextureId>,
    resources: Option<&UiResourceTable>,
) -> (r: (PaintClass, bool))
    requires
        resources matches Some(table) ==> table.wf(),
    ensures
        r == spec_paint_class(
            node,
            kind,
            gradient,
            rounded,
            font,
            image,
            match resources {
                Some(t) => Some(*t),
                None => None,
            },
        ),
{
    match kind {
        UiNodeKind::Root | UiNodeKind::Panel => {
            let class = if gradient {
                PaintClass::Gradient
            } else if rounded {
                PaintClass::RoundedRect
            } else {
                PaintClass::Rect
            };
            (class, false)
        },
        UiNodeKind::Text => {
            let unavailable = match (resources, font) {
                (Some(table), Some(f)) => !table.font_ready(f),
                _ => false,
            };
            if unavailable {
                (PaintClass::Rect, true)
            } else {
                let f = match font {
                    Some(f) => f,
                    None => FontId::new(0, 1),
                };
                (PaintClass::GlyphRun { font: f }, false)
            }
        },
        UiNodeKind::Image => {
            let ready = match image {
                Some(t) => match resources {
                    Some(table) => table.texture_ready(t),
                    None => true,
                },
                None => false,
            };
            match image {
                Some(t) => {
                    if ready {
                        (PaintClass::Image { texture: t }, false)
                    } else {
                        (PaintClass::Rect, true)
                    }
                },
                None => (PaintClass::Rect, true),
            }
        },
        UiNodeKind::Custom => (PaintClass::Custom { token: node.index() }, false),
    }
}


} // verus!
