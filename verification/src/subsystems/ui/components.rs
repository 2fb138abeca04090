//! The float-free vocabulary of UI components: layout and kind enums,
//! bounded text, images, interaction and accessibility metadata.
use vstd::prelude::*;

use crate::subsystems::ui::budget::UiError;
use crate::subsystems::ui::id::TextureId;

verus! {

#[derive(Clone, Copy, Debug, Default, PartialEq, Eq, Structural)]
pub enum UiDirection {
    Row,
    #[default]
    Column,
}

#[derive(Clone, Copy, Debug, Default, PartialEq, Eq, Structural)]
pub enum UiAlign {
    #[default]
    Start,
    Center,
    End,
    Stretch,
}

#[derive(Clone, Copy, Debug, Default, PartialEq, Eq, Structural)]
pub enum UiOverflow {
    #[default]
    Visible,
    Clip,
    Scroll,
}

#[derive(Clone, Copy, Debug, PartialEq, Eq, Structural)]
pub enum UiNodeKind {
    Root,
    Panel,
    Text,
    Image,
    Custom,
}

/// Stable semantic role for accessibility adapters.
#[derive(Clone, Copy, Debug, Default, PartialEq, Eq, Structural)]
pub enum UiAccessibilityRole {
    #[default]
    Unspecified,
    Button,
    Label,
    Image,
    TextField,
    Window,
    List,
    ListItem,
}

/// `String::try_reserve_exact`: reserves room for `additional` more bytes;
/// the contents are unchanged either way, and `false` means the allocation
/// failed.
#[verifier::external_body]
fn string_try_reserve_exact(s: &mut String, additional: usize) -> (r: bool)
    ensures
        final(s)@ == old(s)@,
{
    s.try_reserve_exact(additional).is_ok()
}

/// `String::push_str`: appends `tail`.
#[verifier::external_body]
fn string_push_str(s: &mut String, tail: &str)
    ensures
        final(s)@ == old(s)@ + tail@,
{
    s.push_str(tail)
}

/// Owned UI text whose UTF-8 length was checked against a byte budget.
#[derive(Clone, Debug, PartialEq, Eq)]
pub struct UiText {
    value: String,
}

impl View for UiText {
    type V = Seq<char>;

    closed spec fn view(&self) -> Seq<char> {
        self.value@
    }
}

impl UiText {
    /// Copies `value` if its UTF-8 encoding fits in `max_bytes`.
    pub fn try_new(value: &str, max_bytes: usize) -> (r: Result<Self, UiError>)
        ensures
            value.len() > max_bytes ==> r == Err::<Self, UiError>(UiError::CapacityExceeded),
            r matches Ok(t) ==> t@ == value@ && value.len() <= max_bytes,
            r == Err::<Self, UiError>(UiError::CapacityExceeded) <==> value.len() > max_bytes,
            r matches Err(e) ==> e == UiError::CapacityExceeded || e == UiError::AllocationFailed,
    {
        if value.len() > max_bytes {
            return Err(UiError::CapacityExceeded);
        }
        let mut output = String::new();
        if !string_try_reserve_exact(&mut output, value.len()) {
            return Err(UiError::AllocationFailed);
        }
        string_push_str(&mut output, value);
        assert(output@ =~= value@);
        Ok(UiText { value: output })
    }

    pub fn as_str(&self) -> (r: &str)
        ensures
            r@ == self@,
    {
        self.value.as_str()
    }

    /// Length of the UTF-8 encoding.
    pub fn byte_len(&self) -> (r: usize)
        ensures
            r == vstd::utf8::encode_utf8(self@).len() as usize,
    {
        self.value.as_str().len()
    }
}

#[derive(Clone, Debug, Default, PartialEq, Eq)]
pub struct UiAccessibility {
    pub role: UiAccessibilityRole,
    pub label: Option<UiText>,
    pub hidden: bool,
}

#[derive(Clone, Copy, Debug, PartialEq, Eq, Structural)]
pub struct UiImage {
    pub texture: TextureId,
    pub width: u32,
    pub height: u32,
}

#[derive(Clone, Copy, Debug, PartialEq, Eq, Structural)]
pub struct UiInteraction {
    pub focusable: bool,
    pub disabled: bool,
    pub hit_test: bool,
}

impl Default for UiInteraction {
    /// Hit-testable, enabled, not focusable.
    fn default() -> (r: Self)
        ensures
            r == (UiInteraction { focusable: false, disabled: false, hit_test: true }),
    {
        UiInteraction { focusable: false, disabled: false, hit_test: true }
    }
}

} // verus!
