//! Numbers of the X protocol, as the protocol crate defines them.

use vstd::prelude::*;
use x11rb::protocol::xproto::{
    AtomEnum, ButtonIndex, ConfigWindow, GetModifierMappingReply, GetPropertyReply, MapState,
    Mapping, ModMask, NotifyDetail, NotifyMode, VisualClass, WindowClass,
};

verus! {

/// The bits of the modifier keys in a key or button state.
#[derive(Debug, Clone, Copy, PartialEq, Eq, Structural)]
pub struct ModifierBits {
    pub shift: u16,
    pub lock: u16,
    pub control: u16,
    pub m1: u16,
    pub m2: u16,
    pub m3: u16,
    pub m4: u16,
    pub m5: u16,
}

impl ModifierBits {
    /// The protocol's numbering: one bit each, `Shift` lowest.
    pub open spec fn of_protocol() -> ModifierBits {
        ModifierBits { shift: 1, lock: 2, control: 4, m1: 8, m2: 16, m3: 32, m4: 64, m5: 128 }
    }
}

/// `u16::from` on the modifier constants of `x11rb::protocol::xproto::ModMask`.
/// Claimed: the conversion yields the constant's bit, which is the protocol's.
#[verifier::external_body]
pub(crate) fn modifier_bits() -> (m: ModifierBits)
    ensures
        m == ModifierBits::of_protocol(),
{
    ModifierBits {
        shift: u16::from(ModMask::SHIFT),
        lock: u16::from(ModMask::LOCK),
        control: u16::from(ModMask::CONTROL),
        m1: u16::from(ModMask::M1),
        m2: u16::from(ModMask::M2),
        m3: u16::from(ModMask::M3),
        m4: u16::from(ModMask::M4),
        m5: u16::from(ModMask::M5),
    }
}

/// `x11rb::protocol::xproto::GetModifierMappingReply::keycodes_per_modifier`.
/// Claimed: an eighth of the number of keycodes. It panics where that is no
/// `u8`.
#[verifier::external_body]
pub(crate) fn keycodes_per_modifier(keycodes: &Vec<u8>) -> (n: u8)
    requires
        keycodes@.len() / 8 <= 255,
    ensures
        n == keycodes@.len() / 8,
{
    let reply = GetModifierMappingReply { keycodes: keycodes.clone(), ..Default::default() };
    reply.keycodes_per_modifier()
}

/// The bits of a configure request that say which of its values are present.
#[derive(Debug, Clone, Copy, PartialEq, Eq, Structural)]
pub struct ConfigBits {
    pub x: u16,
    pub y: u16,
    pub width: u16,
    pub height: u16,
    pub border_width: u16,
}

impl ConfigBits {
    /// The protocol's numbering.
    pub open spec fn of_protocol() -> ConfigBits {
        ConfigBits { x: 1, y: 2, width: 4, height: 8, border_width: 16 }
    }
}

/// `u16::from` on the constants of `x11rb::protocol::xproto::ConfigWindow`.
/// Claimed: the conversion yields the constant's bit, which is the protocol's.
#[verifier::external_body]
pub(crate) fn config_bits() -> (b: ConfigBits)
    ensures
        b == ConfigBits::of_protocol(),
{
    ConfigBits {
        x: u16::from(ConfigWindow::X),
        y: u16::from(ConfigWindow::Y),
        width: u16::from(ConfigWindow::WIDTH),
        height: u16::from(ConfigWindow::HEIGHT),
        border_width: u16::from(ConfigWindow::BORDER_WIDTH),
    }
}

/// `x11rb::protocol::xproto::ConfigWindow::contains`. Claimed: whether all bits
/// of `flag` are set in `mask`.
#[verifier::external_body]
pub(crate) fn mask_contains(mask: u16, flag: u16) -> (b: bool)
    ensures
        b == (mask & flag == flag),
{
    ConfigWindow::from(mask).contains(flag)
}

/// Classes of visuals whose pixel values hold the colour itself.
#[derive(Debug, Clone, Copy, PartialEq, Eq, Structural)]
pub struct VisualClassNumbers {
    pub true_color: u8,
    pub direct_color: u8,
}

impl VisualClassNumbers {
    /// The protocol's numbering.
    pub open spec fn of_protocol() -> VisualClassNumbers {
        VisualClassNumbers { true_color: 4, direct_color: 5 }
    }
}

/// `u8::from` on constants of `x11rb::protocol::xproto::VisualClass`. Claimed:
/// the conversion yields the constant's number, which is the protocol's.
#[verifier::external_body]
pub(crate) fn visual_class() -> (c: VisualClassNumbers)
    ensures
        c == VisualClassNumbers::of_protocol(),
{
    VisualClassNumbers {
        true_color: u8::from(VisualClass::TRUE_COLOR),
        direct_color: u8::from(VisualClass::DIRECT_COLOR),
    }
}

/// Classes of windows.
#[derive(Debug, Clone, Copy, PartialEq, Eq, Structural)]
pub struct WindowClassNumbers {
    pub input_only: u16,
}

impl WindowClassNumbers {
    /// The protocol's numbering.
    pub open spec fn of_protocol() -> WindowClassNumbers {
        WindowClassNumbers { input_only: 2 }
    }
}

/// `u16::from` on the constant `INPUT_ONLY` of
/// `x11rb::protocol::xproto::WindowClass`. Claimed: the conversion yields the
/// constant's number, which is the protocol's.
#[verifier::external_body]
pub(crate) fn window_class() -> (c: WindowClassNumbers)
    ensures
        c == WindowClassNumbers::of_protocol(),
{
    WindowClassNumbers { input_only: u16::from(WindowClass::INPUT_ONLY) }
}

/// The pointer buttons that drag windows.
#[derive(Debug, Clone, Copy, PartialEq, Eq, Structural)]
pub struct ButtonNumbers {
    pub m1: u8,
    pub m3: u8,
}

impl ButtonNumbers {
    /// The protocol's numbering.
    pub open spec fn of_protocol() -> ButtonNumbers {
        ButtonNumbers { m1: 1, m3: 3 }
    }
}

/// `u8::from` on constants of `x11rb::protocol::xproto::ButtonIndex`. Claimed:
/// the conversion yields the constant's number, which is the protocol's.
#[verifier::external_body]
pub(crate) fn button_numbers() -> (b: ButtonNumbers)
    ensures
        b == ButtonNumbers::of_protocol(),
{
    ButtonNumbers { m1: u8::from(ButtonIndex::M1), m3: u8::from(ButtonIndex::M3) }
}

/// The mode of a crossing or focus event that no grab caused.
///
/// `u8::from` on the constant `NORMAL` of `x11rb::protocol::xproto::NotifyMode`.
/// Claimed: the conversion yields the constant's number, which is the
/// protocol's.
#[verifier::external_body]
pub(crate) fn normal_mode() -> (n: u8)
    ensures
        n == 0,
{
    u8::from(NotifyMode::NORMAL)
}

/// Details of crossing and focus events.
#[derive(Debug, Clone, Copy, PartialEq, Eq, Structural)]
pub struct DetailNumbers {
    pub inferior: u8,
    pub pointer: u8,
}

impl DetailNumbers {
    /// The protocol's numbering.
    pub open spec fn of_protocol() -> DetailNumbers {
        DetailNumbers { inferior: 2, pointer: 5 }
    }
}

/// `u8::from` on constants of `x11rb::protocol::xproto::NotifyDetail`. Claimed:
/// the conversion yields the constant's number, which is the protocol's.
#[verifier::external_body]
pub(crate) fn notify_details() -> (d: DetailNumbers)
    ensures
        d == DetailNumbers::of_protocol(),
{
    DetailNumbers {
        inferior: u8::from(NotifyDetail::INFERIOR),
        pointer: u8::from(NotifyDetail::POINTER),
    }
}

/// What a mapping event reports as changed.
#[derive(Debug, Clone, Copy, PartialEq, Eq, Structural)]
pub struct MappingNumbers {
    pub modifier: u8,
    pub keyboard: u8,
}

impl MappingNumbers {
    /// The protocol's numbering.
    pub open spec fn of_protocol() -> MappingNumbers {
        MappingNumbers { modifier: 0, keyboard: 1 }
    }
}

/// `u8::from` on constants of `x11rb::protocol::xproto::Mapping`. Claimed: the
/// conversion yields the constant's number, which is the protocol's.
#[verifier::external_body]
pub(crate) fn mapping_numbers() -> (m: MappingNumbers)
    ensures
        m == MappingNumbers::of_protocol(),
{
    MappingNumbers { modifier: u8::from(Mapping::MODIFIER), keyboard: u8::from(Mapping::KEYBOARD) }
}

/// The map state of a window that is on the screen.
///
/// `u8::from` on the constant `VIEWABLE` of `x11rb::protocol::xproto::MapState`.
/// Claimed: the conversion yields the constant's number, which is the
/// protocol's.
#[verifier::external_body]
pub(crate) fn viewable_state() -> (n: u8)
    ensures
        n == 2,
{
    u8::from(MapState::VIEWABLE)
}

/// The state of a property event that reports a deletion.
///
/// `u8::from` on the constant `DELETE` of `x11rb::protocol::xproto::Property`.
/// Claimed: the conversion yields the constant's number, which is the
/// protocol's.
#[verifier::external_body]
pub(crate) fn property_deleted() -> (n: u8)
    ensures
        n == 1,
{
    u8::from(x11rb::protocol::xproto::Property::DELETE)
}

/// Atoms that exist on every server.
#[derive(Debug, Clone, Copy, PartialEq, Eq, Structural)]
pub struct PredefinedAtoms {
    pub atom: u32,
    pub cardinal: u32,
    pub wm_hints: u32,
    pub wm_name: u32,
}

impl PredefinedAtoms {
    /// The protocol's numbering.
    pub open spec fn of_protocol() -> PredefinedAtoms {
        PredefinedAtoms { atom: 4, cardinal: 6, wm_hints: 35, wm_name: 39 }
    }
}

/// `u32::from` on constants of `x11rb::protocol::xproto::AtomEnum`. Claimed: the
/// conversion yields the constant's number, which is the protocol's.
#[verifier::external_body]
pub(crate) fn predefined_atoms() -> (a: PredefinedAtoms)
    ensures
        a == PredefinedAtoms::of_protocol(),
{
    PredefinedAtoms {
        atom: u32::from(AtomEnum::ATOM),
        cardinal: u32::from(AtomEnum::CARDINAL),
        wm_hints: u32::from(AtomEnum::WM_HINTS),
        wm_name: u32::from(AtomEnum::WM_NAME),
    }
}

/// The reply to a property request.
#[derive(Debug)]
pub struct Property {
    /// The property's type, an atom; 0 where the property does not exist.
    pub type_: u32,
    /// Bits per item: 8, 16 or 32.
    pub format: u8,
    pub value: Vec<u8>,
}

/// The four bytes of `b` from `at` on, as a number in either byte order.
pub open spec fn word_at(b: Seq<u8>, at: int, big_endian: bool) -> int {
    if big_endian {
        b[at] * 0x1000000 + b[at + 1] * 0x10000 + b[at + 2] * 0x100 + b[at + 3]
    } else {
        b[at + 3] * 0x1000000 + b[at + 2] * 0x10000 + b[at + 1] * 0x100 + b[at]
    }
}

/// `v` holds the whole words of `b`, in the given byte order.
pub open spec fn are_words(v: Seq<u32>, b: Seq<u8>, big_endian: bool) -> bool {
    v.len() == b.len() / 4 && forall|i: int|
        0 <= i < v.len() ==> (#[trigger] v[i]) == word_at(b, 4 * i, big_endian)
}

/// `v` holds the whole words of `b` in the machine's byte order, whichever that
/// is.
pub open spec fn are_native_words(v: Seq<u32>, b: Seq<u8>) -> bool {
    are_words(v, b, false) || are_words(v, b, true)
}

/// `x11rb::protocol::xproto::GetPropertyReply::value32`. Claimed: there is a
/// list of words exactly when the format is 32, and it holds the bytes four by
/// four, a rest of fewer than four dropped, in the byte order of the machine.
#[verifier::external_body]
fn value32(p: &Property) -> (r: Option<Vec<u32>>)
    ensures
        match r {
            Some(v) => p.format == 32 && are_native_words(v@, p.value@),
            None => p.format != 32,
        },
{
    let reply = GetPropertyReply {
        format: p.format,
        type_: p.type_,
        value: p.value.clone(),
        ..Default::default()
    };
    let words: Option<Vec<u32>> = match reply.value32() {
        Some(words) => Some(words.collect()),
        None => None,
    };
    words
}

impl Property {
    /// The items of a 32-bit property; `None` for any other format.
    pub fn words(&self) -> (r: Option<Vec<u32>>)
        ensures
            match r {
                Some(v) => self.format == 32 && are_native_words(v@, self.value@),
                None => self.format != 32,
            },
    {
        value32(self)
    }

    /// The items of a 32-bit property, none for any other format.
    pub fn words_or_empty(&self) -> (v: Vec<u32>)
        ensures
            self.format == 32 ==> are_native_words(v@, self.value@),
            self.format != 32 ==> v@.len() == 0,
    {
        match self.words() {
            Some(v) => v,
            None => Vec::new(),
        }
    }

    /// The items of a property of the given type; none for any other property.
    pub fn typed_words(&self, type_: u32) -> (v: Vec<u32>)
        ensures
            self.type_ == type_ && self.format == 32 ==> are_native_words(v@, self.value@),
            self.type_ != type_ || self.format != 32 ==> v@.len() == 0,
    {
        if self.type_ == type_ {
            self.words_or_empty()
        } else {
            Vec::new()
        }
    }
}

} // verus!
