//! Clients, workspaces and monitors, as far as the backend's decisions read
//! them.

use crate::geom::Rect;
use vstd::prelude::*;

verus! {

/// An X window id.
pub type WindowId = u32;

/// A set of per-client flags.
#[derive(Debug, Clone, Copy, PartialEq, Eq, Structural)]
pub struct WinFlags {
    pub bits: u16,
}

impl WinFlags {
    pub const FLOAT: u16 = 1;

    pub const FULLSCREEN: u16 = 2;

    pub const MAXIMIZED_V: u16 = 4;

    pub const MAXIMIZED_H: u16 = 8;

    pub const STICKY: u16 = 16;

    pub const URGENT: u16 = 32;

    pub const NO_FOCUS: u16 = 64;

    pub const FIXED: u16 = 128;

    /// The window floated before it became a fullscreen tile.
    pub const FS_WAS_FLOAT: u16 = 256;

    /// Some flag of `f` is on.
    pub open spec fn on(self, f: u16) -> bool {
        self.bits & f != 0
    }

    /// The flags with those of `f` turned on.
    pub open spec fn with(self, f: u16) -> WinFlags {
        WinFlags { bits: self.bits | f }
    }

    /// The flags with those of `f` turned off.
    pub open spec fn less(self, f: u16) -> WinFlags {
        WinFlags { bits: self.bits & !f }
    }

    pub fn has(&self, f: u16) -> (b: bool)
        ensures
            b == self.on(f),
    {
        self.bits & f != 0
    }

    pub fn set(&mut self, f: u16)
        ensures
            *final(self) == old(self).with(f),
    {
        self.bits = self.bits | f;
    }

    pub fn clear(&mut self, f: u16)
        ensures
            *final(self) == old(self).less(f),
    {
        self.bits = self.bits & !f;
    }
}

/// Turning flags on and off touches those flags and no others.
pub proof fn flags_are_independent(s: WinFlags, f: u16, g: u16)
    requires
        f & g == 0,
    ensures
        s.with(f).on(g) == s.on(g),
        s.less(f).on(g) == s.on(g),
        f != 0 ==> s.with(f).on(f),
        !s.less(f).on(f),
{
    let b = s.bits;
    assert(f & g == 0 ==> (b | f) & g == b & g && (b & !f) & g == b & g) by (bit_vector);
    flag_is_as_it_was_set(s, f);
}

/// A flag that was turned on is on, and one that was turned off is off.
pub proof fn flag_is_as_it_was_set(s: WinFlags, f: u16)
    ensures
        f != 0 ==> s.with(f).on(f),
        !s.less(f).on(f),
{
    let b = s.bits;
    assert((f != 0 ==> (b | f) & f != 0) && (b & !f) & f == 0) by (bit_vector);
}

/// Each flag has a bit of its own.
pub proof fn flags_have_bits_of_their_own()
    ensures
        WinFlags::FLOAT & (WinFlags::FULLSCREEN | WinFlags::MAXIMIZED_V | WinFlags::MAXIMIZED_H
            | WinFlags::STICKY | WinFlags::URGENT | WinFlags::NO_FOCUS | WinFlags::FIXED
            | WinFlags::FS_WAS_FLOAT) == 0,
        WinFlags::FULLSCREEN & (WinFlags::MAXIMIZED_V | WinFlags::MAXIMIZED_H | WinFlags::STICKY
            | WinFlags::URGENT | WinFlags::NO_FOCUS | WinFlags::FIXED | WinFlags::FS_WAS_FLOAT)
            == 0,
        WinFlags::MAXIMIZED_V & (WinFlags::MAXIMIZED_H | WinFlags::STICKY | WinFlags::URGENT
            | WinFlags::NO_FOCUS | WinFlags::FIXED | WinFlags::FS_WAS_FLOAT) == 0,
        WinFlags::MAXIMIZED_H & (WinFlags::STICKY | WinFlags::URGENT | WinFlags::NO_FOCUS
            | WinFlags::FIXED | WinFlags::FS_WAS_FLOAT) == 0,
        WinFlags::STICKY & (WinFlags::URGENT | WinFlags::NO_FOCUS | WinFlags::FIXED
            | WinFlags::FS_WAS_FLOAT) == 0,
        WinFlags::URGENT & (WinFlags::NO_FOCUS | WinFlags::FIXED | WinFlags::FS_WAS_FLOAT) == 0,
        WinFlags::NO_FOCUS & (WinFlags::FIXED | WinFlags::FS_WAS_FLOAT) == 0,
        WinFlags::FIXED & WinFlags::FS_WAS_FLOAT == 0,
{
    assert(1u16 & (2u16 | 4u16 | 8u16 | 16u16 | 32u16 | 64u16 | 128u16 | 256u16) == 0 && 2u16 & (
    4u16 | 8u16 | 16u16 | 32u16 | 64u16 | 128u16 | 256u16) == 0 && 4u16 & (8u16 | 16u16 | 32u16
        | 64u16 | 128u16 | 256u16) == 0 && 8u16 & (16u16 | 32u16 | 64u16 | 128u16 | 256u16) == 0
        && 16u16 & (32u16 | 64u16 | 128u16 | 256u16) == 0 && 32u16 & (64u16 | 128u16 | 256u16) == 0
        && 64u16 & (128u16 | 256u16) == 0 && 128u16 & 256u16 == 0) by (bit_vector);
}

/// `WM_NORMAL_HINTS` as a client declared them. The aspect ratios are kept as
/// the two integers of the property; the denominator is never zero.
#[derive(Debug, Clone, Copy, PartialEq, Eq, Structural)]
pub struct SizeHints {
    pub min_w: i32,
    pub min_h: i32,
    pub max_w: i32,
    pub max_h: i32,
    pub inc_w: i32,
    pub inc_h: i32,
    pub base_w: i32,
    pub base_h: i32,
    pub min_aspect_num: u32,
    pub max_aspect_num: u32,
    pub aspect_den: u32,
    pub valid: bool,
}

impl SizeHints {
    /// No hints declared.
    pub open spec fn unset() -> SizeHints {
        SizeHints {
            min_w: 0,
            min_h: 0,
            max_w: 0,
            max_h: 0,
            inc_w: 0,
            inc_h: 0,
            base_w: 0,
            base_h: 0,
            min_aspect_num: 0,
            max_aspect_num: 0,
            aspect_den: 1,
            valid: false,
        }
    }
}

impl Default for SizeHints {
    fn default() -> (h: SizeHints)
        ensures
            h == SizeHints::unset(),
    {
        SizeHints {
            min_w: 0,
            min_h: 0,
            max_w: 0,
            max_h: 0,
            inc_w: 0,
            inc_h: 0,
            base_w: 0,
            base_h: 0,
            min_aspect_num: 0,
            max_aspect_num: 0,
            aspect_den: 1,
            valid: false,
        }
    }
}

/// What to do with a client's fullscreen requests.
#[derive(Debug, Clone, Copy, PartialEq, Eq, Structural)]
pub enum FullscreenPolicy {
    /// Fullscreen is a tile of the ribbon.
    Tile,
    /// Fullscreen is an exclusive overlay outside the ribbon.
    True,
    /// Requests from the application are refused.
    Deny,
}

/// How a workspace lays its tiles out.
#[derive(Debug, Clone, Copy, PartialEq, Eq, Structural)]
pub enum LayoutKind {
    Column,
    Monocle,
    Grid,
}

/// A managed window.
#[derive(Debug)]
pub struct Client {
    pub window: WindowId,
    pub monitor: usize,
    pub workspace: usize,
    pub geom: Rect,
    pub saved_geom: Rect,
    pub border_w: u32,
    pub old_border_w: u32,
    pub flags: WinFlags,
    pub hints: SizeHints,
    pub fullscreen_policy: FullscreenPolicy,
    pub transient_parent: Option<WindowId>,
    pub wants_input: bool,
    pub geometry_dirty: bool,
    pub wm_hidden: bool,
    pub is_unmanaged: bool,
    pub focus_serial: u64,
    /// `_NET_WM_WINDOW_OPACITY` to publish, if a rule asked for one.
    pub opacity: Option<u32>,
    pub last_reported: Option<Rect>,
    pub last_desired: Option<Rect>,
    pub name: String,
    pub class: String,
    pub instance: String,
    pub window_types: Vec<String>,
}

impl Client {
    /// A freshly mapped window on monitor `monitor`, workspace `workspace`:
    /// tiled, accepting input, with nothing read from it yet.
    pub fn new(window: WindowId, monitor: usize, workspace: usize) -> (c: Client)
        ensures
            c.window == window,
            c.monitor == monitor,
            c.workspace == workspace,
            c.geom == (Rect { x: 0, y: 0, w: 0, h: 0 }),
            c.saved_geom == c.geom,
            c.border_w == 0,
            c.old_border_w == 0,
            c.flags == (WinFlags { bits: 0 }),
            c.hints == SizeHints::unset(),
            c.fullscreen_policy == FullscreenPolicy::Tile,
            c.transient_parent == None::<WindowId>,
            c.wants_input,
            !c.geometry_dirty,
            !c.wm_hidden,
            !c.is_unmanaged,
            c.focus_serial == 0,
            c.opacity == None::<u32>,
            c.last_reported == None::<Rect>,
            c.last_desired == None::<Rect>,
            c.name@ == Seq::<char>::empty(),
            c.class@ == Seq::<char>::empty(),
            c.instance@ == Seq::<char>::empty(),
            c.window_types@ == Seq::<String>::empty(),
    {
        let r: Rect = Rect { x: 0, y: 0, w: 0, h: 0 };
        Client {
            window,
            monitor,
            workspace,
            geom: r,
            saved_geom: r,
            border_w: 0,
            old_border_w: 0,
            flags: WinFlags { bits: 0 },
            hints: SizeHints::default(),
            fullscreen_policy: FullscreenPolicy::Tile,
            transient_parent: None,
            wants_input: true,
            geometry_dirty: false,
            wm_hidden: false,
            is_unmanaged: false,
            focus_serial: 0,
            opacity: None,
            last_reported: None,
            last_desired: None,
            name: String::new(),
            class: String::new(),
            instance: String::new(),
            window_types: Vec::new(),
        }
    }

    pub open spec fn floats(self) -> bool {
        self.flags.on(WinFlags::FLOAT)
    }

    pub open spec fn fullscreen(self) -> bool {
        self.flags.on(WinFlags::FULLSCREEN)
    }

    /// Fullscreen as an exclusive overlay.
    pub open spec fn true_fullscreen(self) -> bool {
        self.fullscreen() && self.fullscreen_policy == FullscreenPolicy::True
    }

    /// Maximized on some axis.
    pub open spec fn maximized(self) -> bool {
        self.flags.on(WinFlags::MAXIMIZED_V) || self.flags.on(WinFlags::MAXIMIZED_H)
    }

    pub fn is_float(&self) -> (b: bool)
        ensures
            b == self.floats(),
    {
        self.flags.has(WinFlags::FLOAT)
    }

    pub fn is_fullscreen(&self) -> (b: bool)
        ensures
            b == self.fullscreen(),
    {
        self.flags.has(WinFlags::FULLSCREEN)
    }

    pub fn is_true_fullscreen(&self) -> (b: bool)
        ensures
            b == self.true_fullscreen(),
    {
        self.flags.has(WinFlags::FULLSCREEN) && self.fullscreen_policy == FullscreenPolicy::True
    }

    pub fn denies_fullscreen(&self) -> (b: bool)
        ensures
            b == (self.fullscreen_policy == FullscreenPolicy::Deny),
    {
        self.fullscreen_policy == FullscreenPolicy::Deny
    }

    pub fn is_maximized_v(&self) -> (b: bool)
        ensures
            b == self.flags.on(WinFlags::MAXIMIZED_V),
    {
        self.flags.has(WinFlags::MAXIMIZED_V)
    }

    pub fn is_maximized_h(&self) -> (b: bool)
        ensures
            b == self.flags.on(WinFlags::MAXIMIZED_H),
    {
        self.flags.has(WinFlags::MAXIMIZED_H)
    }

    pub fn is_maximized(&self) -> (b: bool)
        ensures
            b == self.maximized(),
    {
        self.flags.has(WinFlags::MAXIMIZED_V) || self.flags.has(WinFlags::MAXIMIZED_H)
    }

    pub fn is_sticky(&self) -> (b: bool)
        ensures
            b == self.flags.on(WinFlags::STICKY),
    {
        self.flags.has(WinFlags::STICKY)
    }

    pub fn no_focus(&self) -> (b: bool)
        ensures
            b == self.flags.on(WinFlags::NO_FOCUS),
    {
        self.flags.has(WinFlags::NO_FOCUS)
    }
}

} // verus!
