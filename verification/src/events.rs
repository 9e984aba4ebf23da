//! What the window manager makes of the events the server sends it.

use crate::arrange::NotifyGeometry;
use crate::atoms::Atoms;
use crate::compositor::at;
use crate::floats::{clamp_float_to_workarea, clampable, clamped};
use crate::focus::focus_started;
use crate::fullscreen::{
    already_maximized, fullscreen_set, fullscreened, maximized_client, maximized_set,
    FullscreenChange, MaximizeChange,
};
use crate::geom::Rect;
use crate::model::{Client, FullscreenPolicy, WinFlags, WindowId};
use crate::overlay::overlay_owner;
use crate::props::{holds_words, reply_words, words_view};
use crate::reconciler::{
    classify_configure, recorded, AppliedState, AppliedWindow, ConfigureObservation,
};
use crate::state::{State, StateV};
use crate::transient::{owned_by, transient_chain_reaches};
use crate::xproto::{
    config_bits, mapping_numbers, mask_contains, normal_mode, notify_details, predefined_atoms,
    property_deleted, ConfigBits, DetailNumbers, MappingNumbers, PredefinedAtoms, Property,
};
use std::collections::HashMap;
use vstd::prelude::*;

verus! {

broadcast use vstd::std_specs::hash::group_hash_axioms;

// ---- Windows coming and going -----------------------------------------------

/// What an unmap means.
#[derive(Debug, Clone, Copy, PartialEq, Eq, Structural)]
pub enum UnmapAction {
    /// The copy the root window gets, or a window that is none of ours.
    Ignore,
    /// A dock gives up its space.
    ReleaseDock,
    /// A client withdraws.
    Unmanage,
}

impl State {
    /// Whether a window that asks to be mapped is to be managed.
    pub fn on_map_request(&self, win: WindowId, override_redirect: bool) -> (b: bool)
        ensures
            b == (!override_redirect && !self@.clients.contains_key(win)),
    {
        !override_redirect && !self.clients.contains_key(&win)
    }

    /// What a window's being unmapped means. The server tells the root window of
    /// it too; that copy says nothing new.
    pub fn on_unmap(
        &self,
        docks: &HashMap<WindowId, usize>,
        win: WindowId,
        event: WindowId,
        root: WindowId,
    ) -> (r: UnmapAction)
        ensures
            r == (if event == root {
                UnmapAction::Ignore
            } else if self@.clients.contains_key(win) {
                UnmapAction::Unmanage
            } else if docks@.contains_key(win) {
                UnmapAction::ReleaseDock
            } else {
                UnmapAction::Ignore
            }),
    {
        if event == root {
            UnmapAction::Ignore
        } else if self.clients.contains_key(&win) {
            UnmapAction::Unmanage
        } else if docks.contains_key(&win) {
            UnmapAction::ReleaseDock
        } else {
            UnmapAction::Ignore
        }
    }

    /// What a window's destruction means: whether a client goes, and whether a
    /// dock does.
    pub fn on_destroy(&self, docks: &HashMap<WindowId, usize>, win: WindowId) -> (r: (bool, bool))
        ensures
            r == (self@.clients.contains_key(win), docks@.contains_key(win)),
    {
        (self.clients.contains_key(&win), docks.contains_key(&win))
    }
}

// ---- Requests for geometry --------------------------------------------------

/// A client's request for geometry.
#[derive(Debug, Clone, Copy, PartialEq, Eq, Structural)]
pub struct ConfigureRequest {
    pub window: WindowId,
    pub x: i16,
    pub y: i16,
    pub width: u16,
    pub height: u16,
    pub border_width: u16,
    /// Which of the values are present.
    pub mask: u16,
}

/// How a request for geometry is answered.
#[derive(Debug, Clone, Copy, PartialEq, Eq, Structural)]
pub enum ConfigureAnswer {
    /// Refused: tell the client what its geometry is.
    Reassert(NotifyGeometry),
    /// Granted to a floating client, as far as the work area allows.
    Apply { geom: Rect, border: u32 },
    /// Passed on for a window that is not managed, value by value.
    Pass {
        x: Option<i32>,
        y: Option<i32>,
        width: Option<u32>,
        height: Option<u32>,
        border_width: Option<u32>,
    },
}

/// All bits of `flag` are set in `mask`.
pub open spec fn has_bits(mask: u16, flag: u16) -> bool {
    mask & flag == flag
}

/// The geometry a request asks for, starting from `g`.
pub open spec fn requested(e: ConfigureRequest, g: Rect) -> Rect {
    Rect {
        x: if has_bits(e.mask, 1) {
            e.x as i32
        } else {
            g.x
        },
        y: if has_bits(e.mask, 2) {
            e.y as i32
        } else {
            g.y
        },
        w: if has_bits(e.mask, 4) {
            e.width as u32
        } else {
            g.w
        },
        h: if has_bits(e.mask, 8) {
            e.height as u32
        } else {
            g.h
        },
    }
}

/// The border a request asks for, starting from `bw`.
pub open spec fn requested_border(e: ConfigureRequest, bw: u32) -> u32 {
    if has_bits(e.mask, 16) {
        e.border_width as u32
    } else {
        bw
    }
}

/// The window manager, not the client, decides where the client is: it is tiled
/// or fullscreen.
pub open spec fn geometry_is_ours(c: Client) -> bool {
    !c.floats() || c.fullscreen()
}

/// What a client is told of its geometry, in the widths of the event's fields.
pub open spec fn told_geometry(c: Client) -> NotifyGeometry {
    NotifyGeometry {
        x: c.geom.x as i16,
        y: c.geom.y as i16,
        width: c.geom.w as u16,
        height: c.geom.h as u16,
        border_width: c.border_w as u16,
    }
}

pub open spec fn answer_to(st: StateV, e: ConfigureRequest) -> ConfigureAnswer {
    match at(st.clients, e.window) {
        Some(c) => if geometry_is_ours(c) {
            ConfigureAnswer::Reassert(told_geometry(c))
        } else {
            let g = requested(e, c.geom);
            let bw = requested_border(e, c.border_w);
            ConfigureAnswer::Apply {
                geom: if c.monitor < st.monitors.len() {
                    clamped(g, st.monitors[c.monitor as int].workarea, bw)
                } else {
                    g
                },
                border: bw,
            }
        },
        None => ConfigureAnswer::Pass {
            x: if has_bits(e.mask, 1) {
                Some(e.x as i32)
            } else {
                None
            },
            y: if has_bits(e.mask, 2) {
                Some(e.y as i32)
            } else {
                None
            },
            width: if has_bits(e.mask, 4) {
                Some(e.width as u32)
            } else {
                None
            },
            height: if has_bits(e.mask, 8) {
                Some(e.height as u32)
            } else {
                None
            },
            border_width: if has_bits(e.mask, 16) {
                Some(e.border_width as u32)
            } else {
                None
            },
        },
    }
}

/// The work area that a granted request has to stay in can be measured.
pub open spec fn answerable(st: StateV, e: ConfigureRequest) -> bool {
    match at(st.clients, e.window) {
        Some(c) => !geometry_is_ours(c) && c.monitor < st.monitors.len() ==> clampable(
            st.monitors[c.monitor as int].workarea,
            requested_border(e, c.border_w),
        ),
        None => true,
    }
}

impl ConfigureRequest {
    fn geometry_from(&self, g: Rect) -> (r: Rect)
        ensures
            r == requested(*self, g),
    {
        let b: ConfigBits = config_bits();
        Rect {
            x: if mask_contains(self.mask, b.x) { self.x as i32 } else { g.x },
            y: if mask_contains(self.mask, b.y) { self.y as i32 } else { g.y },
            w: if mask_contains(self.mask, b.width) { self.width as u32 } else { g.w },
            h: if mask_contains(self.mask, b.height) { self.height as u32 } else { g.h },
        }
    }

    fn border_from(&self, bw: u32) -> (r: u32)
        ensures
            r == requested_border(*self, bw),
    {
        if mask_contains(self.mask, config_bits().border_width) {
            self.border_width as u32
        } else {
            bw
        }
    }

    fn passed_on(&self) -> (r: ConfigureAnswer)
        ensures
            r == (ConfigureAnswer::Pass {
                x: if has_bits(self.mask, 1) {
                    Some(self.x as i32)
                } else {
                    None
                },
                y: if has_bits(self.mask, 2) {
                    Some(self.y as i32)
                } else {
                    None
                },
                width: if has_bits(self.mask, 4) {
                    Some(self.width as u32)
                } else {
                    None
                },
                height: if has_bits(self.mask, 8) {
                    Some(self.height as u32)
                } else {
                    None
                },
                border_width: if has_bits(self.mask, 16) {
                    Some(self.border_width as u32)
                } else {
                    None
                },
            }),
    {
        let b: ConfigBits = config_bits();
        ConfigureAnswer::Pass {
            x: if mask_contains(self.mask, b.x) { Some(self.x as i32) } else { None },
            y: if mask_contains(self.mask, b.y) { Some(self.y as i32) } else { None },
            width: if mask_contains(self.mask, b.width) { Some(self.width as u32) } else { None },
            height: if mask_contains(self.mask, b.height) {
                Some(self.height as u32)
            } else {
                None
            },
            border_width: if mask_contains(self.mask, b.border_width) {
                Some(self.border_width as u32)
            } else {
                None
            },
        }
    }
}

impl State {
    /// Answer a request for geometry. The geometry of tiled and fullscreen
    /// windows is not the client's to choose; a floating one gets what it asks
    /// for, inside the work area.
    pub fn on_configure_request(&self, e: ConfigureRequest) -> (r: ConfigureAnswer)
        requires
            answerable(self@, e),
        ensures
            r == answer_to(self@, e),
    {
        match self.clients.get(&e.window) {
            Some(c) => {
                if !c.is_float() || c.is_fullscreen() {
                    return ConfigureAnswer::Reassert(
                        NotifyGeometry {
                            x: #[verifier::truncate] (c.geom.x as i16),
                            y: #[verifier::truncate] (c.geom.y as i16),
                            width: #[verifier::truncate] (c.geom.w as u16),
                            height: #[verifier::truncate] (c.geom.h as u16),
                            border_width: #[verifier::truncate] (c.border_w as u16),
                        },
                    );
                }
                let g: Rect = e.geometry_from(c.geom);
                let bw: u32 = e.border_from(c.border_w);
                let geom: Rect = if c.monitor < self.monitors.len() {
                    assert(self@.monitors[c.monitor as int] == self.monitors@[c.monitor as int]@);
                    clamp_float_to_workarea(g, self.monitors[c.monitor].workarea, bw)
                } else {
                    g
                };
                ConfigureAnswer::Apply { geom, border: bw }
            },
            None => e.passed_on(),
        }
    }
}

/// No request moves or resizes a fullscreen window, nor a tiled one: what the
/// client is told is what it has already.
pub proof fn owned_geometry_is_not_negotiable(st: StateV, e: ConfigureRequest)
    requires
        st.clients.contains_key(e.window),
        st.clients[e.window].fullscreen() || !st.clients[e.window].floats(),
    ensures
        answer_to(st, e) == ConfigureAnswer::Reassert(told_geometry(st.clients[e.window])),
{
}

/// Whatever a floating client asks for, its frame stays in the work area, where
/// that has room for a frame at all.
pub proof fn granted_geometry_is_in_the_workarea(st: StateV, e: ConfigureRequest)
    requires
        st.clients.contains_key(e.window),
        !geometry_is_ours(st.clients[e.window]),
        st.clients[e.window].monitor < st.monitors.len(),
        answerable(st, e),
        ({
            let c = st.clients[e.window];
            let wa = st.monitors[c.monitor as int].workarea;
            let bw = requested_border(e, c.border_w);
            wa.w > 2 * bw && wa.h > 2 * bw
        }),
    ensures
        ({
            let c = st.clients[e.window];
            let wa = st.monitors[c.monitor as int].workarea;
            match answer_to(st, e) {
                ConfigureAnswer::Apply { geom, border } => crate::floats::frame_fits(
                    geom,
                    wa,
                    border,
                ) && geom.w >= 1 && geom.h >= 1,
                _ => false,
            }
        }),
{
    let c = st.clients[e.window];
    let wa = st.monitors[c.monitor as int].workarea;
    let bw = requested_border(e, c.border_w);
    crate::floats::clamped_float_lies_in_the_workarea(requested(e, c.geom), wa, bw);
    crate::floats::clamped_float_is_never_empty(requested(e, c.geom), wa, bw);
}

// ---- Reports of geometry ----------------------------------------------------

/// A report of a window's geometry.
#[derive(Debug, Clone, Copy, PartialEq, Eq, Structural)]
pub struct ConfigureReport {
    pub response_type: u8,
    /// The window that the report was sent to.
    pub event: WindowId,
    pub window: WindowId,
    pub x: i16,
    pub y: i16,
    pub width: u16,
    pub height: u16,
    pub border_width: u16,
    /// The window right below, 0 if there is none.
    pub above_sibling: WindowId,
}

impl ConfigureReport {
    pub open spec fn rect(self) -> Rect {
        Rect {
            x: self.x as i32,
            y: self.y as i32,
            w: self.width as u32,
            h: self.height as u32,
        }
    }

    /// A client sent the event, not the server.
    pub open spec fn synthetic(self) -> bool {
        self.response_type & 0x80 != 0
    }
}

/// What a report of geometry leads to.
#[derive(Debug, Clone, Copy, PartialEq, Eq)]
pub enum ConfigureReaction {
    /// The root window changed: look at the monitors again.
    Monitors,
    /// Nothing the window manager does not know.
    Ignore,
    /// `write` geometry and border to the window, if any; `restack`: the window
    /// is now right above that one (none: at the bottom).
    Observed { write: Option<(Rect, u32)>, restack: Option<Option<WindowId>> },
}

/// The verdict on a report: `None` if it is what was last written, or nothing is
/// known of the window; otherwise whether the window manager yields to it.
pub open spec fn divergence(
    st: StateV,
    applied: Map<WindowId, AppliedWindow>,
    e: ConfigureReport,
) -> Option<bool> {
    if st.clients.contains_key(e.window) && applied.contains_key(e.window) && !(
    applied[e.window].rect == e.rect() && applied[e.window].border_w == e.border_width as u32) {
        Some(!geometry_is_ours(st.clients[e.window]))
    } else {
        None
    }
}

/// The state after a report the root window got: the report is noted; a float is
/// where it says it is; any other window is owed its own geometry again.
pub open spec fn report_noted(
    st: StateV,
    applied: Map<WindowId, AppliedWindow>,
    e: ConfigureReport,
) -> StateV {
    if st.clients.contains_key(e.window) {
        let c = Client { last_reported: Some(e.rect()), ..st.clients[e.window] };
        st.with_client(
            e.window,
            match divergence(st, applied, e) {
                Some(true) => Client { geom: e.rect(), border_w: e.border_width as u32, ..c },
                Some(false) => Client { geometry_dirty: true, ..c },
                None => c,
            },
        )
    } else {
        st
    }
}

/// What is to be written to a window after a report the root window got.
pub open spec fn report_answer(
    st: StateV,
    applied: Map<WindowId, AppliedWindow>,
    e: ConfigureReport,
) -> Option<(Rect, u32)> {
    match divergence(st, applied, e) {
        Some(true) => Some((e.rect(), e.border_width as u32)),
        Some(false) => Some((st.clients[e.window].geom, st.clients[e.window].border_w)),
        None => None,
    }
}

pub open spec fn reaction_to(
    st: StateV,
    applied: Map<WindowId, AppliedWindow>,
    e: ConfigureReport,
    root: WindowId,
) -> (StateV, ConfigureReaction) {
    if e.window == root {
        (st, ConfigureReaction::Monitors)
    } else if e.synthetic() {
        (st, ConfigureReaction::Ignore)
    } else if e.event == root {
        (
            report_noted(st, applied, e),
            ConfigureReaction::Observed {
                write: report_answer(st, applied, e),
                restack: Some(
                    if e.above_sibling == 0 {
                        None
                    } else {
                        Some(e.above_sibling)
                    },
                ),
            },
        )
    } else {
        (st, ConfigureReaction::Observed { write: None, restack: None })
    }
}

impl ConfigureReport {
    fn geometry(&self) -> (r: Rect)
        ensures
            r == self.rect(),
    {
        Rect {
            x: self.x as i32,
            y: self.y as i32,
            w: self.width as u32,
            h: self.height as u32,
        }
    }
}

impl State {
    fn note_report(&mut self, applied: &AppliedState, e: ConfigureReport) -> (r: Option<(Rect, u32)>)
        ensures
            final(self)@ == report_noted(old(self)@, applied@, e),
            r == report_answer(old(self)@, applied@, e),
    {
        let reported: Rect = e.geometry();
        let bw: u32 = e.border_width as u32;
        let ghost before = self.clients@;
        let mut c: Client = match self.clients.remove(&e.window) {
            Some(c) => c,
            None => {
                assert(self.clients@ =~= before);
                return None;
            },
        };
        c.last_reported = Some(reported);
        let mut out: Option<(Rect, u32)> = None;
        match applied.windows.get(&e.window) {
            Some(a) => match classify_configure(reported, bw, a, &c) {
                ConfigureObservation::Compliant => {},
                ConfigureObservation::Diverged { follow } => {
                    if follow {
                        c.geom = reported;
                        c.border_w = bw;
                    } else {
                        c.geometry_dirty = true;
                    }
                    out = Some((c.geom, c.border_w));
                },
            },
            None => {},
        }
        self.clients.insert(e.window, c);
        assert(self.clients@ =~= before.insert(e.window, c));
        out
    }

    /// React to a report of a window's geometry: an observation, not an
    /// instruction. Reports that clients made up are dropped, and only those the
    /// root window gets are compared with what was written.
    pub fn on_configure_notify(
        &mut self,
        applied: &AppliedState,
        e: ConfigureReport,
        root: WindowId,
    ) -> (r: ConfigureReaction)
        ensures
            (final(self)@, r) == reaction_to(old(self)@, applied@, e, root),
    {
        if e.window == root {
            return ConfigureReaction::Monitors;
        }
        if e.response_type & 0x80 != 0 {
            return ConfigureReaction::Ignore;
        }
        if e.event == root {
            let write: Option<(Rect, u32)> = self.note_report(applied, e);
            let above: Option<WindowId> = if e.above_sibling == 0 {
                None
            } else {
                Some(e.above_sibling)
            };
            ConfigureReaction::Observed { write, restack: Some(above) }
        } else {
            ConfigureReaction::Observed { write: None, restack: None }
        }
    }
}

/// Answering a report ends the matter: once the answer is written, a report of
/// just that is no divergence, so that window manager and client do not chase
/// each other.
pub proof fn answered_report_is_settled(
    st: StateV,
    applied: Map<WindowId, AppliedWindow>,
    e: ConfigureReport,
    echo: ConfigureReport,
)
    requires
        echo.window == e.window,
        report_answer(st, applied, e) == Some((echo.rect(), echo.border_width as u32)),
    ensures
        ({
            let now = recorded(applied, e.window, echo.rect(), echo.border_width as u32);
            divergence(report_noted(st, applied, e), now, echo) is None
        }),
{
}

// ---- Properties -------------------------------------------------------------

/// What a change of a property leads to.
#[derive(Debug, Clone, Copy, PartialEq, Eq, Structural)]
pub enum PropertyAction {
    Nothing,
    /// The root window's name: the status text.
    Status,
    /// A dock's reservation is to be read again.
    Strut,
    /// The window's opacity is to be read again.
    Opacity,
    /// The client's title is to be read again.
    Title,
    /// The client's hints are to be read again.
    Hints,
}

/// A property of `window` changed, or was deleted.
#[derive(Debug, Clone, Copy, PartialEq, Eq, Structural)]
pub struct PropertyReport {
    pub window: WindowId,
    pub atom: u32,
    pub state: u8,
}

pub open spec fn property_action_of(
    st: StateV,
    e: PropertyReport,
    root: WindowId,
    composited: bool,
    atoms: Atoms,
) -> PropertyAction {
    let client = st.clients.contains_key(e.window);
    if e.window == root && e.atom == 39 {
        PropertyAction::Status
    } else if (e.atom == atoms.net_wm_strut_partial || e.atom == atoms.net_wm_strut) && !client {
        PropertyAction::Strut
    } else if e.state == 1 {
        PropertyAction::Nothing
    } else if e.atom == atoms.net_wm_window_opacity && composited {
        PropertyAction::Opacity
    } else if client && (e.atom == atoms.net_wm_name || e.atom == 39) {
        PropertyAction::Title
    } else if client && e.atom == 35 {
        PropertyAction::Hints
    } else {
        PropertyAction::Nothing
    }
}

impl State {
    /// What a change of a property leads to. The deletion of a property matters
    /// only where it is a dock's reservation.
    pub fn on_property(
        &self,
        e: PropertyReport,
        root: WindowId,
        composited: bool,
        atoms: &Atoms,
    ) -> (r: PropertyAction)
        ensures
            r == property_action_of(self@, e, root, composited, *atoms),
    {
        let known: PredefinedAtoms = predefined_atoms();
        let client: bool = self.clients.contains_key(&e.window);
        if e.window == root && e.atom == known.wm_name {
            PropertyAction::Status
        } else if (e.atom == atoms.net_wm_strut_partial || e.atom == atoms.net_wm_strut)
            && !client {
            PropertyAction::Strut
        } else if e.state == property_deleted() {
            PropertyAction::Nothing
        } else if e.atom == atoms.net_wm_window_opacity && composited {
            PropertyAction::Opacity
        } else if client && (e.atom == atoms.net_wm_name || e.atom == known.wm_name) {
            PropertyAction::Title
        } else if client && e.atom == known.wm_hints {
            PropertyAction::Hints
        } else {
            PropertyAction::Nothing
        }
    }
}

/// A window's opacity out of the reply for it, `u32::MAX` for an opaque one;
/// `None` where the property is missing or empty.
pub fn read_window_opacity(reply: &Option<Property>) -> (r: Option<u32>)
    ensures
        exists|v: Option<Seq<u32>>| #[trigger]
            holds_words(*reply, v) && r == (if v is Some && v->0.len() > 0 {
                Some(v->0[0])
            } else {
                None
            }),
{
    let words: Option<Vec<u32>> = reply_words(reply);
    let r: Option<u32> = match &words {
        Some(v) => if v.len() > 0 {
            Some(v[0])
        } else {
            None
        },
        None => None,
    };
    assert(holds_words(*reply, words_view(words)));
    r
}

// ---- Messages from clients --------------------------------------------------

/// What a message from a client asks for.
#[derive(Debug, Clone, Copy, PartialEq, Eq, Structural)]
pub enum MessageKind {
    Other,
    /// A change of `_NET_WM_STATE`.
    State,
    /// Show that workspace.
    View(usize),
    /// Give the window the focus.
    Activate,
    /// Close the window.
    Close,
}

pub open spec fn message_kind_of(type_: u32, first: u32, atoms: Atoms) -> MessageKind {
    if type_ == atoms.net_wm_state {
        MessageKind::State
    } else if type_ == atoms.net_current_desktop {
        MessageKind::View(first as usize)
    } else if type_ == atoms.net_active_window {
        MessageKind::Activate
    } else if type_ == atoms.net_close_window {
        MessageKind::Close
    } else {
        MessageKind::Other
    }
}

/// Sort a client's message by its type and the first word of its data.
pub fn message_kind(type_: u32, first: u32, atoms: &Atoms) -> (k: MessageKind)
    ensures
        k == message_kind_of(type_, first, *atoms),
{
    if type_ == atoms.net_wm_state {
        MessageKind::State
    } else if type_ == atoms.net_current_desktop {
        MessageKind::View(first as usize)
    } else if type_ == atoms.net_active_window {
        MessageKind::Activate
    } else if type_ == atoms.net_close_window {
        MessageKind::Close
    } else {
        MessageKind::Other
    }
}

/// A request to change a window's state: what to do with one or two states.
#[derive(Debug, Clone, Copy, PartialEq, Eq, Structural)]
pub struct StateMessage {
    pub window: WindowId,
    /// 0 removes, 1 adds, anything else toggles.
    pub action: u32,
    pub first: u32,
    pub second: u32,
}

impl StateMessage {
    pub open spec fn names(self, atom: u32) -> bool {
        self.first == atom || self.second == atom
    }

    /// What a state that is `cur` becomes.
    pub open spec fn resolved(self, cur: bool) -> bool {
        if self.action == 0 {
            false
        } else if self.action == 1 {
            true
        } else {
            !cur
        }
    }

    /// What an axis becomes; `None` where the message does not name it.
    pub open spec fn axis(self, atom: u32, cur: bool) -> Option<bool> {
        if self.names(atom) {
            Some(self.resolved(cur))
        } else {
            None
        }
    }

    fn mentions(&self, atom: u32) -> (b: bool)
        ensures
            b == self.names(atom),
    {
        self.first == atom || self.second == atom
    }

    fn resolve(&self, cur: bool) -> (b: bool)
        ensures
            b == self.resolved(cur),
    {
        if self.action == 0 {
            false
        } else if self.action == 1 {
            true
        } else {
            !cur
        }
    }

    fn resolve_axis(&self, atom: u32, cur: bool) -> (r: Option<bool>)
        ensures
            r == self.axis(atom, cur),
    {
        if self.mentions(atom) {
            Some(self.resolve(cur))
        } else {
            None
        }
    }
}

/// What is left to do after a change of a window's state.
#[derive(Debug, Clone, Copy, PartialEq, Eq, Structural)]
pub struct StateReply {
    /// The request for fullscreen was refused: tell the client its state.
    pub denied: bool,
    pub fullscreen: Option<FullscreenChange>,
    pub maximize: Option<MaximizeChange>,
}

/// The request asks for fullscreen, and the window's rules refuse that.
pub open spec fn fullscreen_denied(st: StateV, e: StateMessage, atoms: Atoms) -> bool {
    e.names(atoms.net_wm_state_fullscreen) && st.clients.contains_key(e.window)
        && st.clients[e.window].fullscreen_policy == FullscreenPolicy::Deny
}

/// The state after the fullscreen part of the request.
pub open spec fn after_fullscreen(st: StateV, e: StateMessage, atoms: Atoms, width: u32) -> StateV {
    if e.names(atoms.net_wm_state_fullscreen) && !fullscreen_denied(st, e, atoms) {
        fullscreen_set(
            st,
            e.window,
            e.resolved(st.client_on(e.window, WinFlags::FULLSCREEN)),
            width,
        )
    } else {
        st
    }
}

/// What is left to do after the fullscreen part of the request.
pub open spec fn fullscreen_change(st: StateV, e: StateMessage, atoms: Atoms) -> Option<
    FullscreenChange,
> {
    match at(st.clients, e.window) {
        Some(c) => if e.names(atoms.net_wm_state_fullscreen) && !fullscreen_denied(st, e, atoms)
            && c.fullscreen() != e.resolved(c.fullscreen()) {
            Some(
                FullscreenChange {
                    monitor: c.monitor,
                    workspace: c.workspace,
                    recenter: !fullscreened(c, e.resolved(c.fullscreen())).true_fullscreen(),
                },
            )
        } else {
            None
        },
        None => None,
    }
}

/// What the vertical axis becomes.
pub open spec fn vertical_of(st: StateV, e: StateMessage, atoms: Atoms) -> Option<bool> {
    e.axis(atoms.net_wm_state_maximized_vert, st.client_on(e.window, WinFlags::MAXIMIZED_V))
}

/// What the horizontal axis becomes.
pub open spec fn horizontal_of(st: StateV, e: StateMessage, atoms: Atoms) -> Option<bool> {
    e.axis(atoms.net_wm_state_maximized_horiz, st.client_on(e.window, WinFlags::MAXIMIZED_H))
}

/// The state after the maximization part of the request: each axis on its own.
pub open spec fn after_maximize(st: StateV, e: StateMessage, atoms: Atoms) -> StateV {
    maximized_set(st, e.window, vertical_of(st, e, atoms), horizontal_of(st, e, atoms))
}

/// What is left to do after the maximization part of the request.
pub open spec fn maximize_change(st: StateV, e: StateMessage, atoms: Atoms) -> Option<
    MaximizeChange,
> {
    let (v, h) = (vertical_of(st, e, atoms), horizontal_of(st, e, atoms));
    match at(st.clients, e.window) {
        Some(c) => if already_maximized(c, v, h) {
            None
        } else {
            Some(
                MaximizeChange {
                    monitor: c.monitor,
                    raise: maximized_client(c, v, h).maximized() && c.monitor < st.monitors.len()
                        && st.monitors[c.monitor as int].focused == Some(e.window),
                },
            )
        },
        None => None,
    }
}

/// The state after the attention part of the request. Attention is demanded,
/// never taken back, by a message.
pub open spec fn after_attention(st: StateV, e: StateMessage, atoms: Atoms) -> StateV {
    if e.names(atoms.net_wm_state_demands_attention) && st.clients.contains_key(e.window) {
        let c = st.clients[e.window];
        st.with_client(e.window, Client { flags: c.flags.with(WinFlags::URGENT), ..c })
    } else {
        st
    }
}

/// The state after the whole request.
pub open spec fn after_state_message(
    st: StateV,
    e: StateMessage,
    atoms: Atoms,
    width: u32,
) -> StateV {
    after_attention(after_maximize(after_fullscreen(st, e, atoms, width), e, atoms), e, atoms)
}

impl State {
    fn fullscreen_message(&mut self, e: &StateMessage, atoms: &Atoms, width: u32) -> (r: (
        bool,
        Option<FullscreenChange>,
    ))
        requires
            old(self)@.clients.contains_key(e.window) ==> old(self)@.clients[e.window].window
                == e.window,
        ensures
            final(self)@ == after_fullscreen(old(self)@, *e, *atoms, width),
            r.0 == fullscreen_denied(old(self)@, *e, *atoms),
            r.1 == fullscreen_change(old(self)@, *e, *atoms),
    {
        if !e.mentions(atoms.net_wm_state_fullscreen) {
            return (false, None);
        }
        let (denied, cur): (bool, bool) = match self.clients.get(&e.window) {
            Some(c) => (c.denies_fullscreen(), c.is_fullscreen()),
            None => (false, false),
        };
        if denied {
            return (true, None);
        }
        let change: Option<FullscreenChange> = self.set_fullscreen(
            e.window,
            e.resolve(cur),
            width,
        );
        (false, change)
    }

    fn maximize_message(&mut self, e: &StateMessage, atoms: &Atoms) -> (r: Option<MaximizeChange>)
        ensures
            final(self)@ == after_maximize(old(self)@, *e, *atoms),
            r == maximize_change(old(self)@, *e, *atoms),
    {
        let (v, h): (bool, bool) = match self.clients.get(&e.window) {
            Some(c) => (c.is_maximized_v(), c.is_maximized_h()),
            None => (false, false),
        };
        self.set_maximized(
            e.window,
            e.resolve_axis(atoms.net_wm_state_maximized_vert, v),
            e.resolve_axis(atoms.net_wm_state_maximized_horiz, h),
        )
    }

    /// Carry out a client's request to change a window's state.
    pub fn on_state_message(&mut self, e: StateMessage, atoms: &Atoms, width: u32) -> (r: StateReply)
        requires
            old(self)@.clients.contains_key(e.window) ==> old(self)@.clients[e.window].window
                == e.window,
        ensures
            final(self)@ == after_state_message(old(self)@, e, *atoms, width),
            r == (StateReply {
                denied: fullscreen_denied(old(self)@, e, *atoms),
                fullscreen: fullscreen_change(old(self)@, e, *atoms),
                maximize: maximize_change(
                    after_fullscreen(old(self)@, e, *atoms, width),
                    e,
                    *atoms,
                ),
            }),
    {
        let (denied, fullscreen): (bool, Option<FullscreenChange>) = self.fullscreen_message(
            &e,
            atoms,
            width,
        );
        let maximize: Option<MaximizeChange> = self.maximize_message(&e, atoms);
        if e.mentions(atoms.net_wm_state_demands_attention) {
            let flags: Option<WinFlags> = match self.clients.get(&e.window) {
                Some(c) => Some(c.flags),
                None => None,
            };
            match flags {
                Some(f) => {
                    let mut f1: WinFlags = f;
                    f1.set(WinFlags::URGENT);
                    self.put_flags(e.window, f1);
                },
                None => {},
            }
        }
        StateReply { denied, fullscreen, maximize }
    }
}

/// A window whose rules refuse fullscreen to its application does not become
/// fullscreen by any message of it.
pub proof fn denied_fullscreen_stays_denied(
    st: StateV,
    e: StateMessage,
    atoms: Atoms,
    width: u32,
)
    requires
        st.clients.contains_key(e.window),
        st.clients[e.window].fullscreen_policy == FullscreenPolicy::Deny,
    ensures
        after_state_message(st, e, atoms, width).clients[e.window].fullscreen()
            == st.clients[e.window].fullscreen(),
{
    let c = st.clients[e.window];
    let b = c.flags.bits;
    assert((b | 4u16) & 2u16 == b & 2u16 && (b & !4u16) & 2u16 == b & 2u16) by (bit_vector);
    assert((b | 4u16 | 8u16) & 2u16 == b & 2u16 && ((b | 4u16) & !8u16) & 2u16 == b & 2u16 && ((b
        & !4u16) | 8u16) & 2u16 == b & 2u16 && ((b & !4u16) & !8u16) & 2u16 == b & 2u16)
        by (bit_vector);
    let m = after_maximize(st, e, atoms).clients[e.window];
    let mb = m.flags.bits;
    assert((mb | 32u16) & 2u16 == mb & 2u16) by (bit_vector);
}

/// Asking twice to add a state is asking once, and so is asking twice to remove
/// it; asking twice to toggle it leaves it as it was.
pub proof fn state_requests_repeat_well(e: StateMessage, cur: bool)
    ensures
        e.action <= 1 ==> e.resolved(e.resolved(cur)) == e.resolved(cur),
        e.action > 1 ==> e.resolved(e.resolved(cur)) == cur,
{
}

// ---- Requests for the focus -------------------------------------------------

/// An application's request for the focus is granted to a managed window of the
/// selected monitor, unless that would take the focus from an overlay on the
/// window's own workspace that the window does not belong to.
pub open spec fn may_activate(st: StateV, win: WindowId) -> bool {
    st.clients.contains_key(win) && {
        let c = st.clients[win];
        let mi = c.monitor as int;
        mi == st.sel_mon && (st.shows(mi) && st.monitors[mi].active_ws == c.workspace ==> match overlay_owner(st, mi) {
            Some(o) => o == win || owned_by(st.clients, win, seq![o]),
            None => true,
        })
    }
}

impl State {
    /// Decide an application's request for the focus. A granted request settles
    /// any focus that waits behind an overlay.
    pub fn on_activate(&mut self, win: WindowId) -> (granted: bool)
        ensures
            granted == may_activate(old(self)@, win),
            final(self)@ == (if granted {
                StateV { pending_focus: None, ..old(self)@ }
            } else {
                old(self)@
            }),
    {
        let (mi, wi): (usize, usize) = match self.clients.get(&win) {
            Some(c) => (c.monitor, c.workspace),
            None => {
                return false;
            },
        };
        if mi != self.sel_mon {
            return false;
        }
        let mut granted: bool = true;
        if mi < self.monitors.len() {
            assert(self@.monitors[mi as int] == self.monitors@[mi as int]@);
            if self.monitors[mi].active_ws < self.monitors[mi].workspaces.len()
                && self.monitors[mi].active_ws == wi {
                match self.presented_overlay_owner(mi) {
                    Some(o) => {
                        let roots: [WindowId; 1] = [o];
                        assert(roots@ =~= seq![o]);
                        granted = o == win || transient_chain_reaches(&self.clients, win, &roots);
                    },
                    None => {},
                }
            }
        }
        if granted {
            self.pending_focus = None;
        }
        granted
    }
}

/// No request takes the focus from an overlay for a window that does not belong
/// to it.
pub proof fn overlay_is_not_robbed_of_the_focus(st: StateV, win: WindowId, o: WindowId)
    requires
        st.clients.contains_key(win),
        st.shows(st.clients[win].monitor as int),
        st.monitors[st.clients[win].monitor as int].active_ws == st.clients[win].workspace,
        overlay_owner(st, st.clients[win].monitor as int) == Some(o),
        o != win,
        !owned_by(st.clients, win, seq![o]),
    ensures
        !may_activate(st, win),
{
}

/// A request never switches the selected monitor or a workspace: where it is
/// granted and the window is given the focus, both are as before.
pub proof fn granted_request_stays_on_the_monitor(st: StateV, win: WindowId)
    requires
        may_activate(st, win),
    ensures
        ({
            let after = focus_started(
                StateV { pending_focus: None, ..st },
                Some(win),
            ).1;
            &&& after.sel_mon == st.sel_mon
            &&& after.monitors.len() == st.monitors.len()
            &&& forall|i: int|
                0 <= i < st.monitors.len() ==> (#[trigger] after.monitors[i]).active_ws
                    == st.monitors[i].active_ws
        }),
{
}

// ---- Crossings and focus changes --------------------------------------------

/// A pointer crossing counts when no grab caused it and the pointer did not just
/// leave for a child window.
pub open spec fn crossing_counts_of(mode: u8, detail: u8) -> bool {
    mode == 0 && detail != 2
}

pub fn crossing_counts(mode: u8, detail: u8) -> (b: bool)
    ensures
        b == crossing_counts_of(mode, detail),
{
    mode == normal_mode() && detail != notify_details().inferior
}

/// A focus change counts when no grab caused it and it is neither to a child
/// window nor one that the pointer carries.
pub open spec fn focus_change_counts_of(mode: u8, detail: u8) -> bool {
    mode == 0 && detail != 2 && detail != 5
}

pub fn focus_change_counts(mode: u8, detail: u8) -> (b: bool)
    ensures
        b == focus_change_counts_of(mode, detail),
{
    let d: DetailNumbers = notify_details();
    mode == normal_mode() && detail != d.inferior && detail != d.pointer
}

/// How the pointer steers the focus.
#[derive(Debug, Clone, Copy, PartialEq, Eq, Structural)]
pub struct PointerFocus {
    /// The focus follows the pointer.
    pub enabled: bool,
    /// Until then, in milliseconds, the keyboard has just spoken and the pointer
    /// is not listened to.
    pub guard_until: Option<u64>,
}

impl PointerFocus {
    pub open spec fn listens(self, now: u64) -> bool {
        self.enabled && match self.guard_until {
            Some(t) => now >= t,
            None => true,
        }
    }

    /// The keyboard moved the focus: ignore the pointer for 50 ms.
    pub fn guard(&mut self, now: u64)
        requires
            now <= u64::MAX - 50,
        ensures
            *final(self) == (PointerFocus { guard_until: Some((now + 50) as u64), ..*old(self) }),
    {
        self.guard_until = Some(now + 50);
    }

    /// The pointer really moved: listen to it again.
    pub fn lift(&mut self)
        ensures
            *final(self) == (PointerFocus { guard_until: None, ..*old(self) }),
    {
        self.guard_until = None;
    }

    pub fn is_listening(&self, now: u64) -> (b: bool)
        ensures
            b == self.listens(now),
    {
        if !self.enabled {
            return false;
        }
        match self.guard_until {
            Some(t) => now >= t,
            None => true,
        }
    }
}

impl State {
    /// The window to focus when the pointer entered client `hit`, if any.
    pub fn on_enter(&self, p: &PointerFocus, now: u64, hit: Option<WindowId>) -> (r: Option<
        WindowId,
    >)
        requires
            self.sel_mon < self.monitors.len(),
        ensures
            r == (if p.listens(now) && hit is Some && self@.monitors[self.sel_mon as int].focused
                != hit {
                hit
            } else {
                None
            }),
    {
        assert(self@.monitors[self.sel_mon as int] == self.monitors@[self.sel_mon as int]@);
        if !p.is_listening(now) {
            return None;
        }
        match hit {
            Some(cw) => {
                if self.monitors[self.sel_mon].focused == Some(cw) {
                    None
                } else {
                    Some(cw)
                }
            },
            None => None,
        }
    }

    /// The server's input focus moved to `event`.
    pub fn on_focus_in(&mut self, event: WindowId, root: WindowId)
        ensures
            final(self)@ == (StateV {
                x11_input_focus: if event == root {
                    None
                } else {
                    Some(event)
                },
                ..old(self)@
            }),
    {
        self.x11_input_focus = if event == root { None } else { Some(event) };
    }

    /// The server's input focus left `event`.
    pub fn on_focus_out(&mut self, event: WindowId)
        ensures
            final(self)@ == (StateV {
                x11_input_focus: if old(self)@.x11_input_focus == Some(event) {
                    None
                } else {
                    old(self)@.x11_input_focus
                },
                ..old(self)@
            }),
    {
        if self.x11_input_focus == Some(event) {
            self.x11_input_focus = None;
        }
    }
}

/// A key press that moved the focus is not undone by the pointer resting where it
/// was, within 50 ms; a movement of the pointer ends that at once.
pub proof fn keyboard_outranks_a_resting_pointer(p: PointerFocus, now: u64, later: u64)
    requires
        now <= u64::MAX - 50,
        now <= later < now + 50,
    ensures
        !(PointerFocus { guard_until: Some((now + 50) as u64), ..p }).listens(later),
        (PointerFocus { guard_until: None, ..p }).listens(later) == p.enabled,
{
}

/// A mapping change concerns the keyboard, rather than the pointer's buttons.
pub fn on_mapping(request: u8) -> (b: bool)
    ensures
        b == (request == 0 || request == 1),
{
    let m: MappingNumbers = mapping_numbers();
    request == m.keyboard || request == m.modifier
}

// ---- What the events are for ------------------------------------------------

/// A floating client is granted each value that its request names, and keeps the
/// others: where the frame then lies in the work area, that is its geometry to the
/// pixel. Its border is the one it asked for, or the one it had.
pub proof fn float_gets_what_it_asks_for(st: StateV, e: ConfigureRequest)
    requires
        st.clients.contains_key(e.window),
        st.clients[e.window].floats(),
        !st.clients[e.window].fullscreen(),
        st.clients[e.window].monitor < st.monitors.len(),
        answerable(st, e),
    ensures
        ({
            let c = st.clients[e.window];
            let wa = st.monitors[c.monitor as int].workarea;
            let x = if e.mask & 1 != 0 {
                e.x as int
            } else {
                c.geom.x as int
            };
            let y = if e.mask & 2 != 0 {
                e.y as int
            } else {
                c.geom.y as int
            };
            let w = if e.mask & 4 != 0 {
                e.width as int
            } else {
                c.geom.w as int
            };
            let h = if e.mask & 8 != 0 {
                e.height as int
            } else {
                c.geom.h as int
            };
            let bw = if e.mask & 16 != 0 {
                e.border_width as int
            } else {
                c.border_w as int
            };
            &&& answer_to(st, e) matches ConfigureAnswer::Apply { geom, border } && border == bw
                && (1 <= w && 1 <= h && wa.x <= x && wa.y <= y && x + w + 2 * bw <= wa.x + wa.w
                && y + h + 2 * bw <= wa.y + wa.h ==> geom.x == x && geom.y == y && geom.w == w
                && geom.h == h)
        }),
{
    mask_bits(e.mask);
    let c = st.clients[e.window];
    let wa = st.monitors[c.monitor as int].workarea;
    let g = requested(e, c.geom);
    let bw = requested_border(e, c.border_w);
    if g.w >= 1 && g.h >= 1 && crate::floats::frame_fits(g, wa, bw) {
        crate::floats::fitting_float_is_untouched(g, wa, bw);
    }
}

proof fn mask_bits(m: u16)
    ensures
        m & 1 == 1 <==> m & 1 != 0,
        m & 2 == 2 <==> m & 2 != 0,
        m & 4 == 4 <==> m & 4 != 0,
        m & 8 == 8 <==> m & 8 != 0,
        m & 16 == 16 <==> m & 16 != 0,
{
    assert((m & 1 == 1 <==> m & 1 != 0) && (m & 2 == 2 <==> m & 2 != 0) && (m & 4 == 4 <==> m & 4
        != 0) && (m & 8 == 8 <==> m & 8 != 0) && (m & 16 == 16 <==> m & 16 != 0)) by (bit_vector);
}

/// A request for a window that is not managed is passed on value by value: each one
/// that it names, and no other.
pub proof fn foreign_request_is_passed_on(st: StateV, e: ConfigureRequest)
    requires
        !st.clients.contains_key(e.window),
    ensures
        answer_to(st, e) matches ConfigureAnswer::Pass { x, y, width, height, border_width } && (
        x is Some <==> e.mask & 1 != 0) && (y is Some <==> e.mask & 2 != 0) && (width is Some
            <==> e.mask & 4 != 0) && (height is Some <==> e.mask & 8 != 0) && (border_width is Some
            <==> e.mask & 16 != 0) && (x is Some ==> x->0 == e.x) && (y is Some ==> y->0 == e.y)
            && (width is Some ==> width->0 == e.width) && (height is Some ==> height->0
            == e.height) && (border_width is Some ==> border_width->0 == e.border_width),
{
    mask_bits(e.mask);
}

/// A tiled or fullscreen client that asks for geometry is told the one it has.
pub proof fn refused_client_is_told_what_it_has(st: StateV, e: ConfigureRequest)
    requires
        st.clients.contains_key(e.window),
        !st.clients[e.window].floats() || st.clients[e.window].fullscreen(),
        ({
            let c = st.clients[e.window];
            &&& -32768 <= c.geom.x <= 32767 && -32768 <= c.geom.y <= 32767
            &&& c.geom.w <= 65535 && c.geom.h <= 65535 && c.border_w <= 65535
        }),
    ensures
        ({
            let c = st.clients[e.window];
            answer_to(st, e) matches ConfigureAnswer::Reassert(n) && n.x == c.geom.x && n.y
                == c.geom.y && n.width == c.geom.w && n.height == c.geom.h && n.border_width
                == c.border_w
        }),
{
}

/// A report is an observation: it changes the client that it is about and nothing
/// else, and only where the server sent it to the root window. A float is then where
/// it says it is, and any other window that strayed is put back where it belongs.
pub proof fn report_is_an_observation(
    st: StateV,
    applied: Map<WindowId, AppliedWindow>,
    e: ConfigureReport,
    root: WindowId,
)
    ensures
        ({
            let (after, r) = reaction_to(st, applied, e, root);
            let known = st.clients.contains_key(e.window);
            let c = st.clients[e.window];
            let d = after.clients[e.window];
            let heard = e.window != root && e.response_type & 0x80 == 0 && e.event == root;
            let strayed = known && applied.contains_key(e.window) && (applied[e.window].rect.x
                != e.x || applied[e.window].rect.y != e.y || applied[e.window].rect.w != e.width
                || applied[e.window].rect.h != e.height || applied[e.window].border_w
                != e.border_width);
            &&& e.window == root ==> r is Monitors
            &&& e.window != root && e.response_type & 0x80 != 0 ==> r is Ignore
            &&& !heard || !known ==> after == st
            &&& after == (StateV { clients: after.clients, ..st })
            &&& forall|x: WindowId|
                x != e.window && st.clients.contains_key(x) ==> #[trigger] after.clients[x]
                    == st.clients[x]
            &&& heard && strayed && c.floats() && !c.fullscreen() ==> d.geom == e.rect()
                && d.border_w == e.border_width
            &&& heard && strayed && (!c.floats() || c.fullscreen()) ==> d.geom == c.geom
                && d.border_w == c.border_w && d.geometry_dirty
            &&& heard && known && !strayed ==> d.geom == c.geom && d.border_w == c.border_w
                && d.geometry_dirty == c.geometry_dirty
            &&& heard && known ==> d.last_reported == Some(e.rect())
            &&& heard ==> (r matches ConfigureReaction::Observed { write, restack } && (write
                is Some <==> strayed) && (strayed ==> write == Some((d.geom, d.border_w)))
                && restack == Some(
                if e.above_sibling == 0 {
                    None
                } else {
                    Some(e.above_sibling)
                },
            ))
        }),
{
    assert(e.rect().x == e.x && e.rect().y == e.y && e.rect().w == e.width && e.rect().h
        == e.height);
}

/// A change of a property is looked at for what it is: the root window's name is the
/// status, a strut that of a window that is no client, an opacity one that there is a
/// compositor for, a name and hints those of a client. A deletion matters only where
/// it takes back a strut or the status.
pub proof fn property_is_read_for_what_it_is(
    st: StateV,
    e: PropertyReport,
    root: WindowId,
    composited: bool,
    atoms: Atoms,
)
    requires
        atoms.net_wm_strut != 39,
        atoms.net_wm_strut_partial != 39,
        atoms.net_wm_window_opacity != 39,
        atoms.net_wm_window_opacity != 35,
        atoms.net_wm_window_opacity != atoms.net_wm_name,
        atoms.net_wm_name != 35,
        atoms.net_wm_name != 39,
        atoms.net_wm_strut != 35,
        atoms.net_wm_strut_partial != 35,
        atoms.net_wm_strut != atoms.net_wm_name,
        atoms.net_wm_strut_partial != atoms.net_wm_name,
        atoms.net_wm_strut != atoms.net_wm_window_opacity,
        atoms.net_wm_strut_partial != atoms.net_wm_window_opacity,
    ensures
        ({
            let r = property_action_of(st, e, root, composited, atoms);
            let client = st.clients.contains_key(e.window);
            &&& r == PropertyAction::Status <==> e.window == root && e.atom == 39
            &&& r == PropertyAction::Strut <==> !client && (e.atom == atoms.net_wm_strut || e.atom
                == atoms.net_wm_strut_partial)
            &&& r == PropertyAction::Opacity <==> e.state != 1 && composited && e.atom
                == atoms.net_wm_window_opacity
            &&& r == PropertyAction::Title <==> e.state != 1 && client && (e.atom
                == atoms.net_wm_name || (e.atom == 39 && e.window != root))
            &&& r == PropertyAction::Hints <==> e.state != 1 && client && e.atom == 35
        }),
{
}

/// A message is sorted by its type: a state to change, a workspace to show, a window
/// to focus, a window to close, and nothing else.
pub proof fn message_is_sorted_by_its_type(type_: u32, first: u32, atoms: Atoms)
    requires
        atoms.net_wm_state != atoms.net_current_desktop,
        atoms.net_wm_state != atoms.net_active_window,
        atoms.net_wm_state != atoms.net_close_window,
        atoms.net_current_desktop != atoms.net_active_window,
        atoms.net_current_desktop != atoms.net_close_window,
        atoms.net_active_window != atoms.net_close_window,
    ensures
        ({
            let k = message_kind_of(type_, first, atoms);
            &&& k is State <==> type_ == atoms.net_wm_state
            &&& k is View <==> type_ == atoms.net_current_desktop
            &&& k matches MessageKind::View(n) ==> n == first
            &&& k is Activate <==> type_ == atoms.net_active_window
            &&& k is Close <==> type_ == atoms.net_close_window
        }),
{
}

/// A message removes a state with 0, adds it with 1 and else toggles it: the window
/// is fullscreen afterwards just as that says, where its rules do not refuse that,
/// each axis that the message names is maximized just as it says and the others stay,
/// and a demand for attention is noted. A state that is not named stays, and no other
/// client changes.
pub proof fn state_message_does_what_it_says(
    st: StateV,
    e: StateMessage,
    atoms: Atoms,
    width: u32,
)
    requires
        st.clients.contains_key(e.window),
        st.clients[e.window].window == e.window,
        !st.clients[e.window].fullscreen() ==> !st.clients[e.window].flags.on(
            WinFlags::FS_WAS_FLOAT,
        ),
    ensures
        ({
            let c = st.clients[e.window];
            let after = after_state_message(st, e, atoms, width);
            let d = after.clients[e.window];
            let f = atoms.net_wm_state_fullscreen;
            let v = atoms.net_wm_state_maximized_vert;
            let h = atoms.net_wm_state_maximized_horiz;
            let a = atoms.net_wm_state_demands_attention;
            let may = c.fullscreen_policy != FullscreenPolicy::Deny;
            &&& may && (e.first == f || e.second == f) ==> d.flags.on(WinFlags::FULLSCREEN) == (
            e.action == 1 || (e.action > 1 && !c.flags.on(WinFlags::FULLSCREEN)))
            &&& !may || (e.first != f && e.second != f) ==> d.flags.on(WinFlags::FULLSCREEN)
                == c.flags.on(WinFlags::FULLSCREEN)
            &&& e.first == v || e.second == v ==> d.flags.on(WinFlags::MAXIMIZED_V) == (e.action
                == 1 || (e.action > 1 && !c.flags.on(WinFlags::MAXIMIZED_V)))
            &&& e.first != v && e.second != v ==> d.flags.on(WinFlags::MAXIMIZED_V) == c.flags.on(
                WinFlags::MAXIMIZED_V,
            )
            &&& e.first == h || e.second == h ==> d.flags.on(WinFlags::MAXIMIZED_H) == (e.action
                == 1 || (e.action > 1 && !c.flags.on(WinFlags::MAXIMIZED_H)))
            &&& e.first != h && e.second != h ==> d.flags.on(WinFlags::MAXIMIZED_H) == c.flags.on(
                WinFlags::MAXIMIZED_H,
            )
            &&& e.first == a || e.second == a ==> d.flags.on(WinFlags::URGENT)
            &&& forall|x: WindowId|
                x != e.window && st.clients.contains_key(x) ==> #[trigger] after.clients[x]
                    == st.clients[x]
        }),
{
    let c = st.clients[e.window];
    let s1 = after_fullscreen(st, e, atoms, width);
    let c1 = s1.clients[e.window];
    let b = c.flags.bits;
    assert({
        &&& (b | 2u16) & 2u16 != 0 && (b & !2u16) & 2u16 == 0
        &&& (b & !1u16 | 256u16 | 2u16) & 2u16 != 0
        &&& ((b | 1u16) & !256u16 & !2u16) & 2u16 == 0
        &&& (b | 2u16) & 4u16 == b & 4u16 && (b & !2u16) & 4u16 == b & 4u16 && (b & !1u16 | 256u16
            | 2u16) & 4u16 == b & 4u16 && ((b | 1u16) & !256u16 & !2u16) & 4u16 == b & 4u16
        &&& (b | 2u16) & 8u16 == b & 8u16 && (b & !2u16) & 8u16 == b & 8u16 && (b & !1u16 | 256u16
            | 2u16) & 8u16 == b & 8u16 && ((b | 1u16) & !256u16 & !2u16) & 8u16 == b & 8u16
    }) by (bit_vector);
    assert(s1.clients.contains_key(e.window));
    let s2 = after_maximize(s1, e, atoms);
    crate::fullscreen::axes_become_what_is_asked(
        s1,
        e.window,
        vertical_of(s1, e, atoms),
        horizontal_of(s1, e, atoms),
    );
    let d2 = s2.clients[e.window];
    crate::model::flag_is_as_it_was_set(d2.flags, WinFlags::URGENT);
    crate::model::flags_have_bits_of_their_own();
    let u = d2.flags.bits;
    assert((u | 32u16) & 2u16 == u & 2u16 && (u | 32u16) & 4u16 == u & 4u16 && (u | 32u16) & 8u16
        == u & 8u16) by (bit_vector);
}

/// A request for the focus of a managed window on the selected monitor is granted
/// where no overlay is on show there, for the overlay itself and for its own dialogs,
/// and for a window of another workspace; one of another monitor never is.
pub proof fn request_without_an_overlay_is_granted(st: StateV, win: WindowId)
    requires
        st.clients.contains_key(win),
    ensures
        ({
            let c = st.clients[win];
            let here = c.monitor == st.sel_mon;
            &&& !here ==> !may_activate(st, win)
            &&& here && st.shows(st.sel_mon) && overlay_owner(st, st.sel_mon) is None
                ==> may_activate(st, win)
            &&& here && st.shows(st.sel_mon) && overlay_owner(st, st.sel_mon) == Some(win)
                ==> may_activate(st, win)
            &&& here && st.shows(st.sel_mon) && st.monitors[st.sel_mon].active_ws != c.workspace
                ==> may_activate(st, win)
            &&& here && overlay_owner(st, st.sel_mon) is Some && owned_by(
                st.clients,
                win,
                seq![overlay_owner(st, st.sel_mon)->0],
            ) ==> may_activate(st, win)
        }),
{
}

/// Only crossings and focus changes of the pointer's and the keyboard's own count:
/// none that a grab caused, and none that only concerns a child window or, for the
/// focus, the window that the pointer is in.
pub proof fn grabs_and_children_do_not_count(mode: u8, detail: u8)
    ensures
        crossing_counts_of(mode, detail) <==> mode == 0 && detail != 2,
        focus_change_counts_of(mode, detail) <==> mode == 0 && detail != 2 && detail != 5,
{
}

/// The pointer is listened to just where the focus follows it and no key press has
/// spoken in the meantime.
pub proof fn pointer_is_heard_once_the_guard_is_over(p: PointerFocus, now: u64)
    ensures
        !p.enabled ==> !p.listens(now),
        p.enabled && p.guard_until is None ==> p.listens(now),
        p.enabled && p.guard_until is Some ==> p.listens(now) == (now >= p.guard_until->0),
{
}

} // verus!
