//! The pointer: what a click does to the focus and to an overlay, and the wheel
//! along the ribbon.

use crate::config::Dir;
use crate::docks::{covered, monitor_under, monitor_under_is};
use crate::focus::warp_point;
use crate::geom::Rect;
use crate::keyboard::{clean_mask, cleaned};
use crate::model::WindowId;
use crate::state::{PendingFocus, State, StateV};
use crate::transient::{owned_by, transient_chain_reaches};
use crate::workspace::{Focus, Workspace, WorkspaceV};
use crate::xproto::modifier_bits;
use vstd::prelude::*;

verus! {

broadcast use vstd::std_specs::hash::group_hash_axioms;

// ---- Where the pointer is ---------------------------------------------------

/// The first monitor under the point, or the selected one if there is none.
pub open spec fn pointed_monitor(st: StateV, px: int, py: int) -> int {
    if covered(st.monitors, px, py) {
        monitor_under(st.monitors, px, py)
    } else {
        st.sel_mon
    }
}

impl State {
    pub(crate) fn monitor_at(&self, px: i32, py: i32) -> (mi: usize)
        requires
            self.sel_mon < self.monitors.len(),
        ensures
            mi == pointed_monitor(self@, px as int, py as int),
            mi < self.monitors.len(),
    {
        let mi: usize = self.mon_at(px, py);
        proof {
            let ms = self@.monitors;
            if covered(ms, px as int, py as int) {
                let k = choose|k: int|
                    0 <= k < ms.len() && (#[trigger] ms[k]).screen.covers(px as int, py as int);
                assert(ms[k].screen.covers(px as int, py as int));
                monitor_under_is(ms, px as int, py as int, mi as int);
            } else if mi < ms.len() {
                assert(!ms[mi as int].screen.covers(px as int, py as int));
            }
        }
        mi
    }
}

// ---- Clicks -----------------------------------------------------------------

/// A press of a pointer button.
#[derive(Debug, Clone, Copy, PartialEq, Eq, Structural)]
pub struct Press {
    pub button: u8,
    /// Modifiers and buttons held.
    pub state: u16,
    pub root_x: i16,
    pub root_y: i16,
    /// The root window itself was hit, rather than one of its children.
    pub on_root: bool,
}

/// What a press asks for before the focus is looked at.
#[derive(Debug, Clone, Copy, PartialEq, Eq, Structural)]
pub enum PressKind {
    /// A notch of the wheel for the application.
    Replay,
    /// A notch of the wheel with Super held: move along the ribbon.
    Ribbon(Dir),
    /// A button.
    Click,
}

/// The buttons from the fourth on are the wheel's.
pub open spec fn press_kind_of(p: Press, numlock: u16) -> PressKind {
    if p.button < 4 {
        PressKind::Click
    } else if cleaned(p.state, numlock) == 64 {
        PressKind::Ribbon(wheel_dir_of(p.button))
    } else {
        PressKind::Replay
    }
}

/// Wheel down and wheel right move to the next column, everything else to the
/// previous one.
pub open spec fn wheel_dir_of(button: u8) -> Dir {
    if button == 5 || button == 7 {
        Dir::Right
    } else {
        Dir::Left
    }
}

impl Press {
    pub fn kind(&self, numlock: u16) -> (k: PressKind)
        ensures
            k == press_kind_of(*self, numlock),
    {
        if self.button < 4 {
            return PressKind::Click;
        }
        if clean_mask(self.state, numlock) == modifier_bits().m4 {
            let dir: Dir = if self.button == 5 || self.button == 7 {
                Dir::Right
            } else {
                Dir::Left
            };
            PressKind::Ribbon(dir)
        } else {
            PressKind::Replay
        }
    }
}

/// What a click does.
#[derive(Debug, Clone, Copy, PartialEq, Eq, Structural)]
pub enum ClickOutcome {
    /// Focus and presentation stay.
    Keep,
    /// Focus the window, or none.
    Focus(Option<WindowId>),
    /// Take `overlay` down, out of fullscreen or else out of its maximized
    /// presentation, and focus `window`.
    Dismiss { overlay: WindowId, fullscreen: bool, window: WindowId },
    /// The same for a window that waited behind the overlay: the click has
    /// served its purpose and is not handed on.
    DismissForPending { overlay: WindowId, fullscreen: bool, window: WindowId },
}

/// The focused window of monitor `mi` is fullscreen.
pub open spec fn focus_is_fullscreen(st: StateV, mi: int) -> bool {
    match st.monitors[mi].focused {
        Some(fw) => st.clients.contains_key(fw) && st.clients[fw].fullscreen(),
        None => false,
    }
}

/// The focused window of monitor `mi` is fullscreen or presented maximized.
pub open spec fn focus_is_presented(st: StateV, mi: int) -> bool {
    let m = st.monitors[mi];
    ||| focus_is_fullscreen(st, mi)
    ||| m.focused is Some && m.shows() && m.ws().presented_maximize == m.focused
}

/// The window that waits behind the overlay `fw` of monitor `mi`, if a managed
/// one does.
pub open spec fn waiting_behind(st: StateV, mi: int, fw: WindowId) -> Option<WindowId> {
    match st.pending_focus {
        Some(pf) => if pf.monitor == mi && pf.workspace == st.monitors[mi].active_ws && pf.owner
            == fw && pf.window != fw && st.clients.contains_key(pf.window) {
            Some(pf.window)
        } else {
            None
        },
        None => None,
    }
}

/// What a click on client `hit` (none: outside every client) does.
///
/// Without an overlay the window that was hit takes the focus. With one, a click
/// on another application takes it down, a click on one of its own dialogs keeps
/// it, and a click on the overlay itself keeps it unless a window waits behind
/// it.
pub open spec fn click_outcome(
    st: StateV,
    mi: int,
    hit: Option<WindowId>,
    on_root: bool,
) -> ClickOutcome {
    let focused = st.monitors[mi].focused;
    let fs = focus_is_fullscreen(st, mi);
    match hit {
        None => if on_root && !focus_is_presented(st, mi) {
            ClickOutcome::Focus(None)
        } else {
            ClickOutcome::Keep
        },
        Some(cw) => match focused {
            Some(fw) => if !focus_is_presented(st, mi) {
                if fw == cw {
                    ClickOutcome::Keep
                } else {
                    ClickOutcome::Focus(Some(cw))
                }
            } else if fw != cw {
                if owned_by(st.clients, cw, seq![fw]) {
                    ClickOutcome::Focus(Some(cw))
                } else {
                    ClickOutcome::Dismiss { overlay: fw, fullscreen: fs, window: cw }
                }
            } else {
                match waiting_behind(st, mi, fw) {
                    Some(w) => ClickOutcome::DismissForPending {
                        overlay: fw,
                        fullscreen: fs,
                        window: w,
                    },
                    None => ClickOutcome::Keep,
                }
            },
            None => ClickOutcome::Focus(Some(cw)),
        },
    }
}

/// What is known once a click has been looked at.
#[derive(Debug, Clone, Copy, PartialEq, Eq, Structural)]
pub struct Click {
    /// The monitor under the pointer, now the selected one.
    pub monitor: usize,
    /// The window of the monitor left behind, to be drawn unfocused.
    pub left: Option<WindowId>,
    /// The window that had the focus on this monitor.
    pub before: Option<WindowId>,
    /// It was fullscreen: no drag starts over it.
    pub over_fullscreen: bool,
    pub outcome: ClickOutcome,
}

/// The state once a click has been looked at: the monitor under the pointer is
/// selected, and a deferral that the click resolves is gone.
pub open spec fn clicked_state(st: StateV, mi: int, outcome: ClickOutcome) -> StateV {
    StateV {
        sel_mon: mi,
        pending_focus: if outcome is DismissForPending {
            None
        } else {
            st.pending_focus
        },
        ..st
    }
}

impl State {
    fn is_presented_focus(&self, mi: usize) -> (r: (bool, bool))
        requires
            mi < self.monitors.len(),
        ensures
            r.0 == focus_is_fullscreen(self@, mi as int),
            r.1 == focus_is_presented(self@, mi as int),
    {
        assert(self@.monitors[mi as int] == self.monitors@[mi as int]@);
        match self.monitors[mi].focused {
            None => (false, false),
            Some(fw) => {
                let fs: bool = match self.clients.get(&fw) {
                    Some(c) => c.is_fullscreen(),
                    None => false,
                };
                let wi: usize = self.monitors[mi].active_ws;
                let max: bool = if wi < self.monitors[mi].workspaces.len() {
                    self.monitors[mi].workspaces[wi].presented_maximize == Some(fw)
                } else {
                    false
                };
                (fs, fs || max)
            },
        }
    }

    fn pending_behind(&self, mi: usize, fw: WindowId) -> (r: Option<WindowId>)
        requires
            mi < self.monitors.len(),
        ensures
            r == waiting_behind(self@, mi as int, fw),
    {
        assert(self@.monitors[mi as int] == self.monitors@[mi as int]@);
        match self.pending_focus {
            Some(pf) => {
                if pf.monitor == mi && pf.workspace == self.monitors[mi].active_ws && pf.owner == fw
                    && pf.window != fw && self.clients.contains_key(&pf.window) {
                    Some(pf.window)
                } else {
                    None
                }
            },
            None => None,
        }
    }

    /// What a click on client `hit` does.
    pub fn decide_click(&self, mi: usize, hit: Option<WindowId>, on_root: bool) -> (r: ClickOutcome)
        requires
            mi < self.monitors.len(),
        ensures
            r == click_outcome(self@, mi as int, hit, on_root),
    {
        let (fs, presented): (bool, bool) = self.is_presented_focus(mi);
        assert(self@.monitors[mi as int] == self.monitors@[mi as int]@);
        let focused: Option<WindowId> = self.monitors[mi].focused;
        match hit {
            None => {
                if on_root && !presented {
                    ClickOutcome::Focus(None)
                } else {
                    ClickOutcome::Keep
                }
            },
            Some(cw) => match focused {
                None => ClickOutcome::Focus(Some(cw)),
                Some(fw) => {
                    if !presented {
                        if fw == cw {
                            ClickOutcome::Keep
                        } else {
                            ClickOutcome::Focus(Some(cw))
                        }
                    } else if fw != cw {
                        let roots: [WindowId; 1] = [fw];
                        assert(roots@ =~= seq![fw]);
                        if transient_chain_reaches(&self.clients, cw, &roots) {
                            ClickOutcome::Focus(Some(cw))
                        } else {
                            ClickOutcome::Dismiss { overlay: fw, fullscreen: fs, window: cw }
                        }
                    } else {
                        match self.pending_behind(mi, fw) {
                            Some(w) => ClickOutcome::DismissForPending {
                                overlay: fw,
                                fullscreen: fs,
                                window: w,
                            },
                            None => ClickOutcome::Keep,
                        }
                    }
                },
            },
        }
    }

    /// Look at a click on client `hit`: select the monitor under the pointer and
    /// decide what becomes of the focus.
    pub fn on_click(&mut self, p: Press, hit: Option<WindowId>) -> (r: Click)
        requires
            old(self).sel_mon < old(self).monitors.len(),
        ensures
            ({
                let st = old(self)@;
                let mi = pointed_monitor(st, p.root_x as int, p.root_y as int);
                let outcome = click_outcome(st, mi, hit, p.on_root);
                &&& r == (Click {
                    monitor: mi as usize,
                    left: if mi != st.sel_mon {
                        st.monitors[st.sel_mon].focused
                    } else {
                        None
                    },
                    before: st.monitors[mi].focused,
                    over_fullscreen: focus_is_fullscreen(st, mi),
                    outcome,
                })
                &&& final(self)@ == clicked_state(st, mi, outcome)
            }),
    {
        let mi: usize = self.monitor_at(p.root_x as i32, p.root_y as i32);
        proof {
            assert(self@.monitors[mi as int] == self.monitors@[mi as int]@);
            assert(self@.monitors[self.sel_mon as int] == self.monitors@[self.sel_mon as int]@);
        }
        let left: Option<WindowId> = if mi != self.sel_mon {
            self.monitors[self.sel_mon].focused
        } else {
            None
        };
        let before: Option<WindowId> = self.monitors[mi].focused;
        let (fs, _): (bool, bool) = self.is_presented_focus(mi);
        let outcome: ClickOutcome = self.decide_click(mi, hit, p.on_root);
        self.sel_mon = mi;
        match outcome {
            ClickOutcome::DismissForPending { .. } => {
                self.pending_focus = None;
            },
            _ => {},
        }
        Click { monitor: mi, left, before, over_fullscreen: fs, outcome }
    }

    /// Where to warp the pointer after a click: onto the middle of the window
    /// that the click focused, so that the next click does not land on whatever
    /// scrolled under the pointer.
    pub fn warp_after_click(&self, click: &Click, dragging: bool) -> (r: Option<(WindowId, i16, i16)>)
        requires
            click.monitor < self.monitors.len(),
        ensures
            r == ({
                let now = self@.monitors[click.monitor as int].focused;
                if !dragging && now is Some && now != click.before && self@.clients.contains_key(
                    now->0,
                ) {
                    let g = self@.clients[now->0].geom;
                    Some((now->0, (g.w / 2) as i16, (g.h / 2) as i16))
                } else {
                    None
                }
            }),
    {
        assert(self@.monitors[click.monitor as int] == self.monitors@[click.monitor as int]@);
        if dragging {
            return None;
        }
        match self.monitors[click.monitor].focused {
            Some(fw) => {
                if click.before == Some(fw) {
                    return None;
                }
                match self.clients.get(&fw) {
                    Some(c) => {
                        let p: (i16, i16) = warp_point(c.geom);
                        Some((fw, p.0, p.1))
                    },
                    None => None,
                }
            },
            None => None,
        }
    }
}

impl Click {
    /// Whether the press is handed on to the application rather than swallowed:
    /// not when it started a drag, nor when it made way for a waiting window.
    pub fn replays(&self, dragging: bool) -> (b: bool)
        ensures
            b == (!dragging && !(self.outcome is DismissForPending)),
    {
        match self.outcome {
            ClickOutcome::DismissForPending { .. } => false,
            _ => !dragging,
        }
    }
}

/// A click on an overlay, or on one of its own dialogs, never takes it down,
/// unless a window waits behind it.
pub proof fn overlay_survives_its_own_clicks(st: StateV, mi: int, fw: WindowId, hit: WindowId)
    requires
        0 <= mi < st.monitors.len(),
        st.monitors[mi].focused == Some(fw),
        focus_is_presented(st, mi),
        hit == fw || owned_by(st.clients, hit, seq![fw]),
        waiting_behind(st, mi, fw) is None,
    ensures
        !(click_outcome(st, mi, Some(hit), false) is Dismiss),
        !(click_outcome(st, mi, Some(hit), false) is DismissForPending),
{
}

/// A window that waits behind an overlay is reached by one click on the overlay,
/// and it waits no longer.
pub proof fn waiting_window_is_reached_by_a_click(
    st: StateV,
    mi: int,
    fw: WindowId,
    pf: PendingFocus,
)
    requires
        0 <= mi < st.monitors.len(),
        st.monitors[mi].focused == Some(fw),
        focus_is_presented(st, mi),
        st.pending_focus == Some(pf),
        pf.monitor == mi,
        pf.workspace == st.monitors[mi].active_ws,
        pf.owner == fw,
        pf.window != fw,
        st.clients.contains_key(pf.window),
    ensures
        ({
            let o = click_outcome(st, mi, Some(fw), false);
            &&& o == (ClickOutcome::DismissForPending {
                overlay: fw,
                fullscreen: focus_is_fullscreen(st, mi),
                window: pf.window,
            })
            &&& clicked_state(st, mi, o).pending_focus is None
        }),
{
}

// ---- The ribbon under the wheel ---------------------------------------------

/// The visible part of the column extent `e` holds `px`.
pub open spec fn extent_holds(e: (i32, i32), wa: Rect, px: int) -> bool {
    let l = if e.0 < wa.x {
        wa.x as int
    } else {
        e.0 as int
    };
    let r = if e.1 > wa.right_edge() {
        wa.right_edge()
    } else {
        e.1 as int
    };
    l < r && l <= px <= r
}

/// The first column whose visible part holds `px`. The extents are the left and
/// right edges of the columns on the screen, in pixels.
pub fn column_at(extents: &Vec<(i32, i32)>, wa: Rect, px: i32) -> (r: Option<usize>)
    ensures
        match r {
            Some(i) => i < extents.len() && extent_holds(extents@[i as int], wa, px as int)
                && forall|j: int|
                0 <= j < i ==> !extent_holds(#[trigger] extents@[j], wa, px as int),
            None => forall|j: int|
                0 <= j < extents.len() ==> !extent_holds(#[trigger] extents@[j], wa, px as int),
        },
{
    let mut i: usize = 0;
    while i < extents.len()
        invariant
            i <= extents.len(),
            forall|j: int| 0 <= j < i ==> !extent_holds(#[trigger] extents@[j], wa, px as int),
        decreases extents.len() - i,
    {
        let e: (i32, i32) = extents[i];
        let far: i64 = wa.x as i64 + wa.w as i64;
        let l: i64 = if e.0 < wa.x { wa.x as i64 } else { e.0 as i64 };
        let r: i64 = if e.1 as i64 > far { far } else { e.1 as i64 };
        if l < r && l <= px as i64 && px as i64 <= r {
            return Some(i);
        }
        i = i + 1;
    }
    None
}

impl State {
    /// Put the ribbon's focus on column `ci` of the workspace on show. Returns
    /// the window to focus, if the column has one.
    pub fn focus_column(&mut self, mi: usize, ci: usize) -> (r: Option<WindowId>)
        requires
            old(self)@.shows(mi as int),
            ci < old(self)@.monitors[mi as int].ws().columns.len(),
        ensures
            ({
                let m = old(self)@.monitors[mi as int];
                &&& final(self)@ == old(self)@.with_mon(
                    mi as int,
                    m.with_ws(m.active_ws, WorkspaceV { column_idx: ci as int, ..m.ws() }),
                )
                &&& r == m.ws().columns[ci as int].focused_win()
            }),
    {
        assert(self@.monitors[mi as int] == self.monitors@[mi as int]@);
        let wi: usize = self.monitors[mi].active_ws;
        let mut w: Workspace = self.monitors[mi].workspaces[wi].copy();
        assert(w@ == self@.monitors[mi as int].ws());
        w.focus = Focus { column_idx: ci };
        assert(w@.columns[ci as int] == w.columns@[ci as int]@);
        let r: Option<WindowId> = w.columns[ci].focused_win();
        self.put_workspace(mi, wi, w);
        r
    }
}

// ---- What a click is for ----------------------------------------------------

/// The buttons of the pointer click. The wheel is the application's, unless Super
/// alone is held, whatever the locks: then down and right go to the next column and
/// up and left to the one before.
pub proof fn wheel_walks_the_ribbon_with_super(p: Press, numlock: u16)
    ensures
        p.button <= 3 ==> press_kind_of(p, numlock) == PressKind::Click,
        p.button >= 4 && cleaned(p.state, numlock) != 64 ==> press_kind_of(p, numlock)
            == PressKind::Replay,
        (p.button == 5 || p.button == 7) && cleaned(p.state, numlock) == 64 ==> press_kind_of(
            p,
            numlock,
        ) == PressKind::Ribbon(Dir::Right),
        (p.button == 4 || p.button == 6) && cleaned(p.state, numlock) == 64 ==> press_kind_of(
            p,
            numlock,
        ) == PressKind::Ribbon(Dir::Left),
{
}

/// The monitor under the pointer is the one whose screen has it, and the selected
/// one where none does.
pub proof fn pointed_monitor_is_under_the_pointer(st: StateV, px: int, py: int, k: int)
    requires
        0 <= k < st.monitors.len(),
        st.monitors[k].screen.covers(px, py),
        forall|j: int|
            0 <= j < st.monitors.len() && j != k ==> !(#[trigger] st.monitors[j]).screen.covers(
                px,
                py,
            ),
    ensures
        pointed_monitor(st, px, py) == k,
{
    monitor_under_is(st.monitors, px, py, k);
}

/// Off every screen the selected monitor counts as the one under the pointer.
pub proof fn pointer_off_the_screens_stays(st: StateV, px: int, py: int)
    requires
        forall|j: int|
            0 <= j < st.monitors.len() ==> !(#[trigger] st.monitors[j]).screen.covers(px, py),
    ensures
        pointed_monitor(st, px, py) == st.sel_mon,
{
}

/// The focused window of a monitor is presented just where it is a fullscreen
/// client or the maximized window on show.
pub proof fn presented_focus_is_fullscreen_or_maximized(st: StateV, mi: int)
    ensures
        ({
            let m = st.monitors[mi];
            let fs = m.focused is Some && st.clients.contains_key(m.focused->0)
                && st.clients[m.focused->0].flags.on(crate::model::WinFlags::FULLSCREEN);
            &&& focus_is_fullscreen(st, mi) <==> fs
            &&& focus_is_presented(st, mi) <==> fs || (m.focused is Some && 0 <= m.active_ws
                < m.workspaces.len() && m.workspaces[m.active_ws].presented_maximize == m.focused)
        }),
{
}

/// A click on a client focuses it, as long as it has not the focus already and no
/// overlay is in the way. A click on the root window takes the focus from a window
/// that is no overlay, and one elsewhere outside all clients does nothing.
pub proof fn click_focuses_what_it_hits(st: StateV, mi: int, hit: WindowId, on_root: bool)
    requires
        0 <= mi < st.monitors.len(),
        !focus_is_presented(st, mi),
    ensures
        st.monitors[mi].focused != Some(hit) ==> click_outcome(st, mi, Some(hit), on_root)
            == ClickOutcome::Focus(Some(hit)),
        st.monitors[mi].focused == Some(hit) ==> click_outcome(st, mi, Some(hit), on_root)
            == ClickOutcome::Keep,
        click_outcome(st, mi, None, true) == ClickOutcome::Focus(None),
        click_outcome(st, mi, None, false) == ClickOutcome::Keep,
{
}

/// A click on another application takes an overlay down, out of fullscreen where it
/// is fullscreen, and focuses what was hit; a click on one of the overlay's dialogs
/// focuses the dialog and leaves the overlay; a click outside all clients, or on the
/// overlay itself with nothing behind it, changes nothing.
pub proof fn click_past_an_overlay_takes_it_down(
    st: StateV,
    mi: int,
    fw: WindowId,
    hit: WindowId,
    on_root: bool,
)
    requires
        0 <= mi < st.monitors.len(),
        st.monitors[mi].focused == Some(fw),
        focus_is_presented(st, mi),
    ensures
        hit != fw && !owned_by(st.clients, hit, seq![fw]) ==> click_outcome(
            st,
            mi,
            Some(hit),
            on_root,
        ) == (ClickOutcome::Dismiss {
            overlay: fw,
            fullscreen: focus_is_fullscreen(st, mi),
            window: hit,
        }),
        hit != fw && owned_by(st.clients, hit, seq![fw]) ==> click_outcome(
            st,
            mi,
            Some(hit),
            on_root,
        ) == ClickOutcome::Focus(Some(hit)),
        click_outcome(st, mi, None, on_root) == ClickOutcome::Keep,
        (st.pending_focus is None || st.pending_focus->0.owner != fw || st.pending_focus->0.monitor
            != mi || st.pending_focus->0.workspace != st.monitors[mi].active_ws
            || !st.clients.contains_key(st.pending_focus->0.window)) ==> click_outcome(
            st,
            mi,
            Some(fw),
            on_root,
        ) == ClickOutcome::Keep,
{
}

/// A click selects the monitor under it and nothing else; a focus that waits goes on
/// waiting, unless the click made way for it.
pub proof fn click_selects_its_monitor(st: StateV, mi: int, o: ClickOutcome)
    ensures
        ({
            let after = clicked_state(st, mi, o);
            &&& after.sel_mon == mi
            &&& o is DismissForPending ==> after.pending_focus is None
            &&& !(o is DismissForPending) ==> after.pending_focus == st.pending_focus
            &&& after == (StateV { sel_mon: mi, pending_focus: after.pending_focus, ..st })
        }),
{
}

/// A column is under the pointer just where a part of it that shows in the work area
/// has the pointer between its edges.
pub proof fn column_is_where_it_shows(e: (i32, i32), wa: Rect, px: int)
    ensures
        extent_holds(e, wa, px) ==> e.0 <= px <= e.1 && wa.x <= px <= wa.x + wa.w,
        e.0 < e.1 && e.0 <= px <= e.1 && wa.x < px < wa.x + wa.w ==> extent_holds(e, wa, px),
        e.1 <= wa.x || e.0 >= wa.x + wa.w ==> !extent_holds(e, wa, px),
{
}

} // verus!
