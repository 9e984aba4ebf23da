//! Input focus: what the window manager wants focused, what the server has
//! focused, and how the two are brought together.

use crate::ewmh::HubEvent;
use crate::geom::Rect;
use crate::model::{Client, WinFlags, WindowId};
use crate::overlay::{overlay_owner, synced};
use crate::seqs::{contains_window, first_index, first_index_props, position_of};
use crate::state::{MonitorV, State, StateV};
use crate::workspace::{column_views, ColumnV, WorkspaceV};
use vstd::prelude::*;

verus! {

broadcast use vstd::std_specs::hash::group_hash_axioms;

/// The first part of a focus change: what to tell the server at once.
#[derive(Debug, Clone, Copy, PartialEq, Eq, Structural)]
pub enum FocusStart {
    /// The window takes no focus, or its monitor is gone. Nothing changes.
    Refused,
    /// Give `win` the input focus.
    Window {
        win: WindowId,
        mon: usize,
        /// This window loses the focus: repaint its border, regrab its buttons.
        unfocus: Option<WindowId>,
        /// The focus reverts to the parent; otherwise to the pointer root.
        wants_input: bool,
        /// Paint the border in the urgent colour.
        urgent: bool,
        /// What is announced once it has the focus.
        announce: Option<HubEvent>,
    },
    /// Give the input focus to the root window.
    Root { unfocus: Option<WindowId>, announce: Option<HubEvent> },
}

/// `win` where it is a managed window.
pub open spec fn managed_only(st: StateV, win: Option<WindowId>) -> Option<WindowId> {
    match win {
        Some(w) => if st.clients.contains_key(w) {
            Some(w)
        } else {
            None
        },
        None => None,
    }
}

/// What is announced of a focus that went from one window to another: nothing
/// where they are the same.
pub open spec fn announced(before: Option<WindowId>, to: Option<WindowId>) -> Option<HubEvent> {
    if before != to {
        Some(HubEvent::FocusChanged { from: before, to })
    } else {
        None
    }
}

/// What subscribers may be told of a focus that went from `before` to `to`.
pub fn focus_announcement(before: Option<WindowId>, to: Option<WindowId>) -> (r: Option<HubEvent>)
    ensures
        r == announced(before, to),
{
    if before != to {
        Some(HubEvent::FocusChanged { from: before, to })
    } else {
        None
    }
}

/// What a focus request does at once, and the state it leaves.
pub open spec fn focus_started(st: StateV, win: Option<WindowId>) -> (FocusStart, StateV) {
    match managed_only(st, win) {
        Some(w) => {
            let c = st.clients[w];
            if c.flags.on(WinFlags::NO_FOCUS) || c.monitor >= st.monitors.len() {
                (FocusStart::Refused, st)
            } else {
                (
                    FocusStart::Window {
                        win: w,
                        mon: c.monitor,
                        unfocus: if st.logical_focus() == Some(w) {
                            None
                        } else {
                            managed_only(st, st.logical_focus())
                        },
                        wants_input: c.wants_input,
                        urgent: c.flags.on(WinFlags::URGENT),
                        announce: announced(st.logical_focus(), Some(w)),
                    },
                    StateV {
                        sel_mon: c.monitor as int,
                        ..st.with_mon(
                            c.monitor as int,
                            st.monitors[c.monitor as int].focusing(w),
                        )
                    },
                )
            }
        },
        None => (
            FocusStart::Root {
                unfocus: managed_only(st, st.logical_focus()),
                announce: announced(st.logical_focus(), None),
            },
            if 0 <= st.sel_mon < st.monitors.len() {
                synced(
                    st.with_mon(
                        st.sel_mon,
                        MonitorV { focused: None, ..st.monitors[st.sel_mon] },
                    ),
                    st.sel_mon,
                )
            } else {
                st
            },
        ),
    }
}

/// `c` once it has the focus: the attention it asked for was given.
pub open spec fn focus_served(c: Client, serial: u64) -> Client {
    Client { flags: c.flags.less(WinFlags::URGENT), focus_serial: serial, ..c }
}

/// What to do about the server's focus.
#[derive(Debug, Clone, Copy, PartialEq, Eq, Structural)]
pub enum FocusRepair {
    /// The server has focused what we want focused.
    Settled,
    /// The server has focused the presented overlay; it keeps the input.
    Yield,
    /// Re-assert our focus.
    Assert { target: FocusTarget, repaint: Option<WindowId> },
}

/// Where the re-asserted focus goes.
#[derive(Debug, Clone, Copy, PartialEq, Eq, Structural)]
pub enum FocusTarget {
    Window { win: WindowId, wants_input: bool, urgent: bool },
    Root,
    /// The window we want focused is gone: leave the focus where it is.
    Nowhere,
}

/// The server's focus as a client window: the root counts as none.
pub open spec fn client_focus(f: WindowId, root: WindowId) -> Option<WindowId> {
    if f == 0 || f == root {
        None
    } else {
        Some(f)
    }
}

/// The monitor whose overlay may keep the focus: the one `actual` is on, or the
/// selected one.
pub open spec fn guard_monitor(st: StateV, actual: Option<WindowId>) -> int {
    match actual {
        Some(r) => if st.clients.contains_key(r) && st.clients[r].monitor < st.monitors.len() {
            st.clients[r].monitor as int
        } else {
            st.sel_mon
        },
        None => st.sel_mon,
    }
}

/// The server has focused the overlay of its own monitor.
pub open spec fn overlay_has_focus(st: StateV, actual: Option<WindowId>) -> bool {
    actual is Some && st.shows(guard_monitor(st, actual)) && overlay_owner(st, guard_monitor(st, actual))
        == actual
}

/// The verdict when the server has focused `actual`.
pub open spec fn focus_verdict(st: StateV, actual: Option<WindowId>, root: WindowId) -> FocusRepair {
    let logical = st.logical_focus();
    if logical == actual {
        FocusRepair::Settled
    } else if overlay_has_focus(st, actual) {
        FocusRepair::Yield
    } else {
        FocusRepair::Assert {
            target: match logical {
                Some(w) => if st.clients.contains_key(w) {
                    FocusTarget::Window {
                        win: w,
                        wants_input: st.clients[w].wants_input,
                        urgent: st.clients[w].flags.on(WinFlags::URGENT),
                    }
                } else {
                    FocusTarget::Nowhere
                },
                None => FocusTarget::Root,
            },
            repaint: match actual {
                Some(prev) => if prev != (match logical {
                    Some(w) => w,
                    None => root,
                }) && st.clients.contains_key(prev) {
                    Some(prev)
                } else {
                    None
                },
                None => None,
            },
        }
    }
}

/// The server's answer about its focus: `None` when it gave none, in which case
/// the last known focus stands.
pub fn observed_focus(reply: Option<WindowId>, root: WindowId, last: Option<WindowId>) -> (r: Option<
    WindowId,
>)
    ensures
        r == (match reply {
            Some(f) => client_focus(f, root),
            None => last,
        }),
{
    match reply {
        Some(f) => if f == 0 || f == root {
            None
        } else {
            Some(f)
        },
        None => last,
    }
}

impl State {
    /// The focused window of the selected monitor.
    pub fn logical_focus(&self) -> (r: Option<WindowId>)
        ensures
            r == self@.logical_focus(),
    {
        if self.sel_mon < self.monitors.len() {
            assert(self@.monitors[self.sel_mon as int] == self.monitors@[self.sel_mon as int]@);
            self.monitors[self.sel_mon].focused
        } else {
            None
        }
    }

    fn managed_only(&self, win: Option<WindowId>) -> (r: Option<WindowId>)
        ensures
            r == managed_only(self@, win),
    {
        match win {
            Some(w) => if self.clients.contains_key(&w) {
                Some(w)
            } else {
                None
            },
            None => None,
        }
    }

    /// Start a focus change: commit the logical focus and say what to tell the
    /// server. The commit comes before the server is asked what it has focused,
    /// so a request of our own is never mistaken for a divergence.
    pub fn focus_start(&mut self, win: Option<WindowId>) -> (r: FocusStart)
        ensures
            (r, final(self)@) == focus_started(old(self)@, win),
    {
        let prev: Option<WindowId> = self.logical_focus();
        let prev_managed: Option<WindowId> = self.managed_only(prev);
        match self.managed_only(win) {
            Some(w) => {
                let (mon, wants_input, urgent, no_focus): (usize, bool, bool, bool) =
                    match self.clients.get(&w) {
                    Some(c) => (c.monitor, c.wants_input, c.flags.has(WinFlags::URGENT), c.no_focus()),
                    None => (0, true, false, true),
                };
                if no_focus || mon >= self.monitors.len() {
                    return FocusStart::Refused;
                }
                let unfocus: Option<WindowId> = if prev == Some(w) {
                    None
                } else {
                    prev_managed
                };
                self.sel_mon = mon;
                self.monitors[mon].note_focus(w);
                proof {
                    assert(old(self)@.monitors[mon as int] == old(self).monitors@[mon as int]@);
                    assert(self@.monitors =~= old(self)@.monitors.update(
                        mon as int,
                        old(self)@.monitors[mon as int].focusing(w),
                    ));
                }
                let announce: Option<HubEvent> = focus_announcement(prev, Some(w));
                FocusStart::Window { win: w, mon, unfocus, wants_input, urgent, announce }
            },
            None => {
                let sel: usize = self.sel_mon;
                if sel < self.monitors.len() {
                    self.monitors[sel].focused = None;
                    proof {
                        assert(old(self)@.monitors[sel as int] == old(self).monitors@[sel as int]@);
                        assert(self@.monitors =~= old(self)@.monitors.update(
                            sel as int,
                            MonitorV { focused: None, ..old(self)@.monitors[sel as int] },
                        ));
                        assert(self@ == old(self)@.with_mon(
                            sel as int,
                            MonitorV { focused: None, ..old(self)@.monitors[sel as int] },
                        ));
                    }
                    self.sync_presented_maximize(sel);
                }
                FocusStart::Root {
                    unfocus: prev_managed,
                    announce: focus_announcement(prev, None),
                }
            },
        }
    }

    /// Finish a focus change to `win` on monitor `mon`: number it, serve its
    /// call for attention, and bring the maximized presentation in line.
    /// Returns whether the window was urgent, so its state must be rewritten.
    pub fn focus_finish(&mut self, win: WindowId, mon: usize) -> (was_urgent: bool)
        ensures
            was_urgent == old(self)@.client_on(win, WinFlags::URGENT),
            ({
                let serial: u64 = if old(self)@.serial == u64::MAX {
                    0
                } else {
                    (old(self)@.serial + 1) as u64
                };
                let s1 = StateV { serial, ..old(self)@ };
                let s2 = if s1.clients.contains_key(win) {
                    s1.with_client(win, focus_served(s1.clients[win], serial))
                } else {
                    s1
                };
                final(self)@ == synced(s2, mon as int)
            }),
    {
        let serial: u64 = self.next_serial();
        let ghost s1 = self@;
        let mut was: bool = false;
        match self.clients.remove(&win) {
            Some(c0) => {
                let mut c: Client = c0;
                was = c.flags.has(WinFlags::URGENT);
                if was {
                    c.flags.clear(WinFlags::URGENT);
                }
                proof {
                    let b = s1.clients[win].flags.bits;
                    let f: u16 = WinFlags::URGENT;
                    assert(b & f == 0 ==> b & !f == b) by (bit_vector);
                }
                c.focus_serial = serial;
                self.clients.insert(win, c);
                assert(self.clients@ =~= s1.clients.insert(
                    win,
                    focus_served(s1.clients[win], serial),
                ));
            },
            None => {
                assert(self.clients@ =~= s1.clients);
            },
        }
        self.sync_presented_maximize(mon);
        was
    }

    /// Compare the server's focus with ours and say what to do about it.
    pub fn reconcile_focus(&mut self, actual: Option<WindowId>, root: WindowId) -> (r: FocusRepair)
        ensures
            r == focus_verdict(old(self)@, actual, root),
            final(self)@ == (StateV { x11_input_focus: actual, ..old(self)@ }),
    {
        self.x11_input_focus = actual;
        assert(self@.monitors == old(self)@.monitors && self@.clients == old(self)@.clients);
        let logical: Option<WindowId> = self.logical_focus();
        if logical == actual {
            return FocusRepair::Settled;
        }
        let guard: usize = match actual {
            Some(r) => match self.clients.get(&r) {
                Some(c) => if c.monitor < self.monitors.len() {
                    c.monitor
                } else {
                    self.sel_mon
                },
                None => self.sel_mon,
            },
            None => self.sel_mon,
        };
        proof {
            overlay_owner_ignores_mirror(old(self)@, self@, guard as int);
        }
        if guard < self.monitors.len() {
            assert(self@.monitors[guard as int] == self.monitors@[guard as int]@);
            if self.monitors[guard].active_ws < self.monitors[guard].workspaces.len() {
                match actual {
                    Some(r) => {
                        if self.presented_overlay_owner(guard) == Some(r) {
                            return FocusRepair::Yield;
                        }
                    },
                    None => {},
                }
            }
        }
        let target: FocusTarget = match logical {
            Some(w) => match self.clients.get(&w) {
                Some(c) => FocusTarget::Window {
                    win: w,
                    wants_input: c.wants_input,
                    urgent: c.flags.has(WinFlags::URGENT),
                },
                None => FocusTarget::Nowhere,
            },
            None => FocusTarget::Root,
        };
        let wanted: WindowId = match logical {
            Some(w) => w,
            None => root,
        };
        let repaint: Option<WindowId> = match actual {
            Some(prev) => if prev != wanted && self.clients.contains_key(&prev) {
                Some(prev)
            } else {
                None
            },
            None => None,
        };
        FocusRepair::Assert { target, repaint }
    }
}

/// The overlay of a monitor does not depend on the mirrored focus.
proof fn overlay_owner_ignores_mirror(a: StateV, b: StateV, mi: int)
    requires
        a.monitors == b.monitors,
        a.clients == b.clients,
    ensures
        overlay_owner(a, mi) == overlay_owner(b, mi),
{
}

/// A focus change of our own that the server accepted is never undone: once the
/// server reports the window we focused, there is nothing to repair.
pub proof fn accepted_focus_is_settled(st: StateV, win: WindowId, root: WindowId)
    requires
        focus_started(st, Some(win)).0 is Window,
    ensures
        focus_verdict(focus_started(st, Some(win)).1, Some(win), root) == FocusRepair::Settled,
{
}

/// A repair converges: once the server reports what we asked for, no further
/// repair follows.
pub proof fn repair_converges(st: StateV, root: WindowId)
    ensures
        focus_verdict(st, st.logical_focus(), root) == FocusRepair::Settled,
{
}

/// Input is never taken from a presented overlay that has it.
pub proof fn overlay_keeps_its_input(st: StateV, actual: Option<WindowId>, root: WindowId)
    requires
        overlay_has_focus(st, actual),
    ensures
        !(focus_verdict(st, actual, root) is Assert),
{
}

/// A refused request leaves everything as it was.
pub proof fn refused_focus_changes_nothing(st: StateV, win: Option<WindowId>)
    requires
        focus_started(st, win).0 is Refused,
    ensures
        focus_started(st, win).1 == st,
{
}

/// The most recent window of the history that is on workspace `ws`.
pub open spec fn last_on_workspace(
    clients: Map<WindowId, Client>,
    stack: Seq<WindowId>,
    ws: int,
) -> Option<WindowId>
    decreases stack.len(),
{
    if stack.len() == 0 {
        None
    } else if clients.contains_key(stack.last()) && clients[stack.last()].workspace == ws {
        Some(stack.last())
    } else {
        last_on_workspace(clients, stack.drop_last(), ws)
    }
}

/// What should have the focus on monitor `mi`: the ribbon's focused window, or
/// else the most recently focused window of the workspace on show.
pub open spec fn best_focus_of(st: StateV, mi: int) -> Option<WindowId> {
    if st.shows(mi) {
        let m = st.monitors[mi];
        match m.ws().focused_win() {
            Some(w) => Some(w),
            None => last_on_workspace(st.clients, m.focus_stack, m.active_ws),
        }
    } else {
        None
    }
}

impl State {
    /// What should have the focus on monitor `mi`.
    pub fn best_focus(&self, mi: usize) -> (r: Option<WindowId>)
        ensures
            r == best_focus_of(self@, mi as int),
    {
        if mi >= self.monitors.len() {
            return None;
        }
        assert(self@.monitors[mi as int] == self.monitors@[mi as int]@);
        let m = &self.monitors[mi];
        if m.active_ws >= m.workspaces.len() {
            return None;
        }
        match m.workspaces[m.active_ws].focused_win() {
            Some(w) => {
                return Some(w);
            },
            None => {},
        }
        let mut i: usize = m.focus_stack.len();
        assert(m.focus_stack@.take(i as int) =~= m.focus_stack@);
        while i > 0
            invariant
                i <= m.focus_stack.len(),
                best_focus_of(self@, mi as int) == last_on_workspace(
                    self@.clients,
                    m.focus_stack@.take(i as int),
                    m.active_ws as int,
                ),
            decreases i,
        {
            proof {
                assert(m.focus_stack@.take(i as int).drop_last() =~= m.focus_stack@.take(i - 1));
                assert(m.focus_stack@.take(i as int).last() == m.focus_stack@[i - 1]);
            }
            let w: WindowId = m.focus_stack[i - 1];
            match self.clients.get(&w) {
                Some(c) => {
                    if c.workspace == m.active_ws {
                        return Some(w);
                    }
                },
                None => {},
            }
            i = i - 1;
        }
        None
    }
}

/// Where to warp the pointer on a focused window: its middle, in the width of
/// the request's fields.
pub fn warp_point(g: Rect) -> (p: (i16, i16))
    ensures
        p == ((g.w / 2) as i16, (g.h / 2) as i16),
{
    ((g.w / 2) as i16, (g.h / 2) as i16)
}

impl State {
    /// Where to warp the pointer once `win` has the focus, if the pointer follows
    /// the focus at all.
    pub fn warp_after_focus(&self, win: WindowId, follows: bool) -> (r: Option<(i16, i16)>)
        ensures
            r == (if follows && self@.clients.contains_key(win) {
                let g = self@.clients[win].geom;
                Some(((g.w / 2) as i16, (g.h / 2) as i16))
            } else {
                None
            }),
    {
        if !follows {
            return None;
        }
        match self.clients.get(&win) {
            Some(c) => Some(warp_point(c.geom)),
            None => None,
        }
    }
}

/// The column of `cols` that holds `win`, if one does.
pub open spec fn column_of(cols: Seq<ColumnV>, win: WindowId) -> Option<int>
    decreases cols.len(),
{
    if cols.len() == 0 {
        None
    } else {
        match column_of(cols.drop_last(), win) {
            Some(i) => Some(i),
            None => if cols.last().windows.contains(win) {
                Some(cols.len() - 1)
            } else {
                None
            },
        }
    }
}

/// The first column that holds a window, and nothing before it does.
pub(crate) proof fn column_of_is_first(cols: Seq<ColumnV>, win: WindowId, k: int)
    requires
        0 <= k <= cols.len(),
        forall|j: int| 0 <= j < k ==> !(#[trigger] cols[j]).windows.contains(win),
    ensures
        k < cols.len() && cols[k].windows.contains(win) ==> column_of(cols, win) == Some(k),
        k == cols.len() ==> column_of(cols, win) is None,
    decreases cols.len(),
{
    if cols.len() > 0 {
        let init = cols.drop_last();
        assert forall|j: int| 0 <= j < k && j < init.len() implies !(#[trigger] init[j]).windows.contains(
            win,
        ) by {
            assert(init[j] == cols[j]);
        }
        if k < init.len() {
            column_of_is_first(init, win, k);
            assert(init[k] == cols[k]);
        } else {
            column_of_is_first(init, win, init.len() as int);
            assert(cols[cols.len() - 1] == cols.last());
        }
    }
}

/// The workspace with its ribbon focus on `win`, where `win` is a tile of it.
pub open spec fn ribbon_focused(ws: WorkspaceV, win: WindowId) -> WorkspaceV {
    match column_of(ws.columns, win) {
        Some(ci) => {
            let c = ws.columns[ci];
            let row = match first_index(c.windows, win) {
                Some(i) => i,
                None => c.focused,
            };
            WorkspaceV {
                columns: ws.columns.update(ci, ColumnV { focused: row, ..c }),
                column_idx: ci,
                ..ws
            }
        },
        None => ws,
    }
}

impl crate::workspace::Workspace {
    /// The column that holds `win`, if one does.
    pub fn column_position(&self, win: WindowId) -> (r: Option<usize>)
        ensures
            match r {
                Some(ci) => ci < self.columns.len() && column_of(self@.columns, win) == Some(
                    ci as int,
                ),
                None => column_of(self@.columns, win) is None,
            },
    {
        let mut i: usize = 0;
        while i < self.columns.len()
            invariant
                i <= self.columns.len(),
                forall|j: int| 0 <= j < i ==> !(#[trigger] self@.columns[j]).windows.contains(win),
            decreases self.columns.len() - i,
        {
            assert(self@.columns[i as int] == self.columns@[i as int]@);
            if contains_window(&self.columns[i].windows, win) {
                proof {
                    column_of_is_first(self@.columns, win, i as int);
                }
                return Some(i);
            }
            i = i + 1;
        }
        proof {
            column_of_is_first(self@.columns, win, i as int);
        }
        None
    }

    /// Put the ribbon's focus on `win`, if it is a tile of this workspace.
    /// Returns whether it is.
    pub fn focus_tile(&mut self, win: WindowId) -> (found: bool)
        ensures
            final(self)@ == ribbon_focused(old(self)@, win),
            found == column_of(old(self)@.columns, win) is Some,
    {
        let mut i: usize = 0;
        while i < self.columns.len()
            invariant
                i <= self.columns.len(),
                *self == *old(self),
                forall|j: int| 0 <= j < i ==> !(#[trigger] self@.columns[j]).windows.contains(win),
            decreases self.columns.len() - i,
        {
            assert(self@.columns[i as int] == self.columns@[i as int]@);
            match position_of(&self.columns[i].windows, win) {
                Some(row) => {
                    proof {
                        first_index_props(self.columns@[i as int].windows@, win);
                        column_of_is_first(self@.columns, win, i as int);
                    }
                    self.columns[i].focused = row;
                    self.focus = crate::workspace::Focus { column_idx: i };
                    assert(column_views(self.columns@) =~= old(self)@.columns.update(
                        i as int,
                        ColumnV { focused: row as int, ..old(self)@.columns[i as int] },
                    ));
                    return true;
                },
                None => {},
            }
            i = i + 1;
        }
        proof {
            column_of_is_first(self@.columns, win, i as int);
        }
        false
    }
}

impl State {
    /// Bring the ribbon's focus in line with the focused window. Returns the
    /// monitor whose layout must follow, if the window is a tile.
    pub fn retarget_focus(&mut self, win: WindowId) -> (r: Option<usize>)
        ensures
            ({
                let st = old(self)@;
                if st.clients.contains_key(win) && st.has_ws(
                    st.clients[win].monitor as int,
                    st.clients[win].workspace as int,
                ) {
                    let mi = st.clients[win].monitor as int;
                    let wi = st.clients[win].workspace as int;
                    let m = st.monitors[mi];
                    &&& final(self)@ == st.with_mon(
                        mi,
                        m.with_ws(wi, ribbon_focused(m.workspaces[wi], win)),
                    )
                    &&& r == (if column_of(m.workspaces[wi].columns, win) is Some {
                        Some(mi as usize)
                    } else {
                        None
                    })
                } else {
                    final(self)@ == st && r is None
                }
            }),
    {
        let (mi, wi): (usize, usize) = match self.clients.get(&win) {
            Some(c) => (c.monitor, c.workspace),
            None => {
                return None;
            },
        };
        if mi >= self.monitors.len() {
            return None;
        }
        assert(self@.monitors[mi as int] == self.monitors@[mi as int]@);
        if wi >= self.monitors[mi].workspaces.len() {
            return None;
        }
        let ghost before = self.monitors@[mi as int];
        let found: bool = self.monitors[mi].workspaces[wi].focus_tile(win);
        proof {
            let after = self.monitors@[mi as int];
            assert(after@.workspaces =~= before@.workspaces.update(
                wi as int,
                ribbon_focused(before@.workspaces[wi as int], win),
            ));
            assert(self@.monitors =~= old(self)@.monitors.update(mi as int, after@));
        }
        if found {
            Some(mi)
        } else {
            None
        }
    }
}

// ---- What the focus is for --------------------------------------------------

/// A request for the focus is refused just where the window takes none or its
/// monitor is gone. Granted, the window is focused on its own monitor, which is
/// selected, and is the most recent there; the window that had the focus is told to
/// give it up, unless it is the same or is gone. Nothing else changes.
pub proof fn granted_focus_selects_the_window(st: StateV, win: WindowId)
    requires
        st.clients.contains_key(win),
    ensures
        ({
            let c = st.clients[win];
            let (r, after) = focus_started(st, Some(win));
            let mi = c.monitor as int;
            let before = if 0 <= st.sel_mon < st.monitors.len() {
                st.monitors[st.sel_mon].focused
            } else {
                None
            };
            &&& r is Refused <==> c.flags.on(WinFlags::NO_FOCUS) || mi >= st.monitors.len()
            &&& !(r is Refused) ==> {
                &&& r matches FocusStart::Window {
                    win: w,
                    mon,
                    unfocus,
                    wants_input,
                    urgent,
                    announce,
                } && w == win && mon == mi && wants_input == c.wants_input && urgent
                    == c.flags.on(WinFlags::URGENT) && (before == Some(win) ==> unfocus is None
                    && announce is None) && (before is Some && before != Some(win)
                    && st.clients.contains_key(before->0) ==> unfocus == before) && (before is Some
                    && !st.clients.contains_key(before->0) ==> unfocus is None) && (before is None
                    ==> unfocus is None) && (before != Some(win) ==> announce == Some(
                    HubEvent::FocusChanged { from: before, to: Some(win) },
                ))
                &&& after.sel_mon == mi
                &&& after.monitors[mi].focused == Some(win)
                &&& after.monitors[mi].focus_stack.len() > 0
                    && after.monitors[mi].focus_stack.last() == win
                &&& after.monitors[mi].workspaces == st.monitors[mi].workspaces
                &&& after.monitors[mi].active_ws == st.monitors[mi].active_ws
                &&& forall|i: int|
                    0 <= i < st.monitors.len() && i != mi ==> #[trigger] after.monitors[i]
                        == st.monitors[i]
                &&& after.clients == st.clients && after.monitors.len() == st.monitors.len()
            }
        }),
{
}

/// Without a managed window to focus, the root window gets the focus, the selected
/// monitor has no focused window, and the one that had it is told to give it up.
pub proof fn no_window_focuses_the_root(st: StateV, win: Option<WindowId>)
    requires
        win matches Some(w) ==> !st.clients.contains_key(w),
        st.shows(st.sel_mon),
    ensures
        ({
            let (r, after) = focus_started(st, win);
            let before = st.monitors[st.sel_mon].focused;
            &&& r matches FocusStart::Root { unfocus, announce } && (before is Some
                && st.clients.contains_key(before->0) ==> unfocus == before) && (before is None
                ==> unfocus is None && announce is None) && (before is Some ==> announce == Some(
                HubEvent::FocusChanged { from: before, to: None },
            ))
            &&& after.monitors[st.sel_mon].focused is None
            &&& after.monitors[st.sel_mon].ws().presented_maximize is None
            &&& after.sel_mon == st.sel_mon && after.clients == st.clients
            &&& after.monitors[st.sel_mon].focus_stack == st.monitors[st.sel_mon].focus_stack
        }),
{
}

/// A window that got the focus no longer asks for attention, and is numbered; all
/// else of it stays.
pub proof fn focused_window_asks_no_more(c: Client, serial: u64)
    ensures
        ({
            let d = focus_served(c, serial);
            &&& !d.flags.on(WinFlags::URGENT) && d.focus_serial == serial
            &&& d.floats() == c.floats() && d.fullscreen() == c.fullscreen()
            &&& d == (Client { flags: d.flags, focus_serial: d.focus_serial, ..c })
        }),
{
    let b = c.flags.bits;
    assert((b & !32u16) & 32u16 == 0 && (b & !32u16) & 1u16 == b & 1u16 && (b & !32u16) & 2u16
        == b & 2u16) by (bit_vector);
}

/// The server's focus is left alone where it is the one we want, and where the
/// overlay of its own monitor has it. Else the focus goes back to the window that
/// we want focused, to the root where there is none, and nowhere where that window
/// is gone; a client that had it by mistake is painted anew.
pub proof fn strayed_focus_is_brought_back(
    st: StateV,
    actual: Option<WindowId>,
    root: WindowId,
)
    requires
        0 <= st.sel_mon < st.monitors.len(),
    ensures
        ({
            let want = st.monitors[st.sel_mon].focused;
            let v = focus_verdict(st, actual, root);
            &&& v is Settled <==> want == actual
            &&& v is Yield <==> want != actual && overlay_has_focus(st, actual)
            &&& v matches FocusRepair::Assert { target, repaint } ==> {
                &&& want is Some && st.clients.contains_key(want->0) ==> target
                    == (FocusTarget::Window {
                    win: want->0,
                    wants_input: st.clients[want->0].wants_input,
                    urgent: st.clients[want->0].flags.on(WinFlags::URGENT),
                })
                &&& want is Some && !st.clients.contains_key(want->0) ==> target
                    == FocusTarget::Nowhere
                &&& want is None ==> target == FocusTarget::Root
                &&& actual is Some && st.clients.contains_key(actual->0) && (want is Some
                    || actual->0 != root) ==> repaint == actual
                &&& actual is None || !st.clients.contains_key(actual->0) ==> repaint is None
            }
        }),
{
}

/// The overlay that may keep the focus is the one on top of the monitor that the
/// focused window is on; a window that is no overlay never keeps it.
pub proof fn only_the_overlay_keeps_stray_focus(st: StateV, w: WindowId)
    requires
        st.clients.contains_key(w),
        st.clients[w].monitor < st.monitors.len(),
    ensures
        overlay_has_focus(st, Some(w)) <==> st.shows(st.clients[w].monitor as int)
            && overlay_owner(st, st.clients[w].monitor as int) == Some(w),
        !overlay_has_focus(st, None),
{
}

/// The root window counts as no focus, and so does none at all.
pub proof fn root_is_no_client_focus(f: WindowId, root: WindowId)
    ensures
        client_focus(f, root) is None <==> f == 0 || f == root,
        client_focus(f, root) is Some ==> client_focus(f, root) == Some(f),
{
}

proof fn last_on_workspace_props(
    clients: Map<WindowId, Client>,
    stack: Seq<WindowId>,
    ws: int,
)
    ensures
        match last_on_workspace(clients, stack, ws) {
            Some(w) => exists|i: int|
                0 <= i < stack.len() && #[trigger] stack[i] == w && clients.contains_key(w)
                    && clients[w].workspace == ws && forall|j: int|
                    i < j < stack.len() ==> !(clients.contains_key(#[trigger] stack[j])
                        && clients[stack[j]].workspace == ws),
            None => forall|j: int|
                0 <= j < stack.len() ==> !(clients.contains_key(#[trigger] stack[j])
                    && clients[stack[j]].workspace == ws),
        },
    decreases stack.len(),
{
    if stack.len() > 0 {
        let t = stack.drop_last();
        last_on_workspace_props(clients, t, ws);
        assert(stack[stack.len() - 1] == stack.last());
        assert forall|j: int| 0 <= j < t.len() implies t[j] == #[trigger] stack[j] by {}
        if !(clients.contains_key(stack.last()) && clients[stack.last()].workspace == ws) {
            match last_on_workspace(clients, t, ws) {
                Some(w) => {
                    let i = choose|i: int|
                        0 <= i < t.len() && #[trigger] t[i] == w && clients.contains_key(w)
                            && clients[w].workspace == ws && forall|j: int|
                            i < j < t.len() ==> !(clients.contains_key(#[trigger] t[j])
                                && clients[t[j]].workspace == ws);
                    assert(stack[i] == w);
                    assert forall|j: int| i < j < stack.len() implies !(clients.contains_key(
                        #[trigger] stack[j],
                    ) && clients[stack[j]].workspace == ws) by {
                        if j < t.len() {
                            assert(t[j] == stack[j]);
                        }
                    }
                },
                None => {
                    assert forall|j: int| 0 <= j < stack.len() implies !(clients.contains_key(
                        #[trigger] stack[j],
                    ) && clients[stack[j]].workspace == ws) by {
                        if j < t.len() {
                            assert(t[j] == stack[j]);
                        }
                    }
                },
            }
        }
    }
}

/// What should have the focus is the focused window of the focused column. Where
/// the ribbon has none, it is the window of the workspace on show that was focused
/// last, if any was.
pub proof fn best_focus_is_the_ribbon_then_the_history(st: StateV, mi: int)
    requires
        st.shows(mi),
    ensures
        ({
            let m = st.monitors[mi];
            let ws = m.workspaces[m.active_ws];
            let best = best_focus_of(st, mi);
            let h = m.focus_stack;
            let tile = 0 <= ws.column_idx < ws.columns.len() && 0
                <= ws.columns[ws.column_idx].focused < ws.columns[ws.column_idx].windows.len();
            &&& tile ==> best == Some(
                ws.columns[ws.column_idx].windows[ws.columns[ws.column_idx].focused],
            )
            &&& !tile && best is Some ==> exists|i: int|
                0 <= i < h.len() && #[trigger] h[i] == best->0 && st.clients.contains_key(h[i])
                    && st.clients[h[i]].workspace == m.active_ws && forall|j: int|
                    i < j < h.len() ==> !(st.clients.contains_key(#[trigger] h[j])
                        && st.clients[h[j]].workspace == m.active_ws)
            &&& !tile && best is None ==> forall|j: int|
                0 <= j < h.len() ==> !(st.clients.contains_key(#[trigger] h[j])
                    && st.clients[h[j]].workspace == m.active_ws)
        }),
{
    let m = st.monitors[mi];
    last_on_workspace_props(st.clients, m.focus_stack, m.active_ws);
}

proof fn column_of_props(cols: Seq<ColumnV>, win: WindowId)
    ensures
        match column_of(cols, win) {
            Some(i) => 0 <= i < cols.len() && cols[i].windows.contains(win) && forall|j: int|
                0 <= j < i ==> !(#[trigger] cols[j]).windows.contains(win),
            None => forall|j: int|
                0 <= j < cols.len() ==> !(#[trigger] cols[j]).windows.contains(win),
        },
    decreases cols.len(),
{
    if cols.len() > 0 {
        let t = cols.drop_last();
        column_of_props(t, win);
        assert(cols[cols.len() - 1] == cols.last());
        assert forall|j: int| 0 <= j < t.len() implies t[j] == #[trigger] cols[j] by {}
        match column_of(t, win) {
            Some(i) => {
                assert(cols[i] == t[i]);
                assert forall|j: int| 0 <= j < i implies !(#[trigger] cols[j]).windows.contains(
                    win,
                ) by {
                    assert(t[j] == cols[j]);
                }
            },
            None => {
                assert forall|j: int| 0 <= j < cols.len() - 1 implies !(#[trigger]
                cols[j]).windows.contains(win) by {
                    assert(t[j] == cols[j]);
                }
            },
        }
    }
}

/// The ribbon's focus goes to the tile: its column is the focused one and its row
/// the focused row there; no window moves, and a window that is no tile changes
/// nothing.
pub proof fn ribbon_focus_is_on_the_tile(ws: WorkspaceV, win: WindowId)
    ensures
        ({
            let after = ribbon_focused(ws, win);
            &&& ws.tiles(win) ==> after.focused_win() == Some(win)
            &&& !ws.tiles(win) ==> after == ws
            &&& after.columns.len() == ws.columns.len()
            &&& forall|i: int|
                0 <= i < ws.columns.len() ==> (#[trigger] after.columns[i]).windows
                    == ws.columns[i].windows && after.columns[i].width == ws.columns[i].width
            &&& forall|i: int|
                0 <= i < ws.columns.len() && i != after.column_idx ==> #[trigger] after.columns[i]
                    == ws.columns[i]
            &&& after.floats == ws.floats && after.layout == ws.layout
                && after.presented_maximize == ws.presented_maximize
        }),
{
    column_of_props(ws.columns, win);
    match column_of(ws.columns, win) {
        Some(ci) => {
            first_index_props(ws.columns[ci].windows, win);
            assert(ws.columns[ci].windows.contains(win));
        },
        None => {
            if ws.tiles(win) {
                let i = choose|i: int|
                    0 <= i < ws.columns.len() && (#[trigger] ws.columns[i]).windows.contains(win);
                assert(ws.columns[i].windows.contains(win));
            }
        },
    }
}

} // verus!
