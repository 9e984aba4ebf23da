//! Monitors and the whole of the window manager's state.

use crate::geom::Rect;
use crate::model::{Client, LayoutKind, WinFlags, WindowId};
use crate::seqs::{copy_windows, without, without_window};
use crate::workspace::{Workspace, WorkspaceV};
use std::collections::HashMap;
use vstd::prelude::*;

verus! {

broadcast use vstd::std_specs::hash::group_hash_axioms;

/// A side of a monitor on which a dock reserves space.
#[derive(Debug, Clone, Copy, PartialEq, Eq, Structural)]
pub enum Edge {
    Top,
    Bottom,
    Left,
    Right,
}

/// `px` pixels along `edge`, reserved by the dock `owner`.
#[derive(Debug, Clone, Copy, PartialEq, Eq, Structural)]
pub struct Reserved {
    pub owner: WindowId,
    pub edge: Edge,
    pub px: u32,
}

/// A window whose focus waits behind the overlay `owner`.
#[derive(Debug, Clone, Copy, PartialEq, Eq, Structural)]
pub struct PendingFocus {
    pub window: WindowId,
    pub owner: WindowId,
    pub monitor: usize,
    pub workspace: usize,
}

/// One monitor.
#[derive(Debug)]
pub struct Monitor {
    pub screen: Rect,
    pub workarea: Rect,
    pub workspaces: Vec<Workspace>,
    pub active_ws: usize,
    pub focused: Option<WindowId>,
    /// Windows in the order they were last focused, most recent last.
    pub focus_stack: Vec<WindowId>,
    /// The cached live projection is stale.
    pub layout_dirty: bool,
    pub reserved: Vec<Reserved>,
}

/// A [`Monitor`], mathematically.
pub struct MonitorV {
    pub screen: Rect,
    pub workarea: Rect,
    pub workspaces: Seq<WorkspaceV>,
    pub active_ws: int,
    pub focused: Option<WindowId>,
    pub focus_stack: Seq<WindowId>,
    pub layout_dirty: bool,
    pub reserved: Seq<Reserved>,
}

/// The workspaces of a monitor, mathematically.
pub open spec fn workspace_views(s: Seq<Workspace>) -> Seq<WorkspaceV> {
    s.map_values(|w: Workspace| w@)
}

impl View for Monitor {
    type V = MonitorV;

    open spec fn view(&self) -> MonitorV {
        MonitorV {
            screen: self.screen,
            workarea: self.workarea,
            workspaces: workspace_views(self.workspaces@),
            active_ws: self.active_ws as int,
            focused: self.focused,
            focus_stack: self.focus_stack@,
            layout_dirty: self.layout_dirty,
            reserved: self.reserved@,
        }
    }
}

/// The greatest reservation on `edge`.
pub open spec fn reserved_on(s: Seq<Reserved>, edge: Edge) -> int
    decreases s.len(),
{
    if s.len() == 0 {
        0
    } else {
        let rest = reserved_on(s.drop_last(), edge);
        if s.last().edge == edge && s.last().px > rest {
            s.last().px as int
        } else {
            rest
        }
    }
}

/// The part of `screen` that the reservations leave. Reservations that would
/// leave nothing on an axis are ignored on it.
pub open spec fn usable_area(screen: Rect, s: Seq<Reserved>) -> Rect {
    let l = reserved_on(s, Edge::Left);
    let r = reserved_on(s, Edge::Right);
    let t = reserved_on(s, Edge::Top);
    let b = reserved_on(s, Edge::Bottom);
    let (x, w) = if l + r < screen.w {
        (screen.x + l, screen.w - l - r)
    } else {
        (screen.x as int, screen.w as int)
    };
    let (y, h) = if t + b < screen.h {
        (screen.y + t, screen.h - t - b)
    } else {
        (screen.y as int, screen.h as int)
    };
    Rect { x: x as i32, y: y as i32, w: w as u32, h: h as u32 }
}

/// `s` without the reservations of `owner`.
pub open spec fn not_owned_by(owner: WindowId) -> spec_fn(Reserved) -> bool {
    |r: Reserved| r.owner != owner
}

/// Reservations of `owner` on the listed edges.
pub open spec fn owned_regions(owner: WindowId, edges: Seq<(Edge, u32)>) -> Seq<Reserved> {
    edges.map_values(|e: (Edge, u32)| Reserved { owner, edge: e.0, px: e.1 })
}

impl MonitorV {
    /// The workspace on show.
    pub open spec fn ws(self) -> WorkspaceV {
        self.workspaces[self.active_ws]
    }

    /// There is a workspace on show.
    pub open spec fn shows(self) -> bool {
        0 <= self.active_ws < self.workspaces.len()
    }

    /// The monitor with workspace `i` replaced.
    pub open spec fn with_ws(self, i: int, w: WorkspaceV) -> MonitorV {
        MonitorV { workspaces: self.workspaces.update(i, w), ..self }
    }

    /// The work area follows the screen and the reservations.
    pub open spec fn recalculated(self) -> MonitorV {
        MonitorV { workarea: usable_area(self.screen, self.reserved), ..self }
    }

    /// `win` becomes the focused window and the most recent one.
    pub open spec fn focusing(self, win: WindowId) -> MonitorV {
        MonitorV {
            focused: Some(win),
            focus_stack: without(self.focus_stack, win).push(win),
            ..self
        }
    }

    /// Every trace of `win` is gone: from the tree, the focus history and the
    /// maximized presentation.
    pub open spec fn forgetting(self, win: WindowId) -> MonitorV {
        MonitorV {
            workspaces: self.workspaces.map_values(dropping(win)),
            focused: if self.focused == Some(win) {
                None
            } else {
                self.focused
            },
            focus_stack: without(self.focus_stack, win),
            ..self
        }
    }
}

/// Takes `win` out of a workspace and out of its maximized presentation.
pub open spec fn dropping(win: WindowId) -> spec_fn(WorkspaceV) -> WorkspaceV {
    |w: WorkspaceV|
        WorkspaceV {
            presented_maximize: if w.presented_maximize == Some(win) {
                None
            } else {
                w.presented_maximize
            },
            ..w.remove_window(win)
        }
}

impl Monitor {
    /// A monitor with `n` empty workspaces, the first on show.
    pub fn new(screen: Rect, n: usize) -> (m: Monitor)
        ensures
            m@ == (MonitorV {
                screen,
                workarea: screen,
                workspaces: Seq::new(n as nat, |i: int| WorkspaceV::empty(LayoutKind::Column)),
                active_ws: 0,
                focused: None,
                focus_stack: Seq::empty(),
                layout_dirty: true,
                reserved: Seq::empty(),
            }),
    {
        let mut workspaces: Vec<Workspace> = Vec::new();
        let mut i: usize = 0;
        while i < n
            invariant
                i <= n,
                workspaces@.len() == i,
                forall|j: int|
                    0 <= j < i ==> (#[trigger] workspaces@[j])@ == WorkspaceV::empty(
                        LayoutKind::Column,
                    ),
            decreases n - i,
        {
            workspaces.push(Workspace::new(LayoutKind::Column));
            i = i + 1;
        }
        proof {
            assert(workspace_views(workspaces@) =~= Seq::new(
                n as nat,
                |i: int| WorkspaceV::empty(LayoutKind::Column),
            ));
        }
        Monitor {
            screen,
            workarea: screen,
            workspaces,
            active_ws: 0,
            focused: None,
            focus_stack: Vec::new(),
            layout_dirty: true,
            reserved: Vec::new(),
        }
    }

    fn reserved_px(&self, edge: Edge) -> (r: u32)
        ensures
            r == reserved_on(self.reserved@, edge),
    {
        let mut best: u32 = 0;
        let mut i: usize = 0;
        while i < self.reserved.len()
            invariant
                i <= self.reserved.len(),
                best == reserved_on(self.reserved@.take(i as int), edge),
            decreases self.reserved.len() - i,
        {
            proof {
                assert(self.reserved@.take(i as int + 1).drop_last() =~= self.reserved@.take(
                    i as int,
                ));
            }
            let r: Reserved = self.reserved[i];
            if r.edge == edge && r.px > best {
                best = r.px;
            }
            i = i + 1;
        }
        assert(self.reserved@.take(i as int) =~= self.reserved@);
        best
    }

    /// Recompute the work area from the screen and the reservations.
    pub fn recalc_geometry(&mut self)
        requires
            old(self).screen.edges_fit(),
        ensures
            final(self)@ == old(self)@.recalculated(),
    {
        let l: u32 = self.reserved_px(Edge::Left);
        let r: u32 = self.reserved_px(Edge::Right);
        let t: u32 = self.reserved_px(Edge::Top);
        let b: u32 = self.reserved_px(Edge::Bottom);
        let s: Rect = self.screen;
        let mut wa: Rect = s;
        if (l as u64) + (r as u64) < s.w as u64 {
            wa.x = (s.x as i64 + l as i64) as i32;
            wa.w = s.w - l - r;
        }
        if (t as u64) + (b as u64) < s.h as u64 {
            wa.y = (s.y as i64 + t as i64) as i32;
            wa.h = s.h - t - b;
        }
        self.workarea = wa;
    }

    /// Replace everything `owner` reserves by the listed edges.
    pub fn set_reserved_regions(&mut self, owner: WindowId, edges: &Vec<(Edge, u32)>)
        requires
            old(self).screen.edges_fit(),
        ensures
            final(self)@ == (MonitorV {
                reserved: old(self).reserved@.filter(not_owned_by(owner)) + owned_regions(
                    owner,
                    edges@,
                ),
                ..old(self)@
            }).recalculated(),
    {
        let mut kept: Vec<Reserved> = self.other_reservations(owner);
        let ghost base = kept@;
        let mut i: usize = 0;
        assert(kept@ =~= base + owned_regions(owner, edges@).take(0));
        while i < edges.len()
            invariant
                i <= edges.len(),
                kept@ == base + owned_regions(owner, edges@).take(i as int),
                base == old(self).reserved@.filter(not_owned_by(owner)),
                *self == *old(self),
            decreases edges.len() - i,
        {
            let e: (Edge, u32) = edges[i];
            kept.push(Reserved { owner, edge: e.0, px: e.1 });
            proof {
                assert(base + owned_regions(owner, edges@).take(i as int + 1) =~= (base
                    + owned_regions(owner, edges@).take(i as int)).push(
                    owned_regions(owner, edges@)[i as int],
                ));
            }
            i = i + 1;
        }
        assert(owned_regions(owner, edges@).take(i as int) =~= owned_regions(owner, edges@));
        self.reserved = kept;
        self.recalc_geometry();
    }

    /// Drop everything `owner` reserves.
    pub fn remove_reserved_region(&mut self, owner: WindowId)
        requires
            old(self).screen.edges_fit(),
        ensures
            final(self)@ == (MonitorV {
                reserved: old(self).reserved@.filter(not_owned_by(owner)),
                ..old(self)@
            }).recalculated(),
    {
        let kept: Vec<Reserved> = self.other_reservations(owner);
        self.reserved = kept;
        self.recalc_geometry();
    }

    fn other_reservations(&self, owner: WindowId) -> (kept: Vec<Reserved>)
        ensures
            kept@ == self.reserved@.filter(not_owned_by(owner)),
    {
        let mut kept: Vec<Reserved> = Vec::new();
        let mut i: usize = 0;
        proof {
            reveal(Seq::filter);
            assert(kept@ =~= self.reserved@.take(0).filter(not_owned_by(owner)));
        }
        while i < self.reserved.len()
            invariant
                i <= self.reserved.len(),
                kept@ == self.reserved@.take(i as int).filter(not_owned_by(owner)),
            decreases self.reserved.len() - i,
        {
            proof {
                crate::seqs::filter_take_step(self.reserved@, i as int, not_owned_by(owner));
            }
            let r: Reserved = self.reserved[i];
            if r.owner != owner {
                kept.push(r);
            }
            i = i + 1;
        }
        assert(self.reserved@.take(i as int) =~= self.reserved@);
        kept
    }

    /// Make `win` the focused window and the most recent one.
    pub fn note_focus(&mut self, win: WindowId)
        ensures
            final(self)@ == old(self)@.focusing(win),
    {
        let mut stack: Vec<WindowId> = without_window(&self.focus_stack, win);
        stack.push(win);
        self.focus_stack = stack;
        self.focused = Some(win);
    }

    /// Remove every trace of `win`.
    pub fn forget(&mut self, win: WindowId)
        ensures
            final(self)@ == old(self)@.forgetting(win),
    {
        let mut out: Vec<Workspace> = Vec::new();
        let ghost all = self@.workspaces.map_values(dropping(win));
        let mut i: usize = 0;
        assert(workspace_views(out@) =~= all.take(0));
        while i < self.workspaces.len()
            invariant
                i <= self.workspaces.len(),
                *self == *old(self),
                all == self@.workspaces.map_values(dropping(win)),
                workspace_views(out@) == all.take(i as int),
            decreases self.workspaces.len() - i,
        {
            let mut w: Workspace = self.workspaces[i].copy();
            assert(w@ == self@.workspaces[i as int]);
            w.remove_window(win);
            if w.presented_maximize == Some(win) {
                w.presented_maximize = None;
            }
            proof {
                assert(w@ == all[i as int]);
                assert(workspace_views(out@.push(w)) =~= workspace_views(out@).push(w@));
                assert(all.take(i as int + 1) =~= all.take(i as int).push(all[i as int]));
            }
            out.push(w);
            i = i + 1;
        }
        assert(all.take(i as int) =~= all);
        self.workspaces = out;
        self.focus_stack = without_window(&self.focus_stack, win);
        if self.focused == Some(win) {
            self.focused = None;
        }
    }

    /// An independent copy.
    pub fn copy(&self) -> (m: Monitor)
        ensures
            m@ == self@,
    {
        let mut out: Vec<Workspace> = Vec::new();
        let mut i: usize = 0;
        assert(workspace_views(out@) =~= self@.workspaces.take(0));
        while i < self.workspaces.len()
            invariant
                i <= self.workspaces.len(),
                workspace_views(out@) == self@.workspaces.take(i as int),
            decreases self.workspaces.len() - i,
        {
            let w: Workspace = self.workspaces[i].copy();
            proof {
                assert(w@ == self@.workspaces[i as int]);
                assert(workspace_views(out@.push(w)) =~= workspace_views(out@).push(w@));
                assert(self@.workspaces.take(i as int + 1) =~= self@.workspaces.take(i as int).push(
                    self@.workspaces[i as int],
                ));
            }
            out.push(w);
            i = i + 1;
        }
        assert(self@.workspaces.take(i as int) =~= self@.workspaces);
        let mut reserved: Vec<Reserved> = Vec::new();
        let mut k: usize = 0;
        while k < self.reserved.len()
            invariant
                k <= self.reserved.len(),
                reserved@ == self.reserved@.take(k as int),
            decreases self.reserved.len() - k,
        {
            reserved.push(self.reserved[k]);
            assert(self.reserved@.take(k as int + 1) =~= self.reserved@.take(k as int).push(
                self.reserved@[k as int],
            ));
            k = k + 1;
        }
        assert(self.reserved@.take(k as int) =~= self.reserved@);
        Monitor {
            screen: self.screen,
            workarea: self.workarea,
            workspaces: out,
            active_ws: self.active_ws,
            focused: self.focused,
            focus_stack: copy_windows(&self.focus_stack),
            layout_dirty: self.layout_dirty,
            reserved,
        }
    }
}

/// Everything the decisions read.
#[derive(Debug)]
pub struct State {
    pub clients: HashMap<WindowId, Client>,
    pub monitors: Vec<Monitor>,
    pub sel_mon: usize,
    /// Transient windows whose parent is not managed yet.
    pub pending_transients: Vec<WindowId>,
    pub pending_focus: Option<PendingFocus>,
    /// Mirror of the server's input focus; `None` is the root.
    pub x11_input_focus: Option<WindowId>,
    pub serial: u64,
    pub running: bool,
}

/// A [`State`], mathematically.
pub struct StateV {
    pub clients: Map<WindowId, Client>,
    pub monitors: Seq<MonitorV>,
    pub sel_mon: int,
    pub pending_transients: Seq<WindowId>,
    pub pending_focus: Option<PendingFocus>,
    pub x11_input_focus: Option<WindowId>,
    pub serial: u64,
    pub running: bool,
}

/// The monitors of a state, mathematically.
pub open spec fn monitor_views(s: Seq<Monitor>) -> Seq<MonitorV> {
    s.map_values(|m: Monitor| m@)
}

impl View for State {
    type V = StateV;

    open spec fn view(&self) -> StateV {
        StateV {
            clients: self.clients@,
            monitors: monitor_views(self.monitors@),
            sel_mon: self.sel_mon as int,
            pending_transients: self.pending_transients@,
            pending_focus: self.pending_focus,
            x11_input_focus: self.x11_input_focus,
            serial: self.serial,
            running: self.running,
        }
    }
}

impl StateV {
    /// The state with monitor `i` replaced.
    pub open spec fn with_mon(self, i: int, m: MonitorV) -> StateV {
        StateV { monitors: self.monitors.update(i, m), ..self }
    }

    /// The state with client `c` in place of whatever had its id.
    pub open spec fn with_client(self, win: WindowId, c: Client) -> StateV {
        StateV { clients: self.clients.insert(win, c), ..self }
    }

    /// Monitor `mi` exists and has a workspace on show.
    pub open spec fn shows(self, mi: int) -> bool {
        0 <= mi < self.monitors.len() && self.monitors[mi].shows()
    }

    /// Workspace `wi` of monitor `mi` exists.
    pub open spec fn has_ws(self, mi: int, wi: int) -> bool {
        0 <= mi < self.monitors.len() && 0 <= wi < self.monitors[mi].workspaces.len()
    }

    /// `win` is a client and satisfies the flag test.
    pub open spec fn client_on(self, win: WindowId, flag: u16) -> bool {
        self.clients.contains_key(win) && self.clients[win].flags.on(flag)
    }

    /// The focused window of the selected monitor.
    pub open spec fn logical_focus(self) -> Option<WindowId> {
        if 0 <= self.sel_mon < self.monitors.len() {
            self.monitors[self.sel_mon].focused
        } else {
            None
        }
    }
}

impl State {
    /// Nothing managed, no monitor yet.
    pub fn new() -> (s: State)
        ensures
            s@ == (StateV {
                clients: Map::empty(),
                monitors: Seq::empty(),
                sel_mon: 0,
                pending_transients: Seq::empty(),
                pending_focus: None,
                x11_input_focus: None,
                serial: 0,
                running: true,
            }),
    {
        let s = State {
            clients: HashMap::new(),
            monitors: Vec::new(),
            sel_mon: 0,
            pending_transients: Vec::new(),
            pending_focus: None,
            x11_input_focus: None,
            serial: 0,
            running: true,
        };
        assert(s@.monitors =~= Seq::<MonitorV>::empty());
        s
    }

    /// Start managing `c`.
    pub fn add_client(&mut self, c: Client)
        ensures
            final(self)@ == old(self)@.with_client(c.window, c),
    {
        self.clients.insert(c.window, c);
    }

    /// Stop managing `win`: it leaves the client table, the tree and every
    /// monitor's focus history.
    pub fn remove_client(&mut self, win: WindowId) -> (r: Option<Client>)
        ensures
            !old(self)@.clients.contains_key(win) ==> r is None && final(self)@ == old(self)@,
            old(self)@.clients.contains_key(win) ==> {
                &&& r == Some(old(self)@.clients[win])
                &&& final(self)@ == (StateV {
                    clients: old(self)@.clients.remove(win),
                    monitors: old(self)@.monitors.map_values(|m: MonitorV| m.forgetting(win)),
                    ..old(self)@
                })
            },
    {
        let c: Option<Client> = self.clients.remove(&win);
        if c.is_none() {
            assert(self.clients@ =~= old(self).clients@);
            return None;
        }
        let n: usize = self.monitors.len();
        let ghost all = old(self)@.monitors.map_values(|m: MonitorV| m.forgetting(win));
        let mut i: usize = 0;
        while i < n
            invariant
                i <= n,
                n == self.monitors.len(),
                n == old(self).monitors.len(),
                all == old(self)@.monitors.map_values(|m: MonitorV| m.forgetting(win)),
                self.clients@ == old(self).clients@.remove(win),
                self.sel_mon == old(self).sel_mon,
                self.pending_transients == old(self).pending_transients,
                self.pending_focus == old(self).pending_focus,
                self.x11_input_focus == old(self).x11_input_focus,
                self.serial == old(self).serial,
                self.running == old(self).running,
                forall|j: int| 0 <= j < i ==> (#[trigger] self.monitors@[j])@ == all[j],
                forall|j: int| i <= j < n ==> self.monitors@[j] == old(self).monitors@[j],
            decreases n - i,
        {
            self.monitors[i].forget(win);
            assert(old(self)@.monitors[i as int] == old(self).monitors@[i as int]@);
            i = i + 1;
        }
        assert(monitor_views(self.monitors@) =~= all);
        c
    }

    /// Replace workspace `wi` of monitor `mi`.
    pub fn put_workspace(&mut self, mi: usize, wi: usize, w: Workspace)
        requires
            old(self)@.has_ws(mi as int, wi as int),
        ensures
            final(self)@ == old(self)@.with_mon(
                mi as int,
                old(self)@.monitors[mi as int].with_ws(wi as int, w@),
            ),
    {
        let ghost st = self@;
        let ghost m0 = self.monitors@[mi as int];
        assert(st.monitors[mi as int] == m0@);
        self.monitors[mi].workspaces[wi] = w;
        proof {
            let m1 = self.monitors@[mi as int];
            assert(m1@.workspaces =~= m0@.workspaces.update(wi as int, w@));
            assert(self@.monitors =~= st.monitors.update(mi as int, m1@));
        }
    }

    /// Replace the flags of `win`, if it is managed.
    pub fn put_flags(&mut self, win: WindowId, flags: WinFlags)
        ensures
            final(self)@ == (if old(self)@.clients.contains_key(win) {
                old(self)@.with_client(win, Client { flags, ..old(self)@.clients[win] })
            } else {
                old(self)@
            }),
    {
        let ghost before = self.clients@;
        match self.clients.remove(&win) {
            Some(c0) => {
                let mut c: Client = c0;
                c.flags = flags;
                self.clients.insert(win, c);
                assert(self.clients@ =~= before.insert(win, c));
            },
            None => {
                assert(self.clients@ =~= before);
            },
        }
    }

    /// Next value of the focus counter.
    pub fn next_serial(&mut self) -> (n: u64)
        ensures
            n == (if old(self).serial == u64::MAX { 0 } else { old(self).serial + 1 }),
            final(self)@ == (StateV { serial: n, ..old(self)@ }),
    {
        self.serial = self.serial.wrapping_add(1);
        self.serial
    }

    /// The monitor under the point, or the selected one if there is none.
    pub fn mon_at(&self, px: i32, py: i32) -> (r: usize)
        ensures
            ({
                ||| r < self.monitors.len() && self@.monitors[r as int].screen.covers(
                    px as int,
                    py as int,
                ) && forall|j: int|
                    0 <= j < r ==> !(#[trigger] self@.monitors[j]).screen.covers(
                        px as int,
                        py as int,
                    )
                ||| r == self.sel_mon && forall|j: int|
                    0 <= j < self.monitors.len() ==> !(#[trigger] self@.monitors[j]).screen.covers(
                        px as int,
                        py as int,
                    )
            }),
    {
        let mut i: usize = 0;
        while i < self.monitors.len()
            invariant
                i <= self.monitors.len(),
                forall|j: int|
                    0 <= j < i ==> !(#[trigger] self@.monitors[j]).screen.covers(
                        px as int,
                        py as int,
                    ),
            decreases self.monitors.len() - i,
        {
            assert(self@.monitors[i as int] == self.monitors@[i as int]@);
            if self.monitors[i].screen.contains_point(px, py) {
                return i;
            }
            i = i + 1;
        }
        self.sel_mon
    }
}

/// The windows of a table, in no particular order, each once.
pub fn client_ids<V>(clients: &HashMap<WindowId, V>) -> (r: Vec<WindowId>)
    ensures
        r@.no_duplicates(),
        forall|w: WindowId| #[trigger] r@.contains(w) <==> clients@.contains_key(w),
{
    let mut out: Vec<WindowId> = Vec::new();
    for k in it: clients.keys()
        invariant
            out@ == it.seq().take(it.index()).unref(),
            it.seq().unref().to_set() == clients@.dom(),
            it.index() == it.seq().len() ==> out@ =~= it.seq().unref(),
    {
        out.push(*k);
        assert(it.seq().take(it.index() + 1).unref() =~= it.seq().take(it.index()).unref().push(
            *k,
        ));
    }
    assert(out@.to_set() == clients@.dom());
    assert forall|w: WindowId| #[trigger] out@.contains(w) <==> clients@.contains_key(w) by {
        assert(out@.to_set().contains(w) <==> out@.contains(w));
    }
    out
}

// ---- What the parts are for -------------------------------------------------

/// What is reserved on an edge is the most that any dock reserves there, and
/// nothing where none does.
pub proof fn widest_reservation_counts(s: Seq<Reserved>, edge: Edge)
    ensures
        forall|i: int|
            0 <= i < s.len() && (#[trigger] s[i]).edge == edge ==> s[i].px <= reserved_on(s, edge),
        reserved_on(s, edge) == 0 || exists|i: int|
            0 <= i < s.len() && (#[trigger] s[i]).edge == edge && s[i].px == reserved_on(s, edge),
        0 <= reserved_on(s, edge) <= u32::MAX,
    decreases s.len(),
{
    if s.len() > 0 {
        let t = s.drop_last();
        widest_reservation_counts(t, edge);
        assert(s[s.len() - 1] == s.last());
        assert forall|i: int| 0 <= i < s.len() && (#[trigger] s[i]).edge == edge implies s[i].px
            <= reserved_on(s, edge) by {
            if i < t.len() {
                assert(t[i] == s[i]);
            }
        }
        if reserved_on(t, edge) != 0 && reserved_on(s, edge) == reserved_on(t, edge) {
            let i = choose|i: int|
                0 <= i < t.len() && (#[trigger] t[i]).edge == edge && t[i].px == reserved_on(
                    t,
                    edge,
                );
            assert(s[i] == t[i]);
        }
    }
}

/// The work area is the screen less what is reserved on each of its edges: as far
/// from the left as is reserved there, and so on all around. Where reservations of
/// one axis would leave nothing, that axis keeps its whole length.
pub proof fn work_area_is_the_screen_less_the_docks(m: MonitorV)
    requires
        m.screen.edges_fit(),
    ensures
        ({
            let l = reserved_on(m.reserved, Edge::Left);
            let r = reserved_on(m.reserved, Edge::Right);
            let t = reserved_on(m.reserved, Edge::Top);
            let b = reserved_on(m.reserved, Edge::Bottom);
            let s = m.screen;
            let a = m.recalculated().workarea;
            &&& l + r < s.w ==> a.x == s.x + l && a.x + a.w == s.x + s.w - r
            &&& l + r >= s.w ==> a.x == s.x && a.w == s.w
            &&& t + b < s.h ==> a.y == s.y + t && a.y + a.h == s.y + s.h - b
            &&& t + b >= s.h ==> a.y == s.y && a.h == s.h
            &&& m.recalculated() == (MonitorV { workarea: a, ..m })
        }),
{
    widest_reservation_counts(m.reserved, Edge::Left);
    widest_reservation_counts(m.reserved, Edge::Right);
    widest_reservation_counts(m.reserved, Edge::Top);
    widest_reservation_counts(m.reserved, Edge::Bottom);
}

/// The window that takes the focus is the focused one and the most recent one; the
/// others keep their order, and nothing else of the monitor changes.
pub proof fn focused_window_is_the_most_recent(m: MonitorV, win: WindowId)
    requires
        m.focus_stack.no_duplicates(),
    ensures
        ({
            let n = m.focusing(win);
            &&& n.focused == Some(win)
            &&& n.focus_stack.len() > 0 && n.focus_stack.last() == win
            &&& n.focus_stack.no_duplicates()
            &&& !m.focus_stack.contains(win) ==> n.focus_stack.drop_last() == m.focus_stack
            &&& forall|k: int|
                0 <= k < m.focus_stack.len() && m.focus_stack[k] == win
                    ==> n.focus_stack.drop_last() == #[trigger] m.focus_stack.remove(k)
            &&& n == (MonitorV { focused: n.focused, focus_stack: n.focus_stack, ..m })
        }),
{
    let rest = without(m.focus_stack, win);
    crate::seqs::without_no_duplicates(m.focus_stack, win);
    crate::seqs::without_contains(m.focus_stack, win);
    let n = m.focusing(win);
    assert(n.focus_stack.drop_last() =~= rest);
    assert forall|i: int, j: int|
        0 <= i < n.focus_stack.len() && 0 <= j < n.focus_stack.len() && i
            != j implies n.focus_stack[i] != n.focus_stack[j] by {
        if i == rest.len() {
            assert(rest.contains(rest[j]));
        } else if j == rest.len() {
            assert(rest.contains(rest[i]));
        }
    }
    crate::seqs::without_closes_the_gap(m.focus_stack, win, 0);
    assert forall|k: int| 0 <= k < m.focus_stack.len() && m.focus_stack[k] == win implies rest
        == #[trigger] m.focus_stack.remove(k) by {
        crate::seqs::without_closes_the_gap(m.focus_stack, win, k);
    }
}

/// A window that is forgotten is on no workspace of the monitor, presented nowhere,
/// not in the order of focus and not focused; every other window stays what it was.
pub proof fn forgotten_window_leaves_no_trace(m: MonitorV, win: WindowId)
    ensures
        ({
            let n = m.forgetting(win);
            &&& n.focused != Some(win) && !n.focus_stack.contains(win)
            &&& m.focused != Some(win) ==> n.focused == m.focused
            &&& forall|x: WindowId|
                x != win ==> n.focus_stack.contains(x) == #[trigger] m.focus_stack.contains(x)
            &&& n.workspaces.len() == m.workspaces.len()
            &&& forall|k: int|
                0 <= k < m.workspaces.len() ==> {
                    let w = #[trigger] n.workspaces[k];
                    !w.tiles(win) && !w.floats.contains(win) && w.presented_maximize != Some(win)
                }
            &&& forall|k: int, x: WindowId|
                0 <= k < m.workspaces.len() && x != win ==> (#[trigger] n.workspaces[k].tiles(x))
                    == m.workspaces[k].tiles(x)
            &&& forall|k: int, x: WindowId|
                0 <= k < m.workspaces.len() && x != win ==> (#[trigger]
                n.workspaces[k].floats.contains(x)) == m.workspaces[k].floats.contains(x)
            &&& n.screen == m.screen && n.workarea == m.workarea && n.active_ws == m.active_ws
                && n.reserved == m.reserved
        }),
{
    let n = m.forgetting(win);
    crate::seqs::without_contains(m.focus_stack, win);
    assert forall|k: int| 0 <= k < m.workspaces.len() implies {
        let w = #[trigger] n.workspaces[k];
        !w.tiles(win) && !w.floats.contains(win) && w.presented_maximize != Some(win)
    } by {
        crate::workspace::removal_touches_no_other_window(m.workspaces[k], win);
        let r = m.workspaces[k].remove_window(win);
        assert(n.workspaces[k].columns == r.columns);
        assert(n.workspaces[k].tiles(win) == r.tiles(win));
    }
    assert forall|k: int, x: WindowId| 0 <= k < m.workspaces.len() && x != win implies (#[trigger]
    n.workspaces[k].tiles(x)) == m.workspaces[k].tiles(x) by {
        crate::workspace::removal_touches_no_other_window(m.workspaces[k], win);
        let r = m.workspaces[k].remove_window(win);
        assert(n.workspaces[k].columns == r.columns);
        assert(n.workspaces[k].tiles(x) == r.tiles(x));
        assert(r.tiles(x) == m.workspaces[k].tiles(x));
    }
    assert forall|k: int, x: WindowId| 0 <= k < m.workspaces.len() && x != win implies (#[trigger]
    n.workspaces[k].floats.contains(x)) == m.workspaces[k].floats.contains(x) by {
        crate::workspace::removal_touches_no_other_window(m.workspaces[k], win);
        assert(m.workspaces[k].remove_window(win).floats.contains(x)
            == m.workspaces[k].floats.contains(x));
    }
}

} // verus!
