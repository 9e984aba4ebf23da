//! How the state changes as windows come, go, find their parents and become
//! fullscreen or maximized.

use crate::compositor::at;
use crate::config::{rule_views, Cfg, RuleV};
use crate::geom::Rect;
use crate::manage::{
    apply_rule_geometry, apply_rules, center_float, centered, detect_portal, geometry_ruled, middle,
    portaled, ruled, strips,
};
use crate::model::{Client, WinFlags, WindowId};
use crate::overlay::{all_windows, workspace_windows};
use crate::props::{hinted, PrefsWrite, WmHints};
use crate::seqs::{contains_window, without, without_window};
use crate::state::{Monitor, MonitorV, PendingFocus, State, StateV};
use crate::workspace::WorkspaceV;
use vstd::prelude::*;

verus! {

broadcast use vstd::std_specs::hash::group_hash_axioms;

// ---- Managing a window ------------------------------------------------------

/// The client with what its parent window gives it: a transient window floats on
/// the monitor and workspace of its parent.
pub open spec fn parented(st: StateV, c: Client, parent: Option<WindowId>) -> Client {
    match parent {
        Some(p) => match at(st.clients, p) {
            Some(pc) => Client {
                transient_parent: Some(p),
                monitor: pc.monitor,
                workspace: pc.workspace,
                flags: c.flags.with(WinFlags::FLOAT),
                ..c
            },
            None => Client {
                transient_parent: Some(p),
                flags: c.flags.with(WinFlags::FLOAT),
                ..c
            },
        },
        None => c,
    }
}

/// The geometry of the parent, if it is managed.
pub open spec fn parent_geom(st: StateV, parent: Option<WindowId>) -> Option<Rect> {
    match parent {
        Some(p) => match at(st.clients, p) {
            Some(pc) => Some(pc.geom),
            None => None,
        },
        None => None,
    }
}

/// The window waits for its parent to be managed.
pub open spec fn waits_for(st: StateV, parent: Option<WindowId>) -> bool {
    parent matches Some(p) && !st.clients.contains_key(p)
}

/// The client, if it floats, in the middle of its parent or of its work area.
#[verifier::opaque]
pub open spec fn positioned(c: Client, pg: Option<Rect>, wa: Rect) -> Client {
    if c.floats() {
        let g = centered(
            c.geom,
            match pg {
                Some(pg) => pg,
                None => wa,
            },
            Some(wa),
        );
        Client { geom: g, saved_geom: g, ..c }
    } else {
        c
    }
}

/// The client with the persisted state, rules, portals, position, the geometry of
/// rules and the persisted geometry applied, in this order. `pg` is the geometry
/// of its parent, `wa` the work area and `room` the number of workspaces of its
/// monitor.
pub open spec fn finished(
    c: Client,
    pg: Option<Rect>,
    prefs: (bool, Option<Rect>),
    rules: Seq<RuleV>,
    wa: Rect,
    room: usize,
) -> Client {
    restored(
        geometry_ruled(
            positioned(portaled(ruled(floated(c, prefs.0), rules, Some(room as int))), pg, wa),
            rules,
            wa,
        ),
        prefs.1,
    )
}

/// The client, floating where it floated before a restart.
pub open spec fn floated(c: Client, was_float: bool) -> Client {
    if was_float {
        Client { flags: c.flags.with(WinFlags::FLOAT), ..c }
    } else {
        c
    }
}

/// The client where it was before a restart.
pub open spec fn restored(c: Client, geom: Option<Rect>) -> Client {
    match geom {
        Some(g) => Client { geom: g, saved_geom: g, ..c },
        None => c,
    }
}

/// The client that is managed: with what its parent gives it, then all the rest.
pub open spec fn prepared(
    st: StateV,
    c: Client,
    parent: Option<WindowId>,
    prefs: (bool, Option<Rect>),
    rules: Seq<RuleV>,
) -> Client {
    let c1 = parented(st, c, parent);
    let m = st.monitors[c1.monitor as int];
    finished(
        c1,
        parent_geom(st, parent),
        prefs,
        rules,
        m.workarea,
        m.workspaces.len() as usize,
    )
}

/// The client as the rules first see it.
pub open spec fn before_rules(
    st: StateV,
    c: Client,
    parent: Option<WindowId>,
    prefs: (bool, Option<Rect>),
) -> Client {
    floated(parented(st, c, parent), prefs.0)
}

/// The workspace with a window added, as a float or as a tile.
pub open spec fn joined_by(w: WorkspaceV, win: WindowId, float: bool, width: u32) -> WorkspaceV {
    if float {
        w.add_float(win)
    } else {
        w.add_tiled(win, width)
    }
}

/// The state with the client managed and in its workspace.
pub open spec fn inserted(st: StateV, c: Client, width: u32) -> StateV {
    let (mi, wi) = (c.monitor as int, c.workspace as int);
    let st1 = st.with_client(c.window, c);
    if st.has_ws(mi, wi) {
        let m = st.monitors[mi];
        st1.with_mon(mi, m.with_ws(wi, joined_by(m.workspaces[wi], c.window, c.floats(), width)))
    } else {
        st1
    }
}

/// The window is fullscreen or maximized on some axis.
pub open spec fn overlays(clients: Map<WindowId, Client>, w: WindowId) -> bool {
    clients.contains_key(w) && (clients[w].fullscreen() || clients[w].maximized())
}

/// The workspace presents a fullscreen or maximized window that the new one does
/// not belong to: the new one must not take the focus.
pub open spec fn arrives_silently(st: StateV, mi: int, wi: int, win: WindowId) -> bool {
    if !st.has_ws(mi, wi) {
        false
    } else {
        let here = all_windows(st.monitors[mi].workspaces[wi]);
        &&& exists|i: int| 0 <= i < here.len() && overlays(st.clients, #[trigger] here[i])
        &&& !(st.clients.contains_key(win) && (st.clients[win].transient_parent matches Some(p)
            && here.contains(p) && overlays(st.clients, p)))
    }
}

/// The deferral of a window that arrives silently: it waits behind the focused
/// window of its monitor, if that is a fullscreen or maximized one of the same
/// workspace.
pub open spec fn deferral(st: StateV, mi: usize, wi: usize, win: WindowId) -> Option<PendingFocus> {
    let m = st.monitors[mi as int];
    match m.focused {
        Some(fw) => if fw != win && overlays(st.clients, fw) && all_windows(
            m.workspaces[wi as int],
        ).contains(fw) {
            Some(PendingFocus { window: win, owner: fw, monitor: mi, workspace: wi })
        } else {
            st.pending_focus
        },
        None => st.pending_focus,
    }
}

/// The state once the prepared client is managed. A window that arrives silently
/// wants attention instead of the focus, and waits behind the overlay that has
/// it.
pub open spec fn managed_state(st: StateV, c: Client, wait: bool, width: u32) -> StateV {
    let st1 = inserted(st, c, width);
    let st2 = if wait {
        StateV { pending_transients: st1.pending_transients.push(c.window), ..st1 }
    } else {
        st1
    };
    if arrives_silently(st2, c.monitor as int, c.workspace as int, c.window) {
        StateV {
            pending_focus: deferral(st2, c.monitor, c.workspace, c.window),
            ..st2.with_client(c.window, Client { flags: c.flags.with(WinFlags::URGENT), ..c })
        }
    } else {
        st2
    }
}

/// The workspace exists and holds nothing.
pub open spec fn vacant(st: StateV, mi: int, wi: int) -> bool {
    st.has_ws(mi, wi) && st.monitors[mi].workspaces[wi].is_empty()
}

/// What is left to do for a window that was just managed.
#[derive(Debug, Clone, Copy, PartialEq, Eq, Structural)]
pub struct Managed {
    pub monitor: usize,
    pub workspace: usize,
    pub border_w: u32,
    /// Opacity to publish.
    pub opacity: Option<u32>,
    /// The state that the window asked for is to be stripped from its property.
    pub strip_state: bool,
    /// It is to be focused; else its state, with the wish for attention, is to be
    /// written.
    pub focus: bool,
    pub floats: bool,
    /// Its workspace held nothing before: the camera goes there at once.
    pub first: bool,
}

fn position(c: &mut Client, pg: Option<Rect>, wa: Rect)
    requires
        wa.edges_fit(),
    ensures
        *final(c) == positioned(*old(c), pg, wa),
{
    reveal(positioned);
    if c.is_float() {
        let on: Rect = match pg {
            Some(pg) => pg,
            None => wa,
        };
        let g: Rect = center_float(c.geom, on, Some(wa));
        c.geom = g;
        c.saved_geom = g;
    }
}

fn finish_client(
    c: Client,
    pg: Option<Rect>,
    prefs: (bool, Option<Rect>),
    cfg: &Cfg,
    wa: Rect,
    room: usize,
) -> (r: (Client, bool))
    requires
        wa.edges_fit(),
    ensures
        r.0 == finished(c, pg, prefs, rule_views(cfg.rules@), wa, room),
        r.1 == strips(floated(c, prefs.0), rule_views(cfg.rules@)),
{
    let mut c: Client = c;
    if prefs.0 {
        c.flags.set(WinFlags::FLOAT);
    }
    let strip: bool = apply_rules(&mut c, &cfg.rules, Some(room));
    detect_portal(&mut c);
    position(&mut c, pg, wa);
    apply_rule_geometry(&mut c, &cfg.rules, wa);
    match prefs.1 {
        Some(g) => {
            c.geom = g;
            c.saved_geom = g;
        },
        None => {},
    }
    (c, strip)
}

impl State {
    /// Every work area is representable, and every client is on a monitor.
    pub open spec fn placeable(&self) -> bool {
        &&& forall|i: int|
            0 <= i < self@.monitors.len() ==> (#[trigger] self@.monitors[i]).workarea.edges_fit()
        &&& forall|w: WindowId|
            self@.clients.contains_key(w) ==> (#[trigger] self@.clients[w]).monitor
                < self@.monitors.len()
    }

    fn with_parent(&self, c: Client, parent: Option<WindowId>) -> (r: (Client, Option<Rect>))
        requires
            self.placeable(),
            c.monitor < self@.monitors.len(),
        ensures
            r.0 == parented(self@, c, parent),
            r.1 == parent_geom(self@, parent),
            r.0.monitor < self@.monitors.len(),
    {
        let mut c: Client = c;
        let mut pg: Option<Rect> = None;
        match parent {
            Some(p) => {
                c.transient_parent = Some(p);
                match self.clients.get(&p) {
                    Some(pc) => {
                        assert(self@.clients[p].monitor < self@.monitors.len());
                        c.monitor = pc.monitor;
                        c.workspace = pc.workspace;
                        pg = Some(pc.geom);
                    },
                    None => {},
                }
                c.flags.set(WinFlags::FLOAT);
            },
            None => {},
        }
        (c, pg)
    }

    fn prepare_client(
        &self,
        c: Client,
        parent: Option<WindowId>,
        prefs: (bool, Option<Rect>),
        cfg: &Cfg,
    ) -> (r: (Client, bool))
        requires
            self.placeable(),
            c.monitor < self@.monitors.len(),
        ensures
            r.0 == prepared(self@, c, parent, prefs, rule_views(cfg.rules@)),
            r.1 == strips(before_rules(self@, c, parent, prefs), rule_views(cfg.rules@)),
    {
        let (c, pg): (Client, Option<Rect>) = self.with_parent(c, parent);
        let mi: usize = c.monitor;
        assert(self@.monitors[mi as int] == self.monitors@[mi as int]@);
        assert(self@.monitors[mi as int].workarea.edges_fit());
        let wa: Rect = self.monitors[mi].workarea;
        let room: usize = self.monitors[mi].workspaces.len();
        finish_client(c, pg, prefs, cfg, wa, room)
    }

    fn insert_client(&mut self, c: Client, width: u32)
        ensures
            final(self)@ == inserted(old(self)@, c, width),
    {
        let (win, mi, wi): (WindowId, usize, usize) = (c.window, c.monitor, c.workspace);
        let float: bool = c.is_float();
        let ghost st = self@;
        self.clients.insert(win, c);
        if mi < self.monitors.len() {
            assert(st.monitors[mi as int] == self.monitors@[mi as int]@);
            if wi < self.monitors[mi].workspaces.len() {
                let ghost m0 = self.monitors@[mi as int]@;
                assert(m0.workspaces[wi as int]
                    == self.monitors@[mi as int].workspaces@[wi as int]@);
                if float {
                    self.monitors[mi].workspaces[wi].add_float(win);
                } else {
                    self.monitors[mi].workspaces[wi].add_tiled(win, width);
                }
                proof {
                    let m1 = self.monitors@[mi as int]@;
                    assert(m1.workspaces =~= m0.workspaces.update(
                        wi as int,
                        joined_by(m0.workspaces[wi as int], win, float, width),
                    ));
                    assert(self@.monitors =~= st.monitors.update(mi as int, m1));
                }
            }
        }
    }

    fn arrives_silently(&self, mi: usize, wi: usize, win: WindowId) -> (b: bool)
        ensures
            b == arrives_silently(self@, mi as int, wi as int, win),
    {
        if mi >= self.monitors.len() {
            return false;
        }
        assert(self@.monitors[mi as int] == self.monitors@[mi as int]@);
        if wi >= self.monitors[mi].workspaces.len() {
            return false;
        }
        assert(self@.monitors[mi as int].workspaces[wi as int]
            == self.monitors@[mi as int].workspaces@[wi as int]@);
        let here: Vec<WindowId> = workspace_windows(&self.monitors[mi].workspaces[wi]);
        let mut present: bool = false;
        let mut i: usize = 0;
        while i < here.len()
            invariant
                i <= here.len(),
                present == exists|j: int|
                    0 <= j < i && overlays(self.clients@, #[trigger] here@[j]),
            decreases here.len() - i,
        {
            if self.is_overlay(here[i]) {
                assert(overlays(self.clients@, here@[i as int]));
                present = true;
            }
            i = i + 1;
        }
        if !present {
            return false;
        }
        match self.clients.get(&win) {
            Some(c) => match c.transient_parent {
                Some(p) => !(contains_window(&here, p) && self.is_overlay(p)),
                None => true,
            },
            None => true,
        }
    }

    fn deferral(&self, mi: usize, wi: usize, win: WindowId) -> (r: Option<PendingFocus>)
        requires
            self@.has_ws(mi as int, wi as int),
        ensures
            r == deferral(self@, mi, wi, win),
    {
        assert(self@.monitors[mi as int] == self.monitors@[mi as int]@);
        assert(self@.monitors[mi as int].workspaces[wi as int]
            == self.monitors@[mi as int].workspaces@[wi as int]@);
        match self.monitors[mi].focused {
            Some(fw) => {
                let here: Vec<WindowId> = workspace_windows(&self.monitors[mi].workspaces[wi]);
                if fw != win && self.is_overlay(fw) && contains_window(&here, fw) {
                    Some(PendingFocus { window: win, owner: fw, monitor: mi, workspace: wi })
                } else {
                    self.pending_focus
                }
            },
            None => self.pending_focus,
        }
    }

    fn is_vacant(&self, mi: usize, wi: usize) -> (b: bool)
        ensures
            b == vacant(self@, mi as int, wi as int),
    {
        if mi >= self.monitors.len() {
            return false;
        }
        assert(self@.monitors[mi as int] == self.monitors@[mi as int]@);
        if wi >= self.monitors[mi].workspaces.len() {
            return false;
        }
        assert(self@.monitors[mi as int].workspaces[wi as int]
            == self.monitors@[mi as int].workspaces@[wi as int]@);
        self.monitors[mi].workspaces[wi].is_empty()
    }

    fn is_overlay(&self, w: WindowId) -> (b: bool)
        ensures
            b == overlays(self@.clients, w),
    {
        match self.clients.get(&w) {
            Some(c) => c.is_fullscreen() || c.is_maximized(),
            None => false,
        }
    }

    /// Manage a new window, as its properties describe it, with the window it is
    /// transient for and what it keeps across a restart.
    ///
    /// A new window never takes the focus from a fullscreen or maximized window on
    /// its workspace, unless it is a dialog of that window. Else it waits behind the
    /// overlay, where a click on the overlay reaches it.
    pub fn manage(
        &mut self,
        c: Client,
        parent: Option<WindowId>,
        prefs: (bool, Option<Rect>),
        cfg: &Cfg,
    ) -> (r: Managed)
        requires
            old(self).placeable(),
            c.monitor < old(self)@.monitors.len(),
        ensures
            ({
                let d = prepared(old(self)@, c, parent, prefs, rule_views(cfg.rules@));
                let wait = waits_for(old(self)@, parent);
                let before = StateV {
                    pending_transients: if wait {
                        old(self)@.pending_transients.push(d.window)
                    } else {
                        old(self)@.pending_transients
                    },
                    ..inserted(old(self)@, d, cfg.default_col_w)
                };
                &&& final(self)@ == managed_state(old(self)@, d, wait, cfg.default_col_w)
                &&& r == (Managed {
                    monitor: d.monitor,
                    workspace: d.workspace,
                    border_w: d.border_w,
                    opacity: d.opacity,
                    strip_state: strips(
                        before_rules(old(self)@, c, parent, prefs),
                        rule_views(cfg.rules@),
                    ),
                    focus: !arrives_silently(
                        before,
                        d.monitor as int,
                        d.workspace as int,
                        d.window,
                    ),
                    floats: d.floats(),
                    first: vacant(old(self)@, d.monitor as int, d.workspace as int),
                })
            }),
    {
        let ghost st = self@;
        let wait: bool = match parent {
            Some(p) => !self.clients.contains_key(&p),
            None => false,
        };
        let (d, strip): (Client, bool) = self.prepare_client(c, parent, prefs, cfg);
        let ghost dd = d;
        let (win, mi, wi): (WindowId, usize, usize) = (d.window, d.monitor, d.workspace);
        let (border_w, opacity, floats): (u32, Option<u32>, bool) = (
            d.border_w,
            d.opacity,
            d.is_float(),
        );
        let first: bool = self.is_vacant(mi, wi);
        self.insert_client(d, cfg.default_col_w);
        if wait {
            self.pending_transients.push(win);
        }
        let silent: bool = self.arrives_silently(mi, wi, win);
        if silent {
            self.pending_focus = self.deferral(mi, wi, win);
            let ghost before = self.clients@;
            match self.clients.remove(&win) {
                Some(c0) => {
                    let mut c1: Client = c0;
                    c1.flags.set(WinFlags::URGENT);
                    self.clients.insert(win, c1);
                    assert(self.clients@ =~= before.insert(win, c1));
                },
                None => {},
            }
        }
        Managed {
            monitor: mi,
            workspace: wi,
            border_w,
            opacity,
            strip_state: strip,
            focus: !silent,
            floats,
            first,
        }
    }
}

/// A presented overlay keeps the focus: a new window that is not its dialog is not
/// to be focused, and wants attention instead. If the overlay is what has the
/// focus, the new window waits behind it.
pub proof fn overlay_keeps_the_focus_from_a_new_window(
    st: StateV,
    c: Client,
    wait: bool,
    width: u32,
    w: WindowId,
)
    requires
        st.has_ws(c.monitor as int, c.workspace as int),
        w != c.window,
        c.transient_parent matches Some(p) ==> !(overlays(inserted(st, c, width).clients, p)
            && all_windows(
            inserted(st, c, width).monitors[c.monitor as int].workspaces[c.workspace as int],
        ).contains(p)),
        overlays(st.clients, w),
        all_windows(
            inserted(st, c, width).monitors[c.monitor as int].workspaces[c.workspace as int],
        ).contains(w),
    ensures
        managed_state(st, c, wait, width).clients[c.window].flags.on(WinFlags::URGENT),
        st.monitors[c.monitor as int].focused == Some(w) ==> managed_state(
            st,
            c,
            wait,
            width,
        ).pending_focus == Some(
            PendingFocus {
                window: c.window,
                owner: w,
                monitor: c.monitor,
                workspace: c.workspace,
            },
        ),
{
    let st1 = inserted(st, c, width);
    let here = all_windows(st1.monitors[c.monitor as int].workspaces[c.workspace as int]);
    let i = choose|i: int| 0 <= i < here.len() && here[i] == w;
    assert(overlays(st1.clients, here[i]));
    crate::model::flag_is_as_it_was_set(c.flags, WinFlags::URGENT);
}

// ---- Letting a window go ----------------------------------------------------

/// What is left to do for a window that was let go.
#[derive(Debug, Clone, Copy, PartialEq, Eq, Structural)]
pub struct Unmanaged {
    /// The border to restore.
    pub old_border_w: u32,
    /// The monitor to lay out anew, if it still exists.
    pub monitor: Option<usize>,
}

impl State {
    /// Stop managing a window; nothing where it is not managed.
    pub fn unmanage(&mut self, win: WindowId) -> (r: Option<Unmanaged>)
        ensures
            !old(self)@.clients.contains_key(win) ==> r is None && final(self)@ == old(self)@,
            old(self)@.clients.contains_key(win) ==> {
                let c = old(self)@.clients[win];
                &&& r == Some(
                    Unmanaged {
                        old_border_w: c.old_border_w,
                        monitor: if c.monitor < old(self)@.monitors.len() {
                            Some(c.monitor)
                        } else {
                            None
                        },
                    },
                )
                &&& final(self)@ == (StateV {
                    clients: old(self)@.clients.remove(win),
                    monitors: old(self)@.monitors.map_values(|m: MonitorV| m.forgetting(win)),
                    ..old(self)@
                })
            },
    {
        let n: usize = self.monitors.len();
        match self.remove_client(win) {
            Some(c) => Some(
                Unmanaged {
                    old_border_w: c.old_border_w,
                    monitor: if c.monitor < n {
                        Some(c.monitor)
                    } else {
                        None
                    },
                },
            ),
            None => None,
        }
    }

    /// What is to be written to a window to be kept across a restart.
    pub fn sync_window_prefs(&self, win: WindowId) -> (r: PrefsWrite)
        ensures
            match at(self@.clients, win) {
                None => r is Nothing,
                Some(c) => if c.floats() && !c.is_unmanaged {
                    r matches PrefsWrite::Float { geom } && geom@ == crate::props::prefs_words(
                        c.geom,
                    )
                } else {
                    r is Clear
                },
            },
    {
        match self.clients.get(&win) {
            Some(c) => c.window_prefs(),
            None => PrefsWrite::Nothing,
        }
    }

    /// A window's title was read anew.
    pub fn refresh_title(&mut self, win: WindowId, name: Option<String>)
        ensures
            final(self)@ == (match (at(old(self)@.clients, win), name) {
                (Some(c), Some(n)) => old(self)@.with_client(win, Client { name: n, ..c }),
                _ => old(self)@,
            }),
    {
        match name {
            Some(n) => {
                let ghost before = self.clients@;
                match self.clients.remove(&win) {
                    Some(c0) => {
                        let mut c: Client = c0;
                        c.name = n;
                        self.clients.insert(win, c);
                        assert(self.clients@ =~= before.insert(win, c));
                    },
                    None => {
                        assert(self.clients@ =~= before);
                    },
                }
            },
            None => {},
        }
    }

    /// A window's `WM_HINTS` were read anew.
    pub fn refresh_hints(&mut self, win: WindowId, hints: Option<WmHints>)
        ensures
            final(self)@ == (match at(old(self)@.clients, win) {
                Some(c) => old(self)@.with_client(win, hinted(c, hints)),
                None => old(self)@,
            }),
    {
        let ghost before = self.clients@;
        match self.clients.remove(&win) {
            Some(c0) => {
                let mut c: Client = c0;
                c.take_wm_hints(hints);
                self.clients.insert(win, c);
                assert(self.clients@ =~= before.insert(win, c));
            },
            None => {
                assert(self.clients@ =~= before);
            },
        }
    }
}

// ---- Transients that came before their parent -------------------------------

/// `v` as an X coordinate.
pub open spec fn as_coord(v: int) -> i32 {
    if v < i32::MIN {
        i32::MIN
    } else if v > i32::MAX {
        i32::MAX
    } else {
        v as i32
    }
}

/// The rectangle in the middle of another.
pub open spec fn amid(g: Rect, on: Rect) -> Rect {
    Rect {
        x: as_coord(middle(on.x as int, on.w as int, g.w as int)),
        y: as_coord(middle(on.y as int, on.h as int, g.h as int)),
        ..g
    }
}

fn coord(v: i64) -> (r: i32)
    ensures
        r == as_coord(v as int),
{
    if v < i32::MIN as i64 {
        i32::MIN
    } else if v > i32::MAX as i64 {
        i32::MAX
    } else {
        v as i32
    }
}

fn mid_on(start: i32, stretch: u32, len: u32) -> (r: i32)
    ensures
        r == as_coord(middle(start as int, stretch as int, len as int)),
{
    let v: i64 = if stretch >= len {
        start as i64 + ((stretch - len) / 2) as i64
    } else {
        start as i64 - ((len - stretch) / 2) as i64
    };
    coord(v)
}

/// The monitor without a float of one of its workspaces.
pub open spec fn less_float(m: MonitorV, wi: int, win: WindowId) -> MonitorV {
    let w = m.workspaces[wi];
    MonitorV {
        focus_stack: without(m.focus_stack, win),
        ..m.with_ws(wi, WorkspaceV { floats: without(w.floats, win), ..w })
    }
}

/// The monitor with a float on one of its workspaces, last in its focus history.
pub open spec fn plus_float(m: MonitorV, wi: int, win: WindowId) -> MonitorV {
    MonitorV {
        focus_stack: m.focus_stack.push(win),
        ..m.with_ws(wi, m.workspaces[wi].add_float(win))
    }
}

impl Monitor {
    fn drop_float(&mut self, wi: usize, win: WindowId)
        requires
            wi < old(self).workspaces.len(),
        ensures
            final(self)@ == less_float(old(self)@, wi as int, win),
    {
        let ghost m0 = self@;
        assert(m0.workspaces[wi as int] == self.workspaces@[wi as int]@);
        let floats: Vec<WindowId> = without_window(&self.workspaces[wi].floats, win);
        self.workspaces[wi].floats = floats;
        self.focus_stack = without_window(&self.focus_stack, win);
        proof {
            let w = m0.workspaces[wi as int];
            assert(self@.workspaces =~= m0.workspaces.update(
                wi as int,
                WorkspaceV { floats: without(w.floats, win), ..w },
            ));
        }
    }

    fn gain_float(&mut self, wi: usize, win: WindowId)
        requires
            wi < old(self).workspaces.len(),
        ensures
            final(self)@ == plus_float(old(self)@, wi as int, win),
    {
        let ghost m0 = self@;
        assert(m0.workspaces[wi as int] == self.workspaces@[wi as int]@);
        self.workspaces[wi].add_float(win);
        self.focus_stack.push(win);
        assert(self@.workspaces =~= m0.workspaces.update(
            wi as int,
            m0.workspaces[wi as int].add_float(win),
        ));
    }
}

/// The client on its parent's monitor and workspace, floating in the middle of it.
pub open spec fn relinked_client(c: Client, pc: Client) -> Client {
    let g = amid(c.geom, pc.geom);
    Client {
        monitor: pc.monitor,
        workspace: pc.workspace,
        flags: c.flags.with(WinFlags::FLOAT),
        geom: g,
        saved_geom: g,
        geometry_dirty: true,
        ..c
    }
}

/// The state with a child moved to its parent's monitor and workspace.
pub open spec fn relinked(st: StateV, child: WindowId, parent: WindowId) -> StateV {
    let c = st.clients[child];
    let pc = st.clients[parent];
    let (fm, fw) = (c.monitor as int, c.workspace as int);
    let (pm, pw) = (pc.monitor as int, pc.workspace as int);
    let st1 = if st.has_ws(fm, fw) {
        st.with_mon(fm, less_float(st.monitors[fm], fw, child))
    } else {
        st
    };
    let st2 = st1.with_client(child, relinked_client(c, pc));
    if st2.has_ws(pm, pw) {
        st2.with_mon(pm, plus_float(st2.monitors[pm], pw, child))
    } else {
        st2
    }
}

/// Relinking in progress.
pub struct Relinking {
    pub st: StateV,
    /// Children whose parent is still not managed.
    pub waiting: Seq<WindowId>,
    /// Monitors that lost or gained a window.
    pub touched: Seq<usize>,
}

pub open spec fn noted(s: Seq<usize>, m: usize) -> Seq<usize> {
    if s.contains(m) {
        s
    } else {
        s.push(m)
    }
}

impl Relinking {
    /// With one more child looked at.
    pub open spec fn with(self, child: WindowId) -> Relinking {
        match at(self.st.clients, child) {
            Some(c) => match c.transient_parent {
                Some(p) => match at(self.st.clients, p) {
                    Some(pc) => Relinking {
                        st: relinked(self.st, child, p),
                        touched: noted(noted(self.touched, c.monitor), pc.monitor),
                        ..self
                    },
                    None => Relinking { waiting: self.waiting.push(child), ..self },
                },
                None => self,
            },
            None => self,
        }
    }
}

/// The children looked at one after the other.
pub open spec fn relinking(st: StateV, children: Seq<WindowId>) -> Relinking
    decreases children.len(),
{
    if children.len() == 0 {
        Relinking { st, waiting: Seq::empty(), touched: Seq::empty() }
    } else {
        relinking(st, children.drop_last()).with(children.last())
    }
}

/// The state after every waiting child was looked at.
pub open spec fn all_relinked(st: StateV) -> StateV {
    let r = relinking(st, st.pending_transients);
    StateV { pending_transients: r.waiting, ..r.st }
}

fn note(v: &mut Vec<usize>, m: usize)
    ensures
        final(v)@ == noted(old(v)@, m),
{
    let mut i: usize = 0;
    while i < v.len()
        invariant
            i <= v.len(),
            v@ == old(v)@,
            forall|j: int| 0 <= j < i ==> v@[j] != m,
        decreases v.len() - i,
    {
        if v[i] == m {
            assert(v@.contains(m));
            return;
        }
        i = i + 1;
    }
    v.push(m);
}

impl State {
    fn relink(&mut self, child: WindowId, parent: WindowId)
        requires
            old(self)@.clients.contains_key(child),
            old(self)@.clients.contains_key(parent),
        ensures
            final(self)@ == relinked(old(self)@, child, parent),
    {
        let ghost st = self@;
        let (pm, pw, pg): (usize, usize, Rect) = match self.clients.get(&parent) {
            Some(pc) => (pc.monitor, pc.workspace, pc.geom),
            None => {
                return;
            },
        };
        let ghost before = self.clients@;
        let mut c: Client = match self.clients.remove(&child) {
            Some(c) => c,
            None => {
                return;
            },
        };
        let (fm, fw): (usize, usize) = (c.monitor, c.workspace);
        c.monitor = pm;
        c.workspace = pw;
        c.flags.set(WinFlags::FLOAT);
        let g: Rect = Rect::new(
            mid_on(pg.x, pg.w, c.geom.w),
            mid_on(pg.y, pg.h, c.geom.h),
            c.geom.w,
            c.geom.h,
        );
        c.geom = g;
        c.saved_geom = g;
        c.geometry_dirty = true;
        self.clients.insert(child, c);
        assert(self.clients@ =~= before.insert(child, c));
        assert(c == relinked_client(st.clients[child], st.clients[parent]));
        let ghost mut st1 = st;
        if fm < self.monitors.len() {
            assert(st.monitors[fm as int] == self.monitors@[fm as int]@);
            if fw < self.monitors[fm].workspaces.len() {
                self.monitors[fm].drop_float(fw, child);
                proof {
                    st1 = st.with_mon(
                        fm as int,
                        less_float(st.monitors[fm as int], fw as int, child),
                    );
                    assert(self@.monitors =~= st1.monitors);
                }
            }
        }
        assert(self@.monitors =~= st1.monitors);
        let ghost st2 = st1.with_client(child, c);
        if pm < self.monitors.len() {
            assert(st1.monitors[pm as int] == self.monitors@[pm as int]@);
            if pw < self.monitors[pm].workspaces.len() {
                self.monitors[pm].gain_float(pw, child);
                assert(self@.monitors =~= st2.with_mon(
                    pm as int,
                    plus_float(st2.monitors[pm as int], pw as int, child),
                ).monitors);
            }
        }
    }

    /// Move every waiting transient window whose parent is managed now to its
    /// parent's monitor and workspace. The others keep waiting. Returns the
    /// monitors to lay out anew.
    pub fn relink_pending_transients(&mut self) -> (touched: Vec<usize>)
        ensures
            final(self)@ == all_relinked(old(self)@),
            touched@ == relinking(old(self)@, old(self)@.pending_transients).touched,
    {
        let ghost st = self@;
        let pending: Vec<WindowId> = crate::seqs::copy_windows(&self.pending_transients);
        let mut waiting: Vec<WindowId> = Vec::new();
        let mut touched: Vec<usize> = Vec::new();
        let mut i: usize = 0;
        assert(pending@.take(0) =~= Seq::<WindowId>::empty());
        while i < pending.len()
            invariant
                i <= pending.len(),
                pending@ == st.pending_transients,
                self@ == relinking(st, pending@.take(i as int)).st,
                waiting@ == relinking(st, pending@.take(i as int)).waiting,
                touched@ == relinking(st, pending@.take(i as int)).touched,
            decreases pending.len() - i,
        {
            let child: WindowId = pending[i];
            proof {
                let t = pending@.take(i as int + 1);
                assert(t.drop_last() =~= pending@.take(i as int));
                assert(t.last() == child);
            }
            let found: Option<(usize, Option<WindowId>)> = match self.clients.get(&child) {
                Some(c) => Some((c.monitor, c.transient_parent)),
                None => None,
            };
            match found {
                Some((from, Some(p))) => {
                    let to: Option<usize> = match self.clients.get(&p) {
                        Some(pc) => Some(pc.monitor),
                        None => None,
                    };
                    match to {
                        Some(pm) => {
                            self.relink(child, p);
                            note(&mut touched, from);
                            note(&mut touched, pm);
                        },
                        None => {
                            waiting.push(child);
                        },
                    }
                },
                _ => {},
            }
            i = i + 1;
        }
        assert(pending@.take(i as int) =~= pending@);
        self.pending_transients = waiting;
        touched
    }
}

/// Relinking changes neither which windows are managed nor whose child one is.
proof fn relinking_keeps_families(st: StateV, children: Seq<WindowId>)
    ensures
        ({
            let r = relinking(st, children).st;
            &&& r.clients.dom() == st.clients.dom()
            &&& forall|w: WindowId|
                #![trigger r.clients[w]]
                #![trigger st.clients[w]]
                st.clients.contains_key(w) ==> r.clients[w].transient_parent
                    == st.clients[w].transient_parent
        }),
    decreases children.len(),
{
    if children.len() > 0 {
        relinking_keeps_families(st, children.drop_last());
        let a = relinking(st, children.drop_last()).st;
        let b = relinking(st, children).st;
        assert(b.clients.dom() =~= a.clients.dom());
        assert forall|w: WindowId|
            #![trigger b.clients[w]]
            #![trigger st.clients[w]]
            st.clients.contains_key(w) implies b.clients[w].transient_parent
            == st.clients[w].transient_parent by {
            assert(a.clients[w].transient_parent == st.clients[w].transient_parent);
        }
    }
}

/// Whoever still waits is managed and its parent is not.
proof fn waiting_have_no_parent(st: StateV, children: Seq<WindowId>)
    ensures
        forall|i: int|
            0 <= i < relinking(st, children).waiting.len() ==> {
                let w = #[trigger] relinking(st, children).waiting[i];
                &&& st.clients.contains_key(w)
                &&& st.clients[w].transient_parent matches Some(p) && !st.clients.contains_key(p)
            },
    decreases children.len(),
{
    if children.len() > 0 {
        waiting_have_no_parent(st, children.drop_last());
        relinking_keeps_families(st, children.drop_last());
        let a = relinking(st, children.drop_last());
        let child = children.last();
        if a.st.clients.contains_key(child) {
            assert(a.st.clients[child].transient_parent == st.clients[child].transient_parent);
        }
        let b = relinking(st, children);
        assert forall|i: int| 0 <= i < b.waiting.len() implies {
            let w = #[trigger] b.waiting[i];
            &&& st.clients.contains_key(w)
            &&& st.clients[w].transient_parent matches Some(p) && !st.clients.contains_key(p)
        } by {
            if i < a.waiting.len() {
                assert(b.waiting[i] == a.waiting[i]);
            }
        }
    }
}

/// Where every child lacks its parent, looking at them changes nothing.
proof fn orphans_just_wait(st: StateV, children: Seq<WindowId>)
    requires
        forall|i: int|
            0 <= i < children.len() ==> {
                let w = #[trigger] children[i];
                &&& st.clients.contains_key(w)
                &&& st.clients[w].transient_parent matches Some(p) && !st.clients.contains_key(p)
            },
    ensures
        relinking(st, children) == (Relinking {
            st,
            waiting: children,
            touched: Seq::empty(),
        }),
    decreases children.len(),
{
    if children.len() > 0 {
        let t = children.drop_last();
        assert forall|i: int| 0 <= i < t.len() implies {
            let w = #[trigger] t[i];
            &&& st.clients.contains_key(w)
            &&& st.clients[w].transient_parent matches Some(p) && !st.clients.contains_key(p)
        } by {
            assert(t[i] == children[i]);
        }
        orphans_just_wait(st, t);
        assert(children.last() == children[children.len() - 1]);
        assert(t.push(children.last()) =~= children);
    } else {
        assert(children =~= Seq::<WindowId>::empty());
    }
}

/// Relinking again, with nothing newly managed, changes nothing and touches no
/// monitor.
pub proof fn relinking_again_changes_nothing(st: StateV)
    ensures
        all_relinked(all_relinked(st)) == all_relinked(st),
        relinking(
            all_relinked(st),
            all_relinked(st).pending_transients,
        ).touched.len() == 0,
{
    let r = relinking(st, st.pending_transients);
    let once = all_relinked(st);
    waiting_have_no_parent(st, st.pending_transients);
    relinking_keeps_families(st, st.pending_transients);
    assert forall|i: int| 0 <= i < once.pending_transients.len() implies {
        let w = #[trigger] once.pending_transients[i];
        &&& once.clients.contains_key(w)
        &&& once.clients[w].transient_parent matches Some(p) && !once.clients.contains_key(p)
    } by {
        let w = r.waiting[i];
        assert(r.st.clients[w].transient_parent == st.clients[w].transient_parent);
    }
    orphans_just_wait(once, once.pending_transients);
}

// ---- What managing a window is for ------------------------------------------

/// A dialog floats and knows whose it is. Where its parent is managed it comes to
/// the parent's monitor and workspace, and else it waits for the parent where it is.
/// A window without a parent stays as it is, and waits for nobody.
pub proof fn dialog_joins_its_parent(st: StateV, c: Client, p: WindowId)
    ensures
        ({
            let d = parented(st, c, Some(p));
            &&& d.floats() && d.transient_parent == Some(p)
            &&& st.clients.contains_key(p) ==> d.monitor == st.clients[p].monitor && d.workspace
                == st.clients[p].workspace && !waits_for(st, Some(p))
            &&& !st.clients.contains_key(p) ==> d.monitor == c.monitor && d.workspace
                == c.workspace && waits_for(st, Some(p))
            &&& d == (Client {
                transient_parent: d.transient_parent,
                monitor: d.monitor,
                workspace: d.workspace,
                flags: d.flags,
                ..c
            })
            &&& parented(st, c, None) == c && !waits_for(st, None)
        }),
{
    crate::model::flag_is_as_it_was_set(c.flags, WinFlags::FLOAT);
}

/// A floating window comes to the middle of its parent, or of the work area where it
/// has none, and returns there; a tile stays where it is.
pub proof fn float_comes_to_the_middle(c: Client, pg: Option<Rect>, wa: Rect)
    ensures
        ({
            let d = positioned(c, pg, wa);
            &&& !c.floats() ==> d == c
            &&& c.floats() && pg is Some ==> d.geom == centered(c.geom, pg->0, Some(wa))
            &&& c.floats() && pg is None ==> d.geom == centered(c.geom, wa, Some(wa))
            &&& c.floats() ==> d.saved_geom == d.geom
            &&& d == (Client { geom: d.geom, saved_geom: d.saved_geom, ..c })
        }),
{
    reveal(positioned);
}

proof fn portals_keep_the_place(c: Client)
    ensures
        ({
            let d = portaled(c);
            d == (Client { flags: d.flags, border_w: d.border_w, ..c })
        }),
{
    reveal(portaled);
}

proof fn rules_keep_the_place(c: Client, rules: Seq<RuleV>, room: Option<int>)
    ensures
        ({
            let d = ruled(c, rules, room);
            d == (Client {
                flags: d.flags,
                workspace: d.workspace,
                fullscreen_policy: d.fullscreen_policy,
                border_w: d.border_w,
                opacity: d.opacity,
                ..c
            })
        }),
    decreases rules.len(),
{
    if rules.len() > 0 {
        rules_keep_the_place(c, rules.drop_last(), room);
        crate::manage::rule_does_what_it_says(
            ruled(c, rules.drop_last(), room),
            rules.last(),
            room,
        );
    }
}

/// The geometry that a window kept across a restart wins over every other, and one
/// that floated then floats still, as a rule can only add to that. The window, its
/// names and its parent are never touched, nor the monitor that its parent gives it.
pub proof fn kept_geometry_wins(
    st: StateV,
    c: Client,
    parent: Option<WindowId>,
    prefs: (bool, Option<Rect>),
    rules: Seq<RuleV>,
)
    ensures
        ({
            let d = prepared(st, c, parent, prefs, rules);
            &&& prefs.1 matches Some(g) ==> d.geom == g && d.saved_geom == g
            &&& d.window == c.window && d.class == c.class && d.instance == c.instance && d.name
                == c.name
            &&& d.monitor == parented(st, c, parent).monitor
            &&& d.transient_parent == parented(st, c, parent).transient_parent
            &&& rules.len() == 0 ==> d.workspace == parented(st, c, parent).workspace
        }),
{
    let c1 = parented(st, c, parent);
    let m = st.monitors[c1.monitor as int];
    let room = Some((m.workspaces.len() as usize) as int);
    let f = floated(c1, prefs.0);
    let r = ruled(f, rules, room);
    rules_keep_the_place(f, rules, room);
    portals_keep_the_place(r);
    let p = positioned(portaled(r), parent_geom(st, parent), m.workarea);
    float_comes_to_the_middle(portaled(r), parent_geom(st, parent), m.workarea);
    crate::manage::last_rule_places_the_float(p, rules, m.workarea);
}

/// A window that floated before a restart, and a dialog, still float in the end: no
/// rule and no portal makes a tile of a float.
pub proof fn float_stays_a_float(
    st: StateV,
    c: Client,
    parent: Option<WindowId>,
    prefs: (bool, Option<Rect>),
    rules: Seq<RuleV>,
)
    requires
        prefs.0 || parent is Some || c.floats(),
    ensures
        prepared(st, c, parent, prefs, rules).floats(),
{
    let c1 = parented(st, c, parent);
    let m = st.monitors[c1.monitor as int];
    let room = Some((m.workspaces.len() as usize) as int);
    let f = floated(c1, prefs.0);
    crate::model::flag_is_as_it_was_set(c.flags, WinFlags::FLOAT);
    crate::model::flag_is_as_it_was_set(c1.flags, WinFlags::FLOAT);
    rules_keep_floats(f, rules, room);
    let r = ruled(f, rules, room);
    portal_keeps_floats(r);
    float_comes_to_the_middle(portaled(r), parent_geom(st, parent), m.workarea);
    crate::manage::last_rule_places_the_float(
        positioned(portaled(r), parent_geom(st, parent), m.workarea),
        rules,
        m.workarea,
    );
}

proof fn portal_keeps_floats(c: Client)
    requires
        c.floats(),
    ensures
        portaled(c).floats(),
{
    reveal(portaled);
    crate::manage::portals_float(
        c,
        crate::text::lowercased(c.class@),
        crate::text::lowercased(c.name@),
    );
}

proof fn rules_keep_floats(c: Client, rules: Seq<RuleV>, room: Option<int>)
    requires
        c.floats(),
    ensures
        ruled(c, rules, room).floats(),
    decreases rules.len(),
{
    if rules.len() > 0 {
        rules_keep_floats(c, rules.drop_last(), room);
        crate::manage::rule_does_what_it_says(
            ruled(c, rules.drop_last(), room),
            rules.last(),
            room,
        );
    }
}

/// A window that is managed is known under its own id, and stands on its workspace
/// as the tile or the float that it is: a tile in a column of its own with the
/// ribbon's focus and the width asked for, a float on top of the others. No other
/// window moves, and no other client or monitor changes.
pub proof fn managed_window_stands_on_its_workspace(st: StateV, c: Client, width: u32)
    requires
        st.has_ws(c.monitor as int, c.workspace as int),
        ({
            let w = st.monitors[c.monitor as int].workspaces[c.workspace as int];
            !w.tiles(c.window) && !w.floats.contains(c.window) && w.column_idx >= 0
        }),
    ensures
        ({
            let (mi, wi) = (c.monitor as int, c.workspace as int);
            let w = st.monitors[mi].workspaces[wi];
            let after = inserted(st, c, width);
            let now = after.monitors[mi].workspaces[wi];
            &&& after.clients.contains_key(c.window) && after.clients[c.window] == c
            &&& now.tiles(c.window) == !c.flags.on(WinFlags::FLOAT)
            &&& now.floats.contains(c.window) == c.flags.on(WinFlags::FLOAT)
            &&& !c.floats() ==> now.focused_win() == Some(c.window)
                && now.columns[now.column_idx].width == width
                && now.columns[now.column_idx].windows.len() == 1
            &&& c.floats() ==> now.floats.last() == c.window
            &&& forall|x: WindowId| x != c.window ==> now.tiles(x) == #[trigger] w.tiles(x)
            &&& forall|x: WindowId|
                x != c.window ==> now.floats.contains(x) == #[trigger] w.floats.contains(x)
            &&& forall|x: WindowId|
                x != c.window && st.clients.contains_key(x) ==> #[trigger] after.clients[x]
                    == st.clients[x]
            &&& forall|i: int|
                0 <= i < st.monitors.len() && i != mi ==> #[trigger] after.monitors[i]
                    == st.monitors[i]
            &&& forall|k: int|
                0 <= k < st.monitors[mi].workspaces.len() && k != wi ==> #[trigger]
                after.monitors[mi].workspaces[k] == st.monitors[mi].workspaces[k]
            &&& after.monitors[mi].focused == st.monitors[mi].focused
            &&& after.sel_mon == st.sel_mon
        }),
{
    let w = st.monitors[c.monitor as int].workspaces[c.workspace as int];
    crate::actions::placed_window_is_a_tile_or_a_float(w, c.window, c.floats(), width);
    crate::workspace::tiled_window_opens_a_column(w, c.window, width);
}

/// A new window arrives silently just where its workspace has a fullscreen or
/// maximized window and it is no dialog of such a one there. It then asks for
/// attention; else it is as it was prepared, and no focus is put off on its account.
/// Its parent, where that is missing, is noted as waited for.
pub proof fn new_window_waits_behind_an_overlay(st: StateV, c: Client, wait: bool, width: u32)
    requires
        st.has_ws(c.monitor as int, c.workspace as int),
    ensures
        ({
            let in_place = inserted(st, c, width);
            let here = in_place.monitors[c.monitor as int].workspaces[c.workspace as int];
            let after = managed_state(st, c, wait, width);
            let silent = (exists|w: WindowId| #[trigger]
                stands_there(in_place, here, w)) && !(c.transient_parent is Some && stands_there(
                in_place,
                here,
                c.transient_parent->0,
            ));
            &&& silent ==> after.clients[c.window].flags.on(WinFlags::URGENT)
            &&& !silent ==> after.clients[c.window] == c && after.pending_focus
                == st.pending_focus
            &&& after.clients[c.window] == (Client {
                flags: after.clients[c.window].flags,
                ..c
            })
            &&& after.monitors == in_place.monitors
            &&& wait ==> after.pending_transients == st.pending_transients.push(c.window)
            &&& !wait ==> after.pending_transients == st.pending_transients
        }),
{
    let in_place = inserted(st, c, width);
    let (mi, wi) = (c.monitor as int, c.workspace as int);
    let here = in_place.monitors[mi].workspaces[wi];
    let all = all_windows(here);
    let st2 = if wait {
        StateV { pending_transients: in_place.pending_transients.push(c.window), ..in_place }
    } else {
        in_place
    };
    crate::model::flag_is_as_it_was_set(c.flags, WinFlags::URGENT);
    if exists|i: int| 0 <= i < all.len() && overlays(st2.clients, #[trigger] all[i]) {
        let i = choose|i: int| 0 <= i < all.len() && overlays(st2.clients, #[trigger] all[i]);
        crate::overlay::listed_windows_are_those_held(here, all[i]);
        assert(all.contains(all[i]));
        assert(stands_there(in_place, here, all[i]));
    }
    if exists|w: WindowId| #[trigger] stands_there(in_place, here, w) {
        let w = choose|w: WindowId| #[trigger] stands_there(in_place, here, w);
        crate::overlay::listed_windows_are_those_held(here, w);
        let i = choose|i: int| 0 <= i < all.len() && all[i] == w;
        assert(overlays(st2.clients, all[i]));
    }
    if c.transient_parent is Some {
        crate::overlay::listed_windows_are_those_held(here, c.transient_parent->0);
    }
}

/// `w` is a managed window of the workspace that is fullscreen or maximized.
pub open spec fn stands_there(st: StateV, ws: WorkspaceV, w: WindowId) -> bool {
    &&& ws.tiles(w) || ws.floats.contains(w)
    &&& st.clients.contains_key(w)
    &&& st.clients[w].flags.on(WinFlags::FULLSCREEN) || st.clients[w].flags.on(
        WinFlags::MAXIMIZED_V,
    ) || st.clients[w].flags.on(WinFlags::MAXIMIZED_H)
}

/// A child that found its parent is on the parent's monitor and workspace, floats
/// there in the middle of it, last in the order of focus, and left the floats of
/// where it was. No other client changes.
pub proof fn relinked_child_is_with_its_parent(st: StateV, child: WindowId, parent: WindowId)
    requires
        st.clients.contains_key(child),
        st.clients.contains_key(parent),
        child != parent,
        st.has_ws(st.clients[parent].monitor as int, st.clients[parent].workspace as int),
    ensures
        ({
            let pc = st.clients[parent];
            let c = st.clients[child];
            let after = relinked(st, child, parent);
            let d = after.clients[child];
            let m = after.monitors[pc.monitor as int];
            let left = d.geom.x - pc.geom.x;
            let right = (pc.geom.x + pc.geom.w) - (d.geom.x + d.geom.w);
            let above = d.geom.y - pc.geom.y;
            let below = (pc.geom.y + pc.geom.h) - (d.geom.y + d.geom.h);
            &&& d.monitor == pc.monitor && d.workspace == pc.workspace && d.floats()
            &&& d.geom.w == c.geom.w && d.geom.h == c.geom.h && d.saved_geom == d.geom
            &&& i32::MIN < d.geom.x < i32::MAX ==> -1 <= left - right <= 1
            &&& i32::MIN < d.geom.y < i32::MAX ==> -1 <= above - below <= 1
            &&& m.workspaces[pc.workspace as int].floats.len() > 0
                && m.workspaces[pc.workspace as int].floats.last() == child
            &&& m.focus_stack.len() > 0 && m.focus_stack.last() == child
            &&& st.has_ws(c.monitor as int, c.workspace as int) && (c.monitor != pc.monitor
                || c.workspace != pc.workspace)
                ==> !after.monitors[c.monitor as int].workspaces[c.workspace as int].floats.contains(
                child,
            )
            &&& forall|x: WindowId|
                x != child && st.clients.contains_key(x) ==> #[trigger] after.clients[x]
                    == st.clients[x]
            &&& after.clients.dom() == st.clients.dom()
        }),
{
    let pc = st.clients[parent];
    let c = st.clients[child];
    crate::model::flag_is_as_it_was_set(c.flags, WinFlags::FLOAT);
    let (fm, fw) = (c.monitor as int, c.workspace as int);
    if st.has_ws(fm, fw) {
        crate::seqs::without_contains(st.monitors[fm].workspaces[fw].floats, child);
    }
    let after = relinked(st, child, parent);
    assert(after.clients.dom() =~= st.clients.dom());
}

/// A child that waits is looked at once: it goes on waiting just where its parent is
/// still not managed.
pub proof fn only_orphans_keep_waiting(st: StateV, w: WindowId)
    ensures
        all_relinked(st).pending_transients.contains(w) <==> st.pending_transients.contains(w)
            && st.clients.contains_key(w) && st.clients[w].transient_parent is Some
            && !st.clients.contains_key(st.clients[w].transient_parent->0),
{
    waiting_is_for_orphans(st, st.pending_transients, w);
}

proof fn waiting_is_for_orphans(st: StateV, children: Seq<WindowId>, w: WindowId)
    ensures
        relinking(st, children).waiting.contains(w) <==> children.contains(w)
            && st.clients.contains_key(w) && st.clients[w].transient_parent is Some
            && !st.clients.contains_key(st.clients[w].transient_parent->0),
    decreases children.len(),
{
    if children.len() > 0 {
        let t = children.drop_last();
        let l = children.last();
        waiting_is_for_orphans(st, t, w);
        relinking_keeps_families(st, t);
        let r = relinking(st, t);
        let s = relinking(st, children);
        assert(s.waiting == r.waiting || s.waiting == r.waiting.push(l));
        assert(children[children.len() - 1] == l);
        if t.contains(w) {
            let i = choose|i: int| 0 <= i < t.len() && t[i] == w;
            assert(children[i] == w);
        }
        if children.contains(w) && w != l {
            let i = choose|i: int| 0 <= i < children.len() && children[i] == w;
            assert(t[i] == w);
        }
        if r.waiting.contains(w) {
            let i = choose|i: int| 0 <= i < r.waiting.len() && r.waiting[i] == w;
            assert(s.waiting[i] == w);
        }
        if s.waiting == r.waiting.push(l) {
            assert(s.waiting[r.waiting.len() as int] == l);
        }
        if st.clients.contains_key(l) {
            assert(r.st.clients[l].transient_parent == st.clients[l].transient_parent);
        }
    }
}

} // verus!
