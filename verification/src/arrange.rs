//! Carrying a layout out: hiding, emitting geometry, stacking.

use crate::floats::{clamp_float_to_workarea, clampable, clamped};
use crate::geom::Rect;
use crate::model::{Client, WindowId};
use crate::overlay::{are_sticky, covering, managed, owned_in, peeking, stack_order};
use crate::reconciler::{
    is_dirty, owes_configure, reconcile, reconciled, recorded, AppliedState, AppliedWindow,
    DesiredState, DesiredWindow, GeometryEffect,
};
use crate::seqs::{contains_window, copy_windows, filter_take_step};
use crate::state::{client_ids, workspace_views, MonitorV, State, StateV};
use crate::transient::transient_chain_reaches;
use crate::workspace::WorkspaceV;
use vstd::prelude::*;

verus! {

broadcast use vstd::std_specs::hash::group_hash_axioms;

/// What [`State::plan_stack`] remembers of a monitor from one pass to the next.
#[derive(Debug)]
pub struct StackMemo {
    /// The order raised last, if any was.
    pub order: Option<Vec<WindowId>>,
    /// The window that covered the screen.
    pub covering: Option<WindowId>,
}

impl StackMemo {
    pub open spec fn order_view(self) -> Option<Seq<WindowId>> {
        match self.order {
            Some(v) => Some(v@),
            None => None,
        }
    }
}

/// What to restack on a monitor.
#[derive(Debug)]
pub struct StackPlan {
    /// Raise these, in this order.
    pub raise: Vec<WindowId>,
    /// Drop this one to the bottom, and raise the monitor's docks after it.
    pub lower: Option<WindowId>,
    /// Raise this one above everything.
    pub cover: Option<WindowId>,
}

/// One stacking pass: what it restacks and what it remembers.
pub struct StackPass {
    pub raise: Seq<WindowId>,
    pub lower: Option<WindowId>,
    pub cover: Option<WindowId>,
    pub order: Seq<WindowId>,
    pub covering: Option<WindowId>,
}

/// The pass over monitor `mi` after one that left `last` raised and `was`
/// covering. Windows are raised only if the order is not the one raised last;
/// the covering window is raised, and the previous one dropped, only if it is
/// another one. A window covers only while the camera is at rest.
pub open spec fn stack_pass(
    st: StateV,
    mi: int,
    sticky: Seq<WindowId>,
    settled: bool,
    last: Option<Seq<WindowId>>,
    was: Option<WindowId>,
) -> StackPass {
    let order = stack_order(st, mi, sticky);
    let now = if settled {
        covering(st, mi)
    } else {
        None
    };
    StackPass {
        raise: if last == Some(order) {
            Seq::empty()
        } else {
            order
        },
        lower: if was == now {
            None
        } else {
            was
        },
        cover: if was == now {
            None
        } else {
            now
        },
        order,
        covering: now,
    }
}

fn same_windows(a: &Vec<WindowId>, b: &Vec<WindowId>) -> (r: bool)
    ensures
        r == (a@ == b@),
{
    if a.len() != b.len() {
        return false;
    }
    let mut i: usize = 0;
    while i < a.len()
        invariant
            i <= a.len(),
            a.len() == b.len(),
            forall|j: int| 0 <= j < i ==> a@[j] == b@[j],
        decreases a.len() - i,
    {
        if a[i] != b[i] {
            return false;
        }
        i = i + 1;
    }
    assert(a@ =~= b@);
    true
}

impl State {
    /// The raise order of monitor `mi`, given its sticky windows.
    pub fn stack_order(&self, mi: usize, sticky: &Vec<WindowId>) -> (order: Vec<WindowId>)
        requires
            self@.shows(mi as int),
        ensures
            order@ == stack_order(self@, mi as int, sticky@),
    {
        proof {
            assert(self@.monitors[mi as int] == self.monitors@[mi as int]@);
        }
        let m = &self.monitors[mi];
        let ws = &m.workspaces[m.active_ws];
        let pres: Vec<WindowId> = self.presented_windows(mi);
        let mut order: Vec<WindowId> = Vec::new();
        let ghost mp = managed(self@.clients);
        let ghost op = owned_in(self@.clients, pres@);
        let mut i: usize = 0;
        proof {
            reveal(Seq::filter);
            assert(order@ =~= ws.floats@.take(0).filter(mp));
        }
        while i < ws.floats.len()
            invariant
                i <= ws.floats.len(),
                mp == managed(self@.clients),
                order@ == ws.floats@.take(i as int).filter(mp),
            decreases ws.floats.len() - i,
        {
            proof {
                filter_take_step(ws.floats@, i as int, mp);
            }
            if self.clients.contains_key(&ws.floats[i]) {
                order.push(ws.floats[i]);
            }
            i = i + 1;
        }
        assert(ws.floats@.take(i as int) =~= ws.floats@);
        let mut st: Vec<WindowId> = copy_windows(sticky);
        order.append(&mut st);
        let mut pr: Vec<WindowId> = copy_windows(&pres);
        order.append(&mut pr);
        if pres.len() > 0 {
            match m.focused {
                Some(f) => {
                    if !contains_window(&pres, f) {
                        match self.clients.get(&f) {
                            Some(c) => {
                                if c.is_float() {
                                    order.push(f);
                                }
                            },
                            None => {},
                        }
                    }
                },
                None => {},
            }
        }
        let ghost base = order@;
        assert(base =~= ws.floats@.filter(mp) + sticky@ + pres@ + peeking(self@, mi as int));
        let mut k: usize = 0;
        proof {
            reveal(Seq::filter);
            assert(order@ =~= base + ws.floats@.take(0).filter(op));
        }
        while k < ws.floats.len()
            invariant
                k <= ws.floats.len(),
                op == owned_in(self@.clients, pres@),
                order@ == base + ws.floats@.take(k as int).filter(op),
            decreases ws.floats.len() - k,
        {
            proof {
                filter_take_step(ws.floats@, k as int, op);
            }
            if transient_chain_reaches(&self.clients, ws.floats[k], &pres) {
                order.push(ws.floats[k]);
                assert(order@ =~= base + ws.floats@.take(k as int).filter(op).push(
                    ws.floats@[k as int],
                ));
            }
            k = k + 1;
        }
        assert(ws.floats@.take(k as int) =~= ws.floats@);
        order
    }

    /// Decide what to restack on monitor `mi`. Nothing is raised again while
    /// the order is what it was; the covering window is raised, and the previous
    /// one dropped, only when it changes. A window covers only while the camera
    /// is at rest (`settled`).
    pub fn plan_stack(
        &self,
        mi: usize,
        sticky: &Vec<WindowId>,
        settled: bool,
        memo: &mut StackMemo,
    ) -> (plan: StackPlan)
        requires
            self@.shows(mi as int),
        ensures
            ({
                let p = stack_pass(
                    self@,
                    mi as int,
                    sticky@,
                    settled,
                    old(memo).order_view(),
                    old(memo).covering,
                );
                &&& plan.raise@ == p.raise
                &&& plan.lower == p.lower
                &&& plan.cover == p.cover
                &&& final(memo).order_view() == Some(p.order)
                &&& final(memo).covering == p.covering
            }),
    {
        let order: Vec<WindowId> = self.stack_order(mi, sticky);
        let unchanged: bool = match &memo.order {
            Some(prev) => same_windows(prev, &order),
            None => false,
        };
        let raise: Vec<WindowId> = if unchanged {
            Vec::new()
        } else {
            copy_windows(&order)
        };
        let cover: Option<WindowId> = if settled {
            self.covering_fullscreen_window(mi)
        } else {
            None
        };
        let was: Option<WindowId> = memo.covering;
        let mut plan = StackPlan { raise, lower: None, cover: None };
        if was != cover {
            plan.lower = was;
            plan.cover = cover;
        }
        memo.order = Some(order);
        memo.covering = cover;
        plan
    }
}

/// A second pass over an unchanged state is silent: it raises, drops and covers
/// nothing.
pub proof fn unchanged_stack_is_left_alone(
    st: StateV,
    mi: int,
    sticky: Seq<WindowId>,
    settled: bool,
    order: Option<Seq<WindowId>>,
    cover: Option<WindowId>,
)
    requires
        st.shows(mi),
    ensures
        ({
            let p1 = stack_pass(st, mi, sticky, settled, order, cover);
            let p2 = stack_pass(st, mi, sticky, settled, Some(p1.order), p1.covering);
            p2.raise.len() == 0 && p2.lower is None && p2.cover is None
        }),
{
}

/// What to do with one window of a monitor when its workspace comes or goes.
#[derive(Debug, Clone, Copy, PartialEq, Eq, Structural)]
pub enum HideStep {
    Keep,
    /// Move it off the screen; `other_ws`: it belongs to a workspace that is
    /// not on show.
    Hide { rect: Rect, border: u32, other_ws: bool },
    /// Bring it back.
    Show { rect: Rect, border: u32 },
}

/// The x coordinate at which a window of width `w` is out of sight.
pub open spec fn offscreen_x(w: u32) -> int {
    let v = if w <= i32::MAX {
        w as int
    } else {
        i32::MAX as int
    };
    if v + 200 > i32::MAX {
        -(i32::MAX as int)
    } else {
        -(v + 200)
    }
}

/// The step for a client that is (`shown`) or is not on the workspace on show.
pub open spec fn hide_step_of(c: Client, shown: bool, active_ws: int) -> HideStep {
    if !shown && !c.wm_hidden {
        HideStep::Hide {
            rect: Rect { x: offscreen_x(c.geom.w) as i32, ..c.geom },
            border: c.border_w,
            other_ws: c.workspace != active_ws,
        }
    } else if shown && c.wm_hidden {
        HideStep::Show { rect: c.geom, border: c.border_w }
    } else {
        HideStep::Keep
    }
}

/// Decide whether a window is moved out of sight, brought back, or left.
pub fn hide_step(c: &Client, shown: bool, active_ws: usize) -> (s: HideStep)
    ensures
        s == hide_step_of(*c, shown, active_ws as int),
{
    if !shown && !c.wm_hidden {
        let w: i64 = if c.geom.w <= 0x7fff_ffff {
            c.geom.w as i64
        } else {
            0x7fff_ffff
        };
        let off: i64 = if w + 200 > 0x7fff_ffff {
            0x7fff_ffff
        } else {
            w + 200
        };
        HideStep::Hide {
            rect: Rect { x: (-off) as i32, y: c.geom.y, w: c.geom.w, h: c.geom.h },
            border: c.border_w,
            other_ws: c.workspace != active_ws,
        }
    } else if shown && c.wm_hidden {
        HideStep::Show {
            rect: Rect { x: c.geom.x, y: c.geom.y, w: c.geom.w, h: c.geom.h },
            border: c.border_w,
        }
    } else {
        HideStep::Keep
    }
}

/// `c` after the step was carried out.
pub open spec fn after_hide(c: Client, s: HideStep) -> Client {
    match s {
        HideStep::Keep => c,
        HideStep::Hide { .. } => Client { wm_hidden: true, ..c },
        HideStep::Show { .. } => Client { wm_hidden: false, ..c },
    }
}

/// A window that was just hidden or shown needs no further step, and its
/// logical geometry is what it was.
pub proof fn hiding_is_settled_in_one_step(c: Client, shown: bool, active_ws: int)
    ensures
        ({
            let d = after_hide(c, hide_step_of(c, shown, active_ws));
            hide_step_of(d, shown, active_ws) == HideStep::Keep && d.geom == c.geom
        }),
{
}

/// A window moved out of sight ends left of every visible column.
pub proof fn hidden_window_is_off_the_screen(c: Client, active_ws: int)
    requires
        !c.wm_hidden,
        c.geom.w <= 0x7fff_ff00,
    ensures
        hide_step_of(c, false, active_ws) matches HideStep::Hide { rect, .. } && rect.x + rect.w
            == -200,
{
}

/// `win` is visible while monitor `mi` shows its current workspace: it is on
/// it, or sticky.
pub open spec fn shown_on(st: StateV, mi: int, win: WindowId) -> bool {
    st.monitors[mi].ws().holds(win) || (st.clients.contains_key(win) && st.clients[win].monitor
        == mi && st.clients[win].flags.on(crate::model::WinFlags::STICKY))
}

impl State {
    /// The steps for the windows of monitor `mi` that need one, in no
    /// particular order.
    pub fn hide_plan(&self, mi: usize) -> (plan: Vec<(WindowId, HideStep)>)
        requires
            self@.shows(mi as int),
        ensures
            forall|i: int|
                0 <= i < plan@.len() ==> {
                    let (w, s) = #[trigger] plan@[i];
                    &&& self@.clients.contains_key(w)
                    &&& self@.clients[w].monitor == mi
                    &&& s == hide_step_of(
                        self@.clients[w],
                        shown_on(self@, mi as int, w),
                        self@.monitors[mi as int].active_ws,
                    )
                    &&& s != HideStep::Keep
                },
            forall|i: int, j: int|
                0 <= i < j < plan@.len() ==> (#[trigger] plan@[i]).0 != (#[trigger] plan@[j]).0,
            forall|w: WindowId|
                #![trigger self@.clients.contains_key(w)]
                self@.clients.contains_key(w) && self@.clients[w].monitor == mi && hide_step_of(
                    self@.clients[w],
                    shown_on(self@, mi as int, w),
                    self@.monitors[mi as int].active_ws,
                ) != HideStep::Keep ==> exists|i: int|
                    0 <= i < plan@.len() && (#[trigger] plan@[i]).0 == w,
    {
        proof {
            assert(self@.monitors[mi as int] == self.monitors@[mi as int]@);
        }
        let ids: Vec<WindowId> = client_ids(&self.clients);
        let active: usize = self.monitors[mi].active_ws;
        let ws = &self.monitors[mi].workspaces[active];
        let mut plan: Vec<(WindowId, HideStep)> = Vec::new();
        let mut i: usize = 0;
        while i < ids.len()
            invariant
                i <= ids.len(),
                self@.shows(mi as int),
                active == self@.monitors[mi as int].active_ws,
                ws@ == self@.monitors[mi as int].ws(),
                ids@.no_duplicates(),
                forall|w: WindowId| #[trigger]
                    ids@.contains(w) <==> self@.clients.contains_key(w),
                forall|k: int|
                    0 <= k < plan@.len() ==> {
                        let (w, s) = #[trigger] plan@[k];
                        &&& self@.clients.contains_key(w)
                        &&& self@.clients[w].monitor == mi
                        &&& s == hide_step_of(
                            self@.clients[w],
                            shown_on(self@, mi as int, w),
                            self@.monitors[mi as int].active_ws,
                        )
                        &&& s != HideStep::Keep
                        &&& exists|j: int| 0 <= j < i && ids@[j] == w
                    },
                forall|k: int, l: int|
                    0 <= k < l < plan@.len() ==> (#[trigger] plan@[k]).0 != (#[trigger] plan@[l]).0,
                forall|j: int|
                    0 <= j < i && self@.clients[#[trigger] ids@[j]].monitor == mi && hide_step_of(
                        self@.clients[ids@[j]],
                        shown_on(self@, mi as int, ids@[j]),
                        self@.monitors[mi as int].active_ws,
                    ) != HideStep::Keep ==> exists|k: int|
                        0 <= k < plan@.len() && (#[trigger] plan@[k]).0 == ids@[j],
            decreases ids.len() - i,
        {
            let w: WindowId = ids[i];
            assert(ids@.contains(w));
            let ghost before = plan@;
            match self.clients.get(&w) {
                Some(c) => {
                    if c.monitor == mi {
                        let shown: bool = ws.holds(w) || c.is_sticky();
                        let s: HideStep = hide_step(c, shown, active);
                        if s != HideStep::Keep {
                            plan.push((w, s));
                            proof {
                                assert(plan@[before.len() as int] == (w, s));
                                assert(ids@[i as int] == w);
                            }
                        }
                    }
                },
                None => {},
            }
            proof {
                assert forall|j: int|
                    0 <= j < i + 1 && self@.clients[#[trigger] ids@[j]].monitor == mi
                        && hide_step_of(
                        self@.clients[ids@[j]],
                        shown_on(self@, mi as int, ids@[j]),
                        self@.monitors[mi as int].active_ws,
                    ) != HideStep::Keep implies exists|k: int|
                    0 <= k < plan@.len() && (#[trigger] plan@[k]).0 == ids@[j] by {
                    if j < i {
                        let k = choose|k: int|
                            0 <= k < before.len() && (#[trigger] before[k]).0 == ids@[j];
                        assert(plan@[k].0 == ids@[j]);
                    } else {
                        assert(plan@[before.len() as int].0 == ids@[j]);
                    }
                }
            }
            i = i + 1;
        }
        proof {
            assert forall|w: WindowId|
                #![trigger self@.clients.contains_key(w)]
                self@.clients.contains_key(w) && self@.clients[w].monitor == mi && hide_step_of(
                    self@.clients[w],
                    shown_on(self@, mi as int, w),
                    self@.monitors[mi as int].active_ws,
                ) != HideStep::Keep implies exists|k: int|
                0 <= k < plan@.len() && (#[trigger] plan@[k]).0 == w by {
                assert(ids@.contains(w));
                let j = choose|j: int| 0 <= j < ids@.len() && ids@[j] == w;
                assert(ids@[j] == w);
            }
        }
        plan
    }
}

/// The geometry of a synthetic `ConfigureNotify`, in the widths of its fields.
#[derive(Debug, Clone, Copy, PartialEq, Eq, Structural)]
pub struct NotifyGeometry {
    pub x: i16,
    pub y: i16,
    pub width: u16,
    pub height: u16,
    pub border_width: u16,
}

/// `v` brought into `lo..=hi`.
pub open spec fn pinned(v: int, lo: int, hi: int) -> int {
    if v < lo {
        lo
    } else if v > hi {
        hi
    } else {
        v
    }
}

/// Geometry and border, each pinned to the range of its field.
pub open spec fn pinned_notify(g: Rect, bw: u32) -> NotifyGeometry {
    NotifyGeometry {
        x: pinned(g.x as int, -32768, 32767) as i16,
        y: pinned(g.y as int, -32768, 32767) as i16,
        width: pinned(g.w as int, 0, 65535) as u16,
        height: pinned(g.h as int, 0, 65535) as u16,
        border_width: pinned(bw as int, 0, 65535) as u16,
    }
}

fn pin_i16(v: i32) -> (r: i16)
    ensures
        r == pinned(v as int, -32768, 32767),
{
    if v < -32768 {
        -32768
    } else if v > 32767 {
        32767
    } else {
        v as i16
    }
}

fn pin_u16(v: u32) -> (r: u16)
    ensures
        r == pinned(v as int, 0, 65535),
{
    if v > 65535 {
        65535
    } else {
        v as u16
    }
}

/// The notify that tells a client its new geometry.
pub fn notify_geometry(g: Rect, bw: u32) -> (n: NotifyGeometry)
    ensures
        n == pinned_notify(g, bw),
{
    NotifyGeometry {
        x: pin_i16(g.x),
        y: pin_i16(g.y),
        width: pin_u16(g.w),
        height: pin_u16(g.h),
        border_width: pin_u16(bw),
    }
}

/// The outer size and corner radius of a shape mask.
#[derive(Debug, Clone, Copy, PartialEq, Eq, Structural)]
pub struct RoundMask {
    pub outer_w: u32,
    pub outer_h: u32,
    pub radius: i32,
}

/// What to send for one window's geometry.
#[derive(Debug, Clone, Copy, PartialEq, Eq, Structural)]
pub struct Emission {
    pub win: WindowId,
    pub rect: Rect,
    pub border: u32,
    pub notify: NotifyGeometry,
    pub round: Option<RoundMask>,
}

/// How geometry is written: the corner radius in force, and whether a
/// compositor draws the corners itself.
#[derive(Debug, Clone, Copy, PartialEq, Eq, Structural)]
pub struct EmitStyle {
    pub corner_radius: u32,
    pub composited: bool,
}

/// The frame of `g` is measurable and the radius is an X coordinate.
pub open spec fn emittable(g: Rect, bw: u32, style: EmitStyle) -> bool {
    g.w + 2 * bw <= u32::MAX && g.h + 2 * bw <= u32::MAX && style.corner_radius <= i32::MAX
}

/// What is sent for client `c` at `g`. A fullscreen window is always square.
pub open spec fn emission_of(c: Client, win: WindowId, g: Rect, bw: u32, style: EmitStyle) -> Emission {
    Emission {
        win,
        rect: g,
        border: bw,
        notify: pinned_notify(g, bw),
        round: if style.corner_radius > 0 && !style.composited {
            Some(
                RoundMask {
                    outer_w: (g.w + 2 * bw) as u32,
                    outer_h: (g.h + 2 * bw) as u32,
                    radius: if c.fullscreen() {
                        0
                    } else {
                        style.corner_radius as i32
                    },
                },
            )
        } else {
            None
        },
    }
}

/// `c` after `g` was written to it; `write`: the model follows.
pub open spec fn client_emitted(c: Client, g: Rect, bw: u32, write: bool) -> Client {
    if write {
        Client { geom: g, border_w: bw, geometry_dirty: false, ..c }
    } else {
        Client { geometry_dirty: false, ..c }
    }
}

/// The state after `g` was written to `win`: no transition of it is pending,
/// and its monitor's projection is stale.
pub open spec fn emitted(st: StateV, win: WindowId, g: Rect, bw: u32, write: bool) -> StateV {
    if st.clients.contains_key(win) {
        let c = st.clients[win];
        let s1 = st.with_client(win, client_emitted(c, g, bw, write));
        if c.monitor < st.monitors.len() {
            s1.with_mon(
                c.monitor as int,
                MonitorV { layout_dirty: true, ..st.monitors[c.monitor as int] },
            )
        } else {
            s1
        }
    } else {
        st
    }
}

impl State {
    /// Write geometry to one window. Nothing is sent to a window that is not
    /// managed.
    pub fn emit_geometry(
        &mut self,
        win: WindowId,
        g: Rect,
        bw: u32,
        write: bool,
        style: EmitStyle,
    ) -> (e: Option<Emission>)
        requires
            emittable(g, bw, style),
        ensures
            final(self)@ == emitted(old(self)@, win, g, bw, write),
            e == (if old(self)@.clients.contains_key(win) {
                Some(emission_of(old(self)@.clients[win], win, g, bw, style))
            } else {
                None
            }),
    {
        match self.clients.remove(&win) {
            None => {
                assert(self.clients@ =~= old(self).clients@);
                None
            },
            Some(c0) => {
                let mut c: Client = c0;
                let mon: usize = c.monitor;
                let fs: bool = c.is_fullscreen();
                if write {
                    c.geom = g;
                    c.border_w = bw;
                }
                c.geometry_dirty = false;
                self.clients.insert(win, c);
                proof {
                    assert(self.clients@ =~= old(self).clients@.insert(
                        win,
                        client_emitted(old(self)@.clients[win], g, bw, write),
                    ));
                }
                if mon < self.monitors.len() {
                    self.monitors[mon].layout_dirty = true;
                    proof {
                        assert(self@.monitors =~= old(self)@.monitors.update(
                            mon as int,
                            MonitorV { layout_dirty: true, ..old(self)@.monitors[mon as int] },
                        ));
                    }
                }
                let round: Option<RoundMask> = if style.corner_radius > 0 && !style.composited {
                    Some(
                        RoundMask {
                            outer_w: g.w + 2 * bw,
                            outer_h: g.h + 2 * bw,
                            radius: if fs {
                                0
                            } else {
                                style.corner_radius as i32
                            },
                        },
                    )
                } else {
                    None
                };
                Some(Emission { win, rect: g, border: bw, notify: notify_geometry(g, bw), round })
            },
        }
    }

    /// Bring one window to `g`, unless it is there already and no transition of
    /// it is pending.
    pub fn apply_geom(
        &mut self,
        applied: &mut AppliedState,
        win: WindowId,
        g: Rect,
        bw: u32,
        write: bool,
        style: EmitStyle,
    ) -> (e: Option<Emission>)
        requires
            emittable(g, bw, style),
        ensures
            owes_configure(old(applied)@, win, g, bw, is_dirty(old(self)@.clients, win)) ==> {
                &&& final(applied)@ == recorded(old(applied)@, win, g, bw)
                &&& final(self)@ == emitted(old(self)@, win, g, bw, write)
                &&& e == (if old(self)@.clients.contains_key(win) {
                    Some(emission_of(old(self)@.clients[win], win, g, bw, style))
                } else {
                    None
                })
            },
            !owes_configure(old(applied)@, win, g, bw, is_dirty(old(self)@.clients, win)) ==> {
                &&& final(applied)@ == old(applied)@
                &&& final(self)@ == old(self)@
                &&& e is None
            },
    {
        let dirty: bool = match self.clients.get(&win) {
            Some(c) => c.geometry_dirty,
            None => false,
        };
        match applied.diff(win, g, bw, dirty) {
            Some((r, b)) => self.emit_geometry(win, r, b, write, style),
            None => None,
        }
    }
}

/// Every desired window's rectangle noted on its client.
pub open spec fn desire_noted(clients: Map<WindowId, Client>, ds: Seq<DesiredWindow>) -> Map<
    WindowId,
    Client,
>
    decreases ds.len(),
{
    if ds.len() == 0 {
        clients
    } else {
        let m = desire_noted(clients, ds.drop_last());
        let d = ds.last();
        if m.contains_key(d.window) {
            m.insert(d.window, Client { last_desired: Some(d.rect), ..m[d.window] })
        } else {
            m
        }
    }
}

/// Carrying out the effects one after the other: the emissions, and the state
/// they leave.
pub open spec fn all_emitted(st: StateV, effects: Seq<GeometryEffect>, style: EmitStyle) -> (
    Seq<Emission>,
    StateV,
)
    decreases effects.len(),
{
    if effects.len() == 0 {
        (Seq::empty(), st)
    } else {
        let (out, s) = all_emitted(st, effects.drop_last(), style);
        match effects.last() {
            GeometryEffect::Configure { win, rect, border } => (
                if s.clients.contains_key(win) {
                    out.push(emission_of(s.clients[win], win, rect, border, style))
                } else {
                    out
                },
                emitted(s, win, rect, border, true),
            ),
        }
    }
}

/// Every desired placement can be emitted.
pub open spec fn all_emittable(ds: Seq<DesiredWindow>, style: EmitStyle) -> bool {
    forall|i: int|
        0 <= i < ds.len() ==> emittable((#[trigger] ds[i]).rect, ds[i].border, style)
}

/// The effect's placement can be emitted.
pub open spec fn effect_emittable(e: GeometryEffect, style: EmitStyle) -> bool {
    match e {
        GeometryEffect::Configure { win, rect, border } => emittable(rect, border, style),
    }
}

/// The effects of reconciling are placements that were desired.
proof fn effects_are_desired(
    ds: Seq<DesiredWindow>,
    clients: Map<WindowId, Client>,
    applied: Map<WindowId, AppliedWindow>,
    style: EmitStyle,
    effects: Seq<GeometryEffect>,
)
    requires
        all_emittable(ds, style),
        effects == reconciled(ds, clients, applied).0,
    ensures
        forall|i: int|
            0 <= i < effects.len() ==> effect_emittable(#[trigger] effects[i], style),
    decreases ds.len(),
{
    if ds.len() > 0 {
        let init = ds.drop_last();
        assert forall|i: int| 0 <= i < init.len() implies emittable(
            (#[trigger] init[i]).rect,
            init[i].border,
            style,
        ) by {
            assert(ds[i] == init[i]);
        }
        let before = reconciled(init, clients, applied).0;
        effects_are_desired(init, clients, applied, style, before);
        assert(ds[ds.len() - 1] == ds.last());
        assert forall|i: int| 0 <= i < effects.len() implies effect_emittable(
            #[trigger] effects[i],
            style,
        ) by {
            if i < before.len() {
                assert(effects[i] == before[i]);
            }
        }
    }
}

impl State {
    fn note_desired(&mut self, ds: &Vec<DesiredWindow>)
        ensures
            final(self)@ == (StateV {
                clients: desire_noted(old(self)@.clients, ds@),
                ..old(self)@
            }),
    {
        let mut i: usize = 0;
        assert(ds@.take(0) =~= Seq::<DesiredWindow>::empty());
        while i < ds.len()
            invariant
                i <= ds.len(),
                self@ == (StateV {
                    clients: desire_noted(old(self)@.clients, ds@.take(i as int)),
                    ..old(self)@
                }),
            decreases ds.len() - i,
        {
            let d: DesiredWindow = ds[i];
            proof {
                assert(ds@.take(i as int + 1).drop_last() =~= ds@.take(i as int));
            }
            let ghost before = self.clients@;
            match self.clients.remove(&d.window) {
                Some(c0) => {
                    let mut c: Client = c0;
                    c.last_desired = Some(d.rect);
                    self.clients.insert(d.window, c);
                    proof {
                        assert(self.clients@ =~= before.insert(
                            d.window,
                            Client { last_desired: Some(d.rect), ..before[d.window] },
                        ));
                    }
                },
                None => {
                    assert(self.clients@ =~= before);
                },
            }
            i = i + 1;
        }
        assert(ds@.take(i as int) =~= ds@);
    }

    /// Carry out a freshly computed layout: diff it against what was applied,
    /// note what is desired, and write what differs.
    pub fn apply_desired(
        &mut self,
        desired: &DesiredState,
        applied: &mut AppliedState,
        style: EmitStyle,
    ) -> (out: Vec<Emission>)
        requires
            all_emittable(desired.windows@, style),
        ensures
            ({
                let (effects, rec) = reconciled(
                    desired.windows@,
                    old(self)@.clients,
                    old(applied)@,
                );
                let noted = StateV {
                    clients: desire_noted(old(self)@.clients, desired.windows@),
                    ..old(self)@
                };
                &&& final(applied)@ == rec
                &&& (out@, final(self)@) == all_emitted(noted, effects, style)
            }),
    {
        let effects: Vec<GeometryEffect> = reconcile(desired, self, applied);
        proof {
            effects_are_desired(
                desired.windows@,
                old(self)@.clients,
                old(applied)@,
                style,
                effects@,
            );
        }
        self.note_desired(&desired.windows);
        let ghost noted = self@;
        let mut out: Vec<Emission> = Vec::new();
        let mut i: usize = 0;
        assert(effects@.take(0) =~= Seq::<GeometryEffect>::empty());
        while i < effects.len()
            invariant
                i <= effects.len(),
                forall|k: int|
                    0 <= k < effects@.len() ==> effect_emittable(#[trigger] effects@[k], style),
                (out@, self@) == all_emitted(noted, effects@.take(i as int), style),
            decreases effects.len() - i,
        {
            proof {
                assert(effects@.take(i as int + 1).drop_last() =~= effects@.take(i as int));
            }
            match effects[i] {
                GeometryEffect::Configure { win, rect, border } => {
                    match self.emit_geometry(win, rect, border, true, style) {
                        Some(e) => {
                            out.push(e);
                        },
                        None => {},
                    }
                },
            }
            i = i + 1;
        }
        assert(effects@.take(i as int) =~= effects@);
        out
    }
}

/// The floats of a list that do not lie in `wa`, each with where it belongs.
pub open spec fn misplaced(clients: Map<WindowId, Client>, wa: Rect, ws: Seq<WindowId>) -> Seq<
    (WindowId, Rect, u32),
>
    decreases ws.len(),
{
    if ws.len() == 0 {
        Seq::empty()
    } else {
        let rest = misplaced(clients, wa, ws.drop_last());
        let w = ws.last();
        if clients.contains_key(w) && clamped(clients[w].geom, wa, clients[w].border_w)
            != clients[w].geom {
            rest.push((w, clamped(clients[w].geom, wa, clients[w].border_w), clients[w].border_w))
        } else {
            rest
        }
    }
}

impl State {
    /// Which of the listed floats must move to lie in the work area of monitor
    /// `mi`.
    pub fn misplaced_floats(&self, mi: usize, ws: &Vec<WindowId>) -> (out: Vec<
        (WindowId, Rect, u32),
    >)
        requires
            mi < self.monitors.len(),
            forall|w: WindowId| #[trigger]
                self@.clients.contains_key(w) ==> clampable(
                    self@.monitors[mi as int].workarea,
                    self@.clients[w].border_w,
                ),
        ensures
            out@ == misplaced(self@.clients, self@.monitors[mi as int].workarea, ws@),
    {
        assert(self@.monitors[mi as int] == self.monitors@[mi as int]@);
        let wa: Rect = self.monitors[mi].workarea;
        let mut out: Vec<(WindowId, Rect, u32)> = Vec::new();
        let mut i: usize = 0;
        assert(ws@.take(0) =~= Seq::<WindowId>::empty());
        while i < ws.len()
            invariant
                i <= ws.len(),
                wa == self@.monitors[mi as int].workarea,
                forall|w: WindowId| #[trigger]
                    self@.clients.contains_key(w) ==> clampable(wa, self@.clients[w].border_w),
                out@ == misplaced(self@.clients, wa, ws@.take(i as int)),
            decreases ws.len() - i,
        {
            proof {
                assert(ws@.take(i as int + 1).drop_last() =~= ws@.take(i as int));
            }
            let w: WindowId = ws[i];
            match self.clients.get(&w) {
                Some(c) => {
                    assert(self@.clients.contains_key(w));
                    let g: Rect = clamp_float_to_workarea(c.geom, wa, c.border_w);
                    if g != c.geom {
                        out.push((w, g, c.border_w));
                    }
                },
                None => {},
            }
            i = i + 1;
        }
        assert(ws@.take(i as int) =~= ws@);
        out
    }
}

/// The floats of the workspaces, one after the other.
pub open spec fn tree_floats(ws: Seq<WorkspaceV>) -> Seq<WindowId>
    decreases ws.len(),
{
    if ws.len() == 0 {
        Seq::empty()
    } else {
        tree_floats(ws.drop_last()) + ws.last().floats
    }
}

/// Managed windows that float.
pub open spec fn floating(clients: Map<WindowId, Client>) -> spec_fn(WindowId) -> bool {
    |w: WindowId| clients.contains_key(w) && clients[w].floats()
}

/// The floats of monitor `mi`: those of its workspaces, then the sticky ones.
pub open spec fn floats_of(st: StateV, mi: int, sticky: Seq<WindowId>) -> Seq<WindowId> {
    tree_floats(st.monitors[mi].workspaces) + sticky.filter(floating(st.clients))
}

impl State {
    /// The floats of monitor `mi`, given its sticky windows.
    pub fn monitor_floats(&self, mi: usize, sticky: &Vec<WindowId>) -> (out: Vec<WindowId>)
        requires
            mi < self.monitors.len(),
        ensures
            out@ == floats_of(self@, mi as int, sticky@),
    {
        assert(self@.monitors[mi as int] == self.monitors@[mi as int]@);
        let m = &self.monitors[mi];
        let ghost ws = m@.workspaces;
        let mut out: Vec<WindowId> = Vec::new();
        let mut i: usize = 0;
        assert(out@ =~= tree_floats(ws.take(0)));
        while i < m.workspaces.len()
            invariant
                i <= m.workspaces.len(),
                ws == workspace_views(m.workspaces@),
                out@ == tree_floats(ws.take(i as int)),
            decreases m.workspaces.len() - i,
        {
            proof {
                let t = ws.take(i as int + 1);
                assert(t.drop_last() =~= ws.take(i as int));
                assert(t.last() == m.workspaces@[i as int]@);
            }
            let mut f: Vec<WindowId> = copy_windows(&m.workspaces[i].floats);
            out.append(&mut f);
            i = i + 1;
        }
        assert(ws.take(i as int) =~= ws);
        let ghost base = out@;
        let ghost fp = floating(self@.clients);
        let mut k: usize = 0;
        proof {
            reveal(Seq::filter);
            assert(out@ =~= base + sticky@.take(0).filter(fp));
        }
        while k < sticky.len()
            invariant
                k <= sticky.len(),
                fp == floating(self@.clients),
                out@ == base + sticky@.take(k as int).filter(fp),
            decreases sticky.len() - k,
        {
            proof {
                filter_take_step(sticky@, k as int, fp);
            }
            let float: bool = match self.clients.get(&sticky[k]) {
                Some(c) => c.is_float(),
                None => false,
            };
            if float {
                out.push(sticky[k]);
            }
            assert(out@ =~= base + sticky@.take(k as int + 1).filter(fp));
            k = k + 1;
        }
        assert(sticky@.take(k as int) =~= sticky@);
        out
    }

    /// Which floats of monitor `mi` must move to lie in its work area, and where
    /// to.
    pub fn reposition_floats(&self, mi: usize) -> (out: Vec<(WindowId, Rect, u32)>)
        requires
            mi < self.monitors.len(),
            forall|w: WindowId| #[trigger]
                self@.clients.contains_key(w) ==> clampable(
                    self@.monitors[mi as int].workarea,
                    self@.clients[w].border_w,
                ),
        ensures
            exists|s: Seq<WindowId>| #[trigger]
                are_sticky(self@, mi as int, s) && out@ == misplaced(
                    self@.clients,
                    self@.monitors[mi as int].workarea,
                    floats_of(self@, mi as int, s),
                ),
    {
        let sticky: Vec<WindowId> = self.sticky_windows(mi);
        let ws: Vec<WindowId> = self.monitor_floats(mi, &sticky);
        let out: Vec<(WindowId, Rect, u32)> = self.misplaced_floats(mi, &ws);
        assert(are_sticky(self@, mi as int, sticky@));
        out
    }
}

// ---- What carrying a layout out is for --------------------------------------

/// A new order is raised whole and remembered; the same one is not raised again. The
/// window that covers changes hands only as another one does: the new one comes up
/// and the one before goes down. While the camera moves nothing covers.
pub proof fn changed_stack_is_raised_whole(
    st: StateV,
    mi: int,
    sticky: Seq<WindowId>,
    settled: bool,
    last: Option<Seq<WindowId>>,
    was: Option<WindowId>,
)
    ensures
        ({
            let p = stack_pass(st, mi, sticky, settled, last, was);
            let order = stack_order(st, mi, sticky);
            &&& p.order == order
            &&& last != Some(order) ==> p.raise == order
            &&& last == Some(order) ==> p.raise.len() == 0
            &&& settled ==> p.covering == covering(st, mi)
            &&& !settled ==> p.covering is None
            &&& p.covering != was ==> p.cover == p.covering && p.lower == was
            &&& p.covering == was ==> p.cover is None && p.lower is None
        }),
{
}

/// A window is moved out of sight just where it is not shown and is still in sight,
/// to the left of everything and without changing its size or its height; it is
/// brought back to where it belongs just where it is shown and out of sight.
pub proof fn hidden_windows_are_those_not_shown(c: Client, shown: bool, active_ws: int)
    ensures
        ({
            let s = hide_step_of(c, shown, active_ws);
            &&& s is Hide <==> !shown && !c.wm_hidden
            &&& s is Show <==> shown && c.wm_hidden
            &&& s is Keep <==> shown == !c.wm_hidden
            &&& s matches HideStep::Hide { rect, border, other_ws } ==> {
                &&& rect.y == c.geom.y && rect.w == c.geom.w && rect.h == c.geom.h
                &&& border == c.border_w && (other_ws <==> c.workspace != active_ws)
                &&& c.geom.w <= 0x7fff_0000 ==> rect.x + rect.w + 2 * border <= -200 + 2 * border
                &&& rect.x < 0
            }
            &&& s matches HideStep::Show { rect, border } ==> rect == c.geom && border
                == c.border_w
            &&& after_hide(c, s).wm_hidden == !shown
            &&& after_hide(c, s) == (Client { wm_hidden: after_hide(c, s).wm_hidden, ..c })
        }),
{
}

/// A window is shown just where the workspace on show has it as a tile or a float,
/// or where it is sticky on that monitor.
pub proof fn shown_windows_are_on_show_or_sticky(st: StateV, mi: int, win: WindowId)
    ensures
        shown_on(st, mi, win) <==> {
            let ws = st.monitors[mi].workspaces[st.monitors[mi].active_ws];
            ||| ws.tiles(win) || ws.floats.contains(win)
            ||| st.clients.contains_key(win) && st.clients[win].monitor == mi
                && st.clients[win].flags.on(crate::model::WinFlags::STICKY)
        },
{
}

/// A client is told its geometry exactly, as long as the fields of the event can
/// hold it, and else the nearest that they can.
pub proof fn client_is_told_its_geometry(g: Rect, bw: u32)
    ensures
        ({
            let n = pinned_notify(g, bw);
            &&& -32768 <= g.x <= 32767 ==> n.x == g.x
            &&& -32768 <= g.y <= 32767 ==> n.y == g.y
            &&& g.w <= 65535 ==> n.width == g.w
            &&& g.h <= 65535 ==> n.height == g.h
            &&& bw <= 65535 ==> n.border_width == bw
            &&& g.x < -32768 ==> n.x == -32768
            &&& g.x > 32767 ==> n.x == 32767
            &&& g.y < -32768 ==> n.y == -32768
            &&& g.y > 32767 ==> n.y == 32767
            &&& g.w > 65535 ==> n.width == 65535
            &&& g.h > 65535 ==> n.height == 65535
            &&& bw > 65535 ==> n.border_width == 65535
        }),
{
}

/// What is sent for a window is the geometry and border asked for. Its corners are
/// cut only where there is a radius and no compositor to draw them, over the whole
/// frame, and not at all while it is fullscreen.
pub proof fn sent_geometry_is_the_one_asked(
    c: Client,
    win: WindowId,
    g: Rect,
    bw: u32,
    style: EmitStyle,
)
    requires
        emittable(g, bw, style),
    ensures
        ({
            let e = emission_of(c, win, g, bw, style);
            &&& e.win == win && e.rect == g && e.border == bw && e.notify == pinned_notify(g, bw)
            &&& e.round is Some <==> style.corner_radius > 0 && !style.composited
            &&& e.round matches Some(r) ==> {
                &&& r.outer_w == g.w + 2 * bw && r.outer_h == g.h + 2 * bw
                &&& c.flags.on(crate::model::WinFlags::FULLSCREEN) ==> r.radius == 0
                &&& !c.flags.on(crate::model::WinFlags::FULLSCREEN) ==> r.radius
                    == style.corner_radius
            }
        }),
{
}

/// A window that was written to is where that says, with the border it says, if the
/// model is to follow, and owes nothing any more; its monitor is to be drawn anew.
/// No other client changes.
pub proof fn written_window_is_where_it_was_put(
    st: StateV,
    win: WindowId,
    g: Rect,
    bw: u32,
    write: bool,
)
    requires
        st.clients.contains_key(win),
    ensures
        ({
            let after = emitted(st, win, g, bw, write);
            let c = st.clients[win];
            let d = after.clients[win];
            &&& write ==> d.geom == g && d.border_w == bw
            &&& !write ==> d.geom == c.geom && d.border_w == c.border_w
            &&& !d.geometry_dirty
            &&& d == (Client { geom: d.geom, border_w: d.border_w, geometry_dirty: false, ..c })
            &&& after.clients.dom() == st.clients.dom()
            &&& forall|x: WindowId|
                x != win && st.clients.contains_key(x) ==> #[trigger] after.clients[x]
                    == st.clients[x]
            &&& c.monitor < st.monitors.len() ==> after.monitors[c.monitor as int].layout_dirty
                && after.monitors[c.monitor as int].workspaces
                == st.monitors[c.monitor as int].workspaces
            &&& forall|i: int|
                0 <= i < st.monitors.len() && i != c.monitor ==> #[trigger] after.monitors[i]
                    == st.monitors[i]
        }),
{
    assert(emitted(st, win, g, bw, write).clients.dom() =~= st.clients.dom());
}

/// The window that an effect configures.
pub open spec fn effect_win(e: GeometryEffect) -> WindowId {
    match e {
        GeometryEffect::Configure { win, .. } => win,
    }
}

proof fn emitting_keeps_the_clients(st: StateV, effects: Seq<GeometryEffect>, style: EmitStyle)
    ensures
        all_emitted(st, effects, style).1.clients.dom() == st.clients.dom(),
    decreases effects.len(),
{
    if effects.len() > 0 {
        emitting_keeps_the_clients(st, effects.drop_last(), style);
        let s = all_emitted(st, effects.drop_last(), style).1;
        let w = effect_win(effects.last());
        if s.clients.contains_key(w) {
            assert(all_emitted(st, effects, style).1.clients.dom() =~= st.clients.dom());
        }
    }
}

/// Every effect on a managed window is sent, in order, with its own geometry and
/// border, and the last one for a window is where that window is afterwards.
pub proof fn effects_are_carried_out_in_order(
    st: StateV,
    effects: Seq<GeometryEffect>,
    style: EmitStyle,
)
    requires
        forall|i: int|
            0 <= i < effects.len() ==> st.clients.contains_key(effect_win(#[trigger] effects[i])),
    ensures
        ({
            let (out, after) = all_emitted(st, effects, style);
            &&& out.len() == effects.len()
            &&& forall|i: int|
                0 <= i < effects.len() ==> match #[trigger] effects[i] {
                    GeometryEffect::Configure { win, rect, border } => out[i].win == win
                        && out[i].rect == rect && out[i].border == border,
                }
            &&& effects.len() > 0 ==> match effects.last() {
                GeometryEffect::Configure { win, rect, border } => after.clients[win].geom == rect
                    && after.clients[win].border_w == border,
            }
            &&& after.clients.dom() == st.clients.dom()
        }),
    decreases effects.len(),
{
    emitting_keeps_the_clients(st, effects, style);
    if effects.len() > 0 {
        let t = effects.drop_last();
        assert forall|i: int| 0 <= i < t.len() implies st.clients.contains_key(
            effect_win(#[trigger] t[i]),
        ) by {
            assert(effects[i] == t[i]);
        }
        effects_are_carried_out_in_order(st, t, style);
        let (o, s) = all_emitted(st, t, style);
        let (out, after) = all_emitted(st, effects, style);
        let l = effects.last();
        assert(effects[effects.len() - 1] == l);
        assert(s.clients.contains_key(effect_win(l)));
        assert forall|i: int| 0 <= i < effects.len() implies match #[trigger] effects[i] {
            GeometryEffect::Configure { win, rect, border } => out[i].win == win && out[i].rect
                == rect && out[i].border == border,
        } by {
            if i < t.len() {
                assert(effects[i] == t[i]);
                assert(out[i] == o[i]);
            }
        }
    }
}

/// A later effect on another window leaves a window where it is.
pub proof fn effects_move_only_their_windows(
    st: StateV,
    effects: Seq<GeometryEffect>,
    style: EmitStyle,
    w: WindowId,
)
    requires
        forall|i: int| 0 <= i < effects.len() ==> effect_win(#[trigger] effects[i]) != w,
        st.clients.contains_key(w),
    ensures
        all_emitted(st, effects, style).1.clients[w] == st.clients[w],
    decreases effects.len(),
{
    if effects.len() > 0 {
        let t = effects.drop_last();
        assert forall|i: int| 0 <= i < t.len() implies effect_win(#[trigger] t[i]) != w by {
            assert(effects[i] == t[i]);
        }
        assert(effects[effects.len() - 1] == effects.last());
        effects_move_only_their_windows(st, t, style, w);
    }
}

/// What a layout wants of a window is noted on it, the last word counting, and on
/// no other; nothing else of it changes.
pub proof fn wish_is_noted_on_its_window(
    clients: Map<WindowId, Client>,
    ds: Seq<DesiredWindow>,
    w: WindowId,
)
    requires
        clients.contains_key(w),
    ensures
        ({
            let d = desire_noted(clients, ds)[w];
            &&& desire_noted(clients, ds).dom() == clients.dom()
            &&& d == (Client { last_desired: d.last_desired, ..clients[w] })
            &&& (forall|i: int| 0 <= i < ds.len() ==> (#[trigger] ds[i]).window != w) ==> d
                == clients[w]
            &&& ds.len() > 0 && ds.last().window == w ==> d.last_desired == Some(ds.last().rect)
        }),
    decreases ds.len(),
{
    if ds.len() > 0 {
        let t = ds.drop_last();
        wish_is_noted_on_its_window(clients, t, w);
        assert(desire_noted(clients, ds).dom() =~= clients.dom());
        assert(ds[ds.len() - 1] == ds.last());
        if forall|i: int| 0 <= i < ds.len() ==> (#[trigger] ds[i]).window != w {
            assert forall|i: int| 0 <= i < t.len() implies (#[trigger] t[i]).window != w by {
                assert(ds[i] == t[i]);
            }
        }
    }
}

/// A float is moved just where it does not lie in the work area as it is; it goes to
/// where it does, and keeps its border.
pub proof fn only_misplaced_floats_move(
    clients: Map<WindowId, Client>,
    wa: Rect,
    ws: Seq<WindowId>,
    w: WindowId,
)
    ensures
        (exists|i: int|
            0 <= i < misplaced(clients, wa, ws).len() && (#[trigger] misplaced(
                clients,
                wa,
                ws,
            )[i]).0 == w) <==> ws.contains(w) && clients.contains_key(w) && clamped(
            clients[w].geom,
            wa,
            clients[w].border_w,
        ) != clients[w].geom,
        forall|i: int|
            0 <= i < misplaced(clients, wa, ws).len() ==> {
                let (v, r, bw) = #[trigger] misplaced(clients, wa, ws)[i];
                &&& clients.contains_key(v) && bw == clients[v].border_w
                &&& r == clamped(clients[v].geom, wa, bw)
            },
    decreases ws.len(),
{
    if ws.len() > 0 {
        let t = ws.drop_last();
        only_misplaced_floats_move(clients, wa, t, w);
        let a = misplaced(clients, wa, t);
        let b = misplaced(clients, wa, ws);
        let l = ws.last();
        assert(ws[ws.len() - 1] == l);
        if t.contains(w) {
            let i = choose|i: int| 0 <= i < t.len() && t[i] == w;
            assert(ws[i] == w);
        }
        if ws.contains(w) && w != l {
            let i = choose|i: int| 0 <= i < ws.len() && ws[i] == w;
            assert(t[i] == w);
        }
        if exists|i: int| 0 <= i < a.len() && (#[trigger] a[i]).0 == w {
            let i = choose|i: int| 0 <= i < a.len() && (#[trigger] a[i]).0 == w;
            assert(b[i] == a[i]);
        }
        if b.len() > a.len() {
            assert(b[a.len() as int].0 == l);
        }
        if exists|i: int| 0 <= i < b.len() && (#[trigger] b[i]).0 == w {
            let i = choose|i: int| 0 <= i < b.len() && (#[trigger] b[i]).0 == w;
            if i < a.len() {
                assert(a[i] == b[i]);
            }
        }
        assert forall|i: int| 0 <= i < b.len() implies {
            let (v, r, bw) = #[trigger] b[i];
            &&& clients.contains_key(v) && bw == clients[v].border_w
            &&& r == clamped(clients[v].geom, wa, bw)
        } by {
            if i < a.len() {
                assert(b[i] == a[i]);
            }
        }
    }
}

/// The floats of a monitor are the floats of all its workspaces and the sticky
/// windows that float.
pub proof fn floats_of_a_monitor_are_on_its_workspaces(
    st: StateV,
    mi: int,
    sticky: Seq<WindowId>,
    w: WindowId,
)
    ensures
        floats_of(st, mi, sticky).contains(w) <==> (exists|k: int|
            0 <= k < st.monitors[mi].workspaces.len() && (#[trigger]
            st.monitors[mi].workspaces[k]).floats.contains(w)) || (sticky.contains(w)
            && st.clients.contains_key(w) && st.clients[w].flags.on(
            crate::model::WinFlags::FLOAT,
        )),
{
    let ws = st.monitors[mi].workspaces;
    tree_lists_its_floats(ws, w);
    let a = tree_floats(ws);
    let p = floating(st.clients);
    let b = sticky.filter(p);
    let all = floats_of(st, mi, sticky);
    if a.contains(w) {
        let i = choose|i: int| 0 <= i < a.len() && a[i] == w;
        assert(all[i] == w);
    }
    if sticky.contains(w) && p(w) {
        let i = choose|i: int| 0 <= i < sticky.len() && sticky[i] == w;
        sticky.lemma_filter_contains(p, i);
        let j = choose|j: int| 0 <= j < b.len() && b[j] == w;
        assert(all[a.len() + j] == w);
    }
    if all.contains(w) {
        let i = choose|i: int| 0 <= i < all.len() && all[i] == w;
        if i < a.len() {
            assert(a[i] == w);
        } else {
            assert(b[i - a.len()] == w);
            sticky.lemma_filter_pred(p, i - a.len());
            sticky.lemma_filter_contains_rev(p, w);
        }
    }
}

proof fn tree_lists_its_floats(ws: Seq<WorkspaceV>, w: WindowId)
    ensures
        tree_floats(ws).contains(w) <==> exists|k: int|
            0 <= k < ws.len() && (#[trigger] ws[k]).floats.contains(w),
    decreases ws.len(),
{
    if ws.len() > 0 {
        let t = ws.drop_last();
        tree_lists_its_floats(t, w);
        let a = tree_floats(t);
        let l = ws.last().floats;
        let all = tree_floats(ws);
        assert(ws[ws.len() - 1].floats == l);
        if exists|k: int| 0 <= k < ws.len() && (#[trigger] ws[k]).floats.contains(w) {
            let k = choose|k: int| 0 <= k < ws.len() && (#[trigger] ws[k]).floats.contains(w);
            if k < t.len() {
                assert(t[k].floats.contains(w));
                let i = choose|i: int| 0 <= i < a.len() && a[i] == w;
                assert(all[i] == w);
            } else {
                let i = choose|i: int| 0 <= i < l.len() && l[i] == w;
                assert(all[a.len() + i] == w);
            }
        }
        if all.contains(w) {
            let i = choose|i: int| 0 <= i < all.len() && all[i] == w;
            if i < a.len() {
                assert(a[i] == w);
                let k = choose|k: int| 0 <= k < t.len() && (#[trigger] t[k]).floats.contains(w);
                assert(ws[k].floats.contains(w));
            } else {
                assert(l[i - a.len()] == w);
            }
        }
    }
}

} // verus!
