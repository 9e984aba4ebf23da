//! Docks: the screen space that panels reserve.

use crate::compositor::at;
use crate::manage::half;
use crate::model::WindowId;
use crate::monitors::{
    carried_over, carried_over_is_plausible, carried_over_keeps_reservations, match_monitors,
    monitors_followed, plausible, refuge_in_range, regeometried, replugged, selected_after,
    settling_keeps_reservations, survivors, survivors_are_matched_once, went, went_to,
    TopologyChange,
};
use crate::state::{
    client_ids, monitor_views, not_owned_by, owned_regions, Edge, Monitor, MonitorV, Reserved,
    State, StateV,
};
use crate::xproto::{are_native_words, predefined_atoms, Property};
use std::collections::HashMap;
use vstd::prelude::*;

verus! {

broadcast use vstd::std_specs::hash::group_hash_axioms;

// ---- Struts -----------------------------------------------------------------

/// `v` is what a reply holds as cardinals: empty where there is no reply or the
/// property is no list of cardinals.
pub open spec fn holds_cardinals(p: Option<Property>, v: Seq<u32>) -> bool {
    match p {
        Some(p) => if p.type_ == 6 && p.format == 32 {
            are_native_words(v, p.value@)
        } else {
            v.len() == 0
        },
        None => v.len() == 0,
    }
}

/// The cardinals of a reply.
pub fn reply_cardinals(p: &Option<Property>) -> (v: Vec<u32>)
    ensures
        holds_cardinals(*p, v@),
{
    match p {
        Some(p) => p.typed_words(predefined_atoms().cardinal),
        None => Vec::new(),
    }
}

/// The edge, if something is reserved on it.
pub open spec fn edge_if(e: Edge, px: u32) -> Seq<(Edge, u32)> {
    if px > 0 {
        seq![(e, px)]
    } else {
        Seq::empty()
    }
}

/// Every edge on which something is reserved. Both strut properties start with
/// left, right, top and bottom.
pub open spec fn strut_edge_list(v: Seq<u32>) -> Seq<(Edge, u32)> {
    edge_if(Edge::Left, v[0]) + edge_if(Edge::Right, v[1]) + edge_if(Edge::Top, v[2]) + edge_if(
        Edge::Bottom,
        v[3],
    )
}

/// The first edge on which something is reserved, in the order of the property.
pub open spec fn first_edge(v: Seq<u32>) -> Option<(Edge, u32)> {
    if v[0] > 0 {
        Some((Edge::Left, v[0]))
    } else if v[1] > 0 {
        Some((Edge::Right, v[1]))
    } else if v[2] > 0 {
        Some((Edge::Top, v[2]))
    } else if v[3] > 0 {
        Some((Edge::Bottom, v[3]))
    } else {
        None
    }
}

/// The first edge that a strut reserves, and how thick.
pub fn strut_edge(v: &[u32]) -> (r: Option<(Edge, u32)>)
    requires
        v@.len() >= 4,
    ensures
        r == first_edge(v@),
{
    if v[0] > 0 {
        Some((Edge::Left, v[0]))
    } else if v[1] > 0 {
        Some((Edge::Right, v[1]))
    } else if v[2] > 0 {
        Some((Edge::Top, v[2]))
    } else if v[3] > 0 {
        Some((Edge::Bottom, v[3]))
    } else {
        None
    }
}

/// Every edge that a strut reserves, and how thick.
pub fn strut_edges(v: &[u32]) -> (out: Vec<(Edge, u32)>)
    requires
        v@.len() >= 4,
    ensures
        out@ == strut_edge_list(v@),
{
    let mut out: Vec<(Edge, u32)> = Vec::new();
    if v[0] > 0 {
        out.push((Edge::Left, v[0]));
    }
    if v[1] > 0 {
        out.push((Edge::Right, v[1]));
    }
    if v[2] > 0 {
        out.push((Edge::Top, v[2]));
    }
    if v[3] > 0 {
        out.push((Edge::Bottom, v[3]));
    }
    assert(out@ =~= strut_edge_list(v@));
    out
}

/// The list of edges starts with the first edge.
pub proof fn first_edge_leads_the_list(v: Seq<u32>)
    requires
        v.len() >= 4,
    ensures
        match first_edge(v) {
            Some(e) => strut_edge_list(v).len() > 0 && strut_edge_list(v)[0] == e,
            None => strut_edge_list(v).len() == 0,
        },
{
}

/// The edges that a window reserves: as the partial strut says, or else the basic
/// one; nothing where it has neither.
pub open spec fn strut_of(partial: Seq<u32>, basic: Seq<u32>) -> Option<Seq<(Edge, u32)>> {
    if partial.len() >= 4 {
        Some(strut_edge_list(partial))
    } else if basic.len() >= 4 {
        Some(strut_edge_list(basic))
    } else {
        None
    }
}

/// The edges that a window reserves, given the words of its two strut properties.
pub fn read_strut(partial: &Vec<u32>, basic: &Vec<u32>) -> (r: Option<Vec<(Edge, u32)>>)
    ensures
        match r {
            Some(v) => strut_of(partial@, basic@) == Some(v@),
            None => strut_of(partial@, basic@) is None,
        },
{
    if partial.len() >= 4 {
        Some(strut_edges(partial))
    } else if basic.len() >= 4 {
        Some(strut_edges(basic))
    } else {
        None
    }
}

// ---- Whose strut it is ------------------------------------------------------

/// The middle of a span, or its start where it is empty.
pub open spec fn span_middle(s: u32, e: u32) -> int {
    let (s, e) = (s as i32, e as i32);
    if e > s {
        half(s + e)
    } else {
        s as int
    }
}

fn mid_of_span(s: u32, e: u32) -> (r: i32)
    ensures
        r == span_middle(s, e),
{
    let a: i32 = #[verifier::truncate] (s as i32);
    let b: i32 = #[verifier::truncate] (e as i32);
    if b > a {
        let sum: i64 = a as i64 + b as i64;
        if sum >= 0 {
            (sum / 2) as i32
        } else {
            (-((-sum) / 2)) as i32
        }
    } else {
        a
    }
}

/// Where a dock's window is.
#[derive(Clone, Copy)]
pub struct DockGeometry {
    pub x: i16,
    pub y: i16,
    pub width: u16,
    pub height: u16,
}

/// The centre of a dock's window.
pub open spec fn dock_center(g: DockGeometry) -> (int, int) {
    (g.x + g.width as int / 2, g.y + g.height as int / 2)
}

/// The point by which a strut is attributed: along its edge the middle of the span
/// that it reserves there, across it the window's centre; the centre alone where
/// there is no span, and the origin where there is no window.
pub open spec fn strut_point(
    struts: Seq<(Edge, u32)>,
    partial: Seq<u32>,
    geom: Option<DockGeometry>,
) -> (int, int) {
    match geom {
        Some(g) => {
            let (cx, cy) = dock_center(g);
            if partial.len() >= 12 && struts.len() > 0 {
                match struts[0].0 {
                    Edge::Left => (cx, span_middle(partial[4], partial[5])),
                    Edge::Right => (cx, span_middle(partial[6], partial[7])),
                    Edge::Top => (span_middle(partial[8], partial[9]), cy),
                    Edge::Bottom => (span_middle(partial[10], partial[11]), cy),
                }
            } else {
                (cx, cy)
            }
        },
        None => (0, 0),
    }
}

/// The first monitor that covers the point, or the first of all.
pub open spec fn monitor_under(ms: Seq<MonitorV>, px: int, py: int) -> int
    decreases ms.len(),
{
    if ms.len() == 0 {
        0
    } else {
        let before = monitor_under(ms.drop_last(), px, py);
        if covered(ms.drop_last(), px, py) {
            before
        } else if ms.last().screen.covers(px, py) {
            ms.len() - 1
        } else {
            0
        }
    }
}

/// Some monitor covers the point.
pub open spec fn covered(ms: Seq<MonitorV>, px: int, py: int) -> bool {
    exists|i: int| 0 <= i < ms.len() && (#[trigger] ms[i]).screen.covers(px, py)
}

/// What [`monitor_under`] says, without the recursion.
pub(crate) proof fn monitor_under_is(ms: Seq<MonitorV>, px: int, py: int, k: int)
    requires
        0 <= k < ms.len(),
        ms[k].screen.covers(px, py),
        forall|j: int| 0 <= j < k ==> !(#[trigger] ms[j]).screen.covers(px, py),
    ensures
        monitor_under(ms, px, py) == k,
    decreases ms.len(),
{
    let t = ms.drop_last();
    if k < t.len() {
        assert(t[k] == ms[k]);
        monitor_under_is(t, px, py, k);
    } else {
        assert forall|j: int| 0 <= j < t.len() implies !(#[trigger] t[j]).screen.covers(
            px,
            py,
        ) by {
            assert(t[j] == ms[j]);
        }
    }
}

proof fn monitor_under_none(ms: Seq<MonitorV>, px: int, py: int)
    requires
        !covered(ms, px, py),
    ensures
        monitor_under(ms, px, py) == 0,
    decreases ms.len(),
{
    if ms.len() > 0 {
        let t = ms.drop_last();
        assert forall|j: int| 0 <= j < t.len() implies !(#[trigger] t[j]).screen.covers(
            px,
            py,
        ) by {
            assert(t[j] == ms[j]);
        }
        monitor_under_none(t, px, py);
        assert(ms.last() == ms[ms.len() - 1]);
    }
}

impl State {
    /// The monitor that a strut belongs to.
    pub fn monitor_for_strut(
        &self,
        struts: &Vec<(Edge, u32)>,
        partial: &Vec<u32>,
        geom: Option<DockGeometry>,
    ) -> (mi: usize)
        ensures
            ({
                let p = strut_point(struts@, partial@, geom);
                mi == monitor_under(self@.monitors, p.0, p.1)
            }),
            self@.monitors.len() > 0 ==> mi < self@.monitors.len(),
    {
        let (px, py): (i32, i32) = match geom {
            Some(g) => {
                let cx: i32 = g.x as i32 + (g.width / 2) as i32;
                let cy: i32 = g.y as i32 + (g.height / 2) as i32;
                if partial.len() >= 12 && struts.len() > 0 {
                    match struts[0].0 {
                        Edge::Left => (cx, mid_of_span(partial[4], partial[5])),
                        Edge::Right => (cx, mid_of_span(partial[6], partial[7])),
                        Edge::Top => (mid_of_span(partial[8], partial[9]), cy),
                        Edge::Bottom => (mid_of_span(partial[10], partial[11]), cy),
                    }
                } else {
                    (cx, cy)
                }
            },
            None => (0, 0),
        };
        let ghost ms = self@.monitors;
        let mut i: usize = 0;
        while i < self.monitors.len()
            invariant
                i <= self.monitors.len(),
                ms == self@.monitors,
                ms == monitor_views(self.monitors@),
                forall|j: int|
                    0 <= j < i ==> !(#[trigger] ms[j]).screen.covers(px as int, py as int),
                strut_point(struts@, partial@, geom) == (px as int, py as int),
            decreases self.monitors.len() - i,
        {
            assert(ms[i as int] == self.monitors@[i as int]@);
            if self.monitors[i].screen.contains_point(px, py) {
                proof {
                    monitor_under_is(ms, px as int, py as int, i as int);
                }
                return i;
            }
            i = i + 1;
        }
        proof {
            monitor_under_none(ms, px as int, py as int);
        }
        0
    }
}

// ---- Reservations -----------------------------------------------------------

/// What a dock's strut changed.
#[derive(Debug, Clone, Copy, PartialEq, Eq, Structural)]
pub enum DockChange {
    Nothing,
    /// The monitor is to be laid out anew, and so is the one that the dock left;
    /// `new` where the dock was not known.
    Reserved { monitor: usize, left: Option<usize>, new: bool },
    /// The monitor is to be laid out anew.
    Released { monitor: usize },
}

/// The monitor with what a dock reserves replaced.
pub open spec fn reserving(m: MonitorV, win: WindowId, edges: Seq<(Edge, u32)>) -> MonitorV {
    (MonitorV {
        reserved: m.reserved.filter(not_owned_by(win)) + owned_regions(win, edges),
        ..m
    }).recalculated()
}

/// The monitor without what a dock reserves.
pub open spec fn released(m: MonitorV, win: WindowId) -> MonitorV {
    (MonitorV { reserved: m.reserved.filter(not_owned_by(win)), ..m }).recalculated()
}

/// The state without what a dock reserves, wherever it is known to.
pub open spec fn dock_removed(
    st: StateV,
    docks: Map<WindowId, usize>,
    win: WindowId,
) -> (StateV, Map<WindowId, usize>, DockChange) {
    match at(docks, win) {
        Some(mi) => if mi < st.monitors.len() {
            (
                st.with_mon(mi as int, released(st.monitors[mi as int], win)),
                docks.remove(win),
                DockChange::Released { monitor: mi },
            )
        } else {
            (st, docks.remove(win), DockChange::Nothing)
        },
        None => (st, docks, DockChange::Nothing),
    }
}

/// The monitor other than `mi` on which a dock is known to reserve space.
pub open spec fn left_behind(
    st: StateV,
    docks: Map<WindowId, usize>,
    win: WindowId,
    mi: usize,
) -> Option<usize> {
    match at(docks, win) {
        Some(o) => if o != mi && o < st.monitors.len() {
            Some(o)
        } else {
            None
        },
        None => None,
    }
}

/// The state after a dock left a monitor.
pub open spec fn dock_left(st: StateV, left: Option<usize>, win: WindowId) -> StateV {
    match left {
        Some(o) => st.with_mon(o as int, released(st.monitors[o as int], win)),
        None => st,
    }
}

/// The state after a dock's strut was read. A dock that moved to another monitor
/// leaves nothing on the one it was on.
pub open spec fn dock_applied(
    st: StateV,
    docks: Map<WindowId, usize>,
    win: WindowId,
    struts: Option<Seq<(Edge, u32)>>,
    mi: usize,
) -> (StateV, Map<WindowId, usize>, DockChange) {
    match struts {
        Some(s) => if s.len() > 0 {
            let left = left_behind(st, docks, win, mi);
            (
                dock_left(st, left, win).with_mon(
                    mi as int,
                    reserving(st.monitors[mi as int], win, s),
                ),
                docks.insert(win, mi),
                DockChange::Reserved { monitor: mi, left, new: !docks.contains_key(win) },
            )
        } else {
            dock_removed(st, docks, win)
        },
        None => dock_removed(st, docks, win),
    }
}

pub open spec fn edges_view(v: Option<Vec<(Edge, u32)>>) -> Option<Seq<(Edge, u32)>> {
    match v {
        Some(v) => Some(v@),
        None => None,
    }
}

impl State {
    /// Every screen is representable.
    pub open spec fn screens_fit(&self) -> bool {
        forall|i: int|
            0 <= i < self@.monitors.len() ==> (#[trigger] self@.monitors[i]).screen.edges_fit()
    }

    /// Drop whatever a dock reserves.
    pub fn remove_dock(&mut self, docks: &mut HashMap<WindowId, usize>, win: WindowId) -> (r:
        DockChange)
        requires
            old(self).screens_fit(),
        ensures
            (final(self)@, final(docks)@, r) == dock_removed(old(self)@, old(docks)@, win),
    {
        let ghost st = self@;
        let ghost before = docks@;
        match docks.remove(&win) {
            Some(mi) => {
                if mi < self.monitors.len() {
                    assert(st.monitors[mi as int] == self.monitors@[mi as int]@);
                    assert(st.monitors[mi as int].screen.edges_fit());
                    self.monitors[mi].remove_reserved_region(win);
                    assert(self@.monitors =~= st.monitors.update(
                        mi as int,
                        released(st.monitors[mi as int], win),
                    ));
                    DockChange::Released { monitor: mi }
                } else {
                    DockChange::Nothing
                }
            },
            None => {
                assert(docks@ =~= before);
                DockChange::Nothing
            },
        }
    }

    /// A dock's strut was read: what it reserves is replaced, on monitor `mi`, or
    /// dropped where it reserves nothing.
    pub fn apply_dock_strut(
        &mut self,
        docks: &mut HashMap<WindowId, usize>,
        win: WindowId,
        struts: &Option<Vec<(Edge, u32)>>,
        mi: usize,
    ) -> (r: DockChange)
        requires
            old(self).screens_fit(),
            mi < old(self)@.monitors.len(),
        ensures
            (final(self)@, final(docks)@, r) == dock_applied(
                old(self)@,
                old(docks)@,
                win,
                edges_view(*struts),
                mi,
            ),
    {
        let ghost st = self@;
        match struts {
            Some(s) => {
                if s.len() > 0 {
                    let known: Option<usize> = match docks.get(&win) {
                        Some(o) => Some(*o),
                        None => None,
                    };
                    let mut left: Option<usize> = None;
                    match known {
                        Some(o) => {
                            if o != mi && o < self.monitors.len() {
                                assert(st.monitors[o as int] == self.monitors@[o as int]@);
                                assert(st.monitors[o as int].screen.edges_fit());
                                self.monitors[o].remove_reserved_region(win);
                                left = Some(o);
                            }
                        },
                        None => {},
                    }
                    assert(self@.monitors =~= dock_left(st, left, win).monitors);
                    let ghost mid = self@;
                    assert(st.monitors[mi as int] == self.monitors@[mi as int]@);
                    assert(st.monitors[mi as int].screen.edges_fit());
                    self.monitors[mi].set_reserved_regions(win, s);
                    assert(self@.monitors =~= mid.monitors.update(
                        mi as int,
                        reserving(st.monitors[mi as int], win, s@),
                    ));
                    docks.insert(win, mi);
                    return DockChange::Reserved { monitor: mi, left, new: known.is_none() };
                }
            },
            None => {},
        }
        self.remove_dock(docks, win)
    }
}

// ---- The record of docks ----------------------------------------------------

/// Space is reserved only for docks on record, on the monitor that the record
/// names.
pub open spec fn docks_recorded(st: StateV, docks: Map<WindowId, usize>) -> bool {
    forall|i: int, k: int|
        #![trigger st.monitors[i].reserved[k]]
        0 <= i < st.monitors.len() && 0 <= k < st.monitors[i].reserved.len()
            ==> docks.contains_key(st.monitors[i].reserved[k].owner)
            && docks[st.monitors[i].reserved[k].owner] == i
}

/// The monitor reserves nothing for a window.
pub open spec fn reserves_nothing_for(m: MonitorV, win: WindowId) -> bool {
    forall|k: int| 0 <= k < m.reserved.len() ==> (#[trigger] m.reserved[k]).owner != win
}

/// The record of docks after the monitors were renumbered. A dock whose monitor
/// is gone has no entry: what it reserved went with the monitor.
pub open spec fn renumbered(
    docks: Map<WindowId, usize>,
    to: Seq<Option<usize>>,
) -> Map<WindowId, usize> {
    Map::new(
        |w: WindowId| docks.contains_key(w) && went_to(to, docks[w] as int) is Some,
        |w: WindowId| went_to(to, docks[w] as int)->0,
    )
}

/// Renumber the record of docks: each entry follows its monitor.
pub fn renumber_docks(docks: &mut HashMap<WindowId, usize>, to: &Vec<Option<usize>>)
    ensures
        final(docks)@ == renumbered(old(docks)@, to@),
{
    let ghost before = docks@;
    let ghost goal = renumbered(before, to@);
    let ids: Vec<WindowId> = client_ids(docks);
    proof {
        assert forall|j: int| 0 <= j < ids.len() implies docks@.contains_key(
            #[trigger] ids@[j],
        ) by {
            assert(ids@.contains(ids@[j]));
        }
    }
    let mut i: usize = 0;
    while i < ids.len()
        invariant
            i <= ids.len(),
            goal == renumbered(before, to@),
            ids@.no_duplicates(),
            forall|w: WindowId| #[trigger] ids@.contains(w) <==> before.contains_key(w),
            forall|w: WindowId| #[trigger] docks@.contains_key(w) ==> before.contains_key(w),
            forall|j: int|
                i <= j < ids.len() ==> docks@.contains_key(#[trigger] ids@[j])
                    && docks@[ids@[j]] == before[ids@[j]],
            forall|j: int|
                0 <= j < i ==> docks@.contains_key(#[trigger] ids@[j]) == goal.contains_key(ids@[j])
                    && (goal.contains_key(ids@[j]) ==> docks@[ids@[j]] == goal[ids@[j]]),
        decreases ids.len() - i,
    {
        let w: WindowId = ids[i];
        assert(ids@.contains(w));
        match docks.remove(&w) {
            Some(mi) => match went(to, mi) {
                Some(ni) => {
                    docks.insert(w, ni);
                },
                None => {},
            },
            None => {},
        }
        i = i + 1;
    }
    assert forall|w: WindowId| docks@.contains_key(w) == #[trigger] goal.contains_key(w) && (
    goal.contains_key(w) ==> docks@[w] == goal[w]) by {
        if before.contains_key(w) {
            assert(ids@.contains(w));
            let j = choose|j: int| 0 <= j < ids@.len() && ids@[j] == w;
            assert(ids@[j] == w);
        }
    }
    assert(docks@ =~= goal);
}

impl State {
    /// React to a possible change of the monitors, and keep the record of docks
    /// in step with their numbers.
    pub fn follow_monitors(
        &mut self,
        docks: &mut HashMap<WindowId, usize>,
        news: Vec<Monitor>,
        width: u32,
    ) -> (r: TopologyChange)
        requires
            plausible(monitor_views(news@)),
        ensures
            monitors_followed(old(self)@, monitor_views(news@), width, r, final(self)@),
            final(docks)@ == (if r is Count {
                renumbered(old(docks)@, survivors(old(self)@.monitors, monitor_views(news@)))
            } else {
                old(docks)@
            }),
    {
        let to: Vec<Option<usize>> = match_monitors(&self.monitors, &news);
        let change: TopologyChange = self.handle_monitor_change(news, width);
        match change {
            TopologyChange::Count => {
                renumber_docks(docks, &to);
            },
            _ => {},
        }
        change
    }
}

proof fn released_keeps_the_others(m: MonitorV, win: WindowId)
    ensures
        forall|k: int|
            0 <= k < released(m, win).reserved.len() ==> (#[trigger] released(
                m,
                win,
            ).reserved[k]).owner != win && m.reserved.contains(released(m, win).reserved[k]),
{
    kept_by_filter(m.reserved, win);
}

proof fn kept_by_filter(s: Seq<Reserved>, win: WindowId)
    ensures
        forall|k: int|
            0 <= k < s.filter(not_owned_by(win)).len() ==> (#[trigger] s.filter(
                not_owned_by(win),
            )[k]).owner != win && s.contains(s.filter(not_owned_by(win))[k]),
    decreases s.len(),
{
    reveal(Seq::filter);
    if s.len() > 0 {
        let t = s.drop_last();
        kept_by_filter(t, win);
        let f = s.filter(not_owned_by(win));
        assert forall|k: int| 0 <= k < f.len() implies (#[trigger] f[k]).owner != win
            && s.contains(f[k]) by {
            if k < t.filter(not_owned_by(win)).len() {
                let j = choose|j: int| 0 <= j < t.len() && t[j] == f[k];
                assert(s[j] == f[k]);
            } else {
                assert(s[s.len() - 1] == f[k]);
            }
        }
    }
}

/// A dock that goes leaves no reservation on any monitor, and the record stays
/// true of every other dock.
pub proof fn gone_dock_reserves_nothing(st: StateV, docks: Map<WindowId, usize>, win: WindowId)
    requires
        docks_recorded(st, docks),
    ensures
        ({
            let (after, record, _) = dock_removed(st, docks, win);
            &&& !record.contains_key(win)
            &&& docks_recorded(after, record)
            &&& forall|i: int|
                0 <= i < after.monitors.len() ==> reserves_nothing_for(
                    #[trigger] after.monitors[i],
                    win,
                )
        }),
{
    let (after, record, _) = dock_removed(st, docks, win);
    assert forall|i: int, k: int|
        #![trigger after.monitors[i].reserved[k]]
        0 <= i < after.monitors.len() && 0 <= k < after.monitors[i].reserved.len() implies ({
        let o = after.monitors[i].reserved[k].owner;
        o != win && record.contains_key(o) && record[o] == i
    }) by {
        if docks.contains_key(win) && docks[win] == i {
            released_keeps_the_others(st.monitors[i], win);
            let j = choose|j: int|
                0 <= j < st.monitors[i].reserved.len() && st.monitors[i].reserved[j]
                    == after.monitors[i].reserved[k];
            assert(st.monitors[i].reserved[j] == after.monitors[i].reserved[k]);
        } else {
            assert(after.monitors[i] == st.monitors[i]);
            assert(st.monitors[i].reserved[k] == after.monitors[i].reserved[k]);
        }
    }
}

/// A dock's strut leaves a reservation on one monitor at most, the one that the
/// record then names, and the record stays true of every other dock.
pub proof fn dock_reserves_on_one_monitor(
    st: StateV,
    docks: Map<WindowId, usize>,
    win: WindowId,
    struts: Option<Seq<(Edge, u32)>>,
    mi: usize,
)
    requires
        docks_recorded(st, docks),
        mi < st.monitors.len(),
    ensures
        ({
            let (after, record, _) = dock_applied(st, docks, win, struts, mi);
            &&& docks_recorded(after, record)
            &&& forall|i: int|
                0 <= i < after.monitors.len() && i != mi ==> reserves_nothing_for(
                    #[trigger] after.monitors[i],
                    win,
                )
        }),
{
    gone_dock_reserves_nothing(st, docks, win);
    match struts {
        Some(s) => if s.len() > 0 {
            let (after, record, _) = dock_applied(st, docks, win, struts, mi);
            let left = left_behind(st, docks, win, mi);
            assert forall|i: int, k: int|
                #![trigger after.monitors[i].reserved[k]]
                0 <= i < after.monitors.len() && 0 <= k < after.monitors[i].reserved.len() implies ({
                let o = after.monitors[i].reserved[k].owner;
                (o == win ==> i == mi) && record.contains_key(o) && record[o] == i
            }) by {
                if i == mi {
                    let kept = st.monitors[i].reserved.filter(not_owned_by(win));
                    kept_by_filter(st.monitors[i].reserved, win);
                    if k < kept.len() {
                        assert(after.monitors[i].reserved[k] == kept[k]);
                        let j = choose|j: int|
                            0 <= j < st.monitors[i].reserved.len() && st.monitors[i].reserved[j]
                                == kept[k];
                        assert(st.monitors[i].reserved[j] == kept[k]);
                    } else {
                        assert(after.monitors[i].reserved[k] == owned_regions(win, s)[k
                            - kept.len()]);
                    }
                } else if left == Some(i as usize) {
                    released_keeps_the_others(st.monitors[i], win);
                    let j = choose|j: int|
                        0 <= j < st.monitors[i].reserved.len() && st.monitors[i].reserved[j]
                            == after.monitors[i].reserved[k];
                    assert(st.monitors[i].reserved[j] == after.monitors[i].reserved[k]);
                } else {
                    assert(after.monitors[i] == st.monitors[i]);
                    assert(st.monitors[i].reserved[k] == after.monitors[i].reserved[k]);
                }
            }
        },
        None => {},
    }
}

/// After monitors were added, removed or resized, the record of docks still names
/// the monitor that holds each reservation, and every dock that kept its monitor
/// kept what it reserves. Monitors are detected without reservations.
pub proof fn record_follows_the_monitors(
    st: StateV,
    docks: Map<WindowId, usize>,
    news: Seq<MonitorV>,
    ids: Seq<WindowId>,
    width: u32,
)
    requires
        plausible(news),
        forall|i: int| 0 <= i < news.len() ==> (#[trigger] news[i]).reserved.len() == 0,
        docks_recorded(st, docks),
    ensures
        ({
            let after = replugged(st, news, ids, width);
            let record = renumbered(docks, survivors(st.monitors, news));
            &&& docks_recorded(after, record)
            &&& forall|w: WindowId| #[trigger]
                record.contains_key(w) ==> record[w] < after.monitors.len()
                    && after.monitors[record[w] as int].reserved
                    == st.monitors[docks[w] as int].reserved
        }),
        docks_recorded(regeometried(st, news), docks),
{
    let to = survivors(st.monitors, news);
    let n = st.monitors.len() as int;
    let mons = carried_over(st.monitors, news, to, n);
    survivors_are_matched_once(st.monitors, news);
    carried_over_is_plausible(st.monitors, news, to, n);
    refuge_in_range(to, news.len() as int);
    let base = StateV {
        monitors: mons,
        sel_mon: selected_after(st.sel_mon, to, news.len() as int),
        ..st
    };
    settling_keeps_reservations(base, to, ids, width);
    let after = replugged(st, news, ids, width);
    let record = renumbered(docks, to);
    assert forall|i: int| 0 <= i < after.monitors.len() implies (#[trigger]
    after.monitors[i]).reserved == mons[i].reserved by {
        assert(after.monitors[i].reserved == base.monitors[i].reserved);
    }
    assert forall|i: int, k: int|
        #![trigger after.monitors[i].reserved[k]]
        0 <= i < after.monitors.len() && 0 <= k < after.monitors[i].reserved.len() implies ({
        let o = after.monitors[i].reserved[k].owner;
        record.contains_key(o) && record[o] == i
    }) by {
        carried_over_keeps_reservations(st.monitors, news, n, i);
        assert(exists|j: int| 0 <= j < n && #[trigger] to[j] == Some(i as usize));
        let j = choose|j: int| 0 <= j < n && #[trigger] to[j] == Some(i as usize);
        assert(after.monitors[i].reserved == st.monitors[j].reserved);
        assert(st.monitors[j].reserved[k] == after.monitors[i].reserved[k]);
    }
    assert forall|w: WindowId| #[trigger] record.contains_key(w) implies record[w]
        < after.monitors.len() && after.monitors[record[w] as int].reserved
        == st.monitors[docks[w] as int].reserved by {
        let j = docks[w] as int;
        assert(to[j] == Some(record[w]));
        carried_over_keeps_reservations(st.monitors, news, n, record[w] as int);
    }
    let resized = regeometried(st, news);
    assert forall|i: int, k: int|
        #![trigger resized.monitors[i].reserved[k]]
        0 <= i < resized.monitors.len() && 0 <= k < resized.monitors[i].reserved.len() implies ({
        let o = resized.monitors[i].reserved[k].owner;
        docks.contains_key(o) && docks[o] == i
    }) by {
        assert(st.monitors[i].reserved[k] == resized.monitors[i].reserved[k]);
    }
}

proof fn owned_filter_out(s: Seq<Reserved>, win: WindowId, edges: Seq<(Edge, u32)>)
    ensures
        (s + owned_regions(win, edges)).filter(not_owned_by(win)) == s.filter(not_owned_by(win)),
    decreases edges.len(),
{
    let p = not_owned_by(win);
    reveal(Seq::filter);
    if edges.len() > 0 {
        let t = edges.drop_last();
        owned_filter_out(s, win, t);
        let all = s + owned_regions(win, edges);
        assert(all.drop_last() =~= s + owned_regions(win, t));
        assert(all.last() == owned_regions(win, edges).last());
    } else {
        assert(s + owned_regions(win, edges) =~= s);
    }
}

proof fn filter_is_stable(s: Seq<Reserved>, win: WindowId)
    ensures
        s.filter(not_owned_by(win)).filter(not_owned_by(win)) == s.filter(not_owned_by(win)),
    decreases s.len(),
{
    let p = not_owned_by(win);
    reveal(Seq::filter);
    if s.len() > 0 {
        filter_is_stable(s.drop_last(), win);
        let t = s.drop_last().filter(p);
        assert(t.push(s.last()).drop_last() =~= t);
    }
}

/// A dock that spans part of an edge belongs to the monitor that holds the middle
/// of its span, whichever other monitors there are.
pub proof fn strut_belongs_to_the_monitor_of_its_span(
    ms: Seq<MonitorV>,
    struts: Seq<(Edge, u32)>,
    partial: Seq<u32>,
    geom: Option<DockGeometry>,
    k: int,
)
    requires
        0 <= k < ms.len(),
        ({
            let p = strut_point(struts, partial, geom);
            &&& ms[k].screen.covers(p.0, p.1)
            &&& forall|j: int|
                0 <= j < ms.len() && j != k ==> !(#[trigger] ms[j]).screen.covers(p.0, p.1)
        }),
    ensures
        ({
            let p = strut_point(struts, partial, geom);
            monitor_under(ms, p.0, p.1) == k
        }),
{
    let p = strut_point(struts, partial, geom);
    monitor_under_is(ms, p.0, p.1, k);
}

/// A dock that goes gives its space back: the monitor is as it was before the
/// dock reserved anything.
pub proof fn removed_dock_gives_its_space_back(
    m: MonitorV,
    win: WindowId,
    edges: Seq<(Edge, u32)>,
)
    requires
        m == m.recalculated(),
        m.reserved.filter(not_owned_by(win)) == m.reserved,
    ensures
        released(reserving(m, win, edges), win) == m,
{
    owned_filter_out(m.reserved.filter(not_owned_by(win)), win, edges);
    filter_is_stable(m.reserved, win);
}

/// A dock that changes its strut holds only what it reserved last.
pub proof fn new_strut_replaces_the_old_one(
    m: MonitorV,
    win: WindowId,
    first: Seq<(Edge, u32)>,
    second: Seq<(Edge, u32)>,
)
    ensures
        reserving(reserving(m, win, first), win, second) == reserving(m, win, second),
{
    owned_filter_out(m.reserved.filter(not_owned_by(win)), win, first);
    filter_is_stable(m.reserved, win);
}

/// The work area lies on the screen, whatever is reserved.
pub proof fn work_area_is_on_the_screen(m: MonitorV)
    requires
        m.screen.edges_fit(),
    ensures
        m.screen.encloses(m.recalculated().workarea),
{
    reserved_is_not_negative(m.reserved, Edge::Left);
    reserved_is_not_negative(m.reserved, Edge::Right);
    reserved_is_not_negative(m.reserved, Edge::Top);
    reserved_is_not_negative(m.reserved, Edge::Bottom);
}

proof fn reserved_is_not_negative(s: Seq<Reserved>, e: Edge)
    ensures
        0 <= crate::state::reserved_on(s, e) <= u32::MAX,
    decreases s.len(),
{
    if s.len() > 0 {
        reserved_is_not_negative(s.drop_last(), e);
    }
}

// ---- What a strut says ------------------------------------------------------

proof fn edge_if_holds(e: Edge, px: u32, f: Edge, n: u32)
    ensures
        edge_if(e, px).contains((f, n)) <==> px > 0 && e == f && px == n,
{
    if px > 0 {
        assert(edge_if(e, px)[0] == (e, px));
    }
}

/// A strut reserves an edge just where its word for that edge is not 0, and as many
/// pixels as the word says: the words are left, right, top and bottom.
pub proof fn strut_reserves_what_its_words_say(v: Seq<u32>, e: Edge, px: u32)
    requires
        v.len() >= 4,
    ensures
        strut_edge_list(v).contains((e, px)) <==> px > 0 && px == (match e {
            Edge::Left => v[0],
            Edge::Right => v[1],
            Edge::Top => v[2],
            Edge::Bottom => v[3],
        }),
{
    let a = edge_if(Edge::Left, v[0]);
    let b = edge_if(Edge::Right, v[1]);
    let c = edge_if(Edge::Top, v[2]);
    let d = edge_if(Edge::Bottom, v[3]);
    edge_if_holds(Edge::Left, v[0], e, px);
    edge_if_holds(Edge::Right, v[1], e, px);
    edge_if_holds(Edge::Top, v[2], e, px);
    edge_if_holds(Edge::Bottom, v[3], e, px);
    vstd::seq_lib::lemma_seq_concat_contains_all_elements(a, b, (e, px));
    vstd::seq_lib::lemma_seq_concat_contains_all_elements(a + b, c, (e, px));
    vstd::seq_lib::lemma_seq_concat_contains_all_elements(a + b + c, d, (e, px));
}

/// The partial strut is listened to where there is one, whatever the basic one says,
/// and the basic one else.
pub proof fn partial_strut_comes_first(partial: Seq<u32>, basic: Seq<u32>, e: Edge, px: u32)
    ensures
        strut_of(partial, basic) is Some <==> partial.len() >= 4 || basic.len() >= 4,
        partial.len() >= 4 ==> ((strut_of(partial, basic)->0).contains((e, px)) <==> px > 0 && px
            == (match e {
            Edge::Left => partial[0],
            Edge::Right => partial[1],
            Edge::Top => partial[2],
            Edge::Bottom => partial[3],
        })),
        partial.len() < 4 && basic.len() >= 4 ==> ((strut_of(partial, basic)->0).contains((e, px))
            <==> px > 0 && px == (match e {
            Edge::Left => basic[0],
            Edge::Right => basic[1],
            Edge::Top => basic[2],
            Edge::Bottom => basic[3],
        })),
{
    if partial.len() >= 4 {
        strut_reserves_what_its_words_say(partial, e, px);
    } else if basic.len() >= 4 {
        strut_reserves_what_its_words_say(basic, e, px);
    }
}

/// A dock is where the middle of its strut is: along the edge in the middle of the
/// span that the strut names, to the pixel, and across it in the middle of the dock's
/// window.
pub proof fn strut_is_attributed_by_its_middle(
    struts: Seq<(Edge, u32)>,
    partial: Seq<u32>,
    g: DockGeometry,
)
    requires
        partial.len() >= 12,
        struts.len() > 0,
        forall|i: int| 4 <= i < 12 ==> #[trigger] partial[i] <= i32::MAX,
    ensures
        ({
            let (px, py) = strut_point(struts, partial, Some(g));
            let k = match struts[0].0 {
                Edge::Left => 4int,
                Edge::Right => 6int,
                Edge::Top => 8int,
                Edge::Bottom => 10int,
            };
            let (s, e) = (partial[k], partial[k + 1]);
            let along = if struts[0].0 == Edge::Left || struts[0].0 == Edge::Right {
                py
            } else {
                px
            };
            &&& s < e ==> s + e - 1 <= 2 * along <= s + e
            &&& s >= e ==> along == s
            &&& struts[0].0 == Edge::Left || struts[0].0 == Edge::Right ==> 2 * g.x + g.width - 1
                <= 2 * px <= 2 * g.x + g.width
            &&& struts[0].0 == Edge::Top || struts[0].0 == Edge::Bottom ==> 2 * g.y + g.height - 1
                <= 2 * py <= 2 * g.y + g.height
        }),
{
    let k = match struts[0].0 {
        Edge::Left => 4int,
        Edge::Right => 6int,
        Edge::Top => 8int,
        Edge::Bottom => 10int,
    };
    let (s, e) = (partial[k], partial[k + 1]);
    assert(s <= i32::MAX && e <= i32::MAX);
    assert(s as i32 == s && e as i32 == e);
}

/// The monitor under a point is the first whose screen the point lies on, and the
/// first of all where it lies on none.
pub proof fn monitor_under_a_point_shows_it(ms: Seq<MonitorV>, px: int, py: int)
    ensures
        ({
            let k = monitor_under(ms, px, py);
            let on = |i: int|
                0 <= i < ms.len() && ms[i].screen.x <= px < ms[i].screen.x + ms[i].screen.w
                    && ms[i].screen.y <= py < ms[i].screen.y + ms[i].screen.h;
            &&& (exists|i: int| #[trigger] on(i)) ==> on(k) && forall|j: int|
                0 <= j < k ==> !#[trigger] on(j)
            &&& !(exists|i: int| #[trigger] on(i)) ==> k == 0
        }),
{
    let on = |i: int|
        0 <= i < ms.len() && ms[i].screen.x <= px < ms[i].screen.x + ms[i].screen.w
            && ms[i].screen.y <= py < ms[i].screen.y + ms[i].screen.h;
    if exists|i: int| #[trigger] on(i) {
        let i = choose|i: int| #[trigger] on(i);
        let k = first_on(ms, px, py, i);
        monitor_under_is(ms, px, py, k);
        assert forall|j: int| 0 <= j < k implies !#[trigger] on(j) by {
            assert(!ms[j].screen.covers(px, py));
        }
    } else {
        assert forall|i: int| 0 <= i < ms.len() implies !(#[trigger] ms[i]).screen.covers(
            px,
            py,
        ) by {
            assert(!on(i));
        }
        monitor_under_none(ms, px, py);
    }
}

proof fn first_on(ms: Seq<MonitorV>, px: int, py: int, i: int) -> (k: int)
    requires
        0 <= i < ms.len(),
        ms[i].screen.covers(px, py),
    ensures
        0 <= k <= i,
        ms[k].screen.covers(px, py),
        forall|j: int| 0 <= j < k ==> !(#[trigger] ms[j]).screen.covers(px, py),
    decreases i,
{
    if exists|j: int| 0 <= j < i && (#[trigger] ms[j]).screen.covers(px, py) {
        let j = choose|j: int| 0 <= j < i && (#[trigger] ms[j]).screen.covers(px, py);
        first_on(ms, px, py, j)
    } else {
        i
    }
}

/// A dock that reserves space has just that space reserved on its monitor, edge for
/// edge, beside what the other docks there reserve; other monitors, the clients and
/// the rest of the state stay, save what the dock had on the monitor that it left.
pub proof fn dock_gets_what_it_asks_for(
    st: StateV,
    docks: Map<WindowId, usize>,
    win: WindowId,
    s: Seq<(Edge, u32)>,
    mi: usize,
    r: Reserved,
)
    requires
        s.len() > 0,
        mi < st.monitors.len(),
    ensures
        ({
            let (after, record, change) = dock_applied(st, docks, win, Some(s), mi);
            let m = st.monitors[mi as int];
            let n = after.monitors[mi as int];
            &&& r.owner == win ==> (n.reserved.contains(r) <==> s.contains((r.edge, r.px)))
            &&& r.owner != win ==> (n.reserved.contains(r) <==> m.reserved.contains(r))
            &&& n.screen == m.screen && n.workspaces == m.workspaces && n.active_ws == m.active_ws
                && n.focused == m.focused && n.focus_stack == m.focus_stack
            &&& after.clients == st.clients && after.sel_mon == st.sel_mon && after.monitors.len()
                == st.monitors.len()
            &&& forall|i: int|
                0 <= i < st.monitors.len() && i != mi && !(docks.contains_key(win) && docks[win]
                    == i) ==> #[trigger] after.monitors[i] == st.monitors[i]
            &&& record.contains_key(win) && record[win] == mi
            &&& forall|w: WindowId|
                w != win ==> (#[trigger] record.contains_key(w) <==> docks.contains_key(w))
                    && record[w] == docks[w]
            &&& change matches DockChange::Reserved { monitor, left, new } && monitor == mi && new
                == !docks.contains_key(win) && (left is Some <==> docks.contains_key(win)
                && docks[win] != mi && docks[win] < st.monitors.len()) && (left is Some ==> left->0
                == docks[win])
        }),
{
    let m = st.monitors[mi as int];
    let kept = m.reserved.filter(not_owned_by(win));
    let own = owned_regions(win, s);
    vstd::seq_lib::lemma_seq_concat_contains_all_elements(kept, own, r);
    kept_by_filter(m.reserved, win);
    if m.reserved.contains(r) && r.owner != win {
        let i = choose|i: int| 0 <= i < m.reserved.len() && m.reserved[i] == r;
        m.reserved.lemma_filter_contains(not_owned_by(win), i);
    }
    if kept.contains(r) {
        let i = choose|i: int| 0 <= i < kept.len() && kept[i] == r;
        assert(kept[i].owner != win);
    }
    if own.contains(r) {
        let i = choose|i: int| 0 <= i < own.len() && own[i] == r;
        assert(s[i] == (r.edge, r.px));
    }
    if r.owner == win && s.contains((r.edge, r.px)) {
        let i = choose|i: int| 0 <= i < s.len() && s[i] == (r.edge, r.px);
        assert(own[i] == r);
    }
}

/// A dock that goes gives back what it reserved on its monitor and nothing else
/// there.
pub proof fn gone_dock_gives_back_its_own(
    st: StateV,
    docks: Map<WindowId, usize>,
    win: WindowId,
    r: Reserved,
)
    requires
        docks.contains_key(win),
        docks[win] < st.monitors.len(),
    ensures
        ({
            let (after, record, change) = dock_removed(st, docks, win);
            let i = docks[win] as int;
            &&& after.monitors[i].reserved.contains(r) <==> r.owner != win
                && st.monitors[i].reserved.contains(r)
            &&& after.clients == st.clients && after.monitors.len() == st.monitors.len()
            &&& forall|j: int|
                0 <= j < st.monitors.len() && j != i ==> #[trigger] after.monitors[j]
                    == st.monitors[j]
            &&& change == DockChange::Released { monitor: docks[win] }
            &&& forall|w: WindowId|
                w != win ==> (#[trigger] record.contains_key(w) <==> docks.contains_key(w))
                    && record[w] == docks[w]
        }),
{
    let m = st.monitors[docks[win] as int];
    let kept = m.reserved.filter(not_owned_by(win));
    kept_by_filter(m.reserved, win);
    if m.reserved.contains(r) && r.owner != win {
        let i = choose|i: int| 0 <= i < m.reserved.len() && m.reserved[i] == r;
        m.reserved.lemma_filter_contains(not_owned_by(win), i);
    }
    if kept.contains(r) {
        let i = choose|i: int| 0 <= i < kept.len() && kept[i] == r;
        assert(kept[i].owner != win);
    }
}

/// Each dock on record follows its monitor to that monitor's new number.
pub proof fn record_is_renumbered_dock_by_dock(
    docks: Map<WindowId, usize>,
    to: Seq<Option<usize>>,
    w: WindowId,
)
    requires
        docks.contains_key(w),
        docks[w] < to.len(),
    ensures
        renumbered(docks, to).contains_key(w) <==> to[docks[w] as int] is Some,
        to[docks[w] as int] is Some ==> renumbered(docks, to)[w] == to[docks[w] as int]->0,
{
}

} // verus!
