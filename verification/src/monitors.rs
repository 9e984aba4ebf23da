//! Monitor topology: hotplug, resizing, the number of workspaces, docks.

use crate::geom::Rect;
use crate::model::{Client, LayoutKind, WindowId};
use crate::state::{client_ids, monitor_views, workspace_views, Monitor, MonitorV, State, StateV};
use crate::workspace::{clamp_index, column_views, Column, Workspace, WorkspaceV};
use vstd::prelude::*;

verus! {

broadcast use vstd::std_specs::hash::group_hash_axioms;

/// `a` with the columns and floats of `b` after its own.
pub open spec fn absorb(a: WorkspaceV, b: WorkspaceV) -> WorkspaceV {
    WorkspaceV { columns: a.columns + b.columns, floats: a.floats + b.floats, ..a }
}

/// `a` with every workspace of `rest` absorbed in order.
pub open spec fn absorbed(a: WorkspaceV, rest: Seq<WorkspaceV>) -> WorkspaceV
    decreases rest.len(),
{
    if rest.len() == 0 {
        a
    } else {
        absorb(absorbed(a, rest.drop_last()), rest.last())
    }
}

/// The workspaces brought to a number of `n`, at least one: new ones are empty,
/// and the windows of those that disappear move to the last one that stays.
pub open spec fn resized(ws: Seq<WorkspaceV>, n: int) -> Seq<WorkspaceV> {
    let k = if n < 1 {
        1
    } else {
        n
    };
    if k >= ws.len() {
        ws + Seq::new((k - ws.len()) as nat, |i: int| WorkspaceV::empty(LayoutKind::Column))
    } else {
        ws.take(k).update(k - 1, absorbed(ws[k - 1], ws.skip(k)))
    }
}

/// The monitor with its workspaces brought to a number of `n`.
pub open spec fn with_workspaces(m: MonitorV, n: int) -> MonitorV {
    let ws = resized(m.workspaces, n);
    MonitorV { workspaces: ws, active_ws: clamp_index(m.active_ws, ws.len() as int), ..m }
}

impl Workspace {
    fn absorb(&mut self, other: &Workspace)
        ensures
            final(self)@ == absorb(old(self)@, other@),
    {
        let mut o: Workspace = other.copy();
        let ghost a = self.columns@;
        let ghost b = o.columns@;
        self.columns.append(&mut o.columns);
        self.floats.append(&mut o.floats);
        assert(column_views(a + b) =~= column_views(a) + column_views(b));
    }
}

impl Monitor {
    /// Bring the number of workspaces to `n`.
    pub fn reconcile_workspaces(&mut self, n: usize)
        ensures
            final(self)@ == with_workspaces(old(self)@, n as int),
    {
        let k: usize = if n < 1 {
            1
        } else {
            n
        };
        let len: usize = self.workspaces.len();
        let ghost views = self@.workspaces;
        if k >= len {
            let mut i: usize = len;
            while i < k
                invariant
                    len <= i <= k,
                    self.workspaces.len() == i,
                    views.len() == len,
                    self@.workspaces == views + Seq::new(
                        (i - len) as nat,
                        |i: int| WorkspaceV::empty(LayoutKind::Column),
                    ),
                    self@ == (MonitorV { workspaces: self@.workspaces, ..old(self)@ }),
                decreases k - i,
            {
                let w: Workspace = Workspace::new(LayoutKind::Column);
                let ghost before = self.workspaces@;
                self.workspaces.push(w);
                proof {
                    assert(workspace_views(self.workspaces@) =~= workspace_views(before).push(w@));
                    assert(self@.workspaces =~= views + Seq::new(
                        (i + 1 - len) as nat,
                        |i: int| WorkspaceV::empty(LayoutKind::Column),
                    ));
                }
                i = i + 1;
            }
            assert(self@.workspaces =~= resized(views, n as int));
        } else {
            let mut last: Workspace = self.workspaces[k - 1].copy();
            let mut i: usize = k;
            assert(views.skip(k as int).take(0) =~= Seq::<WorkspaceV>::empty());
            assert(last@ == views[k - 1]);
            while i < len
                invariant
                    k <= i <= len,
                    len == self.workspaces.len(),
                    *self == *old(self),
                    views == self@.workspaces,
                    last@ == absorbed(views[k - 1], views.skip(k as int).take(i - k)),
                decreases len - i,
            {
                proof {
                    assert(views[i as int] == self.workspaces@[i as int]@);
                    let t = views.skip(k as int).take(i - k + 1);
                    assert(t.drop_last() =~= views.skip(k as int).take(i - k));
                    assert(t.last() == views[i as int]);
                }
                last.absorb(&self.workspaces[i]);
                i = i + 1;
            }
            proof {
                assert(views.skip(k as int).take(len - k) =~= views.skip(k as int));
            }
            self.workspaces.truncate(k);
            self.workspaces.set(k - 1, last);
            assert(self@.workspaces =~= resized(views, n as int));
        }
        let m: usize = self.workspaces.len();
        if self.active_ws >= m {
            self.active_ws = m - 1;
        }
    }
}

proof fn absorbed_holds(a: WorkspaceV, rest: Seq<WorkspaceV>, win: WindowId)
    ensures
        a.holds(win) ==> absorbed(a, rest).holds(win),
        forall|j: int|
            0 <= j < rest.len() && (#[trigger] rest[j]).holds(win) ==> absorbed(a, rest).holds(win),
    decreases rest.len(),
{
    if rest.len() > 0 {
        let init = rest.drop_last();
        absorbed_holds(a, init, win);
        absorb_holds(absorbed(a, init), rest.last(), win);
        assert forall|j: int| 0 <= j < rest.len() && (#[trigger] rest[j]).holds(win) implies absorbed(
            a,
            rest,
        ).holds(win) by {
            if j < init.len() {
                assert(init[j] == rest[j]);
            } else {
                assert(rest[j] == rest.last());
            }
        }
    }
}

proof fn absorb_holds(a: WorkspaceV, b: WorkspaceV, win: WindowId)
    ensures
        a.holds(win) || b.holds(win) ==> absorb(a, b).holds(win),
{
    let c = absorb(a, b);
    if a.floats.contains(win) {
        let i = choose|i: int| 0 <= i < a.floats.len() && a.floats[i] == win;
        assert(c.floats[i] == win);
    } else if b.floats.contains(win) {
        let i = choose|i: int| 0 <= i < b.floats.len() && b.floats[i] == win;
        assert(c.floats[a.floats.len() + i] == win);
    } else if a.holds(win) {
        let i = choose|i: int|
            0 <= i < a.columns.len() && (#[trigger] a.columns[i]).windows.contains(win);
        assert(c.columns[i].windows.contains(win));
    } else if b.holds(win) {
        let i = choose|i: int|
            0 <= i < b.columns.len() && (#[trigger] b.columns[i]).windows.contains(win);
        assert(c.columns[a.columns.len() + i].windows.contains(win));
    }
}

/// However the number of workspaces changes, no window is lost.
pub proof fn resizing_keeps_every_window(ws: Seq<WorkspaceV>, n: int, i: int, win: WindowId)
    requires
        0 <= i < ws.len(),
        ws[i].holds(win),
    ensures
        exists|j: int| 0 <= j < resized(ws, n).len() && (#[trigger] resized(ws, n)[j]).holds(win),
{
    let k = if n < 1 {
        1
    } else {
        n
    };
    let r = resized(ws, n);
    if k >= ws.len() {
        assert(r[i] == ws[i]);
    } else if i < k - 1 {
        assert(r[i] == ws[i]);
    } else {
        absorbed_holds(ws[k - 1], ws.skip(k), win);
        if i >= k {
            assert(ws.skip(k)[i - k] == ws[i]);
        }
        assert(r[k - 1].holds(win));
    }
}

/// The number of workspaces is what was asked for, and at least one.
pub proof fn resizing_gives_the_asked_number(ws: Seq<WorkspaceV>, n: int)
    ensures
        resized(ws, n).len() == (if n < 1 {
            1
        } else {
            n
        }),
{
}

// -- hotplug ------------------------------------------------------------------
/// The first new monitor from `ni` on with screen `r` that is not taken.
pub open spec fn free_match(
    news: Seq<MonitorV>,
    taken: Seq<Option<usize>>,
    r: Rect,
    ni: int,
) -> Option<usize>
    decreases news.len() - ni,
{
    if ni < 0 || ni >= news.len() || news.len() > usize::MAX {
        None
    } else if news[ni].screen == r && !taken.contains(Some(ni as usize)) {
        Some(ni as usize)
    } else {
        free_match(news, taken, r, ni + 1)
    }
}

/// For each old monitor, the new one that continues it: the first with the same
/// screen that continues none before it.
pub open spec fn survivors(olds: Seq<MonitorV>, news: Seq<MonitorV>) -> Seq<Option<usize>>
    decreases olds.len(),
{
    if olds.len() == 0 {
        Seq::empty()
    } else {
        let t = survivors(olds.drop_last(), news);
        t.push(free_match(news, t, olds.last().screen, 0))
    }
}

/// An old monitor carried over to the place of a new one: its contents, the new
/// screen and the new number of workspaces.
pub open spec fn carried(o: MonitorV, n: MonitorV) -> MonitorV {
    with_workspaces(
        (MonitorV { screen: n.screen, ..o }).recalculated(),
        n.workspaces.len() as int,
    )
}

/// The new monitors with the first `k` old ones carried over.
pub open spec fn carried_over(
    olds: Seq<MonitorV>,
    news: Seq<MonitorV>,
    to: Seq<Option<usize>>,
    k: int,
) -> Seq<MonitorV>
    decreases k,
{
    if k <= 0 {
        news
    } else {
        let r = carried_over(olds, news, to, k - 1);
        match to[k - 1] {
            Some(ni) => r.update(ni as int, carried(olds[k - 1], r[ni as int])),
            None => r,
        }
    }
}

/// Where monitor index `i` went.
pub open spec fn went_to(to: Seq<Option<usize>>, i: int) -> Option<usize> {
    if 0 <= i < to.len() {
        to[i]
    } else {
        None
    }
}

/// The first old monitor that survived gives the new home of windows whose
/// monitor did not.
pub open spec fn refuge(to: Seq<Option<usize>>) -> usize
    decreases to.len(),
{
    if to.len() == 0 {
        0
    } else if to[0] is Some {
        to[0]->0
    } else {
        refuge(to.skip(1))
    }
}

/// One client after the topology changed: it follows its monitor, or moves to
/// the refuge, keeping its workspace as far as there are so many.
pub open spec fn client_moved(c: Client, to: Seq<Option<usize>>, mons: Seq<MonitorV>) -> Client {
    match went_to(to, c.monitor as int) {
        Some(ni) => Client { monitor: ni, ..c },
        None => Client {
            monitor: refuge(to),
            workspace: clamp_index(
                c.workspace as int,
                mons[refuge(to) as int].workspaces.len() as int,
            ) as usize,
            ..c
        },
    }
}

/// Settling the listed clients one after the other: each is moved, and one
/// whose monitor disappeared joins the refuge's tree.
pub open spec fn settled(
    st: StateV,
    to: Seq<Option<usize>>,
    ids: Seq<WindowId>,
    width: u32,
) -> StateV
    decreases ids.len(),
{
    if ids.len() == 0 {
        st
    } else {
        settle_one(settled(st, to, ids.drop_last(), width), to, ids.last(), width)
    }
}

/// Settling one client.
pub open spec fn settle_one(
    st: StateV,
    to: Seq<Option<usize>>,
    win: WindowId,
    width: u32,
) -> StateV {
    if !st.clients.contains_key(win) {
        st
    } else {
        let c = st.clients[win];
        let d = client_moved(c, to, st.monitors);
        let s1 = st.with_client(win, d);
        if went_to(to, c.monitor as int) is Some {
            s1
        } else {
            let m = st.monitors[d.monitor as int];
            let w = m.workspaces[d.workspace as int];
            s1.with_mon(
                d.monitor as int,
                m.with_ws(
                    d.workspace as int,
                    if c.floats() {
                        w.add_float(win)
                    } else {
                        w.add_tiled(win, width)
                    },
                ),
            )
        }
    }
}

/// The selected monitor after the change: where it went, or clamped.
pub open spec fn selected_after(sel: int, to: Seq<Option<usize>>, n: int) -> int {
    match went_to(to, sel) {
        Some(ni) => ni as int,
        None => clamp_index(sel, n),
    }
}

/// The state after monitors were added or removed.
pub open spec fn replugged(
    st: StateV,
    news: Seq<MonitorV>,
    ids: Seq<WindowId>,
    width: u32,
) -> StateV {
    let to = survivors(st.monitors, news);
    let mons = carried_over(st.monitors, news, to, st.monitors.len() as int);
    settled(
        StateV {
            monitors: mons,
            sel_mon: selected_after(st.sel_mon, to, news.len() as int),
            ..st
        },
        to,
        ids,
        width,
    )
}

/// The state after monitors only changed their geometry: what docks reserve is
/// taken from the new screens.
pub open spec fn regeometried(st: StateV, news: Seq<MonitorV>) -> StateV {
    StateV {
        monitors: Seq::new(
            st.monitors.len(),
            |i: int| (MonitorV { screen: news[i].screen, ..st.monitors[i] }).recalculated(),
        ),
        ..st
    }
}

/// Some monitor has another screen than before.
pub open spec fn geometry_differs(a: Seq<MonitorV>, b: Seq<MonitorV>) -> bool {
    exists|i: int|
        0 <= i < a.len() && i < b.len() && (#[trigger] a[i]).screen != b[i].screen
}

/// The same screens, in the same order.
pub open spec fn same_screens(a: Seq<MonitorV>, b: Seq<MonitorV>) -> bool {
    a.len() == b.len() && forall|i: int|
        0 <= i < a.len() ==> (#[trigger] a[i]).screen == b[i].screen
}

/// What changed about the monitors.
#[derive(Debug, Clone, Copy, PartialEq, Eq, Structural)]
pub enum TopologyChange {
    Unchanged,
    Geometry,
    Count,
}

/// Monitors as they are detected: measurable, each with a workspace.
pub open spec fn plausible(news: Seq<MonitorV>) -> bool {
    &&& 0 < news.len() <= usize::MAX
    &&& forall|i: int|
        0 <= i < news.len() ==> (#[trigger] news[i]).screen.edges_fit()
            && news[i].workspaces.len() >= 1
}

/// A match is in range, has the screen, and is not taken.
proof fn free_match_props(news: Seq<MonitorV>, taken: Seq<Option<usize>>, r: Rect, ni: int)
    requires
        0 <= ni,
        news.len() <= usize::MAX,
    ensures
        free_match(news, taken, r, ni) matches Some(k) ==> {
            &&& ni <= k < news.len()
            &&& news[k as int].screen == r
            &&& !taken.contains(Some(k))
        },
    decreases news.len() - ni,
{
    if ni < news.len() && !(news[ni].screen == r && !taken.contains(Some(ni as usize))) {
        free_match_props(news, taken, r, ni + 1);
    }
}

/// Each new monitor continues at most one old one, with the same screen.
pub proof fn survivors_are_matched_once(olds: Seq<MonitorV>, news: Seq<MonitorV>)
    requires
        news.len() <= usize::MAX,
    ensures
        survivors(olds, news).len() == olds.len(),
        forall|i: int|
            0 <= i < olds.len() ==> ((#[trigger] survivors(olds, news)[i]) matches Some(k) ==> k
                < news.len() && news[k as int].screen == olds[i].screen),
        forall|i: int, j: int|
            0 <= i < j < olds.len() && (#[trigger] survivors(olds, news)[i]) is Some
                ==> survivors(olds, news)[i] != #[trigger] survivors(olds, news)[j],
    decreases olds.len(),
{
    if olds.len() > 0 {
        let init = olds.drop_last();
        survivors_are_matched_once(init, news);
        let t = survivors(init, news);
        let s = survivors(olds, news);
        free_match_props(news, t, olds.last().screen, 0);
        assert forall|i: int| 0 <= i < olds.len() implies ((#[trigger] s[i]) matches Some(k) ==> k
            < news.len() && news[k as int].screen == olds[i].screen) by {
            if i < init.len() {
                assert(s[i] == t[i] && init[i] == olds[i]);
            }
        }
        assert forall|i: int, j: int|
            0 <= i < j < olds.len() && (#[trigger] s[i]) is Some implies s[i] != #[trigger] s[j] by {
            assert(s[i] == t[i]);
            if j < init.len() {
                assert(s[j] == t[j]);
            } else {
                assert(t.contains(t[i]));
            }
        }
    }
}

/// Carrying old monitors over keeps the number of monitors, keeps them
/// plausible, and every survivor's target in range.
pub proof fn carried_over_is_plausible(
    olds: Seq<MonitorV>,
    news: Seq<MonitorV>,
    to: Seq<Option<usize>>,
    k: int,
)
    requires
        plausible(news),
        0 <= k <= olds.len(),
        to == survivors(olds, news),
    ensures
        carried_over(olds, news, to, k).len() == news.len(),
        plausible(carried_over(olds, news, to, k)),
    decreases k,
{
    if k > 0 {
        survivors_are_matched_once(olds, news);
        carried_over_is_plausible(olds, news, to, k - 1);
        let r = carried_over(olds, news, to, k - 1);
        match to[k - 1] {
            Some(ni) => {
                resizing_gives_the_asked_number(
                    (MonitorV { screen: r[ni as int].screen, ..olds[k - 1] }).recalculated().workspaces,
                    r[ni as int].workspaces.len() as int,
                );
            },
            None => {},
        }
    }
}

/// The refuge is a survivor, or the first monitor.
pub proof fn refuge_in_range(to: Seq<Option<usize>>, n: int)
    requires
        n > 0,
        forall|i: int| 0 <= i < to.len() ==> ((#[trigger] to[i]) matches Some(k) ==> k < n),
    ensures
        refuge(to) < n,
    decreases to.len(),
{
    if to.len() > 0 && !(to[0] is Some) {
        let t = to.skip(1);
        assert forall|i: int| 0 <= i < t.len() implies ((#[trigger] t[i]) matches Some(k) ==> k
            < n) by {
            assert(t[i] == to[i + 1]);
        }
        refuge_in_range(t, n);
    }
}

/// What freshly detected monitors change.
pub open spec fn topology_between(st: StateV, news: Seq<MonitorV>) -> TopologyChange {
    if news.len() != st.monitors.len() {
        TopologyChange::Count
    } else if geometry_differs(news, st.monitors) {
        TopologyChange::Geometry
    } else {
        TopologyChange::Unchanged
    }
}

/// What a change of the monitors makes of a state. When their number changed, the
/// windows of the missing ones are taken in no particular order.
pub open spec fn monitors_followed(
    st: StateV,
    news: Seq<MonitorV>,
    width: u32,
    r: TopologyChange,
    after: StateV,
) -> bool {
    &&& r == topology_between(st, news)
    &&& match r {
        TopologyChange::Unchanged => after == st,
        TopologyChange::Geometry => after == regeometried(st, news),
        TopologyChange::Count => exists|ids: Seq<WindowId>|
            lists_clients(ids, st) && after == #[trigger] replugged(st, news, ids, width),
    }
}

impl State {
    /// What the freshly detected monitors change.
    pub fn topology_change(&self, news: &Vec<Monitor>) -> (r: TopologyChange)
        ensures
            r == topology_between(self@, monitor_views(news@)),
    {
        if news.len() != self.monitors.len() {
            return TopologyChange::Count;
        }
        let mut i: usize = 0;
        while i < news.len()
            invariant
                i <= news.len(),
                news.len() == self.monitors.len(),
                forall|j: int|
                    0 <= j < i ==> (#[trigger] monitor_views(news@)[j]).screen
                        == self@.monitors[j].screen,
            decreases news.len() - i,
        {
            proof {
                assert(monitor_views(news@)[i as int] == news@[i as int]@);
                assert(self@.monitors[i as int] == self.monitors@[i as int]@);
            }
            if news[i].screen != self.monitors[i].screen {
                return TopologyChange::Geometry;
            }
            i = i + 1;
        }
        TopologyChange::Unchanged
    }

    /// Adopt the screens of the freshly detected monitors in place.
    pub fn adopt_geometry(&mut self, news: &Vec<Monitor>)
        requires
            news.len() == old(self).monitors.len(),
            forall|i: int| 0 <= i < news.len() ==> (#[trigger] news@[i]).screen.edges_fit(),
        ensures
            final(self)@ == regeometried(old(self)@, monitor_views(news@)),
    {
        let ghost goal = regeometried(self@, monitor_views(news@)).monitors;
        let mut i: usize = 0;
        while i < news.len()
            invariant
                i <= news.len(),
                news.len() == self.monitors.len(),
                news.len() == old(self).monitors.len(),
                forall|j: int| 0 <= j < news.len() ==> (#[trigger] news@[j]).screen.edges_fit(),
                goal == regeometried(old(self)@, monitor_views(news@)).monitors,
                self@ == (StateV { monitors: self@.monitors, ..old(self)@ }),
                forall|j: int| 0 <= j < i ==> (#[trigger] self.monitors@[j])@ == goal[j],
                forall|j: int| i <= j < news.len() ==> self.monitors@[j] == old(self).monitors@[j],
            decreases news.len() - i,
        {
            proof {
                assert(monitor_views(news@)[i as int] == news@[i as int]@);
                assert(old(self)@.monitors[i as int] == old(self).monitors@[i as int]@);
            }
            self.monitors[i].screen = news[i].screen;
            self.monitors[i].recalc_geometry();
            i = i + 1;
        }
        assert(self@.monitors =~= goal);
    }
}

/// For each old monitor, the new one that continues it.
pub fn match_monitors(olds: &Vec<Monitor>, news: &Vec<Monitor>) -> (to: Vec<Option<usize>>)
    ensures
        to@ == survivors(monitor_views(olds@), monitor_views(news@)),
{
    let mut to: Vec<Option<usize>> = Vec::new();
    let mut taken: Vec<bool> = Vec::new();
    let ghost ov = monitor_views(olds@);
    let ghost nv = monitor_views(news@);
    let mut t: usize = 0;
    while t < news.len()
        invariant
            t <= news.len(),
            taken@.len() == t,
            forall|j: int| 0 <= j < t ==> !(#[trigger] taken@[j]),
        decreases news.len() - t,
    {
        taken.push(false);
        t = t + 1;
    }
    let mut oi: usize = 0;
    assert(ov.take(0) =~= Seq::<MonitorV>::empty());
    while oi < olds.len()
        invariant
            oi <= olds.len(),
            ov == monitor_views(olds@),
            nv == monitor_views(news@),
            taken@.len() == news.len(),
            to@ == survivors(ov.take(oi as int), nv),
            forall|j: int|
                0 <= j < news.len() ==> (#[trigger] taken@[j]) == to@.contains(Some(j as usize)),
        decreases olds.len() - oi,
    {
        proof {
            assert(ov.take(oi as int + 1).drop_last() =~= ov.take(oi as int));
            assert(ov.take(oi as int + 1).last() == olds@[oi as int]@);
        }
        let mut found: Option<usize> = None;
        let mut ni: usize = 0;
        while ni < news.len() && found.is_none()
            invariant
                ni <= news.len(),
                oi < olds.len(),
                nv == monitor_views(news@),
                taken@.len() == news.len(),
                forall|j: int|
                    0 <= j < news.len() ==> (#[trigger] taken@[j]) == to@.contains(
                        Some(j as usize),
                    ),
                found matches Some(k) ==> free_match(nv, to@, olds@[oi as int].screen, 0) == Some(k)
                    && k < news.len(),
                found is None ==> free_match(nv, to@, olds@[oi as int].screen, 0) == free_match(
                    nv,
                    to@,
                    olds@[oi as int].screen,
                    ni as int,
                ),
            decreases news.len() - ni + (if found is None { 1int } else { 0int }),
        {
            assert(nv[ni as int] == news@[ni as int]@);
            assert(taken@[ni as int] == to@.contains(Some(ni)));
            if !taken[ni] && news[ni].screen == olds[oi].screen {
                found = Some(ni);
            } else {
                ni = ni + 1;
            }
        }
        let ghost before = to@;
        to.push(found);
        match found {
            Some(k) => {
                taken.set(k, true);
            },
            None => {},
        }
        proof {
            assert forall|j: int| 0 <= j < news.len() implies (#[trigger] taken@[j])
                == to@.contains(Some(j as usize)) by {
                if before.contains(Some(j as usize)) {
                    let k = choose|k: int|
                        0 <= k < before.len() && before[k] == Some(j as usize);
                    assert(to@[k] == Some(j as usize));
                }
                if to@.contains(Some(j as usize)) {
                    let k = choose|k: int| 0 <= k < to@.len() && to@[k] == Some(j as usize);
                    if k < before.len() {
                        assert(before[k] == Some(j as usize));
                    }
                }
                assert(to@[before.len() as int] == found);
            }
        }
        oi = oi + 1;
    }
    assert(ov.take(oi as int) =~= ov);
    to
}

fn refuge_of(to: &Vec<Option<usize>>) -> (r: usize)
    ensures
        r == refuge(to@),
{
    let mut i: usize = 0;
    assert(to@.skip(0) =~= to@);
    while i < to.len()
        invariant
            i <= to.len(),
            refuge(to@) == refuge(to@.skip(i as int)),
        decreases to.len() - i,
    {
        proof {
            assert(to@.skip(i as int)[0] == to@[i as int]);
            assert(to@.skip(i as int).skip(1) =~= to@.skip(i as int + 1));
        }
        match to[i] {
            Some(k) => {
                return k;
            },
            None => {},
        }
        i = i + 1;
    }
    0
}

pub(crate) fn went(to: &Vec<Option<usize>>, i: usize) -> (r: Option<usize>)
    ensures
        r == went_to(to@, i as int),
{
    if i < to.len() {
        to[i]
    } else {
        None
    }
}

impl State {
    fn settle(&mut self, to: &Vec<Option<usize>>, win: WindowId, width: u32)
        requires
            plausible(old(self)@.monitors),
            refuge(to@) < old(self)@.monitors.len(),
        ensures
            final(self)@ == settle_one(old(self)@, to@, win, width),
            final(self)@.monitors.len() == old(self)@.monitors.len(),
            plausible(final(self)@.monitors),
    {
        let ghost st = self@;
        match self.clients.remove(&win) {
            None => {
                assert(self.clients@ =~= st.clients);
            },
            Some(c0) => {
                let mut c: Client = c0;
                let fl: bool = c.is_float();
                match went(to, c.monitor) {
                    Some(ni) => {
                        c.monitor = ni;
                        self.clients.insert(win, c);
                        assert(self.clients@ =~= st.clients.insert(win, c));
                    },
                    None => {
                        let mi: usize = refuge_of(to);
                        assert(st.monitors[mi as int] == self.monitors@[mi as int]@);
                        let n: usize = self.monitors[mi].workspaces.len();
                        assert(n >= 1);
                        c.monitor = mi;
                        if c.workspace >= n {
                            c.workspace = n - 1;
                        }
                        let wi: usize = c.workspace;
                        self.clients.insert(win, c);
                        assert(self.clients@ =~= st.clients.insert(win, c));
                        let ghost m0 = self.monitors@[mi as int];
                        if fl {
                            self.monitors[mi].workspaces[wi].add_float(win);
                        } else {
                            self.monitors[mi].workspaces[wi].add_tiled(win, width);
                        }
                        proof {
                            let m1 = self.monitors@[mi as int];
                            let w1 = m1.workspaces@[wi as int];
                            assert(m1@.workspaces =~= m0@.workspaces.update(wi as int, w1@));
                            assert(self@.monitors =~= st.monitors.update(mi as int, m1@));
                        }
                    },
                }
            },
        }
    }
}

impl State {
    /// Replace the monitors by the freshly detected ones after some were added
    /// or removed. A monitor whose screen is still there keeps its contents; the
    /// listed windows of one that is gone move to the first survivor.
    pub fn replug(&mut self, news: Vec<Monitor>, ids: &Vec<WindowId>, width: u32)
        requires
            plausible(monitor_views(news@)),
        ensures
            final(self)@ == replugged(old(self)@, monitor_views(news@), ids@, width),
    {
        let ghost st = self@;
        let ghost nv = monitor_views(news@);
        let to: Vec<Option<usize>> = match_monitors(&self.monitors, &news);
        proof {
            survivors_are_matched_once(st.monitors, nv);
            refuge_in_range(to@, nv.len() as int);
        }
        let n: usize = news.len();
        let mut result: Vec<Monitor> = news;
        let mut k: usize = 0;
        while k < self.monitors.len()
            invariant
                k <= self.monitors.len(),
                n == nv.len(),
                *self == *old(self),
                st == self@,
                to@ == survivors(st.monitors, nv),
                plausible(nv),
                result@.len() == nv.len(),
                monitor_views(result@) == carried_over(st.monitors, nv, to@, k as int),
                to@.len() == st.monitors.len(),
                forall|i: int|
                    0 <= i < to@.len() ==> ((#[trigger] to@[i]) matches Some(k) ==> k < nv.len()),
            decreases self.monitors.len() - k,
        {
            proof {
                carried_over_is_plausible(st.monitors, nv, to@, k as int);
                assert(st.monitors[k as int] == self.monitors@[k as int]@);
            }
            match to[k] {
                Some(ni) => {
                    let ghost before = result@;
                    assert(monitor_views(before)[ni as int] == before[ni as int]@);
                    let mut m: Monitor = self.monitors[k].copy();
                    m.screen = result[ni].screen;
                    m.recalc_geometry();
                    m.reconcile_workspaces(result[ni].workspaces.len());
                    result.set(ni, m);
                    assert(monitor_views(result@) =~= monitor_views(before).update(ni as int, m@));
                },
                None => {},
            }
            k = k + 1;
        }
        proof {
            carried_over_is_plausible(st.monitors, nv, to@, k as int);
        }
        self.monitors = result;
        match went(&to, self.sel_mon) {
            Some(ni) => {
                self.sel_mon = ni;
            },
            None => {
                if self.sel_mon >= n {
                    self.sel_mon = n - 1;
                }
            },
        }
        let ghost base = self@;
        let mut i: usize = 0;
        assert(ids@.take(0) =~= Seq::<WindowId>::empty());
        while i < ids.len()
            invariant
                i <= ids.len(),
                self@ == settled(base, to@, ids@.take(i as int), width),
                plausible(self@.monitors),
                self@.monitors.len() == nv.len(),
                refuge(to@) < nv.len(),
            decreases ids.len() - i,
        {
            proof {
                assert(ids@.take(i as int + 1).drop_last() =~= ids@.take(i as int));
            }
            self.settle(&to, ids[i], width);
            i = i + 1;
        }
        assert(ids@.take(i as int) =~= ids@);
    }

    /// React to a possible change of the monitors. Returns what changed; where
    /// nothing did, nothing is touched. When the number of monitors changed, the
    /// windows of the missing ones are taken in no particular order.
    pub fn handle_monitor_change(&mut self, news: Vec<Monitor>, width: u32) -> (r: TopologyChange)
        requires
            plausible(monitor_views(news@)),
        ensures
            monitors_followed(old(self)@, monitor_views(news@), width, r, final(self)@),
            same_screens(monitor_views(news@), old(self)@.monitors) ==> r is Unchanged
                && final(self)@ == old(self)@,
    {
        let change: TopologyChange = self.topology_change(&news);
        match change {
            TopologyChange::Unchanged => {},
            TopologyChange::Geometry => {
                proof {
                    assert forall|i: int| 0 <= i < news.len() implies (#[trigger]
                    news@[i]).screen.edges_fit() by {
                        assert(monitor_views(news@)[i] == news@[i]@);
                    }
                }
                self.adopt_geometry(&news);
            },
            TopologyChange::Count => {
                let ids: Vec<WindowId> = client_ids(&self.clients);
                assert(lists_clients(ids@, old(self)@));
                self.replug(news, &ids, width);
            },
        }
        change
    }
}

/// `ids` lists every client once.
pub open spec fn lists_clients(ids: Seq<WindowId>, st: StateV) -> bool {
    ids.no_duplicates() && forall|w: WindowId| #[trigger]
        ids.contains(w) <==> st.clients.contains_key(w)
}

/// The selected monitor exists after every change of the number of monitors.
pub proof fn selection_survives_replugging(st: StateV, news: Seq<MonitorV>)
    requires
        plausible(news),
        st.sel_mon >= 0,
    ensures
        0 <= selected_after(st.sel_mon, survivors(st.monitors, news), news.len() as int)
            < news.len(),
{
    survivors_are_matched_once(st.monitors, news);
}

/// A client of a monitor that is still there keeps its workspace and stays on
/// that monitor's screen; any other client moves to an existing workspace of an
/// existing monitor.
pub proof fn clients_stay_on_existing_monitors(c: Client, st: StateV, news: Seq<MonitorV>)
    requires
        plausible(news),
        c.monitor < st.monitors.len(),
    ensures
        ({
            let to = survivors(st.monitors, news);
            let mons = carried_over(st.monitors, news, to, st.monitors.len() as int);
            let d = client_moved(c, to, mons);
            &&& d.monitor < mons.len()
            &&& mons.len() == news.len()
            &&& to[c.monitor as int] is Some ==> d.workspace == c.workspace
                && news[d.monitor as int].screen == st.monitors[c.monitor as int].screen
            &&& to[c.monitor as int] is None ==> d.workspace
                < mons[d.monitor as int].workspaces.len()
        }),
{
    let to = survivors(st.monitors, news);
    survivors_are_matched_once(st.monitors, news);
    carried_over_is_plausible(st.monitors, news, to, st.monitors.len() as int);
    refuge_in_range(to, news.len() as int);
}

/// A new monitor keeps its own screen; it has the reservations of the monitor
/// that it continues, or its own where it continues none.
pub proof fn carried_over_keeps_reservations(
    olds: Seq<MonitorV>,
    news: Seq<MonitorV>,
    k: int,
    ni: int,
)
    requires
        plausible(news),
        0 <= k <= olds.len(),
        0 <= ni < news.len(),
    ensures
        ({
            let to = survivors(olds, news);
            let m = carried_over(olds, news, to, k)[ni];
            &&& m.screen == news[ni].screen
            &&& forall|j: int|
                0 <= j < k && (#[trigger] to[j]) == Some(ni as usize) ==> m.reserved
                    == olds[j].reserved
            &&& (forall|j: int| 0 <= j < k ==> #[trigger] to[j] != Some(ni as usize))
                ==> m.reserved == news[ni].reserved
        }),
    decreases k,
{
    if k > 0 {
        let to = survivors(olds, news);
        survivors_are_matched_once(olds, news);
        carried_over_is_plausible(olds, news, to, k - 1);
        carried_over_keeps_reservations(olds, news, k - 1, ni);
        let r = carried_over(olds, news, to, k - 1);
        let m = carried_over(olds, news, to, k)[ni];
        if to[k - 1] == Some(ni as usize) {
            assert(m == carried(olds[k - 1], r[ni]));
            assert forall|j: int| 0 <= j < k && (#[trigger] to[j]) == Some(
                ni as usize,
            ) implies m.reserved == olds[j].reserved by {
                if j < k - 1 {
                    assert(to[j] != to[k - 1]);
                }
            }
        } else {
            assert(m == r[ni]);
        }
    }
}

/// Settling windows leaves the monitors' screens and reservations alone.
pub proof fn settling_keeps_reservations(
    st: StateV,
    to: Seq<Option<usize>>,
    ids: Seq<WindowId>,
    width: u32,
)
    requires
        refuge(to) < st.monitors.len(),
    ensures
        settled(st, to, ids, width).monitors.len() == st.monitors.len(),
        forall|i: int|
            0 <= i < st.monitors.len() ==> (#[trigger] settled(
                st,
                to,
                ids,
                width,
            ).monitors[i]).screen == st.monitors[i].screen && settled(
                st,
                to,
                ids,
                width,
            ).monitors[i].reserved == st.monitors[i].reserved,
    decreases ids.len(),
{
    if ids.len() > 0 {
        settling_keeps_reservations(st, to, ids.drop_last(), width);
        let s = settled(st, to, ids.drop_last(), width);
        let t = settle_one(s, to, ids.last(), width);
        assert(t.monitors.len() == s.monitors.len());
        assert forall|i: int| 0 <= i < st.monitors.len() implies (#[trigger]
        t.monitors[i]).screen == s.monitors[i].screen && t.monitors[i].reserved
            == s.monitors[i].reserved by {}
    }
}

/// Detecting the same monitors again changes nothing: after any change the
/// screens are the detected ones.
pub proof fn repeated_detection_changes_nothing(
    st: StateV,
    news: Seq<MonitorV>,
    ids: Seq<WindowId>,
    width: u32,
)
    requires
        plausible(news),
    ensures
        same_screens(news, replugged(st, news, ids, width).monitors),
        news.len() == st.monitors.len() ==> same_screens(news, regeometried(st, news).monitors),
        news.len() == st.monitors.len() && !geometry_differs(news, st.monitors) ==> same_screens(
            news,
            st.monitors,
        ),
{
    let to = survivors(st.monitors, news);
    let n = st.monitors.len() as int;
    let mons = carried_over(st.monitors, news, to, n);
    survivors_are_matched_once(st.monitors, news);
    carried_over_is_plausible(st.monitors, news, to, n);
    refuge_in_range(to, news.len() as int);
    let base = StateV {
        monitors: mons,
        sel_mon: selected_after(st.sel_mon, to, news.len() as int),
        ..st
    };
    settling_keeps_reservations(base, to, ids, width);
    let after = replugged(st, news, ids, width);
    assert forall|i: int| 0 <= i < news.len() implies (#[trigger] news[i]).screen
        == after.monitors[i].screen by {
        carried_over_keeps_reservations(st.monitors, news, n, i);
        assert(after.monitors[i].screen == base.monitors[i].screen);
    }
}

// -- the number of tags -------------------------------------------------------
/// `c` with its workspace among the first `n`.
pub open spec fn tag_clamped(c: Client, n: int) -> Client {
    if c.workspace >= n {
        Client { workspace: clamp_index(c.workspace as int, n) as usize, ..c }
    } else {
        c
    }
}

impl State {
    /// Bring every client's workspace into the first `n`, after the number of
    /// tags changed. Returns the clients that had to move, in no particular
    /// order.
    pub fn clamp_client_tags(&mut self, n: usize) -> (moved: Vec<WindowId>)
        ensures
            final(self)@ == (StateV {
                clients: old(self)@.clients.map_values(|c: Client| tag_clamped(c, n as int)),
                ..old(self)@
            }),
            moved@.no_duplicates(),
            forall|w: WindowId| #[trigger]
                moved@.contains(w) <==> old(self)@.clients.contains_key(w)
                    && old(self)@.clients[w].workspace >= n,
    {
        let ids: Vec<WindowId> = client_ids(&self.clients);
        let mut moved: Vec<WindowId> = Vec::new();
        let ghost goal = old(self)@.clients.map_values(|c: Client| tag_clamped(c, n as int));
        let mut i: usize = 0;
        while i < ids.len()
            invariant
                i <= ids.len(),
                lists_clients(ids@, old(self)@),
                goal == old(self)@.clients.map_values(|c: Client| tag_clamped(c, n as int)),
                self@ == (StateV { clients: self@.clients, ..old(self)@ }),
                self@.clients.dom() == old(self)@.clients.dom(),
                forall|j: int|
                    0 <= j < i ==> self@.clients[#[trigger] ids@[j]] == goal[ids@[j]],
                forall|j: int|
                    i <= j < ids@.len() ==> self@.clients[#[trigger] ids@[j]]
                        == old(self)@.clients[ids@[j]],
                moved@.no_duplicates(),
                forall|k: int|
                    0 <= k < moved@.len() ==> (exists|j: int|
                        0 <= j < i && ids@[j] == #[trigger] moved@[k])
                        && old(self)@.clients[moved@[k]].workspace >= n,
                forall|j: int|
                    0 <= j < i && old(self)@.clients[#[trigger] ids@[j]].workspace >= n
                        ==> moved@.contains(ids@[j]),
            decreases ids.len() - i,
        {
            let w: WindowId = ids[i];
            let ghost before = self@.clients;
            let ghost m0 = moved@;
            assert(ids@.contains(w));
            assert(before.contains_key(w));
            match self.clients.remove(&w) {
                Some(c0) => {
                    let mut c: Client = c0;
                    if c.workspace >= n {
                        c.workspace = if n == 0 {
                            0
                        } else {
                            n - 1
                        };
                        proof {
                            assert(!m0.contains(w)) by {
                                if m0.contains(w) {
                                    let k = choose|k: int| 0 <= k < m0.len() && m0[k] == w;
                                    let j = choose|j: int| 0 <= j < i && ids@[j] == m0[k];
                                    assert(ids@[j] == ids@[i as int]);
                                }
                            }
                        }
                        moved.push(w);
                        proof {
                            assert(moved@[m0.len() as int] == w);
                            assert(ids@[i as int] == w);
                            assert forall|a: int, b: int|
                                0 <= a < moved@.len() && 0 <= b < moved@.len() && a
                                    != b implies moved@[a] != moved@[b] by {
                                if a < m0.len() && b < m0.len() {
                                } else if a < m0.len() {
                                    assert(m0.contains(m0[a]));
                                } else {
                                    assert(m0.contains(m0[b]));
                                }
                            }
                            assert forall|j: int|
                                0 <= j < i + 1 && old(self)@.clients[#[trigger] ids@[j]].workspace
                                    >= n implies moved@.contains(ids@[j]) by {
                                if j < i {
                                    assert(m0.contains(ids@[j]));
                                    let k = choose|k: int| 0 <= k < m0.len() && m0[k] == ids@[j];
                                    assert(moved@[k] == ids@[j]);
                                }
                            }
                        }
                    }
                    self.clients.insert(w, c);
                    proof {
                        assert(self.clients@ =~= before.insert(w, c));
                        assert(c == tag_clamped(old(self)@.clients[w], n as int));
                        assert(self@.clients.dom() =~= old(self)@.clients.dom());
                        assert forall|j: int|
                            0 <= j < ids@.len() && j != i implies #[trigger] ids@[j] != w by {
                            assert(ids@[j] != ids@[i as int]);
                        }
                    }
                },
                None => {},
            }
            i = i + 1;
        }
        proof {
            assert(self@.clients =~= goal) by {
                assert forall|w: WindowId| self@.clients.contains_key(w) implies #[trigger]
                    self@.clients[w] == goal[w] by {
                    assert(ids@.contains(w));
                    let j = choose|j: int| 0 <= j < ids@.len() && ids@[j] == w;
                    assert(self@.clients[ids@[j]] == goal[ids@[j]]);
                }
            }
            assert forall|w: WindowId| #[trigger] moved@.contains(w) <==> old(
                self,
            )@.clients.contains_key(w) && old(self)@.clients[w].workspace >= n by {
                if moved@.contains(w) {
                    let k = choose|k: int| 0 <= k < moved@.len() && moved@[k] == w;
                    assert(moved@[k] == w);
                    let j = choose|j: int| 0 <= j < i && ids@[j] == moved@[k];
                    assert(ids@.contains(ids@[j]));
                }
                if old(self)@.clients.contains_key(w) && old(self)@.clients[w].workspace >= n {
                    assert(ids@.contains(w));
                    let j = choose|j: int| 0 <= j < ids@.len() && ids@[j] == w;
                    assert(moved@.contains(ids@[j]));
                }
            }
        }
        moved
    }
}

// ---- What following the monitors is for -------------------------------------

/// Bringing the workspaces to another number keeps those that stay as they are, but
/// for the last one where some go; new ones are empty, and the one on show is the
/// same as long as it stays.
pub proof fn staying_workspaces_are_kept(m: MonitorV, n: int, i: int)
    requires
        1 <= n,
        0 <= i < n,
        0 <= m.active_ws,
        m.workspaces.len() > 0,
    ensures
        ({
            let after = with_workspaces(m, n);
            &&& after.workspaces.len() == n
            &&& i < m.workspaces.len() && (i < n - 1 || n >= m.workspaces.len())
                ==> after.workspaces[i] == m.workspaces[i]
            &&& i >= m.workspaces.len() ==> after.workspaces[i].columns.len() == 0
                && after.workspaces[i].floats.len() == 0
            &&& m.active_ws < n && m.active_ws < m.workspaces.len() ==> after.active_ws
                == m.active_ws
            &&& 0 <= after.active_ws < n
            &&& after.screen == m.screen && after.workarea == m.workarea && after.focused
                == m.focused && after.focus_stack == m.focus_stack && after.reserved == m.reserved
        }),
{
}

proof fn absorbed_tells_tiles_from_floats(a: WorkspaceV, rest: Seq<WorkspaceV>, win: WindowId)
    ensures
        ({
            let b = absorbed(a, rest);
            &&& b.column_idx == a.column_idx
            &&& b.tiles(win) <==> a.tiles(win) || exists|j: int|
                0 <= j < rest.len() && (#[trigger] rest[j]).tiles(win)
            &&& b.floats.contains(win) <==> a.floats.contains(win) || exists|j: int|
                0 <= j < rest.len() && (#[trigger] rest[j]).floats.contains(win)
        }),
    decreases rest.len(),
{
    if rest.len() > 0 {
        let t = rest.drop_last();
        let l = rest.last();
        let x = absorbed(a, t);
        let b = absorbed(a, rest);
        absorbed_tells_tiles_from_floats(a, t, win);
        assert(rest[rest.len() - 1] == l);
        assert(b.tiles(win) <==> x.tiles(win) || l.tiles(win)) by {
            if x.tiles(win) {
                let i = choose|i: int|
                    0 <= i < x.columns.len() && (#[trigger] x.columns[i]).windows.contains(win);
                assert(b.columns[i] == x.columns[i]);
            }
            if l.tiles(win) {
                let i = choose|i: int|
                    0 <= i < l.columns.len() && (#[trigger] l.columns[i]).windows.contains(win);
                assert(b.columns[x.columns.len() + i] == l.columns[i]);
            }
            if b.tiles(win) {
                let i = choose|i: int|
                    0 <= i < b.columns.len() && (#[trigger] b.columns[i]).windows.contains(win);
                if i < x.columns.len() {
                    assert(b.columns[i] == x.columns[i]);
                } else {
                    assert(b.columns[i] == l.columns[i - x.columns.len()]);
                }
            }
        }
        assert(b.floats.contains(win) <==> x.floats.contains(win) || l.floats.contains(win)) by {
            if x.floats.contains(win) {
                let i = choose|i: int| 0 <= i < x.floats.len() && x.floats[i] == win;
                assert(b.floats[i] == win);
            }
            if l.floats.contains(win) {
                let i = choose|i: int| 0 <= i < l.floats.len() && l.floats[i] == win;
                assert(b.floats[x.floats.len() + i] == win);
            }
            if b.floats.contains(win) {
                let i = choose|i: int| 0 <= i < b.floats.len() && b.floats[i] == win;
                if i < x.floats.len() {
                    assert(x.floats[i] == win);
                } else {
                    assert(l.floats[i - x.floats.len()] == win);
                }
            }
        }
        if exists|j: int| 0 <= j < rest.len() && (#[trigger] rest[j]).tiles(win) {
            let j = choose|j: int| 0 <= j < rest.len() && (#[trigger] rest[j]).tiles(win);
            if j < t.len() {
                assert(t[j].tiles(win));
            }
        }
        if exists|j: int| 0 <= j < t.len() && (#[trigger] t[j]).tiles(win) {
            let j = choose|j: int| 0 <= j < t.len() && (#[trigger] t[j]).tiles(win);
            assert(rest[j].tiles(win));
        }
        if exists|j: int| 0 <= j < rest.len() && (#[trigger] rest[j]).floats.contains(win) {
            let j = choose|j: int|
                0 <= j < rest.len() && (#[trigger] rest[j]).floats.contains(win);
            if j < t.len() {
                assert(t[j].floats.contains(win));
            }
        }
        if exists|j: int| 0 <= j < t.len() && (#[trigger] t[j]).floats.contains(win) {
            let j = choose|j: int| 0 <= j < t.len() && (#[trigger] t[j]).floats.contains(win);
            assert(rest[j].floats.contains(win));
        }
    }
}

/// When workspaces go, their tiles become tiles and their floats become floats of
/// the last one that stays.
pub proof fn windows_of_lost_workspaces_move_to_the_last(
    ws: Seq<WorkspaceV>,
    n: int,
    i: int,
    win: WindowId,
)
    requires
        1 <= n < ws.len(),
        n - 1 <= i < ws.len(),
    ensures
        ws[i].tiles(win) ==> resized(ws, n)[n - 1].tiles(win),
        ws[i].floats.contains(win) ==> resized(ws, n)[n - 1].floats.contains(win),
        resized(ws, n)[n - 1].tiles(win) ==> exists|k: int|
            n - 1 <= k < ws.len() && (#[trigger] ws[k]).tiles(win),
        resized(ws, n)[n - 1].floats.contains(win) ==> exists|k: int|
            n - 1 <= k < ws.len() && (#[trigger] ws[k]).floats.contains(win),
{
    let rest = ws.skip(n);
    absorbed_tells_tiles_from_floats(ws[n - 1], rest, win);
    if i >= n {
        assert(rest[i - n] == ws[i]);
    }
    if exists|j: int| 0 <= j < rest.len() && (#[trigger] rest[j]).tiles(win) {
        let j = choose|j: int| 0 <= j < rest.len() && (#[trigger] rest[j]).tiles(win);
        assert(ws[n + j].tiles(win));
    }
    if exists|j: int| 0 <= j < rest.len() && (#[trigger] rest[j]).floats.contains(win) {
        let j = choose|j: int| 0 <= j < rest.len() && (#[trigger] rest[j]).floats.contains(win);
        assert(ws[n + j].floats.contains(win));
    }
}

/// No workspace of the monitor holds `win`, and its columns are numbered from 0.
spec fn clear_of(m: MonitorV, win: WindowId) -> bool {
    forall|k: int|
        0 <= k < m.workspaces.len() ==> !(#[trigger] m.workspaces[k]).tiles(win)
            && !m.workspaces[k].floats.contains(win) && m.workspaces[k].column_idx >= 0
}

proof fn resizing_stays_clear(m: MonitorV, n: int, win: WindowId)
    requires
        clear_of(m, win),
        m.workspaces.len() > 0,
    ensures
        clear_of(with_workspaces(m, n), win),
{
    let k = if n < 1 {
        1
    } else {
        n
    };
    let ws = m.workspaces;
    let r = resized(ws, n);
    assert forall|j: int| 0 <= j < r.len() implies !(#[trigger] r[j]).tiles(win)
        && !r[j].floats.contains(win) && r[j].column_idx >= 0 by {
        if k >= ws.len() {
            if j < ws.len() {
                assert(r[j] == ws[j]);
            }
        } else if j < k - 1 {
            assert(r[j] == ws[j]);
        } else {
            let rest = ws.skip(k);
            absorbed_tells_tiles_from_floats(ws[k - 1], rest, win);
            if exists|q: int| 0 <= q < rest.len() && (#[trigger] rest[q]).tiles(win) {
                let q = choose|q: int| 0 <= q < rest.len() && (#[trigger] rest[q]).tiles(win);
                assert(ws[k + q].tiles(win));
            }
            if exists|q: int| 0 <= q < rest.len() && (#[trigger] rest[q]).floats.contains(win) {
                let q = choose|q: int|
                    0 <= q < rest.len() && (#[trigger] rest[q]).floats.contains(win);
                assert(ws[k + q].floats.contains(win));
            }
        }
    }
}

proof fn carrying_over_stays_clear(
    olds: Seq<MonitorV>,
    news: Seq<MonitorV>,
    k: int,
    win: WindowId,
)
    requires
        plausible(news),
        0 <= k <= olds.len(),
        forall|i: int| 0 <= i < news.len() ==> clear_of(#[trigger] news[i], win),
        forall|i: int|
            0 <= i < olds.len() && survivors(olds, news)[i] is Some ==> clear_of(
                #[trigger] olds[i],
                win,
            ) && olds[i].workspaces.len() > 0,
    ensures
        forall|i: int|
            0 <= i < news.len() ==> clear_of(
                #[trigger] carried_over(olds, news, survivors(olds, news), k)[i],
                win,
            ),
    decreases k,
{
    if k > 0 {
        let to = survivors(olds, news);
        survivors_are_matched_once(olds, news);
        carrying_over_stays_clear(olds, news, k - 1, win);
        carried_over_is_plausible(olds, news, to, k - 1);
        let r = carried_over(olds, news, to, k - 1);
        match to[k - 1] {
            Some(ni) => {
                let o = olds[k - 1];
                let moved = (MonitorV { screen: r[ni as int].screen, ..o }).recalculated();
                assert(clear_of(o, win));
                assert(clear_of(moved, win)) by {
                    assert forall|j: int| 0 <= j < moved.workspaces.len() implies !(#[trigger]
                    moved.workspaces[j]).tiles(win) && !moved.workspaces[j].floats.contains(win)
                        && moved.workspaces[j].column_idx >= 0 by {
                        assert(moved.workspaces[j] == o.workspaces[j]);
                    }
                }
                resizing_stays_clear(moved, r[ni as int].workspaces.len() as int, win);
            },
            None => {},
        }
    }
}

/// `win` has a column of the given width to itself.
pub open spec fn has_own_column(w: WorkspaceV, win: WindowId, width: u32) -> bool {
    exists|i: int|
        0 <= i < w.columns.len() && (#[trigger] w.columns[i]).windows == seq![win]
            && w.columns[i].width == width
}

/// What a window is in two workspaces is the same.
pub open spec fn same_place(a: WorkspaceV, b: WorkspaceV, win: WindowId, width: u32) -> bool {
    &&& a.tiles(win) == b.tiles(win)
    &&& a.floats.contains(win) == b.floats.contains(win)
    &&& has_own_column(a, win, width) ==> has_own_column(b, win, width)
}

spec fn numbered(st: StateV) -> bool {
    forall|i: int, k: int|
        0 <= i < st.monitors.len() && 0 <= k < st.monitors[i].workspaces.len() ==> (#[trigger]
        st.monitors[i].workspaces[k]).column_idx >= 0
}

spec fn same_places(a: StateV, b: StateV, win: WindowId, width: u32) -> bool {
    &&& b.monitors.len() == a.monitors.len()
    &&& forall|i: int|
        0 <= i < a.monitors.len() ==> (#[trigger] b.monitors[i]).workspaces.len()
            == a.monitors[i].workspaces.len()
    &&& forall|i: int, k: int|
        #![trigger b.monitors[i].workspaces[k]]
        0 <= i < a.monitors.len() && 0 <= k < a.monitors[i].workspaces.len() ==> same_place(
            a.monitors[i].workspaces[k],
            b.monitors[i].workspaces[k],
            win,
            width,
        )
    &&& at_client(b, win) == at_client(a, win)
}

spec fn at_client(st: StateV, win: WindowId) -> Option<Client> {
    if st.clients.contains_key(win) {
        Some(st.clients[win])
    } else {
        None
    }
}

proof fn joining_leaves_others(w: WorkspaceV, other: WindowId, width: u32, win: WindowId)
    requires
        w.column_idx >= 0,
        other != win,
    ensures
        same_place(w, w.add_tiled(other, width), win, width),
        same_place(w, w.add_float(other), win, width),
        w.add_tiled(other, width).column_idx >= 0,
        w.add_float(other).column_idx >= 0,
{
    crate::workspace::tiled_window_opens_a_column(w, other, width);
    let t = w.add_tiled(other, width);
    let f = w.add_float(other);
    assert(w.tiles(win) == t.tiles(win));
    if has_own_column(w, win, width) {
        let i = choose|i: int|
            0 <= i < w.columns.len() && (#[trigger] w.columns[i]).windows == seq![win]
                && w.columns[i].width == width;
        let j = if i < w.insert_pos() {
            i
        } else {
            i + 1
        };
        assert(t.columns[j] == w.columns[i]);
        assert(f.columns[i] == w.columns[i]);
    }
    if w.floats.contains(win) {
        let i = choose|i: int| 0 <= i < w.floats.len() && w.floats[i] == win;
        assert(f.floats[i] == win);
    }
    assert(f.tiles(win) == w.tiles(win)) by {
        assert(f.columns == w.columns);
    }
}

proof fn settling_another(
    st: StateV,
    to: Seq<Option<usize>>,
    other: WindowId,
    width: u32,
    win: WindowId,
)
    requires
        other != win,
        numbered(st),
        plausible(st.monitors),
        refuge(to) < st.monitors.len(),
    ensures
        same_places(st, settle_one(st, to, other, width), win, width),
        numbered(settle_one(st, to, other, width)),
        plausible(settle_one(st, to, other, width).monitors),
{
    let after = settle_one(st, to, other, width);
    if st.clients.contains_key(other) && went_to(to, st.clients[other].monitor as int) is None {
        let d = client_moved(st.clients[other], to, st.monitors);
        let (mi, wi) = (d.monitor as int, d.workspace as int);
        let w = st.monitors[mi].workspaces[wi];
        assert(0 <= wi < st.monitors[mi].workspaces.len());
        joining_leaves_others(w, other, width, win);
        assert(after.monitors[mi].workspaces[wi].column_idx >= 0);
        assert forall|i: int, k: int|
            0 <= i < after.monitors.len() && 0 <= k
                < after.monitors[i].workspaces.len() implies (#[trigger]
        after.monitors[i].workspaces[k]).column_idx >= 0 by {
            if i != mi || k != wi {
                assert(after.monitors[i].workspaces[k] == st.monitors[i].workspaces[k]);
            }
        }
        assert forall|i: int, k: int|
            #![trigger after.monitors[i].workspaces[k]]
            0 <= i < st.monitors.len() && 0 <= k
                < st.monitors[i].workspaces.len() implies same_place(
            st.monitors[i].workspaces[k],
            after.monitors[i].workspaces[k],
            win,
            width,
        ) by {
            if i != mi || k != wi {
                assert(after.monitors[i].workspaces[k] == st.monitors[i].workspaces[k]);
            }
        }
    }
}

proof fn settling_others(
    st: StateV,
    to: Seq<Option<usize>>,
    ids: Seq<WindowId>,
    width: u32,
    win: WindowId,
)
    requires
        !ids.contains(win),
        numbered(st),
        plausible(st.monitors),
        refuge(to) < st.monitors.len(),
    ensures
        same_places(st, settled(st, to, ids, width), win, width),
        numbered(settled(st, to, ids, width)),
        plausible(settled(st, to, ids, width).monitors),
    decreases ids.len(),
{
    if ids.len() > 0 {
        let t = ids.drop_last();
        assert forall|i: int| 0 <= i < t.len() implies t[i] != win by {
            assert(ids[i] == t[i]);
        }
        assert(ids[ids.len() - 1] != win);
        settling_others(st, to, t, width, win);
        let s = settled(st, to, t, width);
        settling_another(s, to, ids.last(), width, win);
        let after = settled(st, to, ids, width);
        same_places_chain(st, s, after, win, width);
    }
}

proof fn same_places_chain(a: StateV, b: StateV, c: StateV, win: WindowId, width: u32)
    requires
        same_places(a, b, win, width),
        same_places(b, c, win, width),
    ensures
        same_places(a, c, win, width),
{
    assert forall|i: int| 0 <= i < a.monitors.len() implies (#[trigger]
    c.monitors[i]).workspaces.len() == a.monitors[i].workspaces.len() by {
        assert(b.monitors[i].workspaces.len() == a.monitors[i].workspaces.len());
    }
    assert forall|i: int, k: int|
        #![trigger c.monitors[i].workspaces[k]]
        0 <= i < a.monitors.len() && 0 <= k < a.monitors[i].workspaces.len() implies same_place(
        a.monitors[i].workspaces[k],
        c.monitors[i].workspaces[k],
        win,
        width,
    ) by {
        assert(b.monitors[i].workspaces.len() == a.monitors[i].workspaces.len());
        assert(same_place(
            a.monitors[i].workspaces[k],
            b.monitors[i].workspaces[k],
            win,
            width,
        ));
    }
}

/// Wherever `win` is on these monitors, it is the tile or the float that it is, on
/// workspace `wi` of monitor `mi` and nowhere else.
pub open spec fn stands_at(
    st: StateV,
    win: WindowId,
    mi: int,
    wi: int,
    float: bool,
    width: u32,
) -> bool {
    &&& 0 <= mi < st.monitors.len() && 0 <= wi < st.monitors[mi].workspaces.len()
    &&& st.monitors[mi].workspaces[wi].tiles(win) == !float
    &&& st.monitors[mi].workspaces[wi].floats.contains(win) == float
    &&& !float ==> has_own_column(st.monitors[mi].workspaces[wi], win, width)
    &&& forall|i: int, k: int|
        0 <= i < st.monitors.len() && 0 <= k < st.monitors[i].workspaces.len() && (i != mi || k
            != wi) ==> !(#[trigger] st.monitors[i].workspaces[k]).tiles(win)
            && !st.monitors[i].workspaces[k].floats.contains(win)
}

proof fn settling_places(
    st: StateV,
    to: Seq<Option<usize>>,
    ids: Seq<WindowId>,
    width: u32,
    win: WindowId,
)
    requires
        ids.no_duplicates(),
        ids.contains(win),
        numbered(st),
        plausible(st.monitors),
        refuge(to) < st.monitors.len() <= usize::MAX,
        st.clients.contains_key(win),
        went_to(to, st.clients[win].monitor as int) is None,
        forall|i: int| 0 <= i < st.monitors.len() ==> clear_of(#[trigger] st.monitors[i], win),
    ensures
        ({
            let after = settled(st, to, ids, width);
            let d = after.clients[win];
            &&& after.clients.contains_key(win)
            &&& d == client_moved(st.clients[win], to, st.monitors)
            &&& stands_at(
                after,
                win,
                d.monitor as int,
                d.workspace as int,
                st.clients[win].floats(),
                width,
            )
            &&& numbered(after) && plausible(after.monitors)
            &&& after.monitors.len() == st.monitors.len()
        }),
    decreases ids.len(),
{
    let t = ids.drop_last();
    let l = ids.last();
    let s = settled(st, to, t, width);
    let after = settled(st, to, ids, width);
    assert(t.no_duplicates());
    let p = choose|p: int| 0 <= p < ids.len() && ids[p] == win;
    if l == win {
        assert forall|i: int| 0 <= i < t.len() implies t[i] != win by {
            assert(ids[i] != ids[ids.len() - 1]);
        }
        settling_others(st, to, t, width, win);
        let c = st.clients[win];
        assert(s.clients.contains_key(win) && s.clients[win] == c);
        let d = client_moved(c, to, s.monitors);
        let (mi, wi) = (d.monitor as int, d.workspace as int);
        assert(s.monitors[mi].workspaces.len() == st.monitors[mi].workspaces.len());
        assert(d == client_moved(c, to, st.monitors));
        let w = s.monitors[mi].workspaces[wi];
        assert(same_place(st.monitors[mi].workspaces[wi], w, win, width));
        assert(clear_of(st.monitors[mi], win));
        assert(!st.monitors[mi].workspaces[wi].tiles(win));
        assert(w.column_idx >= 0);
        crate::workspace::tiled_window_opens_a_column(w, win, width);
        let now = after.monitors[mi].workspaces[wi];
        if c.floats() {
            assert(now == w.add_float(win));
            assert(now.floats[w.floats.len() as int] == win);
            assert(now.tiles(win) == w.tiles(win)) by {
                assert(now.columns == w.columns);
            }
        } else {
            assert(now == w.add_tiled(win, width));
            assert(now.columns[w.insert_pos()].windows =~= seq![win]);
            assert(has_own_column(now, win, width));
        }
        assert forall|i: int, k: int|
            0 <= i < after.monitors.len() && 0 <= k < after.monitors[i].workspaces.len() && (i
                != mi || k != wi) implies !(#[trigger] after.monitors[i].workspaces[k]).tiles(win)
            && !after.monitors[i].workspaces[k].floats.contains(win) by {
            assert(after.monitors[i].workspaces[k] == s.monitors[i].workspaces[k]);
            assert(s.monitors[i].workspaces.len() == st.monitors[i].workspaces.len());
            assert(clear_of(st.monitors[i], win));
            assert(!st.monitors[i].workspaces[k].tiles(win));
            assert(same_place(
                st.monitors[i].workspaces[k],
                s.monitors[i].workspaces[k],
                win,
                width,
            ));
        }
        assert forall|i: int, k: int|
            0 <= i < after.monitors.len() && 0 <= k
                < after.monitors[i].workspaces.len() implies (#[trigger]
        after.monitors[i].workspaces[k]).column_idx >= 0 by {
            if i != mi || k != wi {
                assert(after.monitors[i].workspaces[k] == s.monitors[i].workspaces[k]);
            }
        }
    } else {
        assert(p < ids.len() - 1);
        assert(t[p] == win);
        settling_places(st, to, t, width, win);
        settling_another(s, to, l, width, win);
        let d = s.clients[win];
        let (mi, wi) = (d.monitor as int, d.workspace as int);
        assert(same_places(s, after, win, width));
        assert(at_client(after, win) == at_client(s, win));
        assert(same_place(
            s.monitors[mi].workspaces[wi],
            after.monitors[mi].workspaces[wi],
            win,
            width,
        ));
        assert(after.monitors[mi].workspaces.len() == s.monitors[mi].workspaces.len());
        assert forall|i: int, k: int|
            0 <= i < after.monitors.len() && 0 <= k < after.monitors[i].workspaces.len() && (i
                != mi || k != wi) implies !(#[trigger] after.monitors[i].workspaces[k]).tiles(win)
            && !after.monitors[i].workspaces[k].floats.contains(win) by {
            assert(after.monitors[i].workspaces.len() == s.monitors[i].workspaces.len());
            assert(!s.monitors[i].workspaces[k].tiles(win));
            assert(same_place(
                s.monitors[i].workspaces[k],
                after.monitors[i].workspaces[k],
                win,
                width,
            ));
        }
    }
}

/// No window is lost when its monitor goes: it moves to a monitor that is there, to
/// the workspace of the number it had, or the last one where there are fewer. There
/// it stands in a column of its own, of the width asked for, just where it is a
/// tile, and among the floats just where it floats, and it stands nowhere else. It
/// stays the client that it was in everything but its place.
pub proof fn window_of_a_lost_monitor_is_rehomed(
    st: StateV,
    news: Seq<MonitorV>,
    ids: Seq<WindowId>,
    width: u32,
    win: WindowId,
)
    requires
        plausible(news),
        lists_clients(ids, st),
        st.clients.contains_key(win),
        ({
            let to = survivors(st.monitors, news);
            let mi = st.clients[win].monitor as int;
            mi >= st.monitors.len() || to[mi] is None
        }),
        forall|i: int, k: int|
            #![trigger news[i].workspaces[k]]
            0 <= i < news.len() && 0 <= k < news[i].workspaces.len()
                ==> news[i].workspaces[k].columns.len() == 0
                && news[i].workspaces[k].floats.len() == 0 && news[i].workspaces[k].column_idx
                == 0,
        forall|i: int, k: int|
            #![trigger st.monitors[i].workspaces[k]]
            0 <= i < st.monitors.len() && 0 <= k < st.monitors[i].workspaces.len()
                ==> st.monitors[i].workspaces[k].column_idx >= 0 && (survivors(
                st.monitors,
                news,
            )[i] is Some ==> !st.monitors[i].workspaces[k].tiles(win)
                && !st.monitors[i].workspaces[k].floats.contains(win)),
        forall|i: int|
            0 <= i < st.monitors.len() ==> (#[trigger] st.monitors[i]).workspaces.len() > 0,
    ensures
        ({
            let after = replugged(st, news, ids, width);
            let c = st.clients[win];
            let d = after.clients[win];
            &&& after.clients.contains_key(win)
            &&& d.monitor < news.len()
            &&& d.workspace == c.workspace || d.workspace == news[d.monitor as int].workspaces.len()
                - 1 && c.workspace >= news[d.monitor as int].workspaces.len()
            &&& d == (Client { monitor: d.monitor, workspace: d.workspace, ..c })
            &&& stands_at(
                after,
                win,
                d.monitor as int,
                d.workspace as int,
                c.flags.on(crate::model::WinFlags::FLOAT),
                width,
            )
            &&& comes_first(survivors(st.monitors, news), d.monitor)
        }),
{
    let olds = st.monitors;
    let to = survivors(olds, news);
    let n = olds.len() as int;
    let mons = carried_over(olds, news, to, n);
    survivors_are_matched_once(olds, news);
    carried_over_is_plausible(olds, news, to, n);
    refuge_in_range(to, news.len() as int);
    assert forall|i: int| 0 <= i < news.len() implies clear_of(#[trigger] news[i], win) by {
        assert forall|k: int| 0 <= k < news[i].workspaces.len() implies !(#[trigger]
        news[i].workspaces[k]).tiles(win) && !news[i].workspaces[k].floats.contains(win)
            && news[i].workspaces[k].column_idx >= 0 by {}
    }
    assert forall|i: int| 0 <= i < olds.len() && to[i] is Some implies clear_of(
        #[trigger] olds[i],
        win,
    ) && olds[i].workspaces.len() > 0 by {
        assert forall|k: int| 0 <= k < olds[i].workspaces.len() implies !(#[trigger]
        olds[i].workspaces[k]).tiles(win) && !olds[i].workspaces[k].floats.contains(win)
            && olds[i].workspaces[k].column_idx >= 0 by {}
    }
    carrying_over_stays_clear(olds, news, n, win);
    carried_over_counts(olds, news, n);
    let base = StateV {
        monitors: mons,
        sel_mon: selected_after(st.sel_mon, to, news.len() as int),
        ..st
    };
    assert(numbered(base)) by {
        assert forall|i: int, k: int|
            0 <= i < base.monitors.len() && 0 <= k < base.monitors[i].workspaces.len() implies (
        #[trigger] base.monitors[i].workspaces[k]).column_idx >= 0 by {
            assert(clear_of(mons[i], win));
        }
    }
    assert(ids.contains(win));
    settling_places(base, to, ids, width, win);
    refuge_is_the_first(to);
}

/// Monitor `ni` continues the first old one that any continues; where none does, it
/// is the first.
pub open spec fn comes_first(to: Seq<Option<usize>>, ni: usize) -> bool {
    ||| exists|a: int|
        0 <= a < to.len() && #[trigger] to[a] == Some(ni) && forall|j: int|
            0 <= j < a ==> (#[trigger] to[j]) is None
    ||| ni == 0 && forall|j: int| 0 <= j < to.len() ==> (#[trigger] to[j]) is None
}

proof fn refuge_is_the_first(to: Seq<Option<usize>>)
    ensures
        comes_first(to, refuge(to)),
    decreases to.len(),
{
    if to.len() > 0 {
        if to[0] is Some {
            assert(to[0] == Some(refuge(to)));
        } else {
            let t = to.skip(1);
            refuge_is_the_first(t);
            if exists|a: int|
                0 <= a < t.len() && #[trigger] t[a] == Some(refuge(t)) && forall|j: int|
                    0 <= j < a ==> (#[trigger] t[j]) is None {
                let a = choose|a: int|
                    0 <= a < t.len() && #[trigger] t[a] == Some(refuge(t)) && forall|j: int|
                        0 <= j < a ==> (#[trigger] t[j]) is None;
                assert(to[a + 1] == Some(refuge(to)));
                assert forall|j: int| 0 <= j < a + 1 implies (#[trigger] to[j]) is None by {
                    if j > 0 {
                        assert(t[j - 1] is None);
                    }
                }
            } else {
                assert forall|j: int| 0 <= j < to.len() implies (#[trigger] to[j]) is None by {
                    if j > 0 {
                        assert(t[j - 1] is None);
                    }
                }
            }
        }
    }
}

proof fn carried_over_counts(olds: Seq<MonitorV>, news: Seq<MonitorV>, k: int)
    requires
        plausible(news),
        0 <= k <= olds.len(),
    ensures
        forall|i: int|
            0 <= i < news.len() ==> (#[trigger] carried_over(
                olds,
                news,
                survivors(olds, news),
                k,
            )[i]).workspaces.len() == news[i].workspaces.len(),
    decreases k,
{
    if k > 0 {
        let to = survivors(olds, news);
        survivors_are_matched_once(olds, news);
        carried_over_counts(olds, news, k - 1);
        carried_over_is_plausible(olds, news, to, k - 1);
        let r = carried_over(olds, news, to, k - 1);
        match to[k - 1] {
            Some(ni) => {
                let m = (MonitorV { screen: r[ni as int].screen, ..olds[k - 1] }).recalculated();
                resizing_gives_the_asked_number(
                    m.workspaces,
                    r[ni as int].workspaces.len() as int,
                );
            },
            None => {},
        }
    }
}

proof fn carrying_on_leaves(olds: Seq<MonitorV>, news: Seq<MonitorV>, k: int, n: int, ni: int)
    requires
        plausible(news),
        0 <= k <= n <= olds.len(),
        0 <= ni < news.len(),
        forall|j: int|
            k <= j < n ==> (#[trigger] survivors(olds, news)[j]) != Some(ni as usize),
    ensures
        carried_over(olds, news, survivors(olds, news), n)[ni] == carried_over(
            olds,
            news,
            survivors(olds, news),
            k,
        )[ni],
    decreases n - k,
{
    if k < n {
        let to = survivors(olds, news);
        survivors_are_matched_once(olds, news);
        carrying_on_leaves(olds, news, k, n - 1, ni);
        carried_over_is_plausible(olds, news, to, n - 1);
        assert(to[n - 1] != Some(ni as usize));
    }
}

/// A monitor whose screen is still there is carried over whole: its workspaces with
/// their tiles and floats, which of them is on show, what is focused and in what
/// order, and what docks reserve. Its clients keep their workspaces, and follow it
/// to its new number; a monitor that continues none starts as it was detected.
pub proof fn surviving_monitor_keeps_its_contents(
    olds: Seq<MonitorV>,
    news: Seq<MonitorV>,
    i: int,
    c: Client,
)
    requires
        plausible(news),
        0 <= i < olds.len(),
        survivors(olds, news)[i] is Some,
        ({
            let ni = survivors(olds, news)[i]->0 as int;
            &&& olds[i].workspaces.len() == news[ni].workspaces.len()
            &&& 0 <= olds[i].active_ws < olds[i].workspaces.len()
        }),
        c.monitor == i,
    ensures
        ({
            let to = survivors(olds, news);
            let ni = to[i]->0 as int;
            let mons = carried_over(olds, news, to, olds.len() as int);
            let d = client_moved(c, to, mons);
            &&& mons[ni].screen == olds[i].screen
            &&& mons[ni] == (MonitorV { workarea: mons[ni].workarea, ..olds[i] })
            &&& d == (Client { monitor: ni as usize, ..c })
        }),
{
    let to = survivors(olds, news);
    survivors_are_matched_once(olds, news);
    let ni = to[i]->0 as int;
    let n = olds.len() as int;
    carried_over_is_plausible(olds, news, to, i);
    carried_over_counts(olds, news, i);
    carried_over_keeps_reservations(olds, news, i, ni);
    let r = carried_over(olds, news, to, i);
    let m = carried_over(olds, news, to, i + 1)[ni];
    assert(m == carried(olds[i], r[ni]));
    assert(resized(olds[i].workspaces, r[ni].workspaces.len() as int) =~= olds[i].workspaces);
    assert forall|j: int| i + 1 <= j < n implies (#[trigger] to[j]) != Some(ni as usize) by {
        assert(to[i] != to[j]);
    }
    carrying_on_leaves(olds, news, i + 1, n, ni);
}

/// A screen that is there before and after the change is matched: no monitor is
/// given up while one with its screen is free.
pub proof fn unmatched_monitor_has_no_free_screen(
    olds: Seq<MonitorV>,
    news: Seq<MonitorV>,
    i: int,
    ni: int,
)
    requires
        news.len() <= usize::MAX,
        0 <= i < olds.len(),
        0 <= ni < news.len(),
        survivors(olds, news)[i] is None,
        news[ni].screen == olds[i].screen,
    ensures
        survivors(olds, news).contains(Some(ni as usize)),
    decreases olds.len(),
{
    let t = olds.drop_last();
    let s = survivors(t, news);
    let r = survivors(olds, news);
    survivors_are_matched_once(t, news);
    if i < t.len() {
        assert(r[i] == s[i]);
        unmatched_monitor_has_no_free_screen(t, news, i, ni);
        let k = choose|k: int| 0 <= k < s.len() && s[k] == Some(ni as usize);
        assert(r[k] == Some(ni as usize));
    } else {
        if !s.contains(Some(ni as usize)) {
            free_match_finds(news, s, olds.last().screen, 0, ni);
        } else {
            let k = choose|k: int| 0 <= k < s.len() && s[k] == Some(ni as usize);
            assert(r[k] == Some(ni as usize));
        }
    }
}

proof fn free_match_finds(
    news: Seq<MonitorV>,
    taken: Seq<Option<usize>>,
    r: Rect,
    from: int,
    ni: int,
)
    requires
        news.len() <= usize::MAX,
        0 <= from <= ni < news.len(),
        news[ni].screen == r,
        !taken.contains(Some(ni as usize)),
    ensures
        free_match(news, taken, r, from) is Some,
    decreases news.len() - from,
{
    if !(news[from].screen == r && !taken.contains(Some(from as usize))) {
        free_match_finds(news, taken, r, from + 1, ni);
    }
}

/// The selected monitor stays selected under its new number as long as it is there.
pub proof fn selection_follows_its_monitor(st: StateV, news: Seq<MonitorV>)
    requires
        plausible(news),
        0 <= st.sel_mon < st.monitors.len(),
        survivors(st.monitors, news)[st.sel_mon] is Some,
    ensures
        ({
            let sel = selected_after(
                st.sel_mon,
                survivors(st.monitors, news),
                news.len() as int,
            );
            &&& 0 <= sel < news.len()
            &&& news[sel].screen == st.monitors[st.sel_mon].screen
            &&& Some(sel as usize) == survivors(st.monitors, news)[st.sel_mon]
        }),
{
    survivors_are_matched_once(st.monitors, news);
}

/// A change of resolution gives each monitor its new screen, takes what docks
/// reserve off it, and leaves windows, workspaces and focus alone.
pub proof fn new_resolution_changes_only_the_geometry(st: StateV, news: Seq<MonitorV>, i: int)
    requires
        news.len() == st.monitors.len(),
        0 <= i < news.len(),
    ensures
        ({
            let after = regeometried(st, news);
            let m = after.monitors[i];
            &&& m.screen == news[i].screen
            &&& m == (MonitorV { screen: m.screen, workarea: m.workarea, ..st.monitors[i] })
            &&& m.workarea == crate::state::usable_area(news[i].screen, st.monitors[i].reserved)
            &&& after == (StateV { monitors: after.monitors, ..st })
            &&& after.monitors.len() == st.monitors.len()
        }),
{
}

/// A client of a workspace that is gone goes to the last of those left, and nothing
/// else of it changes.
pub proof fn client_of_a_lost_tag_goes_to_the_last(c: Client, n: int)
    requires
        0 < n,
    ensures
        c.workspace < n ==> tag_clamped(c, n) == c,
        c.workspace >= n ==> tag_clamped(c, n).workspace == n - 1,
        tag_clamped(c, n) == (Client { workspace: tag_clamped(c, n).workspace, ..c }),
{
}

} // verus!
