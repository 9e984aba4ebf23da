//! What the root window tells panels, pagers and clients.

use crate::model::WindowId;
use crate::overlay::{all_windows, workspace_windows};
use crate::seqs::{append_new, distinct, distinct_has_no_duplicates};
use crate::state::{client_ids, monitor_views, workspace_views, MonitorV, State, StateV};
use crate::text::{from_utf8_lossy, lossy_text, texts};
use crate::workspace::WorkspaceV;
use crate::xproto::Property;
use vstd::prelude::*;
use vstd::string::*;
use vstd::utf8::encode_utf8;

verus! {

broadcast use vstd::std_specs::hash::group_hash_axioms;

// ---- The work area ----------------------------------------------------------

/// A monitor's work area as four words.
pub open spec fn area_words(m: MonitorV) -> Seq<u32> {
    seq![m.workarea.x as u32, m.workarea.y as u32, m.workarea.w, m.workarea.h]
}

/// The words `n` times over.
pub open spec fn repeated(s: Seq<u32>, n: nat) -> Seq<u32>
    decreases n,
{
    if n == 0 {
        Seq::empty()
    } else {
        repeated(s, (n - 1) as nat) + s
    }
}

/// `_NET_WORKAREA`: each monitor's work area once for each desktop.
pub open spec fn workarea_list(ms: Seq<MonitorV>, n: nat) -> Seq<u32>
    decreases ms.len(),
{
    if ms.len() == 0 {
        Seq::empty()
    } else {
        workarea_list(ms.drop_last(), n) + repeated(area_words(ms.last()), n)
    }
}

impl State {
    /// `_NET_WORKAREA` and `_NET_DESKTOP_GEOMETRY` for `n` desktops; nothing where
    /// there is no monitor.
    pub fn workarea_words(&self, n: usize) -> (r: Option<(Vec<u32>, Vec<u32>)>)
        ensures
            match r {
                Some((area, geometry)) => {
                    &&& self@.monitors.len() > 0
                    &&& area@ == workarea_list(self@.monitors, n as nat)
                    &&& geometry@ == seq![
                        self@.monitors[0].workarea.w,
                        self@.monitors[0].workarea.h,
                    ]
                },
                None => self@.monitors.len() == 0,
            },
    {
        if self.monitors.len() == 0 {
            return None;
        }
        let ghost ms = self@.monitors;
        let mut data: Vec<u32> = Vec::new();
        let mut i: usize = 0;
        assert(data@ =~= workarea_list(ms.take(0), n as nat));
        while i < self.monitors.len()
            invariant
                i <= self.monitors.len(),
                ms == self@.monitors,
                ms == monitor_views(self.monitors@),
                data@ == workarea_list(ms.take(i as int), n as nat),
            decreases self.monitors.len() - i,
        {
            let wa: crate::geom::Rect = self.monitors[i].workarea;
            let ghost m = ms[i as int];
            assert(m == self.monitors@[i as int]@);
            let ghost before = data@;
            let mut k: usize = 0;
            assert(data@ =~= before + repeated(area_words(m), 0));
            while k < n
                invariant
                    k <= n,
                    wa == m.workarea,
                    data@ == before + repeated(area_words(m), k as nat),
                decreases n - k,
            {
                data.push(#[verifier::truncate] (wa.x as u32));
                data.push(#[verifier::truncate] (wa.y as u32));
                data.push(wa.w);
                data.push(wa.h);
                assert(data@ =~= before + repeated(area_words(m), (k + 1) as nat));
                k = k + 1;
            }
            proof {
                let t = ms.take(i as int + 1);
                assert(t.drop_last() =~= ms.take(i as int));
                assert(t.last() == m);
            }
            i = i + 1;
        }
        assert(ms.take(i as int) =~= ms);
        assert(ms[0] == self.monitors@[0]@);
        let geometry: Vec<u32> = vec![self.monitors[0].workarea.w, self.monitors[0].workarea.h];
        assert(geometry@ =~= seq![ms[0].workarea.w, ms[0].workarea.h]);
        Some((data, geometry))
    }
}

// ---- Desktops ---------------------------------------------------------------

/// The names as bytes, a NUL behind each.
pub open spec fn name_bytes(names: Seq<Seq<char>>) -> Seq<u8>
    decreases names.len(),
{
    if names.len() == 0 {
        Seq::empty()
    } else {
        (name_bytes(names.drop_last()) + encode_utf8(names.last())).push(0u8)
    }
}

/// `_NET_DESKTOP_NAMES`.
pub fn desktop_names(names: &Vec<String>) -> (out: Vec<u8>)
    ensures
        out@ == name_bytes(texts(names@)),
{
    let ghost all = texts(names@);
    let mut out: Vec<u8> = Vec::new();
    let mut i: usize = 0;
    assert(out@ =~= name_bytes(all.take(0)));
    while i < names.len()
        invariant
            i <= names.len(),
            all == texts(names@),
            out@ == name_bytes(all.take(i as int)),
        decreases names.len() - i,
    {
        let mut bytes: Vec<u8> = names[i].as_str().as_bytes_vec();
        proof {
            let t = all.take(i as int + 1);
            assert(t.drop_last() =~= all.take(i as int));
            assert(t.last() == names@[i as int]@);
        }
        out.append(&mut bytes);
        out.push(0);
        i = i + 1;
    }
    assert(all.take(i as int) =~= all);
    out
}

// ---- Client lists -----------------------------------------------------------

/// The windows of the workspaces, tiles before floats on each.
pub open spec fn tree_windows(ws: Seq<WorkspaceV>) -> Seq<WindowId>
    decreases ws.len(),
{
    if ws.len() == 0 {
        Seq::empty()
    } else {
        tree_windows(ws.drop_last()) + all_windows(ws.last())
    }
}

/// The windows in every monitor's tree.
pub open spec fn all_trees(ms: Seq<MonitorV>) -> Seq<WindowId>
    decreases ms.len(),
{
    if ms.len() == 0 {
        Seq::empty()
    } else {
        all_trees(ms.drop_last()) + tree_windows(ms.last().workspaces)
    }
}

/// The focus histories of the monitors, most recent first in each.
pub open spec fn all_recent(ms: Seq<MonitorV>) -> Seq<WindowId>
    decreases ms.len(),
{
    if ms.len() == 0 {
        Seq::empty()
    } else {
        all_recent(ms.drop_last()) + ms.last().focus_stack.reverse()
    }
}

/// The stacking list, bottom to top: the trees, then what is left by focus, then
/// the rest.
pub open spec fn stacking_list(st: StateV, rest: Seq<WindowId>) -> Seq<WindowId> {
    distinct(all_trees(st.monitors) + all_recent(st.monitors) + rest)
}

impl State {
    /// The managed windows, for `_NET_CLIENT_LIST`, in no particular order.
    pub fn client_list(&self) -> (v: Vec<WindowId>)
        ensures
            v@.no_duplicates(),
            forall|w: WindowId| #[trigger] v@.contains(w) <==> self@.clients.contains_key(w),
    {
        client_ids(&self.clients)
    }

    /// `_NET_CLIENT_LIST_STACKING`, given the managed windows in some order.
    pub fn client_list_stacking(&self, rest: &Vec<WindowId>) -> (out: Vec<WindowId>)
        ensures
            out@ == stacking_list(self@, rest@),
    {
        let ghost ms = self@.monitors;
        let mut out: Vec<WindowId> = Vec::new();
        let mut i: usize = 0;
        assert(out@ =~= distinct(all_trees(ms.take(0))));
        while i < self.monitors.len()
            invariant
                i <= self.monitors.len(),
                ms == monitor_views(self.monitors@),
                out@ == distinct(all_trees(ms.take(i as int))),
            decreases self.monitors.len() - i,
        {
            let ghost m = ms[i as int];
            let ghost base = all_trees(ms.take(i as int));
            assert(m == self.monitors@[i as int]@);
            let mut k: usize = 0;
            assert(base + tree_windows(m.workspaces.take(0)) =~= base);
            while k < self.monitors[i].workspaces.len()
                invariant
                    i < self.monitors.len(),
                    k <= self.monitors@[i as int].workspaces.len(),
                    m == self.monitors@[i as int]@,
                    m.workspaces == workspace_views(self.monitors@[i as int].workspaces@),
                    out@ == distinct(base + tree_windows(m.workspaces.take(k as int))),
                decreases self.monitors@[i as int].workspaces.len() - k,
            {
                let here: Vec<WindowId> = workspace_windows(&self.monitors[i].workspaces[k]);
                proof {
                    assert(m.workspaces[k as int]
                        == self.monitors@[i as int].workspaces@[k as int]@);
                    let t = m.workspaces.take(k as int + 1);
                    assert(t.drop_last() =~= m.workspaces.take(k as int));
                    assert(t.last() == m.workspaces[k as int]);
                    assert(base + tree_windows(t) =~= (base + tree_windows(
                        m.workspaces.take(k as int),
                    )) + here@);
                }
                append_new(
                    &mut out,
                    &here,
                    Ghost(base + tree_windows(m.workspaces.take(k as int))),
                );
                k = k + 1;
            }
            proof {
                assert(m.workspaces.take(k as int) =~= m.workspaces);
                let t = ms.take(i as int + 1);
                assert(t.drop_last() =~= ms.take(i as int));
                assert(t.last() == m);
            }
            i = i + 1;
        }
        assert(ms.take(i as int) =~= ms);
        let ghost trees = all_trees(ms);
        let mut j: usize = 0;
        assert(trees + all_recent(ms.take(0)) =~= trees);
        while j < self.monitors.len()
            invariant
                j <= self.monitors.len(),
                ms == monitor_views(self.monitors@),
                out@ == distinct(trees + all_recent(ms.take(j as int))),
            decreases self.monitors.len() - j,
        {
            assert(ms[j as int] == self.monitors@[j as int]@);
            let recent: Vec<WindowId> = reversed(&self.monitors[j].focus_stack);
            proof {
                let t = ms.take(j as int + 1);
                assert(t.drop_last() =~= ms.take(j as int));
                assert(t.last() == ms[j as int]);
                assert(trees + all_recent(t) =~= (trees + all_recent(ms.take(j as int)))
                    + recent@);
            }
            append_new(&mut out, &recent, Ghost(trees + all_recent(ms.take(j as int))));
            j = j + 1;
        }
        assert(ms.take(j as int) =~= ms);
        append_new(&mut out, rest, Ghost(trees + all_recent(ms)));
        out
    }
}

fn reversed(v: &Vec<WindowId>) -> (r: Vec<WindowId>)
    ensures
        r@ == v@.reverse(),
{
    let mut r: Vec<WindowId> = Vec::new();
    let n: usize = v.len();
    let mut i: usize = 0;
    while i < n
        invariant
            i <= n,
            n == v@.len(),
            r@.len() == i,
            forall|j: int| 0 <= j < i ==> r@[j] == v@[n - 1 - j],
        decreases n - i,
    {
        r.push(v[n - 1 - i]);
        i = i + 1;
    }
    assert(r@ =~= v@.reverse());
    r
}

/// The stacking list names every managed window, and none twice.
pub proof fn stacking_list_is_complete(st: StateV, rest: Seq<WindowId>, w: WindowId)
    requires
        forall|x: WindowId| #[trigger] rest.contains(x) <==> st.clients.contains_key(x),
        st.clients.contains_key(w),
    ensures
        stacking_list(st, rest).no_duplicates(),
        stacking_list(st, rest).contains(w),
{
    let all = all_trees(st.monitors) + all_recent(st.monitors) + rest;
    distinct_has_no_duplicates(all);
    assert(rest.contains(w));
    let i = choose|i: int| 0 <= i < rest.len() && rest[i] == w;
    assert(all[all.len() - rest.len() + i] == w);
    assert(all.contains(w));
}

// ---- Protocols --------------------------------------------------------------

/// Whether a protocol is among the words of `WM_PROTOCOLS`.
pub fn has_protocol(words: &Option<Vec<u32>>, proto: u32) -> (b: bool)
    ensures
        b == (match *words {
            Some(v) => v@.contains(proto),
            None => false,
        }),
{
    match words {
        Some(v) => crate::seqs::contains_window(v, proto),
        None => false,
    }
}

/// The data of a protocol message: the protocol and the time of the last input
/// event, 0 where none was seen yet.
pub fn proto_message(proto: u32, time: u32) -> (r: [u32; 5])
    ensures
        r@ == seq![proto, time, 0u32, 0u32, 0u32],
{
    let r: [u32; 5] = [proto, time, 0, 0, 0];
    assert(r@ =~= seq![proto, time, 0u32, 0u32, 0u32]);
    r
}

/// The status text: the root window's name.
pub fn status_text(name: &Property) -> (s: String)
    ensures
        s@ == lossy_text(name.value@),
{
    from_utf8_lossy(&name.value)
}

/// What the control socket's subscribers were told last.
#[derive(Debug, Clone, Copy, PartialEq, Eq)]
pub struct HubEventSink {
    pub last_focus: Option<WindowId>,
    pub last_ws: Option<(usize, usize)>,
}

/// An event that subscribers may be told of.
#[derive(Debug, Clone, Copy, PartialEq, Eq, Structural)]
pub enum HubEvent {
    FocusChanged { from: Option<WindowId>, to: Option<WindowId> },
    WorkspaceChanged { monitor: usize, to: usize },
    Other,
}

/// What is told of a focus change: the window, 0 for none.
pub open spec fn focus_id(to: Option<WindowId>) -> WindowId {
    match to {
        Some(w) => w,
        None => 0,
    }
}

/// What is told of an event; nothing where it was told before.
pub open spec fn line_for(s: HubEventSink, ev: HubEvent) -> Option<Seq<char>> {
    match ev {
        HubEvent::FocusChanged { to, .. } => if s.last_focus != Some(focus_id(to)) {
            Some("focus "@ + crate::text::decimal_text(focus_id(to) as nat))
        } else {
            None
        },
        HubEvent::WorkspaceChanged { monitor, to } => if s.last_ws != Some((to, monitor)) {
            Some(
                "workspace "@ + crate::text::decimal_text(to as nat) + " "@
                    + crate::text::decimal_text(monitor as nat),
            )
        } else {
            None
        },
        HubEvent::Other => None,
    }
}

/// What is remembered after an event.
pub open spec fn told(s: HubEventSink, ev: HubEvent) -> HubEventSink {
    match ev {
        HubEvent::FocusChanged { to, .. } => HubEventSink { last_focus: Some(focus_id(to)), ..s },
        HubEvent::WorkspaceChanged { monitor, to } => HubEventSink {
            last_ws: Some((to, monitor)),
            ..s
        },
        HubEvent::Other => s,
    }
}

impl HubEventSink {
    pub fn new() -> (s: HubEventSink)
        ensures
            s.last_focus is None,
            s.last_ws is None,
    {
        HubEventSink { last_focus: None, last_ws: None }
    }

    /// The line that subscribers are told for an event; none where it says nothing
    /// new.
    pub fn on_event(&mut self, ev: HubEvent) -> (r: Option<String>)
        ensures
            *final(self) == told(*old(self), ev),
            match r {
                Some(s) => line_for(*old(self), ev) == Some(s@),
                None => line_for(*old(self), ev) is None,
            },
    {
        match ev {
            HubEvent::FocusChanged { to, .. } => {
                let id: WindowId = match to {
                    Some(w) => w,
                    None => 0,
                };
                let known: bool = match self.last_focus {
                    Some(w) => w == id,
                    None => false,
                };
                self.last_focus = Some(id);
                if known {
                    None
                } else {
                    Some("focus ".to_owned().concat(crate::text::decimal(id as u64).as_str()))
                }
            },
            HubEvent::WorkspaceChanged { monitor, to } => {
                let known: bool = match self.last_ws {
                    Some((t, m)) => t == to && m == monitor,
                    None => false,
                };
                self.last_ws = Some((to, monitor));
                if known {
                    None
                } else {
                    Some(
                        "workspace ".to_owned().concat(
                            crate::text::decimal(to as u64).as_str(),
                        ).concat(" ").concat(crate::text::decimal(monitor as u64).as_str()),
                    )
                }
            },
            HubEvent::Other => None,
        }
    }
}

/// An event that was just told is not told again, and one that says something else
/// is never dropped.
pub proof fn repeated_event_is_told_once(s: HubEventSink, ev: HubEvent, other: HubEvent)
    ensures
        line_for(told(s, ev), ev) is None,
        ev matches HubEvent::FocusChanged { to, .. } && other matches HubEvent::FocusChanged {
            to: next,
            ..
        } && focus_id(to) != focus_id(next) ==> line_for(told(s, ev), other) is Some,
        ev matches HubEvent::WorkspaceChanged { monitor: m, to: t }
            && other matches HubEvent::WorkspaceChanged { monitor: n, to: u } && (m != n || t != u)
            ==> line_for(told(s, ev), other) is Some,
        ev is FocusChanged != other is FocusChanged ==> line_for(told(s, ev), other) == line_for(
            s,
            other,
        ),
{
}

// ---- What the lists hold ----------------------------------------------------

proof fn repeated_is(s: Seq<u32>, n: nat, d: int, k: int)
    requires
        0 <= d < n,
        0 <= k < s.len(),
    ensures
        repeated(s, n).len() == n * s.len(),
        0 <= d * s.len() + k < repeated(s, n).len(),
        repeated(s, n)[d * s.len() + k] == s[k],
    decreases n,
{
    repeated_len(s, n);
    repeated_len(s, (n - 1) as nat);
    let l = s.len() as int;
    assert(d * l + k < n * l && 0 <= d * l) by (nonlinear_arith)
        requires
            0 <= d < n,
            0 <= k < l,
    ;
    if d < n - 1 {
        repeated_is(s, (n - 1) as nat, d, k);
    } else {
        assert(repeated(s, n)[d * l + k] == s[k]);
    }
}

proof fn repeated_len(s: Seq<u32>, n: nat)
    ensures
        repeated(s, n).len() == n * s.len(),
    decreases n,
{
    if n > 0 {
        repeated_len(s, (n - 1) as nat);
        assert(n * s.len() == (n - 1) * s.len() + s.len()) by (nonlinear_arith)
            requires
                n > 0,
        ;
    } else {
        assert(n * s.len() == 0) by (nonlinear_arith)
            requires
                n == 0,
        ;
    }
}

proof fn area_list_len(ms: Seq<MonitorV>, n: nat)
    ensures
        workarea_list(ms, n).len() == 4 * (n * ms.len()),
    decreases ms.len(),
{
    if ms.len() > 0 {
        area_list_len(ms.drop_last(), n);
        repeated_len(area_words(ms.last()), n);
        assert(area_words(ms.last()).len() == 4);
        assert(ms.drop_last().len() == ms.len() - 1);
        assert(n * ms.len() == n * (ms.len() - 1) + n) by (nonlinear_arith)
            requires
                ms.len() > 0,
        ;
    } else {
        assert(n * ms.len() == 0) by (nonlinear_arith)
            requires
                ms.len() == 0,
        ;
    }
}

/// The work areas are listed monitor by monitor, once for each desktop: x, y, width
/// and height of the monitor's own.
pub proof fn work_area_of_every_desktop_is_listed(ms: Seq<MonitorV>, n: nat, i: int, d: int)
    requires
        0 <= i < ms.len(),
        0 <= d < n,
    ensures
        ({
            let at = 4 * (i * n + d);
            let l = workarea_list(ms, n);
            let wa = ms[i].workarea;
            &&& l.len() == 4 * (n * ms.len())
            &&& 0 <= at && at + 4 <= l.len()
            &&& l[at] == wa.x as u32 && l[at + 1] == wa.y as u32 && l[at + 2] == wa.w && l[at + 3]
                == wa.h
        }),
    decreases ms.len(),
{
    let before = ms.drop_last();
    let a = area_words(ms.last());
    area_list_len(ms, n);
    area_list_len(before, n);
    assert(0 <= i * n && i * n + d < n * ms.len()) by (nonlinear_arith)
        requires
            0 <= i < ms.len(),
            0 <= d < n,
    ;
    let at = 4 * (i * n + d);
    if i < before.len() {
        work_area_of_every_desktop_is_listed(before, n, i, d);
        assert(before[i] == ms[i]);
    } else {
        assert(i * n == n * before.len()) by (nonlinear_arith)
            requires
                i == before.len(),
        ;
        repeated_is(a, n, d, 0);
        repeated_is(a, n, d, 1);
        repeated_is(a, n, d, 2);
        repeated_is(a, n, d, 3);
        let off = workarea_list(before, n).len() as int;
        assert(off == 4 * (n * before.len()));
        assert(a.len() == 4);
        assert(workarea_list(ms, n)[off + 4 * d] == repeated(a, n)[d * 4 + 0]);
        assert(workarea_list(ms, n)[off + 4 * d + 1] == repeated(a, n)[d * 4 + 1]);
        assert(workarea_list(ms, n)[off + 4 * d + 2] == repeated(a, n)[d * 4 + 2]);
        assert(workarea_list(ms, n)[off + 4 * d + 3] == repeated(a, n)[d * 4 + 3]);
    }
}

/// The names of the desktops follow each other, each ended by a zero byte.
pub proof fn desktop_names_follow_each_other(a: Seq<Seq<char>>, b: Seq<Seq<char>>, name: Seq<char>)
    ensures
        name_bytes(a + b) == name_bytes(a) + name_bytes(b),
        name_bytes(seq![name]) == encode_utf8(name) + seq![0u8],
    decreases b.len(),
{
    assert(seq![name].drop_last() =~= Seq::empty());
    assert(name_bytes(seq![name].drop_last()) =~= Seq::empty());
    assert(seq![name].last() == name);
    assert((Seq::<u8>::empty() + encode_utf8(name)).push(0u8) =~= encode_utf8(name) + seq![0u8]);
    if b.len() == 0 {
        assert(a + b =~= a);
        assert(name_bytes(b) =~= Seq::empty());
        assert(name_bytes(a) + name_bytes(b) =~= name_bytes(a));
    } else {
        desktop_names_follow_each_other(a, b.drop_last(), name);
        assert((a + b).drop_last() =~= a + b.drop_last());
        assert((a + b).last() == b.last());
        assert((name_bytes(a) + name_bytes(b.drop_last()) + encode_utf8(b.last())).push(0u8)
            =~= name_bytes(a) + (name_bytes(b.drop_last()) + encode_utf8(b.last())).push(0u8));
    }
}

/// Windows are listed monitor by monitor and, on each, workspace by workspace; recent
/// windows monitor by monitor, the most recent first.
pub proof fn windows_are_listed_monitor_by_monitor(
    a: Seq<MonitorV>,
    b: Seq<MonitorV>,
    m: MonitorV,
    v: Seq<WorkspaceV>,
    w: Seq<WorkspaceV>,
    ws: WorkspaceV,
)
    ensures
        all_trees(a + b) == all_trees(a) + all_trees(b),
        all_trees(seq![m]) == tree_windows(m.workspaces),
        tree_windows(v + w) == tree_windows(v) + tree_windows(w),
        tree_windows(seq![ws]) == all_windows(ws),
        all_recent(a + b) == all_recent(a) + all_recent(b),
        all_recent(seq![m]).len() == m.focus_stack.len(),
        forall|i: int|
            0 <= i < m.focus_stack.len() ==> #[trigger] all_recent(seq![m])[i]
                == m.focus_stack[m.focus_stack.len() - 1 - i],
    decreases b.len() + w.len(),
{
    assert(seq![m].drop_last() =~= Seq::empty());
    assert(seq![m].last() == m);
    assert(all_trees(seq![m].drop_last()) =~= Seq::empty());
    assert(all_recent(seq![m].drop_last()) =~= Seq::empty());
    assert(all_trees(seq![m]) =~= tree_windows(m.workspaces));
    assert(all_recent(seq![m]) =~= m.focus_stack.reverse());
    assert(seq![ws].drop_last() =~= Seq::empty());
    assert(seq![ws].last() == ws);
    assert(tree_windows(seq![ws].drop_last()) =~= Seq::empty());
    assert(tree_windows(seq![ws]) =~= all_windows(ws));
    if b.len() == 0 {
        assert(a + b =~= a);
        assert(all_trees(a) + all_trees(b) =~= all_trees(a));
        assert(all_recent(a) + all_recent(b) =~= all_recent(a));
    } else {
        windows_are_listed_monitor_by_monitor(a, b.drop_last(), m, v, w, ws);
        assert((a + b).drop_last() =~= a + b.drop_last());
        assert((a + b).last() == b.last());
        assert(all_trees(a + b) =~= all_trees(a) + all_trees(b));
        assert(all_recent(a + b) =~= all_recent(a) + all_recent(b));
    }
    if w.len() == 0 {
        assert(v + w =~= v);
        assert(tree_windows(v) + tree_windows(w) =~= tree_windows(v));
    } else {
        windows_are_listed_monitor_by_monitor(a, b, m, v, w.drop_last(), ws);
        assert((v + w).drop_last() =~= v + w.drop_last());
        assert((v + w).last() == w.last());
        assert(tree_windows(v + w) =~= tree_windows(v) + tree_windows(w));
    }
}

/// In the list of all windows those in the trees come first, then the others that
/// were focused, then the rest, and each stands where it came first.
pub proof fn stacked_windows_come_in_three_groups(st: StateV, rest: Seq<WindowId>)
    ensures
        ({
            let l = stacking_list(st, rest);
            let a = distinct(all_trees(st.monitors));
            let b = distinct(all_trees(st.monitors) + all_recent(st.monitors));
            &&& a.len() <= b.len() <= l.len()
            &&& l.take(a.len() as int) == a
            &&& l.take(b.len() as int) == b
            &&& forall|w: WindowId| #[trigger]
                l.contains(w) <==> all_trees(st.monitors).contains(w) || all_recent(
                    st.monitors,
                ).contains(w) || rest.contains(w)
        }),
{
    let t = all_trees(st.monitors);
    let r = all_recent(st.monitors);
    distinct_of_more(t, r);
    distinct_of_more(t + r, rest);
    let l = stacking_list(st, rest);
    let a = distinct(t);
    let b = distinct(t + r);
    assert(l.take(a.len() as int) =~= a) by {
        assert forall|i: int| 0 <= i < a.len() implies l[i] == a[i] by {
            assert(b.take(a.len() as int)[i] == a[i]);
            assert(l.take(b.len() as int)[i] == b[i]);
        }
    }
    distinct_has_no_duplicates(t + r + rest);
    assert forall|w: WindowId| #[trigger] l.contains(w) <==> t.contains(w) || r.contains(w)
        || rest.contains(w) by {
        vstd::seq_lib::lemma_seq_concat_contains_all_elements(t, r, w);
        vstd::seq_lib::lemma_seq_concat_contains_all_elements(t + r, rest, w);
    }
}

proof fn distinct_of_more(a: Seq<WindowId>, b: Seq<WindowId>)
    ensures
        distinct(a).len() <= distinct(a + b).len(),
        distinct(a + b).take(distinct(a).len() as int) == distinct(a),
    decreases b.len(),
{
    if b.len() == 0 {
        assert(a + b =~= a);
        assert(distinct(a).take(distinct(a).len() as int) =~= distinct(a));
    } else {
        distinct_of_more(a, b.drop_last());
        assert((a + b).drop_last() =~= a + b.drop_last());
        let d = distinct(a + b.drop_last());
        let n = distinct(a).len() as int;
        assert(distinct(a + b).take(n) =~= d.take(n));
    }
}

/// Subscribers are told of the window that has the focus now, and of the workspace
/// that a monitor shows now, where that is news.
pub proof fn news_are_told_with_their_numbers(
    s: HubEventSink,
    from: Option<WindowId>,
    w: WindowId,
    monitor: usize,
    to: usize,
)
    ensures
        s.last_focus != Some(w) ==> line_for(s, HubEvent::FocusChanged { from, to: Some(w) })
            == Some("focus "@ + crate::text::decimal_text(w as nat)),
        s.last_focus != Some(0u32) ==> line_for(s, HubEvent::FocusChanged { from, to: None })
            == Some("focus "@ + crate::text::decimal_text(0)),
        s.last_ws != Some((to, monitor)) ==> line_for(
            s,
            HubEvent::WorkspaceChanged { monitor, to },
        ) == Some(
            "workspace "@ + crate::text::decimal_text(to as nat) + " "@
                + crate::text::decimal_text(monitor as nat),
        ),
        told(s, HubEvent::FocusChanged { from, to: Some(w) }).last_focus == Some(w),
        told(s, HubEvent::FocusChanged { from, to: Some(w) }).last_ws == s.last_ws,
        told(s, HubEvent::WorkspaceChanged { monitor, to }).last_ws == Some((to, monitor)),
        told(s, HubEvent::WorkspaceChanged { monitor, to }).last_focus == s.last_focus,
        line_for(s, HubEvent::Other) is None,
        told(s, HubEvent::Other) == s,
{
}

} // verus!
