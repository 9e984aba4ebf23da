//! Presentation: which windows are overlays, which one covers the screen, and
//! in what order everything is stacked.

use crate::model::{Client, LayoutKind, WindowId};
use crate::seqs::{copy_windows, filter_take_step, first_index, position_of};
use crate::state::{client_ids, State, StateV};
use crate::transient::owned_by;
use crate::workspace::{ColumnV, Workspace, WorkspaceV};
use vstd::prelude::*;

verus! {

broadcast use vstd::std_specs::hash::group_hash_axioms;

/// The tiled windows, column by column and top to bottom.
pub open spec fn column_windows(cols: Seq<ColumnV>) -> Seq<WindowId>
    decreases cols.len(),
{
    if cols.len() == 0 {
        Seq::empty()
    } else {
        column_windows(cols.drop_last()) + cols.last().windows
    }
}

/// Every window of the workspace: tiles, then floats.
pub open spec fn all_windows(ws: WorkspaceV) -> Seq<WindowId> {
    column_windows(ws.columns) + ws.floats
}

/// `win` is presented as an overlay: fullscreen in the grid, exclusively
/// fullscreen in any layout, or the maximized window on show. An ordinary
/// fullscreen window of the column layout is a tile, not an overlay.
pub open spec fn is_presented(
    clients: Map<WindowId, Client>,
    ws: WorkspaceV,
    win: WindowId,
) -> bool {
    &&& clients.contains_key(win)
    &&& {
        ||| clients[win].fullscreen() && (ws.layout == LayoutKind::Grid
            || clients[win].true_fullscreen())
        ||| ws.presented_maximize == Some(win)
    }
}

pub open spec fn presented_in(
    clients: Map<WindowId, Client>,
    ws: WorkspaceV,
) -> spec_fn(WindowId) -> bool {
    |w: WindowId| is_presented(clients, ws, w)
}

/// How recently `win` was focused: later in the history is higher, and a window
/// without a history ranks with the oldest.
pub open spec fn focus_rank(stack: Seq<WindowId>, win: WindowId) -> int {
    match first_index(stack, win) {
        Some(i) => i,
        None => 0,
    }
}

/// `win` inserted into a list ordered by rank, after its equals.
pub open spec fn insert_ranked(
    s: Seq<WindowId>,
    stack: Seq<WindowId>,
    win: WindowId,
) -> Seq<WindowId>
    decreases s.len(),
{
    if s.len() == 0 {
        seq![win]
    } else if focus_rank(stack, s.last()) <= focus_rank(stack, win) {
        s.push(win)
    } else {
        insert_ranked(s.drop_last(), stack, win).push(s.last())
    }
}

/// `s` ordered by rank, equals in the order they came.
pub open spec fn ranked(s: Seq<WindowId>, stack: Seq<WindowId>) -> Seq<WindowId>
    decreases s.len(),
{
    if s.len() == 0 {
        Seq::empty()
    } else {
        insert_ranked(ranked(s.drop_last(), stack), stack, s.last())
    }
}

/// The overlays of a monitor's workspace on show, the most recently focused
/// last.
pub open spec fn presented(st: StateV, mi: int) -> Seq<WindowId> {
    let m = st.monitors[mi];
    ranked(all_windows(m.ws()).filter(presented_in(st.clients, m.ws())), m.focus_stack)
}

/// The overlay on top, if there is one.
pub open spec fn overlay_owner(st: StateV, mi: int) -> Option<WindowId> {
    let p = presented(st, mi);
    if p.len() == 0 {
        None
    } else {
        Some(p.last())
    }
}

/// The window that covers the screen as a tile of the column ribbon: the
/// ribbon's focused window, if it is fullscreen and not an overlay.
pub open spec fn covering(st: StateV, mi: int) -> Option<WindowId> {
    let ws = st.monitors[mi].ws();
    match ws.focused_win() {
        Some(w) => if ws.layout == LayoutKind::Column && st.clients.contains_key(w)
            && st.clients[w].fullscreen() && !st.clients[w].true_fullscreen() {
            Some(w)
        } else {
            None
        },
        None => None,
    }
}

/// Managed windows.
pub open spec fn managed(clients: Map<WindowId, Client>) -> spec_fn(WindowId) -> bool {
    |w: WindowId| clients.contains_key(w)
}

/// Windows owned by one of `roots`.
pub open spec fn owned_in(
    clients: Map<WindowId, Client>,
    roots: Seq<WindowId>,
) -> spec_fn(WindowId) -> bool {
    |w: WindowId| owned_by(clients, w, roots)
}

/// The focused window, where it is a float standing beside some overlay.
pub open spec fn peeking(st: StateV, mi: int) -> Seq<WindowId> {
    let p = presented(st, mi);
    match st.monitors[mi].focused {
        Some(f) => if p.len() > 0 && !p.contains(f) && st.clients.contains_key(f)
            && st.clients[f].floats() {
            seq![f]
        } else {
            Seq::empty()
        },
        None => Seq::empty(),
    }
}

/// The order in which windows are raised, lowest first: floats, sticky
/// windows, overlays, a focused float beside an overlay, popups of overlays.
pub open spec fn stack_order(st: StateV, mi: int, sticky: Seq<WindowId>) -> Seq<WindowId> {
    let ws = st.monitors[mi].ws();
    ws.floats.filter(managed(st.clients)) + sticky + presented(st, mi) + peeking(st, mi)
        + ws.floats.filter(owned_in(st.clients, presented(st, mi)))
}

proof fn column_windows_push(cols: Seq<ColumnV>, i: int)
    requires
        0 <= i < cols.len(),
    ensures
        column_windows(cols.take(i + 1)) == column_windows(cols.take(i)) + cols[i].windows,
{
    assert(cols.take(i + 1).drop_last() =~= cols.take(i));
}

/// The tiled windows of a workspace.
pub fn tiled_windows(ws: &Workspace) -> (r: Vec<WindowId>)
    ensures
        r@ == column_windows(ws@.columns),
{
    let mut out: Vec<WindowId> = Vec::new();
    let mut i: usize = 0;
    assert(out@ =~= column_windows(ws@.columns.take(0)));
    while i < ws.columns.len()
        invariant
            i <= ws.columns.len(),
            out@ == column_windows(ws@.columns.take(i as int)),
        decreases ws.columns.len() - i,
    {
        let mut more: Vec<WindowId> = copy_windows(&ws.columns[i].windows);
        proof {
            assert(ws@.columns[i as int] == ws.columns@[i as int]@);
            column_windows_push(ws@.columns, i as int);
        }
        out.append(&mut more);
        i = i + 1;
    }
    assert(ws@.columns.take(i as int) =~= ws@.columns);
    out
}

/// All windows of a workspace, tiles first.
pub fn workspace_windows(ws: &Workspace) -> (r: Vec<WindowId>)
    ensures
        r@ == all_windows(ws@),
{
    let mut out: Vec<WindowId> = tiled_windows(ws);
    let mut fl: Vec<WindowId> = copy_windows(&ws.floats);
    out.append(&mut fl);
    out
}

fn rank_of(stack: &Vec<WindowId>, win: WindowId) -> (r: usize)
    ensures
        r == focus_rank(stack@, win),
{
    match position_of(stack, win) {
        Some(i) => i,
        None => 0,
    }
}

/// Inserting in front of the elements of higher rank at the end.
proof fn insert_ranked_at(s: Seq<WindowId>, stack: Seq<WindowId>, win: WindowId, p: int)
    requires
        0 <= p <= s.len(),
        forall|j: int|
            p <= j < s.len() ==> focus_rank(stack, #[trigger] s[j]) > focus_rank(stack, win),
        p > 0 ==> focus_rank(stack, s[p - 1]) <= focus_rank(stack, win),
    ensures
        insert_ranked(s, stack, win) == s.insert(p, win),
    decreases s.len(),
{
    if s.len() == 0 {
        assert(s.insert(p, win) =~= seq![win]);
    } else if p == s.len() {
        assert(s.last() == s[p - 1]);
        assert(s.insert(p, win) =~= s.push(win));
    } else {
        assert(s.last() == s[s.len() - 1]);
        assert forall|j: int| p <= j < s.drop_last().len() implies focus_rank(
            stack,
            #[trigger] s.drop_last()[j],
        ) > focus_rank(stack, win) by {
            assert(s.drop_last()[j] == s[j]);
        }
        insert_ranked_at(s.drop_last(), stack, win, p);
        assert(s.drop_last().insert(p, win).push(s.last()) =~= s.insert(p, win));
    }
}

fn insert_by_rank(v: &mut Vec<WindowId>, stack: &Vec<WindowId>, win: WindowId)
    ensures
        final(v)@ == insert_ranked(old(v)@, stack@, win),
{
    let r: usize = rank_of(stack, win);
    let mut p: usize = v.len();
    while p > 0 && rank_of(stack, v[p - 1]) > r
        invariant
            p <= v.len(),
            *v == *old(v),
            r == focus_rank(stack@, win),
            forall|j: int|
                p <= j < v.len() ==> focus_rank(stack@, #[trigger] v@[j]) > focus_rank(
                    stack@,
                    win,
                ),
        decreases p,
    {
        p = p - 1;
    }
    proof {
        insert_ranked_at(v@, stack@, win, p as int);
    }
    v.insert(p, win);
}

proof fn insert_ranked_len(s: Seq<WindowId>, stack: Seq<WindowId>, win: WindowId)
    ensures
        insert_ranked(s, stack, win).len() == s.len() + 1,
    decreases s.len(),
{
    if s.len() > 0 && focus_rank(stack, s.last()) > focus_rank(stack, win) {
        insert_ranked_len(s.drop_last(), stack, win);
    }
}

proof fn ranked_len(s: Seq<WindowId>, stack: Seq<WindowId>)
    ensures
        ranked(s, stack).len() == s.len(),
    decreases s.len(),
{
    if s.len() > 0 {
        ranked_len(s.drop_last(), stack);
        insert_ranked_len(ranked(s.drop_last(), stack), stack, s.last());
    }
}

/// Order a list of windows by how recently they were focused, most recent
/// last.
pub fn order_by_focus(v: &Vec<WindowId>, stack: &Vec<WindowId>) -> (r: Vec<WindowId>)
    ensures
        r@ == ranked(v@, stack@),
{
    let mut out: Vec<WindowId> = Vec::new();
    let mut i: usize = 0;
    assert(out@ =~= ranked(v@.take(0), stack@));
    while i < v.len()
        invariant
            i <= v.len(),
            out@ == ranked(v@.take(i as int), stack@),
        decreases v.len() - i,
    {
        proof {
            ranked_len(v@.take(i as int), stack@);
            assert(v@.take(i as int + 1).drop_last() =~= v@.take(i as int));
        }
        insert_by_rank(&mut out, stack, v[i]);
        i = i + 1;
    }
    assert(v@.take(i as int) =~= v@);
    out
}

/// Ordering by rank does order by rank, and neither loses nor invents a
/// window.
pub proof fn ranked_is_an_ordering(s: Seq<WindowId>, stack: Seq<WindowId>)
    ensures
        forall|i: int, j: int|
            0 <= i <= j < ranked(s, stack).len() ==> focus_rank(
                stack,
                #[trigger] ranked(s, stack)[i],
            ) <= focus_rank(stack, #[trigger] ranked(s, stack)[j]),
        ranked(s, stack).to_multiset() == s.to_multiset(),
    decreases s.len(),
{
    broadcast use vstd::seq_lib::group_to_multiset_ensures;

    if s.len() > 0 {
        let t = ranked(s.drop_last(), stack);
        ranked_is_an_ordering(s.drop_last(), stack);
        insert_ranked_keeps_order(t, stack, s.last());
        assert(s.drop_last().push(s.last()) =~= s);
    }
}

proof fn insert_ranked_keeps_order(s: Seq<WindowId>, stack: Seq<WindowId>, win: WindowId)
    requires
        forall|i: int, j: int|
            0 <= i <= j < s.len() ==> focus_rank(stack, #[trigger] s[i]) <= focus_rank(
                stack,
                #[trigger] s[j],
            ),
    ensures
        ({
            let t = insert_ranked(s, stack, win);
            &&& forall|i: int, j: int|
                0 <= i <= j < t.len() ==> focus_rank(stack, #[trigger] t[i]) <= focus_rank(
                    stack,
                    #[trigger] t[j],
                )
            &&& t.to_multiset() == s.push(win).to_multiset()
        }),
    decreases s.len(),
{
    broadcast use vstd::seq_lib::group_to_multiset_ensures;

    if s.len() == 0 {
        assert(s.push(win) =~= seq![win]);
    } else if focus_rank(stack, s.last()) <= focus_rank(stack, win) {
        assert(s.last() == s[s.len() - 1]);
    } else {
        let d = s.drop_last();
        let u = insert_ranked(d, stack, win);
        let t = insert_ranked(s, stack, win);
        insert_ranked_keeps_order(d, stack, win);
        assert(d.push(s.last()) =~= s);
        assert forall|i: int, j: int| 0 <= i <= j < t.len() implies focus_rank(
            stack,
            #[trigger] t[i],
        ) <= focus_rank(stack, #[trigger] t[j]) by {
            if j == t.len() - 1 && i < j {
                assert(t[i] == u[i]);
                assert(u.to_multiset().contains(u[i])) by {
                    assert(u.contains(u[i]));
                }
                let p = d.push(win);
                assert(p.to_multiset().contains(u[i]));
                assert(p.contains(u[i]));
                let k = choose|k: int| 0 <= k < p.len() && p[k] == u[i];
                if k < d.len() {
                    assert(s[k] == u[i]);
                    assert(s[s.len() - 1] == s.last());
                }
            }
        }
        assert(t.to_multiset() =~= s.push(win).to_multiset());
    }
}

impl State {
    fn is_presented(&self, ws: &Workspace, win: WindowId) -> (b: bool)
        ensures
            b == is_presented(self@.clients, ws@, win),
    {
        match self.clients.get(&win) {
            Some(c) => (c.is_fullscreen() && (ws.layout == LayoutKind::Grid
                || c.is_true_fullscreen())) || ws.presented_maximize == Some(win),
            None => false,
        }
    }

    /// The overlays of monitor `mi`, the most recently focused last.
    pub fn presented_windows(&self, mi: usize) -> (r: Vec<WindowId>)
        requires
            self@.shows(mi as int),
        ensures
            r@ == presented(self@, mi as int),
    {
        proof {
            assert(self@.monitors[mi as int] == self.monitors@[mi as int]@);
            assert(self@.monitors[mi as int].ws()
                == self.monitors@[mi as int].workspaces@[self.monitors@[mi as int].active_ws as int]@);
        }
        let m = &self.monitors[mi];
        let ws = &m.workspaces[m.active_ws];
        let all: Vec<WindowId> = workspace_windows(ws);
        let mut sel: Vec<WindowId> = Vec::new();
        let ghost p = presented_in(self@.clients, ws@);
        let mut i: usize = 0;
        proof {
            reveal(Seq::filter);
            assert(sel@ =~= all@.take(0).filter(p));
        }
        while i < all.len()
            invariant
                i <= all.len(),
                p == presented_in(self@.clients, ws@),
                sel@ == all@.take(i as int).filter(p),
            decreases all.len() - i,
        {
            proof {
                filter_take_step(all@, i as int, p);
            }
            if self.is_presented(ws, all[i]) {
                sel.push(all[i]);
            }
            i = i + 1;
        }
        assert(all@.take(i as int) =~= all@);
        order_by_focus(&sel, &m.focus_stack)
    }

    /// The overlay that owns the input on monitor `mi`.
    pub fn presented_overlay_owner(&self, mi: usize) -> (r: Option<WindowId>)
        requires
            self@.shows(mi as int),
        ensures
            r == overlay_owner(self@, mi as int),
    {
        let p: Vec<WindowId> = self.presented_windows(mi);
        if p.len() == 0 {
            None
        } else {
            Some(p[p.len() - 1])
        }
    }

    /// The window that covers monitor `mi` as a fullscreen tile.
    pub fn covering_fullscreen_window(&self, mi: usize) -> (r: Option<WindowId>)
        requires
            self@.shows(mi as int),
        ensures
            r == covering(self@, mi as int),
    {
        proof {
            assert(self@.monitors[mi as int] == self.monitors@[mi as int]@);
        }
        let m = &self.monitors[mi];
        let ws = &m.workspaces[m.active_ws];
        match ws.focused_win() {
            Some(w) => match self.clients.get(&w) {
                Some(c) => if ws.layout == LayoutKind::Column && c.is_fullscreen()
                    && !c.is_true_fullscreen() {
                    Some(w)
                } else {
                    None
                },
                None => None,
            },
            None => None,
        }
    }

    /// Bring the maximized presentation of monitor `mi` in line with its focus:
    /// the focused window is presented if it is maximized, and nothing else is.
    /// A monitor without a workspace on show presents nothing.
    pub fn sync_presented_maximize(&mut self, mi: usize)
        ensures
            final(self)@ == synced(old(self)@, mi as int),
    {
        if mi >= self.monitors.len() {
            return;
        }
        proof {
            assert(self@.monitors[mi as int] == self.monitors@[mi as int]@);
        }
        let pm: Option<WindowId> = match self.monitors[mi].focused {
            Some(f) => match self.clients.get(&f) {
                Some(c) => if c.is_maximized() {
                    Some(f)
                } else {
                    None
                },
                None => None,
            },
            None => None,
        };
        let wi: usize = self.monitors[mi].active_ws;
        if wi >= self.monitors[mi].workspaces.len() {
            return;
        }
        let ghost before = self.monitors@;
        self.monitors[mi].workspaces[wi].presented_maximize = pm;
        proof {
            let m0 = before[mi as int];
            let m1 = self.monitors@[mi as int];
            assert(m1@.workspaces =~= m0@.workspaces.update(
                wi as int,
                WorkspaceV { presented_maximize: pm, ..m0@.workspaces[wi as int] },
            ));
            assert(self@.monitors =~= old(self)@.monitors.update(mi as int, m1@));
        }
    }

    /// The sticky windows of monitor `mi`, in no particular order.
    pub fn sticky_windows(&self, mi: usize) -> (r: Vec<WindowId>)
        ensures
            are_sticky(self@, mi as int, r@),
    {
        let ids: Vec<WindowId> = client_ids(&self.clients);
        let mut out: Vec<WindowId> = Vec::new();
        let mut i: usize = 0;
        while i < ids.len()
            invariant
                i <= ids.len(),
                ids@.no_duplicates(),
                forall|w: WindowId| #[trigger]
                    ids@.contains(w) <==> self@.clients.contains_key(w),
                out@.no_duplicates(),
                forall|w: WindowId| #[trigger]
                    out@.contains(w) <==> {
                        &&& ids@.take(i as int).contains(w)
                        &&& self@.clients[w].monitor == mi
                        &&& self@.clients[w].flags.on(crate::model::WinFlags::STICKY)
                    },
            decreases ids.len() - i,
        {
            let w: WindowId = ids[i];
            let ghost before = out@;
            let ghost seen = ids@.take(i as int);
            proof {
                assert(ids@.contains(w));
                assert(ids@.take(i as int + 1) =~= seen.push(w));
                take_push_contains(seen, w);
                take_push_contains(before, w);
                assert(!seen.contains(w)) by {
                    if seen.contains(w) {
                        let j = choose|j: int| 0 <= j < seen.len() && seen[j] == w;
                        assert(ids@[j] == w);
                    }
                }
                assert(!before.contains(w));
                push_no_duplicates(before, w);
            }
            match self.clients.get(&w) {
                Some(c) => {
                    if c.monitor == mi && c.is_sticky() {
                        out.push(w);
                    }
                },
                None => {},
            }
            i = i + 1;
        }
        assert(ids@.take(i as int) =~= ids@);
        out
    }
}

/// The sticky windows of monitor `mi`, each once.
pub open spec fn are_sticky(st: StateV, mi: int, s: Seq<WindowId>) -> bool {
    &&& s.no_duplicates()
    &&& forall|w: WindowId| #[trigger]
        s.contains(w) <==> {
            &&& st.clients.contains_key(w)
            &&& st.clients[w].monitor == mi
            &&& st.clients[w].flags.on(crate::model::WinFlags::STICKY)
        }
}

proof fn take_push_contains(s: Seq<WindowId>, w: WindowId)
    ensures
        forall|x: WindowId| #[trigger] s.push(w).contains(x) <==> (s.contains(x) || x == w),
{
    assert forall|x: WindowId| #[trigger] s.push(w).contains(x) <==> (s.contains(x) || x == w) by {
        if s.contains(x) {
            let j = choose|j: int| 0 <= j < s.len() && s[j] == x;
            assert(s.push(w)[j] == x);
        }
        assert(s.push(w)[s.len() as int] == w);
        if s.push(w).contains(x) {
            let j = choose|j: int| 0 <= j < s.push(w).len() && s.push(w)[j] == x;
            if j < s.len() {
                assert(s[j] == x);
            }
        }
    }
}

proof fn push_no_duplicates(s: Seq<WindowId>, w: WindowId)
    requires
        s.no_duplicates(),
        !s.contains(w),
    ensures
        s.push(w).no_duplicates(),
{
    let t = s.push(w);
    assert forall|i: int, j: int| 0 <= i < t.len() && 0 <= j < t.len() && i != j implies t[i]
        != t[j] by {
        if i < s.len() && j < s.len() {
        } else if i < s.len() {
            assert(s.contains(s[i]));
        } else {
            assert(s.contains(s[j]));
        }
    }
}

/// What [`State::sync_presented_maximize`] leaves.
pub open spec fn synced(st: StateV, mi: int) -> StateV {
    let m = st.monitors[mi];
    let pm = match m.focused {
        Some(f) => if st.clients.contains_key(f) && st.clients[f].maximized() {
            Some(f)
        } else {
            None
        },
        None => None,
    };
    if st.shows(mi) {
        st.with_mon(
            mi,
            m.with_ws(m.active_ws, WorkspaceV { presented_maximize: pm, ..m.ws() }),
        )
    } else {
        st
    }
}

/// An ordinary fullscreen tile of the column ribbon covers the screen, yet it
/// is no overlay: the two notions never name the same window there.
pub proof fn covering_tile_is_no_overlay(st: StateV, mi: int, win: WindowId)
    requires
        st.shows(mi),
        covering(st, mi) == Some(win),
        st.monitors[mi].ws().presented_maximize != Some(win),
    ensures
        !is_presented(st.clients, st.monitors[mi].ws(), win),
        overlay_owner(st, mi) != Some(win),
{
    let ws = st.monitors[mi].ws();
    let f = all_windows(ws).filter(presented_in(st.clients, ws));
    let stack = st.monitors[mi].focus_stack;
    if overlay_owner(st, mi) == Some(win) {
        let p = presented(st, mi);
        ranked_is_an_ordering(f, stack);
        broadcast use vstd::seq_lib::group_to_multiset_ensures;

        assert(p.contains(p.last()));
        assert(p.to_multiset().contains(win));
        assert(f.contains(win));
        let i = choose|i: int| 0 <= i < f.len() && f[i] == win;
        all_windows(ws).lemma_filter_pred(presented_in(st.clients, ws), i);
    }
}

// ---- What the presentation is for -------------------------------------------

/// The windows of the columns are the tiles, and all windows are the tiles and the
/// floats.
pub proof fn listed_windows_are_those_held(ws: WorkspaceV, win: WindowId)
    ensures
        column_windows(ws.columns).contains(win) <==> ws.tiles(win),
        all_windows(ws).contains(win) <==> ws.tiles(win) || ws.floats.contains(win),
{
    columns_list_their_windows(ws.columns, win);
    let t = column_windows(ws.columns);
    let all = all_windows(ws);
    if t.contains(win) {
        let i = choose|i: int| 0 <= i < t.len() && t[i] == win;
        assert(all[i] == win);
    }
    if ws.floats.contains(win) {
        let i = choose|i: int| 0 <= i < ws.floats.len() && ws.floats[i] == win;
        assert(all[t.len() + i] == win);
    }
    if all.contains(win) {
        let i = choose|i: int| 0 <= i < all.len() && all[i] == win;
        if i < t.len() {
            assert(t[i] == win);
        } else {
            assert(ws.floats[i - t.len()] == win);
        }
    }
}

proof fn columns_list_their_windows(cols: Seq<ColumnV>, win: WindowId)
    ensures
        column_windows(cols).contains(win) <==> exists|i: int|
            0 <= i < cols.len() && (#[trigger] cols[i]).windows.contains(win),
    decreases cols.len(),
{
    if cols.len() > 0 {
        let t = cols.drop_last();
        let l = cols.last().windows;
        columns_list_their_windows(t, win);
        let a = column_windows(t);
        let all = column_windows(cols);
        assert(cols[cols.len() - 1].windows == l);
        if all.contains(win) {
            let i = choose|i: int| 0 <= i < all.len() && all[i] == win;
            if i < a.len() {
                assert(a[i] == win);
                let j = choose|j: int|
                    0 <= j < t.len() && (#[trigger] t[j]).windows.contains(win);
                assert(cols[j].windows.contains(win));
            } else {
                assert(l[i - a.len()] == win);
            }
        }
        if exists|i: int| 0 <= i < cols.len() && (#[trigger] cols[i]).windows.contains(win) {
            let i = choose|i: int|
                0 <= i < cols.len() && (#[trigger] cols[i]).windows.contains(win);
            if i < t.len() {
                assert(t[i].windows.contains(win));
                let j = choose|j: int| 0 <= j < a.len() && a[j] == win;
                assert(all[j] == win);
            } else {
                let j = choose|j: int| 0 <= j < l.len() && l[j] == win;
                assert(all[a.len() + j] == win);
            }
        }
    }
}

proof fn presented_contains(st: StateV, mi: int, win: WindowId)
    ensures
        presented(st, mi).contains(win) <==> all_windows(st.monitors[mi].ws()).contains(win)
            && is_presented(st.clients, st.monitors[mi].ws(), win),
{
    let m = st.monitors[mi];
    let s = all_windows(m.ws());
    let p = presented_in(st.clients, m.ws());
    let f = s.filter(p);
    ranked_is_an_ordering(f, m.focus_stack);
    assert(presented(st, mi).contains(win) <==> f.contains(win)) by {
        f.to_multiset_ensures();
        ranked(f, m.focus_stack).to_multiset_ensures();
        assert(f.to_multiset().count(win) == ranked(f, m.focus_stack).to_multiset().count(win));
    }
    if f.contains(win) {
        s.lemma_filter_contains_rev(p, win);
        let i = choose|i: int| 0 <= i < f.len() && f[i] == win;
        s.lemma_filter_pred(p, i);
    }
    if s.contains(win) && p(win) {
        let i = choose|i: int| 0 <= i < s.len() && s[i] == win;
        s.lemma_filter_contains(p, i);
    }
}

/// The overlays of a monitor are the windows of the workspace on show that are
/// exclusively fullscreen, or fullscreen in the grid, or presented maximized. The
/// one on top is of them the one focused last, and there is one just where there is
/// any overlay.
pub proof fn overlay_on_top_was_focused_last(st: StateV, mi: int, win: WindowId)
    requires
        st.shows(mi),
    ensures
        ({
            let ws = st.monitors[mi].workspaces[st.monitors[mi].active_ws];
            let shown = (ws.tiles(win) || ws.floats.contains(win)) && st.clients.contains_key(win)
                && (ws.presented_maximize == Some(win) || (st.clients[win].flags.on(
                crate::model::WinFlags::FULLSCREEN,
            ) && (ws.layout == LayoutKind::Grid || st.clients[win].fullscreen_policy
                == crate::model::FullscreenPolicy::True)));
            let top = overlay_owner(st, mi);
            &&& presented(st, mi).contains(win) <==> shown
            &&& shown ==> top is Some
            &&& shown ==> focus_rank(st.monitors[mi].focus_stack, win) <= focus_rank(
                st.monitors[mi].focus_stack,
                top->0,
            )
            &&& top == Some(win) ==> shown
        }),
{
    let m = st.monitors[mi];
    let p = presented(st, mi);
    presented_contains(st, mi, win);
    listed_windows_are_those_held(m.ws(), win);
    ranked_is_an_ordering(
        all_windows(m.ws()).filter(presented_in(st.clients, m.ws())),
        m.focus_stack,
    );
    if p.contains(win) {
        let i = choose|i: int| 0 <= i < p.len() && p[i] == win;
        assert(focus_rank(m.focus_stack, p[i]) <= focus_rank(m.focus_stack, p[p.len() - 1]));
    }
    if overlay_owner(st, mi) == Some(win) {
        assert(p[p.len() - 1] == win);
    }
}

/// The rank of a window is its place in the order of focus.
pub proof fn later_focus_ranks_higher(stack: Seq<WindowId>, i: int)
    requires
        stack.no_duplicates(),
        0 <= i < stack.len(),
    ensures
        focus_rank(stack, stack[i]) == i,
{
    crate::seqs::first_index_is(stack, stack[i], i);
}

/// What covers a monitor is the window with the ribbon's focus, in the column
/// layout, that is fullscreen without being exclusively so; nothing else does.
pub proof fn covering_window_is_a_fullscreen_tile(st: StateV, mi: int, win: WindowId)
    requires
        st.shows(mi),
    ensures
        covering(st, mi) == Some(win) <==> {
            let ws = st.monitors[mi].workspaces[st.monitors[mi].active_ws];
            &&& ws.layout == LayoutKind::Column
            &&& 0 <= ws.column_idx < ws.columns.len()
            &&& 0 <= ws.columns[ws.column_idx].focused < ws.columns[ws.column_idx].windows.len()
            &&& ws.columns[ws.column_idx].windows[ws.columns[ws.column_idx].focused] == win
            &&& st.clients.contains_key(win)
            &&& st.clients[win].flags.on(crate::model::WinFlags::FULLSCREEN)
            &&& st.clients[win].fullscreen_policy != crate::model::FullscreenPolicy::True
        },
{
}

/// Of windows raised one after the other, `a` ends above `b`: after the last time
/// that `a` is raised, `b` is not.
pub open spec fn raised_above(order: Seq<WindowId>, a: WindowId, b: WindowId) -> bool {
    exists|i: int|
        0 <= i < order.len() && #[trigger] order[i] == a && !order.skip(i).contains(b)
}

proof fn later_part_is_above(head: Seq<WindowId>, tail: Seq<WindowId>, a: WindowId, b: WindowId)
    requires
        tail.contains(a),
        !tail.contains(b),
    ensures
        raised_above(head + tail, a, b),
{
    let i = choose|i: int| 0 <= i < tail.len() && tail[i] == a;
    let all = head + tail;
    let k = head.len() + i;
    assert(all[k] == a);
    let s = all.skip(k as int);
    assert forall|j: int| 0 <= j < s.len() implies s[j] != b by {
        assert(s[j] == tail[i + j]);
    }
}

proof fn filtered_iff(s: Seq<WindowId>, p: spec_fn(WindowId) -> bool, w: WindowId)
    ensures
        s.filter(p).contains(w) <==> s.contains(w) && p(w),
{
    let f = s.filter(p);
    if f.contains(w) {
        s.lemma_filter_contains_rev(p, w);
        let i = choose|i: int| 0 <= i < f.len() && f[i] == w;
        s.lemma_filter_pred(p, i);
    }
    if s.contains(w) && p(w) {
        let i = choose|i: int| 0 <= i < s.len() && s[i] == w;
        s.lemma_filter_contains(p, i);
    }
}

/// An overlay ends above every float and every sticky window that is neither an
/// overlay, nor a popup of one, nor the float that has the focus.
pub proof fn overlays_stand_above_the_floats(
    st: StateV,
    mi: int,
    sticky: Seq<WindowId>,
    o: WindowId,
    f: WindowId,
)
    requires
        st.shows(mi),
        presented(st, mi).contains(o),
        !presented(st, mi).contains(f),
        st.monitors[mi].focused != Some(f),
        !owned_by(st.clients, f, presented(st, mi)),
    ensures
        raised_above(stack_order(st, mi, sticky), o, f),
{
    let ws = st.monitors[mi].ws();
    let p = presented(st, mi);
    let pop = ws.floats.filter(owned_in(st.clients, p));
    filtered_iff(ws.floats, owned_in(st.clients, p), f);
    let tail = p + peeking(st, mi) + pop;
    let head = ws.floats.filter(managed(st.clients)) + sticky;
    assert(stack_order(st, mi, sticky) =~= head + tail);
    let i = choose|i: int| 0 <= i < p.len() && p[i] == o;
    assert(tail[i] == o);
    assert forall|j: int| 0 <= j < tail.len() implies tail[j] != f by {
        if j < p.len() {
            assert(p[j] == tail[j]);
        } else if j < p.len() + peeking(st, mi).len() {
            assert(tail[j] == peeking(st, mi)[j - p.len()]);
        } else {
            assert(tail[j] == pop[j - p.len() - peeking(st, mi).len()]);
        }
    }
    later_part_is_above(head, tail, o, f);
}

/// A float that belongs to an overlay ends above it, and so does the focused float
/// beside one.
pub proof fn popups_stand_above_their_overlay(
    st: StateV,
    mi: int,
    sticky: Seq<WindowId>,
    o: WindowId,
    f: WindowId,
)
    requires
        st.shows(mi),
        presented(st, mi).contains(o),
        !owned_by(st.clients, o, presented(st, mi)),
    ensures
        st.monitors[mi].ws().floats.contains(f) && owned_by(st.clients, f, presented(st, mi))
            ==> raised_above(stack_order(st, mi, sticky), f, o),
        st.monitors[mi].focused == Some(f) && st.clients.contains_key(f) && st.clients[f].floats()
            && !presented(st, mi).contains(f) ==> raised_above(
            stack_order(st, mi, sticky),
            f,
            o,
        ),
{
    let ws = st.monitors[mi].ws();
    let p = presented(st, mi);
    let pop = ws.floats.filter(owned_in(st.clients, p));
    let peek = peeking(st, mi);
    filtered_iff(ws.floats, owned_in(st.clients, p), f);
    filtered_iff(ws.floats, owned_in(st.clients, p), o);
    let head = ws.floats.filter(managed(st.clients)) + sticky + p + peek;
    assert(stack_order(st, mi, sticky) =~= head + pop);
    if pop.contains(f) {
        later_part_is_above(head, pop, f, o);
    }
    if st.monitors[mi].focused == Some(f) && st.clients.contains_key(f) && st.clients[f].floats()
        && !p.contains(f) {
        let h2 = ws.floats.filter(managed(st.clients)) + sticky + p;
        let t2 = peek + pop;
        assert(stack_order(st, mi, sticky) =~= h2 + t2);
        assert(peek =~= seq![f]);
        assert(t2[0] == f);
        assert forall|j: int| 0 <= j < t2.len() implies t2[j] != o by {
            if j > 0 {
                assert(t2[j] == pop[j - 1]);
            }
        }
        later_part_is_above(h2, t2, f, o);
    }
}

/// Every managed float, every sticky window and every overlay is raised, and no
/// window that is none of these is.
pub proof fn raised_windows_are_floats_or_overlays(
    st: StateV,
    mi: int,
    sticky: Seq<WindowId>,
    w: WindowId,
)
    requires
        st.shows(mi),
    ensures
        ({
            let fl = st.monitors[mi].ws().floats;
            let order = stack_order(st, mi, sticky);
            &&& fl.contains(w) && st.clients.contains_key(w) ==> order.contains(w)
            &&& sticky.contains(w) ==> order.contains(w)
            &&& presented(st, mi).contains(w) ==> order.contains(w)
            &&& order.contains(w) ==> fl.contains(w) || sticky.contains(w) || presented(
                st,
                mi,
            ).contains(w) || st.monitors[mi].focused == Some(w)
        }),
{
    let ws = st.monitors[mi].ws();
    let p = presented(st, mi);
    let a = ws.floats.filter(managed(st.clients));
    let pop = ws.floats.filter(owned_in(st.clients, p));
    let peek = peeking(st, mi);
    let order = stack_order(st, mi, sticky);
    filtered_iff(ws.floats, managed(st.clients), w);
    filtered_iff(ws.floats, owned_in(st.clients, p), w);
    if a.contains(w) {
        let i = choose|i: int| 0 <= i < a.len() && a[i] == w;
        assert(order[i] == w);
    }
    if sticky.contains(w) {
        let i = choose|i: int| 0 <= i < sticky.len() && sticky[i] == w;
        assert(order[a.len() + i] == w);
    }
    if p.contains(w) {
        let i = choose|i: int| 0 <= i < p.len() && p[i] == w;
        assert(order[a.len() + sticky.len() + i] == w);
    }
    if order.contains(w) {
        let i = choose|i: int| 0 <= i < order.len() && order[i] == w;
        let n1 = a.len() as int;
        let n2 = n1 + sticky.len();
        let n3 = n2 + p.len();
        let n4 = n3 + peek.len();
        if i < n1 {
            assert(a[i] == w);
        } else if i < n2 {
            assert(sticky[i - n1] == w);
        } else if i < n3 {
            assert(p[i - n2] == w);
        } else if i < n4 {
            assert(peek[i - n3] == w);
        } else {
            assert(pop[i - n4] == w);
        }
    }
}

/// A workspace presents the focused window of its monitor just where that is
/// maximized on some axis, and else nothing; all else stays as it was.
pub proof fn focused_maximized_window_is_presented(st: StateV, mi: int)
    requires
        st.shows(mi),
    ensures
        ({
            let m = st.monitors[mi];
            let after = synced(st, mi);
            let n = after.monitors[mi];
            let now = n.workspaces[m.active_ws].presented_maximize;
            let max = m.focused is Some && st.clients.contains_key(m.focused->0) && (
            st.clients[m.focused->0].flags.on(crate::model::WinFlags::MAXIMIZED_V)
                || st.clients[m.focused->0].flags.on(crate::model::WinFlags::MAXIMIZED_H));
            &&& max ==> now == m.focused
            &&& !max ==> now is None
            &&& n.workspaces[m.active_ws] == (WorkspaceV {
                presented_maximize: now,
                ..m.workspaces[m.active_ws]
            })
            &&& n.workspaces == m.workspaces.update(m.active_ws, n.workspaces[m.active_ws])
            &&& n.focused == m.focused && n.focus_stack == m.focus_stack && n.active_ws
                == m.active_ws
            &&& after == (StateV { monitors: st.monitors.update(mi, n), ..st })
        }),
{
}

/// The sticky windows of a monitor are the clients there that are sticky, and no
/// window of another monitor.
pub proof fn sticky_windows_are_on_their_monitor(
    st: StateV,
    mi: int,
    s: Seq<WindowId>,
    w: WindowId,
)
    requires
        are_sticky(st, mi, s),
    ensures
        s.contains(w) ==> st.clients.contains_key(w) && st.clients[w].monitor == mi
            && st.clients[w].flags.on(crate::model::WinFlags::STICKY),
        st.clients.contains_key(w) && st.clients[w].monitor == mi && st.clients[w].flags.on(
            crate::model::WinFlags::STICKY,
        ) ==> s.contains(w),
{
}

} // verus!
