//! What the bound actions do to the tree of monitors, workspaces and columns.

use crate::config::{Action, Dir};
use crate::fullscreen::{fullscreen_set, fullscreened, FullscreenChange};
use crate::lifecycle::joined_by;
use crate::model::{Client, LayoutKind, WinFlags, WindowId};
use crate::seqs::{filter_take_step, first_index, position_of, without, without_window};
use crate::state::{workspace_views, Monitor, MonitorV, State, StateV};
use crate::workspace::{
    clamp_index, column_views, occupied, Column, ColumnV, Focus, Workspace, WorkspaceV,
};
use vstd::prelude::*;

verus! {

broadcast use vstd::std_specs::hash::group_hash_axioms;

// ---- Going round a list -----------------------------------------------------

/// The place after `i`, round a list of `n`.
pub open spec fn after_index(i: int, n: int) -> int {
    if i % n + 1 == n {
        0
    } else {
        i % n + 1
    }
}

/// The place before `i`, round a list of `n`.
pub open spec fn before_index(i: int, n: int) -> int {
    if i % n == 0 {
        n - 1
    } else {
        i % n - 1
    }
}

/// The place next to `i` in the direction asked for.
pub open spec fn beside_index(i: int, n: int, back: bool) -> int {
    if back {
        before_index(i, n)
    } else {
        after_index(i, n)
    }
}

fn beside(i: usize, n: usize, back: bool) -> (r: usize)
    requires
        n > 0,
    ensures
        r == beside_index(i as int, n as int, back),
        r < n,
{
    let k: usize = i % n;
    if back {
        if k == 0 {
            n - 1
        } else {
            k - 1
        }
    } else if k + 1 == n {
        0
    } else {
        k + 1
    }
}

/// Going one place on and one place back ends where it started.
pub proof fn there_and_back(i: int, n: int)
    requires
        0 <= i < n,
    ensures
        before_index(after_index(i, n), n) == i,
        after_index(before_index(i, n), n) == i,
{
    assert(i % n == i) by (nonlinear_arith)
        requires
            0 <= i < n,
    ;
    let a = after_index(i, n);
    let b = before_index(i, n);
    assert(a % n == a) by (nonlinear_arith)
        requires
            0 <= a < n,
    ;
    assert(b % n == b) by (nonlinear_arith)
        requires
            0 <= b < n,
    ;
}

// ---- Moving the focus -------------------------------------------------------

/// A focus that moved.
#[derive(Debug, Clone, Copy, PartialEq, Eq, Structural)]
pub struct FocusMove {
    /// The ribbon's focus changed: lay the monitor out anew.
    pub arrange: bool,
    pub window: Option<WindowId>,
}

/// The workspace with the focus one column to the side.
pub open spec fn column_stepped(ws: WorkspaceV, back: bool) -> WorkspaceV {
    WorkspaceV {
        column_idx: beside_index(ws.column_idx, ws.columns.len() as int, back),
        ..ws
    }
}

/// The workspace with the focus one row up or down in its column.
pub open spec fn row_stepped(ws: WorkspaceV, back: bool) -> WorkspaceV {
    let c = ws.columns[ws.column_idx];
    WorkspaceV {
        columns: ws.columns.update(
            ws.column_idx,
            ColumnV { focused: beside_index(c.focused, c.windows.len() as int, back), ..c },
        ),
        ..ws
    }
}

/// The focused column exists and has a window in it.
pub open spec fn has_rows(ws: WorkspaceV) -> bool {
    0 <= ws.column_idx < ws.columns.len() && ws.columns[ws.column_idx].windows.len() > 0
}

/// The window beside the focused one in the order of focus.
pub open spec fn beside_in_history(m: MonitorV, back: bool) -> WindowId {
    match m.focused {
        Some(fw) => {
            let pos = match first_index(m.focus_stack, fw) {
                Some(i) => i,
                None => 0,
            };
            m.focus_stack[beside_index(pos, m.focus_stack.len() as int, back)]
        },
        None => m.focus_stack[0],
    }
}

/// Moving the focus: sideways along the ribbon and up and down in a column, round
/// and round; `Next` and `Prev` go round the order of focus.
pub open spec fn focus_moved(st: StateV, dir: Dir) -> (StateV, Option<FocusMove>) {
    let mi = st.sel_mon;
    let m = st.monitors[mi];
    let ws = m.ws();
    match dir {
        Dir::Left | Dir::Right => if ws.columns.len() == 0 {
            (st, None)
        } else {
            let w1 = column_stepped(ws, dir == Dir::Left);
            (
                st.with_mon(mi, m.with_ws(m.active_ws, w1)),
                Some(FocusMove { arrange: true, window: w1.focused_win() }),
            )
        },
        Dir::Up | Dir::Down => if !has_rows(ws) {
            (st, None)
        } else {
            let w1 = row_stepped(ws, dir == Dir::Up);
            (
                st.with_mon(mi, m.with_ws(m.active_ws, w1)),
                Some(FocusMove { arrange: true, window: w1.focused_win() }),
            )
        },
        Dir::Next | Dir::Prev => if m.focus_stack.len() == 0 {
            (st, None)
        } else {
            (
                st,
                Some(
                    FocusMove {
                        arrange: false,
                        window: Some(beside_in_history(m, dir == Dir::Prev)),
                    },
                ),
            )
        },
    }
}

impl Workspace {
    fn step_column(&mut self, back: bool)
        requires
            old(self)@.columns.len() > 0,
        ensures
            final(self)@ == column_stepped(old(self)@, back),
    {
        let ci: usize = beside(self.focus.column_idx, self.columns.len(), back);
        self.focus = Focus { column_idx: ci };
    }

    fn step_row(&mut self, back: bool)
        requires
            has_rows(old(self)@),
        ensures
            final(self)@ == row_stepped(old(self)@, back),
    {
        let ci: usize = self.focus.column_idx;
        let ghost before = self@;
        assert(before.columns[ci as int] == self.columns@[ci as int]@);
        let ri: usize = beside(self.columns[ci].focused, self.columns[ci].windows.len(), back);
        self.columns[ci].focused = ri;
        assert(column_views(self.columns@) =~= row_stepped(before, back).columns);
    }
}

impl State {
    /// Move the focus. Returns the window to focus, if there is anywhere to go.
    pub fn focus_dir(&mut self, dir: Dir) -> (r: Option<FocusMove>)
        requires
            old(self)@.shows(old(self).sel_mon as int),
        ensures
            (final(self)@, r) == focus_moved(old(self)@, dir),
    {
        let mi: usize = self.sel_mon;
        assert(self@.monitors[mi as int] == self.monitors@[mi as int]@);
        let wi: usize = self.monitors[mi].active_ws;
        let ghost ws = self@.monitors[mi as int].ws();
        let mut w: Workspace = self.monitors[mi].workspaces[wi].copy();
        assert(w@ == ws);
        match dir {
            Dir::Left | Dir::Right => {
                if w.columns.len() == 0 {
                    return None;
                }
                w.step_column(dir == Dir::Left);
                let win: Option<WindowId> = w.focused_win();
                self.put_workspace(mi, wi, w);
                Some(FocusMove { arrange: true, window: win })
            },
            Dir::Up | Dir::Down => {
                if w.focus.column_idx >= w.columns.len() {
                    return None;
                }
                assert(w@.columns[w.focus.column_idx as int]
                    == w.columns@[w.focus.column_idx as int]@);
                if w.columns[w.focus.column_idx].windows.len() == 0 {
                    return None;
                }
                w.step_row(dir == Dir::Up);
                let win: Option<WindowId> = w.focused_win();
                self.put_workspace(mi, wi, w);
                Some(FocusMove { arrange: true, window: win })
            },
            Dir::Next | Dir::Prev => {
                let n: usize = self.monitors[mi].focus_stack.len();
                if n == 0 {
                    return None;
                }
                let win: WindowId = match self.monitors[mi].focused {
                    Some(fw) => {
                        let pos: usize = match position_of(&self.monitors[mi].focus_stack, fw) {
                            Some(i) => i,
                            None => 0,
                        };
                        self.monitors[mi].focus_stack[beside(pos, n, dir == Dir::Prev)]
                    },
                    None => self.monitors[mi].focus_stack[0],
                };
                Some(FocusMove { arrange: false, window: Some(win) })
            },
        }
    }
}

// ---- Columns ----------------------------------------------------------------

/// A column's width after growing by `px`: at least 100 pixels, and 100 pixels of
/// the work area stay free.
pub open spec fn grown_width(width: u32, px: i32, room: u32) -> int {
    let w = if width + px < 100 {
        100
    } else {
        width + px
    };
    if w > room - 100 {
        room - 100
    } else {
        w
    }
}

pub open spec fn column_grown(ws: WorkspaceV, px: i32, room: u32) -> WorkspaceV {
    if 0 <= ws.column_idx < ws.columns.len() {
        let c = ws.columns[ws.column_idx];
        WorkspaceV {
            columns: ws.columns.update(
                ws.column_idx,
                ColumnV { width: grown_width(c.width, px, room) as u32, ..c },
            ),
            ..ws
        }
    } else {
        ws
    }
}

/// The focused column is emptied into the one before it, and disappears.
pub open spec fn collapsed_columns(cols: Seq<ColumnV>, ci: int) -> Seq<ColumnV> {
    let a = cols[ci - 1];
    let b = cols[ci];
    cols.update(ci - 1, ColumnV { windows: a.windows + b.windows, ..a }).update(
        ci,
        ColumnV { windows: Seq::empty(), ..b },
    ).filter(occupied())
}

/// There is a column before the focused one.
pub open spec fn can_collapse(ws: WorkspaceV) -> bool {
    0 < ws.column_idx < ws.columns.len()
}

pub open spec fn collapsed(ws: WorkspaceV) -> WorkspaceV {
    let cols = collapsed_columns(ws.columns, ws.column_idx);
    WorkspaceV {
        columns: cols,
        column_idx: clamp_index(ws.column_idx - 1, cols.len() as int),
        ..ws
    }
}

impl Workspace {
    /// Widen the focused column by `px`, or narrow it.
    pub fn grow_column(&mut self, px: i32, room: u32)
        requires
            room >= 100,
        ensures
            final(self)@ == column_grown(old(self)@, px, room),
    {
        let ci: usize = self.focus.column_idx;
        if ci < self.columns.len() {
            let ghost before = self@;
            assert(before.columns[ci as int] == self.columns@[ci as int]@);
            let want: i64 = self.columns[ci].width as i64 + px as i64;
            let w: i64 = if want < 100 { 100 } else { want };
            let most: i64 = room as i64 - 100;
            self.columns[ci].width = (if w > most { most } else { w }) as u32;
            assert(column_views(self.columns@) =~= column_grown(before, px, room).columns);
        }
    }

    /// Empty the focused column into the one before it. Returns whether there is
    /// one.
    pub fn collapse_column(&mut self) -> (done: bool)
        ensures
            done == can_collapse(old(self)@),
            final(self)@ == (if done {
                collapsed(old(self)@)
            } else {
                old(self)@
            }),
    {
        let ci: usize = self.focus.column_idx;
        if ci == 0 || ci >= self.columns.len() {
            return false;
        }
        let ghost all = self@.columns;
        let ghost mid = all.update(
            ci - 1,
            ColumnV { windows: all[ci - 1].windows + all[ci as int].windows, ..all[ci - 1] },
        ).update(ci as int, ColumnV { windows: Seq::empty(), ..all[ci as int] });
        let mut cols: Vec<Column> = Vec::new();
        let mut i: usize = 0;
        proof {
            reveal(Seq::filter);
            assert(column_views(cols@) =~= mid.take(0).filter(occupied()));
        }
        while i < self.columns.len()
            invariant
                i <= self.columns.len(),
                0 < ci < self.columns.len(),
                *self == *old(self),
                all == self@.columns,
                mid == all.update(
                    ci - 1,
                    ColumnV { windows: all[ci - 1].windows + all[ci as int].windows, ..all[ci - 1] },
                ).update(ci as int, ColumnV { windows: Seq::empty(), ..all[ci as int] }),
                column_views(cols@) == mid.take(i as int).filter(occupied()),
            decreases self.columns.len() - i,
        {
            proof {
                assert(all[i as int] == self.columns@[i as int]@);
                assert(all[ci as int] == self.columns@[ci as int]@);
                filter_take_step(mid, i as int, occupied());
            }
            if i != ci {
                let mut windows: Vec<WindowId> = crate::seqs::copy_windows(&self.columns[i].windows);
                if i + 1 == ci {
                    let mut more: Vec<WindowId> = crate::seqs::copy_windows(
                        &self.columns[ci].windows,
                    );
                    windows.append(&mut more);
                }
                let c = Column {
                    windows,
                    focused: self.columns[i].focused,
                    width: self.columns[i].width,
                };
                assert(c@ == mid[i as int]);
                if c.windows.len() > 0 {
                    proof {
                        assert(column_views(cols@.push(c)) =~= column_views(cols@).push(c@));
                    }
                    cols.push(c);
                }
            } else {
                assert(mid[i as int].windows.len() == 0);
            }
            i = i + 1;
        }
        assert(mid.take(i as int) =~= mid);
        assert(column_views(cols@).len() == cols@.len());
        let n: usize = cols.len();
        let target: usize = if n == 0 {
            0
        } else if ci - 1 >= n {
            n - 1
        } else {
            ci - 1
        };
        self.columns = cols;
        self.focus = Focus { column_idx: target };
        true
    }
}

impl State {
    /// Widen the focused column by `px`, or narrow it. Returns the monitor to lay
    /// out anew.
    pub fn grow_col(&mut self, px: i32) -> (mi: usize)
        requires
            old(self)@.shows(old(self).sel_mon as int),
            old(self)@.monitors[old(self).sel_mon as int].workarea.w >= 100,
        ensures
            mi == old(self).sel_mon,
            ({
                let m = old(self)@.monitors[old(self).sel_mon as int];
                final(self)@ == old(self)@.with_mon(
                    old(self).sel_mon as int,
                    m.with_ws(m.active_ws, column_grown(m.ws(), px, m.workarea.w)),
                )
            }),
    {
        let mi: usize = self.sel_mon;
        assert(self@.monitors[mi as int] == self.monitors@[mi as int]@);
        let wi: usize = self.monitors[mi].active_ws;
        let mut w: Workspace = self.monitors[mi].workspaces[wi].copy();
        assert(w@ == self@.monitors[mi as int].ws());
        w.grow_column(px, self.monitors[mi].workarea.w);
        self.put_workspace(mi, wi, w);
        mi
    }

    /// Empty the focused column into the one before it. Returns the monitor to
    /// lay out anew, if there is one before it.
    pub fn collapse_col(&mut self) -> (r: Option<usize>)
        requires
            old(self)@.shows(old(self).sel_mon as int),
        ensures
            ({
                let st = old(self)@;
                let m = st.monitors[st.sel_mon];
                if can_collapse(m.ws()) {
                    &&& r == Some(old(self).sel_mon)
                    &&& final(self)@ == st.with_mon(
                        st.sel_mon,
                        m.with_ws(m.active_ws, collapsed(m.ws())),
                    )
                } else {
                    r is None && final(self)@ == st
                }
            }),
    {
        let mi: usize = self.sel_mon;
        assert(self@.monitors[mi as int] == self.monitors@[mi as int]@);
        let wi: usize = self.monitors[mi].active_ws;
        let mut w: Workspace = self.monitors[mi].workspaces[wi].copy();
        assert(w@ == self@.monitors[mi as int].ws());
        if w.collapse_column() {
            self.put_workspace(mi, wi, w);
            Some(mi)
        } else {
            None
        }
    }

    /// Give the focused window, if it is a tile, a column of its own. Returns the
    /// window.
    pub fn new_column(&mut self, width: u32) -> (r: Option<WindowId>)
        requires
            old(self)@.shows(old(self).sel_mon as int),
        ensures
            ({
                let st = old(self)@;
                let m = st.monitors[st.sel_mon];
                match m.focused {
                    Some(win) => if st.clients.contains_key(win) && !st.clients[win].floats() {
                        &&& r == Some(win)
                        &&& final(self)@ == st.with_mon(
                            st.sel_mon,
                            m.with_ws(
                                m.active_ws,
                                m.ws().remove_window(win).add_tiled(win, width),
                            ),
                        )
                    } else {
                        r is None && final(self)@ == st
                    },
                    None => r is None && final(self)@ == st,
                }
            }),
    {
        let mi: usize = self.sel_mon;
        assert(self@.monitors[mi as int] == self.monitors@[mi as int]@);
        let win: WindowId = match self.monitors[mi].focused {
            Some(w) => w,
            None => {
                return None;
            },
        };
        let float: bool = match self.clients.get(&win) {
            Some(c) => c.is_float(),
            None => true,
        };
        if float {
            return None;
        }
        let wi: usize = self.monitors[mi].active_ws;
        let mut w: Workspace = self.monitors[mi].workspaces[wi].copy();
        assert(w@ == self@.monitors[mi as int].ws());
        w.remove_window(win);
        w.add_tiled(win, width);
        self.put_workspace(mi, wi, w);
        Some(win)
    }
}

// ---- Floating and fullscreen ------------------------------------------------

/// The focused window floats if it was tiled, and is tiled if it floated.
pub open spec fn float_toggled(st: StateV, width: u32) -> StateV {
    let mi = st.sel_mon;
    let m = st.monitors[mi];
    match m.focused {
        Some(win) => {
            let float = st.client_on(win, WinFlags::FLOAT);
            let s1 = st.with_mon(
                mi,
                m.with_ws(
                    m.active_ws,
                    joined_by(m.ws().remove_window(win), win, !float, width),
                ),
            );
            if st.clients.contains_key(win) {
                let c = st.clients[win];
                s1.with_client(
                    win,
                    Client {
                        flags: if float {
                            c.flags.less(WinFlags::FLOAT)
                        } else {
                            c.flags.with(WinFlags::FLOAT)
                        },
                        ..c
                    },
                )
            } else {
                s1
            }
        },
        None => st,
    }
}

impl State {
    /// Make the focused window float, or tile it again. Returns the monitor to lay
    /// out anew.
    pub fn toggle_float(&mut self, width: u32) -> (r: Option<usize>)
        requires
            old(self)@.shows(old(self).sel_mon as int),
        ensures
            final(self)@ == float_toggled(old(self)@, width),
            r == (if old(self)@.monitors[old(self).sel_mon as int].focused is Some {
                Some(old(self).sel_mon)
            } else {
                None
            }),
    {
        let mi: usize = self.sel_mon;
        assert(self@.monitors[mi as int] == self.monitors@[mi as int]@);
        let win: WindowId = match self.monitors[mi].focused {
            Some(w) => w,
            None => {
                return None;
            },
        };
        let flags: Option<WinFlags> = match self.clients.get(&win) {
            Some(c) => Some(c.flags),
            None => None,
        };
        let float: bool = match flags {
            Some(f) => f.has(WinFlags::FLOAT),
            None => false,
        };
        let wi: usize = self.monitors[mi].active_ws;
        let mut w: Workspace = self.monitors[mi].workspaces[wi].copy();
        assert(w@ == self@.monitors[mi as int].ws());
        w.remove_window(win);
        if float {
            w.add_tiled(win, width);
        } else {
            w.add_float(win);
        }
        self.put_workspace(mi, wi, w);
        match flags {
            Some(f) => {
                let mut f1: WinFlags = f;
                if float {
                    f1.clear(WinFlags::FLOAT);
                } else {
                    f1.set(WinFlags::FLOAT);
                }
                self.put_flags(win, f1);
            },
            None => {},
        }
        Some(mi)
    }

    /// Make the focused window fullscreen, or end that.
    pub fn toggle_fullscreen(&mut self, width: u32) -> (r: Option<(WindowId, FullscreenChange)>)
        requires
            old(self).sel_mon < old(self).monitors.len(),
            forall|w: WindowId|
                old(self)@.clients.contains_key(w) ==> (#[trigger] old(self)@.clients[w]).window
                    == w,
        ensures
            ({
                let st = old(self)@;
                match st.monitors[st.sel_mon].focused {
                    Some(win) => {
                        let fs = st.client_on(win, WinFlags::FULLSCREEN);
                        &&& final(self)@ == fullscreen_set(st, win, !fs, width)
                        &&& r == (if st.clients.contains_key(win) {
                            let c = st.clients[win];
                            Some(
                                (
                                    win,
                                    FullscreenChange {
                                        monitor: c.monitor,
                                        workspace: c.workspace,
                                        recenter: !fullscreened(c, !fs).true_fullscreen(),
                                    },
                                ),
                            )
                        } else {
                            None
                        })
                    },
                    None => r is None && final(self)@ == st,
                }
            }),
    {
        let mi: usize = self.sel_mon;
        assert(self@.monitors[mi as int] == self.monitors@[mi as int]@);
        match self.monitors[mi].focused {
            Some(win) => {
                let fs: bool = match self.clients.get(&win) {
                    Some(c) => c.is_fullscreen(),
                    None => false,
                };
                match self.set_fullscreen(win, !fs, width) {
                    Some(ch) => Some((win, ch)),
                    None => None,
                }
            },
            None => None,
        }
    }
}

// ---- Workspaces -------------------------------------------------------------

/// `win` leaves workspace `wi` of a monitor; the window focused before it takes
/// the focus.
pub open spec fn monitor_lost(m: MonitorV, wi: int, win: WindowId) -> MonitorV {
    let stack = without(m.focus_stack, win);
    MonitorV {
        workspaces: m.workspaces.update(wi, m.workspaces[wi].remove_window(win)),
        focus_stack: stack,
        focused: if m.focused == Some(win) {
            if stack.len() > 0 {
                Some(stack.last())
            } else {
                None
            }
        } else {
            m.focused
        },
        ..m
    }
}

/// `win` joins workspace `wi` of a monitor.
pub open spec fn monitor_gained(
    m: MonitorV,
    wi: int,
    win: WindowId,
    float: bool,
    width: u32,
) -> MonitorV {
    m.with_ws(wi, joined_by(m.workspaces[wi], win, float, width))
}

impl Monitor {
    fn lose(&mut self, wi: usize, win: WindowId)
        requires
            wi < old(self).workspaces.len(),
        ensures
            final(self)@ == monitor_lost(old(self)@, wi as int, win),
            final(self).workspaces.len() == old(self).workspaces.len(),
    {
        let ghost m0 = self@;
        assert(m0.workspaces[wi as int] == self.workspaces@[wi as int]@);
        self.workspaces[wi].remove_window(win);
        assert(workspace_views(self.workspaces@) =~= m0.workspaces.update(
            wi as int,
            m0.workspaces[wi as int].remove_window(win),
        ));
        self.focus_stack = without_window(&self.focus_stack, win);
        if self.focused == Some(win) {
            let n: usize = self.focus_stack.len();
            self.focused = if n > 0 { Some(self.focus_stack[n - 1]) } else { None };
        }
    }

    fn gain(&mut self, wi: usize, win: WindowId, float: bool, width: u32)
        requires
            wi < old(self).workspaces.len(),
        ensures
            final(self)@ == monitor_gained(old(self)@, wi as int, win, float, width),
    {
        let ghost m0 = self@;
        assert(m0.workspaces[wi as int] == self.workspaces@[wi as int]@);
        if float {
            self.workspaces[wi].add_float(win);
        } else {
            self.workspaces[wi].add_tiled(win, width);
        }
        assert(workspace_views(self.workspaces@) =~= m0.workspaces.update(
            wi as int,
            joined_by(m0.workspaces[wi as int], win, float, width),
        ));
    }
}

/// The focused window moved to workspace `wi` of its monitor.
pub open spec fn moved_to_ws(st: StateV, wi: int, width: u32) -> (StateV, Option<WindowId>) {
    let mi = st.sel_mon;
    let m = st.monitors[mi];
    match m.focused {
        Some(win) => if st.clients.contains_key(win) && st.clients[win].workspace != wi && 0 <= wi
            < m.workspaces.len() {
            let c = st.clients[win];
            let m1 = monitor_gained(
                monitor_lost(m, c.workspace as int, win),
                wi,
                win,
                c.floats(),
                width,
            );
            (
                st.with_mon(mi, m1).with_client(win, Client { workspace: wi as usize, ..c }),
                Some(win),
            )
        } else {
            (st, None)
        },
        None => (st, None),
    }
}

impl State {
    /// Show workspace `wi` of the selected monitor. Returns whether it was not on
    /// show already.
    pub fn view_ws(&mut self, wi: usize) -> (changed: bool)
        requires
            old(self).sel_mon < old(self).monitors.len(),
        ensures
            ({
                let st = old(self)@;
                let m = st.monitors[st.sel_mon];
                &&& changed == (wi < m.workspaces.len() && wi != m.active_ws)
                &&& final(self)@ == (if changed {
                    st.with_mon(st.sel_mon, MonitorV { active_ws: wi as int, ..m })
                } else {
                    st
                })
            }),
    {
        let mi: usize = self.sel_mon;
        let ghost st = self@;
        assert(st.monitors[mi as int] == self.monitors@[mi as int]@);
        if wi >= self.monitors[mi].workspaces.len() || wi == self.monitors[mi].active_ws {
            return false;
        }
        self.monitors[mi].active_ws = wi;
        assert(self@.monitors =~= st.monitors.update(
            mi as int,
            MonitorV { active_ws: wi as int, ..st.monitors[mi as int] },
        ));
        true
    }

    /// Move the focused window to workspace `wi` of its monitor. Returns the
    /// window, if it moved.
    pub fn move_to_ws(&mut self, wi: usize, width: u32) -> (r: Option<WindowId>)
        requires
            old(self).sel_mon < old(self).monitors.len(),
            ({
                let st = old(self)@;
                let m = st.monitors[st.sel_mon];
                m.focused is Some && st.clients.contains_key(m.focused->0)
                    ==> st.clients[m.focused->0].workspace < m.workspaces.len()
            }),
        ensures
            (final(self)@, r) == moved_to_ws(old(self)@, wi as int, width),
    {
        let mi: usize = self.sel_mon;
        let ghost st = self@;
        assert(st.monitors[mi as int] == self.monitors@[mi as int]@);
        let win: WindowId = match self.monitors[mi].focused {
            Some(w) => w,
            None => {
                return None;
            },
        };
        let (src, float): (usize, bool) = match self.clients.get(&win) {
            Some(c) => (c.workspace, c.is_float()),
            None => {
                return None;
            },
        };
        if src == wi || wi >= self.monitors[mi].workspaces.len() {
            return None;
        }
        self.monitors[mi].lose(src, win);
        self.monitors[mi].gain(wi, win, float, width);
        assert(self@.monitors =~= st.monitors.update(mi as int, self.monitors@[mi as int]@));
        self.put_place(win, None, wi);
        Some(win)
    }

    fn put_place(&mut self, win: WindowId, monitor: Option<usize>, workspace: usize)
        ensures
            final(self)@ == (if old(self)@.clients.contains_key(win) {
                let c = old(self)@.clients[win];
                old(self)@.with_client(
                    win,
                    Client {
                        monitor: match monitor {
                            Some(m) => m,
                            None => c.monitor,
                        },
                        workspace,
                        ..c
                    },
                )
            } else {
                old(self)@
            }),
    {
        let ghost before = self.clients@;
        match self.clients.remove(&win) {
            Some(c0) => {
                let mut c: Client = c0;
                match monitor {
                    Some(m) => {
                        c.monitor = m;
                    },
                    None => {},
                }
                c.workspace = workspace;
                self.clients.insert(win, c);
                assert(self.clients@ =~= before.insert(win, c));
            },
            None => {
                assert(self.clients@ =~= before);
            },
        }
    }
}

// ---- Monitors ---------------------------------------------------------------

/// The monitor in the direction asked for; anything but `Prev` goes on.
pub open spec fn beside_monitor(st: StateV, dir: Dir) -> int {
    beside_index(st.sel_mon, st.monitors.len() as int, dir == Dir::Prev)
}

/// The focused window moved to the monitor beside the selected one, which is
/// selected now.
pub open spec fn moved_to_mon(st: StateV, dir: Dir, width: u32) -> (
    StateV,
    Option<(WindowId, usize, usize)>,
) {
    let mi = st.sel_mon;
    let m = st.monitors[mi];
    if st.monitors.len() <= 1 || m.focused is None {
        (st, None)
    } else {
        let win = m.focused->0;
        let to = beside_monitor(st, dir);
        let known = st.clients.contains_key(win);
        let wi = if known {
            st.clients[win].workspace as int
        } else {
            0
        };
        let gained = monitor_gained(
            st.monitors[to],
            wi,
            win,
            known && st.clients[win].floats(),
            width,
        );
        let s1 = StateV {
            sel_mon: to,
            ..st.with_mon(mi, monitor_lost(m, wi, win)).with_mon(
                to,
                MonitorV { focus_stack: gained.focus_stack.push(win), ..gained },
            )
        };
        let s2 = if known {
            s1.with_client(
                win,
                Client { monitor: to as usize, workspace: wi as usize, ..st.clients[win] },
            )
        } else {
            s1
        };
        (s2, Some((win, mi as usize, to as usize)))
    }
}

/// The workspace that the focused window is on, on either of two monitors.
pub open spec fn place_exists(st: StateV, dir: Dir) -> bool {
    let m = st.monitors[st.sel_mon];
    m.focused is Some ==> {
        let win = m.focused->0;
        let wi = if st.clients.contains_key(win) {
            st.clients[win].workspace as int
        } else {
            0
        };
        st.has_ws(st.sel_mon, wi) && st.has_ws(beside_monitor(st, dir), wi)
    }
}

impl State {
    /// Select the monitor beside the selected one. Returns the window left behind
    /// and the monitor now selected, if there is more than one.
    pub fn focus_mon(&mut self, dir: Dir) -> (r: Option<(Option<WindowId>, usize)>)
        requires
            old(self).sel_mon < old(self).monitors.len(),
        ensures
            ({
                let st = old(self)@;
                if st.monitors.len() <= 1 {
                    r is None && final(self)@ == st
                } else {
                    let to = beside_monitor(st, dir);
                    &&& r == Some((st.monitors[st.sel_mon].focused, to as usize))
                    &&& final(self)@ == (StateV { sel_mon: to, ..st })
                }
            }),
    {
        let n: usize = self.monitors.len();
        if n <= 1 {
            return None;
        }
        let cur: usize = self.sel_mon;
        assert(self@.monitors[cur as int] == self.monitors@[cur as int]@);
        let to: usize = beside(cur, n, dir == Dir::Prev);
        let left: Option<WindowId> = self.monitors[cur].focused;
        self.sel_mon = to;
        Some((left, to))
    }

    /// Move the focused window to the monitor beside the selected one. Returns
    /// the window and the two monitors, if it moved.
    pub fn move_mon(&mut self, dir: Dir, width: u32) -> (r: Option<(WindowId, usize, usize)>)
        requires
            old(self).sel_mon < old(self).monitors.len(),
            old(self).monitors.len() > 1 ==> place_exists(old(self)@, dir),
        ensures
            (final(self)@, r) == moved_to_mon(old(self)@, dir, width),
    {
        let n: usize = self.monitors.len();
        if n <= 1 {
            return None;
        }
        let mi: usize = self.sel_mon;
        let ghost st = self@;
        assert(st.monitors[mi as int] == self.monitors@[mi as int]@);
        let win: WindowId = match self.monitors[mi].focused {
            Some(w) => w,
            None => {
                return None;
            },
        };
        let to: usize = beside(mi, n, dir == Dir::Prev);
        assert(st.monitors[to as int] == self.monitors@[to as int]@);
        proof {
            assert(mi as int % n as int == mi as int) by (nonlinear_arith)
                requires
                    mi < n,
            ;
            assert(to != mi);
        }
        let (wi, float): (usize, bool) = match self.clients.get(&win) {
            Some(c) => (c.workspace, c.is_float()),
            None => (0, false),
        };
        self.monitors[mi].lose(wi, win);
        self.monitors[to].gain(wi, win, float, width);
        self.monitors[to].focus_stack.push(win);
        self.sel_mon = to;
        proof {
            let gained = monitor_gained(st.monitors[to as int], wi as int, win, float, width);
            assert(self@.monitors =~= st.monitors.update(
                mi as int,
                monitor_lost(st.monitors[mi as int], wi as int, win),
            ).update(
                to as int,
                MonitorV { focus_stack: gained.focus_stack.push(win), ..gained },
            ));
        }
        self.put_place(win, Some(to), wi);
        Some((win, mi, to))
    }
}

// ---- Layouts ----------------------------------------------------------------

impl LayoutKind {
    /// The layout after this one.
    pub open spec fn following(self) -> LayoutKind {
        match self {
            LayoutKind::Column => LayoutKind::Monocle,
            LayoutKind::Monocle => LayoutKind::Grid,
            LayoutKind::Grid => LayoutKind::Column,
        }
    }

    pub fn next(self) -> (l: LayoutKind)
        ensures
            l == self.following(),
    {
        match self {
            LayoutKind::Column => LayoutKind::Monocle,
            LayoutKind::Monocle => LayoutKind::Grid,
            LayoutKind::Grid => LayoutKind::Column,
        }
    }
}

/// The workspace laid out as `l`.
pub open spec fn laid_out(l: LayoutKind) -> spec_fn(WorkspaceV) -> WorkspaceV {
    |w: WorkspaceV| WorkspaceV { layout: l, ..w }
}

/// The monitor with all its workspaces laid out as `l`.
pub open spec fn all_laid_out(l: LayoutKind) -> spec_fn(MonitorV) -> MonitorV {
    |m: MonitorV| MonitorV { workspaces: m.workspaces.map_values(laid_out(l)), ..m }
}

impl Monitor {
    fn lay_out(&mut self, l: LayoutKind)
        ensures
            final(self)@ == all_laid_out(l)(old(self)@),
    {
        let n: usize = self.workspaces.len();
        let ghost m0 = *self;
        let mut i: usize = 0;
        while i < n
            invariant
                i <= n,
                n == self.workspaces.len(),
                n == m0.workspaces.len(),
                *self == (Monitor { workspaces: self.workspaces, ..m0 }),
                forall|j: int|
                    0 <= j < i ==> (#[trigger] self.workspaces@[j])@ == laid_out(l)(
                        m0.workspaces@[j]@,
                    ),
                forall|j: int| i <= j < n ==> self.workspaces@[j] == m0.workspaces@[j],
            decreases n - i,
        {
            self.workspaces[i].layout = l;
            i = i + 1;
        }
        assert(workspace_views(self.workspaces@) =~= m0@.workspaces.map_values(laid_out(l)));
    }
}

impl State {
    /// Lay out every workspace as `l`, so that the monitors stay in step.
    pub fn set_layout(&mut self, l: LayoutKind)
        ensures
            final(self)@ == (StateV {
                monitors: old(self)@.monitors.map_values(all_laid_out(l)),
                ..old(self)@
            }),
    {
        let n: usize = self.monitors.len();
        let ghost s0 = *self;
        let mut i: usize = 0;
        while i < n
            invariant
                i <= n,
                n == self.monitors.len(),
                n == s0.monitors.len(),
                *self == (State { monitors: self.monitors, ..s0 }),
                forall|j: int|
                    0 <= j < i ==> (#[trigger] self.monitors@[j])@ == all_laid_out(l)(
                        s0.monitors@[j]@,
                    ),
                forall|j: int| i <= j < n ==> self.monitors@[j] == s0.monitors@[j],
            decreases n - i,
        {
            self.monitors[i].lay_out(l);
            i = i + 1;
        }
        assert(self@.monitors =~= s0@.monitors.map_values(all_laid_out(l)));
    }

    /// Lay out every workspace in the layout after that of the one on show.
    pub fn cycle_layout(&mut self)
        requires
            old(self)@.shows(old(self).sel_mon as int),
        ensures
            ({
                let st = old(self)@;
                let l = st.monitors[st.sel_mon].ws().layout.following();
                final(self)@ == (StateV {
                    monitors: st.monitors.map_values(all_laid_out(l)),
                    ..st
                })
            }),
    {
        let mi: usize = self.sel_mon;
        assert(self@.monitors[mi as int] == self.monitors@[mi as int]@);
        let wi: usize = self.monitors[mi].active_ws;
        let l: LayoutKind = self.monitors[mi].workspaces[wi].layout.next();
        self.set_layout(l);
    }
}

/// Cycling through the layouts comes round to every one of them.
pub proof fn layouts_come_round(l: LayoutKind)
    ensures
        l.following().following().following() == l,
        l.following() != l,
        l.following().following() != l,
{
}

// ---- Carrying an action out -------------------------------------------------

/// What is left to do once an action has changed the state.
#[derive(Debug, Clone, Copy, PartialEq, Eq)]
pub enum Followup {
    Nothing,
    /// Run the command line of the action.
    Spawn,
    /// Close the window.
    Kill(WindowId),
    Focus(FocusMove),
    /// Move the focused window along the ribbon.
    Move(Dir),
    /// Scroll the ribbon by a page.
    Page(Dir),
    /// Show the bar of the monitor, or hide it.
    Bar(usize),
    Fullscreen(WindowId, FullscreenChange),
    /// Lay the monitor out anew.
    Arrange(usize),
    /// Lay every monitor out anew.
    ArrangeAll,
    /// The window has a column of its own: lay out and focus it.
    NewColumn(WindowId),
    /// Another workspace is on show: lay it out, focus its best window and
    /// publish its number.
    Viewed(usize),
    /// The window is on another workspace: lay out and publish its number.
    Sent(WindowId, usize),
    /// Another monitor is selected: draw the window left behind unfocused and
    /// focus the best one of that monitor.
    Selected(Option<WindowId>, usize),
    /// The window went from the first monitor to the second: lay both out.
    Carried(WindowId, usize, usize),
    Restart,
    Stop,
    /// Ask for confirmation, and stop if it is given.
    AskToStop,
}

/// What an action needs of the state: a selected monitor, and as far as the action
/// touches it, a workspace on show, room for a column, clients filed under their
/// own windows, and a workspace for the window that is moved.
pub open spec fn actable(st: StateV, a: Action) -> bool {
    let m = st.monitors[st.sel_mon];
    &&& 0 <= st.sel_mon < st.monitors.len()
    &&& match a {
        Action::FocusDir(_)
        | Action::ToggleFloat
        | Action::CycleLayout
        | Action::NewColumn
        | Action::CollapseColumn => st.shows(st.sel_mon),
        Action::GrowCol(_) => st.shows(st.sel_mon) && m.workarea.w >= 100,
        Action::ToggleFullscreen => forall|w: WindowId|
            st.clients.contains_key(w) ==> (#[trigger] st.clients[w]).window == w,
        Action::MoveToWs(_) => m.focused is Some && st.clients.contains_key(m.focused->0)
            ==> st.clients[m.focused->0].workspace < m.workspaces.len(),
        Action::MoveMon(d) => st.monitors.len() > 1 ==> place_exists(st, d),
        _ => true,
    }
}

/// What action `a` does to the state, and what is left to do. `width` is the width
/// of a new column.
pub open spec fn acted(st: StateV, a: Action, width: u32) -> (StateV, Followup) {
    let mi = st.sel_mon;
    let m = st.monitors[mi];
    match a {
        Action::Spawn(_) => (st, Followup::Spawn),
        Action::Kill => (
            st,
            match m.focused {
                Some(w) => Followup::Kill(w),
                None => Followup::Nothing,
            },
        ),
        Action::FocusDir(d) => {
            let (s, r) = focus_moved(st, d);
            (
                s,
                match r {
                    Some(f) => Followup::Focus(f),
                    None => Followup::Nothing,
                },
            )
        },
        Action::MoveDir(d) => (st, Followup::Move(d)),
        Action::PageSnap(d) => (st, Followup::Page(d)),
        Action::ToggleBar => (st, Followup::Bar(mi as usize)),
        Action::ToggleFloat => (
            float_toggled(st, width),
            if m.focused is Some {
                Followup::Arrange(mi as usize)
            } else {
                Followup::Nothing
            },
        ),
        Action::ToggleFullscreen => match m.focused {
            Some(win) => {
                let fs = st.client_on(win, WinFlags::FULLSCREEN);
                (
                    fullscreen_set(st, win, !fs, width),
                    if st.clients.contains_key(win) {
                        let c = st.clients[win];
                        Followup::Fullscreen(
                            win,
                            FullscreenChange {
                                monitor: c.monitor,
                                workspace: c.workspace,
                                recenter: !fullscreened(c, !fs).true_fullscreen(),
                            },
                        )
                    } else {
                        Followup::Nothing
                    },
                )
            },
            None => (st, Followup::Nothing),
        },
        Action::SetLayout(l) => (
            StateV { monitors: st.monitors.map_values(all_laid_out(l)), ..st },
            Followup::ArrangeAll,
        ),
        Action::CycleLayout => (
            StateV {
                monitors: st.monitors.map_values(all_laid_out(m.ws().layout.following())),
                ..st
            },
            Followup::ArrangeAll,
        ),
        Action::GrowCol(px) => (
            st.with_mon(mi, m.with_ws(m.active_ws, column_grown(m.ws(), px, m.workarea.w))),
            Followup::Arrange(mi as usize),
        ),
        Action::NewColumn => match m.focused {
            Some(win) => if st.clients.contains_key(win) && !st.clients[win].floats() {
                (
                    st.with_mon(
                        mi,
                        m.with_ws(m.active_ws, m.ws().remove_window(win).add_tiled(win, width)),
                    ),
                    Followup::NewColumn(win),
                )
            } else {
                (st, Followup::Nothing)
            },
            None => (st, Followup::Nothing),
        },
        Action::CollapseColumn => if can_collapse(m.ws()) {
            (
                st.with_mon(mi, m.with_ws(m.active_ws, collapsed(m.ws()))),
                Followup::Arrange(mi as usize),
            )
        } else {
            (st, Followup::Nothing)
        },
        Action::View(wi) => if wi < m.workspaces.len() && wi != m.active_ws {
            (
                st.with_mon(mi, MonitorV { active_ws: wi as int, ..m }),
                Followup::Viewed(wi),
            )
        } else {
            (st, Followup::Nothing)
        },
        Action::MoveToWs(wi) => {
            let (s, r) = moved_to_ws(st, wi as int, width);
            (
                s,
                match r {
                    Some(win) => Followup::Sent(win, wi),
                    None => Followup::Nothing,
                },
            )
        },
        Action::FocusMon(d) => if st.monitors.len() <= 1 {
            (st, Followup::Nothing)
        } else {
            let to = beside_monitor(st, d);
            (StateV { sel_mon: to, ..st }, Followup::Selected(m.focused, to as usize))
        },
        Action::MoveMon(d) => {
            let (s, r) = moved_to_mon(st, d, width);
            (
                s,
                match r {
                    Some((win, from, to)) => Followup::Carried(win, from, to),
                    None => Followup::Nothing,
                },
            )
        },
        Action::Restart => (st, Followup::Restart),
        Action::Quit => (StateV { running: false, ..st }, Followup::Stop),
        Action::QuitConfirm => (st, Followup::AskToStop),
    }
}

impl State {
    /// Carry out an action, as far as the state goes. Returns what is left to do.
    pub fn do_action(&mut self, action: &Action, width: u32) -> (r: Followup)
        requires
            actable(old(self)@, *action),
        ensures
            (final(self)@, r) == acted(old(self)@, *action, width),
    {
        let mi: usize = self.sel_mon;
        let ghost st = self@;
        assert(st.monitors[mi as int] == self.monitors@[mi as int]@);
        match action {
            Action::Spawn(_) => Followup::Spawn,
            Action::Kill => match self.monitors[mi].focused {
                Some(w) => Followup::Kill(w),
                None => Followup::Nothing,
            },
            Action::FocusDir(d) => match self.focus_dir(*d) {
                Some(f) => Followup::Focus(f),
                None => Followup::Nothing,
            },
            Action::MoveDir(d) => Followup::Move(*d),
            Action::PageSnap(d) => Followup::Page(*d),
            Action::ToggleBar => Followup::Bar(mi),
            Action::ToggleFloat => match self.toggle_float(width) {
                Some(m) => Followup::Arrange(m),
                None => Followup::Nothing,
            },
            Action::ToggleFullscreen => match self.toggle_fullscreen(width) {
                Some((win, ch)) => Followup::Fullscreen(win, ch),
                None => Followup::Nothing,
            },
            Action::SetLayout(l) => {
                self.set_layout(*l);
                Followup::ArrangeAll
            },
            Action::CycleLayout => {
                self.cycle_layout();
                Followup::ArrangeAll
            },
            Action::GrowCol(px) => {
                let m: usize = self.grow_col(*px);
                Followup::Arrange(m)
            },
            Action::NewColumn => match self.new_column(width) {
                Some(win) => Followup::NewColumn(win),
                None => Followup::Nothing,
            },
            Action::CollapseColumn => match self.collapse_col() {
                Some(m) => Followup::Arrange(m),
                None => Followup::Nothing,
            },
            Action::View(wi) => if self.view_ws(*wi) {
                Followup::Viewed(*wi)
            } else {
                Followup::Nothing
            },
            Action::MoveToWs(wi) => match self.move_to_ws(*wi, width) {
                Some(win) => Followup::Sent(win, *wi),
                None => Followup::Nothing,
            },
            Action::FocusMon(d) => match self.focus_mon(*d) {
                Some((left, to)) => Followup::Selected(left, to),
                None => Followup::Nothing,
            },
            Action::MoveMon(d) => match self.move_mon(*d, width) {
                Some((win, from, to)) => Followup::Carried(win, from, to),
                None => Followup::Nothing,
            },
            Action::Restart => Followup::Restart,
            Action::Quit => {
                self.running = false;
                Followup::Stop
            },
            Action::QuitConfirm => Followup::AskToStop,
        }
    }
}

// ---- What the actions keep --------------------------------------------------

proof fn fullscreen_keeps_the_clients(st: StateV, win: WindowId, fs: bool, width: u32)
    ensures
        fullscreen_set(st, win, fs, width).clients.dom() == st.clients.dom(),
        fullscreen_set(st, win, fs, width).monitors.len() == st.monitors.len(),
        fullscreen_set(st, win, fs, width).sel_mon == st.sel_mon,
{
    let s = fullscreen_set(st, win, fs, width);
    assert(s.clients.dom() =~= st.clients.dom());
}

/// No action starts to manage a window or lets one go, and a monitor that exists
/// is selected after it.
pub proof fn actions_keep_the_clients(st: StateV, a: Action, width: u32)
    requires
        actable(st, a),
    ensures
        acted(st, a, width).0.clients.dom() == st.clients.dom(),
        acted(st, a, width).0.monitors.len() == st.monitors.len(),
        0 <= acted(st, a, width).0.sel_mon < st.monitors.len(),
{
    match a {
        Action::ToggleFullscreen => {
            if let Some(win) = st.monitors[st.sel_mon].focused {
                fullscreen_keeps_the_clients(
                    st,
                    win,
                    !st.client_on(win, WinFlags::FULLSCREEN),
                    width,
                );
            }
        },
        Action::ToggleFloat => {
            assert(float_toggled(st, width).clients.dom() =~= st.clients.dom());
        },
        Action::MoveToWs(wi) => {
            assert(moved_to_ws(st, wi as int, width).0.clients.dom() =~= st.clients.dom());
        },
        Action::MoveMon(d) => {
            assert(moved_to_mon(st, d, width).0.clients.dom() =~= st.clients.dom());
        },
        _ => {},
    }
}

/// Emptying a column into its neighbour loses no window: what was a tile of the
/// workspace is one still.
pub proof fn collapsing_keeps_every_window(ws: WorkspaceV, win: WindowId)
    requires
        can_collapse(ws),
        ws.holds(win),
    ensures
        collapsed(ws).holds(win),
{
    let ci = ws.column_idx;
    let a = ws.columns[ci - 1];
    let b = ws.columns[ci];
    let joint = ColumnV { windows: a.windows + b.windows, ..a };
    let mid = ws.columns.update(ci - 1, joint).update(
        ci,
        ColumnV { windows: Seq::empty(), ..b },
    );
    if !ws.floats.contains(win) {
        let i = choose|i: int|
            0 <= i < ws.columns.len() && (#[trigger] ws.columns[i]).windows.contains(win);
        let k = if i == ci {
            ci - 1
        } else {
            i
        };
        let c = mid[k];
        let j = choose|j: int|
            0 <= j < ws.columns[i].windows.len() && ws.columns[i].windows[j] == win;
        if i == ci {
            assert(joint.windows[a.windows.len() + j] == win);
        } else if i == ci - 1 {
            assert(joint.windows[j] == win);
        }
        assert(c.windows.contains(win));
        assert(occupied()(c)) by {
            let t = choose|t: int| 0 <= t < c.windows.len() && c.windows[t] == win;
            assert(0 <= t < c.windows.len());
        }
        mid.lemma_filter_contains(occupied(), k);
        let cols = collapsed(ws).columns;
        let t = choose|t: int| 0 <= t < cols.len() && cols[t] == c;
        assert(cols[t].windows.contains(win));
    }
}

/// A window sent to another workspace is on that workspace and no longer on the
/// one it left.
pub proof fn moved_window_changes_its_workspace(st: StateV, wi: usize, width: u32)
    requires
        0 <= st.sel_mon < st.monitors.len(),
        moved_to_ws(st, wi as int, width).1 is Some,
        st.monitors[st.sel_mon].workspaces[wi as int].column_idx >= 0,
        st.clients[st.monitors[st.sel_mon].focused->0].workspace < st.monitors[st.sel_mon].workspaces.len(),
    ensures
        ({
            let win = st.monitors[st.sel_mon].focused->0;
            let after = moved_to_ws(st, wi as int, width).0;
            let m = after.monitors[st.sel_mon];
            &&& m.workspaces[wi as int].holds(win)
            &&& !m.workspaces[st.clients[win].workspace as int].holds(win)
            &&& after.clients[win].workspace == wi
        }),
{
    let m = st.monitors[st.sel_mon];
    let win = m.focused->0;
    let c = st.clients[win];
    let src = c.workspace as int;
    crate::workspace::removed_window_is_not_held(m.workspaces[src], win);
    let w = m.workspaces[wi as int];
    let after = joined_by(w, win, c.floats(), width);
    if c.floats() {
        assert(after.floats.last() == win);
    } else {
        let col = after.columns[w.insert_pos()];
        assert(col.windows[0] == win);
        assert(col.windows.contains(win));
    }
}

/// Floating a tiled window and tiling it again leaves its flags as they were.
pub proof fn floating_twice_keeps_the_flags(st: StateV, width: u32)
    requires
        0 <= st.sel_mon < st.monitors.len(),
        st.shows(st.sel_mon),
        st.monitors[st.sel_mon].focused is Some,
        st.clients.contains_key(st.monitors[st.sel_mon].focused->0),
    ensures
        ({
            let win = st.monitors[st.sel_mon].focused->0;
            let twice = float_toggled(float_toggled(st, width), width);
            twice.clients[win].floats() == st.clients[win].floats() && float_toggled(
                st,
                width,
            ).clients[win].floats() != st.clients[win].floats()
        }),
{
    let win = st.monitors[st.sel_mon].focused->0;
    let f = st.clients[win].flags;
    assert(1u16 & 0u16 == 0) by (bit_vector);
    crate::model::flags_are_independent(f, WinFlags::FLOAT, 0);
    crate::model::flags_are_independent(f.with(WinFlags::FLOAT), WinFlags::FLOAT, 0);
    crate::model::flags_are_independent(f.less(WinFlags::FLOAT), WinFlags::FLOAT, 0);
}

// ---- What the actions do ----------------------------------------------------

proof fn going_round(i: int, n: int)
    requires
        0 <= i,
        n > 0,
    ensures
        after_index(i, n) == (i + 1) % n,
        before_index(i, n) == (i + n - 1) % n,
        0 <= after_index(i, n) < n,
        0 <= before_index(i, n) < n,
{
    let k = i % n;
    let q = i / n;
    assert(i == n * q + k && 0 <= k < n) by (nonlinear_arith)
        requires
            i >= 0,
            n > 0,
            k == i % n,
            q == i / n,
    ;
    if k + 1 == n {
        assert((i + 1) % n == 0) by (nonlinear_arith)
            requires
                i == n * q + k,
                k + 1 == n,
                n > 0,
        ;
    } else {
        assert((i + 1) % n == k + 1) by (nonlinear_arith)
            requires
                i == n * q + k,
                0 <= k,
                k + 1 < n,
        ;
    }
    if k == 0 {
        assert((i + n - 1) % n == n - 1) by (nonlinear_arith)
            requires
                i == n * q + k,
                k == 0,
                n > 0,
        ;
    } else {
        assert((i + n - 1) % n == k - 1) by (nonlinear_arith)
            requires
                i == n * q + k,
                0 < k < n,
        ;
    }
}

/// In a column of `n` windows with row `r` focused, moving the focus down focuses
/// row `r + 1`, and moving it up row `r - 1`, each modulo `n`; the window there is
/// the one to focus, and nothing else of the workspace or of any monitor changes.
pub proof fn rows_take_the_focus_in_turn(st: StateV)
    requires
        st.shows(st.sel_mon),
        ({
            let ws = st.monitors[st.sel_mon].ws();
            &&& 0 <= ws.column_idx < ws.columns.len()
            &&& ws.columns[ws.column_idx].windows.len() > 0
            &&& ws.columns[ws.column_idx].focused >= 0
        }),
    ensures
        ({
            let mi = st.sel_mon;
            let wi = st.monitors[mi].active_ws;
            let ws = st.monitors[mi].workspaces[wi];
            let ci = ws.column_idx;
            let c = ws.columns[ci];
            let n = c.windows.len() as int;
            let down = (c.focused + 1) % n;
            let up = (c.focused + n - 1) % n;
            let (s, f) = focus_moved(st, Dir::Down);
            let (t, g) = focus_moved(st, Dir::Up);
            &&& s.monitors[mi].workspaces[wi].columns == ws.columns.update(
                ci,
                ColumnV { windows: c.windows, focused: down, width: c.width },
            )
            &&& t.monitors[mi].workspaces[wi].columns == ws.columns.update(
                ci,
                ColumnV { windows: c.windows, focused: up, width: c.width },
            )
            &&& only_the_tree_differs(st, s, mi, wi) && only_the_tree_differs(st, t, mi, wi)
            &&& s.monitors[mi].workspaces[wi].column_idx == ci
            &&& t.monitors[mi].workspaces[wi].column_idx == ci
            &&& f == Some(FocusMove { arrange: true, window: Some(c.windows[down]) })
            &&& g == Some(FocusMove { arrange: true, window: Some(c.windows[up]) })
        }),
{
    let ws = st.monitors[st.sel_mon].ws();
    let c = ws.columns[ws.column_idx];
    going_round(c.focused, c.windows.len() as int);
}

/// Moving the focus up undoes moving it down, and the other way round.
pub proof fn up_undoes_down(st: StateV)
    requires
        st.shows(st.sel_mon),
        ({
            let ws = st.monitors[st.sel_mon].ws();
            &&& 0 <= ws.column_idx < ws.columns.len()
            &&& 0 <= ws.columns[ws.column_idx].focused < ws.columns[ws.column_idx].windows.len()
        }),
    ensures
        focus_moved(focus_moved(st, Dir::Down).0, Dir::Up).0 == st,
        focus_moved(focus_moved(st, Dir::Up).0, Dir::Down).0 == st,
{
    let m = st.monitors[st.sel_mon];
    let ws = m.ws();
    let c = ws.columns[ws.column_idx];
    let n = c.windows.len() as int;
    there_and_back(c.focused, n);
    let s = focus_moved(focus_moved(st, Dir::Down).0, Dir::Up).0;
    let t = focus_moved(focus_moved(st, Dir::Up).0, Dir::Down).0;
    going_round(c.focused, n);
    assert(s.monitors[st.sel_mon].ws().columns =~= ws.columns);
    assert(t.monitors[st.sel_mon].ws().columns =~= ws.columns);
    assert(s.monitors[st.sel_mon].workspaces =~= m.workspaces);
    assert(t.monitors[st.sel_mon].workspaces =~= m.workspaces);
    assert(s.monitors =~= st.monitors);
    assert(t.monitors =~= st.monitors);
}

/// Of two states, only the columns and the focused column of one workspace differ.
pub open spec fn only_the_tree_differs(a: StateV, b: StateV, mi: int, wi: int) -> bool {
    &&& b.clients == a.clients && b.sel_mon == a.sel_mon && b.running == a.running
    &&& b.pending_transients == a.pending_transients && b.pending_focus == a.pending_focus
    &&& b.x11_input_focus == a.x11_input_focus && b.serial == a.serial
    &&& b.monitors.len() == a.monitors.len()
    &&& forall|i: int| 0 <= i < a.monitors.len() && i != mi ==> #[trigger] b.monitors[i]
        == a.monitors[i]
    &&& b.monitors[mi] == (MonitorV { workspaces: b.monitors[mi].workspaces, ..a.monitors[mi] })
    &&& b.monitors[mi].workspaces.len() == a.monitors[mi].workspaces.len()
    &&& forall|i: int|
        0 <= i < a.monitors[mi].workspaces.len() && i != wi ==> #[trigger]
        b.monitors[mi].workspaces[i] == a.monitors[mi].workspaces[i]
    &&& b.monitors[mi].workspaces[wi] == (WorkspaceV {
        columns: b.monitors[mi].workspaces[wi].columns,
        column_idx: b.monitors[mi].workspaces[wi].column_idx,
        ..a.monitors[mi].workspaces[wi]
    })
}

/// With column `c` of `n` focused, moving the focus right focuses column `c + 1`,
/// and moving it left column `c - 1`, each modulo `n`; the focused window of that
/// column is the one to focus, and the columns stay as they are.
pub proof fn columns_take_the_focus_in_turn(st: StateV)
    requires
        st.shows(st.sel_mon),
        st.monitors[st.sel_mon].ws().columns.len() > 0,
        st.monitors[st.sel_mon].ws().column_idx >= 0,
    ensures
        ({
            let mi = st.sel_mon;
            let wi = st.monitors[mi].active_ws;
            let ws = st.monitors[mi].workspaces[wi];
            let n = ws.columns.len() as int;
            let right = (ws.column_idx + 1) % n;
            let left = (ws.column_idx + n - 1) % n;
            let (s, f) = focus_moved(st, Dir::Right);
            let (t, g) = focus_moved(st, Dir::Left);
            &&& s.monitors[mi].workspaces[wi].column_idx == right
            &&& t.monitors[mi].workspaces[wi].column_idx == left
            &&& s.monitors[mi].workspaces[wi].columns == ws.columns
            &&& t.monitors[mi].workspaces[wi].columns == ws.columns
            &&& only_the_tree_differs(st, s, mi, wi) && only_the_tree_differs(st, t, mi, wi)
            &&& f == Some(FocusMove { arrange: true, window: ws.columns[right].focused_win() })
            &&& g == Some(FocusMove { arrange: true, window: ws.columns[left].focused_win() })
        }),
{
    let ws = st.monitors[st.sel_mon].ws();
    going_round(ws.column_idx, ws.columns.len() as int);
}

/// There is nowhere to go on an empty ribbon, in an empty column or in an empty
/// history, and then nothing changes.
pub proof fn nowhere_to_go_changes_nothing(st: StateV, dir: Dir)
    requires
        st.shows(st.sel_mon),
    ensures
        ({
            let m = st.monitors[st.sel_mon];
            let ws = m.workspaces[m.active_ws];
            &&& (dir == Dir::Left || dir == Dir::Right) && ws.columns.len() == 0 ==> focus_moved(
                st,
                dir,
            ) == (st, None::<FocusMove>)
            &&& (dir == Dir::Up || dir == Dir::Down) && (ws.column_idx >= ws.columns.len()
                || ws.columns[ws.column_idx].windows.len() == 0) ==> focus_moved(st, dir) == (
                st,
                None::<FocusMove>,
            )
            &&& (dir == Dir::Next || dir == Dir::Prev) && m.focus_stack.len() == 0
                ==> focus_moved(st, dir) == (st, None::<FocusMove>)
        }),
{
}

/// `Next` and `Prev` go to the window one place on and one place back in the
/// order of focus, round and round, and leave the state alone.
pub proof fn history_is_walked_in_order(st: StateV, k: int)
    requires
        st.shows(st.sel_mon),
        ({
            let m = st.monitors[st.sel_mon];
            &&& m.focus_stack.no_duplicates()
            &&& 0 <= k < m.focus_stack.len()
            &&& m.focused == Some(m.focus_stack[k])
        }),
    ensures
        ({
            let h = st.monitors[st.sel_mon].focus_stack;
            let n = h.len() as int;
            &&& focus_moved(st, Dir::Next) == (
                st,
                Some(FocusMove { arrange: false, window: Some(h[(k + 1) % n]) }),
            )
            &&& focus_moved(st, Dir::Prev) == (
                st,
                Some(FocusMove { arrange: false, window: Some(h[(k + n - 1) % n]) }),
            )
        }),
{
    let h = st.monitors[st.sel_mon].focus_stack;
    crate::seqs::first_index_is(h, h[k], k);
    going_round(k, h.len() as int);
}

/// A column grows by just the pixels asked for, as long as it stays at least 100
/// wide and leaves 100 of the work area free; past that it stops at the limit.
/// Every other column and everything else stays.
pub proof fn column_grows_by_the_pixels_asked(ws: WorkspaceV, px: i32, room: u32)
    requires
        0 <= ws.column_idx < ws.columns.len(),
        room >= 100,
    ensures
        ({
            let c = ws.columns[ws.column_idx];
            let after = column_grown(ws, px, room);
            let d = after.columns[ws.column_idx];
            &&& 100 <= c.width + px <= room - 100 ==> d.width == c.width + px
            &&& room >= 200 && c.width + px < 100 ==> d.width == 100
            &&& c.width + px > room - 100 ==> d.width == room - 100
            &&& d.width <= room - 100
            &&& d.windows == c.windows && d.focused == c.focused
            &&& after.columns.len() == ws.columns.len()
            &&& forall|i: int|
                0 <= i < ws.columns.len() && i != ws.column_idx ==> #[trigger] after.columns[i]
                    == ws.columns[i]
            &&& after.floats == ws.floats && after.column_idx == ws.column_idx && after.layout
                == ws.layout && after.presented_maximize == ws.presented_maximize
        }),
{
}

/// Collapsing a column appends its windows to those of the column before it,
/// which gets the focus; the emptied column goes, and no other one changes.
pub proof fn collapsed_column_joins_the_one_before(ws: WorkspaceV)
    requires
        0 < ws.column_idx < ws.columns.len(),
        forall|i: int| 0 <= i < ws.columns.len() ==> (#[trigger] ws.columns[i]).windows.len() > 0,
    ensures
        can_collapse(ws),
        ({
            let ci = ws.column_idx;
            let after = collapsed(ws);
            let a = ws.columns[ci - 1];
            &&& after.columns.len() == ws.columns.len() - 1
            &&& after.columns[ci - 1].windows == a.windows + ws.columns[ci].windows
            &&& after.columns[ci - 1].width == a.width
            &&& after.columns[ci - 1].focused == a.focused
            &&& after.column_idx == ci - 1
            &&& forall|i: int| 0 <= i < ci - 1 ==> #[trigger] after.columns[i] == ws.columns[i]
            &&& forall|i: int|
                ci <= i < after.columns.len() ==> #[trigger] after.columns[i] == ws.columns[i + 1]
            &&& after.floats == ws.floats && after.layout == ws.layout
                && after.presented_maximize == ws.presented_maximize
        }),
{
    let ci = ws.column_idx;
    let a = ws.columns[ci - 1];
    let b = ws.columns[ci];
    let merged = ws.columns.update(
        ci - 1,
        ColumnV { windows: a.windows + b.windows, ..a },
    ).update(ci, ColumnV { windows: Seq::empty(), ..b });
    assert forall|i: int| 0 <= i < merged.len() && i != ci implies occupied()(
        #[trigger] merged[i],
    ) by {
        assert(ws.columns[i].windows.len() > 0);
    }
    crate::seqs::filter_drops_one(merged, occupied(), ci);
}

/// There is nothing to collapse the first column into.
pub proof fn first_column_does_not_collapse(ws: WorkspaceV)
    requires
        ws.column_idx == 0 || ws.column_idx >= ws.columns.len(),
    ensures
        !can_collapse(ws),
{
}

/// A window whose place was taken from a workspace and given anew stands in one of
/// its columns just where it is tiled, and among its floats just where it floats;
/// the other windows of the workspace stay what they were.
pub proof fn placed_window_is_a_tile_or_a_float(
    ws: WorkspaceV,
    win: WindowId,
    float: bool,
    width: u32,
)
    requires
        ws.column_idx >= 0,
        !ws.tiles(win),
        !ws.floats.contains(win),
    ensures
        ({
            let after = joined_by(ws, win, float, width);
            &&& after.tiles(win) == !float
            &&& after.floats.contains(win) == float
            &&& forall|x: WindowId| x != win ==> after.tiles(x) == #[trigger] ws.tiles(x)
            &&& forall|x: WindowId|
                x != win ==> after.floats.contains(x) == #[trigger] ws.floats.contains(x)
            &&& after.layout == ws.layout && after.presented_maximize == ws.presented_maximize
            &&& !float ==> after.focused_win() == Some(win)
            &&& float ==> after.columns == ws.columns && after.column_idx == ws.column_idx
        }),
{
    let after = joined_by(ws, win, float, width);
    if float {
        assert(after.floats[ws.floats.len() as int] == win);
        assert forall|x: WindowId| x != win implies after.floats.contains(x)
            == #[trigger] ws.floats.contains(x) by {
            if ws.floats.contains(x) {
                let i = choose|i: int| 0 <= i < ws.floats.len() && ws.floats[i] == x;
                assert(after.floats[i] == x);
            }
        }
    } else {
        crate::workspace::tiled_window_opens_a_column(ws, win, width);
    }
}

/// Toggling makes the focused window float if it was a tile and a tile if it
/// floated: its flag says so, and it stands among the floats or in a column
/// accordingly. No other window changes its place, and no other client changes.
pub proof fn toggled_window_changes_sides(st: StateV, width: u32)
    requires
        st.shows(st.sel_mon),
        st.monitors[st.sel_mon].focused is Some,
        st.clients.contains_key(st.monitors[st.sel_mon].focused->0),
        st.monitors[st.sel_mon].ws().column_idx >= 0,
    ensures
        ({
            let mi = st.sel_mon;
            let m = st.monitors[mi];
            let win = m.focused->0;
            let was = st.clients[win].floats();
            let after = float_toggled(st, width);
            let ws = m.workspaces[m.active_ws];
            let now = after.monitors[mi].workspaces[m.active_ws];
            &&& after.clients[win].floats() == !was
            &&& now.tiles(win) == was
            &&& now.floats.contains(win) == !was
            &&& forall|x: WindowId| x != win ==> now.tiles(x) == #[trigger] ws.tiles(x)
            &&& forall|x: WindowId|
                x != win ==> now.floats.contains(x) == #[trigger] ws.floats.contains(x)
            &&& after.clients.dom() == st.clients.dom()
            &&& forall|x: WindowId|
                x != win && st.clients.contains_key(x) ==> #[trigger] after.clients[x]
                    == st.clients[x]
            &&& after.clients[win] == (Client { flags: after.clients[win].flags, ..st.clients[win] })
            &&& after.monitors.len() == st.monitors.len() && after.sel_mon == st.sel_mon
            &&& forall|i: int|
                0 <= i < st.monitors.len() && i != mi ==> #[trigger] after.monitors[i]
                    == st.monitors[i]
        }),
{
    let mi = st.sel_mon;
    let m = st.monitors[mi];
    let win = m.focused->0;
    let was = st.clients[win].floats();
    let rest = m.ws().remove_window(win);
    crate::workspace::removal_touches_no_other_window(m.ws(), win);
    placed_window_is_a_tile_or_a_float(rest, win, !was, width);
    let after = float_toggled(st, width);
    assert(after.clients.dom() =~= st.clients.dom());
    crate::model::flag_is_as_it_was_set(st.clients[win].flags, WinFlags::FLOAT);
}

/// The focused window is sent just where it is managed and the workspace asked for
/// is another one of the monitor. Then it leaves the workspace it was on, and
/// stands on the new one as the tile or the float that it is; the client knows its
/// new workspace, and the window focused before it takes the focus. No other window
/// moves, no other workspace, monitor or client changes, and another workspace does
/// not come on show.
pub proof fn sent_window_arrives_alone(st: StateV, wi: int, width: u32)
    requires
        0 <= st.sel_mon < st.monitors.len(),
        0 <= wi <= usize::MAX,
        ({
            let m = st.monitors[st.sel_mon];
            &&& m.focused is Some && st.clients.contains_key(m.focused->0) ==> {
                &&& st.clients[m.focused->0].workspace < m.workspaces.len()
                &&& wi < m.workspaces.len() ==> !m.workspaces[wi].tiles(m.focused->0)
                    && !m.workspaces[wi].floats.contains(m.focused->0)
            }
            &&& m.focus_stack.no_duplicates()
            &&& wi < m.workspaces.len() ==> m.workspaces[wi].column_idx >= 0
        }),
    ensures
        ({
            let mi = st.sel_mon;
            let m = st.monitors[mi];
            let (after, sent) = moved_to_ws(st, wi, width);
            let goes = m.focused is Some && st.clients.contains_key(m.focused->0)
                && st.clients[m.focused->0].workspace != wi && wi < m.workspaces.len();
            let win = m.focused->0;
            let from = st.clients[win].workspace as int;
            let n = after.monitors[mi];
            &&& !goes ==> sent is None && after == st
            &&& goes ==> {
                &&& sent == Some(win)
                &&& after.clients[win].workspace == wi
                &&& after.clients[win] == (Client {
                    workspace: after.clients[win].workspace,
                    ..st.clients[win]
                })
                &&& after.clients.dom() == st.clients.dom()
                &&& forall|x: WindowId|
                    x != win && st.clients.contains_key(x) ==> #[trigger] after.clients[x]
                        == st.clients[x]
                &&& n.workspaces[wi].tiles(win) == !st.clients[win].floats()
                &&& n.workspaces[wi].floats.contains(win) == st.clients[win].floats()
                &&& !n.workspaces[from].tiles(win) && !n.workspaces[from].floats.contains(win)
                &&& n.workspaces.len() == m.workspaces.len()
                &&& forall|k: int, x: WindowId|
                    0 <= k < m.workspaces.len() && x != win ==> (#[trigger]
                    n.workspaces[k].tiles(x)) == m.workspaces[k].tiles(x)
                &&& forall|k: int, x: WindowId|
                    0 <= k < m.workspaces.len() && x != win ==> (#[trigger]
                    n.workspaces[k].floats.contains(x)) == m.workspaces[k].floats.contains(x)
                &&& forall|k: int|
                    0 <= k < m.workspaces.len() && k != wi && k != from ==> #[trigger]
                    n.workspaces[k] == m.workspaces[k]
                &&& n.active_ws == m.active_ws && n.screen == m.screen && n.workarea
                    == m.workarea
                &&& !n.focus_stack.contains(win)
                &&& n.focus_stack.len() > 0 ==> n.focused == Some(n.focus_stack.last())
                &&& n.focus_stack.len() == 0 ==> n.focused is None
                &&& forall|x: WindowId|
                    x != win ==> n.focus_stack.contains(x) == #[trigger] m.focus_stack.contains(x)
                &&& after.sel_mon == mi && after.monitors.len() == st.monitors.len()
                &&& forall|i: int|
                    0 <= i < st.monitors.len() && i != mi ==> #[trigger] after.monitors[i]
                        == st.monitors[i]
            }
        }),
{
    let mi = st.sel_mon;
    let m = st.monitors[mi];
    let win = m.focused->0;
    if m.focused is Some && st.clients.contains_key(win) && st.clients[win].workspace != wi && wi
        < m.workspaces.len() {
        let from = st.clients[win].workspace as int;
        let lost = monitor_lost(m, from, win);
        let after = moved_to_ws(st, wi, width).0;
        let n = after.monitors[mi];
        crate::workspace::removal_touches_no_other_window(m.workspaces[from], win);
        crate::seqs::without_contains(m.focus_stack, win);
        placed_window_is_a_tile_or_a_float(
            m.workspaces[wi],
            win,
            st.clients[win].floats(),
            width,
        );
        assert(lost.workspaces[wi] == m.workspaces[wi]);
        assert(n.workspaces[from] == m.workspaces[from].remove_window(win));
        assert(after.clients.dom() =~= st.clients.dom());
        assert forall|k: int, x: WindowId| 0 <= k < m.workspaces.len() && x != win implies (
        #[trigger] n.workspaces[k].tiles(x)) == m.workspaces[k].tiles(x) by {
            if k != wi && k != from {
                assert(n.workspaces[k] == m.workspaces[k]);
            }
        }
        assert forall|k: int, x: WindowId| 0 <= k < m.workspaces.len() && x != win implies (
        #[trigger] n.workspaces[k].floats.contains(x)) == m.workspaces[k].floats.contains(x) by {
            if k != wi && k != from {
                assert(n.workspaces[k] == m.workspaces[k]);
            }
        }
    }
}

/// With monitor `i` of `n` selected, the monitor after it is `i + 1` and the one
/// before it `i - 1`, each modulo `n`; going to the next one and back returns.
pub proof fn monitors_are_taken_in_turn(st: StateV, dir: Dir)
    requires
        0 <= st.sel_mon < st.monitors.len(),
    ensures
        dir != Dir::Prev ==> beside_monitor(st, dir) == (st.sel_mon + 1) % (
        st.monitors.len() as int),
        dir == Dir::Prev ==> beside_monitor(st, dir) == (st.sel_mon + st.monitors.len() - 1) % (
        st.monitors.len() as int),
        0 <= beside_monitor(st, dir) < st.monitors.len(),
        beside_monitor(StateV { sel_mon: beside_monitor(st, Dir::Next), ..st }, Dir::Prev)
            == st.sel_mon,
        st.monitors.len() > 1 ==> beside_monitor(st, dir) != st.sel_mon,
{
    let n = st.monitors.len() as int;
    going_round(st.sel_mon, n);
    there_and_back(st.sel_mon, n);
    assert(st.sel_mon % n == st.sel_mon) by (nonlinear_arith)
        requires
            0 <= st.sel_mon < n,
    ;
}

/// A window carried to another monitor leaves the one it was on, and stands on the
/// same workspace of the other as the tile or the float that it is; that monitor is
/// selected, the client knows it, and it is last in that monitor's order of focus.
/// No other window moves.
pub proof fn carried_window_arrives_alone(st: StateV, dir: Dir, width: u32)
    requires
        1 < st.monitors.len() <= usize::MAX,
        0 <= st.sel_mon < st.monitors.len(),
        st.monitors[st.sel_mon].focused is Some,
        st.clients.contains_key(st.monitors[st.sel_mon].focused->0),
        place_exists(st, dir),
        ({
            let win = st.monitors[st.sel_mon].focused->0;
            let wi = st.clients[win].workspace as int;
            let w = st.monitors[beside_monitor(st, dir)].workspaces[wi];
            !w.tiles(win) && !w.floats.contains(win) && w.column_idx >= 0
        }),
    ensures
        ({
            let mi = st.sel_mon;
            let m = st.monitors[mi];
            let win = m.focused->0;
            let wi = st.clients[win].workspace as int;
            let to = beside_monitor(st, dir);
            let (after, r) = moved_to_mon(st, dir, width);
            let a = after.monitors[mi];
            let b = after.monitors[to];
            &&& r == Some((win, mi as usize, to as usize))
            &&& after.sel_mon == to && to != mi
            &&& after.clients[win].monitor == to && after.clients[win].workspace == wi
            &&& after.clients[win] == (Client {
                monitor: after.clients[win].monitor,
                ..st.clients[win]
            })
            &&& forall|x: WindowId|
                x != win && st.clients.contains_key(x) ==> #[trigger] after.clients[x]
                    == st.clients[x]
            &&& !a.workspaces[wi].tiles(win) && !a.workspaces[wi].floats.contains(win)
            &&& b.workspaces[wi].tiles(win) == !st.clients[win].floats()
            &&& b.workspaces[wi].floats.contains(win) == st.clients[win].floats()
            &&& forall|x: WindowId|
                x != win ==> a.workspaces[wi].tiles(x) == #[trigger] m.workspaces[wi].tiles(x)
            &&& forall|x: WindowId|
                x != win ==> b.workspaces[wi].tiles(x)
                    == #[trigger] st.monitors[to].workspaces[wi].tiles(x)
            &&& forall|k: int|
                0 <= k < m.workspaces.len() && k != wi ==> #[trigger] a.workspaces[k]
                    == m.workspaces[k]
            &&& forall|k: int|
                0 <= k < st.monitors[to].workspaces.len() && k != wi ==> #[trigger]
                b.workspaces[k] == st.monitors[to].workspaces[k]
            &&& !a.focus_stack.contains(win)
            &&& a.focus_stack.len() > 0 ==> a.focused == Some(a.focus_stack.last())
            &&& a.focus_stack.len() == 0 ==> a.focused is None
            &&& b.focus_stack.len() > 0 && b.focus_stack.last() == win
            &&& b.focus_stack.drop_last() == st.monitors[to].focus_stack
            &&& forall|i: int|
                0 <= i < st.monitors.len() && i != mi && i != to ==> #[trigger] after.monitors[i]
                    == st.monitors[i]
        }),
{
    let mi = st.sel_mon;
    let m = st.monitors[mi];
    let win = m.focused->0;
    let wi = st.clients[win].workspace as int;
    let to = beside_monitor(st, dir);
    monitors_are_taken_in_turn(st, dir);
    crate::workspace::removal_touches_no_other_window(m.workspaces[wi], win);
    crate::seqs::without_contains(m.focus_stack, win);
    placed_window_is_a_tile_or_a_float(
        st.monitors[to].workspaces[wi],
        win,
        st.clients[win].floats(),
        width,
    );
    let after = moved_to_mon(st, dir, width).0;
    assert(after.monitors[to].focus_stack.drop_last() =~= st.monitors[to].focus_stack);
}

/// With one monitor, or no focused window, none is carried anywhere.
pub proof fn nothing_to_carry_changes_nothing(st: StateV, dir: Dir, width: u32)
    requires
        0 <= st.sel_mon < st.monitors.len(),
        st.monitors.len() == 1 || st.monitors[st.sel_mon].focused is None,
    ensures
        moved_to_mon(st, dir, width) == (st, None::<(WindowId, usize, usize)>),
{
}

/// Each action does what it is named after, and no other action's work: moving
/// the focus, sending and carrying go by their own rules, viewing shows the
/// workspace asked for, selecting a monitor selects the one beside, a layout is
/// set everywhere, and what only reads the state leaves it alone.
pub proof fn actions_do_their_own_work(st: StateV, width: u32, dir: Dir, wi: usize, px: i32)
    requires
        0 <= st.sel_mon < st.monitors.len() <= usize::MAX,
    ensures
        ({
            let mi = st.sel_mon;
            let m = st.monitors[mi];
            let go = focus_moved(st, dir);
            &&& acted(st, Action::FocusDir(dir), width) == (
                go.0,
                if go.1 is Some {
                    Followup::Focus(go.1->0)
                } else {
                    Followup::Nothing
                },
            )
            &&& acted(st, Action::Kill, width).0 == st
            &&& m.focused is Some ==> acted(st, Action::Kill, width).1 == Followup::Kill(
                m.focused->0,
            )
            &&& m.focused is None ==> acted(st, Action::Kill, width).1 == Followup::Nothing
            &&& acted(st, Action::MoveDir(dir), width) == (st, Followup::Move(dir))
            &&& acted(st, Action::PageSnap(dir), width) == (st, Followup::Page(dir))
            &&& acted(st, Action::ToggleBar, width) == (st, Followup::Bar(mi as usize))
            &&& acted(st, Action::ToggleFloat, width).0 == float_toggled(st, width)
            &&& acted(st, Action::Restart, width) == (st, Followup::Restart)
            &&& acted(st, Action::QuitConfirm, width) == (st, Followup::AskToStop)
            &&& acted(st, Action::Quit, width) == (
                StateV { running: false, ..st },
                Followup::Stop,
            )
            &&& acted(st, Action::MoveToWs(wi), width).0 == moved_to_ws(st, wi as int, width).0
            &&& acted(st, Action::MoveMon(dir), width).0 == moved_to_mon(st, dir, width).0
            &&& acted(st, Action::FocusMon(dir), width) == (if st.monitors.len() > 1 {
                (
                    StateV { sel_mon: beside_monitor(st, dir), ..st },
                    Followup::Selected(m.focused, beside_monitor(st, dir) as usize),
                )
            } else {
                (st, Followup::Nothing)
            })
            &&& wi < m.workspaces.len() && wi != m.active_ws ==> {
                let (s, f) = acted(st, Action::View(wi), width);
                &&& f == Followup::Viewed(wi)
                &&& s.monitors[mi].active_ws == wi
                &&& s.monitors[mi] == (MonitorV { active_ws: s.monitors[mi].active_ws, ..m })
                &&& s == (StateV { monitors: s.monitors, ..st })
                &&& s.monitors == st.monitors.update(mi, s.monitors[mi])
            }
            &&& wi >= m.workspaces.len() || wi == m.active_ws ==> acted(
                st,
                Action::View(wi),
                width,
            ) == (st, Followup::Nothing)
            &&& acted(st, Action::GrowCol(px), width).1 == Followup::Arrange(mi as usize)
            &&& st.shows(mi) ==> acted(st, Action::GrowCol(px), width).0.monitors[mi].ws()
                == column_grown(m.ws(), px, m.workarea.w)
            &&& st.shows(mi) && can_collapse(m.ws()) ==> acted(
                st,
                Action::CollapseColumn,
                width,
            ).0.monitors[mi].ws() == collapsed(m.ws())
        }),
{
    let mi = st.sel_mon;
    let m = st.monitors[mi];
    let s = acted(st, Action::View(wi), width).0;
    assert(s.monitors =~= st.monitors.update(mi, s.monitors[mi]));
}

/// Setting a layout lays out every workspace of every monitor that way and changes
/// nothing else of any; cycling sets the one after that of the workspace on show.
pub proof fn layout_is_set_everywhere(st: StateV, l: LayoutKind, width: u32, i: int, k: int)
    requires
        st.shows(st.sel_mon),
        0 <= i < st.monitors.len(),
        0 <= k < st.monitors[i].workspaces.len(),
    ensures
        ({
            let w = st.monitors[i].workspaces[k];
            let set = acted(st, Action::SetLayout(l), width).0;
            let cyc = acted(st, Action::CycleLayout, width).0;
            let m = st.monitors[st.sel_mon];
            let shown = m.workspaces[m.active_ws].layout;
            &&& set.monitors[i].workspaces[k] == (WorkspaceV { layout: l, ..w })
            &&& set.monitors[i] == (MonitorV {
                workspaces: set.monitors[i].workspaces,
                ..st.monitors[i]
            })
            &&& set.monitors[i].workspaces.len() == st.monitors[i].workspaces.len()
            &&& set == (StateV { monitors: set.monitors, ..st })
            &&& set.monitors.len() == st.monitors.len()
            &&& cyc.monitors[i].workspaces[k] == (WorkspaceV {
                layout: cyc.monitors[i].workspaces[k].layout,
                ..w
            })
            &&& shown == LayoutKind::Column ==> cyc.monitors[i].workspaces[k].layout
                == LayoutKind::Monocle
            &&& shown == LayoutKind::Monocle ==> cyc.monitors[i].workspaces[k].layout
                == LayoutKind::Grid
            &&& shown == LayoutKind::Grid ==> cyc.monitors[i].workspaces[k].layout
                == LayoutKind::Column
        }),
{
}

/// A focused tile that is given a column of its own stands there alone, with the
/// width asked for and the focus, and every other window stays a tile or a float as
/// it was. A float gets none.
pub proof fn tile_gets_a_column_of_its_own(st: StateV, width: u32)
    requires
        st.shows(st.sel_mon),
        st.monitors[st.sel_mon].focused is Some,
        st.clients.contains_key(st.monitors[st.sel_mon].focused->0),
        st.monitors[st.sel_mon].ws().column_idx >= 0,
    ensures
        ({
            let mi = st.sel_mon;
            let m = st.monitors[mi];
            let win = m.focused->0;
            let ws = m.workspaces[m.active_ws];
            let (after, f) = acted(st, Action::NewColumn, width);
            let now = after.monitors[mi].workspaces[m.active_ws];
            &&& st.clients[win].floats() ==> after == st && f == Followup::Nothing
            &&& !st.clients[win].floats() ==> {
                &&& f == Followup::NewColumn(win)
                &&& 0 <= now.column_idx < now.columns.len()
                &&& now.columns[now.column_idx].windows =~= seq![win]
                &&& now.columns[now.column_idx].width == width
                &&& now.focused_win() == Some(win)
                &&& !now.floats.contains(win)
                &&& forall|x: WindowId| x != win ==> now.tiles(x) == #[trigger] ws.tiles(x)
                &&& forall|x: WindowId|
                    x != win ==> now.floats.contains(x) == #[trigger] ws.floats.contains(x)
                &&& after.clients == st.clients
            }
        }),
{
    let m = st.monitors[st.sel_mon];
    let win = m.focused->0;
    crate::workspace::removal_touches_no_other_window(m.ws(), win);
    crate::workspace::tiled_window_opens_a_column(m.ws().remove_window(win), win, width);
}

} // verus!
