//! The tree of monitors, workspaces and columns, and the operations on it.

use crate::model::{LayoutKind, WindowId};
use crate::seqs::{contains_window, copy_windows, filter_take_step, without, without_window};
use vstd::prelude::*;

verus! {

/// One column of the ribbon: windows top to bottom, the row that is focused,
/// and the column's width in pixels.
#[derive(Debug)]
pub struct Column {
    pub windows: Vec<WindowId>,
    pub focused: usize,
    pub width: u32,
}

/// A [`Column`], mathematically.
pub struct ColumnV {
    pub windows: Seq<WindowId>,
    pub focused: int,
    pub width: u32,
}

impl View for Column {
    type V = ColumnV;

    open spec fn view(&self) -> ColumnV {
        ColumnV { windows: self.windows@, focused: self.focused as int, width: self.width }
    }
}

/// `i` brought into the range of a list of length `n`; 0 for an empty list.
pub open spec fn clamp_index(i: int, n: int) -> int {
    if n <= 0 {
        0
    } else if i >= n {
        n - 1
    } else {
        i
    }
}

fn clamp_idx(i: usize, n: usize) -> (r: usize)
    ensures
        r == clamp_index(i as int, n as int),
{
    if n == 0 {
        0
    } else if i >= n {
        n - 1
    } else {
        i
    }
}

impl ColumnV {
    /// The window on the focused row.
    pub open spec fn focused_win(self) -> Option<WindowId> {
        if 0 <= self.focused < self.windows.len() {
            Some(self.windows[self.focused])
        } else {
            None
        }
    }

    /// The column after `win` left it: the focused row stays, or becomes the
    /// last one if there are no longer so many.
    pub open spec fn less(self, win: WindowId) -> ColumnV {
        let ws = without(self.windows, win);
        ColumnV { windows: ws, focused: clamp_index(self.focused, ws.len() as int), ..self }
    }
}

impl Column {
    /// A column of the given width with no window in it.
    pub fn new(width: u32) -> (c: Column)
        ensures
            c@ == (ColumnV { windows: Seq::empty(), focused: 0, width }),
    {
        Column { windows: Vec::new(), focused: 0, width }
    }

    /// A column holding just `win`.
    pub fn single(win: WindowId, width: u32) -> (c: Column)
        ensures
            c@ == (ColumnV { windows: seq![win], focused: 0, width }),
    {
        let mut windows: Vec<WindowId> = Vec::new();
        windows.push(win);
        assert(windows@ =~= seq![win]);
        Column { windows, focused: 0, width }
    }

    pub fn focused_win(&self) -> (r: Option<WindowId>)
        ensures
            r == self@.focused_win(),
    {
        if self.focused < self.windows.len() {
            Some(self.windows[self.focused])
        } else {
            None
        }
    }

    fn less(&self, win: WindowId) -> (c: Column)
        ensures
            c@ == self@.less(win),
    {
        let windows: Vec<WindowId> = without_window(&self.windows, win);
        let focused: usize = clamp_idx(self.focused, windows.len());
        Column { windows, focused, width: self.width }
    }

    fn copy(&self) -> (c: Column)
        ensures
            c@ == self@,
    {
        Column { windows: copy_windows(&self.windows), focused: self.focused, width: self.width }
    }
}

/// The columns of a workspace, mathematically.
pub open spec fn column_views(s: Seq<Column>) -> Seq<ColumnV> {
    s.map_values(|c: Column| c@)
}

/// Holds of a column with a window in it.
pub open spec fn occupied() -> spec_fn(ColumnV) -> bool {
    |c: ColumnV| c.windows.len() > 0
}

/// Takes `win` out of a column.
pub open spec fn losing(win: WindowId) -> spec_fn(ColumnV) -> ColumnV {
    |c: ColumnV| c.less(win)
}

/// The columns after `win` left them: a column left empty disappears.
pub open spec fn columns_without(s: Seq<ColumnV>, win: WindowId) -> Seq<ColumnV> {
    s.map_values(losing(win)).filter(occupied())
}

proof fn column_views_push(s: Seq<Column>, c: Column)
    ensures
        column_views(s.push(c)) == column_views(s).push(c@),
{
    assert(column_views(s.push(c)) =~= column_views(s).push(c@));
}

/// Which column of a workspace has the focus.
#[derive(Debug, Clone, Copy, PartialEq, Eq, Structural)]
pub struct Focus {
    pub column_idx: usize,
}

/// One workspace: the tiled ribbon, the floats above it, and the window that
/// is presented maximized.
#[derive(Debug)]
pub struct Workspace {
    pub columns: Vec<Column>,
    pub floats: Vec<WindowId>,
    pub focus: Focus,
    pub layout: LayoutKind,
    pub presented_maximize: Option<WindowId>,
}

/// A [`Workspace`], mathematically.
pub struct WorkspaceV {
    pub columns: Seq<ColumnV>,
    pub floats: Seq<WindowId>,
    pub column_idx: int,
    pub layout: LayoutKind,
    pub presented_maximize: Option<WindowId>,
}

impl View for Workspace {
    type V = WorkspaceV;

    open spec fn view(&self) -> WorkspaceV {
        WorkspaceV {
            columns: column_views(self.columns@),
            floats: self.floats@,
            column_idx: self.focus.column_idx as int,
            layout: self.layout,
            presented_maximize: self.presented_maximize,
        }
    }
}

impl WorkspaceV {
    pub open spec fn empty(layout: LayoutKind) -> WorkspaceV {
        WorkspaceV {
            columns: Seq::empty(),
            floats: Seq::empty(),
            column_idx: 0,
            layout,
            presented_maximize: None,
        }
    }

    pub open spec fn is_empty(self) -> bool {
        self.columns.len() == 0 && self.floats.len() == 0
    }

    /// The focused window of the focused column.
    pub open spec fn focused_win(self) -> Option<WindowId> {
        if 0 <= self.column_idx < self.columns.len() {
            self.columns[self.column_idx].focused_win()
        } else {
            None
        }
    }

    /// Where a new column goes: right after the focused one.
    pub open spec fn insert_pos(self) -> int {
        if self.column_idx + 1 <= self.columns.len() {
            self.column_idx + 1
        } else {
            self.columns.len() as int
        }
    }

    /// `win` opens a column of its own after the focused one and takes the
    /// focus.
    pub open spec fn add_tiled(self, win: WindowId, width: u32) -> WorkspaceV {
        let c = ColumnV { windows: seq![win], focused: 0, width };
        WorkspaceV {
            columns: self.columns.insert(self.insert_pos(), c),
            column_idx: self.insert_pos(),
            ..self
        }
    }

    /// `win` joins the floats, on top.
    pub open spec fn add_float(self, win: WindowId) -> WorkspaceV {
        WorkspaceV { floats: self.floats.push(win), ..self }
    }

    /// `win` leaves the workspace, wherever in it it was.
    pub open spec fn remove_window(self, win: WindowId) -> WorkspaceV {
        let cols = columns_without(self.columns, win);
        WorkspaceV {
            columns: cols,
            floats: without(self.floats, win),
            column_idx: clamp_index(self.column_idx, cols.len() as int),
            ..self
        }
    }

    /// `win` joins column `ci` at row `row` (at its end, if it has fewer) and
    /// takes the focus.
    pub open spec fn drop_into_column(self, ci: int, win: WindowId, row: int) -> WorkspaceV {
        if 0 <= ci < self.columns.len() {
            let c = self.columns[ci];
            let r = if row <= c.windows.len() {
                row
            } else {
                c.windows.len() as int
            };
            WorkspaceV {
                columns: self.columns.update(
                    ci,
                    ColumnV { windows: c.windows.insert(r, win), focused: r, ..c },
                ),
                column_idx: ci,
                ..self
            }
        } else {
            self
        }
    }

    /// `win` is in a column or among the floats.
    pub open spec fn holds(self, win: WindowId) -> bool {
        self.floats.contains(win) || exists|i: int|
            0 <= i < self.columns.len() && (#[trigger] self.columns[i]).windows.contains(win)
    }
}

impl Workspace {
    pub fn new(layout: LayoutKind) -> (w: Workspace)
        ensures
            w@ == WorkspaceV::empty(layout),
    {
        let w = Workspace {
            columns: Vec::new(),
            floats: Vec::new(),
            focus: Focus { column_idx: 0 },
            layout,
            presented_maximize: None,
        };
        assert(w@.columns =~= Seq::<ColumnV>::empty());
        w
    }

    pub fn is_empty(&self) -> (b: bool)
        ensures
            b == self@.is_empty(),
    {
        self.columns.len() == 0 && self.floats.len() == 0
    }

    pub fn focused_win(&self) -> (r: Option<WindowId>)
        ensures
            r == self@.focused_win(),
    {
        if self.focus.column_idx < self.columns.len() {
            self.columns[self.focus.column_idx].focused_win()
        } else {
            None
        }
    }

    /// Whether `win` is in a column or among the floats.
    pub fn holds(&self, win: WindowId) -> (b: bool)
        ensures
            b == self@.holds(win),
    {
        if contains_window(&self.floats, win) {
            return true;
        }
        let mut i: usize = 0;
        while i < self.columns.len()
            invariant
                i <= self.columns.len(),
                forall|j: int| 0 <= j < i ==> !(#[trigger] self@.columns[j]).windows.contains(win),
            decreases self.columns.len() - i,
        {
            assert(self@.columns[i as int] == self.columns@[i as int]@);
            if contains_window(&self.columns[i].windows, win) {
                return true;
            }
            i = i + 1;
        }
        false
    }

    pub fn add_tiled(&mut self, win: WindowId, width: u32)
        ensures
            final(self)@ == old(self)@.add_tiled(win, width),
    {
        let ci: usize = self.focus.column_idx;
        let n: usize = self.columns.len();
        let pos: usize = if ci < n { ci + 1 } else { n };
        let c: Column = Column::single(win, width);
        let ghost before = self.columns@;
        self.columns.insert(pos, c);
        self.focus = Focus { column_idx: pos };
        proof {
            assert(column_views(self.columns@) =~= column_views(before).insert(pos as int, c@));
        }
    }

    pub fn add_float(&mut self, win: WindowId)
        ensures
            final(self)@ == old(self)@.add_float(win),
    {
        self.floats.push(win);
    }

    pub fn remove_window(&mut self, win: WindowId)
        ensures
            final(self)@ == old(self)@.remove_window(win),
    {
        let ghost mapped = self@.columns.map_values(losing(win));
        let mut cols: Vec<Column> = Vec::new();
        let mut i: usize = 0;
        proof {
            reveal(Seq::filter);
            assert(column_views(cols@) =~= mapped.take(0).filter(occupied()));
        }
        while i < self.columns.len()
            invariant
                i <= self.columns.len(),
                *self == *old(self),
                mapped == self@.columns.map_values(losing(win)),
                column_views(cols@) == mapped.take(i as int).filter(occupied()),
            decreases self.columns.len() - i,
        {
            let c: Column = self.columns[i].less(win);
            proof {
                assert(self@.columns[i as int] == self.columns@[i as int]@);
                assert(mapped[i as int] == c@);
                filter_take_step(mapped, i as int, occupied());
                column_views_push(cols@, c);
            }
            if c.windows.len() > 0 {
                cols.push(c);
            }
            i = i + 1;
        }
        assert(mapped.take(i as int) =~= mapped);
        assert(column_views(cols@).len() == cols@.len());
        let ci: usize = clamp_idx(self.focus.column_idx, cols.len());
        self.columns = cols;
        self.floats = without_window(&self.floats, win);
        self.focus = Focus { column_idx: ci };
    }

    pub fn drop_into_column(&mut self, ci: usize, win: WindowId, row: usize)
        ensures
            final(self)@ == old(self)@.drop_into_column(ci as int, win, row as int),
    {
        if ci < self.columns.len() {
            let ghost before = self.columns@;
            let mut c: Column = self.columns[ci].copy();
            let n: usize = c.windows.len();
            let r: usize = if row <= n { row } else { n };
            c.windows.insert(r, win);
            c.focused = r;
            self.columns.set(ci, c);
            self.focus = Focus { column_idx: ci };
            proof {
                assert(column_views(before)[ci as int] == before[ci as int]@);
                assert(column_views(self.columns@) =~= column_views(before).update(ci as int, c@));
            }
        }
    }

    /// An independent copy.
    pub fn copy(&self) -> (w: Workspace)
        ensures
            w@ == self@,
    {
        let mut cols: Vec<Column> = Vec::new();
        let mut i: usize = 0;
        assert(column_views(cols@) =~= self@.columns.take(0));
        while i < self.columns.len()
            invariant
                i <= self.columns.len(),
                column_views(cols@) == self@.columns.take(i as int),
            decreases self.columns.len() - i,
        {
            let c: Column = self.columns[i].copy();
            proof {
                assert(self@.columns[i as int] == self.columns@[i as int]@);
                column_views_push(cols@, c);
                assert(self@.columns.take(i as int + 1) =~= self@.columns.take(i as int).push(
                    self@.columns[i as int],
                ));
            }
            cols.push(c);
            i = i + 1;
        }
        assert(self@.columns.take(i as int) =~= self@.columns);
        Workspace {
            columns: cols,
            floats: copy_windows(&self.floats),
            focus: self.focus,
            layout: self.layout,
            presented_maximize: self.presented_maximize,
        }
    }
}

/// A window that was removed is gone, wherever it was.
pub proof fn removed_window_is_not_held(w: WorkspaceV, win: WindowId)
    ensures
        !w.remove_window(win).holds(win),
{
    let cols = columns_without(w.columns, win);
    let mapped = w.columns.map_values(losing(win));
    crate::seqs::without_contains(w.floats, win);
    assert forall|i: int| 0 <= i < cols.len() implies !(#[trigger] cols[i]).windows.contains(
        win,
    ) by {
        assert(mapped.filter(occupied()).contains(cols[i]));
        mapped.lemma_filter_contains_rev(occupied(), cols[i]);
        let k = choose|k: int| 0 <= k < mapped.len() && mapped[k] == cols[i];
        assert(mapped[k] == w.columns[k].less(win));
        crate::seqs::without_contains(w.columns[k].windows, win);
    }
}

// ---- What the operations are for --------------------------------------------

impl WorkspaceV {
    /// `win` is a tile: it stands in some column.
    pub open spec fn tiles(self, win: WindowId) -> bool {
        exists|i: int|
            0 <= i < self.columns.len() && (#[trigger] self.columns[i]).windows.contains(win)
    }
}

/// A window that is tiled gets a column to itself, of the width asked for and with
/// the focus; the columns that were there keep their order and their contents, and
/// the new one stands right after the focused one, or last where none is focused.
pub proof fn tiled_window_opens_a_column(w: WorkspaceV, win: WindowId, width: u32)
    requires
        w.column_idx >= 0,
    ensures
        ({
            let after = w.add_tiled(win, width);
            let at = after.column_idx;
            &&& 0 <= at < after.columns.len()
            &&& after.columns[at].windows.len() == 1 && after.columns[at].windows[0] == win
            &&& after.columns[at].focused == 0 && after.columns[at].width == width
            &&& after.focused_win() == Some(win)
            &&& after.columns.remove(at) == w.columns
            &&& w.column_idx < w.columns.len() ==> at == w.column_idx + 1
            &&& w.column_idx >= w.columns.len() ==> at == w.columns.len()
            &&& after.floats == w.floats && after.layout == w.layout
                && after.presented_maximize == w.presented_maximize
            &&& after.tiles(win)
            &&& forall|x: WindowId| x != win ==> after.tiles(x) == #[trigger] w.tiles(x)
        }),
{
    let after = w.add_tiled(win, width);
    let at = w.insert_pos();
    assert(after.columns.remove(at) =~= w.columns);
    assert(after.columns[at].windows[0] == win);
    assert(after.columns[at].windows.contains(win));
    assert forall|x: WindowId| x != win implies after.tiles(x) == #[trigger] w.tiles(x) by {
        if w.tiles(x) {
            let i = choose|i: int|
                0 <= i < w.columns.len() && (#[trigger] w.columns[i]).windows.contains(x);
            let j = if i < at {
                i
            } else {
                i + 1
            };
            assert(after.columns[j] == w.columns[i]);
        }
        if after.tiles(x) {
            let i = choose|i: int|
                0 <= i < after.columns.len() && (#[trigger] after.columns[i]).windows.contains(x);
            assert(i != at);
            let j = if i < at {
                i
            } else {
                i - 1
            };
            assert(w.columns[j] == after.columns[i]);
        }
    }
}

/// A window that floats joins the floats on top of the others, and no column.
pub proof fn floating_window_joins_the_floats(w: WorkspaceV, win: WindowId)
    ensures
        ({
            let after = w.add_float(win);
            &&& after.floats.len() == w.floats.len() + 1 && after.floats.last() == win
            &&& after.floats.drop_last() == w.floats
            &&& after.columns == w.columns && after.column_idx == w.column_idx
            &&& after.layout == w.layout && after.presented_maximize == w.presented_maximize
        }),
{
    assert(w.add_float(win).floats.drop_last() =~= w.floats);
}

/// A window that leaves is in no column and not among the floats, every other one
/// stays a tile or a float as it was, and no column is left empty.
pub proof fn removal_touches_no_other_window(w: WorkspaceV, win: WindowId)
    ensures
        ({
            let after = w.remove_window(win);
            &&& !after.tiles(win) && !after.floats.contains(win)
            &&& forall|x: WindowId| x != win ==> after.tiles(x) == #[trigger] w.tiles(x)
            &&& forall|x: WindowId|
                x != win ==> after.floats.contains(x) == #[trigger] w.floats.contains(x)
            &&& forall|i: int|
                0 <= i < after.columns.len() ==> (#[trigger] after.columns[i]).windows.len() > 0
            &&& after.layout == w.layout && after.presented_maximize == w.presented_maximize
            &&& after.columns.len() > 0 && w.column_idx >= 0 ==> 0 <= after.column_idx
                < after.columns.len()
        }),
{
    let after = w.remove_window(win);
    let mapped = w.columns.map_values(losing(win));
    removed_window_is_not_held(w, win);
    crate::seqs::without_contains(w.floats, win);
    assert forall|i: int| 0 <= i < after.columns.len() implies (#[trigger]
    after.columns[i]).windows.len() > 0 by {
        mapped.lemma_filter_pred(occupied(), i);
    }
    assert forall|x: WindowId| x != win implies after.tiles(x) == #[trigger] w.tiles(x) by {
        if w.tiles(x) {
            let i = choose|i: int|
                0 <= i < w.columns.len() && (#[trigger] w.columns[i]).windows.contains(x);
            crate::seqs::without_contains(w.columns[i].windows, win);
            assert(mapped[i].windows.contains(x));
            assert(occupied()(mapped[i]));
            mapped.lemma_filter_contains(occupied(), i);
            let j = choose|j: int|
                0 <= j < after.columns.len() && after.columns[j] == mapped[i];
            assert(after.columns[j].windows.contains(x));
        }
        if after.tiles(x) {
            let i = choose|i: int|
                0 <= i < after.columns.len() && (#[trigger] after.columns[i]).windows.contains(x);
            assert(mapped.filter(occupied()).contains(after.columns[i]));
            mapped.lemma_filter_contains_rev(occupied(), after.columns[i]);
            let k = choose|k: int| 0 <= k < mapped.len() && mapped[k] == after.columns[i];
            assert(mapped[k] == w.columns[k].less(win));
            crate::seqs::without_contains(w.columns[k].windows, win);
            assert(w.columns[k].windows.contains(x));
        }
    }
}

/// A window that joins a column stands at the row asked for, or last where the
/// column has fewer; it has the focus, and the rest of the column keeps its order.
pub proof fn joined_column_has_the_window_at_its_row(
    w: WorkspaceV,
    ci: int,
    win: WindowId,
    row: int,
)
    requires
        0 <= ci < w.columns.len(),
        0 <= row,
    ensures
        ({
            let after = w.drop_into_column(ci, win, row);
            let c = w.columns[ci];
            let d = after.columns[ci];
            &&& after.columns.len() == w.columns.len() && after.column_idx == ci
            &&& forall|i: int|
                0 <= i < w.columns.len() && i != ci ==> #[trigger] after.columns[i]
                    == w.columns[i]
            &&& d.windows.len() == c.windows.len() + 1 && d.width == c.width
            &&& 0 <= d.focused < d.windows.len() && d.windows[d.focused] == win
            &&& d.windows.remove(d.focused) == c.windows
            &&& row <= c.windows.len() ==> d.focused == row
            &&& row > c.windows.len() ==> d.focused == c.windows.len()
            &&& after.floats == w.floats && after.layout == w.layout
                && after.presented_maximize == w.presented_maximize
        }),
{
    let after = w.drop_into_column(ci, win, row);
    let d = after.columns[ci];
    assert(d.windows.remove(d.focused) =~= w.columns[ci].windows);
}

/// A tile that leaves a column with others closes its row; one that leaves a
/// column to itself takes the column away. No other column moves or changes.
pub proof fn removed_tile_closes_its_place(w: WorkspaceV, win: WindowId, k: int, r: int)
    requires
        0 <= k < w.columns.len(),
        0 <= r < w.columns[k].windows.len(),
        w.columns[k].windows[r] == win,
        w.columns[k].windows.no_duplicates(),
        forall|i: int| 0 <= i < w.columns.len() ==> (#[trigger] w.columns[i]).windows.len() > 0,
        forall|i: int|
            0 <= i < w.columns.len() && i != k ==> !(#[trigger] w.columns[i]).windows.contains(win),
        forall|i: int|
            0 <= i < w.columns.len() ==> 0 <= (#[trigger] w.columns[i]).focused
                < w.columns[i].windows.len(),
    ensures
        ({
            let after = w.remove_window(win);
            let c = w.columns[k];
            &&& c.windows.len() == 1 ==> after.columns == w.columns.remove(k)
            &&& c.windows.len() > 1 ==> {
                &&& after.columns.len() == w.columns.len()
                &&& forall|i: int|
                    0 <= i < w.columns.len() && i != k ==> #[trigger] after.columns[i]
                        == w.columns[i]
                &&& after.columns[k].windows == c.windows.remove(r)
                &&& after.columns[k].width == c.width
                &&& after.columns[k].focused == c.focused || c.focused == c.windows.len() - 1
                    && after.columns[k].focused == c.focused - 1
            }
        }),
{
    let c = w.columns[k];
    let mapped = w.columns.map_values(losing(win));
    crate::seqs::without_closes_the_gap(c.windows, win, r);
    assert forall|i: int| 0 <= i < w.columns.len() && i != k implies #[trigger] mapped[i]
        == w.columns[i] by {
        crate::seqs::without_absent(w.columns[i].windows, win);
    }
    assert(mapped[k] == c.less(win));
    if c.windows.len() == 1 {
        assert(c.windows.remove(r).len() == 0);
        crate::seqs::filter_drops_one(mapped, occupied(), k);
        assert(mapped.remove(k) =~= w.columns.remove(k));
    } else {
        crate::seqs::filter_keeps_all(mapped, occupied());
    }
}

} // verus!
