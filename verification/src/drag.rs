//! Dragging windows with the pointer: moving, resizing, and dropping among the
//! tiles.

use crate::floats::{clamp_float_to_workarea, clampable, clamped};
use crate::focus::column_of;
use crate::geom::Rect;
use crate::keyboard::{clean_mask, cleaned};
use crate::model::{Client, SizeHints, WinFlags, WindowId};
use crate::overlay::{column_windows, tiled_windows};
use crate::pointer::{pointed_monitor, Press};
use crate::seqs::contains_window;
use crate::state::{State, StateV};
use crate::workspace::{losing, occupied, ColumnV, Workspace, WorkspaceV};
use crate::xproto::{button_numbers, modifier_bits};
use vstd::prelude::*;

verus! {

broadcast use vstd::std_specs::hash::group_hash_axioms;

// ---- Dragging ---------------------------------------------------------------

/// A window being moved or resized with the pointer.
#[derive(Debug, Clone, Copy, PartialEq, Eq, Structural)]
pub struct DragState {
    pub win: WindowId,
    pub start_geom: Rect,
    /// Where the button went down.
    pub ptr_x: i32,
    pub ptr_y: i32,
    pub resize: bool,
    /// The left edge follows the pointer, the right one stays.
    pub resize_l: bool,
    /// The top edge follows the pointer, the bottom one stays.
    pub resize_t: bool,
    /// The pointer has travelled: this is a drag, no click.
    pub moved: bool,
}

impl DragState {
    /// The pointer was on the screen, and the window has a size that X knows.
    pub open spec fn well_formed(self) -> bool {
        &&& -32768 <= self.ptr_x <= 32767
        &&& -32768 <= self.ptr_y <= 32767
        &&& self.start_geom.w <= i32::MAX
        &&& self.start_geom.h <= i32::MAX
    }
}

/// The drag that a press on client `hit` starts: with Super held, the left
/// button moves and the right one resizes, from the corner nearest to it. None
/// starts over a fullscreen window.
pub open spec fn drag_from_press(
    st: StateV,
    p: Press,
    hit: Option<WindowId>,
    over_fullscreen: bool,
    numlock: u16,
) -> Option<DragState> {
    if cleaned(p.state, numlock) == 64 && !over_fullscreen && hit is Some && st.clients.contains_key(
        hit->0,
    ) {
        let g = st.clients[hit->0].geom;
        Some(
            DragState {
                win: hit->0,
                start_geom: g,
                ptr_x: p.root_x as i32,
                ptr_y: p.root_y as i32,
                resize: p.button == 3,
                resize_l: p.button == 3 && p.root_x < g.x + g.w / 2,
                resize_t: p.button == 3 && p.root_y < g.y + g.h / 2,
                moved: false,
            },
        )
    } else {
        None
    }
}

impl State {
    /// The drag that a press starts, once the pointer is grabbed.
    pub fn start_drag(
        &self,
        p: Press,
        hit: Option<WindowId>,
        over_fullscreen: bool,
        numlock: u16,
    ) -> (r: Option<DragState>)
        ensures
            r == drag_from_press(self@, p, hit, over_fullscreen, numlock),
            r is Some && r->0.start_geom.w <= i32::MAX && r->0.start_geom.h <= i32::MAX
                ==> r->0.well_formed(),
    {
        if clean_mask(p.state, numlock) != modifier_bits().m4 || over_fullscreen {
            return None;
        }
        match hit {
            Some(cw) => match self.clients.get(&cw) {
                Some(c) => {
                    let g: Rect = c.geom;
                    let resize: bool = p.button == button_numbers().m3;
                    Some(
                        DragState {
                            win: cw,
                            start_geom: g,
                            ptr_x: p.root_x as i32,
                            ptr_y: p.root_y as i32,
                            resize,
                            resize_l: resize && (p.root_x as i64) < g.x as i64 + (g.w / 2) as i64,
                            resize_t: resize && (p.root_y as i64) < g.y as i64 + (g.h / 2) as i64,
                            moved: false,
                        },
                    )
                },
                None => None,
            },
            None => None,
        }
    }
}

/// `v` brought into the range of X coordinates.
pub open spec fn saturated(v: int) -> int {
    if v < i32::MIN {
        i32::MIN as int
    } else if v > i32::MAX {
        i32::MAX as int
    } else {
        v
    }
}

fn saturate(v: i64) -> (r: i32)
    ensures
        r == saturated(v as int),
{
    if v < i32::MIN as i64 {
        i32::MIN
    } else if v > i32::MAX as i64 {
        i32::MAX
    } else {
        v as i32
    }
}

/// An extent dragged by `d`, at least one pixel.
pub open spec fn pulled(len: int, d: int) -> int {
    if len + d < 1 {
        1
    } else {
        saturated(len + d)
    }
}

/// An extent kept at the least one a client declared, if it declared one.
pub open spec fn at_least(len: int, min: int) -> int {
    if min > 0 && len < min {
        min
    } else {
        len
    }
}

/// An extent rounded to the nearest whole number of increments over the base
/// size, where a client declared an increment.
pub open spec fn snapped(len: int, inc: int, base: int) -> int {
    if inc > 0 {
        let b = if base > 0 {
            base
        } else {
            0
        };
        let over = if len > b {
            len - b
        } else {
            0
        };
        saturated(b + (over + inc / 2) / inc * inc)
    } else {
        len
    }
}

/// One axis of a resize.
pub open spec fn resized_len(len: int, d: int, min: int, inc: int, base: int) -> int {
    snapped(at_least(pulled(len, d), min), inc, base)
}

fn resize_len(len: u32, d: i32, min: i32, inc: i32, base: i32) -> (r: u32)
    requires
        len <= i32::MAX,
    ensures
        r == resized_len(len as int, d as int, min as int, inc as int, base as int),
        r <= i32::MAX,
{
    let sum: i64 = len as i64 + d as i64;
    let pulled_len: i64 = if sum < 1 { 1 } else { saturate(sum) as i64 };
    let kept: i64 = if min > 0 && pulled_len < min as i64 { min as i64 } else { pulled_len };
    if inc > 0 {
        let b: i64 = if base > 0 { base as i64 } else { 0 };
        let over: i64 = if kept > b { kept - b } else { 0 };
        let q: i64 = over + (inc / 2) as i64;
        let n: i64 = q / inc as i64;
        proof {
            let k = inc as int;
            assert(0 <= (q / inc as i64) * k <= q) by (nonlinear_arith)
                requires
                    0 <= q,
                    k > 0,
                    k == inc,
            ;
        }
        let whole: i64 = n * inc as i64;
        saturate(b + whole) as u32
    } else {
        kept as u32
    }
}

/// The geometry of a window whose edges were dragged by `(dx, dy)`. The edges
/// that do not follow the pointer stay, also after rounding.
pub open spec fn resized_rect(d: DragState, dx: int, dy: int, h: SizeHints) -> Rect {
    let g = d.start_geom;
    let w = resized_len(
        g.w as int,
        if d.resize_l {
            -dx
        } else {
            dx
        },
        h.min_w as int,
        h.inc_w as int,
        h.base_w as int,
    );
    let ht = resized_len(
        g.h as int,
        if d.resize_t {
            -dy
        } else {
            dy
        },
        h.min_h as int,
        h.inc_h as int,
        h.base_h as int,
    );
    Rect {
        x: if d.resize_l {
            saturated(g.x + g.w - w) as i32
        } else {
            g.x
        },
        y: if d.resize_t {
            saturated(g.y + g.h - ht) as i32
        } else {
            g.y
        },
        w: w as u32,
        h: ht as u32,
    }
}

fn resize_rect(d: &DragState, dx: i32, dy: i32, h: &SizeHints) -> (r: Rect)
    requires
        d.well_formed(),
        -65535 <= dx <= 65535,
        -65535 <= dy <= 65535,
    ensures
        r == resized_rect(*d, dx as int, dy as int, *h),
{
    let g: Rect = d.start_geom;
    let w: u32 = resize_len(g.w, if d.resize_l { -dx } else { dx }, h.min_w, h.inc_w, h.base_w);
    let ht: u32 = resize_len(g.h, if d.resize_t { -dy } else { dy }, h.min_h, h.inc_h, h.base_h);
    Rect {
        x: if d.resize_l { saturate(g.x as i64 + g.w as i64 - w as i64) } else { g.x },
        y: if d.resize_t { saturate(g.y as i64 + g.h as i64 - ht as i64) } else { g.y },
        w,
        h: ht,
    }
}

/// The monitor of a dragged window, or the first one if it has none.
pub open spec fn drag_monitor(st: StateV, win: WindowId) -> int {
    if st.clients.contains_key(win) && st.clients[win].monitor < st.monitors.len() {
        st.clients[win].monitor as int
    } else {
        0
    }
}

/// The border of a window; none for an unmanaged one.
pub open spec fn border_of(st: StateV, win: WindowId) -> u32 {
    if st.clients.contains_key(win) {
        st.clients[win].border_w
    } else {
        0
    }
}

/// The size hints of a window; none for an unmanaged one.
pub open spec fn hints_of(st: StateV, win: WindowId) -> SizeHints {
    if st.clients.contains_key(win) {
        st.clients[win].hints
    } else {
        SizeHints::unset()
    }
}

/// Where a dragged window goes when the pointer is at `(px, py)`. A resize stays
/// in the work area.
pub open spec fn dragged_rect(st: StateV, d: DragState, px: int, py: int) -> Rect {
    let dx = px - d.ptr_x;
    let dy = py - d.ptr_y;
    if d.resize {
        clamped(
            resized_rect(d, dx, dy, hints_of(st, d.win)),
            st.monitors[drag_monitor(st, d.win)].workarea,
            border_of(st, d.win),
        )
    } else {
        Rect {
            x: saturated(d.start_geom.x + dx) as i32,
            y: saturated(d.start_geom.y + dy) as i32,
            ..d.start_geom
        }
    }
}

/// The pointer is at least four pixels from where the button went down.
pub open spec fn travelled(d: DragState, px: int, py: int) -> bool {
    px - d.ptr_x >= 4 || d.ptr_x - px >= 4 || py - d.ptr_y >= 4 || d.ptr_y - py >= 4
}

/// The state once a dragged window went to `r`: it floats there.
pub open spec fn dragged_state(st: StateV, win: WindowId, r: Rect) -> StateV {
    if st.clients.contains_key(win) {
        let c = st.clients[win];
        st.with_client(win, Client { geom: r, flags: c.flags.with(WinFlags::FLOAT), ..c })
    } else {
        st
    }
}

impl State {
    /// The work area that a resize has to stay in can be measured.
    pub open spec fn draggable(&self, d: DragState) -> bool {
        d.resize ==> self.monitors.len() > 0 && clampable(
            self@.monitors[drag_monitor(self@, d.win)].workarea,
            border_of(self@, d.win),
        )
    }

    fn drag_rect(&self, d: &DragState, px: i16, py: i16) -> (r: Rect)
        requires
            d.well_formed(),
            self.draggable(*d),
        ensures
            r == dragged_rect(self@, *d, px as int, py as int),
    {
        let dx: i32 = px as i32 - d.ptr_x;
        let dy: i32 = py as i32 - d.ptr_y;
        if d.resize {
            let (mi, bw, hints): (usize, u32, SizeHints) = match self.clients.get(&d.win) {
                Some(c) => (
                    if c.monitor < self.monitors.len() { c.monitor } else { 0 },
                    c.border_w,
                    c.hints,
                ),
                None => (0, 0, SizeHints::default()),
            };
            assert(self@.monitors[mi as int] == self.monitors@[mi as int]@);
            let g: Rect = resize_rect(d, dx, dy, &hints);
            clamp_float_to_workarea(g, self.monitors[mi].workarea, bw)
        } else {
            Rect {
                x: saturate(d.start_geom.x as i64 + dx as i64),
                y: saturate(d.start_geom.y as i64 + dy as i64),
                w: d.start_geom.w,
                h: d.start_geom.h,
            }
        }
    }

    /// The pointer moved to `(px, py)` during a drag. Returns the geometry and
    /// border to write to the window, if it is managed.
    pub fn on_drag(&mut self, d: &mut DragState, px: i16, py: i16) -> (r: Option<(Rect, u32)>)
        requires
            old(d).well_formed(),
            old(self).draggable(*old(d)),
        ensures
            ({
                let st = old(self)@;
                let g = dragged_rect(st, *old(d), px as int, py as int);
                &&& final(self)@ == dragged_state(st, old(d).win, g)
                &&& *final(d) == (DragState {
                    moved: old(d).moved || travelled(*old(d), px as int, py as int),
                    ..*old(d)
                })
                &&& r == (if st.clients.contains_key(old(d).win) {
                    Some((g, st.clients[old(d).win].border_w))
                } else {
                    None
                })
            }),
    {
        let g: Rect = self.drag_rect(d, px, py);
        let dx: i32 = px as i32 - d.ptr_x;
        let dy: i32 = py as i32 - d.ptr_y;
        if dx >= 4 || dx <= -4 || dy >= 4 || dy <= -4 {
            d.moved = true;
        }
        let win: WindowId = d.win;
        let ghost before = self.clients@;
        match self.clients.remove(&win) {
            Some(c0) => {
                let mut c: Client = c0;
                let bw: u32 = c.border_w;
                c.geom = g;
                c.flags.set(WinFlags::FLOAT);
                self.clients.insert(win, c);
                assert(self.clients@ =~= before.insert(win, c));
                Some((g, bw))
            },
            None => {
                assert(self.clients@ =~= before);
                None
            },
        }
    }
}

/// The far edges of a window stay where they are while its left and top edges
/// are dragged, as long as the result needs no clamping to the screen.
pub proof fn anchored_corner_stays(d: DragState, dx: int, dy: int, h: SizeHints)
    requires
        d.well_formed(),
        -65535 <= dx <= 65535,
        -65535 <= dy <= 65535,
        i32::MIN <= d.start_geom.x + d.start_geom.w - resized_rect(d, dx, dy, h).w <= i32::MAX,
        i32::MIN <= d.start_geom.y + d.start_geom.h - resized_rect(d, dx, dy, h).h <= i32::MAX,
    ensures
        d.resize_l ==> resized_rect(d, dx, dy, h).right_edge() == d.start_geom.right_edge(),
        !d.resize_l ==> resized_rect(d, dx, dy, h).x == d.start_geom.x,
        d.resize_t ==> resized_rect(d, dx, dy, h).bottom_edge() == d.start_geom.bottom_edge(),
        !d.resize_t ==> resized_rect(d, dx, dy, h).y == d.start_geom.y,
{
    resized_len_fits(
        d.start_geom.w as int,
        if d.resize_l {
            -dx
        } else {
            dx
        },
        h.min_w as int,
        h.inc_w as int,
        h.base_w as int,
    );
    resized_len_fits(
        d.start_geom.h as int,
        if d.resize_t {
            -dy
        } else {
            dy
        },
        h.min_h as int,
        h.inc_h as int,
        h.base_h as int,
    );
}

proof fn resized_len_fits(len: int, d: int, min: int, inc: int, base: int)
    requires
        min <= i32::MAX,
        inc <= i32::MAX,
        base <= i32::MAX,
    ensures
        0 <= resized_len(len, d, min, inc, base) <= i32::MAX,
        inc <= 0 ==> resized_len(len, d, min, inc, base) >= 1,
        inc <= 0 && min > 0 ==> resized_len(len, d, min, inc, base) >= min,
{
    let kept = at_least(pulled(len, d), min);
    if inc > 0 {
        let b = if base > 0 {
            base
        } else {
            0
        };
        let over = if kept > b {
            kept - b
        } else {
            0
        };
        let q = over + inc / 2;
        assert(0 <= q / inc * inc) by (nonlinear_arith)
            requires
                q >= 0,
                inc > 0,
        ;
    }
}

/// A window is never dragged below the size its client declared as the least,
/// unless rounding to the client's own increments does.
pub proof fn resize_keeps_the_least_size(len: u32, d: int, min: i32, inc: i32, base: i32)
    requires
        min > 0,
        inc <= 0,
    ensures
        resized_len(len as int, d, min as int, inc as int, base as int) >= min,
{
    resized_len_fits(len as int, d, min as int, inc as int, base as int);
}

// ---- Dropping ---------------------------------------------------------------

/// `w` is a tile that a window dragged by the pointer at `(px, py)` can join:
/// another one than the dragged window, neither fullscreen nor presented
/// maximized.
pub open spec fn joinable(
    clients: Map<WindowId, Client>,
    ws: WorkspaceV,
    win: WindowId,
    px: int,
    py: int,
) -> spec_fn(WindowId) -> bool {
    |w: WindowId|
        w != win && clients.contains_key(w) && !clients[w].fullscreen() && ws.presented_maximize
            != Some(w) && clients[w].geom.covers(px, py)
}

/// The first element of `s` that satisfies `p`.
pub open spec fn first_where(s: Seq<WindowId>, p: spec_fn(WindowId) -> bool) -> Option<WindowId>
    decreases s.len(),
{
    if s.len() == 0 {
        None
    } else {
        match first_where(s.drop_last(), p) {
            Some(w) => Some(w),
            None => if p(s.last()) {
                Some(s.last())
            } else {
                None
            },
        }
    }
}

proof fn first_where_is(s: Seq<WindowId>, p: spec_fn(WindowId) -> bool, k: int)
    requires
        0 <= k <= s.len(),
        forall|j: int| 0 <= j < k ==> !p(#[trigger] s[j]),
        k < s.len() ==> p(s[k]),
    ensures
        first_where(s, p) == (if k < s.len() {
            Some(s[k])
        } else {
            None
        }),
    decreases s.len(),
{
    if s.len() > 0 {
        let t = s.drop_last();
        if k < t.len() {
            first_where_is(t, p, k);
        } else {
            first_where_is(t, p, t.len() as int);
        }
    }
}

/// The tile on monitor `mi` that a window dragged by the pointer at `(px, py)`
/// would join.
pub open spec fn drop_target(st: StateV, mi: int, win: WindowId, px: int, py: int) -> Option<
    WindowId,
> {
    if st.shows(mi) {
        let ws = st.monitors[mi].ws();
        first_where(column_windows(ws.columns), joinable(st.clients, ws, win, px, py))
    } else {
        None
    }
}

impl State {
    /// The tile under the pointer that a dropped window would join.
    pub fn drop_candidate(&self, win: WindowId, mi: usize, px: i32, py: i32) -> (r: Option<WindowId>)
        ensures
            r == drop_target(self@, mi as int, win, px as int, py as int),
    {
        if mi >= self.monitors.len() {
            return None;
        }
        assert(self@.monitors[mi as int] == self.monitors@[mi as int]@);
        let wi: usize = self.monitors[mi].active_ws;
        if wi >= self.monitors[mi].workspaces.len() {
            return None;
        }
        let ws: &Workspace = &self.monitors[mi].workspaces[wi];
        let tiles: Vec<WindowId> = tiled_windows(ws);
        let ghost p = joinable(self@.clients, ws@, win, px as int, py as int);
        let mut i: usize = 0;
        while i < tiles.len()
            invariant
                i <= tiles.len(),
                p == joinable(self@.clients, ws@, win, px as int, py as int),
                forall|j: int| 0 <= j < i ==> !p(#[trigger] tiles@[j]),
                st_ws(self@, mi as int) == ws@,
                tiles@ == column_windows(ws@.columns),
                self@.shows(mi as int),
            decreases tiles.len() - i,
        {
            let w: WindowId = tiles[i];
            let hit: bool = match self.clients.get(&w) {
                Some(c) => w != win && !c.is_fullscreen() && ws.presented_maximize != Some(w)
                    && c.geom.contains_point(px, py),
                None => false,
            };
            assert(hit == p(tiles@[i as int]));
            if hit {
                proof {
                    first_where_is(tiles@, p, i as int);
                }
                return Some(w);
            }
            i = i + 1;
        }
        proof {
            first_where_is(tiles@, p, i as int);
        }
        None
    }
}

spec fn st_ws(st: StateV, mi: int) -> WorkspaceV {
    st.monitors[mi].ws()
}

/// The change of highlighted tile while a window is dragged.
#[derive(Debug, Clone, Copy, PartialEq, Eq, Structural)]
pub struct Preview {
    /// The tile to highlight from now on.
    pub target: Option<WindowId>,
    /// The tile that loses its highlight.
    pub restore: Option<WindowId>,
    /// The tile that gains it.
    pub highlight: Option<WindowId>,
}

/// Only a change of target is drawn.
pub open spec fn preview_of(shown: Option<WindowId>, target: Option<WindowId>) -> Preview {
    if target == shown {
        Preview { target: shown, restore: None, highlight: None }
    } else {
        Preview { target, restore: shown, highlight: target }
    }
}

impl State {
    /// Which tile to highlight while a window is moved over `(px, py)`.
    pub fn preview_drop_target(
        &self,
        shown: Option<WindowId>,
        win: WindowId,
        px: i16,
        py: i16,
    ) -> (r: Preview)
        requires
            self.sel_mon < self.monitors.len(),
        ensures
            r == preview_of(
                shown,
                drop_target(
                    self@,
                    pointed_monitor(self@, px as int, py as int),
                    win,
                    px as int,
                    py as int,
                ),
            ),
    {
        let mi: usize = self.monitor_at(px as i32, py as i32);
        let target: Option<WindowId> = self.drop_candidate(win, mi, px as i32, py as i32);
        if target == shown {
            Preview { target: shown, restore: None, highlight: None }
        } else {
            Preview { target, restore: shown, highlight: target }
        }
    }
}

/// How many windows at the top of a column have their middle above `y`.
pub open spec fn rows_above(clients: Map<WindowId, Client>, s: Seq<WindowId>, y: int) -> int
    decreases s.len(),
{
    if s.len() > 0 && middle_above(clients, s[0], y) {
        1 + rows_above(clients, s.skip(1), y)
    } else {
        0
    }
}

pub open spec fn middle_above(clients: Map<WindowId, Client>, w: WindowId, y: int) -> bool {
    clients.contains_key(w) && clients[w].geom.y + clients[w].geom.h / 2 < y
}

/// The workspace after `win` was dropped on the tile `target` at height `y`:
/// it left its old place and joined the target's column, below the windows whose
/// middle is above the pointer.
pub open spec fn dropped_on(
    clients: Map<WindowId, Client>,
    ws: WorkspaceV,
    win: WindowId,
    target: WindowId,
    y: int,
) -> WorkspaceV {
    let rest = ws.remove_window(win);
    match column_of(rest.columns, target) {
        Some(ci) => rest.drop_into_column(
            ci,
            win,
            rows_above(clients, rest.columns[ci].windows, y),
        ),
        None => rest,
    }
}

/// What letting go of a dragged window does.
#[derive(Debug, Clone, Copy, PartialEq, Eq, Structural)]
pub enum Release {
    /// It joined the tiles of its monitor: lay them out anew and focus it.
    Dropped { monitor: usize },
    /// It floats; `restack`: it was a tile until now.
    Floating { monitor: usize, restack: bool },
}

/// The tile a window is dropped on when the button goes up: only after a real
/// move, not after a click or a resize.
pub open spec fn release_target(st: StateV, d: DragState, px: int, py: int) -> Option<WindowId> {
    if d.moved && !d.resize {
        drop_target(st, drag_monitor(st, d.win), d.win, px, py)
    } else {
        None
    }
}

/// The window `win` is marked floating but still stands among the tiles.
pub open spec fn floats_in_a_column(st: StateV, mi: int, win: WindowId) -> bool {
    st.clients.contains_key(win) && st.clients[win].floats() && !st.monitors[mi].ws().floats.contains(
        win,
    )
}

/// The state after the button went up at `(px, py)`.
pub open spec fn released_state(st: StateV, d: DragState, px: int, py: int) -> StateV {
    let mi = drag_monitor(st, d.win);
    let m = st.monitors[mi];
    match release_target(st, d, px, py) {
        Some(target) => {
            let s1 = st.with_mon(
                mi,
                m.with_ws(m.active_ws, dropped_on(st.clients, m.ws(), d.win, target, py)),
            );
            if st.clients.contains_key(d.win) {
                let c = st.clients[d.win];
                s1.with_client(d.win, Client { flags: c.flags.less(WinFlags::FLOAT), ..c })
            } else {
                s1
            }
        },
        None => if floats_in_a_column(st, mi, d.win) {
            st.with_mon(mi, m.with_ws(m.active_ws, m.ws().remove_window(d.win).add_float(d.win)))
        } else {
            st
        },
    }
}

pub open spec fn release_of(st: StateV, d: DragState, px: int, py: int) -> Release {
    let mi = drag_monitor(st, d.win);
    match release_target(st, d, px, py) {
        Some(_) => Release::Dropped { monitor: mi as usize },
        None => Release::Floating {
            monitor: mi as usize,
            restack: floats_in_a_column(st, mi, d.win),
        },
    }
}

impl State {
    fn count_rows_above(&self, s: &Vec<WindowId>, y: i32) -> (n: usize)
        ensures
            n == rows_above(self@.clients, s@, y as int),
    {
        let mut i: usize = 0;
        let ghost whole = rows_above(self@.clients, s@, y as int);
        assert(s@.skip(0) =~= s@);
        while i < s.len()
            invariant
                i <= s.len(),
                whole == rows_above(self@.clients, s@, y as int),
                whole == i + rows_above(self@.clients, s@.skip(i as int), y as int),
            decreases s.len() - i,
        {
            let w: WindowId = s[i];
            let above: bool = match self.clients.get(&w) {
                Some(c) => (y as i64) > c.geom.y as i64 + (c.geom.h / 2) as i64,
                None => false,
            };
            proof {
                assert(s@.skip(i as int)[0] == w);
                assert(above == middle_above(self@.clients, w, y as int));
                assert(s@.skip(i as int).skip(1) =~= s@.skip(i as int + 1));
            }
            if !above {
                return i;
            }
            i = i + 1;
        }
        i
    }

    fn drop_on(&mut self, mi: usize, win: WindowId, target: WindowId, y: i32)
        requires
            old(self)@.shows(mi as int),
        ensures
            ({
                let st = old(self)@;
                let m = st.monitors[mi as int];
                final(self)@ == st.with_mon(
                    mi as int,
                    m.with_ws(m.active_ws, dropped_on(st.clients, m.ws(), win, target, y as int)),
                )
            }),
    {
        assert(self@.monitors[mi as int] == self.monitors@[mi as int]@);
        let wi: usize = self.monitors[mi].active_ws;
        let mut w: Workspace = self.monitors[mi].workspaces[wi].copy();
        assert(w@ == self@.monitors[mi as int].ws());
        w.remove_window(win);
        match w.column_position(target) {
            Some(ci) => {
                assert(w@.columns[ci as int] == w.columns@[ci as int]@);
                let row: usize = self.count_rows_above(&w.columns[ci].windows, y);
                w.drop_into_column(ci, win, row);
            },
            None => {},
        }
        self.put_workspace(mi, wi, w);
    }

    /// The button went up at `(px, py)`: drop the window on the tile there, or
    /// leave it floating.
    pub fn on_drag_end(&mut self, d: &DragState, px: i16, py: i16) -> (r: Release)
        requires
            old(self)@.shows(drag_monitor(old(self)@, d.win)),
        ensures
            final(self)@ == released_state(old(self)@, *d, px as int, py as int),
            r == release_of(old(self)@, *d, px as int, py as int),
    {
        let win: WindowId = d.win;
        let mi: usize = match self.clients.get(&win) {
            Some(c) => if c.monitor < self.monitors.len() { c.monitor } else { 0 },
            None => 0,
        };
        assert(self@.monitors[mi as int] == self.monitors@[mi as int]@);
        if d.moved && !d.resize {
            match self.drop_candidate(win, mi, px as i32, py as i32) {
                Some(target) => {
                    self.drop_on(mi, win, target, py as i32);
                    let flags: Option<WinFlags> = match self.clients.get(&win) {
                        Some(c) => Some(c.flags),
                        None => None,
                    };
                    match flags {
                        Some(f) => {
                            let mut less: WinFlags = f;
                            less.clear(WinFlags::FLOAT);
                            self.put_flags(win, less);
                        },
                        None => {},
                    }
                    return Release::Dropped { monitor: mi };
                },
                None => {},
            }
        }
        let float: bool = match self.clients.get(&win) {
            Some(c) => c.is_float(),
            None => false,
        };
        let wi: usize = self.monitors[mi].active_ws;
        assert(self@.monitors[mi as int].ws() == self.monitors@[mi as int].workspaces@[wi as int]@);
        let restack: bool = float && !contains_window(&self.monitors[mi].workspaces[wi].floats, win);
        if restack {
            let mut w: Workspace = self.monitors[mi].workspaces[wi].copy();
            w.remove_window(win);
            w.add_float(win);
            self.put_workspace(mi, wi, w);
        }
        Release::Floating { monitor: mi, restack }
    }
}

proof fn column_of_holds(cols: Seq<ColumnV>, win: WindowId)
    ensures
        match column_of(cols, win) {
            Some(ci) => 0 <= ci < cols.len() && cols[ci].windows.contains(win),
            None => forall|i: int|
                0 <= i < cols.len() ==> !(#[trigger] cols[i]).windows.contains(win),
        },
    decreases cols.len(),
{
    if cols.len() > 0 {
        let t = cols.drop_last();
        column_of_holds(t, win);
        assert(cols.last() == cols[cols.len() - 1]);
        match column_of(t, win) {
            Some(ci) => {
                assert(t[ci] == cols[ci]);
            },
            None => {
                assert forall|i: int| 0 <= i < cols.len() && column_of(cols, win) is None implies !(
                #[trigger] cols[i]).windows.contains(win) by {
                    if i < t.len() {
                        assert(t[i] == cols[i]);
                    }
                }
            },
        }
    }
}

/// A window dropped on a tile ends up in that tile's column, and has the
/// column's focus.
pub proof fn dropped_window_joins_its_target(
    clients: Map<WindowId, Client>,
    ws: WorkspaceV,
    win: WindowId,
    target: WindowId,
    y: int,
)
    requires
        target != win,
        column_of(ws.columns, target) is Some,
    ensures
        ({
            let after = dropped_on(clients, ws, win, target, y);
            let c = after.columns[after.column_idx];
            &&& 0 <= after.column_idx < after.columns.len()
            &&& c.windows.contains(target)
            &&& c.focused_win() == Some(win)
        }),
{
    let rest = ws.remove_window(win);
    let mapped = ws.columns.map_values(losing(win));
    column_of_holds(ws.columns, target);
    let k = column_of(ws.columns, target)->0;
    crate::seqs::without_contains(ws.columns[k].windows, win);
    assert(mapped[k] == ws.columns[k].less(win));
    let old_col = mapped[k];
    assert(old_col.windows.contains(target));
    assert(occupied()(old_col)) by {
        let i = choose|i: int| 0 <= i < old_col.windows.len() && old_col.windows[i] == target;
        assert(0 <= i < old_col.windows.len());
    }
    assert(mapped.contains(old_col));
    mapped.lemma_filter_contains(occupied(), k);
    let j = choose|j: int| 0 <= j < rest.columns.len() && rest.columns[j] == old_col;
    column_of_holds(rest.columns, target);
    assert(rest.columns[j].windows.contains(target));
    let ci = column_of(rest.columns, target)->0;
    let c = rest.columns[ci];
    rows_above_bounded(clients, c.windows, y);
    let r = rows_above(clients, c.windows, y);
    let t = choose|t: int| 0 <= t < c.windows.len() && c.windows[t] == target;
    let after = c.windows.insert(r, win);
    assert(after[r] == win);
    if t < r {
        assert(after[t] == target);
    } else {
        assert(after[t + 1] == target);
    }
}

proof fn rows_above_bounded(clients: Map<WindowId, Client>, s: Seq<WindowId>, y: int)
    ensures
        0 <= rows_above(clients, s, y) <= s.len(),
    decreases s.len(),
{
    if s.len() > 0 {
        rows_above_bounded(clients, s.skip(1), y);
    }
}

// ---- What dragging is for ---------------------------------------------------

/// A drag starts just where Super alone is held, whatever the locks, over a managed
/// window that is not under a fullscreen one. It takes that window from where it is
/// and the pointer from where it went down; the right button resizes and any other
/// one moves.
pub proof fn super_press_starts_a_drag(
    st: StateV,
    p: Press,
    hit: Option<WindowId>,
    over: bool,
    numlock: u16,
)
    ensures
        drag_from_press(st, p, hit, over, numlock) is Some <==> cleaned(p.state, numlock) == 64
            && !over && hit is Some && st.clients.contains_key(hit->0),
        drag_from_press(st, p, hit, over, numlock) matches Some(d) ==> {
            &&& Some(d.win) == hit
            &&& d.start_geom == st.clients[d.win].geom
            &&& d.ptr_x == p.root_x && d.ptr_y == p.root_y
            &&& d.resize <==> p.button == 3
            &&& !d.resize ==> !d.resize_l && !d.resize_t
            &&& !d.moved
        },
{
}

/// The corner that follows the pointer in a resize is the one nearest to the press:
/// the left edge follows just where the press was nearer to the window's first
/// column than to its last, whatever its height, and the top edge just where it was
/// nearer to the first row than to the last, wherever along it.
pub proof fn nearest_corner_follows_the_pointer(
    st: StateV,
    p: Press,
    hit: Option<WindowId>,
    over: bool,
    numlock: u16,
)
    requires
        drag_from_press(st, p, hit, over, numlock) is Some,
        p.button == 3,
    ensures
        ({
            let d = drag_from_press(st, p, hit, over, numlock)->0;
            let g = d.start_geom;
            &&& d.resize_l <==> p.root_x - g.x < (g.x + g.w - 1) - p.root_x
            &&& d.resize_t <==> p.root_y - g.y < (g.y + g.h - 1) - p.root_y
        }),
{
}

/// Two presses at the same height agree on the top edge, and two at the same
/// distance from the left on the left edge.
pub proof fn edges_are_chosen_apart(
    st: StateV,
    p: Press,
    q: Press,
    hit: Option<WindowId>,
    over: bool,
    numlock: u16,
)
    requires
        drag_from_press(st, p, hit, over, numlock) is Some,
        drag_from_press(st, q, hit, over, numlock) is Some,
        p.button == q.button,
    ensures
        p.root_y == q.root_y ==> drag_from_press(st, p, hit, over, numlock)->0.resize_t
            == drag_from_press(st, q, hit, over, numlock)->0.resize_t,
        p.root_x == q.root_x ==> drag_from_press(st, p, hit, over, numlock)->0.resize_l
            == drag_from_press(st, q, hit, over, numlock)->0.resize_l,
{
}

/// A moved window keeps its size and goes exactly as far as the pointer went.
pub proof fn moved_window_follows_the_pointer(st: StateV, d: DragState, px: int, py: int)
    requires
        d.well_formed(),
        !d.resize,
        i32::MIN <= d.start_geom.x + px - d.ptr_x <= i32::MAX,
        i32::MIN <= d.start_geom.y + py - d.ptr_y <= i32::MAX,
    ensures
        ({
            let r = dragged_rect(st, d, px, py);
            &&& r.w == d.start_geom.w && r.h == d.start_geom.h
            &&& r.x - d.start_geom.x == px - d.ptr_x
            &&& r.y - d.start_geom.y == py - d.ptr_y
        }),
{
}

/// An edge that is pulled goes exactly as far as the pointer went, where the client
/// declared no increment and the window stays at least one pixel and its least size:
/// pulling the right edge right widens it, pulling the left edge left does, and the
/// same up and down.
pub proof fn pulled_edge_follows_the_pointer(d: DragState, dx: int, dy: int, h: SizeHints)
    requires
        d.well_formed(),
        d.start_geom.edges_fit(),
        -65535 <= dx <= 65535,
        -65535 <= dy <= 65535,
        h.inc_w <= 0,
        h.inc_h <= 0,
    ensures
        ({
            let g = d.start_geom;
            let r = resized_rect(d, dx, dy, h);
            &&& !d.resize_l && 1 <= g.w + dx <= i32::MAX && h.min_w <= g.w + dx ==> r.x == g.x
                && r.w == g.w + dx
            &&& d.resize_l && 1 <= g.w - dx <= i32::MAX && h.min_w <= g.w - dx && g.x + dx
                >= i32::MIN ==> r.x == g.x + dx && r.w == g.w - dx
            &&& !d.resize_t && 1 <= g.h + dy <= i32::MAX && h.min_h <= g.h + dy ==> r.y == g.y
                && r.h == g.h + dy
            &&& d.resize_t && 1 <= g.h - dy <= i32::MAX && h.min_h <= g.h - dy && g.y + dy
                >= i32::MIN ==> r.y == g.y + dy && r.h == g.h - dy
        }),
{
}

/// Where a client declared an increment, a resized window is a whole number of them
/// larger than its base size, and no other such size is nearer to the one that was
/// asked for by more than half an increment.
pub proof fn resize_goes_by_whole_increments(len: int, inc: int, base: int)
    requires
        inc > 0,
        0 <= base,
        base <= len,
        len + inc <= i32::MAX,
    ensures
        (snapped(len, inc, base) - base) % inc == 0,
        -inc <= 2 * (snapped(len, inc, base) - len) <= inc,
        snapped(len, inc, base) >= base,
        (len - base) % inc == 0 ==> snapped(len, inc, base) == len,
{
    let over = len - base;
    let k = (over + inc / 2) / inc;
    let m = k * inc;
    let rem = (over + inc / 2) % inc;
    assert(over + inc / 2 == inc * k + rem && 0 <= rem < inc) by (nonlinear_arith)
        requires
            inc > 0,
            k == (over + inc / 2) / inc,
            rem == (over + inc / 2) % inc,
    ;
    assert(m == inc * k) by (nonlinear_arith)
        requires
            m == k * inc,
    ;
    assert(m % inc == 0) by (nonlinear_arith)
        requires
            m == k * inc,
            inc > 0,
    ;
    assert(k >= 0 && m >= 0) by (nonlinear_arith)
        requires
            over >= 0,
            inc > 0,
            k == (over + inc / 2) / inc,
            m == k * inc,
    ;
    assert(snapped(len, inc, base) == base + m);
    if over % inc == 0 {
        let q = over / inc;
        assert(over == inc * q && k == q && m == over) by (nonlinear_arith)
            requires
                over % inc == 0,
                q == over / inc,
                inc > 0,
                over >= 0,
                k == (over + inc / 2) / inc,
                m == k * inc,
        ;
    }
}

/// A dragged window floats where it was dragged to, keeps everything else that is
/// known of it, and no other client or monitor changes.
pub proof fn dragged_window_floats(st: StateV, win: WindowId, r: Rect)
    requires
        st.clients.contains_key(win),
    ensures
        ({
            let after = dragged_state(st, win, r);
            &&& after.clients[win].geom == r && after.clients[win].floats()
            &&& after.clients[win] == (Client {
                geom: r,
                flags: after.clients[win].flags,
                ..st.clients[win]
            })
            &&& after.clients.dom() == st.clients.dom()
            &&& forall|x: WindowId|
                x != win && st.clients.contains_key(x) ==> #[trigger] after.clients[x]
                    == st.clients[x]
            &&& after == (StateV { clients: after.clients, ..st })
        }),
{
    crate::model::flag_is_as_it_was_set(st.clients[win].flags, WinFlags::FLOAT);
    assert(dragged_state(st, win, r).clients.dom() =~= st.clients.dom());
}

/// A press that does not travel four pixels on either axis stays a click; a drag
/// stays one wherever the pointer goes afterwards.
pub proof fn short_travel_is_a_click(d: DragState, px: int, py: int)
    ensures
        travelled(d, px, py) <==> !(-4 < px - d.ptr_x < 4 && -4 < py - d.ptr_y < 4),
{
}

proof fn first_where_props(s: Seq<WindowId>, p: spec_fn(WindowId) -> bool)
    ensures
        match first_where(s, p) {
            Some(w) => exists|i: int|
                0 <= i < s.len() && #[trigger] s[i] == w && p(w) && forall|j: int|
                    0 <= j < i ==> !p(#[trigger] s[j]),
            None => forall|j: int| 0 <= j < s.len() ==> !p(#[trigger] s[j]),
        },
    decreases s.len(),
{
    if s.len() > 0 {
        let t = s.drop_last();
        first_where_props(t, p);
        match first_where(t, p) {
            Some(w) => {
                let i = choose|i: int|
                    0 <= i < t.len() && #[trigger] t[i] == w && p(w) && forall|j: int|
                        0 <= j < i ==> !p(#[trigger] t[j]);
                assert(s[i] == w);
                assert forall|j: int| 0 <= j < i implies !p(#[trigger] s[j]) by {
                    assert(t[j] == s[j]);
                }
            },
            None => {
                assert forall|j: int| 0 <= j < s.len() - 1 implies !p(#[trigger] s[j]) by {
                    assert(t[j] == s[j]);
                }
                assert(s[s.len() - 1] == s.last());
            },
        }
    }
}

/// The tile that a dragged window would join is under the pointer, is another
/// window, a client, neither fullscreen nor presented maximized, and stands in a
/// column of the workspace on show; there is one just where some tile is all that.
pub proof fn drop_target_is_under_the_pointer(
    st: StateV,
    mi: int,
    win: WindowId,
    px: int,
    py: int,
)
    requires
        st.shows(mi),
    ensures
        ({
            let ws = st.monitors[mi].ws();
            &&& drop_target(st, mi, win, px, py) matches Some(t) ==> may_join(
                st,
                ws,
                win,
                t,
                px,
                py,
            ) && column_windows(ws.columns).contains(t)
            &&& drop_target(st, mi, win, px, py) is None ==> forall|t: WindowId|
                column_windows(ws.columns).contains(t) ==> !#[trigger] may_join(
                    st,
                    ws,
                    win,
                    t,
                    px,
                    py,
                )
        }),
{
    let ws = st.monitors[mi].ws();
    let s = column_windows(ws.columns);
    let p = joinable(st.clients, ws, win, px, py);
    first_where_props(s, p);
    match drop_target(st, mi, win, px, py) {
        Some(t) => {
            let i = choose|i: int|
                0 <= i < s.len() && #[trigger] s[i] == t && p(t) && forall|j: int|
                    0 <= j < i ==> !p(#[trigger] s[j]);
            assert(s.contains(t));
        },
        None => {
            assert forall|t: WindowId| s.contains(t) implies !#[trigger] may_join(
                st,
                ws,
                win,
                t,
                px,
                py,
            ) by {
                let i = choose|i: int| 0 <= i < s.len() && s[i] == t;
                assert(!p(s[i]));
            }
        },
    }
}

/// `t` is a client other than `win` under the pointer, neither fullscreen nor
/// presented maximized.
pub open spec fn may_join(
    st: StateV,
    ws: WorkspaceV,
    win: WindowId,
    t: WindowId,
    px: int,
    py: int,
) -> bool {
    &&& t != win && st.clients.contains_key(t)
    &&& !st.clients[t].flags.on(WinFlags::FULLSCREEN)
    &&& ws.presented_maximize != Some(t)
    &&& st.clients[t].geom.x <= px < st.clients[t].geom.x + st.clients[t].geom.w
    &&& st.clients[t].geom.y <= py < st.clients[t].geom.y + st.clients[t].geom.h
}

/// A click and a resize drop nothing anywhere.
pub proof fn only_a_move_drops(st: StateV, d: DragState, px: int, py: int)
    ensures
        !d.moved || d.resize ==> release_target(st, d, px, py) is None,
        d.moved && !d.resize ==> release_target(st, d, px, py) == drop_target(
            st,
            drag_monitor(st, d.win),
            d.win,
            px,
            py,
        ),
{
}

proof fn rows_above_props(clients: Map<WindowId, Client>, s: Seq<WindowId>, y: int)
    ensures
        ({
            let n = rows_above(clients, s, y);
            &&& 0 <= n <= s.len()
            &&& forall|i: int| 0 <= i < n ==> middle_above(clients, #[trigger] s[i], y)
            &&& n < s.len() ==> !middle_above(clients, s[n], y)
        }),
    decreases s.len(),
{
    if s.len() > 0 && middle_above(clients, s[0], y) {
        let t = s.skip(1);
        rows_above_props(clients, t, y);
        let n = rows_above(clients, s, y);
        assert forall|i: int| 0 <= i < n implies middle_above(clients, #[trigger] s[i], y) by {
            if i > 0 {
                assert(t[i - 1] == s[i]);
            }
        }
        if n < s.len() {
            assert(t[n - 1] == s[n]);
        }
    }
}

/// A window dropped on a tile stands in that tile's column, with the focus, below
/// the windows whose middle is above the pointer and above the first one whose is
/// not; it stands nowhere else, and every other window stays a tile or a float as it
/// was.
pub proof fn dropped_window_stands_at_the_pointer(
    clients: Map<WindowId, Client>,
    ws: WorkspaceV,
    win: WindowId,
    target: WindowId,
    y: int,
)
    requires
        target != win,
        ws.tiles(target),
    ensures
        ({
            let after = dropped_on(clients, ws, win, target, y);
            let c = after.columns[after.column_idx];
            let r = c.focused;
            &&& 0 <= after.column_idx < after.columns.len()
            &&& 0 <= r < c.windows.len() && c.windows[r] == win
            &&& c.windows.contains(target)
            &&& forall|i: int|
                0 <= i < r ==> clients.contains_key(#[trigger] c.windows[i])
                    && clients[c.windows[i]].geom.y + clients[c.windows[i]].geom.h / 2 < y
            &&& r + 1 < c.windows.len() && clients.contains_key(c.windows[r + 1])
                ==> clients[c.windows[r + 1]].geom.y + clients[c.windows[r + 1]].geom.h / 2 >= y
            &&& !after.floats.contains(win)
            &&& forall|x: WindowId|
                x != win ==> after.floats.contains(x) == #[trigger] ws.floats.contains(x)
            &&& forall|x: WindowId| x != win ==> after.tiles(x) == #[trigger] ws.tiles(x)
        }),
{
    let rest = ws.remove_window(win);
    crate::workspace::removal_touches_no_other_window(ws, win);
    column_of_holds(rest.columns, target);
    assert(ws.tiles(target));
    assert(rest.tiles(target));
    assert(column_of(rest.columns, target) is Some) by {
        let i = choose|i: int|
            0 <= i < rest.columns.len() && (#[trigger] rest.columns[i]).windows.contains(target);
        assert(rest.columns[i].windows.contains(target));
    }
    let ci = column_of(rest.columns, target)->0;
    let old_c = rest.columns[ci];
    let n = rows_above(clients, old_c.windows, y);
    rows_above_props(clients, old_c.windows, y);
    crate::workspace::joined_column_has_the_window_at_its_row(rest, ci, win, n);
    let after = dropped_on(clients, ws, win, target, y);
    let c = after.columns[ci];
    let k = choose|k: int| 0 <= k < old_c.windows.len() && old_c.windows[k] == target;
    assert(c.windows == old_c.windows.insert(n, win));
    assert(c.windows[if k < n {
        k
    } else {
        k + 1
    }] == target);
    assert forall|i: int| 0 <= i < n implies clients.contains_key(#[trigger] c.windows[i])
        && clients[c.windows[i]].geom.y + clients[c.windows[i]].geom.h / 2 < y by {
        assert(c.windows[i] == old_c.windows[i]);
    }
    assert forall|x: WindowId| x != win implies after.tiles(x) == #[trigger] ws.tiles(x) by {
        assert(rest.tiles(x) == ws.tiles(x));
        if rest.tiles(x) {
            let i = choose|i: int|
                0 <= i < rest.columns.len() && (#[trigger] rest.columns[i]).windows.contains(x);
            if i == ci {
                let q = choose|q: int| 0 <= q < old_c.windows.len() && old_c.windows[q] == x;
                assert(c.windows[if q < n {
                    q
                } else {
                    q + 1
                }] == x);
                assert(after.columns[ci].windows.contains(x));
            } else {
                assert(after.columns[i] == rest.columns[i]);
            }
        }
        if after.tiles(x) {
            let i = choose|i: int|
                0 <= i < after.columns.len() && (#[trigger] after.columns[i]).windows.contains(x);
            if i == ci {
                let q = choose|q: int| 0 <= q < c.windows.len() && c.windows[q] == x;
                assert(q != n);
                assert(old_c.windows[if q < n {
                    q
                } else {
                    q - 1
                }] == x);
                assert(rest.columns[ci].windows.contains(x));
            } else {
                assert(after.columns[i] == rest.columns[i]);
            }
        }
    }
}

/// Letting go over a tile makes a tile of the window; letting go elsewhere leaves a
/// floating window among the floats, out of the columns. Nothing else changes.
pub proof fn released_window_is_a_tile_or_a_float(st: StateV, d: DragState, px: int, py: int)
    requires
        st.shows(drag_monitor(st, d.win)),
        st.clients.contains_key(d.win),
    ensures
        ({
            let mi = drag_monitor(st, d.win);
            let m = st.monitors[mi];
            let after = released_state(st, d, px, py);
            let now = after.monitors[mi].workspaces[m.active_ws];
            let target = release_target(st, d, px, py);
            &&& target is Some ==> !after.clients[d.win].floats() && release_of(st, d, px, py)
                == Release::Dropped { monitor: mi as usize }
            &&& target is Some ==> now == dropped_on(st.clients, m.ws(), d.win, target->0, py)
            &&& target is None && st.clients[d.win].floats() ==> now.floats.contains(d.win)
            &&& target is None && st.clients[d.win].floats() && !m.ws().floats.contains(d.win)
                ==> !now.tiles(d.win) && release_of(st, d, px, py) == (Release::Floating {
                monitor: mi as usize,
                restack: true,
            })
            &&& target is None ==> after.clients == st.clients
            &&& target is None && (m.ws().floats.contains(d.win) || !st.clients[d.win].floats())
                ==> after == st && release_of(st, d, px, py) == (Release::Floating {
                monitor: mi as usize,
                restack: false,
            })
            &&& forall|x: WindowId|
                x != d.win && st.clients.contains_key(x) ==> #[trigger] after.clients[x]
                    == st.clients[x]
            &&& forall|i: int|
                0 <= i < st.monitors.len() && i != mi ==> #[trigger] after.monitors[i]
                    == st.monitors[i]
            &&& forall|k: int|
                0 <= k < m.workspaces.len() && k != m.active_ws ==> #[trigger]
                after.monitors[mi].workspaces[k] == m.workspaces[k]
        }),
{
    let mi = drag_monitor(st, d.win);
    let m = st.monitors[mi];
    crate::model::flag_is_as_it_was_set(st.clients[d.win].flags, WinFlags::FLOAT);
    crate::workspace::removal_touches_no_other_window(m.ws(), d.win);
    let f = m.ws().remove_window(d.win).add_float(d.win);
    assert(f.floats[f.floats.len() - 1] == d.win);
    assert(f.tiles(d.win) == m.ws().remove_window(d.win).tiles(d.win));
}

/// Only a change of the tile under the pointer is drawn: the one that was
/// highlighted loses that and the new one gains it; without a change nothing does.
pub proof fn highlight_moves_with_the_target(shown: Option<WindowId>, target: Option<WindowId>)
    ensures
        ({
            let p = preview_of(shown, target);
            &&& p.target == target
            &&& shown == target ==> p.restore is None && p.highlight is None
            &&& shown != target ==> p.restore == shown && p.highlight == target
        }),
{
}

} // verus!
