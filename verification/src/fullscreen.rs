//! Entering and leaving fullscreen and the maximized state.

use crate::compositor::at;
use crate::model::{Client, FullscreenPolicy, WinFlags, WindowId};
use crate::seqs::{without, without_window};
use crate::state::{State, StateV};
use crate::workspace::WorkspaceV;
use vstd::prelude::*;

verus! {

broadcast use vstd::std_specs::hash::group_hash_axioms;

// ---- Fullscreen -------------------------------------------------------------

/// A float that becomes fullscreen joins the tiles first, unless its fullscreen
/// is an overlay of its own.
pub open spec fn becomes_tile(c: Client, fs: bool) -> bool {
    fs && c.floats() && c.fullscreen_policy != FullscreenPolicy::True
}

/// A tile that was a float before it became fullscreen floats again.
pub open spec fn becomes_float(c: Client, fs: bool) -> bool {
    !fs && c.flags.on(WinFlags::FS_WAS_FLOAT)
}

/// The client among the tiles or floats where it belongs, before its flag changes.
pub open spec fn moved_client(c: Client, fs: bool) -> Client {
    if becomes_tile(c, fs) {
        Client {
            flags: c.flags.less(WinFlags::FLOAT).with(WinFlags::FS_WAS_FLOAT),
            saved_geom: c.geom,
            ..c
        }
    } else if becomes_float(c, fs) {
        Client { flags: c.flags.with(WinFlags::FLOAT).less(WinFlags::FS_WAS_FLOAT), ..c }
    } else {
        c
    }
}

/// The workspace with the window among its tiles or floats where it belongs.
pub open spec fn moved_ws(w: WorkspaceV, c: Client, fs: bool, width: u32) -> WorkspaceV {
    if becomes_tile(c, fs) {
        (WorkspaceV { floats: without(w.floats, c.window), ..w }).add_tiled(c.window, width)
    } else if becomes_float(c, fs) {
        w.remove_window(c.window).add_float(c.window)
    } else {
        w
    }
}

/// The client with its fullscreen state changed. The border goes while it is
/// fullscreen, and a float comes back where it was.
pub open spec fn flagged_client(c: Client, fs: bool) -> Client {
    if fs {
        Client {
            flags: c.flags.with(WinFlags::FULLSCREEN),
            saved_geom: if c.flags.with(WinFlags::FULLSCREEN).on(WinFlags::FS_WAS_FLOAT) {
                c.saved_geom
            } else {
                c.geom
            },
            old_border_w: c.border_w,
            border_w: 0,
            geometry_dirty: true,
            ..c
        }
    } else {
        let f = c.flags.less(WinFlags::FULLSCREEN);
        Client {
            flags: f,
            border_w: c.old_border_w,
            geom: if f.on(WinFlags::FLOAT) {
                c.saved_geom
            } else {
                c.geom
            },
            geometry_dirty: true,
            ..c
        }
    }
}

/// The client after a change of its fullscreen state.
pub open spec fn fullscreened(c: Client, fs: bool) -> Client {
    flagged_client(moved_client(c, fs), fs)
}

/// The state after a window's fullscreen state was set. Nothing changes for a
/// window that is not managed or is in that state already.
pub open spec fn fullscreen_set(st: StateV, win: WindowId, fs: bool, width: u32) -> StateV {
    match at(st.clients, win) {
        Some(c) => if c.fullscreen() == fs {
            st
        } else {
            let (mi, wi) = (c.monitor as int, c.workspace as int);
            let st1 = st.with_client(win, fullscreened(c, fs));
            if st.has_ws(mi, wi) {
                let m = st.monitors[mi];
                st1.with_mon(mi, m.with_ws(wi, moved_ws(m.workspaces[wi], c, fs, width)))
            } else {
                st1
            }
        },
        None => st,
    }
}

fn change_fullscreen(c: &mut Client, fs: bool)
    ensures
        *final(c) == fullscreened(*old(c), fs),
{
    if fs && c.is_float() && c.fullscreen_policy != FullscreenPolicy::True {
        c.flags.clear(WinFlags::FLOAT);
        c.flags.set(WinFlags::FS_WAS_FLOAT);
        c.saved_geom = c.geom;
    } else if !fs && c.flags.has(WinFlags::FS_WAS_FLOAT) {
        c.flags.set(WinFlags::FLOAT);
        c.flags.clear(WinFlags::FS_WAS_FLOAT);
    }
    if fs {
        c.flags.set(WinFlags::FULLSCREEN);
        if !c.flags.has(WinFlags::FS_WAS_FLOAT) {
            c.saved_geom = c.geom;
        }
        c.old_border_w = c.border_w;
        c.border_w = 0;
    } else {
        c.flags.clear(WinFlags::FULLSCREEN);
        c.border_w = c.old_border_w;
        if c.is_float() {
            c.geom = c.saved_geom;
        }
    }
    c.geometry_dirty = true;
}

/// What is left to do after a change of the fullscreen state.
#[derive(Debug, Clone, Copy, PartialEq, Eq, Structural)]
pub struct FullscreenChange {
    /// The monitor to lay out anew.
    pub monitor: usize,
    pub workspace: usize,
    /// The fullscreen window is a tile: the ribbon's camera is to be aimed anew.
    pub recenter: bool,
}

impl State {
    /// Make a window fullscreen or end that. Returns what is left to do, or nothing
    /// where nothing changed.
    pub fn set_fullscreen(&mut self, win: WindowId, fs: bool, width: u32) -> (r: Option<
        FullscreenChange,
    >)
        requires
            old(self)@.clients.contains_key(win) ==> old(self)@.clients[win].window == win,
        ensures
            final(self)@ == fullscreen_set(old(self)@, win, fs, width),
            r == (match at(old(self)@.clients, win) {
                Some(c) => if c.fullscreen() == fs {
                    None
                } else {
                    Some(
                        FullscreenChange {
                            monitor: c.monitor,
                            workspace: c.workspace,
                            recenter: !fullscreened(c, fs).true_fullscreen(),
                        },
                    )
                },
                None => None,
            }),
    {
        let ghost st = self@;
        let ghost before = self.clients@;
        let same: bool = match self.clients.get(&win) {
            Some(c) => c.is_fullscreen() == fs,
            None => true,
        };
        if same {
            return None;
        }
        let mut c: Client = match self.clients.remove(&win) {
            Some(c) => c,
            None => {
                return None;
            },
        };
        let ghost c0 = c;
        let (mi, wi): (usize, usize) = (c.monitor, c.workspace);
        let to_tile: bool = fs && c.is_float() && c.fullscreen_policy != FullscreenPolicy::True;
        let to_float: bool = !fs && c.flags.has(WinFlags::FS_WAS_FLOAT);
        change_fullscreen(&mut c, fs);
        let recenter: bool = !c.is_true_fullscreen();
        self.clients.insert(win, c);
        assert(self.clients@ =~= before.insert(win, c));
        if mi < self.monitors.len() {
            assert(st.monitors[mi as int] == self.monitors@[mi as int]@);
            if wi < self.monitors[mi].workspaces.len() {
                let ghost m0 = self.monitors@[mi as int]@;
                let ghost w0 = m0.workspaces[wi as int];
                assert(w0 == self.monitors@[mi as int].workspaces@[wi as int]@);
                if to_tile {
                    let floats: Vec<WindowId> = without_window(
                        &self.monitors[mi].workspaces[wi].floats,
                        win,
                    );
                    self.monitors[mi].workspaces[wi].floats = floats;
                    self.monitors[mi].workspaces[wi].add_tiled(win, width);
                } else if to_float {
                    self.monitors[mi].workspaces[wi].remove_window(win);
                    self.monitors[mi].workspaces[wi].add_float(win);
                }
                proof {
                    let m1 = self.monitors@[mi as int]@;
                    assert(m1.workspaces =~= m0.workspaces.update(
                        wi as int,
                        moved_ws(w0, c0, fs, width),
                    ));
                    assert(self@.monitors =~= st.monitors.update(
                        mi as int,
                        m0.with_ws(wi as int, moved_ws(w0, c0, fs, width)),
                    ));
                }
            }
        }
        Some(FullscreenChange { monitor: mi, workspace: wi, recenter })
    }
}

/// The words of the flags that fullscreen touches.
proof fn fullscreen_bits(b: u16)
    ensures
        (b & !1u16 | 256u16 | 2u16) & 256u16 != 0,
        (b & !1u16 | 256u16 | 2u16) & 2u16 != 0,
        (b | 2u16) & 2u16 != 0,
        (b | 2u16) & 256u16 == b & 256u16,
        ((b | 2u16) & !2u16) & 1u16 == b & 1u16,
        (((b & !1u16 | 256u16 | 2u16) | 1u16) & !256u16 & !2u16) & 1u16 != 0,
        (((b & !1u16 | 256u16 | 2u16) | 1u16) & !256u16 & !2u16) & 256u16 == 0,
{
    assert((b & !1u16 | 256u16 | 2u16) & 256u16 != 0 && (b & !1u16 | 256u16 | 2u16) & 2u16 != 0 && (
    b | 2u16) & 2u16 != 0 && (b | 2u16) & 256u16 == b & 256u16 && ((b | 2u16) & !2u16) & 1u16 == b
        & 1u16 && (((b & !1u16 | 256u16 | 2u16) | 1u16) & !256u16 & !2u16) & 1u16 != 0 && (((b
        & !1u16 | 256u16 | 2u16) | 1u16) & !256u16 & !2u16) & 256u16 == 0) by (bit_vector);
}

/// Leaving fullscreen undoes entering it: the border is back, a float floats again
/// and is where it was, and a tile is a tile.
pub proof fn leaving_fullscreen_restores_the_window(c: Client)
    requires
        !c.fullscreen(),
        !c.flags.on(WinFlags::FS_WAS_FLOAT),
    ensures
        ({
            let back = fullscreened(fullscreened(c, true), false);
            &&& fullscreened(c, true).fullscreen()
            &&& !back.fullscreen()
            &&& back.border_w == c.border_w
            &&& back.floats() == c.floats()
            &&& c.floats() ==> back.geom == c.geom
            &&& !back.flags.on(WinFlags::FS_WAS_FLOAT)
        }),
{
    let b = c.flags.bits;
    fullscreen_bits(b);
    assert((b & !2u16) & 2u16 == 0 && ((b | 2u16) & !2u16) & 2u16 == 0 && (((b & !1u16 | 256u16
        | 2u16) | 1u16) & !256u16 & !2u16) & 2u16 == 0 && ((b | 2u16) & !2u16) & 256u16 == b
        & 256u16) by (bit_vector);
}

/// While it is fullscreen a window has no border.
pub proof fn fullscreen_window_has_no_border(c: Client)
    ensures
        fullscreened(c, true).border_w == 0,
        fullscreened(c, true).geometry_dirty,
{
}

// ---- Maximized --------------------------------------------------------------

pub open spec fn set_flag(f: WinFlags, flag: u16, on: bool) -> WinFlags {
    if on {
        f.with(flag)
    } else {
        f.less(flag)
    }
}

/// What an axis becomes: `None` leaves it alone.
pub open spec fn wanted(req: Option<bool>, cur: bool) -> bool {
    match req {
        Some(b) => b,
        None => cur,
    }
}

/// The request would change nothing.
pub open spec fn already_maximized(c: Client, vert: Option<bool>, horiz: Option<bool>) -> bool {
    let v = c.flags.on(WinFlags::MAXIMIZED_V);
    let h = c.flags.on(WinFlags::MAXIMIZED_H);
    wanted(vert, v) == v && wanted(horiz, h) == h
}

/// The client with its axes maximized or not. Where it was is remembered when the
/// first axis is, and a float is back there once none is.
pub open spec fn maximized_client(c: Client, vert: Option<bool>, horiz: Option<bool>) -> Client {
    let v = wanted(vert, c.flags.on(WinFlags::MAXIMIZED_V));
    let h = wanted(horiz, c.flags.on(WinFlags::MAXIMIZED_H));
    let f = set_flag(set_flag(c.flags, WinFlags::MAXIMIZED_V, v), WinFlags::MAXIMIZED_H, h);
    let d = Client { flags: f, geometry_dirty: true, ..c };
    if !c.maximized() {
        Client { saved_geom: c.geom, ..d }
    } else if !d.maximized() && d.floats() {
        Client { geom: c.saved_geom, ..d }
    } else {
        d
    }
}

/// The state after a window's axes were maximized or not.
pub open spec fn maximized_set(
    st: StateV,
    win: WindowId,
    vert: Option<bool>,
    horiz: Option<bool>,
) -> StateV {
    match at(st.clients, win) {
        Some(c) => if already_maximized(c, vert, horiz) {
            st
        } else {
            st.with_client(win, maximized_client(c, vert, horiz))
        },
        None => st,
    }
}

/// What is left to do after a change of the maximized state.
#[derive(Debug, Clone, Copy, PartialEq, Eq, Structural)]
pub struct MaximizeChange {
    /// The monitor to lay out anew.
    pub monitor: usize,
    /// The window is to be raised: it is maximized and has the focus.
    pub raise: bool,
}

impl State {
    /// Maximize a window on the given axes or end that; `None` leaves an axis
    /// alone. Returns what is left to do, or nothing where nothing changed or the
    /// window is not managed.
    pub fn set_maximized(&mut self, win: WindowId, vert: Option<bool>, horiz: Option<bool>) -> (r:
        Option<MaximizeChange>)
        ensures
            final(self)@ == maximized_set(old(self)@, win, vert, horiz),
            r == (match at(old(self)@.clients, win) {
                Some(c) => if already_maximized(c, vert, horiz) {
                    None
                } else {
                    Some(
                        MaximizeChange {
                            monitor: c.monitor,
                            raise: maximized_client(c, vert, horiz).maximized() && c.monitor
                                < old(self)@.monitors.len()
                                && old(self)@.monitors[c.monitor as int].focused == Some(win),
                        },
                    )
                },
                None => None,
            }),
    {
        let ghost before = self.clients@;
        let same: bool = match self.clients.get(&win) {
            Some(c) => {
                let v: bool = c.is_maximized_v();
                let h: bool = c.is_maximized_h();
                let want_v: bool = match vert {
                    Some(b) => b,
                    None => v,
                };
                let want_h: bool = match horiz {
                    Some(b) => b,
                    None => h,
                };
                want_v == v && want_h == h
            },
            None => true,
        };
        if same {
            return None;
        }
        let mut c: Client = match self.clients.remove(&win) {
            Some(c) => c,
            None => {
                return None;
            },
        };
        let was_max: bool = c.is_maximized();
        let want_v: bool = match vert {
            Some(b) => b,
            None => c.is_maximized_v(),
        };
        let want_h: bool = match horiz {
            Some(b) => b,
            None => c.is_maximized_h(),
        };
        if want_v {
            c.flags.set(WinFlags::MAXIMIZED_V);
        } else {
            c.flags.clear(WinFlags::MAXIMIZED_V);
        }
        if want_h {
            c.flags.set(WinFlags::MAXIMIZED_H);
        } else {
            c.flags.clear(WinFlags::MAXIMIZED_H);
        }
        if !was_max {
            c.saved_geom = c.geom;
        } else if !c.is_maximized() && c.is_float() {
            c.geom = c.saved_geom;
        }
        c.geometry_dirty = true;
        let mi: usize = c.monitor;
        let max: bool = c.is_maximized();
        self.clients.insert(win, c);
        assert(self.clients@ =~= before.insert(win, c));
        let raise: bool = if max && mi < self.monitors.len() {
            assert(self@.monitors[mi as int] == self.monitors@[mi as int]@);
            match self.monitors[mi].focused {
                Some(f) => f == win,
                None => false,
            }
        } else {
            false
        };
        Some(MaximizeChange { monitor: mi, raise })
    }
}

/// One axis is maximized without touching the other.
pub proof fn axes_are_independent(c: Client, b: bool)
    ensures
        maximized_client(c, Some(b), None).flags.on(WinFlags::MAXIMIZED_V) == b,
        maximized_client(c, Some(b), None).flags.on(WinFlags::MAXIMIZED_H) == c.flags.on(
            WinFlags::MAXIMIZED_H,
        ),
        maximized_client(c, None, Some(b)).flags.on(WinFlags::MAXIMIZED_H) == b,
        maximized_client(c, None, Some(b)).flags.on(WinFlags::MAXIMIZED_V) == c.flags.on(
            WinFlags::MAXIMIZED_V,
        ),
{
    let f = c.flags.bits;
    assert((f | 4u16) & 4u16 != 0 && (f & !4u16) & 4u16 == 0 && (f | 8u16) & 8u16 != 0 && (f
        & !8u16) & 8u16 == 0 && (f | 4u16) & 8u16 == f & 8u16 && (f & !4u16) & 8u16 == f & 8u16 && (
    f | 8u16) & 4u16 == f & 4u16 && (f & !8u16) & 4u16 == f & 4u16 && ((f | 4u16) | 8u16) & 8u16
        != 0 && ((f | 4u16) & !8u16) & 8u16 == 0 && ((f & !4u16) | 8u16) & 8u16 != 0 && ((f
        & !4u16) & !8u16) & 8u16 == 0 && ((f | 4u16) | 8u16) & 4u16 != 0 && ((f | 4u16) & !8u16)
        & 4u16 != 0 && ((f & !4u16) | 8u16) & 4u16 == 0 && ((f & !4u16) & !8u16) & 4u16 == 0)
        by (bit_vector);
}

/// A float that is maximized and no longer is, is back where it was.
pub proof fn unmaximized_float_is_where_it_was(c: Client)
    requires
        c.floats(),
        !c.maximized(),
    ensures
        maximized_client(
            maximized_client(c, Some(true), Some(true)),
            Some(false),
            Some(false),
        ).geom == c.geom,
{
    let f = c.flags.bits;
    let g = (f | 4u16) | 8u16;
    assert(g & 4u16 != 0 && ((g & !4u16) & !8u16) & 4u16 == 0 && ((g & !4u16) & !8u16) & 8u16 == 0
        && ((g & !4u16) & !8u16) & 1u16 == f & 1u16) by (bit_vector)
        requires
            g == (f | 4u16) | 8u16,
    ;
}

// ---- What the changes are for -----------------------------------------------

/// Becoming fullscreen takes the border and remembers it, whatever the window was
/// before. A float becomes a tile for the time, unless its fullscreen is exclusive,
/// and where it was is remembered. Everything else of the client stays.
pub proof fn fullscreen_window_is_a_borderless_tile(c: Client)
    requires
        !c.fullscreen(),
        !c.flags.on(WinFlags::FS_WAS_FLOAT),
    ensures
        ({
            let d = fullscreened(c, true);
            let tiled = c.flags.on(WinFlags::FLOAT) && c.fullscreen_policy
                != FullscreenPolicy::True;
            &&& d.flags.on(WinFlags::FULLSCREEN)
            &&& d.border_w == 0 && d.old_border_w == c.border_w
            &&& d.flags.on(WinFlags::FLOAT) == (c.flags.on(WinFlags::FLOAT) && !tiled)
            &&& d.flags.on(WinFlags::FS_WAS_FLOAT) == tiled
            &&& d.saved_geom == c.geom && d.geom == c.geom
            &&& d.geometry_dirty
            &&& d == (Client {
                flags: d.flags,
                saved_geom: d.saved_geom,
                border_w: d.border_w,
                old_border_w: d.old_border_w,
                geometry_dirty: d.geometry_dirty,
                ..c
            })
        }),
{
    let b = c.flags.bits;
    assert(b & 256u16 == 0 ==> {
        &&& (b | 2u16) & 2u16 != 0 && (b | 2u16) & 1u16 == b & 1u16 && (b | 2u16) & 256u16 == 0
        &&& (b & !1u16 | 256u16 | 2u16) & 1u16 == 0 && (b & !1u16 | 256u16 | 2u16) & 2u16 != 0
        &&& (b & !1u16 | 256u16 | 2u16) & 256u16 != 0
    }) by (bit_vector);
}

/// Leaving fullscreen gives the border back that was remembered; a window that was
/// a float floats again, where it was, and a tile stays where the layout has it.
pub proof fn window_left_by_fullscreen_has_its_border(c: Client)
    requires
        c.fullscreen(),
    ensures
        ({
            let d = fullscreened(c, false);
            &&& !d.flags.on(WinFlags::FULLSCREEN) && !d.flags.on(WinFlags::FS_WAS_FLOAT)
            &&& d.border_w == c.old_border_w
            &&& d.flags.on(WinFlags::FLOAT) == (c.flags.on(WinFlags::FLOAT) || c.flags.on(
                WinFlags::FS_WAS_FLOAT,
            ))
            &&& d.flags.on(WinFlags::FLOAT) ==> d.geom == c.saved_geom
            &&& !d.flags.on(WinFlags::FLOAT) ==> d.geom == c.geom
            &&& d == (Client {
                flags: d.flags,
                geom: d.geom,
                border_w: d.border_w,
                geometry_dirty: true,
                ..c
            })
        }),
{
    let b = c.flags.bits;
    assert({
        &&& (b & !2u16) & 2u16 == 0 && (b & !2u16) & 1u16 == b & 1u16 && (b & !2u16) & 256u16 == b
            & 256u16
        &&& ((b | 1u16) & !256u16 & !2u16) & 1u16 != 0 && ((b | 1u16) & !256u16 & !2u16) & 2u16
            == 0 && ((b | 1u16) & !256u16 & !2u16) & 256u16 == 0
    }) by (bit_vector);
}

/// After a change of its fullscreen state a window stands in a column of its
/// workspace just where it is a tile and among the floats just where it floats, as
/// it did before; no other window changes its place, and no other client changes.
/// Asking for the state it has changes nothing.
pub proof fn fullscreen_keeps_windows_in_place(st: StateV, win: WindowId, fs: bool, width: u32)
    requires
        st.clients.contains_key(win),
        st.clients[win].window == win,
        ({
            let c = st.clients[win];
            let w = st.monitors[c.monitor as int].workspaces[c.workspace as int];
            &&& st.has_ws(c.monitor as int, c.workspace as int)
            &&& w.column_idx >= 0
            &&& w.tiles(win) == !c.floats() && w.floats.contains(win) == c.floats()
            &&& c.fullscreen() ==> !(c.floats() && c.flags.on(WinFlags::FS_WAS_FLOAT))
            &&& !c.fullscreen() ==> !c.flags.on(WinFlags::FS_WAS_FLOAT)
        }),
    ensures
        ({
            let c = st.clients[win];
            let (mi, wi) = (c.monitor as int, c.workspace as int);
            let w = st.monitors[mi].workspaces[wi];
            let after = fullscreen_set(st, win, fs, width);
            let now = after.monitors[mi].workspaces[wi];
            &&& after.clients[win].fullscreen() == fs
            &&& c.fullscreen() == fs ==> after == st
            &&& now.tiles(win) == !after.clients[win].floats()
            &&& now.floats.contains(win) == after.clients[win].floats()
            &&& forall|x: WindowId| x != win ==> now.tiles(x) == #[trigger] w.tiles(x)
            &&& forall|x: WindowId|
                x != win ==> now.floats.contains(x) == #[trigger] w.floats.contains(x)
            &&& forall|x: WindowId|
                x != win && st.clients.contains_key(x) ==> #[trigger] after.clients[x]
                    == st.clients[x]
            &&& forall|i: int|
                0 <= i < st.monitors.len() && i != mi ==> #[trigger] after.monitors[i]
                    == st.monitors[i]
            &&& forall|k: int|
                0 <= k < st.monitors[mi].workspaces.len() && k != wi ==> #[trigger]
                after.monitors[mi].workspaces[k] == st.monitors[mi].workspaces[k]
            &&& after.sel_mon == st.sel_mon && after.pending_focus == st.pending_focus
        }),
{
    let c = st.clients[win];
    let (mi, wi) = (c.monitor as int, c.workspace as int);
    let w = st.monitors[mi].workspaces[wi];
    let now = moved_ws(w, c, fs, width);
    if c.fullscreen() != fs {
        if fs {
            fullscreen_window_is_a_borderless_tile(c);
        } else {
            window_left_by_fullscreen_has_its_border(c);
        }
        crate::workspace::removal_touches_no_other_window(w, win);
        crate::seqs::without_contains(w.floats, win);
        let bare = WorkspaceV { floats: without(w.floats, win), ..w };
        crate::workspace::tiled_window_opens_a_column(bare, win, width);
        assert forall|x: WindowId| bare.tiles(x) == #[trigger] w.tiles(x) by {
            assert(bare.columns == w.columns);
        }
        let r = w.remove_window(win);
        let f = r.add_float(win);
        assert(f.floats[r.floats.len() as int] == win);
        assert forall|x: WindowId| f.tiles(x) == #[trigger] r.tiles(x) by {
            assert(f.columns == r.columns);
        }
        assert forall|x: WindowId| x != win implies f.floats.contains(x) == #[trigger] r.floats.contains(
            x,
        ) by {
            if r.floats.contains(x) {
                let i = choose|i: int| 0 <= i < r.floats.len() && r.floats[i] == x;
                assert(f.floats[i] == x);
            }
        }
        assert forall|x: WindowId| x != win implies now.tiles(x) == #[trigger] w.tiles(x) by {
            assert(bare.tiles(x) == w.tiles(x));
            assert(r.tiles(x) == w.tiles(x));
        }
        assert forall|x: WindowId| x != win implies now.floats.contains(x) == #[trigger] w.floats.contains(
            x,
        ) by {
            assert(r.floats.contains(x) == w.floats.contains(x));
        }
    }
}

/// Each axis becomes what is asked of it and stays where nothing is. Where a window
/// was is remembered as its first axis is maximized, and a float is back there once
/// none is; a window that keeps some axis maximized keeps its place. Nothing else of
/// the client changes, and asking for what is already so changes nothing.
pub proof fn axes_become_what_is_asked(
    st: StateV,
    win: WindowId,
    vert: Option<bool>,
    horiz: Option<bool>,
)
    requires
        st.clients.contains_key(win),
    ensures
        ({
            let c = st.clients[win];
            let after = maximized_set(st, win, vert, horiz);
            let d = after.clients[win];
            let was = c.flags.on(WinFlags::MAXIMIZED_V) || c.flags.on(WinFlags::MAXIMIZED_H);
            let now = d.flags.on(WinFlags::MAXIMIZED_V) || d.flags.on(WinFlags::MAXIMIZED_H);
            &&& vert is Some ==> d.flags.on(WinFlags::MAXIMIZED_V) == vert->0
            &&& vert is None ==> d.flags.on(WinFlags::MAXIMIZED_V) == c.flags.on(
                WinFlags::MAXIMIZED_V,
            )
            &&& horiz is Some ==> d.flags.on(WinFlags::MAXIMIZED_H) == horiz->0
            &&& horiz is None ==> d.flags.on(WinFlags::MAXIMIZED_H) == c.flags.on(
                WinFlags::MAXIMIZED_H,
            )
            &&& d.floats() == c.floats() && d.fullscreen() == c.fullscreen()
            &&& !was && now ==> d.saved_geom == c.geom && d.geom == c.geom
            &&& was && !now && c.floats() ==> d.geom == c.saved_geom
            &&& was && now ==> d.geom == c.geom && d.saved_geom == c.saved_geom
            &&& was && !now && !c.floats() ==> d.geom == c.geom
            &&& d == (Client {
                flags: d.flags,
                geom: d.geom,
                saved_geom: d.saved_geom,
                geometry_dirty: d.geometry_dirty,
                ..c
            })
            &&& after == (StateV { clients: st.clients.insert(win, d), ..st })
        }),
{
    let c = st.clients[win];
    let b = c.flags.bits;
    assert(forall|f: u16| #![trigger f & 0u16]
        (f & 0u16 == 0) && ((f | 4u16) & 4u16 != 0) && ((f & !4u16) & 4u16 == 0) && ((f | 4u16)
            & 8u16 == f & 8u16) && ((f & !4u16) & 8u16 == f & 8u16) && ((f | 8u16) & 8u16 != 0)
            && ((f & !8u16) & 8u16 == 0) && ((f | 8u16) & 4u16 == f & 4u16) && ((f & !8u16) & 4u16
            == f & 4u16) && ((f | 8u16) & 1u16 == f & 1u16) && ((f & !8u16) & 1u16 == f & 1u16)
            && ((f | 4u16) & 1u16 == f & 1u16) && ((f & !4u16) & 1u16 == f & 1u16) && ((f | 8u16)
            & 2u16 == f & 2u16) && ((f & !8u16) & 2u16 == f & 2u16) && ((f | 4u16) & 2u16 == f
            & 2u16) && ((f & !4u16) & 2u16 == f & 2u16)) by (bit_vector);
    let v = wanted(vert, c.flags.on(WinFlags::MAXIMIZED_V));
    let f1 = set_flag(c.flags, WinFlags::MAXIMIZED_V, v);
    assert(b & 0u16 == 0 && f1.bits & 0u16 == 0);
    let d = maximized_set(st, win, vert, horiz).clients[win];
    assert(st.clients.insert(win, c) =~= st.clients);
}

} // verus!
