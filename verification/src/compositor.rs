//! The compositor's bookkeeping: which windows it tracks, where they are drawn,
//! and what each event of the server changes.

use crate::damage::{extent, extent_is_tight, span, DamageRegion, DamageRegionV, DirtyReason};
use crate::geom::Rect;
use crate::seqs::{contains_window, without};
use crate::stacking::{restacked, stack_add_top, stack_remove, stack_restack};
use crate::state::client_ids;
use crate::xproto::{visual_class, window_class, VisualClassNumbers, WindowClassNumbers};
use std::collections::HashMap;
use vstd::prelude::*;

verus! {

broadcast use vstd::std_specs::hash::group_hash_axioms;

// ---- Visuals ----------------------------------------------------------------

/// How the pixels of a visual are laid out.
#[derive(Debug, Clone, Copy, PartialEq, Eq, Structural)]
pub struct VisualFormat {
    pub id: u32,
    pub depth: u8,
    pub red_bits: u8,
    pub green_bits: u8,
    pub blue_bits: u8,
    pub alpha_bits: u8,
    /// The pixel value holds the colour itself.
    pub direct: bool,
}

impl VisualFormat {
    pub open spec fn colour(self) -> int {
        self.red_bits + self.green_bits + self.blue_bits
    }

    /// Bits of colour per pixel.
    pub fn color_bits(&self) -> (n: u32)
        ensures
            n == self.colour(),
    {
        self.red_bits as u32 + self.green_bits as u32 + self.blue_bits as u32
    }

    /// Whether colours come out coarser than true colour shows them.
    pub fn is_coarse(&self) -> (b: bool)
        ensures
            b == (self.colour() < 24),
    {
        self.color_bits() < 24
    }
}

/// A visual of `depth` that can, or cannot, be bound to a texture.
pub open spec fn of_depth(depth: u8, bindable: bool) -> spec_fn((u8, bool)) -> bool {
    |e: (u8, bool)| e.0 == depth && e.1 == bindable
}

/// How many visuals of a depth can, or cannot, be bound to a texture.
pub open spec fn tally(entries: Seq<(u8, bool)>, depth: u8, bindable: bool) -> nat {
    entries.filter(of_depth(depth, bindable)).len()
}

/// A report has a line on a depth.
pub open spec fn reports_on(report: Seq<(u8, usize, usize)>, depth: u8) -> bool {
    exists|i: int| 0 <= i < report.len() && (#[trigger] report[i]).0 == depth
}

/// Each depth once, in ascending order.
pub open spec fn depths_ascend(report: Seq<(u8, usize, usize)>) -> bool {
    forall|i: int, j: int|
        0 <= i < j < report.len() ==> (#[trigger] report[i]).0 < (#[trigger] report[j]).0
}

/// Every line of a report tells how many visuals of its depth can be bound and
/// how many cannot, and there is one at least.
pub open spec fn lines_count(
    entries: Seq<(u8, bool)>,
    report: Seq<(u8, usize, usize)>,
) -> bool {
    forall|i: int|
        #![trigger report[i]]
        0 <= i < report.len() ==> report[i].1 == tally(entries, report[i].0, true) && report[i].2
            == tally(entries, report[i].0, false) && report[i].1 + report[i].2 > 0
}

fn count_of(entries: &Vec<(u8, bool)>, depth: u8, bindable: bool) -> (n: usize)
    ensures
        n == tally(entries@, depth, bindable),
        n == 0 <==> forall|j: int|
            0 <= j < entries.len() ==> !((#[trigger] entries@[j]).0 == depth && entries@[j].1
                == bindable),
{
    let ghost p = of_depth(depth, bindable);
    let mut n: usize = 0;
    let mut i: usize = 0;
    proof {
        reveal(Seq::filter);
        assert(entries@.take(0).filter(p).len() == 0);
    }
    while i < entries.len()
        invariant
            n <= i <= entries.len(),
            p == of_depth(depth, bindable),
            n == entries@.take(i as int).filter(p).len(),
            n == 0 <==> forall|j: int| 0 <= j < i ==> !p(#[trigger] entries@[j]),
        decreases entries.len() - i,
    {
        proof {
            reveal(Seq::filter);
            assert(entries@.take(i as int + 1).drop_last() =~= entries@.take(i as int));
        }
        let e: (u8, bool) = entries[i];
        if e.0 == depth && e.1 == bindable {
            assert(p(entries@[i as int]));
            n = n + 1;
        }
        i = i + 1;
    }
    assert(entries@.take(i as int) =~= entries@);
    n
}

/// Sum up, for each depth that the server offers, how many of its visuals can be
/// bound to a texture and how many cannot. Windows of the latter are not drawn.
pub fn depth_report(entries: &Vec<(u8, bool)>) -> (out: Vec<(u8, usize, usize)>)
    ensures
        depths_ascend(out@),
        lines_count(entries@, out@),
        forall|j: int|
            0 <= j < entries.len() ==> reports_on(out@, (#[trigger] entries@[j]).0),
{
    let mut out: Vec<(u8, usize, usize)> = Vec::new();
    let mut d: u16 = 0;
    while d < 256
        invariant
            d <= 256,
            depths_ascend(out@),
            lines_count(entries@, out@),
            forall|i: int| 0 <= i < out.len() ==> (#[trigger] out@[i]).0 < d,
            forall|j: int|
                0 <= j < entries.len() && (#[trigger] entries@[j]).0 < d ==> reports_on(
                    out@,
                    entries@[j].0,
                ),
        decreases 256 - d,
    {
        let depth: u8 = d as u8;
        let bound: usize = count_of(entries, depth, true);
        let unbound: usize = count_of(entries, depth, false);
        let ghost before = out@;
        if bound > 0 || unbound > 0 {
            out.push((depth, bound, unbound));
        }
        proof {
            assert forall|j: int| 0 <= j < entries.len() && (#[trigger] entries@[j]).0
                < d + 1 implies reports_on(out@, entries@[j].0) by {
                if entries@[j].0 < d {
                    let i = choose|i: int|
                        0 <= i < before.len() && (#[trigger] before[i]).0 == entries@[j].0;
                    assert(out@[i] == before[i]);
                } else {
                    assert(out@[before.len() as int].0 == depth);
                }
            }
        }
        d = d + 1;
    }
    out
}

/// A visual as the server advertises it.
#[derive(Debug, Clone, Copy)]
pub struct VisualInfo {
    pub id: u32,
    pub class: u8,
    pub red_mask: u32,
    pub green_mask: u32,
    pub blue_mask: u32,
}

/// A depth with its visuals.
#[derive(Debug)]
pub struct DepthInfo {
    pub depth: u8,
    pub visuals: Vec<VisualInfo>,
}

/// How many bits are set in a number.
pub open spec fn ones(n: nat) -> nat
    decreases n,
{
    if n == 0 {
        0
    } else {
        n % 2 + ones(n / 2)
    }
}

/// A number below a power of two has at most as many bits.
proof fn ones_at_most(n: nat, k: nat)
    requires
        n < vstd::arithmetic::power2::pow2(k),
    ensures
        ones(n) <= k,
    decreases k,
{
    if n > 0 {
        if k == 0 {
            vstd::arithmetic::power2::lemma2_to64();
        } else {
            vstd::arithmetic::power2::lemma_pow2_unfold(k);
            ones_at_most(n / 2, (k - 1) as nat);
        }
    }
}

fn count_ones(n: u32) -> (c: u8)
    ensures
        c == ones(n as nat),
        c <= 32,
{
    proof {
        vstd::arithmetic::power2::lemma2_to64();
        ones_at_most(n as nat, 32);
    }
    let mut left: u32 = n;
    let mut c: u8 = 0;
    while left > 0
        invariant
            c + ones(left as nat) == ones(n as nat),
            ones(n as nat) <= 32,
        decreases left,
    {
        c = c + (left % 2) as u8;
        left = left / 2;
    }
    c
}

/// The format of an advertised visual. The server reports no alpha mask: the
/// bits of the depth that no colour mask covers are the alpha.
pub open spec fn format_of(depth: u8, v: VisualInfo) -> VisualFormat {
    let direct = v.class == 4 || v.class == 5;
    let colour = ones((v.red_mask | v.green_mask | v.blue_mask) as nat);
    VisualFormat {
        id: v.id,
        depth,
        red_bits: if direct {
            ones(v.red_mask as nat) as u8
        } else {
            0
        },
        green_bits: if direct {
            ones(v.green_mask as nat) as u8
        } else {
            0
        },
        blue_bits: if direct {
            ones(v.blue_mask as nat) as u8
        } else {
            0
        },
        alpha_bits: if direct && depth > colour {
            (depth - colour) as u8
        } else {
            0
        },
        direct,
    }
}

/// The formats of the visuals of a depth.
pub open spec fn depth_formats(depth: u8, visuals: Seq<VisualInfo>) -> Seq<VisualFormat> {
    visuals.map_values(|v: VisualInfo| format_of(depth, v))
}

/// The formats of the visuals of every depth, in order.
pub open spec fn all_formats(depths: Seq<DepthInfo>) -> Seq<VisualFormat>
    decreases depths.len(),
{
    if depths.len() == 0 {
        Seq::empty()
    } else {
        all_formats(depths.drop_last()) + depth_formats(depths.last().depth, depths.last().visuals@)
    }
}

fn visual_format(depth: u8, v: &VisualInfo) -> (f: VisualFormat)
    ensures
        f == format_of(depth, *v),
{
    let classes: VisualClassNumbers = visual_class();
    let direct: bool = v.class == classes.true_color || v.class == classes.direct_color;
    let colour: u8 = count_ones(v.red_mask | v.green_mask | v.blue_mask);
    let red: u8 = count_ones(v.red_mask);
    let green: u8 = count_ones(v.green_mask);
    let blue: u8 = count_ones(v.blue_mask);
    VisualFormat {
        id: v.id,
        depth,
        red_bits: if direct {
            red
        } else {
            0
        },
        green_bits: if direct {
            green
        } else {
            0
        },
        blue_bits: if direct {
            blue
        } else {
            0
        },
        alpha_bits: if direct && depth > colour {
            depth - colour
        } else {
            0
        },
        direct,
    }
}

/// Flatten the depths of a screen into a table of visual formats.
pub fn screen_visuals(depths: &Vec<DepthInfo>) -> (out: Vec<VisualFormat>)
    ensures
        out@ == all_formats(depths@),
{
    let mut out: Vec<VisualFormat> = Vec::new();
    let mut i: usize = 0;
    while i < depths.len()
        invariant
            i <= depths.len(),
            out@ == all_formats(depths@.take(i as int)),
        decreases depths.len() - i,
    {
        let d: &DepthInfo = &depths[i];
        let ghost before = out@;
        let ghost here = depth_formats(d.depth, d.visuals@);
        let mut j: usize = 0;
        assert(out@ =~= before + here.take(0));
        while j < d.visuals.len()
            invariant
                j <= d.visuals.len(),
                here == depth_formats(d.depth, d.visuals@),
                out@ == before + here.take(j as int),
            decreases d.visuals.len() - j,
        {
            out.push(visual_format(d.depth, &d.visuals[j]));
            assert(out@ =~= before + here.take(j as int + 1));
            j = j + 1;
        }
        proof {
            assert(here.take(j as int) =~= here);
            let t = depths@.take(i as int + 1);
            assert(t.drop_last() =~= depths@.take(i as int));
            assert(t.last() == *d);
        }
        i = i + 1;
    }
    assert(depths@.take(i as int) =~= depths@);
    out
}

// ---- Windows ----------------------------------------------------------------

/// A texture the renderer made: its number and its size.
#[derive(Debug, Clone, Copy, PartialEq, Eq, Structural)]
pub struct Texture {
    pub handle: u32,
    pub width: u16,
    pub height: u16,
}

/// One redirected window the compositor tracks.
#[derive(Debug, Clone, Copy)]
pub struct CompWin {
    /// Geometry with borders as last seen from the server.
    pub outer: Rect,
    pub border_w: u32,
    /// Value of `_NET_WM_WINDOW_OPACITY`; the largest is opaque.
    pub opacity: u32,
    /// The texture of the off-screen pixmap, if the window is mapped.
    pub tex: Option<Texture>,
    /// The pixmap that `tex` shows. Ours to free.
    pub pixmap: Option<u32>,
    /// The texture is to be rebound before the next draw.
    pub damaged: bool,
    /// Binding the named pixmap failed and is to be tried again.
    pub needs_rebind: bool,
    pub mapped: bool,
    /// Hidden because it belongs to a workspace that is not active.
    pub hidden: bool,
    pub format: VisualFormat,
    /// Where this frame draws the window, borders included, and with which
    /// corners.
    pub transform: Rect,
    pub transform_radius: u32,
    /// The frame that `transform` was written for.
    pub transform_gen: u64,
    /// Where the previous frame drew the window.
    pub prev_visual: Option<Rect>,
    /// Entirely behind one opaque window this frame.
    pub occluded: bool,
}

/// Opacities from here on are one in single precision.
pub const OPAQUE_FROM: u32 = 0xffff_ff80;

impl CompWin {
    /// A window that was just found.
    pub open spec fn fresh(outer: Rect, border_w: u32, format: VisualFormat) -> CompWin {
        CompWin {
            outer,
            border_w,
            opacity: u32::MAX,
            tex: None,
            pixmap: None,
            damaged: true,
            needs_rebind: false,
            mapped: false,
            hidden: false,
            format,
            transform: Rect { x: 0, y: 0, w: 0, h: 0 },
            transform_radius: 0,
            transform_gen: 0,
            prev_visual: None,
            occluded: false,
        }
    }

    pub fn new(outer: Rect, border_w: u32, format: VisualFormat) -> (c: CompWin)
        ensures
            c == CompWin::fresh(outer, border_w, format),
    {
        CompWin {
            outer,
            border_w,
            opacity: u32::MAX,
            tex: None,
            pixmap: None,
            damaged: true,
            needs_rebind: false,
            mapped: false,
            hidden: false,
            format,
            transform: Rect { x: 0, y: 0, w: 0, h: 0 },
            transform_radius: 0,
            transform_gen: 0,
            prev_visual: None,
            occluded: false,
        }
    }

    /// The rectangle lies outside the screen and a margin of 64 pixels around it.
    pub open spec fn off_screen(r: Rect, w: u32, h: u32) -> bool {
        r.right_edge() <= -64 || r.bottom_edge() <= -64 || r.x >= w + 64 || r.y >= h + 64
    }

    /// Whether `r` is entirely outside the screen plus a small margin, so that a
    /// window that touches the edge is still drawn.
    pub fn offscreen(r: Rect, w: u32, h: u32) -> (b: bool)
        ensures
            b == CompWin::off_screen(r, w, h),
    {
        r.x as i64 + r.w as i64 <= -64 || r.y as i64 + r.h as i64 <= -64 || r.x as i64 >= w as i64
            + 64 || r.y as i64 >= h as i64 + 64
    }

    /// The window may be painted.
    pub open spec fn shown(self) -> bool {
        self.mapped && !self.hidden
    }

    /// Where this frame draws the window and with which corners: where it was
    /// placed for the frame, or else at its own geometry with square corners.
    pub open spec fn visual(self, gen: u64) -> (Rect, u32) {
        if self.transform_gen == gen {
            (self.transform, self.transform_radius)
        } else {
            (self.outer, 0)
        }
    }

    pub(crate) fn drawn_at(&self, gen: u64) -> (r: (Rect, u32))
        ensures
            r == self.visual(gen),
    {
        if self.transform_gen == gen {
            (self.transform, self.transform_radius)
        } else {
            (self.outer, 0)
        }
    }
}

/// Geometry with borders on every side.
pub open spec fn with_border(x: int, y: int, w: int, h: int, bw: int) -> Rect {
    Rect { x: (x - bw) as i32, y: (y - bw) as i32, w: (w + 2 * bw) as u32, h: (h + 2 * bw) as u32 }
}

/// The geometry with borders is representable.
pub open spec fn border_fits(r: Rect, bw: u32) -> bool {
    &&& r.x - bw >= i32::MIN
    &&& r.y - bw >= i32::MIN
    &&& r.w + 2 * bw <= u32::MAX
    &&& r.h + 2 * bw <= u32::MAX
}

fn outer_rect(r: Rect, bw: u32) -> (o: Rect)
    requires
        border_fits(r, bw),
    ensures
        o == with_border(r.x as int, r.y as int, r.w as int, r.h as int, bw as int),
{
    Rect::new(
        (r.x as i64 - bw as i64) as i32,
        (r.y as i64 - bw as i64) as i32,
        r.w + 2 * bw,
        r.h + 2 * bw,
    )
}

/// What a window's attributes say of it.
#[derive(Debug, Clone, Copy)]
pub struct WindowAttributes {
    pub class: u16,
    pub visual: u32,
}

/// What the server says of a window's geometry.
#[derive(Debug, Clone, Copy)]
pub struct WindowGeometry {
    pub x: i16,
    pub y: i16,
    pub width: u16,
    pub height: u16,
    pub border_width: u16,
}

/// What was held for a window and is to be given back.
#[derive(Debug, Clone, Copy)]
pub struct Released {
    pub tex: Option<Texture>,
    pub pixmap: Option<u32>,
    pub damage: Option<u32>,
}

impl Released {
    pub open spec fn nothing() -> Released {
        Released { tex: None, pixmap: None, damage: None }
    }
}

/// The wallpaper that is shown.
#[derive(Debug, Clone, Copy)]
pub struct Wallpaper {
    /// The root window's background pixmap as a texture. The pixmap is not ours
    /// to free.
    pub root: Option<Texture>,
    pub root_pixmap: Option<u32>,
    /// A decoded image, as a texture number.
    pub native: Option<u32>,
    /// A compiled shader program.
    pub shader: Option<u32>,
    pub img_w: u32,
    pub img_h: u32,
    /// The shader depends on time.
    pub animated: bool,
    pub animating: bool,
}

/// The compositor's state.
#[derive(Debug)]
pub struct Compositor {
    pub screen_w: u32,
    pub screen_h: u32,
    /// Every visual of the screen, by its id.
    pub formats: HashMap<u32, VisualFormat>,
    pub root_format: VisualFormat,
    /// Windows that are never composited.
    pub ignored: Vec<u32>,
    pub wins: HashMap<u32, CompWin>,
    /// Damage objects by window.
    pub damages: HashMap<u32, u32>,
    /// Visuals that were already complained about.
    pub warned_visuals: Vec<u32>,
    pub wallpaper: Wallpaper,
    /// Where the wallpaper is laid out.
    pub outputs: Vec<Rect>,
    /// A frame is needed, and why.
    pub dirty: bool,
    pub dirty_reasons: DirtyReason,
    /// The order is to be read from the server before the next frame.
    pub stack_dirty: bool,
    /// Bottom to top.
    pub stack: Vec<u32>,
    pub frame_gen: u64,
    pub corner_radius: u32,
    /// The damage of this frame.
    pub frame_dirty: DamageRegion,
    /// A change this frame cannot be expressed by rectangles.
    pub needs_full: bool,
    /// The damage since the last present.
    pub damage_acc: DamageRegion,
    pub force_full_redraw: bool,
}

/// A [`Compositor`], mathematically.
#[verifier::ext_equal]
pub struct CompositorV {
    pub screen_w: u32,
    pub screen_h: u32,
    pub formats: Map<u32, VisualFormat>,
    pub root_format: VisualFormat,
    pub ignored: Seq<u32>,
    pub wins: Map<u32, CompWin>,
    pub damages: Map<u32, u32>,
    pub warned_visuals: Seq<u32>,
    pub wallpaper: Wallpaper,
    pub outputs: Seq<Rect>,
    pub dirty: bool,
    pub dirty_reasons: DirtyReason,
    pub stack_dirty: bool,
    pub stack: Seq<u32>,
    pub frame_gen: u64,
    pub corner_radius: u32,
    pub frame_dirty: DamageRegionV,
    pub needs_full: bool,
    pub damage_acc: DamageRegionV,
    pub force_full_redraw: bool,
}

impl View for Compositor {
    type V = CompositorV;

    open spec fn view(&self) -> CompositorV {
        CompositorV {
            screen_w: self.screen_w,
            screen_h: self.screen_h,
            formats: self.formats@,
            root_format: self.root_format,
            ignored: self.ignored@,
            wins: self.wins@,
            damages: self.damages@,
            warned_visuals: self.warned_visuals@,
            wallpaper: self.wallpaper,
            outputs: self.outputs@,
            dirty: self.dirty,
            dirty_reasons: self.dirty_reasons,
            stack_dirty: self.stack_dirty,
            stack: self.stack@,
            frame_gen: self.frame_gen,
            corner_radius: self.corner_radius,
            frame_dirty: self.frame_dirty@,
            needs_full: self.needs_full,
            damage_acc: self.damage_acc@,
            force_full_redraw: self.force_full_redraw,
        }
    }
}

/// The value at `k`, if the key is present.
pub open spec fn at<V>(m: Map<u32, V>, k: u32) -> Option<V> {
    if m.dom().contains(k) {
        Some(m[k])
    } else {
        None
    }
}

impl CompositorV {
    /// A whole frame is needed, for the given reason.
    pub open spec fn marked(self, reason: u8) -> CompositorV {
        CompositorV {
            dirty: true,
            needs_full: true,
            dirty_reasons: self.dirty_reasons.with(reason),
            ..self
        }
    }

    /// A tracked window is replaced.
    pub open spec fn with_win(self, win: u32, c: CompWin) -> CompositorV {
        CompositorV { wins: self.wins.insert(win, c), ..self }
    }

    /// The window that `track` would add, if it may be tracked: known neither as
    /// ignored nor as tracked, with pixels, and of a visual of the screen.
    pub open spec fn trackable(
        self,
        win: u32,
        attrs: Option<WindowAttributes>,
        geom: Option<WindowGeometry>,
    ) -> Option<CompWin> {
        match (attrs, geom) {
            (Some(a), Some(g)) => if !self.ignored.contains(win) && !self.wins.dom().contains(win)
                && a.class != 2 && self.formats.dom().contains(a.visual) {
                Some(
                    CompWin::fresh(
                        with_border(
                            g.x as int,
                            g.y as int,
                            g.width as int,
                            g.height as int,
                            g.border_width as int,
                        ),
                        g.border_width as u32,
                        self.formats[a.visual],
                    ),
                )
            } else {
                None
            },
            _ => None,
        }
    }

    /// With the window tracked, if it may be.
    pub open spec fn tracking(
        self,
        win: u32,
        attrs: Option<WindowAttributes>,
        geom: Option<WindowGeometry>,
    ) -> CompositorV {
        match self.trackable(win, attrs, geom) {
            Some(c) => self.with_win(win, c),
            None => self,
        }
    }

    /// The window newly created stands on top.
    pub open spec fn created(self, win: u32) -> CompositorV {
        if self.ignored.contains(win) {
            self
        } else {
            CompositorV { stack: without(self.stack, win).push(win), ..self }
        }
    }

    /// The server restacked a window.
    pub open spec fn restacking(self, win: u32, above: Option<u32>) -> CompositorV {
        if self.ignored.contains(win) {
            self
        } else {
            match restacked(self.stack, win, above) {
                Some(s) => (CompositorV { stack: s, ..self }).marked(DirtyReason::FOCUS),
                None => (CompositorV {
                    stack: without(self.stack, win),
                    stack_dirty: true,
                    ..self
                }).marked(DirtyReason::FOCUS),
            }
        }
    }

    pub open spec fn destroyed(self, win: u32) -> CompositorV {
        (CompositorV {
            wins: self.wins.remove(win),
            damages: self.damages.remove(win),
            stack: without(self.stack, win),
            ..self
        }).marked(DirtyReason::SURFACE)
    }

    /// A tracked window was mapped. One that is missing from the order asks for
    /// the order to be read anew; mapping does not restack.
    pub open spec fn mapped(self, win: u32) -> CompositorV {
        match at(self.wins, win) {
            Some(c) => (CompositorV {
                wins: self.wins.insert(win, CompWin { mapped: true, ..c }),
                stack_dirty: self.stack_dirty || (!self.ignored.contains(win)
                    && !self.stack.contains(win)),
                ..self
            }).marked(DirtyReason::SURFACE),
            None => self,
        }
    }

    /// A window was unmapped: its pixmap is gone. It keeps its place in the order.
    pub open spec fn unmapped(self, win: u32) -> CompositorV {
        match at(self.wins, win) {
            Some(c) => self.with_win(
                win,
                CompWin { mapped: false, hidden: false, tex: None, pixmap: None, ..c },
            ).marked(DirtyReason::SURFACE),
            None => self.marked(DirtyReason::SURFACE),
        }
    }

    pub open spec fn hiding(self, win: u32, hidden: bool) -> CompositorV {
        match at(self.wins, win) {
            Some(c) => self.with_win(win, CompWin { hidden, ..c }).marked(DirtyReason::SURFACE),
            None => self,
        }
    }

    /// The window's size with borders differs from the one known.
    pub open spec fn resizes(self, win: u32, outer: Rect) -> bool {
        at(self.wins, win) matches Some(c) && (c.outer.w != outer.w || c.outer.h != outer.h)
    }

    /// A tracked window has a new geometry. A mapped one that was resized has a
    /// new pixmap, so that its texture is stale.
    pub open spec fn configured(self, win: u32, outer: Rect, bw: u32) -> CompositorV {
        match at(self.wins, win) {
            Some(c) => {
                let stale = self.resizes(win, outer) && c.mapped;
                self.with_win(
                    win,
                    CompWin {
                        outer,
                        border_w: bw,
                        tex: if stale {
                            None
                        } else {
                            c.tex
                        },
                        pixmap: if stale {
                            None
                        } else {
                            c.pixmap
                        },
                        ..c
                    },
                ).marked(DirtyReason::GEOMETRY)
            },
            None => self,
        }
    }

    /// A client repainted.
    pub open spec fn damaged(self, win: u32) -> CompositorV {
        let s = match at(self.wins, win) {
            Some(c) => self.with_win(win, CompWin { damaged: true, ..c }),
            None => self,
        };
        CompositorV {
            dirty: true,
            dirty_reasons: self.dirty_reasons.with(DirtyReason::DAMAGE),
            ..s
        }
    }

    pub open spec fn faded(self, win: u32, opacity: u32) -> CompositorV {
        (match at(self.wins, win) {
            Some(c) => self.with_win(win, CompWin { opacity, ..c }),
            None => self,
        }).marked(DirtyReason::GEOMETRY)
    }

    pub open spec fn reshaped(self, win: u32) -> CompositorV {
        (match at(self.wins, win) {
            Some(c) => self.with_win(win, CompWin { damaged: true, ..c }),
            None => self,
        }).marked(DirtyReason::GEOMETRY)
    }
}

/// The corner radius for a window of the given size: at most half of either
/// side.
pub open spec fn radius_for(corner_radius: u32, outer: Rect) -> u32 {
    let half = if outer.w / 2 <= outer.h / 2 {
        outer.w / 2
    } else {
        outer.h / 2
    };
    if corner_radius <= half {
        corner_radius
    } else {
        half
    }
}

/// The windows with a placement for frame `gen` written to one of them.
pub open spec fn placed(
    wins: Map<u32, CompWin>,
    p: (u32, Rect, u32),
    gen: u64,
    corner_radius: u32,
) -> Map<u32, CompWin> {
    match at(wins, p.0) {
        Some(c) => {
            let outer = with_border(
                p.1.x as int,
                p.1.y as int,
                p.1.w as int,
                p.1.h as int,
                p.2 as int,
            );
            wins.insert(
                p.0,
                CompWin {
                    transform: outer,
                    transform_radius: radius_for(corner_radius, outer),
                    transform_gen: gen,
                    ..c
                },
            )
        },
        None => wins,
    }
}

/// The windows with every placement for frame `gen` written, in order.
pub open spec fn all_placed(
    wins: Map<u32, CompWin>,
    ps: Seq<(u32, Rect, u32)>,
    gen: u64,
    corner_radius: u32,
) -> Map<u32, CompWin>
    decreases ps.len(),
{
    if ps.len() == 0 {
        wins
    } else {
        placed(all_placed(wins, ps.drop_last(), gen, corner_radius), ps.last(), gen, corner_radius)
    }
}

/// The next frame number.
pub open spec fn next_gen(gen: u64) -> u64 {
    if gen == u64::MAX {
        0
    } else {
        (gen + 1) as u64
    }
}

impl Compositor {
    /// The damage lists are within their bounds, and a frame is needed just where
    /// there is a reason for one.
    pub open spec fn well_formed(&self) -> bool {
        &&& self.frame_dirty.well_formed()
        &&& self.damage_acc.well_formed()
        &&& self.dirty == (self.dirty_reasons.bits != DirtyReason::NONE)
    }

    /// A compositor for a screen, tracking nothing yet. A first frame is needed.
    pub fn new(
        screen_w: u32,
        screen_h: u32,
        visuals: &Vec<VisualFormat>,
        root_format: VisualFormat,
        wm_win: u32,
        overlay: u32,
        corner_radius: u32,
        force_full_redraw: bool,
    ) -> (c: Compositor)
        ensures
            c.well_formed(),
            c@.screen_w == screen_w,
            c@.screen_h == screen_h,
            c@.formats == formats_by_id(visuals@),
            c@.root_format == root_format,
            c@.ignored == seq![wm_win, overlay],
            c@.wins == Map::<u32, CompWin>::empty(),
            c@.damages == Map::<u32, u32>::empty(),
            c@.stack.len() == 0,
            c@.outputs.len() == 0,
            c@.warned_visuals.len() == 0,
            c@.dirty && c@.stack_dirty && !c@.needs_full,
            c@.dirty_reasons.bits == DirtyReason::GEOMETRY,
            c@.frame_gen == 0,
            c@.corner_radius == corner_radius,
            c@.frame_dirty == DamageRegionV::empty(),
            c@.damage_acc == DamageRegionV::empty(),
            c@.force_full_redraw == force_full_redraw,
            c@.wallpaper == no_wallpaper(),
    {
        let mut formats: HashMap<u32, VisualFormat> = HashMap::new();
        let mut i: usize = 0;
        assert(formats@ =~= formats_by_id(visuals@.take(0)));
        while i < visuals.len()
            invariant
                i <= visuals.len(),
                formats@ == formats_by_id(visuals@.take(i as int)),
            decreases visuals.len() - i,
        {
            let v: VisualFormat = visuals[i];
            formats.insert(v.id, v);
            proof {
                let t = visuals@.take(i as int + 1);
                assert(t.drop_last() =~= visuals@.take(i as int));
                assert(t.last() == v);
            }
            i = i + 1;
        }
        assert(visuals@.take(i as int) =~= visuals@);
        let ignored: Vec<u32> = vec![wm_win, overlay];
        assert(ignored@ =~= seq![wm_win, overlay]);
        let c: Compositor = Compositor {
            screen_w,
            screen_h,
            formats,
            root_format,
            ignored,
            wins: HashMap::new(),
            damages: HashMap::new(),
            warned_visuals: Vec::new(),
            wallpaper: Wallpaper {
                root: None,
                root_pixmap: None,
                native: None,
                shader: None,
                img_w: 0,
                img_h: 0,
                animated: false,
                animating: false,
            },
            outputs: Vec::new(),
            dirty: true,
            dirty_reasons: DirtyReason::of(DirtyReason::GEOMETRY),
            stack_dirty: true,
            stack: Vec::new(),
            frame_gen: 0,
            corner_radius,
            frame_dirty: DamageRegion::new(),
            needs_full: false,
            damage_acc: DamageRegion::new(),
            force_full_redraw,
        };
        c
    }

    fn mark_full(&mut self, reason: u8)
        requires
            old(self).well_formed(),
            reason != 0,
        ensures
            final(self).well_formed(),
            final(self)@ == old(self)@.marked(reason),
    {
        self.dirty = true;
        self.needs_full = true;
        self.dirty_reasons.insert(reason);
    }

    /// Whether a window is neither ignored nor tracked yet.
    pub fn wants_tracking(&self, win: u32) -> (b: bool)
        ensures
            b == (!self@.ignored.contains(win) && !self@.wins.dom().contains(win)),
    {
        !contains_window(&self.ignored, win) && !self.wins.contains_key(&win)
    }

    /// Track a window, given what the server says of it. Returns whether it is
    /// tracked now and was not before; it then needs a damage object.
    pub fn track(
        &mut self,
        win: u32,
        attrs: Option<WindowAttributes>,
        geom: Option<WindowGeometry>,
    ) -> (added: bool)
        requires
            old(self).well_formed(),
        ensures
            final(self).well_formed(),
            added == old(self)@.trackable(win, attrs, geom) is Some,
            final(self)@ == old(self)@.tracking(win, attrs, geom),
    {
        if !self.wants_tracking(win) {
            return false;
        }
        let classes: WindowClassNumbers = window_class();
        match (attrs, geom) {
            (Some(a), Some(g)) => {
                if a.class == classes.input_only {
                    return false;
                }
                match self.formats.get(&a.visual) {
                    Some(format) => {
                        let bw: u32 = g.border_width as u32;
                        let outer: Rect = outer_rect(
                            Rect::new(g.x as i32, g.y as i32, g.width as u32, g.height as u32),
                            bw,
                        );
                        let c: CompWin = CompWin::new(outer, bw, *format);
                        self.wins.insert(win, c);
                        assert(self@ =~= old(self)@.tracking(win, attrs, geom));
                        true
                    },
                    None => false,
                }
            },
            _ => false,
        }
    }

    /// Keep the damage object of a window.
    pub fn watch(&mut self, win: u32, damage: u32)
        requires
            old(self).well_formed(),
        ensures
            final(self).well_formed(),
            final(self)@ == (CompositorV {
                damages: old(self)@.damages.insert(win, damage),
                ..old(self)@
            }),
    {
        self.damages.insert(win, damage);
    }

    /// A window was created, and tracked if it may be: it stands on top.
    pub fn on_create(&mut self, win: u32)
        requires
            old(self).well_formed(),
        ensures
            final(self).well_formed(),
            final(self)@ == old(self)@.created(win),
    {
        if !contains_window(&self.ignored, win) {
            stack_add_top(&mut self.stack, win);
        }
    }

    /// The server restacked `win`. A sibling that is not in the order asks for
    /// the order to be read anew.
    pub fn on_restack(&mut self, win: u32, above: Option<u32>)
        requires
            old(self).well_formed(),
        ensures
            final(self).well_formed(),
            final(self)@ == old(self)@.restacking(win, above),
    {
        if contains_window(&self.ignored, win) {
            return;
        }
        if !stack_restack(&mut self.stack, win, above) {
            self.stack_dirty = true;
        }
        self.mark_full(DirtyReason::FOCUS);
    }

    /// A window was destroyed. Returns what is to be given back.
    pub fn on_destroy(&mut self, win: u32) -> (r: Released)
        requires
            old(self).well_formed(),
        ensures
            final(self).well_formed(),
            final(self)@ == old(self)@.destroyed(win),
            r == (Released {
                tex: match at(old(self)@.wins, win) {
                    Some(c) => c.tex,
                    None => None,
                },
                pixmap: match at(old(self)@.wins, win) {
                    Some(c) => c.pixmap,
                    None => None,
                },
                damage: at(old(self)@.damages, win),
            }),
    {
        let (tex, pixmap): (Option<Texture>, Option<u32>) = match self.wins.remove(&win) {
            Some(c) => (c.tex, c.pixmap),
            None => (None, None),
        };
        assert(self.wins@ =~= old(self).wins@.remove(win));
        let damage: Option<u32> = self.damages.remove(&win);
        assert(self.damages@ =~= old(self).damages@.remove(win));
        stack_remove(&mut self.stack, win);
        self.mark_full(DirtyReason::SURFACE);
        Released { tex, pixmap, damage }
    }

    /// A window was mapped, and tracked if it may be. Returns whether it is
    /// tracked; its pixmap is then to be named and bound.
    pub fn on_map(&mut self, win: u32) -> (known: bool)
        requires
            old(self).well_formed(),
        ensures
            final(self).well_formed(),
            known == old(self)@.wins.dom().contains(win),
            final(self)@ == old(self)@.mapped(win),
    {
        let mut c: CompWin = match self.wins.get(&win) {
            Some(c) => *c,
            None => {
                return false;
            },
        };
        c.mapped = true;
        self.wins.insert(win, c);
        if !contains_window(&self.ignored, win) && !contains_window(&self.stack, win) {
            self.stack_dirty = true;
        }
        self.mark_full(DirtyReason::SURFACE);
        true
    }

    /// A window was unmapped. Returns what is to be given back.
    pub fn on_unmap(&mut self, win: u32) -> (r: Released)
        requires
            old(self).well_formed(),
        ensures
            final(self).well_formed(),
            final(self)@ == old(self)@.unmapped(win),
            r == match at(old(self)@.wins, win) {
                Some(c) => Released { tex: c.tex, pixmap: c.pixmap, damage: None },
                None => Released::nothing(),
            },
    {
        let mut r: Released = Released { tex: None, pixmap: None, damage: None };
        match self.wins.get(&win) {
            Some(found) => {
                let mut c: CompWin = *found;
                r = Released { tex: c.tex, pixmap: c.pixmap, damage: None };
                c.mapped = false;
                c.hidden = false;
                c.tex = None;
                c.pixmap = None;
                self.wins.insert(win, c);
            },
            None => {},
        }
        self.mark_full(DirtyReason::SURFACE);
        r
    }

    /// Mark a window hidden or shown by a switch of workspaces.
    pub fn set_hidden(&mut self, win: u32, hidden: bool)
        requires
            old(self).well_formed(),
        ensures
            final(self).well_formed(),
            final(self)@ == old(self)@.hiding(win, hidden),
    {
        match self.wins.get(&win) {
            Some(found) => {
                let mut c: CompWin = *found;
                c.hidden = hidden;
                self.wins.insert(win, c);
                self.mark_full(DirtyReason::SURFACE);
            },
            None => {},
        }
    }

    /// A window's geometry changed. Returns what is stale and to be given back,
    /// and whether the window's new pixmap is to be named and bound.
    pub fn on_configure(&mut self, win: u32, x: i32, y: i32, w: u32, h: u32, bw: u32) -> (r: (
        Released,
        bool,
    ))
        requires
            old(self).well_formed(),
            border_fits(Rect { x, y, w, h }, bw),
        ensures
            final(self).well_formed(),
            ({
                let outer = with_border(x as int, y as int, w as int, h as int, bw as int);
                let was = at(old(self)@.wins, win);
                let stale = old(self)@.resizes(win, outer) && was->0.mapped;
                &&& final(self)@ == old(self)@.configured(win, outer, bw)
                &&& r.1 == stale
                &&& r.0 == (if stale {
                    Released { tex: was->0.tex, pixmap: was->0.pixmap, damage: None }
                } else {
                    Released::nothing()
                })
            }),
    {
        let nothing: Released = Released { tex: None, pixmap: None, damage: None };
        let mut c: CompWin = match self.wins.get(&win) {
            Some(c) => *c,
            None => {
                return (nothing, false);
            },
        };
        let outer: Rect = outer_rect(Rect::new(x, y, w, h), bw);
        let stale: bool = (outer.w != c.outer.w || outer.h != c.outer.h) && c.mapped;
        c.outer = outer;
        c.border_w = bw;
        let mut r: Released = nothing;
        if stale {
            r = Released { tex: c.tex, pixmap: c.pixmap, damage: None };
            c.tex = None;
            c.pixmap = None;
        }
        self.wins.insert(win, c);
        self.mark_full(DirtyReason::GEOMETRY);
        (r, stale)
    }

    /// A client repainted. Returns the damage object to re-arm.
    pub fn on_damage(&mut self, win: u32) -> (r: Option<u32>)
        requires
            old(self).well_formed(),
        ensures
            final(self).well_formed(),
            final(self)@ == old(self)@.damaged(win),
            r == at(old(self)@.damages, win),
    {
        let r: Option<u32> = match self.damages.get(&win) {
            Some(d) => Some(*d),
            None => None,
        };
        match self.wins.get(&win) {
            Some(found) => {
                let mut c: CompWin = *found;
                c.damaged = true;
                self.wins.insert(win, c);
            },
            None => {},
        }
        self.dirty = true;
        self.dirty_reasons.insert(DirtyReason::DAMAGE);
        r
    }

    /// A window's opacity changed.
    pub fn on_opacity(&mut self, win: u32, opacity: u32)
        requires
            old(self).well_formed(),
        ensures
            final(self).well_formed(),
            final(self)@ == old(self)@.faded(win, opacity),
    {
        match self.wins.get(&win) {
            Some(found) => {
                let mut c: CompWin = *found;
                c.opacity = opacity;
                self.wins.insert(win, c);
            },
            None => {},
        }
        self.mark_full(DirtyReason::GEOMETRY);
    }

    /// A client changed its own shape.
    pub fn on_shape(&mut self, win: u32)
        requires
            old(self).well_formed(),
        ensures
            final(self).well_formed(),
            final(self)@ == old(self)@.reshaped(win),
    {
        match self.wins.get(&win) {
            Some(found) => {
                let mut c: CompWin = *found;
                c.damaged = true;
                self.wins.insert(win, c);
            },
            None => {},
        }
        self.mark_full(DirtyReason::GEOMETRY);
    }

    /// Hand over where the next frame draws the windows: content rectangle and
    /// border width of each.
    pub fn set_transforms(&mut self, placements: &[(u32, Rect, u32)])
        requires
            old(self).well_formed(),
            forall|i: int|
                0 <= i < placements@.len() && old(self)@.wins.dom().contains(
                    (#[trigger] placements@[i]).0,
                ) ==> border_fits(placements@[i].1, placements@[i].2),
        ensures
            final(self).well_formed(),
            final(self)@ == (CompositorV {
                frame_gen: next_gen(old(self)@.frame_gen),
                wins: all_placed(
                    old(self)@.wins,
                    placements@,
                    next_gen(old(self)@.frame_gen),
                    old(self)@.corner_radius,
                ),
                ..old(self)@
            }),
    {
        let ghost start = self@;
        let gen: u64 = self.frame_gen.wrapping_add(1);
        self.frame_gen = gen;
        let corner_radius: u32 = self.corner_radius;
        let mut i: usize = 0;
        while i < placements.len()
            invariant
                i <= placements@.len(),
                self.well_formed(),
                gen == next_gen(start.frame_gen),
                corner_radius == start.corner_radius,
                forall|j: int|
                    0 <= j < placements@.len() && start.wins.dom().contains(
                        (#[trigger] placements@[j]).0,
                    ) ==> border_fits(placements@[j].1, placements@[j].2),
                self.wins@.dom() == start.wins.dom(),
                self@ == (CompositorV {
                    frame_gen: gen,
                    wins: all_placed(start.wins, placements@.take(i as int), gen, corner_radius),
                    ..start
                }),
            decreases placements@.len() - i,
        {
            let (win, geom, bw): (u32, Rect, u32) = placements[i];
            proof {
                let t = placements@.take(i as int + 1);
                assert(t.drop_last() =~= placements@.take(i as int));
                assert(t.last() == placements@[i as int]);
            }
            let ghost before = self.wins@;
            match self.wins.get(&win) {
                Some(found) => {
                    let mut c: CompWin = *found;
                    let outer: Rect = outer_rect(geom, bw);
                    let half: u32 = if outer.w / 2 <= outer.h / 2 {
                        outer.w / 2
                    } else {
                        outer.h / 2
                    };
                    c.transform = outer;
                    c.transform_radius = if corner_radius <= half {
                        corner_radius
                    } else {
                        half
                    };
                    c.transform_gen = gen;
                    self.wins.insert(win, c);
                    assert(self.wins@.dom() =~= before.dom());
                },
                None => {},
            }
            assert(self.wins@ =~= placed(before, placements@[i as int], gen, corner_radius));
            i = i + 1;
        }
        assert(placements@.take(i as int) =~= placements@);
    }

    /// Ask for a whole frame.
    pub fn invalidate(&mut self)
        requires
            old(self).well_formed(),
        ensures
            final(self).well_formed(),
            final(self)@ == old(self)@.marked(DirtyReason::GEOMETRY),
    {
        self.mark_full(DirtyReason::GEOMETRY);
    }

    /// Whether a frame is needed.
    pub fn needs_frame(&self) -> (b: bool)
        ensures
            b == self@.dirty,
    {
        self.dirty
    }

    /// What the frame built last has to repaint.
    pub fn damage_region(&self) -> (r: &DamageRegion)
        ensures
            *r == self.frame_dirty,
    {
        &self.frame_dirty
    }

    /// Why a frame is needed.
    pub fn dirty_reasons(&self) -> (r: DirtyReason)
        ensures
            r == self@.dirty_reasons,
    {
        self.dirty_reasons
    }

    /// Lay the wallpaper out over the outputs. The screen becomes as large as
    /// they span.
    pub fn set_outputs(&mut self, outputs: &Vec<Rect>)
        requires
            old(self).well_formed(),
            outputs@.len() > 0 ==> extent(outputs@).right - extent(outputs@).left <= i32::MAX
                && extent(outputs@).bottom - extent(outputs@).top <= i32::MAX,
        ensures
            final(self).well_formed(),
            final(self)@ == (CompositorV {
                outputs: outputs@,
                screen_w: if outputs@.len() > 0 {
                    at_least_one(extent(outputs@).right - extent(outputs@).left)
                } else {
                    old(self)@.screen_w
                },
                screen_h: if outputs@.len() > 0 {
                    at_least_one(extent(outputs@).bottom - extent(outputs@).top)
                } else {
                    old(self)@.screen_h
                },
                ..old(self)@
            }).marked(DirtyReason::GEOMETRY),
    {
        let mut copy: Vec<Rect> = Vec::new();
        let mut i: usize = 0;
        while i < outputs.len()
            invariant
                i <= outputs.len(),
                copy@ == outputs@.take(i as int),
            decreases outputs.len() - i,
        {
            copy.push(outputs[i]);
            assert(copy@ =~= outputs@.take(i as int + 1));
            i = i + 1;
        }
        assert(copy@ =~= outputs@);
        self.outputs = copy;
        if outputs.len() > 0 {
            let (x0, y0, x1, y1): (i64, i64, i64, i64) = span(outputs);
            proof {
                extent_is_tight(outputs@);
                assert(outputs@[0].x <= outputs@[0].right_edge());
            }
            self.screen_w = if x1 - x0 < 1 {
                1
            } else {
                (x1 - x0) as u32
            };
            self.screen_h = if y1 - y0 < 1 {
                1
            } else {
                (y1 - y0) as u32
            };
        }
        self.mark_full(DirtyReason::GEOMETRY);
    }

    /// The order was read from the server; it stays as it was where that failed.
    pub fn refresh_stack(&mut self, children: Option<Vec<u32>>)
        requires
            old(self).well_formed(),
        ensures
            final(self).well_formed(),
            final(self)@ == (CompositorV {
                stack_dirty: false,
                stack: match children {
                    Some(c) => c@,
                    None => old(self)@.stack,
                },
                ..old(self)@
            }),
    {
        self.stack_dirty = false;
        match children {
            Some(c) => {
                self.stack = c;
            },
            None => {},
        }
    }

    /// A format for a bare pixmap of the given depth: the root window's where the
    /// depths agree, else a direct one with as many bits of colour as any.
    pub fn format_for_depth(&self, depth: u8) -> (r: Option<VisualFormat>)
        ensures
            self@.root_format.depth == depth ==> r == Some(self@.root_format),
            self@.root_format.depth != depth ==> match r {
                Some(f) => {
                    &&& exists|id: u32| #[trigger] fits_depth(self@.formats, id, depth) && f
                        == self@.formats[id]
                    &&& forall|id: u32| #[trigger]
                        fits_depth(self@.formats, id, depth) ==> self@.formats[id].colour()
                            <= f.colour()
                },
                None => forall|id: u32| !#[trigger] fits_depth(self@.formats, id, depth),
            },
    {
        if self.root_format.depth == depth {
            return Some(self.root_format);
        }
        let ids: Vec<u32> = client_ids(&self.formats);
        let mut best: Option<VisualFormat> = None;
        let mut i: usize = 0;
        while i < ids.len()
            invariant
                i <= ids.len(),
                forall|w: u32| #[trigger] ids@.contains(w) <==> self.formats@.contains_key(w),
                match best {
                    Some(f) => {
                        &&& exists|id: u32| #[trigger] fits_depth(self.formats@, id, depth) && f
                            == self.formats@[id]
                        &&& forall|j: int|
                            0 <= j < i && fits_depth(self.formats@, #[trigger] ids@[j], depth)
                                ==> self.formats@[ids@[j]].colour() <= f.colour()
                    },
                    None => forall|j: int|
                        0 <= j < i ==> !fits_depth(self.formats@, #[trigger] ids@[j], depth),
                },
            decreases ids.len() - i,
        {
            let id: u32 = ids[i];
            assert(ids@.contains(ids@[i as int]));
            match self.formats.get(&id) {
                Some(v) => {
                    let v: VisualFormat = *v;
                    if v.depth == depth && v.direct {
                        assert(fits_depth(self.formats@, id, depth));
                        let better: bool = match best {
                            Some(f) => v.color_bits() >= f.color_bits(),
                            None => true,
                        };
                        if better {
                            best = Some(v);
                        }
                    }
                },
                None => {},
            }
            i = i + 1;
        }
        proof {
            assert forall|id: u32| #[trigger] fits_depth(self.formats@, id, depth) implies match best {
                Some(f) => self.formats@[id].colour() <= f.colour(),
                None => false,
            } by {
                assert(ids@.contains(id));
                let j = choose|j: int| 0 <= j < ids@.len() && ids@[j] == id;
                assert(fits_depth(self.formats@, ids@[j], depth));
            }
            if let Some(f) = best {
                let id = choose|id: u32| #[trigger]
                    fits_depth(self.formats@, id, depth) && f == self.formats@[id];
                assert(fits_depth(self@.formats, id, depth));
                assert forall|k: u32| #[trigger] fits_depth(
                    self@.formats,
                    k,
                    depth,
                ) implies self@.formats[k].colour() <= f.colour() by {
                    assert(fits_depth(self.formats@, k, depth));
                }
            }
        }
        best
    }
}

/// The id is of a direct format of the depth.
pub open spec fn fits_depth(formats: Map<u32, VisualFormat>, id: u32, depth: u8) -> bool {
    formats.dom().contains(id) && formats[id].depth == depth && formats[id].direct
}

/// A length as a size of the screen.
pub open spec fn at_least_one(n: int) -> u32 {
    if n < 1 {
        1
    } else {
        n as u32
    }
}

/// Formats by their id; of two of the same id, the last.
pub open spec fn formats_by_id(visuals: Seq<VisualFormat>) -> Map<u32, VisualFormat>
    decreases visuals.len(),
{
    if visuals.len() == 0 {
        Map::empty()
    } else {
        formats_by_id(visuals.drop_last()).insert(visuals.last().id, visuals.last())
    }
}

/// No wallpaper of any kind.
pub open spec fn no_wallpaper() -> Wallpaper {
    Wallpaper {
        root: None,
        root_pixmap: None,
        native: None,
        shader: None,
        img_w: 0,
        img_h: 0,
        animated: false,
        animating: false,
    }
}

/// A frame is needed just where there is a reason for one.
pub proof fn frame_is_needed_for_a_reason(c: Compositor)
    requires
        c.well_formed(),
    ensures
        c@.dirty == (c@.dirty_reasons.bits != DirtyReason::NONE),
{
}

// ---- What the events change -------------------------------------------------

/// Two states of the compositor differ in nothing but one tracked window and the
/// note that a frame is needed.
pub open spec fn only_window_differs(a: CompositorV, b: CompositorV, win: u32) -> bool {
    &&& b.wins.dom() == a.wins.dom()
    &&& forall|w: u32| w != win && a.wins.dom().contains(w) ==> #[trigger] b.wins[w] == a.wins[w]
    &&& b == (CompositorV {
        wins: b.wins,
        dirty: b.dirty,
        dirty_reasons: b.dirty_reasons,
        needs_full: b.needs_full,
        stack_dirty: b.stack_dirty,
        ..a
    })
}

/// What the server reports of a window is what is known of it afterwards, and of no
/// other window: its opacity, that it is mapped, that it lost its contents with the
/// screen, that it is hidden or shown, that its client repainted. Each asks for a
/// frame.
pub proof fn reports_are_believed(c: CompositorV, win: u32, opacity: u32, hidden: bool)
    requires
        c.wins.dom().contains(win),
    ensures
        ({
            let w = c.wins[win];
            &&& c.faded(win, opacity).wins[win] == (CompWin { opacity, ..w })
            &&& only_window_differs(c, c.faded(win, opacity), win)
            &&& c.faded(win, opacity).dirty && c.faded(win, opacity).needs_full
            &&& c.mapped(win).wins[win] == (CompWin { mapped: true, ..w })
            &&& only_window_differs(c, c.mapped(win), win)
            &&& c.mapped(win).dirty && c.mapped(win).needs_full
            &&& !c.stack.contains(win) && !c.ignored.contains(win) ==> c.mapped(win).stack_dirty
            &&& !c.unmapped(win).wins[win].mapped && c.unmapped(win).wins[win].tex is None
                && c.unmapped(win).wins[win].pixmap is None && !c.unmapped(win).wins[win].hidden
            &&& c.unmapped(win).wins[win].outer == w.outer && c.unmapped(win).wins[win].opacity
                == w.opacity
            &&& only_window_differs(c, c.unmapped(win), win)
            &&& c.unmapped(win).dirty && c.unmapped(win).needs_full
            &&& c.hiding(win, hidden).wins[win] == (CompWin { hidden, ..w })
            &&& only_window_differs(c, c.hiding(win, hidden), win)
            &&& c.hiding(win, hidden).dirty && c.hiding(win, hidden).needs_full
            &&& c.damaged(win).wins[win] == (CompWin { damaged: true, ..w })
            &&& only_window_differs(c, c.damaged(win), win)
            &&& c.damaged(win).dirty && c.damaged(win).needs_full == c.needs_full
            &&& c.reshaped(win).wins[win] == (CompWin { damaged: true, ..w })
            &&& only_window_differs(c, c.reshaped(win), win)
            &&& c.reshaped(win).dirty && c.reshaped(win).needs_full
        }),
{
    assert(c.faded(win, opacity).wins.dom() =~= c.wins.dom());
    assert(c.mapped(win).wins.dom() =~= c.wins.dom());
    assert(c.unmapped(win).wins.dom() =~= c.wins.dom());
    assert(c.hiding(win, hidden).wins.dom() =~= c.wins.dom());
    assert(c.damaged(win).wins.dom() =~= c.wins.dom());
    assert(c.reshaped(win).wins.dom() =~= c.wins.dom());
}

/// A frame is asked for with the reason that the event gives, and no reason that
/// was noted before is lost.
pub proof fn frames_are_asked_for_with_a_reason(c: CompositorV, win: u32, opacity: u32, r: u8)
    requires
        c.wins.dom().contains(win),
    ensures
        c.faded(win, opacity).dirty_reasons.bits & 2 != 0,
        c.reshaped(win).dirty_reasons.bits & 2 != 0,
        c.mapped(win).dirty_reasons.bits & 4 != 0,
        c.unmapped(win).dirty_reasons.bits & 4 != 0,
        c.destroyed(win).dirty_reasons.bits & 4 != 0,
        c.damaged(win).dirty_reasons.bits & 1 != 0,
        !c.ignored.contains(win) ==> c.restacking(win, None).dirty_reasons.bits & 8 != 0,
        c.dirty_reasons.bits & r != 0 ==> {
            &&& c.faded(win, opacity).dirty_reasons.bits & r != 0
            &&& c.mapped(win).dirty_reasons.bits & r != 0
            &&& c.unmapped(win).dirty_reasons.bits & r != 0
            &&& c.destroyed(win).dirty_reasons.bits & r != 0
            &&& c.damaged(win).dirty_reasons.bits & r != 0
        },
{
    let b = c.dirty_reasons.bits;
    assert((b | 2u8) & 2 != 0 && (b | 4u8) & 4 != 0 && (b | 1u8) & 1 != 0 && (b | 8u8) & 8 != 0)
        by (bit_vector);
    assert(b & r != 0 ==> (b | 1u8) & r != 0 && (b | 2u8) & r != 0 && (b | 4u8) & r != 0)
        by (bit_vector);
}

/// A new geometry is taken over with the border on every side. A mapped window of
/// another size has another pixmap, so its texture is given up; one that only moved
/// keeps it.
pub proof fn configured_window_has_its_geometry(c: CompositorV, win: u32, r: Rect, bw: u32)
    requires
        c.wins.dom().contains(win),
        border_fits(r, bw),
    ensures
        ({
            let outer = with_border(r.x as int, r.y as int, r.w as int, r.h as int, bw as int);
            let w = c.wins[win];
            let after = c.configured(win, outer, bw);
            let d = after.wins[win];
            &&& d.outer.x == r.x - bw && d.outer.y == r.y - bw
            &&& d.outer.w == r.w + 2 * bw && d.outer.h == r.h + 2 * bw
            &&& d.border_w == bw
            &&& w.mapped && (d.outer.w != w.outer.w || d.outer.h != w.outer.h) ==> d.tex is None
                && d.pixmap is None
            &&& !w.mapped || (d.outer.w == w.outer.w && d.outer.h == w.outer.h) ==> d.tex == w.tex
                && d.pixmap == w.pixmap
            &&& d == (CompWin {
                outer: d.outer,
                border_w: d.border_w,
                tex: d.tex,
                pixmap: d.pixmap,
                ..w
            })
            &&& only_window_differs(c, after, win)
            &&& after.dirty && after.needs_full
        }),
{
    let outer = with_border(r.x as int, r.y as int, r.w as int, r.h as int, bw as int);
    assert(c.configured(win, outer, bw).wins.dom() =~= c.wins.dom());
}

/// A window that is destroyed leaves no trace, and the others stay in order; one
/// that is created stands on top of them.
pub proof fn windows_come_on_top_and_go_for_good(c: CompositorV, win: u32)
    requires
        c.stack.no_duplicates(),
    ensures
        ({
            let gone = c.destroyed(win);
            let new = c.created(win);
            &&& !gone.wins.dom().contains(win) && !gone.damages.dom().contains(win)
                && !gone.stack.contains(win)
            &&& forall|w: u32|
                w != win ==> gone.stack.contains(w) == #[trigger] c.stack.contains(w)
            &&& forall|w: u32|
                w != win && c.wins.dom().contains(w) ==> gone.wins.dom().contains(w)
                    && #[trigger] gone.wins[w] == c.wins[w]
            &&& gone.dirty && gone.needs_full
            &&& c.ignored.contains(win) ==> new == c
            &&& !c.ignored.contains(win) ==> new.stack.len() > 0 && new.stack.last() == win
                && new.stack.no_duplicates() && new.wins == c.wins
            &&& !c.ignored.contains(win) && !c.stack.contains(win) ==> new.stack.drop_last()
                == c.stack
            &&& forall|w: u32| w != win ==> new.stack.contains(w) == #[trigger] c.stack.contains(w)
        }),
{
    crate::seqs::without_contains(c.stack, win);
    crate::seqs::without_no_duplicates(c.stack, win);
    let rest = without(c.stack, win);
    let new = c.created(win);
    if !c.ignored.contains(win) {
        assert forall|w: u32| w != win implies new.stack.contains(w)
            == #[trigger] c.stack.contains(w) by {
            if rest.contains(w) {
                let i = choose|i: int| 0 <= i < rest.len() && rest[i] == w;
                assert(new.stack[i] == w);
            }
        }
        assert forall|i: int, j: int|
            0 <= i < new.stack.len() && 0 <= j < new.stack.len() && i != j implies new.stack[i]
            != new.stack[j] by {
            if i == rest.len() {
                assert(rest.contains(rest[j]));
            } else if j == rest.len() {
                assert(rest.contains(rest[i]));
            }
        }
        if !c.stack.contains(win) {
            crate::seqs::without_absent(c.stack, win);
            assert(new.stack.drop_last() =~= c.stack);
        }
    }
}

/// A window is tracked just where it is neither ignored nor tracked yet, takes
/// output, and has a visual of the screen; it starts opaque, unmapped, without a
/// texture, with the geometry that the server gave and the border around it.
pub proof fn tracked_window_starts_plain(
    c: CompositorV,
    win: u32,
    a: WindowAttributes,
    g: WindowGeometry,
)
    ensures
        c.trackable(win, Some(a), Some(g)) is Some <==> !c.ignored.contains(win)
            && !c.wins.dom().contains(win) && a.class != 2 && c.formats.dom().contains(a.visual),
        c.trackable(win, None, Some(g)) is None,
        c.trackable(win, Some(a), None) is None,
        c.trackable(win, Some(a), Some(g)) matches Some(w) ==> {
            &&& w.outer.x == g.x - g.border_width && w.outer.y == g.y - g.border_width
            &&& w.outer.w == g.width + 2 * g.border_width
            &&& w.outer.h == g.height + 2 * g.border_width
            &&& w.border_w == g.border_width && w.format == c.formats[a.visual]
            &&& w.opacity == u32::MAX && !w.mapped && !w.hidden && !w.occluded
            &&& w.tex is None && w.pixmap is None && w.prev_visual is None && w.damaged
            &&& c.tracking(win, Some(a), Some(g)).wins == c.wins.insert(win, w)
        },
        c.trackable(win, Some(a), Some(g)) is None ==> c.tracking(win, Some(a), Some(g)) == c,
{
}

/// A rectangle counts as on the screen just where it has a pixel within 64 pixels
/// of it.
pub proof fn near_windows_count_as_on_screen(r: Rect, w: u32, h: u32)
    requires
        r.w > 0,
        r.h > 0,
    ensures
        CompWin::off_screen(r, w, h) <==> forall|px: int, py: int|
            -64 <= px < w + 64 && -64 <= py < h + 64 ==> !#[trigger] r.covers(px, py),
{
    if !CompWin::off_screen(r, w, h) {
        let px = if r.x >= -64 {
            r.x as int
        } else {
            -64
        };
        let py = if r.y >= -64 {
            r.y as int
        } else {
            -64
        };
        assert(r.covers(px, py));
    }
}

proof fn placing_others(
    wins: Map<u32, CompWin>,
    ps: Seq<(u32, Rect, u32)>,
    gen: u64,
    cr: u32,
    win: u32,
)
    requires
        forall|i: int| 0 <= i < ps.len() ==> (#[trigger] ps[i]).0 != win,
    ensures
        at(all_placed(wins, ps, gen, cr), win) == at(wins, win),
    decreases ps.len(),
{
    if ps.len() > 0 {
        let t = ps.drop_last();
        assert forall|i: int| 0 <= i < t.len() implies (#[trigger] t[i]).0 != win by {
            assert(ps[i] == t[i]);
        }
        placing_others(wins, t, gen, cr, win);
        assert(ps[ps.len() - 1].0 != win);
    }
}

proof fn placing_keeps_the_windows(
    wins: Map<u32, CompWin>,
    ps: Seq<(u32, Rect, u32)>,
    gen: u64,
    cr: u32,
    win: u32,
)
    ensures
        all_placed(wins, ps, gen, cr).dom() == wins.dom(),
        wins.dom().contains(win) ==> ({
            let d = all_placed(wins, ps, gen, cr)[win];
            d == (CompWin {
                transform: d.transform,
                transform_radius: d.transform_radius,
                transform_gen: d.transform_gen,
                ..wins[win]
            })
        }),
    decreases ps.len(),
{
    if ps.len() > 0 {
        placing_keeps_the_windows(wins, ps.drop_last(), gen, cr, win);
        assert(all_placed(wins, ps, gen, cr).dom() =~= wins.dom());
    }
}

/// The last placement that a frame has for a window is where the frame draws it:
/// with the border on every side, and with the corners of the configuration, as far
/// as half of either side goes. Nothing else of the window changes.
pub proof fn placement_is_where_the_frame_draws(
    wins: Map<u32, CompWin>,
    ps: Seq<(u32, Rect, u32)>,
    gen: u64,
    cr: u32,
    k: int,
)
    requires
        0 <= k < ps.len(),
        wins.dom().contains(ps[k].0),
        border_fits(ps[k].1, ps[k].2),
        forall|i: int| k < i < ps.len() ==> (#[trigger] ps[i]).0 != ps[k].0,
    ensures
        ({
            let (win, r, bw) = ps[k];
            let after = all_placed(wins, ps, gen, cr);
            let d = after[win];
            let (shown, radius) = d.visual(gen);
            &&& after.dom() == wins.dom()
            &&& shown.x == r.x - bw && shown.y == r.y - bw
            &&& shown.w == r.w + 2 * bw && shown.h == r.h + 2 * bw
            &&& radius <= cr && 2 * radius <= shown.w && 2 * radius <= shown.h
            &&& radius == cr || 2 * radius + 1 >= shown.w || 2 * radius + 1 >= shown.h
            &&& d == (CompWin {
                transform: d.transform,
                transform_radius: d.transform_radius,
                transform_gen: gen,
                ..wins[win]
            })
        }),
    decreases ps.len(),
{
    let t = ps.drop_last();
    let (win, r, bw) = ps[k];
    placing_keeps_the_windows(wins, ps, gen, cr, win);
    placing_keeps_the_windows(wins, t, gen, cr, win);
    if k < t.len() {
        assert forall|i: int| k < i < t.len() implies (#[trigger] t[i]).0 != t[k].0 by {
            assert(ps[i] == t[i]);
        }
        placement_is_where_the_frame_draws(wins, t, gen, cr, k);
        assert(ps[ps.len() - 1].0 != win);
    }
}

/// A window that a frame has no placement for is drawn at its own geometry with
/// square corners.
pub proof fn unplaced_window_is_drawn_where_it_is(
    wins: Map<u32, CompWin>,
    ps: Seq<(u32, Rect, u32)>,
    gen: u64,
    cr: u32,
    win: u32,
)
    requires
        wins.dom().contains(win),
        wins[win].transform_gen != gen,
        forall|i: int| 0 <= i < ps.len() ==> (#[trigger] ps[i]).0 != win,
    ensures
        all_placed(wins, ps, gen, cr)[win] == wins[win],
        all_placed(wins, ps, gen, cr)[win].visual(gen) == (wins[win].outer, 0u32),
{
    placing_others(wins, ps, gen, cr, win);
    placing_keeps_the_windows(wins, ps, gen, cr, win);
}

/// Counting the bits of a number: doubling adds none, and the odd one counts.
pub proof fn bits_are_counted(n: nat)
    ensures
        ones(0) == 0,
        ones(2 * n) == ones(n),
        ones(2 * n + 1) == ones(n) + 1,
{
    assert((2 * n) / 2 == n && (2 * n) % 2 == 0 && (2 * n + 1) / 2 == n && (2 * n + 1) % 2 == 1);
}

/// A visual whose pixels hold the colour itself has as many bits of each colour as
/// its mask, and what its depth has beyond the masks is alpha; any other visual has
/// no bits to tell of.
pub proof fn format_is_read_off_the_masks(depth: u8, v: VisualInfo)
    requires
        depth <= 32,
    ensures
        ({
            let f = format_of(depth, v);
            let all = ones((v.red_mask | v.green_mask | v.blue_mask) as nat);
            &&& f.id == v.id && f.depth == depth
            &&& f.direct == (v.class == 4 || v.class == 5)
            &&& f.direct ==> f.red_bits == ones(v.red_mask as nat) && f.green_bits == ones(
                v.green_mask as nat,
            ) && f.blue_bits == ones(v.blue_mask as nat)
            &&& f.direct && all <= depth ==> all + f.alpha_bits == depth
            &&& f.direct && all > depth ==> f.alpha_bits == 0
            &&& !f.direct ==> f.red_bits == 0 && f.green_bits == 0 && f.blue_bits == 0
                && f.alpha_bits == 0
        }),
{
    assert(vstd::arithmetic::power2::pow2(32) == 0x1_0000_0000) by {
        vstd::arithmetic::power2::lemma2_to64();
    }
    ones_at_most(v.red_mask as nat, 32);
    ones_at_most(v.green_mask as nat, 32);
    ones_at_most(v.blue_mask as nat, 32);
}

/// Two frames in a row have different numbers.
pub proof fn next_frame_has_another_number(gen: u64)
    ensures
        next_gen(gen) != gen,
        gen < u64::MAX ==> next_gen(gen) == gen + 1,
{
}

/// A report counts every visual once, under its own depth and as what it is.
pub proof fn visuals_are_counted_once(
    entries: Seq<(u8, bool)>,
    e: (u8, bool),
    depth: u8,
    bindable: bool,
)
    ensures
        tally(Seq::empty(), depth, bindable) == 0,
        tally(entries.push(e), depth, bindable) == tally(entries, depth, bindable) + (if e.0
            == depth && e.1 == bindable {
            1int
        } else {
            0int
        }),
{
    reveal(Seq::filter);
    assert(entries.push(e).drop_last() =~= entries);
    assert(Seq::<(u8, bool)>::empty().filter(of_depth(depth, bindable)).len() == 0);
}

/// A line of the report tells first how many visuals of its depth can be bound and
/// then how many cannot, and the depths come in ascending order.
pub proof fn report_tells_bindable_visuals_from_others(
    entries: Seq<(u8, bool)>,
    report: Seq<(u8, usize, usize)>,
    i: int,
    j: int,
)
    requires
        lines_count(entries, report),
        depths_ascend(report),
        0 <= i < j < report.len(),
    ensures
        report[i].1 == tally(entries, report[i].0, true),
        report[i].2 == tally(entries, report[i].0, false),
        report[i].1 > 0 || report[i].2 > 0,
        report[i].0 < report[j].0,
{
}

} // verus!
