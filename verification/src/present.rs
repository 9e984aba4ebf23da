//! Presenting a frame: binding pixmaps, the wallpaper, how much is repainted, and
//! bringing the compositor up and down.

use crate::compositor::{
    at, CompWin, Compositor, CompositorV, Released, Texture, VisualFormat, Wallpaper,
};
use crate::damage::{
    decide_redraw, extent, extent_is_tight, max_of, min_of, redraw, span, DamageRegionV,
    DirtyReason, Extent, FrameMode,
};
use crate::geom::Rect;
use crate::scene::lacks_texture;
use crate::seqs::contains_window;
use crate::state::client_ids;
use crate::text::{decimal, decimal_text};
use std::collections::HashMap;
use vstd::prelude::*;
use vstd::string::*;

verus! {

broadcast use vstd::std_specs::hash::group_hash_axioms;

// ---- Binding pixmaps --------------------------------------------------------

/// How the pixmap of a window is bound as a texture.
#[derive(Debug, Clone, Copy)]
pub struct BindPlan {
    pub format: VisualFormat,
    pub width: u16,
    pub height: u16,
    /// The pixmap that is already named; without one, a new one is named.
    pub reuse: Option<u32>,
}

/// What became of a binding.
#[derive(Debug, Clone, Copy)]
pub enum BindOutcome {
    Bound,
    /// The window is gone: texture and pixmap are to be given back.
    Orphaned,
    /// It failed; `warn` where the visual was not complained about before.
    Failed { warn: bool },
}

impl CompositorV {
    /// How the pixmap of a mapped window is bound. `keep` reuses one that is
    /// already named.
    pub open spec fn binding(self, win: u32, keep: bool) -> Option<BindPlan> {
        match at(self.wins, win) {
            Some(c) => if c.mapped {
                let empty = c.outer.w == 0 || c.outer.h == 0;
                Some(
                    BindPlan {
                        format: c.format,
                        width: if empty {
                            1
                        } else {
                            c.outer.w as u16
                        },
                        height: if empty {
                            1
                        } else {
                            c.outer.h as u16
                        },
                        reuse: if keep {
                            c.pixmap
                        } else {
                            None
                        },
                    },
                )
            } else {
                None
            },
            None => None,
        }
    }

    /// After the pixmap was bound, or could not be.
    pub open spec fn after_binding(
        self,
        win: u32,
        visual: u32,
        pixmap: u32,
        tex: Option<Texture>,
    ) -> CompositorV {
        match tex {
            Some(t) => match at(self.wins, win) {
                Some(c) => self.with_win(
                    win,
                    CompWin {
                        tex: Some(t),
                        pixmap: Some(pixmap),
                        damaged: true,
                        needs_rebind: false,
                        ..c
                    },
                ),
                None => self,
            },
            None => {
                let s = match at(self.wins, win) {
                    Some(c) => self.with_win(
                        win,
                        CompWin { needs_rebind: true, pixmap: Some(pixmap), ..c },
                    ),
                    None => self,
                };
                CompositorV {
                    warned_visuals: if self.warned_visuals.contains(visual) {
                        self.warned_visuals
                    } else {
                        self.warned_visuals.push(visual)
                    },
                    ..s
                }
            },
        }
    }
}

/// What is held for a window.
pub open spec fn held_by(c: CompWin) -> Released {
    Released { tex: c.tex, pixmap: c.pixmap, damage: None }
}

/// A damage object that is held.
pub open spec fn watched_by(damage: u32) -> Released {
    Released { tex: None, pixmap: None, damage: Some(damage) }
}

impl Compositor {
    /// How the pixmap of a window is to be bound; none where the window is not
    /// mapped.
    pub fn bind_plan(&self, win: u32, keep_pixmap: bool) -> (r: Option<BindPlan>)
        ensures
            r == self@.binding(win, keep_pixmap),
    {
        match self.wins.get(&win) {
            Some(c) => {
                if !c.mapped {
                    return None;
                }
                let empty: bool = c.outer.w == 0 || c.outer.h == 0;
                Some(
                    BindPlan {
                        format: c.format,
                        width: if empty {
                            1
                        } else {
                            #[verifier::truncate]
                            (c.outer.w as u16)
                        },
                        height: if empty {
                            1
                        } else {
                            #[verifier::truncate]
                            (c.outer.h as u16)
                        },
                        reuse: if keep_pixmap {
                            c.pixmap
                        } else {
                            None
                        },
                    },
                )
            },
            None => None,
        }
    }

    /// The pixmap of a window of the given visual was bound, or could not be. A
    /// failed one is kept, to be tried again.
    pub fn finish_bind(&mut self, win: u32, visual: u32, pixmap: u32, tex: Option<Texture>) -> (r:
        BindOutcome)
        requires
            old(self).well_formed(),
        ensures
            final(self).well_formed(),
            final(self)@ == old(self)@.after_binding(win, visual, pixmap, tex),
            r == match tex {
                Some(_) => if old(self)@.wins.dom().contains(win) {
                    BindOutcome::Bound
                } else {
                    BindOutcome::Orphaned
                },
                None => BindOutcome::Failed {
                    warn: !old(self)@.warned_visuals.contains(visual),
                },
            },
    {
        let found: Option<CompWin> = match self.wins.get(&win) {
            Some(c) => Some(*c),
            None => None,
        };
        match tex {
            Some(t) => match found {
                Some(was) => {
                    let mut c: CompWin = was;
                    c.tex = Some(t);
                    c.pixmap = Some(pixmap);
                    c.damaged = true;
                    c.needs_rebind = false;
                    self.wins.insert(win, c);
                    BindOutcome::Bound
                },
                None => BindOutcome::Orphaned,
            },
            None => {
                let warn: bool = !contains_window(&self.warned_visuals, visual);
                if warn {
                    self.warned_visuals.push(visual);
                }
                match found {
                    Some(was) => {
                        let mut c: CompWin = was;
                        c.needs_rebind = true;
                        c.pixmap = Some(pixmap);
                        self.wins.insert(win, c);
                    },
                    None => {},
                }
                BindOutcome::Failed { warn }
            },
        }
    }

    /// Stop compositing: everything that was held is returned, to be given back.
    /// The root window's background pixmap is not ours, so that it is not among
    /// it.
    pub fn disable(&mut self) -> (r: (Vec<Released>, Option<Texture>))
        requires
            old(self).well_formed(),
        ensures
            final(self).well_formed(),
            final(self)@ == (CompositorV {
                wins: Map::empty(),
                damages: Map::empty(),
                wallpaper: Wallpaper {
                    root: None,
                    root_pixmap: None,
                    ..old(self)@.wallpaper
                },
                ..old(self)@
            }),
            r.1 == old(self)@.wallpaper.root,
            forall|w: u32|
                old(self)@.wins.dom().contains(w) ==> r.0@.contains(
                    held_by(#[trigger] old(self)@.wins[w]),
                ),
            forall|w: u32|
                old(self)@.damages.dom().contains(w) ==> r.0@.contains(
                    watched_by(#[trigger] old(self)@.damages[w]),
                ),
            r.0@.len() == old(self)@.wins.dom().len() + old(self)@.damages.dom().len(),
    {
        let ghost wins = self.wins@;
        let ghost damages = self.damages@;
        let mut out: Vec<Released> = Vec::new();
        let ids: Vec<u32> = client_ids(&self.wins);
        let mut i: usize = 0;
        while i < ids.len()
            invariant
                i <= ids.len(),
                wins == self.wins@,
                forall|w: u32| #[trigger] ids@.contains(w) <==> wins.contains_key(w),
                out@.len() == i,
                forall|j: int|
                    0 <= j < i ==> out@[j] == held_by(wins[#[trigger] ids@[j]]),
            decreases ids.len() - i,
        {
            assert(ids@.contains(ids@[i as int]));
            match self.wins.get(&ids[i]) {
                Some(c) => {
                    out.push(Released { tex: c.tex, pixmap: c.pixmap, damage: None });
                },
                None => {},
            }
            i = i + 1;
        }
        let ghost first = out@;
        let dids: Vec<u32> = client_ids(&self.damages);
        let mut k: usize = 0;
        while k < dids.len()
            invariant
                k <= dids.len(),
                damages == self.damages@,
                forall|w: u32| #[trigger] dids@.contains(w) <==> damages.contains_key(w),
                out@.len() == first.len() + k,
                forall|j: int| 0 <= j < first.len() ==> out@[j] == first[j],
                forall|j: int|
                    0 <= j < k ==> out@[first.len() + j] == watched_by(
                        damages[#[trigger] dids@[j]],
                    ),
            decreases dids.len() - k,
        {
            assert(dids@.contains(dids@[k as int]));
            match self.damages.get(&dids[k]) {
                Some(d) => {
                    out.push(Released { tex: None, pixmap: None, damage: Some(*d) });
                },
                None => {},
            }
            k = k + 1;
        }
        proof {
            assert forall|w: u32| wins.dom().contains(w) implies out@.contains(
                held_by(#[trigger] wins[w]),
            ) by {
                assert(ids@.contains(w));
                let j = choose|j: int| 0 <= j < ids@.len() && ids@[j] == w;
                assert(first[j] == held_by(wins[ids@[j]]));
                assert(out@[j] == first[j]);
            }
            assert forall|w: u32| damages.dom().contains(w) implies out@.contains(
                watched_by(#[trigger] damages[w]),
            ) by {
                assert(dids@.contains(w));
                let j = choose|j: int| 0 <= j < dids@.len() && dids@[j] == w;
                assert(out@[first.len() + j] == watched_by(damages[dids@[j]]));
            }
            assert(ids@.to_set() =~= wins.dom());
            assert(dids@.to_set() =~= damages.dom());
            ids@.unique_seq_to_set();
            dids@.unique_seq_to_set();
        }
        self.wins = HashMap::new();
        self.damages = HashMap::new();
        let root: Option<Texture> = self.wallpaper.root;
        self.wallpaper.root = None;
        self.wallpaper.root_pixmap = None;
        (out, root)
    }
}

/// A failed binding is tried again in the next scene, with the pixmap that is
/// already named, so that none is lost.
pub proof fn failed_binding_is_tried_again(c: CompositorV, win: u32, visual: u32, pixmap: u32)
    requires
        c.wins.dom().contains(win),
        c.wins[win].shown(),
        !c.wins[win].occluded,
    ensures
        ({
            let d = c.after_binding(win, visual, pixmap, None);
            &&& lacks_texture(d.wins)(win)
            &&& d.binding(win, true) matches Some(p) && p.reuse == Some(pixmap)
        }),
{
}

// ---- The wallpaper ----------------------------------------------------------

/// What loading a wallpaper gave.
#[derive(Debug, Clone, Copy)]
pub enum WallpaperLoad {
    /// No source, or it could not be loaded.
    Nothing,
    Image { tex: u32, w: u32, h: u32 },
    Shader { program: u32, animated: bool },
}

/// What is drawn beneath the windows.
#[derive(Debug, Clone, Copy, PartialEq, Eq, Structural)]
pub enum WallpaperLayer {
    Nothing,
    Shader { program: u32 },
    Image { tex: u32 },
    Root { texture: Texture },
}

/// The wallpaper after a load.
pub open spec fn loaded(w: Wallpaper, load: WallpaperLoad) -> Wallpaper {
    let cleared = Wallpaper {
        native: None,
        shader: None,
        animated: false,
        animating: false,
        ..w
    };
    match load {
        WallpaperLoad::Nothing => cleared,
        WallpaperLoad::Image { tex, w, h } => Wallpaper {
            native: Some(tex),
            img_w: w,
            img_h: h,
            ..cleared
        },
        WallpaperLoad::Shader { program, animated } => Wallpaper {
            shader: Some(program),
            animated,
            animating: animated,
            ..cleared
        },
    }
}

/// A shader before an image before the root window's background.
pub open spec fn layer_of(w: Wallpaper, outputs: Seq<Rect>) -> WallpaperLayer {
    match (w.shader, w.native, w.root) {
        (Some(program), _, _) => WallpaperLayer::Shader { program },
        (None, Some(tex), _) => if w.img_w > 0 && w.img_h > 0 && outputs.len() > 0 {
            WallpaperLayer::Image { tex }
        } else {
            WallpaperLayer::Nothing
        },
        (None, None, Some(tex)) => WallpaperLayer::Root { texture: tex },
        (None, None, None) => WallpaperLayer::Nothing,
    }
}

impl Compositor {
    /// Take over a loaded wallpaper and ask for one whole frame. Returns the
    /// image texture that is to be given back.
    pub fn set_wallpaper(&mut self, load: WallpaperLoad) -> (r: Option<u32>)
        requires
            old(self).well_formed(),
        ensures
            final(self).well_formed(),
            r == old(self)@.wallpaper.native,
            final(self)@ == (CompositorV {
                wallpaper: loaded(old(self)@.wallpaper, load),
                ..old(self)@
            }).marked(DirtyReason::WALLPAPER),
    {
        let r: Option<u32> = self.wallpaper.native;
        self.wallpaper.native = None;
        self.wallpaper.shader = None;
        self.wallpaper.animating = false;
        self.wallpaper.animated = false;
        match load {
            WallpaperLoad::Nothing => {},
            WallpaperLoad::Image { tex, w, h } => {
                self.wallpaper.native = Some(tex);
                self.wallpaper.img_w = w;
                self.wallpaper.img_h = h;
            },
            WallpaperLoad::Shader { program, animated } => {
                self.wallpaper.shader = Some(program);
                self.wallpaper.animated = animated;
                self.wallpaper.animating = animated;
            },
        }
        self.dirty = true;
        self.needs_full = true;
        self.dirty_reasons.insert(DirtyReason::WALLPAPER);
        r
    }

    /// A turn of the loop: only a shader that depends on time is animating.
    /// Returns whether its clock advances.
    pub fn tick_wallpaper(&mut self) -> (advances: bool)
        requires
            old(self).well_formed(),
        ensures
            final(self).well_formed(),
            advances == old(self)@.wallpaper.animated,
            final(self)@ == (CompositorV {
                wallpaper: Wallpaper {
                    animating: old(self)@.wallpaper.animated,
                    ..old(self)@.wallpaper
                },
                ..old(self)@
            }),
    {
        self.wallpaper.animating = self.wallpaper.animated;
        self.wallpaper.animated
    }

    /// Whether the wallpaper is animating.
    pub fn wallpaper_animating(&self) -> (b: bool)
        ensures
            b == self@.wallpaper.animating,
    {
        self.wallpaper.animating
    }

    /// Whether the root window's background pixmap, as just read, is one that is
    /// not shown yet.
    pub fn wants_root_pixmap(&self, pixmap: u32) -> (b: bool)
        ensures
            b == (pixmap != 0 && self@.wallpaper.root_pixmap != Some(pixmap)),
    {
        pixmap != 0 && match self.wallpaper.root_pixmap {
            Some(p) => p != pixmap,
            None => true,
        }
    }

    /// The root window's background pixmap was bound, or could not be. Returns
    /// the texture of the one before, to be given back.
    pub fn refresh_wallpaper(&mut self, pixmap: u32, tex: Option<Texture>) -> (r: Option<Texture>)
        requires
            old(self).well_formed(),
        ensures
            final(self).well_formed(),
            r == old(self)@.wallpaper.root,
            final(self)@ == (match tex {
                Some(t) => (CompositorV {
                    wallpaper: Wallpaper {
                        root: Some(t),
                        root_pixmap: Some(pixmap),
                        ..old(self)@.wallpaper
                    },
                    ..old(self)@
                }).marked(DirtyReason::SURFACE),
                None => CompositorV {
                    wallpaper: Wallpaper {
                        root: None,
                        root_pixmap: None,
                        ..old(self)@.wallpaper
                    },
                    ..old(self)@
                },
            }),
    {
        let r: Option<Texture> = self.wallpaper.root;
        self.wallpaper.root = tex;
        match tex {
            Some(_) => {
                self.wallpaper.root_pixmap = Some(pixmap);
                self.dirty = true;
                self.needs_full = true;
                self.dirty_reasons.insert(DirtyReason::SURFACE);
            },
            None => {
                self.wallpaper.root_pixmap = None;
            },
        }
        r
    }

    /// What is drawn beneath the windows.
    pub fn wallpaper_layer(&self) -> (l: WallpaperLayer)
        ensures
            l == layer_of(self@.wallpaper, self@.outputs),
    {
        match (self.wallpaper.shader, self.wallpaper.native, self.wallpaper.root) {
            (Some(program), _, _) => WallpaperLayer::Shader { program },
            (None, Some(tex), _) => {
                if self.wallpaper.img_w > 0 && self.wallpaper.img_h > 0 && self.outputs.len() > 0 {
                    WallpaperLayer::Image { tex }
                } else {
                    WallpaperLayer::Nothing
                }
            },
            (None, None, Some(tex)) => WallpaperLayer::Root { texture: tex },
            (None, None, None) => WallpaperLayer::Nothing,
        }
    }
}

/// A wallpaper that does not depend on time does not keep the loop awake: once
/// its frame is presented, a turn of the loop needs none.
pub proof fn still_wallpaper_lets_the_loop_idle(w: Wallpaper, load: WallpaperLoad)
    requires
        !(load matches WallpaperLoad::Shader { animated, .. } && animated),
    ensures
        !loaded(w, load).animated,
        !loaded(w, load).animating,
{
}

// ---- How much is repainted --------------------------------------------------

/// A box of the screen to repaint.
#[derive(Debug, Clone, Copy, PartialEq, Eq, Structural)]
pub struct Scissor {
    pub x: i32,
    pub y: i32,
    pub w: u32,
    pub h: u32,
}

impl Scissor {
    pub open spec fn covers(self, px: int, py: int) -> bool {
        self.x <= px < self.x + self.w && self.y <= py < self.y + self.h
    }
}

/// The length of a box from `from` on, cut at the edge of the screen.
pub open spec fn cut(len: int, from: int, screen: u32) -> int {
    max_of(min_of(len, screen - from), 0)
}

/// The box of the damage on the screen; none where nothing of it is on screen.
pub open spec fn scissor_box(e: Extent, w: u32, h: u32) -> Option<Scissor> {
    let x = max_of(e.left, 0);
    let y = max_of(e.top, 0);
    let bw = cut(e.right - e.left, x, w);
    let bh = cut(e.bottom - e.top, y, h);
    if bw == 0 || bh == 0 {
        None
    } else {
        Some(Scissor { x: x as i32, y: y as i32, w: bw as u32, h: bh as u32 })
    }
}

impl CompositorV {
    /// How much of the screen the damage asks to repaint.
    pub open spec fn asked_mode(self, has_buffer_age: bool) -> FrameMode {
        redraw(
            has_buffer_age && !self.force_full_redraw,
            self.needs_full || self.frame_dirty.needs_full,
            !self.frame_dirty.is_empty(),
        )
    }

    /// The damage to be presented, with that of this frame.
    pub open spec fn accumulated(self) -> DamageRegionV {
        self.damage_acc.adding_all(self.frame_dirty.rects)
    }

    /// How much is repainted, given the age of the back buffer: the accumulated
    /// damage describes only a buffer that is one present old.
    pub open spec fn settled_mode(self, mode: FrameMode, age: u32) -> FrameMode {
        if mode is Partial && (age != 1 || self.accumulated().needs_full) {
            FrameMode::Full
        } else {
            mode
        }
    }

    /// After a frame was presented.
    pub open spec fn presented(self) -> CompositorV {
        CompositorV {
            damage_acc: DamageRegionV::empty(),
            dirty: false,
            needs_full: false,
            dirty_reasons: DirtyReason { bits: DirtyReason::NONE },
            ..self
        }
    }
}

impl Compositor {
    /// How much of the screen the frame asks to repaint.
    pub fn choose_mode(&self, has_buffer_age: bool) -> (m: FrameMode)
        requires
            self.well_formed(),
        ensures
            m == self@.asked_mode(has_buffer_age),
    {
        decide_redraw(
            has_buffer_age && !self.force_full_redraw,
            self.needs_full || self.frame_dirty.needs_full,
            !self.frame_dirty.is_empty(),
        )
    }

    /// How much is repainted once the age of the back buffer is known. A partial
    /// frame takes the damage of this frame over.
    pub fn settle_mode(&mut self, mode: FrameMode, age: u32) -> (m: FrameMode)
        requires
            old(self).well_formed(),
        ensures
            final(self).well_formed(),
            m == old(self)@.settled_mode(mode, age),
            final(self)@ == (if mode is Partial && age == 1 {
                CompositorV { damage_acc: old(self)@.accumulated(), ..old(self)@ }
            } else {
                old(self)@
            }),
    {
        if mode == FrameMode::Partial {
            if age == 1 {
                let rects: Vec<Rect> = self.frame_dirty.rectangles();
                self.damage_acc.add_all(&rects);
                if self.damage_acc.needs_full {
                    return FrameMode::Full;
                }
            } else {
                return FrameMode::Full;
            }
        }
        mode
    }

    /// The box that a partial frame repaints; none where the whole screen is.
    pub fn scissor(&self) -> (r: Option<Scissor>)
        requires
            self.well_formed(),
        ensures
            r == (if self@.damage_acc.rects.len() == 0 {
                None
            } else {
                scissor_box(extent(self@.damage_acc.rects), self@.screen_w, self@.screen_h)
            }),
    {
        let rects: Vec<Rect> = self.damage_acc.rectangles();
        if rects.len() == 0 {
            return None;
        }
        let (x0, y0, x1, y1): (i64, i64, i64, i64) = span(&rects);
        proof {
            extent_is_tight(rects@);
        }
        let x: i64 = if x0 >= 0 {
            x0
        } else {
            0
        };
        let y: i64 = if y0 >= 0 {
            y0
        } else {
            0
        };
        let room_w: i64 = self.screen_w as i64 - x;
        let room_h: i64 = self.screen_h as i64 - y;
        let w: i64 = if x1 - x0 <= room_w {
            x1 - x0
        } else {
            room_w
        };
        let h: i64 = if y1 - y0 <= room_h {
            y1 - y0
        } else {
            room_h
        };
        if w <= 0 || h <= 0 {
            None
        } else {
            Some(Scissor { x: x as i32, y: y as i32, w: w as u32, h: h as u32 })
        }
    }

    /// The frame was presented: nothing is pending.
    pub fn finish_frame(&mut self)
        requires
            old(self).well_formed(),
        ensures
            final(self).well_formed(),
            final(self)@ == old(self)@.presented(),
    {
        self.damage_acc.clear();
        self.dirty = false;
        self.needs_full = false;
        self.dirty_reasons.clear();
    }
}

/// A partial frame repaints everything on the screen that was damaged.
pub proof fn partial_frame_repaints_the_damage(
    d: DamageRegionV,
    w: u32,
    h: u32,
    px: int,
    py: int,
)
    requires
        !d.needs_full,
        d.repaints(px, py),
        0 <= px < w,
        0 <= py < h,
    ensures
        scissor_box(extent(d.rects), w, h) matches Some(b) && (b.x + b.w <= w && b.y + b.h <= h
            && (w <= i32::MAX && h <= i32::MAX ==> b.covers(px, py))),
{
    let i = choose|i: int| 0 <= i < d.rects.len() && (#[trigger] d.rects[i]).covers(px, py);
    extent_is_tight(d.rects);
    let e = extent(d.rects);
    assert(e.left <= px < e.right && e.top <= py < e.bottom);
    let k = choose|k: int| 0 <= k < d.rects.len() && e.left == (#[trigger] d.rects[k]).x;
    let l = choose|k: int| 0 <= k < d.rects.len() && e.top == (#[trigger] d.rects[k]).y;
}

/// Too much damage is never cut short: a frame whose rectangles overflowed is
/// repainted whole.
pub proof fn overflowing_damage_is_repainted_whole(c: CompositorV, has_age: bool, age: u32)
    requires
        c.frame_dirty.needs_full || c.needs_full,
    ensures
        !(c.settled_mode(c.asked_mode(has_age), age) is Partial),
{
}

/// A presented frame leaves no reason for another one.
pub proof fn presented_frame_is_not_needed_again(c: CompositorV, reasons: u8)
    ensures
        !c.presented().dirty,
        !c.presented().needs_full,
        !c.presented().dirty_reasons.shares(reasons),
        c.presented().damage_acc.is_empty(),
{
    assert(0u8 & reasons == 0) by (bit_vector);
}

// ---- Timing -----------------------------------------------------------------

/// What one frame took, in nanoseconds.
#[derive(Debug, Clone, Copy)]
pub struct FrameSample {
    pub build_ns: u64,
    pub swap_ns: u64,
    /// Since the frame before, if there was one.
    pub interval_ns: Option<u64>,
    /// The age of the back buffer.
    pub age: u32,
    pub mode: FrameMode,
    /// The damage asked for a partial frame.
    pub asked_partial: bool,
}

/// Frame timings, summed up.
#[derive(Debug, Clone, Copy, PartialEq, Eq, Structural)]
pub struct FrameTrace {
    pub frames: u64,
    pub build_ns: u64,
    pub swap_ns: u64,
    pub interval_ns: u64,
    pub interval_max: u64,
    pub age0: u64,
    pub age1: u64,
    pub age2: u64,
    pub age3: u64,
    pub full: u64,
    pub partial: u64,
    /// Frames that asked to be partial and were repainted whole.
    pub escalated: u64,
}

/// How many frames are summed up at a time.
pub const TRACE_FRAMES: u64 = 120;

impl FrameTrace {
    pub open spec fn zero() -> FrameTrace {
        FrameTrace {
            frames: 0,
            build_ns: 0,
            swap_ns: 0,
            interval_ns: 0,
            interval_max: 0,
            age0: 0,
            age1: 0,
            age2: 0,
            age3: 0,
            full: 0,
            partial: 0,
            escalated: 0,
        }
    }

    /// Fewer frames than are summed up at a time, and no count above theirs.
    pub open spec fn well_formed(self) -> bool {
        &&& self.frames < TRACE_FRAMES
        &&& self.age0 <= self.frames && self.age1 <= self.frames && self.age2 <= self.frames
            && self.age3 <= self.frames
        &&& self.full <= self.frames && self.partial <= self.frames && self.escalated
            <= self.frames
    }

    /// With one more frame.
    pub open spec fn with(self, s: FrameSample) -> FrameTrace {
        let iv = match s.interval_ns {
            Some(n) => n as int,
            None => 0,
        };
        FrameTrace {
            frames: (self.frames + 1) as u64,
            build_ns: (self.build_ns + s.build_ns) as u64,
            swap_ns: (self.swap_ns + s.swap_ns) as u64,
            interval_ns: (self.interval_ns + iv) as u64,
            interval_max: max_of(self.interval_max as int, iv) as u64,
            age0: (self.age0 + one_if(s.age == 0)) as u64,
            age1: (self.age1 + one_if(s.age == 1)) as u64,
            age2: (self.age2 + one_if(s.age == 2)) as u64,
            age3: (self.age3 + one_if(s.age >= 3)) as u64,
            full: (self.full + one_if(s.mode is Full)) as u64,
            partial: (self.partial + one_if(s.mode is Partial)) as u64,
            escalated: (self.escalated + one_if(s.asked_partial && !(s.mode is Partial))) as u64,
        }
    }

    /// The sums with the sample are representable.
    pub open spec fn has_room(self, s: FrameSample) -> bool {
        &&& self.build_ns + s.build_ns <= u64::MAX
        &&& self.swap_ns + s.swap_ns <= u64::MAX
        &&& s.interval_ns matches Some(n) ==> self.interval_ns + n <= u64::MAX
    }

    pub fn new() -> (t: FrameTrace)
        ensures
            t == FrameTrace::zero(),
            t.well_formed(),
    {
        FrameTrace {
            frames: 0,
            build_ns: 0,
            swap_ns: 0,
            interval_ns: 0,
            interval_max: 0,
            age0: 0,
            age1: 0,
            age2: 0,
            age3: 0,
            full: 0,
            partial: 0,
            escalated: 0,
        }
    }

    /// Add a frame. Once enough are summed up, the sums are returned and counting
    /// starts over.
    pub fn record(&mut self, s: FrameSample) -> (done: Option<FrameTrace>)
        requires
            old(self).well_formed(),
            old(self).has_room(s),
        ensures
            final(self).well_formed(),
            ({
                let sum = old(self).with(s);
                if sum.frames >= TRACE_FRAMES {
                    done == Some(sum) && *final(self) == FrameTrace::zero()
                } else {
                    done is None && *final(self) == sum
                }
            }),
    {
        self.frames = self.frames + 1;
        self.build_ns = self.build_ns + s.build_ns;
        self.swap_ns = self.swap_ns + s.swap_ns;
        match s.interval_ns {
            Some(n) => {
                self.interval_ns = self.interval_ns + n;
                if n > self.interval_max {
                    self.interval_max = n;
                }
            },
            None => {},
        }
        if s.age == 0 {
            self.age0 = self.age0 + 1;
        } else if s.age == 1 {
            self.age1 = self.age1 + 1;
        } else if s.age == 2 {
            self.age2 = self.age2 + 1;
        } else {
            self.age3 = self.age3 + 1;
        }
        match s.mode {
            FrameMode::Partial => {
                self.partial = self.partial + 1;
            },
            FrameMode::Full => {
                self.full = self.full + 1;
            },
            FrameMode::Idle => {},
        }
        if s.asked_partial && s.mode != FrameMode::Partial {
            self.escalated = self.escalated + 1;
        }
        if self.frames >= TRACE_FRAMES {
            let sum: FrameTrace = *self;
            *self = FrameTrace::new();
            Some(sum)
        } else {
            None
        }
    }
}

/// How long the frames took to draw, summed up.
#[derive(Debug, Clone, Copy, PartialEq, Eq, Structural)]
pub struct RenderTimes {
    pub frames: u64,
    pub total_ns: u64,
    pub max_ns: u64,
}

/// What enough frames took to draw.
#[derive(Debug, Clone, Copy, PartialEq, Eq, Structural)]
pub struct RenderReport {
    pub frames: u64,
    pub average_ns: u64,
    pub max_ns: u64,
}

impl RenderTimes {
    /// Fewer frames than are summed up at a time.
    pub open spec fn well_formed(self) -> bool {
        self.frames < TRACE_FRAMES
    }

    /// With one more frame.
    pub open spec fn with(self, ns: u64) -> RenderTimes {
        RenderTimes {
            frames: (self.frames + 1) as u64,
            total_ns: (self.total_ns + ns) as u64,
            max_ns: max_of(self.max_ns as int, ns as int) as u64,
        }
    }

    pub fn new() -> (t: RenderTimes)
        ensures
            t == (RenderTimes { frames: 0, total_ns: 0, max_ns: 0 }),
            t.well_formed(),
    {
        RenderTimes { frames: 0, total_ns: 0, max_ns: 0 }
    }

    /// Add a frame. Once enough are summed up, they are reported and counting
    /// starts over.
    pub fn record(&mut self, ns: u64) -> (done: Option<RenderReport>)
        requires
            old(self).well_formed(),
            old(self).total_ns + ns <= u64::MAX,
        ensures
            final(self).well_formed(),
            ({
                let sum = old(self).with(ns);
                if sum.frames >= TRACE_FRAMES {
                    &&& done == Some(
                        RenderReport {
                            frames: sum.frames,
                            average_ns: (sum.total_ns / sum.frames) as u64,
                            max_ns: sum.max_ns,
                        },
                    )
                    &&& *final(self) == (RenderTimes { frames: 0, total_ns: 0, max_ns: 0 })
                } else {
                    done is None && *final(self) == sum
                }
            }),
    {
        self.frames = self.frames + 1;
        self.total_ns = self.total_ns + ns;
        if ns > self.max_ns {
            self.max_ns = ns;
        }
        if self.frames >= TRACE_FRAMES {
            let report = RenderReport {
                frames: self.frames,
                average_ns: self.total_ns / self.frames,
                max_ns: self.max_ns,
            };
            *self = RenderTimes::new();
            Some(report)
        } else {
            None
        }
    }
}

pub open spec fn one_if(b: bool) -> int {
    if b {
        1
    } else {
        0
    }
}

// ---- Coming up --------------------------------------------------------------

/// What the compositor is doing as it comes up.
#[derive(Debug, Clone, Copy, PartialEq, Eq, Structural)]
pub enum InitStage {
    /// Looking for a GL library.
    Probe,
    /// Looking up the root window's visual.
    Visual,
    /// Naming the compositing selection.
    Name,
    /// Asking that nobody owns the selection.
    Ask,
    /// Owning the selection.
    Claim,
    /// Redirecting the windows.
    Redirect,
    /// Getting the overlay window.
    Overlay,
    /// Starting the renderer.
    Render,
    Running,
    /// It stays down.
    Refused,
}

/// Something that was acquired and is given back.
#[derive(Debug, Clone, Copy, PartialEq, Eq, Structural)]
pub enum Undo {
    ReleaseOverlay,
    Unredirect,
    ReleaseSelection,
}

impl InitStage {
    pub open spec fn after(self, ok: bool) -> InitStage {
        if !ok {
            if self is Running {
                InitStage::Running
            } else {
                InitStage::Refused
            }
        } else {
            match self {
                InitStage::Probe => InitStage::Visual,
                InitStage::Visual => InitStage::Name,
                InitStage::Name => InitStage::Ask,
                InitStage::Ask => InitStage::Claim,
                InitStage::Claim => InitStage::Redirect,
                InitStage::Redirect => InitStage::Overlay,
                InitStage::Overlay => InitStage::Render,
                InitStage::Render => InitStage::Running,
                InitStage::Running => InitStage::Running,
                InitStage::Refused => InitStage::Refused,
            }
        }
    }

    /// What success at the stage acquires.
    pub open spec fn acquires(self) -> Option<Undo> {
        match self {
            InitStage::Claim => Some(Undo::ReleaseSelection),
            InitStage::Redirect => Some(Undo::Unredirect),
            InitStage::Overlay => Some(Undo::ReleaseOverlay),
            _ => None,
        }
    }

    /// What is given back where the stage fails.
    pub open spec fn undone(self) -> Seq<Undo> {
        match self {
            InitStage::Redirect => seq![Undo::ReleaseSelection],
            InitStage::Overlay => seq![Undo::Unredirect, Undo::ReleaseSelection],
            InitStage::Render => seq![
                Undo::ReleaseOverlay,
                Undo::Unredirect,
                Undo::ReleaseSelection,
            ],
            _ => Seq::empty(),
        }
    }

    /// The next stage, given whether this one succeeded.
    pub fn next(self, ok: bool) -> (s: InitStage)
        ensures
            s == self.after(ok),
    {
        if !ok {
            if self == InitStage::Running {
                return InitStage::Running;
            }
            return InitStage::Refused;
        }
        match self {
            InitStage::Probe => InitStage::Visual,
            InitStage::Visual => InitStage::Name,
            InitStage::Name => InitStage::Ask,
            InitStage::Ask => InitStage::Claim,
            InitStage::Claim => InitStage::Redirect,
            InitStage::Redirect => InitStage::Overlay,
            InitStage::Overlay => InitStage::Render,
            InitStage::Render => InitStage::Running,
            InitStage::Running => InitStage::Running,
            InitStage::Refused => InitStage::Refused,
        }
    }

    /// What is to be given back where this stage fails, in order.
    pub fn rollback(self) -> (v: Vec<Undo>)
        ensures
            v@ == self.undone(),
    {
        let mut v: Vec<Undo> = Vec::new();
        if self == InitStage::Render {
            v.push(Undo::ReleaseOverlay);
        }
        if self == InitStage::Render || self == InitStage::Overlay {
            v.push(Undo::Unredirect);
        }
        if self == InitStage::Render || self == InitStage::Overlay || self == InitStage::Redirect {
            v.push(Undo::ReleaseSelection);
        }
        assert(v@ =~= self.undone());
        v
    }
}

/// A failing stage gives back exactly what the stages before it acquired, the
/// last first.
pub proof fn rollback_gives_back_what_was_acquired(s: InitStage)
    requires
        !(s.after(true) is Running),
        !(s is Refused),
    ensures
        s.after(true).undone() == (match s.acquires() {
            Some(u) => seq![u] + s.undone(),
            None => s.undone(),
        }),
        InitStage::Probe.undone().len() == 0,
{
    assert(s.after(true).undone() =~= (match s.acquires() {
        Some(u) => seq![u] + s.undone(),
        None => s.undone(),
    }));
}

/// The name of the compositing selection of a screen.
pub fn cm_selection_name(screen: u64) -> (s: String)
    ensures
        s@ == "_NET_WM_CM_S"@ + decimal_text(screen as nat),
{
    "_NET_WM_CM_S".to_owned().concat(decimal(screen).as_str())
}

// ---- What a frame shows -----------------------------------------------------

/// A mapped window is bound in its own size and format; its pixmap is taken again
/// just where it is to be kept. Any other window is not bound.
pub proof fn window_is_bound_as_it_is(s: CompositorV, win: u32, keep: bool)
    ensures
        s.binding(win, keep) is Some <==> s.wins.dom().contains(win) && s.wins[win].mapped,
        s.binding(win, keep) is Some ==> ({
            let p = s.binding(win, keep)->0;
            let c = s.wins[win];
            &&& p.format == c.format
            &&& 0 < c.outer.w <= 65535 && 0 < c.outer.h <= 65535 ==> p.width == c.outer.w
                && p.height == c.outer.h
            &&& c.outer.w == 0 || c.outer.h == 0 ==> p.width == 1 && p.height == 1
            &&& keep ==> p.reuse == c.pixmap
            &&& !keep ==> p.reuse is None
        }),
{
}

/// A window that was bound has its texture and pixmap, is drawn anew and need not be
/// bound again; one that could not be keeps what it showed and is tried again. No
/// other window changes.
pub proof fn bound_window_has_its_texture(
    s: CompositorV,
    win: u32,
    visual: u32,
    pixmap: u32,
    t: Texture,
)
    requires
        s.wins.dom().contains(win),
    ensures
        ({
            let c = s.wins[win];
            let d = s.after_binding(win, visual, pixmap, Some(t));
            let e = s.after_binding(win, visual, pixmap, None);
            &&& d.wins[win].tex == Some(t) && d.wins[win].pixmap == Some(pixmap)
                && d.wins[win].damaged && !d.wins[win].needs_rebind
            &&& d.wins[win].outer == c.outer && d.wins[win].mapped == c.mapped
                && d.wins[win].opacity == c.opacity
            &&& d.warned_visuals == s.warned_visuals
            &&& e.wins[win].tex == c.tex && e.wins[win].pixmap == Some(pixmap)
                && e.wins[win].needs_rebind && e.wins[win].damaged == c.damaged
            &&& e.warned_visuals.contains(visual)
            &&& forall|v: u32|
                v != visual ==> (#[trigger] e.warned_visuals.contains(v)
                    <==> s.warned_visuals.contains(v))
            &&& forall|w: u32|
                w != win && s.wins.dom().contains(w) ==> #[trigger] d.wins[w] == s.wins[w]
                    && e.wins[w] == s.wins[w]
        }),
{
    let e = s.after_binding(win, visual, pixmap, None);
    if !s.warned_visuals.contains(visual) {
        assert(e.warned_visuals[e.warned_visuals.len() - 1] == visual);
        assert forall|v: u32| v != visual implies (#[trigger] e.warned_visuals.contains(v)
            <==> s.warned_visuals.contains(v)) by {
            if s.warned_visuals.contains(v) {
                let i = choose|i: int|
                    0 <= i < s.warned_visuals.len() && s.warned_visuals[i] == v;
                assert(e.warned_visuals[i] == v);
            }
            if e.warned_visuals.contains(v) {
                let i = choose|i: int|
                    0 <= i < e.warned_visuals.len() && e.warned_visuals[i] == v;
                assert(s.warned_visuals[i] == v);
            }
        }
    }
}

/// A loaded wallpaper takes the place of the one before: an image is shown in its own
/// size, a shader is run, and moves just where it is an animated one. The root
/// window's wallpaper is not touched.
pub proof fn loaded_wallpaper_is_the_only_one(w: Wallpaper, load: WallpaperLoad)
    ensures
        ({
            let l = loaded(w, load);
            &&& l.root == w.root && l.root_pixmap == w.root_pixmap
            &&& load is Nothing ==> l.native is None && l.shader is None && !l.animated
            &&& load matches WallpaperLoad::Image { tex, w: iw, h: ih } ==> l.native == Some(tex)
                && l.img_w == iw && l.img_h == ih && l.shader is None && !l.animated
            &&& load matches WallpaperLoad::Shader { program, animated } ==> l.shader == Some(
                program,
            ) && l.native is None && l.animated == animated && l.animating == animated
        }),
{
}

/// A shader is drawn before an image, an image before the root window's wallpaper,
/// and each with what it was loaded as.
pub proof fn wallpaper_layers_have_an_order(w: Wallpaper, outputs: Seq<Rect>)
    ensures
        w.shader is Some ==> layer_of(w, outputs) == (WallpaperLayer::Shader {
            program: w.shader->0,
        }),
        w.shader is None && w.native is Some && w.img_w > 0 && w.img_h > 0 && outputs.len() > 0
            ==> layer_of(w, outputs) == (WallpaperLayer::Image { tex: w.native->0 }),
        w.shader is None && w.native is None && w.root is Some ==> layer_of(w, outputs) == (
        WallpaperLayer::Root { texture: w.root->0 }),
        w.shader is None && w.native is None && w.root is None ==> layer_of(
            w,
            outputs,
        ) is Nothing,
        w.shader is None && w.native is Some && (w.img_w == 0 || w.img_h == 0 || outputs.len() == 0)
            ==> layer_of(w, outputs) is Nothing,
{
}

/// What is repainted of damage that lies on the screen is its bounding box, to the
/// pixel.
pub proof fn damage_on_screen_is_repainted_exactly(e: Extent, w: u32, h: u32)
    requires
        w <= i32::MAX,
        h <= i32::MAX,
        0 <= e.left < e.right <= w,
        0 <= e.top < e.bottom <= h,
    ensures
        scissor_box(e, w, h) == Some(
            Scissor {
                x: e.left as i32,
                y: e.top as i32,
                w: (e.right - e.left) as u32,
                h: (e.bottom - e.top) as u32,
            },
        ),
{
}

/// A frame is repainted in part only where the back buffer is one frame old, all
/// damage is known and nothing asks for the whole screen; nothing is drawn just where
/// nothing is damaged.
pub proof fn part_of_a_frame_is_repainted_only_where_it_is_safe(
    c: CompositorV,
    has_age: bool,
    age: u32,
)
    ensures
        ({
            let m = c.settled_mode(c.asked_mode(has_age), age);
            let damaged = c.frame_dirty.rects.len() > 0 || c.frame_dirty.needs_full;
            &&& m is Idle <==> !damaged
            &&& m is Partial <==> damaged && has_age && !c.force_full_redraw && !c.needs_full
                && !c.frame_dirty.needs_full && age == 1 && !c.accumulated().needs_full
        }),
{
}

/// A presented frame forgets its damage and its reasons, and nothing of the windows.
pub proof fn presented_frame_keeps_the_windows(c: CompositorV)
    ensures
        c.presented().wins == c.wins,
        c.presented().wallpaper == c.wallpaper,
        c.presented().frame_dirty == c.frame_dirty,
        c.presented().damage_acc.rects.len() == 0,
        !c.presented().damage_acc.needs_full,
{
}

/// A sample is counted once, in its own age and mode, and its times are added up.
pub proof fn sample_is_counted_once(t: FrameTrace, s: FrameSample)
    requires
        t.well_formed(),
        t.has_room(s),
    ensures
        ({
            let n = t.with(s);
            let iv = match s.interval_ns {
                Some(i) => i as int,
                None => 0int,
            };
            &&& n.frames == t.frames + 1
            &&& n.build_ns == t.build_ns + s.build_ns && n.swap_ns == t.swap_ns + s.swap_ns
                && n.interval_ns == t.interval_ns + iv
            &&& n.interval_max >= t.interval_max && n.interval_max >= iv && (n.interval_max
                == t.interval_max || n.interval_max == iv)
            &&& n.age0 + n.age1 + n.age2 + n.age3 == t.age0 + t.age1 + t.age2 + t.age3 + 1
            &&& s.age == 0 ==> n.age0 == t.age0 + 1
            &&& s.age == 1 ==> n.age1 == t.age1 + 1
            &&& s.age == 2 ==> n.age2 == t.age2 + 1
            &&& s.age >= 3 ==> n.age3 == t.age3 + 1
            &&& s.mode is Full ==> n.full == t.full + 1 && n.partial == t.partial
            &&& s.mode is Partial ==> n.partial == t.partial + 1 && n.full == t.full
                && n.escalated == t.escalated
            &&& s.mode is Idle ==> n.partial == t.partial && n.full == t.full
            &&& s.asked_partial && !(s.mode is Partial) ==> n.escalated == t.escalated + 1
            &&& !s.asked_partial ==> n.escalated == t.escalated
        }),
{
}

/// A rendering time is counted once and added up, and the longest is kept.
pub proof fn rendering_time_is_counted_once(t: RenderTimes, ns: u64)
    requires
        t.well_formed(),
        t.total_ns + ns <= u64::MAX,
    ensures
        t.with(ns).frames == t.frames + 1,
        t.with(ns).total_ns == t.total_ns + ns,
        t.with(ns).max_ns >= t.max_ns && t.with(ns).max_ns >= ns,
        t.with(ns).max_ns == t.max_ns || t.with(ns).max_ns == ns,
{
}

/// The compositor comes up by eight steps, in their order; a step that fails refuses
/// it, until it runs.
pub proof fn compositor_comes_up_step_by_step(s: InitStage)
    ensures
        s == InitStage::Probe ==> s.after(true).after(true).after(true).after(true).after(
            true,
        ).after(true).after(true).after(true) == InitStage::Running,
        s.after(true) == InitStage::Running <==> s == InitStage::Render || s == InitStage::Running,
        s.after(true) == InitStage::Claim <==> s == InitStage::Ask,
        s.after(true) == InitStage::Redirect <==> s == InitStage::Claim,
        s.after(true) == InitStage::Overlay <==> s == InitStage::Redirect,
        s.after(true) == InitStage::Render <==> s == InitStage::Overlay,
        s != InitStage::Running ==> s.after(false) == InitStage::Refused,
        InitStage::Running.after(false) == InitStage::Running,
        InitStage::Refused.after(true) == InitStage::Refused,
{
}

/// What is given back after a failure is what was acquired before it: the selection
/// once it is claimed, the redirection once it is made, the overlay once it is got,
/// the last one first.
pub proof fn failure_gives_back_what_is_held(s: InitStage)
    ensures
        s == InitStage::Probe || s == InitStage::Visual || s == InitStage::Name || s
            == InitStage::Ask || s == InitStage::Claim ==> s.undone().len() == 0,
        s == InitStage::Redirect ==> s.undone() == seq![Undo::ReleaseSelection],
        s == InitStage::Overlay ==> s.undone() == seq![Undo::Unredirect, Undo::ReleaseSelection],
        s == InitStage::Render ==> s.undone() == seq![
            Undo::ReleaseOverlay,
            Undo::Unredirect,
            Undo::ReleaseSelection,
        ],
{
}

} // verus!
