//! The scene of a frame: which windows are drawn, where, and what they damage.

use crate::compositor::{at, CompWin, Compositor, CompositorV, Texture, OPAQUE_FROM};
use crate::damage::{
    added_damage_is_repainted, anim_damage_rects, covered_by, fully_covered_by, moved_damage,
    DamageRegionV,
};
use crate::geom::Rect;
use crate::seqs::filter_take_step;
use vstd::prelude::*;

verus! {

broadcast use vstd::std_specs::hash::group_hash_axioms;

// ---- Occlusion --------------------------------------------------------------

/// What a frame is drawn for: its number and the size of the screen.
#[derive(Clone, Copy)]
pub struct FrameOf {
    pub gen: u64,
    pub w: u32,
    pub h: u32,
}

/// The window has an area on the screen this frame.
pub open spec fn on_screen(c: CompWin, f: FrameOf) -> bool {
    let r = c.visual(f.gen).0;
    c.shown() && r.w != 0 && r.h != 0 && !CompWin::off_screen(r, f.w, f.h)
}

/// Nothing shines through the window: it is opaque and has square corners.
pub open spec fn solid(c: CompWin, f: FrameOf) -> bool {
    c.opacity >= OPAQUE_FROM && c.visual(f.gen).1 == 0
}

/// One window of the pass from the top: it is occluded where one of the solid
/// rectangles above encloses it, and else becomes one of them if it is solid.
pub open spec fn occlude_step(
    wins: Map<u32, CompWin>,
    above: Seq<Rect>,
    win: u32,
    f: FrameOf,
) -> (Map<u32, CompWin>, Seq<Rect>) {
    match at(wins, win) {
        Some(c) => {
            let r = c.visual(f.gen).0;
            let occluded = on_screen(c, f) && covered_by(r, above);
            (
                wins.insert(win, CompWin { occluded, ..c }),
                if on_screen(c, f) && solid(c, f) && !occluded {
                    above.push(r)
                } else {
                    above
                },
            )
        },
        None => (wins, above),
    }
}

/// The pass from the top of `stack` down.
pub open spec fn occluded_from(
    wins: Map<u32, CompWin>,
    above: Seq<Rect>,
    stack: Seq<u32>,
    f: FrameOf,
) -> Map<u32, CompWin>
    decreases stack.len(),
{
    if stack.len() == 0 {
        wins
    } else {
        let (w, a) = occlude_step(wins, above, stack.last(), f);
        occluded_from(w, a, stack.drop_last(), f)
    }
}

impl CompositorV {
    pub open spec fn frame(self) -> FrameOf {
        FrameOf { gen: self.frame_gen, w: self.screen_w, h: self.screen_h }
    }

    /// With every window marked that another one hides entirely.
    pub open spec fn culled(self) -> CompositorV {
        CompositorV {
            wins: occluded_from(self.wins, Seq::empty(), self.stack, self.frame()),
            ..self
        }
    }
}

impl Compositor {
    /// Mark the windows that a single opaque, square-cornered window above them
    /// hides entirely this frame.
    pub fn cull_occluded(&mut self)
        requires
            old(self).well_formed(),
        ensures
            final(self).well_formed(),
            final(self)@ == old(self)@.culled(),
    {
        let ghost start = self@;
        let ghost f = start.frame();
        let (gen, w, h): (u64, u32, u32) = (self.frame_gen, self.screen_w, self.screen_h);
        let mut above: Vec<Rect> = Vec::new();
        let mut i: usize = self.stack.len();
        assert(self.stack@.take(i as int) =~= self.stack@);
        assert(above@ =~= Seq::<Rect>::empty());
        while i > 0
            invariant
                i <= self.stack@.len(),
                self.well_formed(),
                f == start.frame(),
                gen == f.gen,
                w == f.w,
                h == f.h,
                self@ == (CompositorV { wins: self@.wins, ..start }),
                occluded_from(self.wins@, above@, self.stack@.take(i as int), f)
                    == start.culled().wins,
            decreases i,
        {
            i = i - 1;
            let win: u32 = self.stack[i];
            proof {
                let t = self.stack@.take(i as int + 1);
                assert(t.drop_last() =~= self.stack@.take(i as int));
                assert(t.last() == win);
            }
            match self.wins.get(&win) {
                Some(found) => {
                    let mut c: CompWin = *found;
                    let (outer, radius): (Rect, u32) = c.drawn_at(gen);
                    let visible: bool = c.mapped && !c.hidden && outer.w != 0 && outer.h != 0
                        && !CompWin::offscreen(outer, w, h);
                    c.occluded = visible && fully_covered_by(outer, &above);
                    if visible && c.opacity >= OPAQUE_FROM && radius == 0 && !c.occluded {
                        above.push(outer);
                    }
                    self.wins.insert(win, c);
                },
                None => {},
            }
        }
        assert(self.stack@.take(0) =~= Seq::<u32>::empty());
    }
}

/// What the pass from the top leaves as it was: everything but the marks.
pub open spec fn same_but_marks(a: Map<u32, CompWin>, b: Map<u32, CompWin>) -> bool {
    a.dom() == b.dom() && forall|w: u32|
        #![trigger a[w]]
        #![trigger b[w]]
        a.dom().contains(w) ==> b[w] == (CompWin { occluded: b[w].occluded, ..a[w] })
}

/// The window at `j` of the stack is drawn, solid, not hidden, and has the
/// rectangle `r`.
spec fn blocks_at(
    wins: Map<u32, CompWin>,
    full: Seq<u32>,
    j: int,
    r: Rect,
    f: FrameOf,
) -> bool {
    let v = full[j];
    &&& wins.dom().contains(v)
    &&& on_screen(wins[v], f)
    &&& solid(wins[v], f)
    &&& !wins[v].occluded
    &&& wins[v].visual(f.gen).0 == r
}

/// Every rectangle collected so far is of a window above position `n`.
spec fn collected(
    wins: Map<u32, CompWin>,
    above: Seq<Rect>,
    full: Seq<u32>,
    n: int,
    f: FrameOf,
) -> bool {
    forall|k: int| 0 <= k < above.len() ==> from_above(wins, #[trigger] above[k], full, n, f)
}

/// The rectangle is of a window above position `n`.
spec fn from_above(
    wins: Map<u32, CompWin>,
    r: Rect,
    full: Seq<u32>,
    n: int,
    f: FrameOf,
) -> bool {
    exists|j: int| n <= j < full.len() && #[trigger] blocks_at(wins, full, j, r, f)
}

/// Every marked window from position `n` up is enclosed by one above it.
spec fn justly_marked(wins: Map<u32, CompWin>, full: Seq<u32>, n: int, f: FrameOf) -> bool {
    forall|i: int|
        n <= i < full.len() && wins.dom().contains(#[trigger] full[i]) && wins[full[i]].occluded
            ==> exists|j: int|
            i < j < full.len() && hides(wins, full, j, full[i], f)
}

/// The window at `j` of the stack is drawn, solid, not hidden itself, and
/// encloses the window `w`.
pub open spec fn hides(
    wins: Map<u32, CompWin>,
    full: Seq<u32>,
    j: int,
    w: u32,
    f: FrameOf,
) -> bool {
    let v = full[j];
    &&& wins.dom().contains(v)
    &&& on_screen(wins[v], f)
    &&& solid(wins[v], f)
    &&& !wins[v].occluded
    &&& wins[v].visual(f.gen).0.encloses(wins[w].visual(f.gen).0)
}

proof fn pass_marks_justly(
    wins: Map<u32, CompWin>,
    above: Seq<Rect>,
    n: int,
    full: Seq<u32>,
    f: FrameOf,
)
    requires
        0 <= n <= full.len(),
        full.no_duplicates(),
        collected(wins, above, full, n, f),
        justly_marked(wins, full, n, f),
    ensures
        ({
            let out = occluded_from(wins, above, full.take(n), f);
            &&& justly_marked(out, full, 0, f)
            &&& same_but_marks(wins, out)
        }),
    decreases n,
{
    let rest = full.take(n);
    if n > 0 {
        let win = rest.last();
        assert(win == full[n - 1]);
        assert(rest.drop_last() =~= full.take(n - 1));
        let (w, a) = occlude_step(wins, above, win, f);
        assert(w.dom() =~= wins.dom());
        assert(same_but_marks(wins, w));
        assert forall|k: int| 0 <= k < a.len() implies from_above(
            w,
            #[trigger] a[k],
            full,
            n - 1,
            f,
        ) by {
            if k < above.len() {
                assert(a[k] == above[k]);
                assert(from_above(wins, above[k], full, n, f));
                let j = choose|j: int|
                    n <= j < full.len() && #[trigger] blocks_at(wins, full, j, above[k], f);
                assert(full[j] != win);
                assert(blocks_at(w, full, j, a[k], f));
            } else {
                assert(blocks_at(w, full, n - 1, a[k], f));
            }
        }
        assert forall|i: int|
            n - 1 <= i < full.len() && w.dom().contains(#[trigger] full[i])
                && w[full[i]].occluded implies exists|j: int|
            i < j < full.len() && hides(w, full, j, full[i], f) by {
            if i == n - 1 {
                let r = w[win].visual(f.gen).0;
                let k = choose|k: int| 0 <= k < above.len() && (#[trigger] above[k]).encloses(r);
                assert(from_above(wins, above[k], full, n, f));
                let j = choose|j: int|
                    n <= j < full.len() && #[trigger] blocks_at(wins, full, j, above[k], f);
                assert(full[j] != win);
                assert(hides(w, full, j, win, f));
            } else {
                assert(full[i] != win);
                let j = choose|j: int| i < j < full.len() && hides(wins, full, j, full[i], f);
                assert(full[j] != win);
                assert(hides(w, full, j, full[i], f));
            }
        }
        pass_marks_justly(w, a, n - 1, full, f);
        let out = occluded_from(w, a, full.take(n - 1), f);
        assert(same_but_marks(wins, out)) by {
            assert forall|x: u32|
                #![trigger wins[x]]
                #![trigger out[x]]
                wins.dom().contains(x) implies out[x] == (CompWin {
                occluded: out[x].occluded,
                ..wins[x]
            }) by {
                assert(w[x] == (CompWin { occluded: w[x].occluded, ..wins[x] }));
                assert(out[x] == (CompWin { occluded: out[x].occluded, ..w[x] }));
            }
        }
    }
}

/// Nothing visible is culled: a window is marked only where one that is drawn
/// above it, opaque and with square corners, encloses it entirely. Nothing else
/// of any window changes.
pub proof fn culled_window_is_behind_a_solid_one(c: CompositorV, i: int)
    requires
        c.stack.no_duplicates(),
        0 <= i < c.stack.len(),
        c.wins.dom().contains(c.stack[i]),
    ensures
        same_but_marks(c.wins, c.culled().wins),
        c.culled().wins[c.stack[i]].occluded ==> exists|j: int|
            i < j < c.stack.len() && hides(c.culled().wins, c.stack, j, c.stack[i], c.frame()),
{
    let n = c.stack.len() as int;
    assert(c.stack.take(n) =~= c.stack);
    pass_marks_justly(c.wins, Seq::empty(), n, c.stack, c.frame());
    assert(same_but_marks(c.wins, c.culled().wins));
    let w = c.stack[i];
    assert(c.culled().wins.dom().contains(c.stack[i]));
}

// ---- The scene --------------------------------------------------------------

/// One window to draw.
#[derive(Debug, Clone, Copy, PartialEq, Eq, Structural)]
pub struct DrawItem {
    pub win: u32,
    pub outer: Rect,
    pub radius: u32,
    pub opacity: u32,
    /// The texture is not as large as the window is drawn: filter it.
    pub smooth: bool,
    /// The number of the texture.
    pub tex: u32,
}

/// What a frame draws.
#[derive(Debug)]
pub struct Scene {
    /// Bottom to top.
    pub items: Vec<DrawItem>,
    /// Windows whose texture is to be rebound before they are drawn.
    pub rebinds: Vec<u32>,
}

/// A scene that is being built.
pub struct SceneV {
    pub wins: Map<u32, CompWin>,
    pub region: DamageRegionV,
    pub items: Seq<DrawItem>,
    pub rebinds: Seq<u32>,
}

/// What is drawn of a window.
pub open spec fn item_of(win: u32, c: CompWin, f: FrameOf) -> DrawItem {
    let (outer, radius) = c.visual(f.gen);
    DrawItem {
        win,
        outer,
        radius,
        opacity: c.opacity,
        smooth: c.tex->0.width != outer.w || c.tex->0.height != outer.h,
        tex: c.tex->0.handle,
    }
}

/// The window has a texture to draw and is not hidden.
pub open spec fn textured(c: CompWin) -> bool {
    c.shown() && !c.occluded && c.tex is Some
}

/// What a frame repaints of a window: where it was and where it is, if it moved
/// or its client repainted.
pub open spec fn window_damage(d: DamageRegionV, c: CompWin, f: FrameOf) -> DamageRegionV {
    let outer = c.visual(f.gen).0;
    let d1 = if c.damaged || c.prev_visual != Some(outer) {
        d.adding_all(moved_damage(c.prev_visual, outer))
    } else {
        d
    };
    if c.damaged && !CompWin::off_screen(outer, f.w, f.h) {
        d1.adding(outer)
    } else {
        d1
    }
}

impl SceneV {
    /// With one more window of the stack.
    pub open spec fn with(self, win: u32, f: FrameOf) -> SceneV {
        match at(self.wins, win) {
            Some(c) => if !textured(c) {
                self
            } else {
                let outer = c.visual(f.gen).0;
                let rebinds = if c.damaged {
                    self.rebinds.push(win)
                } else {
                    self.rebinds
                };
                if outer.w == 0 || outer.h == 0 {
                    SceneV {
                        wins: self.wins.insert(win, CompWin { damaged: false, ..c }),
                        rebinds,
                        ..self
                    }
                } else {
                    SceneV {
                        wins: self.wins.insert(
                            win,
                            CompWin { damaged: false, prev_visual: Some(outer), ..c },
                        ),
                        region: window_damage(self.region, c, f),
                        items: if CompWin::off_screen(outer, f.w, f.h) {
                            self.items
                        } else {
                            self.items.push(item_of(win, c, f))
                        },
                        rebinds,
                    }
                }
            },
            None => self,
        }
    }
}

/// The scene of a stack.
pub open spec fn scene_of(wins: Map<u32, CompWin>, stack: Seq<u32>, f: FrameOf) -> SceneV
    decreases stack.len(),
{
    if stack.len() == 0 {
        SceneV {
            wins,
            region: DamageRegionV::empty(),
            items: Seq::empty(),
            rebinds: Seq::empty(),
        }
    } else {
        scene_of(wins, stack.drop_last(), f).with(stack.last(), f)
    }
}

impl CompositorV {
    pub open spec fn scene(self) -> SceneV {
        scene_of(self.wins, self.stack, self.frame())
    }
}

/// The window is to be drawn and its texture is missing or must be bound anew.
pub open spec fn lacks_texture(wins: Map<u32, CompWin>) -> spec_fn(u32) -> bool {
    |w: u32|
        wins.dom().contains(w) && wins[w].shown() && !wins[w].occluded && (wins[w].tex is None
            || wins[w].needs_rebind)
}

impl Compositor {
    /// The windows of the frame whose pixmap is to be named or bound before the
    /// scene is built.
    pub fn scene_fixups(&self) -> (out: Vec<u32>)
        ensures
            out@ == self@.stack.filter(lacks_texture(self@.wins)),
    {
        let ghost p = lacks_texture(self@.wins);
        let mut out: Vec<u32> = Vec::new();
        let mut i: usize = 0;
        proof {
            reveal(Seq::filter);
        }
        assert(out@ =~= self.stack@.take(0).filter(p));
        while i < self.stack.len()
            invariant
                i <= self.stack@.len(),
                p == lacks_texture(self.wins@),
                out@ == self.stack@.take(i as int).filter(p),
            decreases self.stack@.len() - i,
        {
            proof {
                filter_take_step(self.stack@, i as int, p);
            }
            let win: u32 = self.stack[i];
            let lacks: bool = match self.wins.get(&win) {
                Some(c) => c.mapped && !c.hidden && !c.occluded && (c.tex.is_none()
                    || c.needs_rebind),
                None => false,
            };
            if lacks {
                out.push(win);
            }
            i = i + 1;
        }
        assert(self.stack@.take(i as int) =~= self.stack@);
        out
    }

    /// Build the scene of the frame: one item for each window that is mapped, on
    /// screen, not hidden and not behind another. The damage of the frame is
    /// counted anew.
    pub fn compute_scene(&mut self) -> (scene: Scene)
        requires
            old(self).well_formed(),
        ensures
            final(self).well_formed(),
            scene.items@ == old(self)@.scene().items,
            scene.rebinds@ == old(self)@.scene().rebinds,
            final(self)@ == (CompositorV {
                wins: old(self)@.scene().wins,
                frame_dirty: if old(self)@.needs_full {
                    DamageRegionV { needs_full: true, ..old(self)@.scene().region }
                } else {
                    old(self)@.scene().region
                },
                ..old(self)@
            }),
    {
        let ghost start = self@;
        let ghost f = start.frame();
        let (gen, w, h): (u64, u32, u32) = (self.frame_gen, self.screen_w, self.screen_h);
        let mut items: Vec<DrawItem> = Vec::new();
        let mut rebinds: Vec<u32> = Vec::new();
        self.frame_dirty.clear();
        let mut i: usize = 0;
        assert(self.stack@.take(0) =~= Seq::<u32>::empty());
        while i < self.stack.len()
            invariant
                i <= self.stack@.len(),
                self.well_formed(),
                f == start.frame(),
                gen == f.gen,
                w == f.w,
                h == f.h,
                self@ == (CompositorV {
                    wins: scene_of(start.wins, start.stack.take(i as int), f).wins,
                    frame_dirty: scene_of(start.wins, start.stack.take(i as int), f).region,
                    ..start
                }),
                items@ == scene_of(start.wins, start.stack.take(i as int), f).items,
                rebinds@ == scene_of(start.wins, start.stack.take(i as int), f).rebinds,
            decreases self.stack@.len() - i,
        {
            let win: u32 = self.stack[i];
            let ghost acc = scene_of(start.wins, start.stack.take(i as int), f);
            proof {
                let t = start.stack.take(i as int + 1);
                assert(t.drop_last() =~= start.stack.take(i as int));
                assert(t.last() == win);
            }
            i = i + 1;
            let mut c: CompWin = match self.wins.get(&win) {
                Some(c) => *c,
                None => {
                    continue ;
                },
            };
            if !c.mapped || c.hidden || c.occluded {
                continue ;
            }
            let tex: Texture = match c.tex {
                Some(tex) => tex,
                None => {
                    continue ;
                },
            };
            let was_damaged: bool = c.damaged;
            if was_damaged {
                rebinds.push(win);
                c.damaged = false;
            }
            let (outer, radius): (Rect, u32) = c.drawn_at(gen);
            if outer.w == 0 || outer.h == 0 {
                self.wins.insert(win, c);
                continue ;
            }
            let still: bool = match c.prev_visual {
                Some(p) => p == outer,
                None => false,
            };
            if was_damaged || !still {
                let mut both: [Rect; 2] = [outer, outer];
                let n: usize = anim_damage_rects(c.prev_visual, outer, &mut both);
                let ghost d0 = self.frame_dirty@;
                let ghost md = moved_damage(c.prev_visual, outer);
                assert(both@.take(n as int) == md);
                if n == 1 {
                    self.frame_dirty.add(both[0]);
                    proof {
                        assert(md =~= seq![both@[0]]);
                        assert(md.drop_last() =~= Seq::<Rect>::empty());
                        assert(md.last() == both@[0]);
                        assert(d0.adding_all(md.drop_last()) == d0);
                    }
                } else {
                    self.frame_dirty.add(both[0]);
                    self.frame_dirty.add(both[1]);
                    proof {
                        assert(n == 2);
                        assert(md =~= seq![both@[0], both@[1]]);
                        let m1 = md.drop_last();
                        assert(m1 =~= seq![both@[0]]);
                        assert(m1.drop_last() =~= Seq::<Rect>::empty());
                        assert(m1.last() == both@[0] && md.last() == both@[1]);
                        assert(d0.adding_all(m1.drop_last()) == d0);
                        assert(d0.adding_all(m1) == d0.adding(both@[0]));
                    }
                }
                assert(self.frame_dirty@ == d0.adding_all(md));
            }
            c.prev_visual = Some(outer);
            self.wins.insert(win, c);
            if CompWin::offscreen(outer, w, h) {
                continue ;
            }
            if was_damaged {
                self.frame_dirty.add(outer);
            }
            let smooth: bool = tex.width as u32 != outer.w || tex.height as u32 != outer.h;
            items.push(
                DrawItem { win, outer, radius, opacity: c.opacity, smooth, tex: tex.handle },
            );
        }
        assert(start.stack.take(i as int) =~= start.stack);
        if self.needs_full {
            self.frame_dirty.full();
        }
        Scene { items, rebinds }
    }
}

/// What can be seen of the stack: windows with a texture, not hidden, with an
/// area on the screen.
pub open spec fn drawable(wins: Map<u32, CompWin>, f: FrameOf) -> spec_fn(u32) -> bool {
    |w: u32| wins.dom().contains(w) && textured(wins[w]) && on_screen(wins[w], f)
}

/// Building the scene of a stack leaves the other windows as they were.
proof fn scene_keeps_others(wins: Map<u32, CompWin>, stack: Seq<u32>, f: FrameOf, w: u32)
    requires
        !stack.contains(w),
    ensures
        at(scene_of(wins, stack, f).wins, w) == at(wins, w),
    decreases stack.len(),
{
    if stack.len() > 0 {
        let t = stack.drop_last();
        assert forall|i: int| 0 <= i < t.len() implies t[i] != w by {
            assert(stack[i] == t[i]);
        }
        scene_keeps_others(wins, t, f, w);
        assert(stack[stack.len() - 1] != w);
    }
}

/// The scene draws exactly the windows of the stack that can be seen, bottom to
/// top, each where the frame places it.
pub proof fn scene_draws_what_can_be_seen(wins: Map<u32, CompWin>, stack: Seq<u32>, f: FrameOf)
    requires
        stack.no_duplicates(),
    ensures
        scene_of(wins, stack, f).items == stack.filter(drawable(wins, f)).map_values(
            |w: u32| item_of(w, wins[w], f),
        ),
    decreases stack.len(),
{
    let draw = |w: u32| item_of(w, wins[w], f);
    let p = drawable(wins, f);
    reveal(Seq::filter);
    if stack.len() > 0 {
        let t = stack.drop_last();
        let win = stack.last();
        assert(t.no_duplicates());
        scene_draws_what_can_be_seen(wins, t, f);
        assert(!t.contains(win));
        scene_keeps_others(wins, t, f, win);
        let kept = t.filter(p);
        if p(win) {
            assert(stack.filter(p) =~= kept.push(win));
            assert(kept.push(win).map_values(draw) =~= kept.map_values(draw).push(draw(win)));
        } else {
            assert(stack.filter(p) =~= kept);
        }
    } else {
        assert(scene_of(wins, stack, f).items =~= stack.filter(p).map_values(draw));
    }
}

/// One rectangle after the other: none is lost, nor what was there before.
proof fn all_damage_is_repainted(d: DamageRegionV, rs: Seq<Rect>, px: int, py: int)
    requires
        d.repaints(px, py) || exists|i: int| 0 <= i < rs.len() && (#[trigger] rs[i]).covers(px, py),
    ensures
        d.adding_all(rs).repaints(px, py),
    decreases rs.len(),
{
    if rs.len() > 0 {
        let t = rs.drop_last();
        if d.repaints(px, py) {
            all_damage_is_repainted(d, t, px, py);
        } else {
            let i = choose|i: int| 0 <= i < rs.len() && (#[trigger] rs[i]).covers(px, py);
            if i < t.len() {
                assert(t[i] == rs[i]);
                all_damage_is_repainted(d, t, px, py);
            }
        }
        added_damage_is_repainted(d.adding_all(t), rs.last(), px, py);
    }
}

proof fn window_damage_keeps(d: DamageRegionV, c: CompWin, f: FrameOf, px: int, py: int)
    requires
        d.repaints(px, py),
    ensures
        window_damage(d, c, f).repaints(px, py),
{
    let outer = c.visual(f.gen).0;
    all_damage_is_repainted(d, moved_damage(c.prev_visual, outer), px, py);
    let d1 = d.adding_all(moved_damage(c.prev_visual, outer));
    added_damage_is_repainted(d1, outer, px, py);
    added_damage_is_repainted(d, outer, px, py);
}

/// No residue of a moving window: what it covered in the last frame and what it
/// covers in this one are both repainted.
pub proof fn moved_window_is_repainted(
    wins: Map<u32, CompWin>,
    stack: Seq<u32>,
    f: FrameOf,
    i: int,
    px: int,
    py: int,
)
    requires
        stack.no_duplicates(),
        0 <= i < stack.len(),
        wins.dom().contains(stack[i]),
        textured(wins[stack[i]]),
        ({
            let c = wins[stack[i]];
            let outer = c.visual(f.gen).0;
            &&& outer.w != 0 && outer.h != 0
            &&& c.damaged || c.prev_visual != Some(outer)
            &&& outer.covers(px, py) || (c.prev_visual matches Some(p) && p.covers(px, py))
        }),
    ensures
        scene_of(wins, stack, f).region.repaints(px, py),
    decreases stack.len(),
{
    let t = stack.drop_last();
    let win = stack.last();
    assert(t.no_duplicates());
    let acc = scene_of(wins, t, f);
    if i < t.len() {
        assert(t[i] == stack[i]);
        moved_window_is_repainted(wins, t, f, i, px, py);
        if acc.wins.dom().contains(win) {
            window_damage_keeps(acc.region, acc.wins[win], f, px, py);
        }
    } else {
        assert(!t.contains(win));
        scene_keeps_others(wins, t, f, win);
        let c = wins[win];
        let outer = c.visual(f.gen).0;
        let md = moved_damage(c.prev_visual, outer);
        if outer.covers(px, py) {
            assert(md[md.len() - 1] == outer);
        } else {
            assert(md[0] == c.prev_visual->0);
        }
        all_damage_is_repainted(acc.region, md, px, py);
        added_damage_is_repainted(acc.region.adding_all(md), outer, px, py);
    }
}

// ---- What a frame shows -----------------------------------------------------

/// Every window drawn stands in the stack, as high as the items are in order.
proof fn items_follow_the_stack(wins: Map<u32, CompWin>, stack: Seq<u32>, f: FrameOf)
    requires
        stack.no_duplicates(),
    ensures
        ({
            let items = scene_of(wins, stack, f).items;
            &&& forall|i: int|
                0 <= i < items.len() ==> stack.contains((#[trigger] items[i]).win) && drawable(
                    wins,
                    f,
                )(items[i].win) && items[i] == item_of(items[i].win, wins[items[i].win], f)
            &&& forall|i: int, j: int|
                0 <= i < j < items.len() ==> stack_place(stack, (#[trigger] items[i]).win)
                    < stack_place(stack, (#[trigger] items[j]).win)
            &&& forall|k: int|
                0 <= k < stack.len() && drawable(wins, f)(#[trigger] stack[k]) ==> exists|i: int|
                    0 <= i < items.len() && (#[trigger] items[i]).win == stack[k]
        }),
    decreases stack.len(),
{
    let items = scene_of(wins, stack, f).items;
    if stack.len() > 0 {
        let t = stack.drop_last();
        let win = stack.last();
        assert(t.no_duplicates());
        items_follow_the_stack(wins, t, f);
        assert(!t.contains(win));
        scene_keeps_others(wins, t, f, win);
        let init = scene_of(wins, t, f).items;
        assert(items == init || items == init.push(item_of(win, wins[win], f)));
        assert forall|w: u32| t.contains(w) implies stack_place(stack, w) == #[trigger] stack_place(
            t,
            w,
        ) by {
            let i = choose|i: int| 0 <= i < t.len() && t[i] == w;
            place_is(t, i);
            assert(stack[i] == w);
            place_is(stack, i);
        }
        place_is(stack, stack.len() - 1);
        assert forall|i: int| 0 <= i < items.len() implies stack.contains(
            (#[trigger] items[i]).win,
        ) && drawable(wins, f)(items[i].win) && items[i] == item_of(
            items[i].win,
            wins[items[i].win],
            f,
        ) by {
            if i < init.len() {
                assert(items[i] == init[i]);
                let k = choose|k: int| 0 <= k < t.len() && t[k] == init[i].win;
                assert(stack[k] == items[i].win);
            } else {
                assert(stack[stack.len() - 1] == win);
            }
        }
        assert forall|i: int, j: int| 0 <= i < j < items.len() implies stack_place(
            stack,
            (#[trigger] items[i]).win,
        ) < stack_place(stack, (#[trigger] items[j]).win) by {
            assert(items[i] == init[i]);
            let a = choose|a: int| 0 <= a < t.len() && t[a] == init[i].win;
            place_is(t, a);
            if j < init.len() {
                assert(items[j] == init[j]);
            }
        }
        assert forall|k: int| 0 <= k < stack.len() && drawable(wins, f)(
            #[trigger] stack[k],
        ) implies exists|i: int| 0 <= i < items.len() && (#[trigger] items[i]).win == stack[k] by {
            if k < t.len() {
                assert(t[k] == stack[k]);
                let i = choose|i: int| 0 <= i < init.len() && (#[trigger] init[i]).win == t[k];
                assert(items[i] == init[i]);
            } else {
                assert(items[init.len() as int].win == win);
            }
        }
    }
}

/// Where a window stands in a stack.
spec fn stack_place(stack: Seq<u32>, w: u32) -> int {
    choose|i: int| 0 <= i < stack.len() && stack[i] == w
}

proof fn place_is(stack: Seq<u32>, i: int)
    requires
        stack.no_duplicates(),
        0 <= i < stack.len(),
    ensures
        stack_place(stack, stack[i]) == i,
{
    assert(stack[i] == stack[i]);
    let j = stack_place(stack, stack[i]);
    assert(0 <= j < stack.len() && stack[j] == stack[i]);
}

/// A frame draws a window as it is: with its own opacity, with the texture of its
/// contents, smoothed just where that has another size, and where the frame placed
/// it with the corners it was given, or else at its own geometry with square ones.
/// Only windows of the stack are drawn that are mapped, not hidden, not covered and
/// have an area within reach of the screen.
pub proof fn drawn_window_looks_as_it_is(c: CompositorV, k: int)
    requires
        c.stack.no_duplicates(),
        0 <= k < c.scene().items.len(),
    ensures
        ({
            let it = c.scene().items[k];
            let w = c.wins[it.win];
            &&& c.stack.contains(it.win) && c.wins.dom().contains(it.win)
            &&& it.opacity == w.opacity
            &&& w.transform_gen == c.frame_gen ==> it.outer == w.transform && it.radius
                == w.transform_radius
            &&& w.transform_gen != c.frame_gen ==> it.outer == w.outer && it.radius == 0
            &&& w.tex is Some && it.tex == w.tex->0.handle
            &&& it.smooth == !(w.tex->0.width == it.outer.w && w.tex->0.height == it.outer.h)
            &&& w.mapped && !w.hidden && !w.occluded
            &&& it.outer.w > 0 && it.outer.h > 0
            &&& it.outer.x + it.outer.w > -64 && it.outer.x < c.screen_w + 64
            &&& it.outer.y + it.outer.h > -64 && it.outer.y < c.screen_h + 64
        }),
{
    items_follow_the_stack(c.wins, c.stack, c.frame());
}

/// Every window that can be seen is drawn, once, above the windows below it.
pub proof fn visible_windows_are_drawn_bottom_to_top(c: CompositorV, i: int, j: int)
    requires
        c.stack.no_duplicates(),
        0 <= i < j < c.stack.len(),
        forall|w: u32| #[trigger]
            c.wins.dom().contains(w) ==> c.wins[w].transform_gen == c.frame_gen,
        forall|k: int|
            (k == i || k == j) ==> {
                let w = c.wins[#[trigger] c.stack[k]];
                &&& c.wins.dom().contains(c.stack[k])
                &&& w.mapped && !w.hidden && !w.occluded && w.tex is Some
                &&& w.transform.w > 0 && w.transform.h > 0
                &&& 0 <= w.transform.x < c.screen_w && 0 <= w.transform.y < c.screen_h
            },
    ensures
        exists|a: int, b: int|
            0 <= a < b < c.scene().items.len() && (#[trigger] c.scene().items[a]).win == c.stack[i]
                && (#[trigger] c.scene().items[b]).win == c.stack[j],
        forall|a: int, b: int|
            0 <= a < c.scene().items.len() && 0 <= b < c.scene().items.len() && (#[trigger]
            c.scene().items[a]).win == (#[trigger] c.scene().items[b]).win ==> a == b,
{
    let items = c.scene().items;
    items_follow_the_stack(c.wins, c.stack, c.frame());
    place_is(c.stack, i);
    place_is(c.stack, j);
    assert(drawable(c.wins, c.frame())(c.stack[i]));
    assert(drawable(c.wins, c.frame())(c.stack[j]));
    let a = choose|a: int| 0 <= a < items.len() && (#[trigger] items[a]).win == c.stack[i];
    let b = choose|b: int| 0 <= b < items.len() && (#[trigger] items[b]).win == c.stack[j];
    assert(items[a].win == c.stack[i] && items[b].win == c.stack[j]);
    assert(a < b) by {
        if b < a {
            assert(stack_place(c.stack, items[b].win) < stack_place(c.stack, items[a].win));
        }
    }
}

/// After a window's opacity was set, every frame draws it with that opacity, and
/// all other windows with the ones they had.
pub proof fn faded_window_is_drawn_with_its_opacity(
    c: CompositorV,
    win: u32,
    opacity: u32,
    k: int,
)
    requires
        c.stack.no_duplicates(),
        0 <= k < c.faded(win, opacity).culled().scene().items.len(),
    ensures
        ({
            let it = c.faded(win, opacity).culled().scene().items[k];
            &&& it.win == win ==> it.opacity == opacity
            &&& it.win != win ==> it.opacity == c.wins[it.win].opacity
        }),
{
    let d = c.faded(win, opacity);
    let e = d.culled();
    assert(d.stack.take(d.stack.len() as int) =~= d.stack);
    pass_marks_justly(d.wins, Seq::empty(), d.stack.len() as int, d.stack, d.frame());
    assert(same_but_marks(d.wins, e.wins));
    drawn_window_looks_as_it_is(e, k);
    let w = e.scene().items[k].win;
    assert(e.wins[w] == (CompWin { occluded: e.wins[w].occluded, ..d.wins[w] }));
}

/// A window with any transparency, or with rounded corners, hides nothing: only
/// opaque and square ones are taken to cover what is below them.
pub proof fn only_solid_windows_hide(c: CompositorV, i: int)
    requires
        c.stack.no_duplicates(),
        0 <= i < c.stack.len(),
        c.wins.dom().contains(c.stack[i]),
        c.culled().wins[c.stack[i]].occluded,
    ensures
        exists|j: int|
            i < j < c.stack.len() && c.wins.dom().contains(#[trigger] c.stack[j]) && {
                let v = c.wins[c.stack[j]];
                let w = c.wins[c.stack[i]];
                let a = if v.transform_gen == c.frame_gen {
                    v.transform
                } else {
                    v.outer
                };
                let b = if w.transform_gen == c.frame_gen {
                    w.transform
                } else {
                    w.outer
                };
                &&& v.opacity >= 0xffff_ff80
                &&& v.transform_gen == c.frame_gen ==> v.transform_radius == 0
                &&& v.mapped && !v.hidden
                &&& a.x <= b.x && a.y <= b.y && b.x + b.w <= a.x + a.w && b.y + b.h <= a.y + a.h
            },
{
    culled_window_is_behind_a_solid_one(c, i);
    let out = c.culled().wins;
    let j = choose|j: int|
        i < j < c.stack.len() && hides(out, c.stack, j, c.stack[i], c.frame());
    assert(hides(out, c.stack, j, c.stack[i], c.frame()));
    let v = c.stack[j];
    assert(out[v] == (CompWin { occluded: out[v].occluded, ..c.wins[v] }));
    let w = c.stack[i];
    assert(out[w] == (CompWin { occluded: out[w].occluded, ..c.wins[w] }));
}

proof fn pass_leaves_what_it_passed(
    wins: Map<u32, CompWin>,
    above: Seq<Rect>,
    stack: Seq<u32>,
    f: FrameOf,
    w: u32,
)
    requires
        !stack.contains(w),
    ensures
        at(occluded_from(wins, above, stack, f), w) == at(wins, w),
    decreases stack.len(),
{
    if stack.len() > 0 {
        let t = stack.drop_last();
        assert forall|i: int| 0 <= i < t.len() implies t[i] != w by {
            assert(stack[i] == t[i]);
        }
        assert(stack[stack.len() - 1] != w);
        let (x, a) = occlude_step(wins, above, stack.last(), f);
        pass_leaves_what_it_passed(x, a, t, f, w);
    }
}

proof fn pass_marks_all_hidden(
    wins: Map<u32, CompWin>,
    above: Seq<Rect>,
    n: int,
    full: Seq<u32>,
    f: FrameOf,
    i: int,
    r: Rect,
)
    requires
        0 <= i < n <= full.len(),
        full.no_duplicates(),
        wins.dom().contains(full[i]),
        on_screen(wins[full[i]], f),
        r.encloses(wins[full[i]].visual(f.gen).0),
        above.contains(r) || exists|j: int|
            i < j < n && wins.dom().contains(#[trigger] full[j]) && occluded_from(
                wins,
                above,
                full.take(n),
                f,
            )[full[j]] == (CompWin { occluded: false, ..wins[full[j]] }) && on_screen(
                wins[full[j]],
                f,
            ) && solid(wins[full[j]], f) && wins[full[j]].visual(f.gen).0 == r,
    ensures
        occluded_from(wins, above, full.take(n), f)[full[i]].occluded,
    decreases n,
{
    let rest = full.take(n);
    let win = rest.last();
    assert(win == full[n - 1]);
    assert(rest.drop_last() =~= full.take(n - 1));
    let (w, a) = occlude_step(wins, above, win, f);
    let lower = full.take(n - 1);
    assert forall|x: int| 0 <= x < lower.len() implies #[trigger] lower[x] != win by {}
    pass_leaves_what_it_passed(w, a, full.take(n - 1), f, win);
    if i == n - 1 {
        let k = choose|k: int| 0 <= k < above.len() && above[k] == r;
        assert(above[k].encloses(wins[win].visual(f.gen).0));
    } else {
        assert(full[i] != win);
        if above.contains(r) {
            let k = choose|k: int| 0 <= k < above.len() && above[k] == r;
            assert(a[k] == r);
        } else {
            let j = choose|j: int|
                i < j < n && wins.dom().contains(#[trigger] full[j]) && occluded_from(
                    wins,
                    above,
                    full.take(n),
                    f,
                )[full[j]] == (CompWin { occluded: false, ..wins[full[j]] }) && on_screen(
                    wins[full[j]],
                    f,
                ) && solid(wins[full[j]], f) && wins[full[j]].visual(f.gen).0 == r;
            if j == n - 1 {
                assert(a.last() == r);
                assert(a[a.len() - 1] == r);
            } else {
                assert(full[j] != win);
                assert(w.dom().contains(full[j]));
            }
        }
        pass_marks_all_hidden(w, a, n - 1, full, f, i, r);
    }
}

/// What one window hides entirely is not drawn: below an opaque, square one that is
/// itself shown on the screen and not hidden, whatever it encloses is covered.
pub proof fn enclosed_window_is_not_drawn(c: CompositorV, i: int, j: int)
    requires
        c.stack.no_duplicates(),
        0 <= i < j < c.stack.len(),
        c.wins.dom().contains(c.stack[i]),
        c.wins.dom().contains(c.stack[j]),
        on_screen(c.wins[c.stack[i]], c.frame()),
        on_screen(c.wins[c.stack[j]], c.frame()),
        c.wins[c.stack[j]].opacity >= 0xffff_ff80,
        c.wins[c.stack[j]].visual(c.frame_gen).1 == 0,
        !c.culled().wins[c.stack[j]].occluded,
        c.wins[c.stack[j]].visual(c.frame_gen).0.encloses(
            c.wins[c.stack[i]].visual(c.frame_gen).0,
        ),
    ensures
        c.culled().wins[c.stack[i]].occluded,
        forall|k: int|
            0 <= k < c.culled().scene().items.len() ==> (#[trigger]
            c.culled().scene().items[k]).win != c.stack[i],
{
    let n = c.stack.len() as int;
    assert(c.stack.take(n) =~= c.stack);
    pass_marks_justly(c.wins, Seq::empty(), n, c.stack, c.frame());
    let out = c.culled().wins;
    let v = c.stack[j];
    assert(out[v] == (CompWin { occluded: out[v].occluded, ..c.wins[v] }));
    pass_marks_all_hidden(
        c.wins,
        Seq::empty(),
        n,
        c.stack,
        c.frame(),
        i,
        c.wins[v].visual(c.frame_gen).0,
    );
    assert forall|k: int| 0 <= k < c.culled().scene().items.len() implies (#[trigger]
    c.culled().scene().items[k]).win != c.stack[i] by {
        drawn_window_looks_as_it_is(c.culled(), k);
    }
}

/// The damage of a frame names a window that changed: it is where one that is drawn
/// was or is, whose client repainted or which moved.
spec fn is_due(wins: Map<u32, CompWin>, w: u32, r: Rect, f: FrameOf) -> bool {
    &&& wins.dom().contains(w)
    &&& textured(wins[w])
    &&& wins[w].damaged || wins[w].prev_visual != Some(wins[w].visual(f.gen).0)
    &&& r == wins[w].visual(f.gen).0 || wins[w].prev_visual == Some(r)
}

spec fn due(wins: Map<u32, CompWin>, r: Rect, f: FrameOf) -> bool {
    exists|w: u32| #[trigger] is_due(wins, w, r, f)
}

spec fn all_due(wins: Map<u32, CompWin>, d: DamageRegionV, f: FrameOf) -> bool {
    &&& forall|i: int| 0 <= i < d.rects.len() ==> due(wins, #[trigger] d.rects[i], f)
    &&& d.needs_full ==> exists|r: Rect| #[trigger] due(wins, r, f)
}

proof fn adding_keeps_due(
    wins: Map<u32, CompWin>,
    d: DamageRegionV,
    w: u32,
    r: Rect,
    f: FrameOf,
)
    requires
        all_due(wins, d, f),
        is_due(wins, w, r, f),
    ensures
        all_due(wins, d.adding(r), f),
{
    let e = d.adding(r);
    assert(due(wins, r, f));
    assert forall|i: int| 0 <= i < e.rects.len() implies due(wins, #[trigger] e.rects[i], f) by {
        if i < d.rects.len() {
            assert(e.rects[i] == d.rects[i]);
        } else {
            assert(e.rects[i] == r);
        }
    }
}

proof fn damage_is_due(wins: Map<u32, CompWin>, stack: Seq<u32>, f: FrameOf)
    requires
        stack.no_duplicates(),
    ensures
        all_due(wins, scene_of(wins, stack, f).region, f),
    decreases stack.len(),
{
    if stack.len() > 0 {
        let t = stack.drop_last();
        let win = stack.last();
        assert(t.no_duplicates());
        damage_is_due(wins, t, f);
        assert(!t.contains(win));
        scene_keeps_others(wins, t, f, win);
        let acc = scene_of(wins, t, f);
        if wins.dom().contains(win) && textured(wins[win]) {
            let c = wins[win];
            let outer = c.visual(f.gen).0;
            let md = moved_damage(c.prev_visual, outer);
            if c.damaged || c.prev_visual != Some(outer) {
                assert(is_due(wins, win, outer, f));
                if md.len() == 2 {
                    assert(md.drop_last() =~= seq![md[0]]);
                    assert(md.drop_last().drop_last() =~= Seq::<Rect>::empty());
                    assert(is_due(wins, win, md[0], f));
                    adding_keeps_due(wins, acc.region, win, md[0], f);
                    adding_keeps_due(wins, acc.region.adding(md[0]), win, md[1], f);
                    assert(acc.region.adding_all(md.drop_last().drop_last()) == acc.region);
                    assert(acc.region.adding_all(md.drop_last()) == acc.region.adding(md[0]));
                } else {
                    assert(md.drop_last() =~= Seq::<Rect>::empty());
                    assert(acc.region.adding_all(md.drop_last()) == acc.region);
                    adding_keeps_due(wins, acc.region, win, md[0], f);
                }
                adding_keeps_due(wins, acc.region.adding_all(md), win, outer, f);
            }
        }
    }
}

/// Some window that moved, or whose client repainted, was at `r` or is there now.
pub open spec fn left_or_taken(c: CompositorV, r: Rect) -> bool {
    exists|w: u32| #[trigger]
        c.wins.dom().contains(w) && {
            let now = if c.wins[w].transform_gen == c.frame_gen {
                c.wins[w].transform
            } else {
                c.wins[w].outer
            };
            &&& c.wins[w].damaged || c.wins[w].prev_visual != Some(now)
            &&& r == now || c.wins[w].prev_visual == Some(r)
        }
}

/// A frame repaints only what changed: every damaged rectangle is one that a window
/// left or now has which moved or whose client repainted, and where there is no
/// such window there is no damage at all.
pub proof fn still_windows_are_not_repainted(c: CompositorV)
    requires
        c.stack.no_duplicates(),
    ensures
        forall|i: int|
            0 <= i < c.scene().region.rects.len() ==> left_or_taken(
                c,
                #[trigger] c.scene().region.rects[i],
            ),
        (forall|r: Rect| !#[trigger] left_or_taken(c, r)) ==> c.scene().region.rects.len() == 0
            && !c.scene().region.needs_full,
{
    let d = c.scene().region;
    let f = c.frame();
    damage_is_due(c.wins, c.stack, f);
    assert forall|r: Rect| #[trigger] due(c.wins, r, f) implies left_or_taken(c, r) by {
        let w = choose|w: u32| #[trigger] is_due(c.wins, w, r, f);
        assert(c.wins.dom().contains(w));
    }
    if forall|r: Rect| !#[trigger] left_or_taken(c, r) {
        if d.rects.len() > 0 {
            assert(due(c.wins, d.rects[0], f));
        }
    }
}

proof fn scene_settles_window(wins: Map<u32, CompWin>, stack: Seq<u32>, f: FrameOf, k: int)
    requires
        stack.no_duplicates(),
        0 <= k < stack.len(),
        wins.dom().contains(stack[k]),
    ensures
        ({
            let s = scene_of(wins, stack, f);
            let c = wins[stack[k]];
            let d = s.wins[stack[k]];
            &&& s.wins.dom() == wins.dom()
            &&& textured(c) ==> !d.damaged && s.rebinds.contains(stack[k]) == c.damaged
            &&& textured(c) && c.visual(f.gen).0.w > 0 && c.visual(f.gen).0.h > 0
                ==> d.prev_visual == Some(c.visual(f.gen).0)
            &&& !textured(c) ==> d == c && !s.rebinds.contains(stack[k])
            &&& d == (CompWin { damaged: d.damaged, prev_visual: d.prev_visual, ..c })
        }),
    decreases stack.len(),
{
    let t = stack.drop_last();
    let win = stack.last();
    assert(t.no_duplicates());
    assert(!t.contains(win));
    let acc = scene_of(wins, t, f);
    let s = scene_of(wins, stack, f);
    scene_keeps_others(wins, t, f, win);
    rebinds_stand_in_the_stack(wins, t, f);
    scene_keeps_the_windows(wins, t, f);
    scene_keeps_the_windows(wins, stack, f);
    let x = stack[k];
    assert(s.rebinds == acc.rebinds || s.rebinds == acc.rebinds.push(win));
    if k < t.len() {
        assert(t[k] == stack[k]);
        scene_settles_window(wins, t, f, k);
        assert(x != win);
        assert(at(s.wins, x) == at(acc.wins, x));
        assert(s.rebinds.contains(x) == acc.rebinds.contains(x)) by {
            if acc.rebinds.contains(x) {
                let i = choose|i: int| 0 <= i < acc.rebinds.len() && acc.rebinds[i] == x;
                assert(s.rebinds[i] == x);
            }
        }
    } else {
        assert(!acc.rebinds.contains(win));
        if textured(wins[win]) && wins[win].damaged {
            assert(s.rebinds.last() == win);
            assert(s.rebinds[s.rebinds.len() - 1] == win);
        }
    }
}

proof fn scene_keeps_the_windows(wins: Map<u32, CompWin>, stack: Seq<u32>, f: FrameOf)
    ensures
        scene_of(wins, stack, f).wins.dom() == wins.dom(),
    decreases stack.len(),
{
    if stack.len() > 0 {
        scene_keeps_the_windows(wins, stack.drop_last(), f);
        assert(scene_of(wins, stack, f).wins.dom() =~= wins.dom());
    }
}

proof fn rebinds_stand_in_the_stack(wins: Map<u32, CompWin>, stack: Seq<u32>, f: FrameOf)
    ensures
        forall|w: u32| #[trigger]
            scene_of(wins, stack, f).rebinds.contains(w) ==> stack.contains(w),
    decreases stack.len(),
{
    if stack.len() > 0 {
        let t = stack.drop_last();
        rebinds_stand_in_the_stack(wins, t, f);
        let s = scene_of(wins, stack, f);
        let acc = scene_of(wins, t, f);
        assert(s.rebinds == acc.rebinds || s.rebinds == acc.rebinds.push(stack.last()));
        assert forall|w: u32| #[trigger] s.rebinds.contains(w) implies stack.contains(w) by {
            let i = choose|i: int| 0 <= i < s.rebinds.len() && s.rebinds[i] == w;
            if i < acc.rebinds.len() {
                assert(acc.rebinds.contains(w));
                let k = choose|k: int| 0 <= k < t.len() && t[k] == w;
                assert(stack[k] == w);
            } else {
                assert(stack[stack.len() - 1] == w);
            }
        }
    }
}

/// A frame takes note of what it draws: a repaint is answered once, by binding the
/// texture anew, and where a window was drawn is remembered for the next frame, so
/// that the same frame again repaints nothing of it. Nothing else of it changes.
pub proof fn frame_is_remembered(c: CompositorV, k: int)
    requires
        c.stack.no_duplicates(),
        0 <= k < c.stack.len(),
        c.wins.dom().contains(c.stack[k]),
    ensures
        ({
            let w = c.wins[c.stack[k]];
            let d = c.scene().wins[c.stack[k]];
            let drawn = w.mapped && !w.hidden && !w.occluded && w.tex is Some;
            let now = if w.transform_gen == c.frame_gen {
                w.transform
            } else {
                w.outer
            };
            &&& drawn ==> !d.damaged && c.scene().rebinds.contains(c.stack[k]) == w.damaged
            &&& drawn && now.w > 0 && now.h > 0 ==> d.prev_visual == Some(now)
            &&& !drawn ==> d == w && !c.scene().rebinds.contains(c.stack[k])
            &&& d == (CompWin { damaged: d.damaged, prev_visual: d.prev_visual, ..w })
        }),
{
    scene_settles_window(c.wins, c.stack, c.frame(), k);
}

} // verus!
