//! What a frame must repaint, and why.

use crate::geom::Rect;
use vstd::prelude::*;

verus! {

// ---- Why a frame is needed --------------------------------------------------

/// Why the compositor needs a frame: a set of reasons, one bit each.
#[derive(Debug, Clone, Copy, PartialEq, Eq, Structural)]
pub struct DirtyReason {
    pub bits: u8,
}

impl DirtyReason {
    pub const NONE: u8 = 0;

    /// A client repainted: only its own area is dirty.
    pub const DAMAGE: u8 = 1;

    /// A window's geometry changed.
    pub const GEOMETRY: u8 = 2;

    /// A surface appeared or disappeared.
    pub const SURFACE: u8 = 4;

    /// The stacking order changed.
    pub const FOCUS: u8 = 8;

    /// The wallpaper changed.
    pub const WALLPAPER: u8 = 16;

    /// The sets have a reason in common.
    pub open spec fn shares(self, reasons: u8) -> bool {
        self.bits & reasons != 0
    }

    pub open spec fn with(self, reasons: u8) -> DirtyReason {
        DirtyReason { bits: self.bits | reasons }
    }

    /// The set of the given reasons.
    pub fn of(reasons: u8) -> (s: DirtyReason)
        ensures
            s.bits == reasons,
    {
        DirtyReason { bits: reasons }
    }

    /// Whether some of the given reasons is in the set.
    pub fn contains(self, reasons: u8) -> (b: bool)
        ensures
            b == self.shares(reasons),
    {
        self.bits & reasons != 0
    }

    pub fn insert(&mut self, reasons: u8)
        ensures
            *final(self) == old(self).with(reasons),
            reasons != 0 ==> final(self).bits != 0,
    {
        let b: u8 = self.bits;
        assert(reasons != 0 ==> (b | reasons) != 0) by (bit_vector);
        self.bits = b | reasons;
    }

    pub fn clear(&mut self)
        ensures
            final(self).bits == DirtyReason::NONE,
    {
        self.bits = 0;
    }
}

/// An inserted reason is in the set, the others stay as they were, and an empty
/// set has no reason.
pub proof fn inserted_reason_is_contained(s: DirtyReason, a: u8, b: u8)
    ensures
        a != DirtyReason::NONE ==> s.with(a).shares(a),
        s.with(a).shares(b) <==> s.shares(b) || a & b != 0,
        !(DirtyReason { bits: DirtyReason::NONE }).shares(a),
{
    let x = s.bits;
    assert((a != 0 ==> (x | a) & a != 0) && (((x | a) & b != 0) <==> (x & b != 0 || a & b != 0))
        && 0u8 & a == 0) by (bit_vector);
}

// ---- How much of the screen -------------------------------------------------

/// How much of the screen a frame repaints.
#[derive(Debug, Clone, Copy, PartialEq, Eq, Structural)]
pub enum FrameMode {
    /// Nothing to draw.
    Idle,
    /// Clear and repaint the whole screen.
    Full,
    /// Repaint only the bounding box of the damage.
    Partial,
}

/// The kind of frame that is required.
pub open spec fn redraw(has_buffer_age: bool, needs_full: bool, damaged: bool) -> FrameMode {
    if !damaged {
        FrameMode::Idle
    } else if !has_buffer_age || needs_full {
        FrameMode::Full
    } else {
        FrameMode::Partial
    }
}

/// What kind of frame is required: none without damage, the whole screen where
/// the age of the back buffer is unknown or the change is structural, and the
/// damaged part otherwise.
pub fn decide_redraw(has_buffer_age: bool, needs_full: bool, damaged: bool) -> (m: FrameMode)
    ensures
        m == redraw(has_buffer_age, needs_full, damaged),
{
    if !damaged {
        FrameMode::Idle
    } else if !has_buffer_age || needs_full {
        FrameMode::Full
    } else {
        FrameMode::Partial
    }
}

// ---- Extents ----------------------------------------------------------------

pub open spec fn min_of(a: int, b: int) -> int {
    if a <= b {
        a
    } else {
        b
    }
}

pub open spec fn max_of(a: int, b: int) -> int {
    if a >= b {
        a
    } else {
        b
    }
}

/// The left, top, right and bottom edge of what rectangles span together.
pub struct Extent {
    pub left: int,
    pub top: int,
    pub right: int,
    pub bottom: int,
}

/// What the rectangles span together.
pub open spec fn extent(s: Seq<Rect>) -> Extent
    decreases s.len(),
{
    if s.len() <= 1 {
        Extent {
            left: s[0].x as int,
            top: s[0].y as int,
            right: s[0].right_edge(),
            bottom: s[0].bottom_edge(),
        }
    } else {
        let e = extent(s.drop_last());
        let r = s.last();
        Extent {
            left: min_of(e.left, r.x as int),
            top: min_of(e.top, r.y as int),
            right: max_of(e.right, r.right_edge()),
            bottom: max_of(e.bottom, r.bottom_edge()),
        }
    }
}

/// The extent reaches every edge of every rectangle, and no further.
pub proof fn extent_is_tight(s: Seq<Rect>)
    requires
        s.len() > 0,
    ensures
        forall|i: int|
            0 <= i < s.len() ==> extent(s).left <= (#[trigger] s[i]).x && extent(s).top <= s[i].y
                && s[i].right_edge() <= extent(s).right && s[i].bottom_edge() <= extent(s).bottom,
        exists|i: int| 0 <= i < s.len() && extent(s).left == (#[trigger] s[i]).x,
        exists|i: int| 0 <= i < s.len() && extent(s).top == (#[trigger] s[i]).y,
        exists|i: int| 0 <= i < s.len() && extent(s).right == (#[trigger] s[i]).right_edge(),
        exists|i: int| 0 <= i < s.len() && extent(s).bottom == (#[trigger] s[i]).bottom_edge(),
    decreases s.len(),
{
    if s.len() > 1 {
        let t = s.drop_last();
        extent_is_tight(t);
        let l = s.len() - 1;
        assert(s[l] == s.last());
        assert forall|i: int| 0 <= i < s.len() implies extent(s).left <= (#[trigger] s[i]).x
            && extent(s).top <= s[i].y && s[i].right_edge() <= extent(s).right
            && s[i].bottom_edge() <= extent(s).bottom by {
            if i < l {
                assert(s[i] == t[i]);
            }
        }
        let a = choose|i: int| 0 <= i < t.len() && extent(t).left == (#[trigger] t[i]).x;
        let b = choose|i: int| 0 <= i < t.len() && extent(t).top == (#[trigger] t[i]).y;
        let c = choose|i: int| 0 <= i < t.len() && extent(t).right == (#[trigger] t[i]).right_edge();
        let d = choose|i: int|
            0 <= i < t.len() && extent(t).bottom == (#[trigger] t[i]).bottom_edge();
        assert(s[a] == t[a] && s[b] == t[b] && s[c] == t[c] && s[d] == t[d]);
    } else {
        assert(s[0].x == extent(s).left);
    }
}

/// The box that rectangles span together: left, top, right and bottom edge.
pub fn span(rects: &[Rect]) -> (r: (i64, i64, i64, i64))
    requires
        rects@.len() > 0,
    ensures
        r.0 == extent(rects@).left,
        r.1 == extent(rects@).top,
        r.2 == extent(rects@).right,
        r.3 == extent(rects@).bottom,
{
    let first: Rect = rects[0];
    let mut x0: i64 = first.x as i64;
    let mut y0: i64 = first.y as i64;
    let mut x1: i64 = first.x as i64 + first.w as i64;
    let mut y1: i64 = first.y as i64 + first.h as i64;
    let mut i: usize = 1;
    assert(rects@.take(1)[0] == first);
    while i < rects.len()
        invariant
            1 <= i <= rects@.len(),
            x0 == extent(rects@.take(i as int)).left,
            y0 == extent(rects@.take(i as int)).top,
            x1 == extent(rects@.take(i as int)).right,
            y1 == extent(rects@.take(i as int)).bottom,
        decreases rects@.len() - i,
    {
        let r: Rect = rects[i];
        proof {
            let t = rects@.take(i as int + 1);
            assert(t.drop_last() =~= rects@.take(i as int));
            assert(t.last() == r);
        }
        let right: i64 = r.x as i64 + r.w as i64;
        let bottom: i64 = r.y as i64 + r.h as i64;
        if (r.x as i64) < x0 {
            x0 = r.x as i64;
        }
        if (r.y as i64) < y0 {
            y0 = r.y as i64;
        }
        if right > x1 {
            x1 = right;
        }
        if bottom > y1 {
            y1 = bottom;
        }
        i = i + 1;
    }
    assert(rects@.take(i as int) =~= rects@);
    (x0, y0, x1, y1)
}

// ---- Damage -----------------------------------------------------------------

/// Bounded accumulation of damaged screen rectangles for one frame.
#[derive(Debug, Clone, Copy)]
pub struct DamageRegion {
    pub rects: [Rect; 32],
    pub count: usize,
    pub needs_full: bool,
}

/// A [`DamageRegion`], mathematically.
#[verifier::ext_equal]
pub struct DamageRegionV {
    pub rects: Seq<Rect>,
    pub needs_full: bool,
}

impl DamageRegionV {
    pub open spec fn empty() -> DamageRegionV {
        DamageRegionV { rects: Seq::empty(), needs_full: false }
    }

    /// With one more rectangle. One without area is ignored, and one too many
    /// asks for the whole screen.
    pub open spec fn adding(self, r: Rect) -> DamageRegionV {
        if r.w == 0 || r.h == 0 {
            self
        } else if self.rects.len() < 32 {
            DamageRegionV { rects: self.rects.push(r), ..self }
        } else {
            DamageRegionV { needs_full: true, ..self }
        }
    }

    /// With each of the rectangles.
    pub open spec fn adding_all(self, rs: Seq<Rect>) -> DamageRegionV
        decreases rs.len(),
    {
        if rs.len() == 0 {
            self
        } else {
            self.adding_all(rs.drop_last()).adding(rs.last())
        }
    }

    pub open spec fn is_empty(self) -> bool {
        self.rects.len() == 0 && !self.needs_full
    }

    /// The pixel is repainted: the whole screen is, or a rectangle covers it.
    pub open spec fn repaints(self, px: int, py: int) -> bool {
        self.needs_full || exists|i: int|
            0 <= i < self.rects.len() && (#[trigger] self.rects[i]).covers(px, py)
    }
}

impl View for DamageRegion {
    type V = DamageRegionV;

    open spec fn view(&self) -> DamageRegionV {
        DamageRegionV { rects: self.rects@.take(self.count as int), needs_full: self.needs_full }
    }
}

impl DamageRegion {
    /// How many rectangles there is room for.
    pub const CAP: usize = 32;

    pub open spec fn well_formed(&self) -> bool {
        self.count <= 32
    }

    pub fn new() -> (d: DamageRegion)
        ensures
            d.well_formed(),
            d@ == DamageRegionV::empty(),
    {
        let d: DamageRegion = DamageRegion {
            rects: [Rect { x: 0, y: 0, w: 0, h: 0 };32],
            count: 0,
            needs_full: false,
        };
        assert(d@ =~= DamageRegionV::empty());
        d
    }

    pub fn clear(&mut self)
        ensures
            final(self).well_formed(),
            final(self)@ == DamageRegionV::empty(),
    {
        self.count = 0;
        self.needs_full = false;
        assert(self@ =~= DamageRegionV::empty());
    }

    /// Add a screen rectangle to the damaged area.
    pub fn add(&mut self, r: Rect)
        requires
            old(self).well_formed(),
        ensures
            final(self).well_formed(),
            final(self)@ == old(self)@.adding(r),
    {
        if r.w == 0 || r.h == 0 {
            return;
        }
        let ghost before = self@;
        if self.count < Self::CAP {
            let at: usize = self.count;
            self.rects[at] = r;
            self.count = at + 1;
            assert(self@.rects =~= before.rects.push(r));
        } else {
            self.needs_full = true;
        }
    }

    /// Add each of the rectangles.
    pub fn add_all(&mut self, rs: &[Rect])
        requires
            old(self).well_formed(),
        ensures
            final(self).well_formed(),
            final(self)@ == old(self)@.adding_all(rs@),
    {
        let ghost before = self@;
        let mut i: usize = 0;
        while i < rs.len()
            invariant
                i <= rs@.len(),
                self.well_formed(),
                self@ == before.adding_all(rs@.take(i as int)),
            decreases rs@.len() - i,
        {
            proof {
                let t = rs@.take(i as int + 1);
                assert(t.drop_last() =~= rs@.take(i as int));
                assert(t.last() == rs@[i as int]);
            }
            self.add(rs[i]);
            i = i + 1;
        }
        assert(rs@.take(i as int) =~= rs@);
    }

    /// Force a repaint of the whole screen.
    pub fn full(&mut self)
        requires
            old(self).well_formed(),
        ensures
            final(self).well_formed(),
            final(self)@ == (DamageRegionV { needs_full: true, ..old(self)@ }),
    {
        self.needs_full = true;
    }

    /// Whether there is nothing to repaint.
    pub fn is_empty(&self) -> (b: bool)
        requires
            self.well_formed(),
        ensures
            b == self@.is_empty(),
    {
        self.count == 0 && !self.needs_full
    }

    /// The damaged rectangles.
    pub fn rectangles(&self) -> (v: Vec<Rect>)
        requires
            self.well_formed(),
        ensures
            v@ == self@.rects,
    {
        let mut v: Vec<Rect> = Vec::new();
        let mut i: usize = 0;
        while i < self.count
            invariant
                self.well_formed(),
                i <= self.count,
                v@ == self.rects@.take(i as int),
            decreases self.count - i,
        {
            v.push(self.rects[i]);
            assert(v@ =~= self.rects@.take(i as int + 1));
            i = i + 1;
        }
        v
    }

    /// Bounding box of all accumulated rectangles.
    pub fn bounding_rect(&self) -> (r: Rect)
        requires
            self.well_formed(),
            self@.rects.len() > 0,
            extent(self@.rects).right - extent(self@.rects).left <= i32::MAX,
            extent(self@.rects).bottom - extent(self@.rects).top <= i32::MAX,
        ensures
            r.x == extent(self@.rects).left,
            r.y == extent(self@.rects).top,
            r.right_edge() == extent(self@.rects).right,
            r.bottom_edge() == extent(self@.rects).bottom,
    {
        let v: Vec<Rect> = self.rectangles();
        let (x0, y0, x1, y1): (i64, i64, i64, i64) = span(&v);
        proof {
            extent_is_tight(v@);
            assert(v@[0].x <= v@[0].right_edge());
        }
        Rect::new(x0 as i32, y0 as i32, (x1 - x0) as u32, (y1 - y0) as u32)
    }
}

/// The bounding box encloses every rectangle of the region.
pub proof fn bounding_box_encloses_the_damage(rects: Seq<Rect>, r: Rect, i: int)
    requires
        r.x == extent(rects).left,
        r.y == extent(rects).top,
        r.right_edge() == extent(rects).right,
        r.bottom_edge() == extent(rects).bottom,
        0 <= i < rects.len(),
    ensures
        r.encloses(rects[i]),
{
    extent_is_tight(rects);
}

/// Damage is never lost: what an added rectangle covers is repainted, and what
/// was to be repainted still is.
pub proof fn added_damage_is_repainted(d: DamageRegionV, r: Rect, px: int, py: int)
    requires
        d.repaints(px, py) || r.covers(px, py),
    ensures
        d.adding(r).repaints(px, py),
{
    let e = d.adding(r);
    if r.w == 0 || r.h == 0 {
    } else if d.rects.len() < 32 {
        if r.covers(px, py) {
            assert(e.rects[d.rects.len() as int] == r);
        } else if !d.needs_full {
            let i = choose|i: int|
                0 <= i < d.rects.len() && (#[trigger] d.rects[i]).covers(px, py);
            assert(e.rects[i] == d.rects[i]);
        }
    }
}

// ---- Moving and covered windows ---------------------------------------------

/// What must be repainted of a window that was drawn at `prev` and now is drawn
/// at `cur`: both, where they differ.
pub open spec fn moved_damage(prev: Option<Rect>, cur: Rect) -> Seq<Rect> {
    match prev {
        Some(p) => if p != cur {
            seq![p, cur]
        } else {
            seq![cur]
        },
        None => seq![cur],
    }
}

/// The rectangles that must be repainted when a window's drawn rectangle moves
/// from `prev` to `cur`. They are written to the front of `out`; the count is
/// returned.
pub fn anim_damage_rects(prev: Option<Rect>, cur: Rect, out: &mut [Rect; 2]) -> (n: usize)
    ensures
        n <= 2,
        final(out)@.take(n as int) == moved_damage(prev, cur),
        n == 1 ==> final(out)@[1] == old(out)@[1],
{
    let mut n: usize = 0;
    match prev {
        Some(p) => {
            if p != cur {
                out[0] = p;
                n = 1;
            }
        },
        None => {},
    }
    out[n] = cur;
    n = n + 1;
    assert(out@.take(n as int) =~= moved_damage(prev, cur));
    n
}

/// One of the rectangles encloses `inner` entirely.
pub open spec fn covered_by(inner: Rect, occluders: Seq<Rect>) -> bool {
    exists|i: int| 0 <= i < occluders.len() && (#[trigger] occluders[i]).encloses(inner)
}

/// Whether a single one of the rectangles contains `inner` entirely. Cover by
/// several together does not count.
pub fn fully_covered_by(inner: Rect, occluders: &[Rect]) -> (b: bool)
    ensures
        b == covered_by(inner, occluders@),
{
    let mut i: usize = 0;
    while i < occluders.len()
        invariant
            i <= occluders@.len(),
            forall|j: int| 0 <= j < i ==> !(#[trigger] occluders@[j]).encloses(inner),
        decreases occluders@.len() - i,
    {
        if occluders[i].contains_rect(inner) {
            return true;
        }
        i = i + 1;
    }
    false
}

/// A frame is drawn just where something is damaged, and in part only where the back
/// buffer's age is known and nothing asks for the whole screen.
pub proof fn frame_is_drawn_as_far_as_it_must(
    has_buffer_age: bool,
    needs_full: bool,
    damaged: bool,
)
    ensures
        redraw(has_buffer_age, needs_full, damaged) is Idle <==> !damaged,
        redraw(has_buffer_age, needs_full, damaged) is Partial <==> damaged && has_buffer_age
            && !needs_full,
{
}

/// Of a moved window both the place it left and the place it went to are repainted,
/// and nothing else; of one that stayed its own place is, once.
pub proof fn moved_window_is_repainted_at_both_places(prev: Option<Rect>, cur: Rect, r: Rect)
    ensures
        moved_damage(prev, cur).contains(r) <==> r == cur || prev == Some(r),
        moved_damage(prev, cur).no_duplicates(),
{
    let s = moved_damage(prev, cur);
    assert(s.last() == cur);
    if prev is Some && prev->0 != cur {
        assert(s[0] == prev->0 && s[1] == cur);
    } else {
        assert(s[0] == cur && s.len() == 1);
    }
}

/// A window counts as covered just where one rectangle alone covers it edge for
/// edge.
pub proof fn covered_window_lies_under_one_rectangle(inner: Rect, occluders: Seq<Rect>)
    ensures
        covered_by(inner, occluders) <==> exists|i: int|
            #![trigger occluders[i]]
            0 <= i < occluders.len() && occluders[i].x <= inner.x && occluders[i].y <= inner.y
                && inner.x + inner.w <= occluders[i].x + occluders[i].w && inner.y + inner.h
                <= occluders[i].y + occluders[i].h,
{
    if covered_by(inner, occluders) {
        let i = choose|i: int|
            0 <= i < occluders.len() && (#[trigger] occluders[i]).encloses(inner);
        assert(occluders[i].encloses(inner));
    }
    if exists|i: int|
        #![trigger occluders[i]]
        0 <= i < occluders.len() && occluders[i].x <= inner.x && occluders[i].y <= inner.y
            && inner.x + inner.w <= occluders[i].x + occluders[i].w && inner.y + inner.h
            <= occluders[i].y + occluders[i].h {
        let i = choose|i: int|
            #![trigger occluders[i]]
            0 <= i < occluders.len() && occluders[i].x <= inner.x && occluders[i].y <= inner.y
                && inner.x + inner.w <= occluders[i].x + occluders[i].w && inner.y + inner.h
                <= occluders[i].y + occluders[i].h;
        assert(occluders[i].encloses(inner));
    }
}

/// Damage is noted rectangle by rectangle as long as there is room for 32 of them;
/// what has no area is not damage.
pub proof fn damage_is_noted_while_there_is_room(d: DamageRegionV, r: Rect)
    ensures
        r.w > 0 && r.h > 0 && d.rects.len() < 32 ==> d.adding(r).rects == d.rects + seq![r]
            && d.adding(r).needs_full == d.needs_full,
        r.w > 0 && r.h > 0 && d.rects.len() >= 32 ==> d.adding(r).needs_full,
        r.w == 0 || r.h == 0 ==> d.adding(r) == d,
{
    assert(d.rects + seq![r] =~= d.rects.push(r));
}

} // verus!
