//! When the render loop must produce a frame, why, and how long it may wait.

use crate::damage::DirtyReason;
use vstd::prelude::*;

verus! {

/// Why the render loop must produce a frame this turn.
#[derive(Debug, Clone, Copy, PartialEq, Eq, Structural)]
pub enum FrameReason {
    /// A camera or spring is still moving.
    Animation,
    /// A client repainted.
    Damage,
    /// A window's geometry changed.
    Geometry,
    /// A surface appeared or disappeared.
    SurfaceChange,
    /// The stacking order changed.
    Focus,
    /// A wallpaper shader is still animating.
    WallpaperAnimation,
}

impl FrameReason {
    /// One bit for each reason.
    pub open spec fn mask(self) -> u8 {
        match self {
            FrameReason::Animation => 1u8,
            FrameReason::Damage => 2u8,
            FrameReason::Geometry => 4u8,
            FrameReason::SurfaceChange => 8u8,
            FrameReason::Focus => 16u8,
            FrameReason::WallpaperAnimation => 32u8,
        }
    }

    /// The tag of a reason.
    pub open spec fn tag(self) -> Seq<char> {
        match self {
            FrameReason::Animation => "animation"@,
            FrameReason::Damage => "damage"@,
            FrameReason::Geometry => "geometry"@,
            FrameReason::SurfaceChange => "surface"@,
            FrameReason::Focus => "focus"@,
            FrameReason::WallpaperAnimation => "wallpaper"@,
        }
    }

    /// The reason keeps asking for frames until it ends.
    pub open spec fn lasts(self) -> bool {
        self is Animation || self is WallpaperAnimation
    }

    /// Stable, lower-case tag for logs.
    pub fn as_str(self) -> (s: &'static str)
        ensures
            s@ == self.tag(),
    {
        match self {
            FrameReason::Animation => "animation",
            FrameReason::Damage => "damage",
            FrameReason::Geometry => "geometry",
            FrameReason::SurfaceChange => "surface",
            FrameReason::Focus => "focus",
            FrameReason::WallpaperAnimation => "wallpaper",
        }
    }

    fn bit(self) -> (b: u8)
        ensures
            b == self.mask(),
    {
        match self {
            FrameReason::Animation => 1,
            FrameReason::Damage => 2,
            FrameReason::Geometry => 4,
            FrameReason::SurfaceChange => 8,
            FrameReason::Focus => 16,
            FrameReason::WallpaperAnimation => 32,
        }
    }
}

/// All reasons, in the order they are reported.
pub open spec fn all_reasons() -> Seq<FrameReason> {
    seq![
        FrameReason::Animation,
        FrameReason::Damage,
        FrameReason::Geometry,
        FrameReason::SurfaceChange,
        FrameReason::Focus,
        FrameReason::WallpaperAnimation,
    ]
}

/// Scheduling decision for one turn of the render loop: the set of reasons that
/// are pending.
#[derive(Debug, Clone, Copy, PartialEq, Eq, Structural)]
pub struct FrameScheduler {
    reasons: u8,
}

/// What a bit set says of each reason after another was marked or the passing
/// ones were dropped.
proof fn reason_bits(set: u8)
    ensures
        forall|a: FrameReason, b: FrameReason|
            ((set | #[trigger] a.mask()) & #[trigger] b.mask() != 0) <==> (set & b.mask() != 0 || a
                == b),
        forall|b: FrameReason|
            ((set & 33u8) & #[trigger] b.mask() != 0) <==> (set & b.mask() != 0 && b.lasts()),
        set & 192u8 == 0 ==> (set & !33u8 != 0 <==> exists|b: FrameReason|
            !b.lasts() && set & #[trigger] b.mask() != 0),
        set & 192u8 == 0 ==> (set != 0 <==> exists|b: FrameReason|
            set & #[trigger] b.mask() != 0),
        set & 192u8 == 0 ==> forall|a: FrameReason| (set | #[trigger] a.mask()) & 192u8 == 0,
        set & 192u8 == 0 ==> (set & 33u8) & 192u8 == 0,
{
    assert forall|a: FrameReason, b: FrameReason|
        ((set | #[trigger] a.mask()) & #[trigger] b.mask() != 0) <==> (set & b.mask() != 0 || a
            == b) by {
        bits_of_pair(set, a.mask(), b.mask());
    }
    assert forall|b: FrameReason|
        ((set & 33u8) & #[trigger] b.mask() != 0) <==> (set & b.mask() != 0 && b.lasts()) by {
        let m = b.mask();
        assert((m == 1 || m == 32 ==> (set & 33u8) & m == set & m) && (m == 2 || m == 4 || m == 8
            || m == 16 ==> (set & 33u8) & m == 0)) by (bit_vector);
    }
    if set & 192u8 == 0 {
        assert((set & !33u8 != 0) <==> (set & 2u8 != 0 || set & 4u8 != 0 || set & 8u8 != 0 || set
            & 16u8 != 0)) by (bit_vector)
            requires
                set & 192u8 == 0,
        ;
        assert((set != 0) <==> (set & 1u8 != 0 || set & 2u8 != 0 || set & 4u8 != 0 || set & 8u8
            != 0 || set & 16u8 != 0 || set & 32u8 != 0)) by (bit_vector)
            requires
                set & 192u8 == 0,
        ;
        assert(FrameReason::Animation.mask() == 1u8);
        assert(FrameReason::Damage.mask() == 2u8);
        assert(FrameReason::Geometry.mask() == 4u8);
        assert(FrameReason::SurfaceChange.mask() == 8u8);
        assert(FrameReason::Focus.mask() == 16u8);
        assert(FrameReason::WallpaperAnimation.mask() == 32u8);
        assert forall|a: FrameReason| (set | #[trigger] a.mask()) & 192u8 == 0 by {
            let m = a.mask();
            assert((set | m) & 192u8 == 0) by (bit_vector)
                requires
                    set & 192u8 == 0,
                    m == 1 || m == 2 || m == 4 || m == 8 || m == 16 || m == 32,
            ;
        }
        assert((set & 33u8) & 192u8 == 0) by (bit_vector)
            requires
                set & 192u8 == 0,
        ;
    }
}

proof fn bits_of_pair(set: u8, a: u8, b: u8)
    requires
        a == 1 || a == 2 || a == 4 || a == 8 || a == 16 || a == 32,
        b == 1 || b == 2 || b == 4 || b == 8 || b == 16 || b == 32,
    ensures
        ((set | a) & b != 0) <==> (set & b != 0 || a == b),
{
    assert(((set | a) & b != 0) <==> (set & b != 0 || a == b)) by (bit_vector)
        requires
            a == 1 || a == 2 || a == 4 || a == 8 || a == 16 || a == 32,
            b == 1 || b == 2 || b == 4 || b == 8 || b == 16 || b == 32,
    ;
}

impl FrameScheduler {
    /// The reason is pending.
    pub closed spec fn pending(self, r: FrameReason) -> bool {
        self.reasons & r.mask() != 0
    }

    /// No bit is set that is no reason.
    pub closed spec fn well_formed(self) -> bool {
        self.reasons & 192u8 == 0
    }

    /// `after` has `r` pending on top of what is pending here.
    pub open spec fn marks(self, r: FrameReason, after: FrameScheduler) -> bool {
        forall|o: FrameReason| #[trigger] after.pending(o) <==> self.pending(o) || o == r
    }

    /// Of what is pending here, only what lasts is pending in `after`.
    pub open spec fn presents(self, after: FrameScheduler) -> bool {
        forall|o: FrameReason| #[trigger] after.pending(o) <==> self.pending(o) && o.lasts()
    }

    /// Some reason is pending.
    pub open spec fn any_pending(self) -> bool {
        exists|r: FrameReason| #[trigger] self.pending(r)
    }

    pub fn new() -> (s: FrameScheduler)
        ensures
            s.well_formed(),
            forall|r: FrameReason| !#[trigger] s.pending(r),
    {
        let s: FrameScheduler = FrameScheduler { reasons: 0 };
        assert(forall|m: u8| 0u8 & m == 0) by (bit_vector);
        s
    }

    /// From the animation flags and the compositor's reasons. A changed wallpaper
    /// is one more change of geometry: one frame.
    pub fn from_compositor(animating: bool, wallpaper_animating: bool, dirty: DirtyReason) -> (s:
        FrameScheduler)
        ensures
            s.well_formed(),
            s.pending(FrameReason::Animation) == animating,
            s.pending(FrameReason::WallpaperAnimation) == wallpaper_animating,
            s.pending(FrameReason::Damage) == dirty.shares(DirtyReason::DAMAGE),
            s.pending(FrameReason::Geometry) == (dirty.shares(DirtyReason::GEOMETRY)
                || dirty.shares(DirtyReason::WALLPAPER)),
            s.pending(FrameReason::SurfaceChange) == dirty.shares(DirtyReason::SURFACE),
            s.pending(FrameReason::Focus) == dirty.shares(DirtyReason::FOCUS),
    {
        let mut s: FrameScheduler = FrameScheduler::new();
        if animating {
            s.mark(FrameReason::Animation);
        }
        if wallpaper_animating {
            s.mark(FrameReason::WallpaperAnimation);
        }
        if dirty.contains(DirtyReason::DAMAGE) {
            s.mark(FrameReason::Damage);
        }
        if dirty.contains(DirtyReason::GEOMETRY) {
            s.mark(FrameReason::Geometry);
        }
        if dirty.contains(DirtyReason::SURFACE) {
            s.mark(FrameReason::SurfaceChange);
        }
        if dirty.contains(DirtyReason::FOCUS) {
            s.mark(FrameReason::Focus);
        }
        if dirty.contains(DirtyReason::WALLPAPER) {
            s.mark(FrameReason::Geometry);
        }
        s
    }

    /// Note a reason. Noting it again changes nothing.
    pub fn mark(&mut self, r: FrameReason)
        requires
            old(self).well_formed(),
        ensures
            final(self).well_formed(),
            old(self).marks(r, *final(self)),
    {
        proof {
            reason_bits(self.reasons);
        }
        self.reasons = self.reasons | r.bit();
    }

    /// Whether a reason is pending.
    pub fn has(&self, r: FrameReason) -> (b: bool)
        ensures
            b == self.pending(r),
    {
        self.reasons & r.bit() != 0
    }

    /// Whether a frame must be produced this turn.
    pub fn needs_frame(&self) -> (b: bool)
        requires
            self.well_formed(),
        ensures
            b == self.any_pending(),
    {
        proof {
            reason_bits(self.reasons);
            if self.reasons != 0 {
                let r = choose|r: FrameReason| self.reasons & #[trigger] r.mask() != 0;
                assert(self.pending(r));
            }
        }
        self.reasons != 0
    }

    /// Whether a camera or spring is still moving.
    pub fn is_animating(&self) -> (b: bool)
        ensures
            b == self.pending(FrameReason::Animation),
    {
        self.has(FrameReason::Animation)
    }

    /// Whether a reason that a single frame consumes is pending.
    pub fn has_dirty(&self) -> (b: bool)
        requires
            self.well_formed(),
        ensures
            b == exists|r: FrameReason| !r.lasts() && #[trigger] self.pending(r),
    {
        proof {
            reason_bits(self.reasons);
            assert(1u8 | 32u8 == 33u8) by (bit_vector);
            if self.reasons & !33u8 != 0 {
                let r = choose|r: FrameReason| !r.lasts() && self.reasons & #[trigger] r.mask() != 0;
                assert(self.pending(r));
            }
        }
        self.reasons & !(FrameReason::Animation.bit() | FrameReason::WallpaperAnimation.bit()) != 0
    }

    /// Drop the reasons that a single frame consumes; animations stay.
    pub fn clear_dirty(&mut self)
        requires
            old(self).well_formed(),
        ensures
            final(self).well_formed(),
            old(self).presents(*final(self)),
    {
        proof {
            reason_bits(self.reasons);
            assert(1u8 | 32u8 == 33u8) by (bit_vector);
        }
        self.reasons = self.reasons & (FrameReason::Animation.bit()
            | FrameReason::WallpaperAnimation.bit());
    }

    /// The pending reasons, as a filter.
    pub open spec fn is_pending(self) -> spec_fn(FrameReason) -> bool {
        |r: FrameReason| self.pending(r)
    }

    /// The reasons currently pending.
    pub fn reasons(&self) -> (v: Vec<FrameReason>)
        ensures
            v@ == all_reasons().filter(self.is_pending()),
    {
        let all: [FrameReason; 6] = [
            FrameReason::Animation,
            FrameReason::Damage,
            FrameReason::Geometry,
            FrameReason::SurfaceChange,
            FrameReason::Focus,
            FrameReason::WallpaperAnimation,
        ];
        assert(all@ =~= all_reasons());
        let mut v: Vec<FrameReason> = Vec::new();
        let mut i: usize = 0;
        proof {
            reveal(Seq::filter);
            assert(all_reasons().take(0) =~= Seq::<FrameReason>::empty());
        }
        while i < 6
            invariant
                i <= 6,
                all@ == all_reasons(),
                v@ == all_reasons().take(i as int).filter(self.is_pending()),
            decreases 6 - i,
        {
            proof {
                crate::seqs::filter_take_step(all_reasons(), i as int, self.is_pending());
            }
            if self.has(all[i]) {
                v.push(all[i]);
            }
            i = i + 1;
        }
        assert(all_reasons().take(6) =~= all_reasons());
        v
    }

    /// How long the loop may block before it looks again, in milliseconds: not
    /// at all while a frame is needed.
    pub fn timeout_ms(&self) -> (ms: u64)
        requires
            self.well_formed(),
        ensures
            ms == (if self.any_pending() {
                0u64
            } else {
                100
            }),
    {
        if self.needs_frame() {
            0
        } else {
            100
        }
    }
}

impl Default for FrameScheduler {
    fn default() -> (s: FrameScheduler)
        ensures
            s.well_formed(),
            forall|r: FrameReason| !#[trigger] s.pending(r),
    {
        FrameScheduler::new()
    }
}

/// A reason that does not last yields one frame: once that is presented, the loop
/// idles.
pub proof fn one_shot_reason_yields_one_frame(
    idle: FrameScheduler,
    r: FrameReason,
    due: FrameScheduler,
    after: FrameScheduler,
)
    requires
        !idle.any_pending(),
        !r.lasts(),
        idle.marks(r, due),
        due.presents(after),
    ensures
        due.any_pending(),
        !after.any_pending(),
{
    assert(due.pending(r));
    assert forall|o: FrameReason| !#[trigger] after.pending(o) by {
        assert(!idle.pending(o));
    }
}

/// An animation, of a window or of the wallpaper, asks for frames until it stops:
/// presenting one does not end it.
pub proof fn animation_outlasts_its_frames(
    due: FrameScheduler,
    r: FrameReason,
    after: FrameScheduler,
)
    requires
        due.pending(r),
        r.lasts(),
        due.presents(after),
    ensures
        after.pending(r),
        after.any_pending(),
{
    assert(after.pending(r));
}

/// A burst of the same reason is one request: marking it again changes nothing.
pub proof fn burst_is_one_request(
    s: FrameScheduler,
    r: FrameReason,
    once: FrameScheduler,
    twice: FrameScheduler,
)
    requires
        s.marks(r, once),
        once.marks(r, twice),
    ensures
        s.marks(r, twice),
        forall|o: FrameReason| #[trigger] twice.pending(o) == once.pending(o),
{
}

/// Only what moves on by itself asks for more than one frame.
pub proof fn only_animations_last(r: FrameReason)
    ensures
        r.lasts() <==> r == FrameReason::Animation || r == FrameReason::WallpaperAnimation,
{
}

} // verus!
