//! Geometry policy for floating windows and rounded corners.

use crate::geom::Rect;
use vstd::prelude::*;

verus! {

/// The frame (content plus a border of `bw` on both sides) of `g` lies in `wa`.
pub open spec fn frame_fits(g: Rect, wa: Rect, bw: u32) -> bool {
    &&& wa.x <= g.x
    &&& wa.y <= g.y
    &&& g.x + g.w + 2 * bw <= wa.x + wa.w
    &&& g.y + g.h + 2 * bw <= wa.y + wa.h
}

/// One axis of the clamp: the extent that a window asking for `len` gets when
/// `room` pixels are available to frame and content, and the frame takes
/// `frame` of them. Never below one pixel, which is the least X accepts.
pub open spec fn clamped_len(len: int, room: int, frame: int) -> int {
    let most = if room - frame >= 1 {
        room - frame
    } else {
        1
    };
    if len <= 0 {
        1
    } else if len > most {
        most
    } else {
        len
    }
}

/// One axis of the clamp: the position nearest to `pos` that keeps a window of
/// extent `len` and its frame between `lo` and `lo + room`; `lo` when it
/// cannot.
pub open spec fn clamped_pos(pos: int, lo: int, room: int, len: int, frame: int) -> int {
    let hi = lo + room - len - frame;
    if pos <= lo || hi <= lo {
        lo
    } else if pos > hi {
        hi
    } else {
        pos
    }
}

/// What [`clamp_float_to_workarea`] returns.
pub open spec fn clamped(g: Rect, wa: Rect, bw: u32) -> Rect {
    let w = clamped_len(g.w as int, wa.w as int, 2 * bw);
    let h = clamped_len(g.h as int, wa.h as int, 2 * bw);
    Rect {
        x: clamped_pos(g.x as int, wa.x as int, wa.w as int, w, 2 * bw) as i32,
        y: clamped_pos(g.y as int, wa.y as int, wa.h as int, h, 2 * bw) as i32,
        w: w as u32,
        h: h as u32,
    }
}

/// The work area and border are small enough for X coordinate arithmetic.
pub open spec fn clampable(wa: Rect, bw: u32) -> bool {
    &&& wa.w <= i32::MAX
    &&& wa.h <= i32::MAX
    &&& wa.edges_fit()
    &&& 2 * bw <= i32::MAX
    &&& wa.x + wa.w - 1 - 2 * bw >= i32::MIN
    &&& wa.y + wa.h - 1 - 2 * bw >= i32::MIN
}

/// Clamp a floating window's geometry so the whole frame (content + the border
/// on both sides) fits inside `wa`.
///
/// Size is clamped *before* position on purpose: with a float wider or taller
/// than the work area, clamping the position alone would park it at a negative
/// coordinate while its size still overflows the screen.
pub fn clamp_float_to_workarea(g: Rect, wa: Rect, bw: u32) -> (r: Rect)
    requires
        clampable(wa, bw),
    ensures
        r == clamped(g, wa, bw),
{
    let frame: i32 = 2 * (bw as i32);
    let room_w: i32 = wa.w as i32 - frame;
    let room_h: i32 = wa.h as i32 - frame;
    let max_w: u32 = if room_w > 1 { room_w as u32 } else { 1 };
    let max_h: u32 = if room_h > 1 { room_h as u32 } else { 1 };
    let w: u32 = at_least_one(if g.w < max_w { g.w } else { max_w });
    let h: u32 = at_least_one(if g.h < max_h { g.h } else { max_h });
    let right: i32 = wa.x + wa.w as i32 - w as i32 - frame;
    let bottom: i32 = wa.y + wa.h as i32 - h as i32 - frame;
    Rect {
        x: clamp_i32(g.x, wa.x, if right > wa.x { right } else { wa.x }),
        y: clamp_i32(g.y, wa.y, if bottom > wa.y { bottom } else { wa.y }),
        w,
        h,
    }
}

fn at_least_one(n: u32) -> (r: u32)
    ensures
        r == (if n == 0 { 1u32 } else { n }),
{
    if n == 0 { 1 } else { n }
}

/// `v` brought into `lo..=hi`.
pub fn clamp_i32(v: i32, lo: i32, hi: i32) -> (r: i32)
    requires
        lo <= hi,
    ensures
        r == (if v < lo { lo } else if v > hi { hi } else { v }),
{
    if v < lo { lo } else if v > hi { hi } else { v }
}

/// Whatever a client asks for, the clamped window is never empty.
pub proof fn clamped_float_is_never_empty(g: Rect, wa: Rect, bw: u32)
    requires
        clampable(wa, bw),
    ensures
        clamped(g, wa, bw).w >= 1,
        clamped(g, wa, bw).h >= 1,
{
}

/// Where the work area has room for the border and one pixel, the clamped
/// window and its frame lie entirely inside it.
pub proof fn clamped_float_lies_in_the_workarea(g: Rect, wa: Rect, bw: u32)
    requires
        clampable(wa, bw),
        wa.w > 2 * bw,
        wa.h > 2 * bw,
    ensures
        frame_fits(clamped(g, wa, bw), wa, bw),
{
}

/// A window that already fits is left exactly where it is.
pub proof fn fitting_float_is_untouched(g: Rect, wa: Rect, bw: u32)
    requires
        clampable(wa, bw),
        g.w >= 1,
        g.h >= 1,
        frame_fits(g, wa, bw),
    ensures
        clamped(g, wa, bw) == g,
{
}

/// Clamping is idempotent: a second pass over the result changes nothing.
pub proof fn clamping_twice_is_clamping_once(g: Rect, wa: Rect, bw: u32)
    requires
        clampable(wa, bw),
    ensures
        clamped(clamped(g, wa, bw), wa, bw) == clamped(g, wa, bw),
{
}

/// A rectangle of an X request: signed 16-bit corner, unsigned 16-bit size.
#[derive(Debug, Clone, Copy, PartialEq, Eq, Structural)]
pub struct Rectangle {
    pub x: i16,
    pub y: i16,
    pub width: u16,
    pub height: u16,
}

/// `c` is the whole part of the square root of `n`.
pub open spec fn is_isqrt(n: int, c: int) -> bool {
    c >= 0 && c * c <= n < (c + 1) * (c + 1)
}

/// The whole part of the square root of `n`.
pub open spec fn isqrt(n: int) -> int {
    choose|c: int| is_isqrt(n, c)
}

proof fn isqrt_is_unique(n: int, c: int)
    requires
        is_isqrt(n, c),
    ensures
        isqrt(n) == c,
{
    let d = isqrt(n);
    assert(is_isqrt(n, d));
    assert(c == d) by (nonlinear_arith)
        requires
            c >= 0,
            d >= 0,
            c * c <= n < (c + 1) * (c + 1),
            d * d <= n < (d + 1) * (d + 1),
    ;
}

/// The largest side whose square is an `i32`.
pub const MAX_ROOT: i32 = 46340;

fn integer_sqrt(n: i32) -> (c: i32)
    requires
        n >= 0,
    ensures
        c == isqrt(n as int),
        is_isqrt(n as int, c as int),
{
    let mut lo: i64 = 0;
    let mut hi: i64 = 46341;
    while hi - lo > 1
        invariant
            0 <= lo < hi <= 46341,
            lo * lo <= n < hi * hi,
        decreases hi - lo,
    {
        let mid: i64 = (lo + hi) / 2;
        assert(0 <= mid * mid <= 46341 * 46341) by (nonlinear_arith)
            requires
                0 <= mid <= 46341,
        ;
        if mid * mid <= n as i64 {
            lo = mid;
        } else {
            hi = mid;
        }
    }
    proof {
        isqrt_is_unique(n as int, lo as int);
    }
    lo as i32
}

/// The corner radius actually used: never negative, never over half a side.
pub open spec fn effective_radius(w: i32, h: i32, r: i32) -> int {
    let half = if w <= h {
        w as int / 2
    } else {
        h as int / 2
    };
    if half < 0 || r <= 0 {
        0
    } else if r > half {
        half
    } else {
        r as int
    }
}

/// How far the row at distance `i` from the edge is inset: the radius less the
/// chord of the corner circle at that row.
pub open spec fn corner_inset(r: int, i: int) -> int {
    r - isqrt(r * r - (r - i) * (r - i))
}

/// What [`rounded_rectangles`] returns: the full-width middle band, then for
/// each row of the rounded corners one rectangle at the top and its mirror
/// image at the bottom. Coordinates are cut to the width of their X fields.
pub open spec fn rounded_shape(w: i32, h: i32, r: i32) -> Seq<Rectangle> {
    let er = effective_radius(w, h, r);
    if er <= 0 {
        seq![
            Rectangle {
                x: 0,
                y: 0,
                width: (if w > 0 { w } else { 0 }) as u16,
                height: (if h > 0 { h } else { 0 }) as u16,
            },
        ]
    } else {
        Seq::new(
            (2 * er + 1) as nat,
            |k: int|
                if k == 0 {
                    Rectangle {
                        x: 0,
                        y: er as i16,
                        width: w as u16,
                        height: (h - 2 * er) as u16,
                    }
                } else {
                    let i = (k - 1) / 2;
                    let inset = corner_inset(er, i);
                    Rectangle {
                        x: inset as i16,
                        y: (if k % 2 == 1 { i } else { h - 1 - i }) as i16,
                        width: (w - 2 * inset) as u16,
                        height: 1,
                    }
                },
        )
    }
}

/// The chord of row `i` lies between nothing and the radius, so the inset does
/// too.
proof fn corner_inset_in_range(r: int, i: int)
    requires
        0 <= i < r,
    ensures
        0 <= corner_inset(r, i) <= r,
{
    let n = r * r - (r - i) * (r - i);
    assert(0 <= n < r * r) by (nonlinear_arith)
        requires
            0 <= i < r,
            n == r * r - (r - i) * (r - i),
    ;
    let c = root_exists(n, r);
    isqrt_is_unique(n, c);
}

/// Some integer below `bound` is the root of `n`.
proof fn root_exists(n: int, bound: int) -> (c: int)
    requires
        bound > 0,
        0 <= n < bound * bound,
    ensures
        is_isqrt(n, c),
        c < bound,
    decreases bound,
{
    if bound == 1 {
        0
    } else if n >= (bound - 1) * (bound - 1) {
        assert(is_isqrt(n, bound - 1));
        bound - 1
    } else {
        root_exists(n, bound - 1)
    }
}

/// Approximate a rounded rectangle of size `w`x`h` with corner radius `r` as a
/// list of X rectangles: one full-width middle band, plus one 1px-tall
/// rectangle per row of each rounded corner, inset by the circle's chord at
/// that row. `r` is clamped so it can never exceed half of either dimension.
pub fn rounded_rectangles(w: i32, h: i32, r: i32) -> (rects: Vec<Rectangle>)
    requires
        w >= -1,
        h >= -1,
        effective_radius(w, h, r) <= MAX_ROOT,
    ensures
        rects@ == rounded_shape(w, h, r),
{
    let half: i32 = (if w < h { w } else { h }) / 2;
    if r <= 0 || half <= 0 {
        let out: Vec<Rectangle> = vec![
            Rectangle {
                x: 0,
                y: 0,
                width: (if w > 0 { w } else { 0 }) as u16,
                height: (if h > 0 { h } else { 0 }) as u16,
            },
        ];
        return out;
    }
    let er: i32 = if r > half { half } else { r };
    let mut rects: Vec<Rectangle> = Vec::new();
    rects.push(Rectangle { x: 0, y: er as i16, width: w as u16, height: (h - 2 * er) as u16 });
    let mut i: i32 = 0;
    while i < er
        invariant
            0 < er <= MAX_ROOT,
            er == effective_radius(w, h, r),
            0 <= i <= er,
            2 * er <= w,
            2 * er <= h,
            rects@.len() == 2 * i + 1,
            forall|k: int| 0 <= k < rects@.len() ==> rects@[k] == rounded_shape(w, h, r)[k],
        decreases er - i,
    {
        let dy: i32 = er - i;
        assert(0 <= er * er - dy * dy && er * er <= 46340 * 46340 && 0 <= dy * dy <= er * er)
            by (nonlinear_arith)
            requires
                0 < dy <= er <= 46340,
        ;
        let chord: i32 = integer_sqrt(er * er - dy * dy);
        proof {
            corner_inset_in_range(er as int, i as int);
        }
        let inset: i32 = er - chord;
        assert(inset == corner_inset(er as int, i as int));
        let width: u16 = (w - 2 * inset) as u16;
        let ghost before = rects@;
        rects.push(Rectangle { x: inset as i16, y: i as i16, width, height: 1 });
        rects.push(Rectangle { x: inset as i16, y: (h - 1 - i) as i16, width, height: 1 });
        proof {
            let k = 2 * i + 1;
            assert((k - 1) / 2 == i && (k + 1 - 1) / 2 == i);
            assert(rects@[k] == rounded_shape(w, h, r)[k]);
            assert(rects@[k + 1] == rounded_shape(w, h, r)[k + 1]);
            assert forall|j: int| 0 <= j < rects@.len() implies rects@[j] == rounded_shape(
                w,
                h,
                r,
            )[j] by {
                if j < before.len() {
                    assert(rects@[j] == before[j]);
                }
            }
        }
        i = i + 1;
    }
    assert(rects@ =~= rounded_shape(w, h, r));
    rects
}

/// Every rectangle of a rounded shape lies inside the `w`x`h` box it rounds,
/// for boxes whose sides are X coordinates.
pub proof fn rounded_shape_stays_in_its_box(w: i32, h: i32, r: i32, k: int)
    requires
        0 <= w <= i16::MAX,
        0 <= h <= i16::MAX,
        0 <= k < rounded_shape(w, h, r).len(),
    ensures
        ({
            let q = rounded_shape(w, h, r)[k];
            &&& 0 <= q.x && q.x + q.width <= w
            &&& 0 <= q.y && q.y + q.height <= h
        }),
{
    let er = effective_radius(w, h, r);
    if er > 0 && k > 0 {
        let i = (k - 1) / 2;
        corner_inset_in_range(er, i);
    }
}

// ---- How a float is kept on its work area -----------------------------------

/// A float shrinks no more than the work area asks and moves no further than it must:
/// one that is too far left or up comes to the edge, one too far right or down comes
/// to lie against it with its border.
pub proof fn float_moves_no_further_than_it_must(g: Rect, wa: Rect, bw: u32)
    requires
        clampable(wa, bw),
        wa.w > 2 * bw,
        wa.h > 2 * bw,
        g.w >= 1,
        g.h >= 1,
    ensures
        ({
            let r = clamped(g, wa, bw);
            &&& g.w + 2 * bw <= wa.w ==> r.w == g.w
            &&& g.w + 2 * bw > wa.w ==> r.w + 2 * bw == wa.w
            &&& g.h + 2 * bw <= wa.h ==> r.h == g.h
            &&& g.h + 2 * bw > wa.h ==> r.h + 2 * bw == wa.h
            &&& g.x <= wa.x ==> r.x == wa.x
            &&& g.x > wa.x && g.x + r.w + 2 * bw <= wa.x + wa.w ==> r.x == g.x
            &&& g.x > wa.x && g.x + r.w + 2 * bw > wa.x + wa.w ==> r.x + r.w + 2 * bw == wa.x
                + wa.w
            &&& g.y <= wa.y ==> r.y == wa.y
            &&& g.y > wa.y && g.y + r.h + 2 * bw <= wa.y + wa.h ==> r.y == g.y
            &&& g.y > wa.y && g.y + r.h + 2 * bw > wa.y + wa.h ==> r.y + r.h + 2 * bw == wa.y
                + wa.h
        }),
{
}

/// A rounded window is one band over its full width between the corners, and for each
/// row of the corners one row at the top and its mirror image at the bottom, equally
/// far from both sides, by just as much as the circle asks there.
pub proof fn rounded_corners_are_alike(w: i32, h: i32, r: i32, i: int)
    requires
        0 < w <= i16::MAX,
        0 < h <= i16::MAX,
        0 < r,
        2 * r <= w,
        2 * r <= h,
        0 <= i < r,
    ensures
        ({
            let s = rounded_shape(w, h, r);
            let top = s[2 * i + 1];
            let bottom = s[2 * i + 2];
            let along = r - top.x;
            &&& s.len() == 2 * r + 1
            &&& s[0] == (Rectangle {
                x: 0,
                y: r as i16,
                width: w as u16,
                height: (h - 2 * r) as u16,
            })
            &&& top.y == i && bottom.y == h - 1 - i
            &&& top.height == 1 && bottom.height == 1
            &&& top.x == bottom.x && top.width == bottom.width
            &&& top.x + top.width == w - top.x
            &&& 0 <= along && along * along + (r - i) * (r - i) <= r * r && r * r < (along + 1) * (
            along + 1) + (r - i) * (r - i)
        }),
{
    let er = effective_radius(w, h, r);
    assert(er == r);
    corner_inset_in_range(er, i);
    let n = er * er - (er - i) * (er - i);
    assert(0 <= n < (er + 1) * (er + 1)) by (nonlinear_arith)
        requires
            0 <= i < er,
            n == er * er - (er - i) * (er - i),
    ;
    let c = root_exists(n, er + 1);
    isqrt_is_unique(n, c);
    assert(corner_inset(er, i) == er - c);
    assert((2 * i + 1 - 1) / 2 == i && (2 * i + 2 - 1) / 2 == i);
}

} // verus!
