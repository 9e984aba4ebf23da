use maverick::damage::{anim_damage_rects, decide_redraw, fully_covered_by, DamageRegion, FrameMode};
use maverick::geom::Rect;

/// a window that moved from `A` to `B` must repaint *both* rects, so
/// neither the pixels it left nor the ones it slid into linger. The helper
/// returns exactly the union pair, nothing more.
#[test]
fn moving_window_damages_old_and_new() {
    let prev = Rect::new(0, 0, 100, 100);
    let cur = Rect::new(200, 0, 100, 100);
    let mut out = [Rect::default(); 2];
    let n = anim_damage_rects(Some(prev), cur, &mut out);
    assert_eq!(n, 2);
    assert_eq!(out[0], prev);
    assert_eq!(out[1], cur);
}

/// A window that did not move emits only its current rect — no spurious
/// damage that would force a larger (or full) redraw.
#[test]
fn stationary_window_damages_only_current() {
    let cur = Rect::new(50, 50, 100, 100);
    let mut out = [Rect::default(); 2];
    let n = anim_damage_rects(Some(cur), cur, &mut out);
    assert_eq!(n, 1);
    assert_eq!(out[0], cur);
}

/// A window with no previous rect (just appeared / was off-screen) only
/// needs its current rect repainted.
#[test]
fn freshly_visible_window_damages_only_current() {
    let cur = Rect::new(10, 20, 300, 40);
    let mut out = [Rect::default(); 2];
    let n = anim_damage_rects(None, cur, &mut out);
    assert_eq!(n, 1);
    assert_eq!(out[0], cur);
}

/// End-to-end: two windows scrolling apart produce a damage region whose
/// bounding box spans both old and new positions — the minimal union that
/// `decide_redraw` will scissor (Partial) when buffer-age is available.
#[test]
fn scrolling_pair_union_spans_old_and_new() {
    let a_old = Rect::new(0, 0, 100, 100);
    let a_new = Rect::new(400, 0, 100, 100);
    let b_old = Rect::new(500, 0, 100, 100);
    let b_new = Rect::new(0, 0, 100, 100);
    let mut region = DamageRegion::new();
    let mut out = [Rect::default(); 2];
    for (prev, cur) in [(Some(a_old), a_new), (Some(b_old), b_new)] {
        let n = anim_damage_rects(prev, cur, &mut out);
        for &r in &out[..n] {
            region.add(r);
        }
    }
    let bbox = region.bounding_rect();
    assert_eq!(bbox, Rect::new(0, 0, 600, 100), "union must span 0..600");
}

/// a window is occluded only when a *single* opaque rect above it
/// contains it entirely. Joint coverage by two side-by-side windows (neither
/// of which alone contains it) must NOT report occlusion — that is the
/// conservative miss the helper is allowed to make.
#[test]
fn fully_covered_by_single_occluder_only() {
    let small = Rect::new(50, 50, 40, 40);
    // One big occluder contains it.
    assert!(fully_covered_by(small, &[Rect::new(0, 0, 200, 200)]));
    // Two side-by-side windows that jointly cover it but neither alone does
    // (left covers x 0..70, right covers x 70..270) -> not occluded.
    let left = Rect::new(0, 0, 70, 200);
    let right = Rect::new(70, 0, 200, 200);
    assert!(!fully_covered_by(small, &[left, right]));
    // Partially overlapping occluder does not contain it.
    assert!(!fully_covered_by(small, &[Rect::new(60, 60, 30, 30)]));
}

#[test]
fn fresh_region_is_empty() {
    let r = DamageRegion::new();
    assert!(r.is_empty(), "a new region must report nothing to redraw");
}

#[test]
fn adding_a_rect_makes_it_non_empty() {
    let mut r = DamageRegion::new();
    r.add(Rect::new(10, 20, 100, 50));
    assert!(!r.is_empty());
    assert_eq!(r.count, 1);
}

#[test]
fn zero_size_rects_are_ignored() {
    let mut r = DamageRegion::new();
    r.add(Rect::new(0, 0, 0, 100));
    r.add(Rect::new(0, 0, 100, 0));
    assert!(r.is_empty(), "degenerate rects must not dirty the frame");
}

#[test]
fn full_short_circuits_the_region() {
    let mut r = DamageRegion::new();
    r.add(Rect::new(0, 0, 10, 10));
    r.full();
    assert!(r.needs_full, "full() must force a whole-screen repaint");
    // clear wipes both the rects and the full flag.
    r.clear();
    assert!(r.is_empty());
}

#[test]
fn overflow_falls_back_to_full() {
    let mut r = DamageRegion::new();
    for i in 0..(DamageRegion::CAP as i32 + 4) {
        r.add(Rect::new(i * 2, 0, 1, 1));
    }
    assert!(
        r.needs_full,
        "exceeding the rect cap must conservatively ask for a full redraw"
    );
}

#[test]
fn bounding_rect_spans_all_rects() {
    let mut r = DamageRegion::new();
    r.add(Rect::new(100, 200, 50, 60));
    r.add(Rect::new(300, 50, 10, 10));
    let b = r.bounding_rect();
    assert_eq!(b, Rect::new(100, 50, 210, 210), "bbox must span every rect");
}

#[test]
fn nothing_damaged_is_idle() {
    assert_eq!(decide_redraw(true, false, false), FrameMode::Idle);
    assert_eq!(decide_redraw(false, true, false), FrameMode::Idle);
}

#[test]
fn no_buffer_age_forces_full() {
    // Even with a clean structural state, without buffer-age a partial clear
    // would leave garbage, so we repaint everything.
    assert_eq!(decide_redraw(false, false, true), FrameMode::Full);
}

#[test]
fn structural_change_forces_full() {
    assert_eq!(decide_redraw(true, true, true), FrameMode::Full);
    assert_eq!(decide_redraw(true, true, false), FrameMode::Idle);
}

#[test]
fn buffer_age_plus_damage_is_partial() {
    assert_eq!(decide_redraw(true, false, true), FrameMode::Partial);
}
