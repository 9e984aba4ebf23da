use maverick::damage::DirtyReason;
use maverick::framesched::{FrameReason, FrameScheduler};

#[test]
fn empty_scheduler_needs_no_frame() {
    let s = FrameScheduler::new();
    assert!(
        !s.needs_frame(),
        "a fresh scheduler must not request frames"
    );
    assert_eq!(s.timeout_ms(), 100, "idle parks on the 100 ms poll");
}

#[test]
fn animation_alone_needs_a_frame() {
    let mut s = FrameScheduler::new();
    s.mark(FrameReason::Animation);
    assert!(s.needs_frame());
    assert!(s.has(FrameReason::Animation));
    // a frame is needed -> block on the socket only (0 ms).
    assert_eq!(s.timeout_ms(), 0);
}

#[test]
fn damage_without_vsync_falls_back_to_short_poll() {
    let mut s = FrameScheduler::new();
    s.mark(FrameReason::Damage);
    assert!(s.needs_frame());
    assert_eq!(s.timeout_ms(), 0);
}

#[test]
fn from_compositor_maps_reasons() {
    let mut dirty = DirtyReason::of(DirtyReason::DAMAGE);
    dirty.insert(DirtyReason::FOCUS);
    let s = FrameScheduler::from_compositor(true, false, dirty);
    assert!(s.needs_frame());
    assert!(s.has(FrameReason::Animation));
    assert!(s.has(FrameReason::Damage));
    assert!(s.has(FrameReason::Focus));
    assert!(!s.has(FrameReason::Geometry));
    assert!(!s.has(FrameReason::SurfaceChange));
}

#[test]
fn reasons_iter_reports_only_pending() {
    let mut s = FrameScheduler::new();
    s.mark(FrameReason::Geometry);
    s.mark(FrameReason::SurfaceChange);
    let tags: Vec<&str> = s.reasons().iter().map(|r| r.as_str()).collect();
    assert_eq!(tags, vec!["geometry", "surface"]);
}

/// Damage, Damage, Configure, Animation, Damage before the next frame must
/// collapse into a single pending request, not five.
#[test]
fn coalesces_multiple_requests_into_one_pending() {
    let mut s = FrameScheduler::new();
    s.mark(FrameReason::Damage);
    s.mark(FrameReason::Damage);
    s.mark(FrameReason::Geometry);
    s.mark(FrameReason::Animation);
    s.mark(FrameReason::Damage);
    // One decision, not one per event.
    assert!(s.needs_frame());
    // Distinct reasons only — repeats OR into the same bit.
    let distinct: Vec<FrameReason> = s.reasons();
    assert_eq!(distinct.len(), 3);
    assert!(s.is_animating());
    assert!(s.has_dirty());
    // A pending frame parks on the 0 ms socket poll.
    assert_eq!(s.timeout_ms(), 0);
}

/// A one-shot dirty reason yields exactly one frame, then idles.
#[test]
fn dirty_without_animation_renders_once_then_idles() {
    let mut s = FrameScheduler::new();
    s.mark(FrameReason::Damage);
    assert!(s.needs_frame());
    assert!(!s.is_animating());
    assert!(s.has_dirty());

    // The present consumed the dirty reason; clear it for the wait window.
    s.clear_dirty();
    assert!(
        !s.needs_frame(),
        "after presenting, a dirty-only frame idles"
    );
    assert!(!s.is_animating());
    assert!(!s.has_dirty());
    assert_eq!(s.timeout_ms(), 100);
}

/// Animation keeps requesting frames every turn until it stops.
#[test]
fn animation_keeps_requesting_frames() {
    let mut s = FrameScheduler::new();
    s.mark(FrameReason::Animation);
    assert!(s.needs_frame());
    assert!(s.is_animating());

    // Clearing the dirty reasons must NOT stop an animation.
    s.clear_dirty();
    assert!(
        s.needs_frame(),
        "an ongoing animation keeps the loop awake after a present"
    );
    assert!(s.is_animating());
    assert!(!s.has_dirty());
    assert_eq!(s.timeout_ms(), 0);
}

/// When the animation ends the scheduler returns to idle (the loop calls
/// `from_compositor(false, …)` next turn, omitting the Animation bit).
#[test]
fn ending_animation_returns_to_idle() {
    // While animating a frame is needed.
    let running = FrameScheduler::from_compositor(true, false, DirtyReason::of(DirtyReason::NONE));
    assert!(running.needs_frame());
    assert!(running.is_animating());

    // Next turn the springs have settled: no Animation bit -> idle.
    let idle = FrameScheduler::from_compositor(false, false, DirtyReason::of(DirtyReason::NONE));
    assert!(
        !idle.needs_frame(),
        "settled animation must not keep rendering"
    );
    assert!(!idle.is_animating());
    assert_eq!(idle.timeout_ms(), 100);
}

#[test]
fn wallpaper_animation_alone_needs_a_frame() {
    let mut s = FrameScheduler::new();
    s.mark(FrameReason::WallpaperAnimation);
    assert!(s.needs_frame());
    assert!(s.has(FrameReason::WallpaperAnimation));
    assert_eq!(s.timeout_ms(), 0);
}

#[test]
fn clear_dirty_preserves_wallpaper_animation() {
    let mut s = FrameScheduler::from_compositor(false, true, DirtyReason::of(DirtyReason::DAMAGE));
    assert!(s.needs_frame());
    assert!(s.has(FrameReason::WallpaperAnimation));
    assert!(s.has(FrameReason::Damage));
    s.clear_dirty();
    // The animating wallpaper survives the present; one-shot damage does not.
    assert!(
        s.needs_frame(),
        "an animating wallpaper keeps requesting frames every turn"
    );
    assert!(s.has(FrameReason::WallpaperAnimation));
    assert!(!s.has(FrameReason::Damage));
    assert_eq!(s.timeout_ms(), 0);
}

#[test]
fn stopping_wallpaper_shader_returns_to_idle() {
    let anim = FrameScheduler::from_compositor(false, true, DirtyReason::of(DirtyReason::NONE));
    assert!(anim.needs_frame());
    assert!(anim.has(FrameReason::WallpaperAnimation));
    let idle = FrameScheduler::from_compositor(false, false, DirtyReason::of(DirtyReason::NONE));
    assert!(
        !idle.needs_frame(),
        "a static wallpaper must not keep the render loop awake"
    );
    assert_eq!(idle.timeout_ms(), 100);
}

/// Regression for the idle-wallpaper-CPU-burn bug: a *static* shader
/// wallpaper must yield exactly one frame (driven by the WALLPAPER dirty
/// reason, mapped to `Geometry`) and then idle — it must never report
/// `wallpaper_animating` on its own. Only a shader that actually depends on
/// time (`wallpaper_animating == true`) is allowed to keep requesting frames.
#[test]
fn static_wallpaper_shader_does_not_request_frames() {
    // `wallpaper_animating == false` is exactly what the compositor now
    // reports for a static shader (one that does not reference u_time /
    // u_delta_time).
    let s = FrameScheduler::from_compositor(false, false, DirtyReason::of(DirtyReason::NONE));
    assert!(
        !s.needs_frame(),
        "a static shader wallpaper must not keep the loop awake"
    );
    assert!(!s.has(FrameReason::WallpaperAnimation));
    assert_eq!(s.timeout_ms(), 100);
}

#[test]
fn animated_wallpaper_shader_requests_frames() {
    // `wallpaper_animating == true` is what the compositor reports for a
    // shader that depends on time.
    let mut s = FrameScheduler::from_compositor(false, true, DirtyReason::of(DirtyReason::NONE));
    assert!(s.needs_frame());
    assert!(s.has(FrameReason::WallpaperAnimation));
    assert_eq!(s.timeout_ms(), 0);
    // A present consumes the dirty (one-shot) reasons but the animated
    // wallpaper survives, so the loop keeps ticking…
    s.clear_dirty();
    assert!(s.needs_frame());
    // …until the compositor stops reporting it (shader removed / static).
    let stopped = FrameScheduler::from_compositor(false, false, DirtyReason::of(DirtyReason::NONE));
    assert!(!stopped.needs_frame());
    assert_eq!(stopped.timeout_ms(), 100);
}

