use maverick::compositor::{
    depth_report, screen_visuals, CompWin, Compositor, DepthInfo, Texture, VisualFormat, VisualInfo,
    WindowAttributes, WindowGeometry,
};
use maverick::damage::{decide_redraw, fully_covered_by, DamageRegion, DirtyReason, FrameMode};
use maverick::framesched::FrameScheduler;
use maverick::geom::Rect;
use maverick::present::{
    cm_selection_name, BindOutcome, FrameSample, FrameTrace, InitStage, RenderReport,
    RenderTimes, Scissor, Undo, WallpaperLayer, WallpaperLoad,
};
use std::time::Instant;

fn rgb() -> VisualFormat {
    VisualFormat {
        id: 33,
        depth: 24,
        red_bits: 8,
        green_bits: 8,
        blue_bits: 8,
        alpha_bits: 0,
        direct: true,
    }
}

fn compositor() -> Compositor {
    Compositor::new(1920, 1080, &vec![rgb()], rgb(), 900, 901, 12, false)
}

fn attrs() -> Option<WindowAttributes> {
    Some(WindowAttributes { class: 1, visual: 33 })
}

fn geometry(x: i16, y: i16, width: u16, height: u16) -> Option<WindowGeometry> {
    Some(WindowGeometry { x, y, width, height, border_width: 2 })
}

/// A mapped window with a texture that fits it.
fn show(c: &mut Compositor, win: u32, x: i16, y: i16, w: u16, h: u16) {
    assert!(c.track(win, attrs(), geometry(x, y, w, h)));
    c.on_create(win);
    assert!(c.on_map(win));
    let tex = Texture { handle: win * 10, width: w + 4, height: h + 4 };
    assert!(matches!(c.finish_bind(win, 33, win * 100, Some(tex)), BindOutcome::Bound));
}

/// A frame in which nothing was placed by the window manager.
fn frame(c: &mut Compositor) -> Vec<u32> {
    c.set_transforms(&[]);
    c.cull_occluded();
    let drawn = c.compute_scene().items.iter().map(|i| i.win).collect();
    c.finish_frame();
    drawn
}

#[test]
fn visuals_tell_their_channels() {
    let depths = vec![
        DepthInfo {
            depth: 32,
            visuals: vec![VisualInfo {
                id: 7,
                class: 4,
                red_mask: 0x00ff_0000,
                green_mask: 0x0000_ff00,
                blue_mask: 0x0000_00ff,
            }],
        },
        DepthInfo {
            depth: 8,
            visuals: vec![VisualInfo {
                id: 8,
                class: 3,
                red_mask: 0xff,
                green_mask: 0,
                blue_mask: 0,
            }],
        },
    ];
    let v = screen_visuals(&depths);
    assert_eq!(
        v[0],
        VisualFormat {
            id: 7,
            depth: 32,
            red_bits: 8,
            green_bits: 8,
            blue_bits: 8,
            alpha_bits: 8,
            direct: true
        }
    );
    assert_eq!(v[0].color_bits(), 24);
    assert!(!v[1].direct);
    assert_eq!((v[1].red_bits, v[1].alpha_bits), (0, 0));
    let direct_color = VisualInfo { id: 9, class: 5, red_mask: 1, green_mask: 2, blue_mask: 4 };
    let d = screen_visuals(&vec![DepthInfo { depth: 3, visuals: vec![direct_color] }]);
    assert!(d[0].direct);
}

#[test]
fn formats_are_found_by_depth() {
    let c = compositor();
    assert_eq!(c.format_for_depth(24), Some(rgb()));
    assert_eq!(c.format_for_depth(32), None);
}

#[test]
fn only_windows_with_pixels_are_tracked() {
    let mut c = compositor();
    assert!(!c.wants_tracking(900));
    assert!(!c.wants_tracking(901));
    assert!(c.wants_tracking(1));
    let input_only = Some(WindowAttributes { class: 2, visual: 33 });
    assert!(!c.track(1, input_only, geometry(0, 0, 10, 10)));
    let strange = Some(WindowAttributes { class: 1, visual: 99 });
    assert!(!c.track(1, strange, geometry(0, 0, 10, 10)));
    assert!(!c.track(1, attrs(), None));
    assert!(c.track(1, attrs(), geometry(10, 20, 300, 200)));
    assert_eq!(c.wins[&1].outer, Rect::new(8, 18, 304, 204));
    assert!(!c.wants_tracking(1));
    assert!(!c.track(1, attrs(), geometry(10, 20, 300, 200)));
}

#[test]
fn a_frame_is_needed_for_a_reason() {
    let mut c = compositor();
    assert!(c.needs_frame());
    c.finish_frame();
    assert!(!c.needs_frame());
    assert_eq!(c.dirty_reasons().bits, 0);
    c.on_damage(1);
    assert!(c.needs_frame());
    assert!(c.dirty_reasons().contains(DirtyReason::DAMAGE));
    c.on_restack(1, None);
    assert!(c.dirty_reasons().contains(DirtyReason::FOCUS));
    let s = FrameScheduler::from_compositor(false, false, c.dirty_reasons());
    assert!(s.needs_frame());
    c.finish_frame();
    c.invalidate();
    assert!(c.dirty_reasons().contains(DirtyReason::GEOMETRY));
}

#[test]
fn an_unmapped_window_keeps_its_place() {
    let mut c = compositor();
    show(&mut c, 1, 0, 0, 100, 100);
    show(&mut c, 2, 0, 0, 50, 50);
    let r = c.on_unmap(1);
    assert_eq!(r.tex.map(|t| t.handle), Some(10));
    assert_eq!(r.pixmap, Some(100));
    assert_eq!(c.stack, vec![1, 2]);
    c.on_map(1);
    assert_eq!(c.stack, vec![1, 2]);
    c.watch(1, 77);
    let d = c.on_destroy(1);
    assert_eq!(d.damage, Some(77));
    assert_eq!(c.stack, vec![2]);
    assert!(!c.on_map(1));
}

#[test]
fn an_unknown_sibling_asks_for_the_order() {
    let mut c = compositor();
    c.refresh_stack(Some(vec![1, 2]));
    assert_eq!(c.stack, vec![1, 2]);
    assert!(!c.stack_dirty);
    c.on_restack(1, Some(2));
    assert_eq!(c.stack, vec![2, 1]);
    c.on_restack(1, Some(55));
    assert!(c.stack_dirty);
}

#[test]
fn a_resized_window_needs_a_new_texture() {
    let mut c = compositor();
    show(&mut c, 1, 0, 0, 100, 100);
    let (held, rebind) = c.on_configure(1, 5, 5, 100, 100, 2);
    assert!(held.tex.is_none() && !rebind);
    assert_eq!(c.wins[&1].outer, Rect::new(3, 3, 104, 104));
    let (held, rebind) = c.on_configure(1, 5, 5, 120, 100, 2);
    assert!(held.tex.is_some() && rebind);
    assert!(c.wins[&1].tex.is_none());
}

#[test]
fn placements_move_and_round_the_windows() {
    let mut c = compositor();
    show(&mut c, 1, 0, 0, 100, 100);
    c.set_transforms(&[(1, Rect::new(50, 60, 100, 100), 2), (9, Rect::new(0, 0, 5, 5), 0)]);
    assert_eq!(c.wins[&1].transform, Rect::new(48, 58, 104, 104));
    assert_eq!(c.wins[&1].transform_radius, 12);
    c.set_transforms(&[(1, Rect::new(0, 0, 10, 6), 0)]);
    assert_eq!(c.wins[&1].transform_radius, 3);
}

#[test]
fn a_window_behind_a_solid_one_is_not_drawn() {
    let mut c = compositor();
    show(&mut c, 1, 10, 10, 50, 50);
    show(&mut c, 2, 0, 0, 400, 400);
    assert_eq!(frame(&mut c), vec![2]);
    c.on_opacity(2, 0x8000_0000);
    assert_eq!(frame(&mut c), vec![1, 2]);
    c.on_opacity(2, u32::MAX);
    c.set_hidden(2, true);
    assert_eq!(frame(&mut c), vec![1]);
    c.set_hidden(2, false);
    c.on_restack(1, Some(2));
    assert_eq!(frame(&mut c), vec![2, 1]);
}

#[test]
fn windows_off_the_screen_are_not_drawn() {
    let mut c = compositor();
    show(&mut c, 1, 3000, 0, 100, 100);
    show(&mut c, 2, 0, 0, 100, 100);
    assert_eq!(frame(&mut c), vec![2]);
    assert!(CompWin::offscreen(Rect::new(3000, 0, 100, 100), 1920, 1080));
}

#[test]
fn a_moved_window_damages_both_places() {
    let mut c = compositor();
    show(&mut c, 1, 0, 0, 100, 100);
    frame(&mut c);
    c.set_transforms(&[(1, Rect::new(500, 500, 100, 100), 2)]);
    c.cull_occluded();
    c.compute_scene();
    let r = c.frame_dirty.bounding_rect();
    assert_eq!((r.x, r.y), (-2, -2));
    assert_eq!((r.x + r.w as i32, r.y + r.h as i32), (602, 602));
}

#[test]
fn a_still_scene_has_nothing_to_repaint() {
    let mut c = compositor();
    show(&mut c, 1, 0, 0, 100, 100);
    frame(&mut c);
    c.set_transforms(&[]);
    c.cull_occluded();
    let s = c.compute_scene();
    assert_eq!(s.items.len(), 1);
    assert!(s.rebinds.is_empty());
    assert!(c.frame_dirty.is_empty());
    assert_eq!(c.choose_mode(true), FrameMode::Idle);
}

#[test]
fn a_repainted_window_is_a_partial_frame() {
    let mut c = compositor();
    show(&mut c, 1, 100, 100, 100, 100);
    frame(&mut c);
    c.on_damage(1);
    c.set_transforms(&[]);
    c.cull_occluded();
    let s = c.compute_scene();
    assert_eq!(s.rebinds, vec![1]);
    let mode = c.choose_mode(true);
    assert_eq!(mode, FrameMode::Partial);
    assert_eq!(c.settle_mode(mode, 2), FrameMode::Full);
    assert_eq!(c.settle_mode(mode, 1), FrameMode::Partial);
    assert_eq!(c.scissor(), Some(Scissor { x: 98, y: 98, w: 104, h: 104 }));
    c.finish_frame();
    assert_eq!(c.scissor(), None);
    assert_eq!(c.choose_mode(false), FrameMode::Full);
}

#[test]
fn too_much_damage_is_repainted_whole() {
    let mut c = compositor();
    for i in 0..40 {
        show(&mut c, i + 1, i as i16 * 20, 0, 10, 10);
    }
    frame(&mut c);
    for i in 0..40 {
        c.on_damage(i + 1);
    }
    c.set_transforms(&[]);
    c.cull_occluded();
    c.compute_scene();
    assert_eq!(c.choose_mode(true), FrameMode::Full);
}

#[test]
fn a_failed_binding_is_tried_again_with_its_pixmap() {
    let mut c = compositor();
    assert!(c.track(1, attrs(), geometry(0, 0, 100, 100)));
    assert!(c.bind_plan(1, true).is_none());
    c.on_create(1);
    c.on_map(1);
    let plan = c.bind_plan(1, true).unwrap();
    assert_eq!((plan.width, plan.height, plan.reuse), (104, 104, None));
    assert!(matches!(c.finish_bind(1, 33, 600, None), BindOutcome::Failed { warn: true }));
    assert!(matches!(c.finish_bind(1, 33, 600, None), BindOutcome::Failed { warn: false }));
    assert_eq!(c.bind_plan(1, true).unwrap().reuse, Some(600));
    assert_eq!(c.bind_plan(1, false).unwrap().reuse, None);
    assert_eq!(c.scene_fixups(), vec![1]);
    let tex = Texture { handle: 5, width: 104, height: 104 };
    assert!(matches!(c.finish_bind(9, 33, 601, Some(tex)), BindOutcome::Orphaned));
}

#[test]
fn everything_held_is_given_back() {
    let mut c = compositor();
    show(&mut c, 1, 0, 0, 100, 100);
    show(&mut c, 2, 0, 0, 100, 100);
    c.watch(1, 77);
    let (held, root) = c.disable();
    let mut pixmaps: Vec<u32> = held.iter().filter_map(|r| r.pixmap).collect();
    pixmaps.sort_unstable();
    assert_eq!(pixmaps, vec![100, 200]);
    assert_eq!(held.iter().filter_map(|r| r.damage).collect::<Vec<u32>>(), vec![77]);
    assert!(root.is_none());
    assert!(c.wins.is_empty() && c.damages.is_empty());
}

#[test]
fn a_still_wallpaper_lets_the_loop_idle() {
    let mut c = compositor();
    c.finish_frame();
    assert_eq!(c.set_wallpaper(WallpaperLoad::Image { tex: 4, w: 10, h: 10 }), None);
    assert!(c.dirty_reasons().contains(DirtyReason::WALLPAPER));
    c.finish_frame();
    assert!(!c.tick_wallpaper() && !c.wallpaper_animating() && !c.needs_frame());
    assert_eq!(c.wallpaper_layer(), WallpaperLayer::Nothing);
    c.set_outputs(&vec![Rect::new(0, 0, 800, 600)]);
    assert_eq!(c.wallpaper_layer(), WallpaperLayer::Image { tex: 4 });
    let moving = WallpaperLoad::Shader { program: 6, animated: true };
    assert_eq!(c.set_wallpaper(moving), Some(4));
    assert!(c.tick_wallpaper() && c.wallpaper_animating());
    assert_eq!(c.wallpaper_layer(), WallpaperLayer::Shader { program: 6 });
    c.set_wallpaper(WallpaperLoad::Shader { program: 7, animated: false });
    assert!(!c.tick_wallpaper() && !c.wallpaper_animating());
    c.set_wallpaper(WallpaperLoad::Nothing);
    assert_eq!(c.wallpaper_layer(), WallpaperLayer::Nothing);
}

#[test]
fn the_root_pixmap_is_textured_once() {
    let mut c = compositor();
    let tex = Texture { handle: 3, width: 1920, height: 1080 };
    assert!(c.wants_root_pixmap(50));
    assert!(c.refresh_wallpaper(50, Some(tex)).is_none());
    assert!(!c.wants_root_pixmap(50));
    assert!(c.wants_root_pixmap(51));
    assert_eq!(c.wallpaper_layer(), WallpaperLayer::Root { texture: tex });
}

#[test]
fn the_screen_spans_its_outputs() {
    let mut c = compositor();
    c.set_outputs(&vec![Rect::new(0, 0, 1920, 1080), Rect::new(1920, 0, 1280, 1200)]);
    assert_eq!((c.screen_w, c.screen_h), (3200, 1200));
}

#[test]
fn timings_are_summed_up() {
    let mut t = FrameTrace::new();
    let s = FrameSample {
        build_ns: 10,
        swap_ns: 20,
        interval_ns: Some(30),
        age: 1,
        mode: FrameMode::Partial,
        asked_partial: true,
    };
    assert!(t.record(s).is_none());
    let whole = FrameSample { mode: FrameMode::Full, age: 5, interval_ns: Some(90), ..s };
    assert!(t.record(whole).is_none());
    for _ in 2..119 {
        assert!(t.record(s).is_none());
    }
    let sum = t.record(s).unwrap();
    assert_eq!((sum.frames, sum.build_ns, sum.swap_ns), (120, 1200, 2400));
    assert_eq!((sum.interval_ns, sum.interval_max), (119 * 30 + 90, 90));
    assert_eq!((sum.age0, sum.age1, sum.age2, sum.age3), (0, 119, 0, 1));
    assert_eq!((sum.full, sum.partial, sum.escalated), (1, 119, 1));
    assert_eq!(t, FrameTrace::new());
}

#[test]
fn a_failed_start_gives_back_what_it_took() {
    let mut s = InitStage::Probe;
    for _ in 0..8 {
        s = s.next(true);
    }
    assert_eq!(s, InitStage::Running);
    assert_eq!(InitStage::Ask.next(false), InitStage::Refused);
    assert!(InitStage::Ask.rollback().is_empty());
    assert!(InitStage::Claim.rollback().is_empty());
    assert_eq!(InitStage::Redirect.rollback(), vec![Undo::ReleaseSelection]);
    assert_eq!(
        InitStage::Render.rollback(),
        vec![Undo::ReleaseOverlay, Undo::Unredirect, Undo::ReleaseSelection]
    );
}

#[test]
fn the_selection_is_named_after_the_screen() {
    assert_eq!(cm_selection_name(0), "_NET_WM_CM_S0");
    assert_eq!(cm_selection_name(12), "_NET_WM_CM_S12");
}

#[test]
fn damage_region_and_plan_is_allocation_free_and_cheap() {
    let iters: u64 = 20_000;
    let mut region = DamageRegion::new();
    let t0 = Instant::now();
    for _ in 0..iters {
        // A typical idle content-damage frame: a few small windows repainted.
        region.clear();
        region.add(Rect::new(100, 100, 200, 50));
        region.add(Rect::new(800, 400, 120, 120));
        region.add(Rect::new(1500, 900, 60, 40));
        let _bbox = region.bounding_rect();
        let _mode = decide_redraw(true, false, !region.is_empty());
    }
    let ns = t0.elapsed().as_nanos() as f64 / iters as f64;
    assert!(ns < 50_000.0, "{ns:.0} ns/frame in the damage + plan path exceeds 50 us");
    assert_eq!(decide_redraw(true, false, true), FrameMode::Partial);
}

#[test]
fn occlusion_pass_is_cheap_and_allocation_free() {
    // A tiled ribbon: 1000 opaque columns from left to right. The target sits at
    // the far right, covered by a few of the last of them.
    let occluders: Vec<Rect> = (0..1000).map(|i| Rect::new(i * 2, 0, 100, 1080)).collect();
    let target = Rect::new(1990, 100, 40, 40);
    let iters: u64 = 20_000;
    let t0 = Instant::now();
    let mut covered = false;
    for _ in 0..iters {
        covered = fully_covered_by(target, &occluders);
    }
    let ns = t0.elapsed().as_nanos() as f64 / iters as f64;
    assert!(covered, "the far-right target must be reported covered");
    assert!(
        ns < 200_000.0,
        "{ns:.0} ns/frame in the occlusion pass exceeds 200 us (1000 occluders)"
    );
}

#[test]
fn visuals_are_reported_per_depth() {
    let entries = vec![
        (32, true),
        (24, true),
        (8, false),
        (24, false),
        (24, true),
        (255, false),
        (0, true),
    ];
    assert_eq!(
        depth_report(&entries),
        vec![(0, 1, 0), (8, 0, 1), (24, 2, 1), (32, 1, 0), (255, 0, 1)]
    );
    assert_eq!(depth_report(&vec![]), vec![]);
}

#[test]
fn few_bits_of_colour_are_coarse() {
    assert!(!rgb().is_coarse());
    let high = VisualFormat { red_bits: 5, green_bits: 6, blue_bits: 5, depth: 16, ..rgb() };
    assert!(high.is_coarse());
    let deep = VisualFormat { red_bits: 10, green_bits: 10, blue_bits: 10, depth: 30, ..rgb() };
    assert!(!deep.is_coarse());
}

#[test]
fn drawing_times_are_reported_every_120_frames() {
    let mut t = RenderTimes::new();
    for i in 0..119 {
        assert_eq!(t.record(1000 + i), None);
    }
    assert_eq!(
        t.record(9000),
        Some(RenderReport { frames: 120, average_ns: 1125, max_ns: 9000 })
    );
    assert_eq!(t, RenderTimes::new());
}
