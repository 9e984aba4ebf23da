use maverick::floats::clamp_float_to_workarea;
use maverick::geom::Rect;
use maverick::model::{Client, LayoutKind, WinFlags, WindowId};
use maverick::state::{Monitor, State};
use maverick::transient::{transient_chain_reaches, MAX_TRANSIENT_DEPTH};

/// A 22px-tall bar reserved at the top, so `workarea != screen` and the
/// vertical clamp has a non-zero origin to respect.
fn workarea() -> Rect {
    Rect::new(0, 22, 1920, 1058)
}

fn fits(g: Rect, wa: Rect, bw: u32) -> bool {
    let frame = 2 * bw as i32;
    g.x >= wa.x
        && g.y >= wa.y
        && g.x + g.w as i32 + frame <= wa.x + wa.w as i32
        && g.y + g.h as i32 + frame <= wa.y + wa.h as i32
}

#[test]
fn float_inside_workarea_is_untouched() {
    let wa = workarea();
    let g = Rect::new(100, 200, 640, 480);
    assert_eq!(clamp_float_to_workarea(g, wa, 2), g);
}

#[test]
fn float_past_the_edges_is_pulled_back() {
    let wa = workarea();
    let bw = 2;
    let g = clamp_float_to_workarea(Rect::new(5000, 5000, 640, 480), wa, bw);
    assert!(
        fits(g, wa, bw),
        "off-screen float must be pulled inside: {g:?}"
    );
    assert_eq!(g.w, 640, "a float that fits keeps its size");
    assert_eq!(g.h, 480);

    let g = clamp_float_to_workarea(Rect::new(-500, -500, 640, 480), wa, bw);
    assert_eq!((g.x, g.y), (wa.x, wa.y));
}

#[test]
fn float_larger_than_workarea_is_resized_and_stays_inside() {
    // The regression: with only x/y clamped, `max_x` lands below `min_x` for
    // an oversized float, so it was parked at a negative coordinate while
    // still overflowing the screen.
    let wa = workarea();
    let bw = 2;
    let g = clamp_float_to_workarea(Rect::new(0, 0, 5000, 5000), wa, bw);
    assert!(
        fits(g, wa, bw),
        "an oversized float must be shrunk into the workarea, got {g:?}"
    );
    assert_eq!((g.x, g.y), (wa.x, wa.y));
    assert_eq!(g.w, wa.w - 2 * bw);
    assert_eq!(g.h, wa.h - 2 * bw);
}

#[test]
fn zero_sized_workarea_never_produces_a_zero_dimension() {
    // Defensive: a degenerate workarea (mid-hotplug) must not yield a
    // width/height of 0, which X11 rejects with a BadValue.
    let wa = Rect::new(0, 0, 1, 1);
    let g = clamp_float_to_workarea(Rect::new(10, 10, 800, 600), wa, 4);
    assert!(g.w >= 1 && g.h >= 1);
    assert_eq!((g.x, g.y), (wa.x, wa.y));
}


#[test]
fn float_zero_size_request_is_clamped_to_minimum() {
    let wa = workarea();
    let bw = 2;
    // A client requesting 0x0 must never reach X11 as 0x0 (BadValue). The WM
    // policy floors the degenerate request to the X11-valid minimum.
    let g = clamp_float_to_workarea(Rect::new(100, 100, 0, 0), wa, bw);
    assert!(
        g.w >= 1 && g.h >= 1,
        "0x0 request must get a non-zero floor"
    );
    assert!(
        fits(g, wa, bw),
        "0x0-clamped float must still sit in workarea"
    );
}

#[test]
fn float_partially_offscreen_is_pulled_back() {
    let wa = workarea();
    let bw = 2;
    // Horizontally inside but extends past the right/bottom edge.
    let g = clamp_float_to_workarea(Rect::new(1900, 1000, 640, 480), wa, bw);
    assert!(
        fits(g, wa, bw),
        "partially off-screen float must be pulled back: {g:?}"
    );
    assert_eq!(g.w, 640, "a float that fits keeps its size");
    assert_eq!(g.h, 480);
}

#[test]
fn float_normal_resize_inside_is_honored() {
    let wa = workarea();
    let bw = 2;
    // A moderate resize that still fits is exactly the client's desired rect.
    let req = Rect::new(300, 300, 800, 600);
    let g = clamp_float_to_workarea(req, wa, bw);
    assert_eq!(g, req, "a fitting resize request is honored as-is");
}

#[test]
fn float_huge_request_is_shrunk_to_workarea() {
    let wa = workarea();
    let bw = 2;
    let g = clamp_float_to_workarea(Rect::new(50, 50, 9000, 7000), wa, bw);
    assert!(
        fits(g, wa, bw),
        "huge request must shrink into workarea: {g:?}"
    );
    assert_eq!(g.w, wa.w - 2 * bw);
    assert_eq!(g.h, wa.h - 2 * bw);
}


/// Chain `1 → 2 → … → depth+1`, where each window is transient for the
/// previous one, so window `depth + 1` sits exactly `depth` links below the
/// root window `1`. Returns the map and the deepest window's id.
fn chain(depth: u32) -> (std::collections::HashMap<WindowId, Client>, WindowId) {
    let mut clients = std::collections::HashMap::new();
    let mut prev: Option<WindowId> = None;
    for w in 1..=(depth + 1) {
        let mut c = Client::new(w, 0, 0);
        c.transient_parent = prev;
        clients.insert(w, c);
        prev = Some(w);
    }
    (clients, depth + 1)
}

#[test]
fn transient_chain_depth1_reaches_the_root() {
    let (clients, leaf) = chain(1);
    assert_eq!(leaf, 2);
    assert!(
        transient_chain_reaches(&clients, leaf, &[1]),
        "a direct dialog of the overlay is owned by it"
    );
    // The root itself is not transient of anything.
    assert!(!transient_chain_reaches(&clients, 1, &[1]));
    // An unknown window has no chain at all.
    assert!(!transient_chain_reaches(&clients, 99, &[1]));
}

#[test]
fn transient_chain_depth2_reaches_the_root() {
    let (clients, leaf) = chain(2);
    assert_eq!(leaf, 3);
    assert!(
        transient_chain_reaches(&clients, leaf, &[1]),
        "popup-of-popup is still owned by the root"
    );
    assert!(
        transient_chain_reaches(&clients, leaf, &[2]),
        "…and by its direct parent"
    );
}

#[test]
fn transient_chain_depth4_at_the_limit_reaches_the_root() {
    let (clients, leaf) = chain(MAX_TRANSIENT_DEPTH as u32);
    assert_eq!(leaf, 5);
    assert!(
        transient_chain_reaches(&clients, leaf, &[1]),
        "depth {MAX_TRANSIENT_DEPTH} is the last depth that still resolves"
    );
    // Every intermediate link resolves too.
    for root in 2..=4 {
        assert!(transient_chain_reaches(&clients, leaf, &[root]));
    }
}

#[test]
fn transient_chain_depth5_beyond_the_limit_is_fail_safe() {
    let (clients, leaf) = chain(MAX_TRANSIENT_DEPTH as u32 + 1);
    assert_eq!(leaf, 6);
    assert!(
        !transient_chain_reaches(&clients, leaf, &[1]),
        "depth 5 exceeds the bound: ownership is denied, not looped"
    );
    // Fail-SAFE, not fail-open: the deep window still resolves against every
    // ancestor inside the bound, and the rest of the chain is unaffected.
    for root in 2..=5 {
        assert!(
            transient_chain_reaches(&clients, leaf, &[root]),
            "ancestor {root} is within {MAX_TRANSIENT_DEPTH} links of the leaf"
        );
    }
    assert!(
        transient_chain_reaches(&clients, 5, &[1]),
        "the depth-4 window is unaffected by its deeper child"
    );
}

#[test]
fn transient_chain_cycle_terminates() {
    // Self-loop: WM_TRANSIENT_FOR pointing at the window itself.
    let mut clients = std::collections::HashMap::new();
    let mut c = Client::new(1, 0, 0);
    c.transient_parent = Some(1);
    clients.insert(1, c);
    assert!(!transient_chain_reaches(&clients, 1, &[42]));
    assert!(transient_chain_reaches(&clients, 1, &[1]));

    // Two-window cycle: 1 ↔ 2, neither reaches an unrelated root.
    let mut clients = std::collections::HashMap::new();
    let mut a = Client::new(1, 0, 0);
    a.transient_parent = Some(2);
    let mut b = Client::new(2, 0, 0);
    b.transient_parent = Some(1);
    clients.insert(1, a);
    clients.insert(2, b);
    assert!(!transient_chain_reaches(&clients, 1, &[42]));
    assert!(!transient_chain_reaches(&clients, 2, &[42]));
}

#[test]
fn transient_chain_stops_at_a_destroyed_parent() {
    // The middle of a depth-3 chain is gone (the walk must end, not panic).
    let (mut clients, leaf) = chain(3);
    clients.remove(&2);
    assert!(
        !transient_chain_reaches(&clients, leaf, &[1]),
        "a hole in the chain ends the walk"
    );
    assert!(
        transient_chain_reaches(&clients, leaf, &[3]),
        "the surviving part of the chain still resolves"
    );
}

#[test]
fn covering_fullscreen_and_overlay_owner_are_distinct() {
    let mut state = State::new();
    let mut mon = Monitor::new(Rect::new(0, 0, 800, 600), 1);
    mon.workarea = Rect::new(0, 0, 800, 600);
    // The covering concept is, by definition, a Column-ribbon participant.
    mon.workspaces[0].layout = LayoutKind::Column;
    state.monitors.push(mon);

    // Window 1: a Column fullscreen tile.
    let mut c1 = Client::new(1, 0, 0);
    c1.geom = Rect::new(0, 0, 100, 100);
    c1.flags.set(WinFlags::FULLSCREEN);
    state.add_client(c1);
    state.monitors[0].workspaces[0].add_tiled(1, 500);
    state.monitors[0].workspaces[0].focus.column_idx = 0;
    state.monitors[0].focused = Some(1);
    state.monitors[0].focus_stack.push(1);

    // A Column fullscreen COVERS the screen (covering fullscreen for hit-testing)...
    assert_eq!(
        state.covering_fullscreen_window(0),
        Some(1),
        "focused Column fullscreen is the covering fullscreen"
    );
    // ...but it is NOT the presentation overlay owner (Column ribbon tile, not overlay).
    assert_eq!(
        state.presented_overlay_owner(0),
        None,
        "a Column fullscreen is covering but NOT the overlay owner"
    );
    assert!(
        state.clients.get(&1).unwrap().is_fullscreen(),
        "it is still fullscreen in the LayoutKind sense"
    );

    // Window 3: a transient/modal popup belonging to the fullscreen app, drawn
    // on top of it. It is neither covering nor the overlay owner.
    let mut c3 = Client::new(3, 0, 0);
    c3.geom = Rect::new(50, 50, 80, 60);
    c3.flags.set(WinFlags::FLOAT);
    c3.transient_parent = Some(1);
    state.add_client(c3);
    state.monitors[0].workspaces[0].floats.push(3);
    state.monitors[0].focused = Some(3);
    state.monitors[0].focus_stack.push(3);
    assert_eq!(
        state.covering_fullscreen_window(0),
        Some(1),
        "the popup sits on top, but the fullscreen is still the covering window"
    );
    assert_eq!(
        state.presented_overlay_owner(0),
        None,
        "a Column fullscreen + its popup are still not an overlay owner"
    );

    // Window 2: a maximized (presented_maximize) window. It IS the overlay
    // owner, but is NOT fullscreen and NOT a covering fullscreen.
    let mut c2 = Client::new(2, 0, 0);
    c2.geom = Rect::new(0, 0, 100, 100);
    c2.flags.set(WinFlags::MAXIMIZED_V | WinFlags::MAXIMIZED_H);
    state.add_client(c2);
    state.monitors[0].workspaces[0].add_tiled(2, 500);
    state.monitors[0].focused = Some(2);
    state.monitors[0].focus_stack.push(2);
    state.sync_presented_maximize(0);

    assert_eq!(
        state.presented_overlay_owner(0),
        Some(2),
        "a presented_maximize window IS the overlay owner"
    );
    assert!(
        !state.clients.get(&2).unwrap().is_fullscreen(),
        "a presented_maximize window is NOT LayoutKind-fullscreen"
    );
    assert_eq!(
        state.covering_fullscreen_window(0),
        None,
        "a presented_maximize window is NOT a covering fullscreen"
    );
}
