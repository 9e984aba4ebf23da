use maverick::config::Dir;
use maverick::drag::{DragState, Preview, Release};
use maverick::geom::Rect;
use maverick::model::{Client, FullscreenPolicy, WinFlags};
use maverick::pointer::{column_at, ClickOutcome, Press, PressKind};
use maverick::state::{Monitor, PendingFocus, State};

const SUPER: u16 = 64;

fn press(button: u8, state: u16, x: i16, y: i16) -> Press {
    Press { button, state, root_x: x, root_y: y, on_root: false }
}

/// Two monitors; windows 1, 2 and 3 are tiles side by side on the first one.
fn desk() -> State {
    let mut st = State::new();
    st.monitors.push(Monitor::new(Rect::new(0, 0, 1920, 1080), 2));
    st.monitors.push(Monitor::new(Rect::new(1920, 0, 1280, 1024), 2));
    for w in 1..=3u32 {
        let mut c = Client::new(w, 0, 0);
        c.geom = Rect::new(600 * (w as i32 - 1), 0, 600, 1000);
        c.border_w = 2;
        st.add_client(c);
        st.monitors[0].workspaces[0].add_tiled(w, 600);
    }
    st.monitors[0].note_focus(1);
    st
}

fn overlay(st: &mut State) {
    if let Some(c) = st.clients.get_mut(&1) {
        c.flags.set(WinFlags::FULLSCREEN);
        c.fullscreen_policy = FullscreenPolicy::True;
    }
}

#[test]
fn wheel_notches_are_for_the_application_or_the_ribbon() {
    assert_eq!(press(4, 0, 0, 0).kind(16), PressKind::Replay);
    assert_eq!(press(4, SUPER, 0, 0).kind(16), PressKind::Ribbon(Dir::Left));
    assert_eq!(press(5, SUPER | 16 | 2, 0, 0).kind(16), PressKind::Ribbon(Dir::Right));
    assert_eq!(press(6, SUPER, 0, 0).kind(16), PressKind::Ribbon(Dir::Left));
    assert_eq!(press(7, SUPER, 0, 0).kind(16), PressKind::Ribbon(Dir::Right));
    assert_eq!(press(7, SUPER | 1, 0, 0).kind(16), PressKind::Replay);
    assert_eq!(press(1, SUPER, 0, 0).kind(16), PressKind::Click);
}

#[test]
fn a_click_focuses_what_it_hits() {
    let mut st = desk();
    let c = st.on_click(press(1, 0, 700, 10), Some(2));
    assert_eq!(c.outcome, ClickOutcome::Focus(Some(2)));
    assert_eq!(c.before, Some(1));
    assert!(c.replays(false));
    assert!(!c.replays(true));
    assert_eq!(st.on_click(press(1, 0, 10, 10), Some(1)).outcome, ClickOutcome::Keep);
    let mut on_root = press(1, 0, 10, 10);
    on_root.on_root = true;
    assert_eq!(st.on_click(on_root, None).outcome, ClickOutcome::Focus(None));
    assert_eq!(st.on_click(press(1, 0, 10, 10), None).outcome, ClickOutcome::Keep);
}

#[test]
fn a_click_selects_the_monitor_under_it() {
    let mut st = desk();
    let c = st.on_click(press(1, 0, 2000, 10), None);
    assert_eq!(c.monitor, 1);
    assert_eq!(c.left, Some(1));
    assert_eq!(st.sel_mon, 1);
    // Outside every monitor the selected one stays.
    let c = st.on_click(press(1, 0, 5000, 5000), None);
    assert_eq!(c.monitor, 1);
    assert_eq!(c.left, None);
}

#[test]
fn a_click_on_another_application_takes_the_overlay_down() {
    let mut st = desk();
    overlay(&mut st);
    let c = st.on_click(press(1, 0, 700, 10), Some(2));
    assert!(c.over_fullscreen);
    assert_eq!(
        c.outcome,
        ClickOutcome::Dismiss { overlay: 1, fullscreen: true, window: 2 }
    );
}

#[test]
fn a_maximized_window_is_taken_down_as_such() {
    let mut st = desk();
    st.monitors[0].workspaces[0].presented_maximize = Some(1);
    let c = st.on_click(press(1, 0, 700, 10), Some(2));
    assert!(!c.over_fullscreen);
    assert_eq!(
        c.outcome,
        ClickOutcome::Dismiss { overlay: 1, fullscreen: false, window: 2 }
    );
}

#[test]
fn a_click_on_the_overlays_own_dialog_keeps_it() {
    let mut st = desk();
    overlay(&mut st);
    if let Some(c) = st.clients.get_mut(&2) {
        c.transient_parent = Some(1);
    }
    assert_eq!(
        st.on_click(press(1, 0, 700, 10), Some(2)).outcome,
        ClickOutcome::Focus(Some(2))
    );
    assert_eq!(st.on_click(press(1, 0, 10, 10), Some(1)).outcome, ClickOutcome::Keep);
}

#[test]
fn a_window_behind_the_overlay_is_one_click_away() {
    let mut st = desk();
    overlay(&mut st);
    let pf = PendingFocus { window: 3, owner: 1, monitor: 0, workspace: 0 };
    st.pending_focus = Some(pf);
    let c = st.on_click(press(1, 0, 10, 10), Some(1));
    assert_eq!(
        c.outcome,
        ClickOutcome::DismissForPending { overlay: 1, fullscreen: true, window: 3 }
    );
    assert!(!c.replays(false));
    assert_eq!(st.pending_focus, None);
    // A deferral of another workspace is left alone.
    st.pending_focus = Some(PendingFocus { workspace: 1, ..pf });
    assert_eq!(st.on_click(press(1, 0, 10, 10), Some(1)).outcome, ClickOutcome::Keep);
    assert!(st.pending_focus.is_some());
}

#[test]
fn the_pointer_is_warped_onto_a_newly_focused_window() {
    let mut st = desk();
    let c = st.on_click(press(1, 0, 700, 10), Some(2));
    assert_eq!(st.warp_after_click(&c, false), None);
    st.monitors[0].note_focus(2);
    assert_eq!(st.warp_after_click(&c, false), Some((2, 300, 500)));
    assert_eq!(st.warp_after_click(&c, true), None);
}

#[test]
fn super_and_a_button_start_a_drag() {
    let st = desk();
    let d = st.start_drag(press(1, SUPER, 700, 10), Some(2), false, 16).unwrap();
    assert!(!d.resize && !d.resize_l && !d.resize_t && !d.moved);
    assert_eq!(d.start_geom, Rect::new(600, 0, 600, 1000));
    let d = st.start_drag(press(3, SUPER, 700, 10), Some(2), false, 16).unwrap();
    assert!(d.resize && d.resize_l && d.resize_t);
    let d = st.start_drag(press(3, SUPER, 1100, 900), Some(2), false, 16).unwrap();
    assert!(d.resize && !d.resize_l && !d.resize_t);
    assert_eq!(st.start_drag(press(1, 0, 700, 10), Some(2), false, 16), None);
    assert_eq!(st.start_drag(press(1, SUPER, 700, 10), Some(2), true, 16), None);
    assert_eq!(st.start_drag(press(1, SUPER, 700, 10), None, false, 16), None);
    assert_eq!(st.start_drag(press(1, SUPER, 700, 10), Some(9), false, 16), None);
}

#[test]
fn moving_floats_the_window_and_keeps_its_size() {
    let mut st = desk();
    let mut d = st.start_drag(press(1, SUPER, 700, 10), Some(2), false, 16).unwrap();
    assert_eq!(st.on_drag(&mut d, 703, 13), Some((Rect::new(603, 3, 600, 1000), 2)));
    assert!(!d.moved, "three pixels are a click");
    assert!(st.clients[&2].is_float());
    assert_eq!(st.on_drag(&mut d, 704, 10), Some((Rect::new(604, 0, 600, 1000), 2)));
    assert!(d.moved);
    // Coming back does not undo that.
    st.on_drag(&mut d, 700, 10);
    assert!(d.moved);
}

#[test]
fn resizing_keeps_the_far_corner() {
    let mut st = desk();
    if let Some(c) = st.clients.get_mut(&2) {
        c.geom = Rect::new(600, 100, 600, 400);
    }
    let mut d = st.start_drag(press(3, SUPER, 610, 110), Some(2), false, 16).unwrap();
    let (g, bw) = st.on_drag(&mut d, 660, 130).unwrap();
    assert_eq!((g, bw), (Rect::new(650, 120, 550, 380), 2));
    assert_eq!((g.right(), g.bottom()), (1200, 500));
}

#[test]
fn resizing_respects_hints_and_the_work_area() {
    let mut st = desk();
    if let Some(c) = st.clients.get_mut(&2) {
        c.geom = Rect::new(600, 100, 600, 400);
        c.hints.min_w = 300;
        c.hints.inc_h = 20;
        c.hints.base_h = 10;
    }
    let mut d = st.start_drag(press(3, SUPER, 1190, 490), Some(2), false, 16).unwrap();
    // 600 - 500 is below the least width; 400 - 7 rounds to 10 + 19 * 20.
    let (g, _) = st.on_drag(&mut d, 690, 483).unwrap();
    assert_eq!(g, Rect::new(600, 100, 300, 390));
    // Far past the screen: the frame stays inside.
    let (g, _) = st.on_drag(&mut d, 30_000, 30_000).unwrap();
    assert_eq!(g.w, 1916);
    assert_eq!(g.h, 1076);
    assert_eq!((g.x, g.y), (0, 0));
}

#[test]
fn an_unmanaged_window_is_not_dragged() {
    let mut st = desk();
    let mut d = DragState {
        win: 9,
        start_geom: Rect::new(0, 0, 10, 10),
        ptr_x: 0,
        ptr_y: 0,
        resize: false,
        resize_l: false,
        resize_t: false,
        moved: false,
    };
    assert_eq!(st.on_drag(&mut d, 50, 50), None);
}

#[test]
fn a_drop_target_is_a_plain_tile_under_the_pointer() {
    let mut st = desk();
    assert_eq!(st.drop_candidate(1, 0, 700, 10), Some(2));
    assert_eq!(st.drop_candidate(2, 0, 700, 10), None);
    assert_eq!(st.drop_candidate(1, 0, 700, 1000), None);
    assert_eq!(st.drop_candidate(1, 5, 700, 10), None);
    st.monitors[0].workspaces[0].presented_maximize = Some(2);
    assert_eq!(st.drop_candidate(1, 0, 700, 10), None);
    st.monitors[0].workspaces[0].presented_maximize = None;
    if let Some(c) = st.clients.get_mut(&2) {
        c.flags.set(WinFlags::FULLSCREEN);
    }
    assert_eq!(st.drop_candidate(1, 0, 700, 10), None);
}

#[test]
fn the_preview_changes_with_the_target() {
    let st = desk();
    assert_eq!(
        st.preview_drop_target(None, 1, 700, 10),
        Preview { target: Some(2), restore: None, highlight: Some(2) }
    );
    assert_eq!(
        st.preview_drop_target(Some(2), 1, 700, 20),
        Preview { target: Some(2), restore: None, highlight: None }
    );
    assert_eq!(
        st.preview_drop_target(Some(2), 1, 1300, 20),
        Preview { target: Some(3), restore: Some(2), highlight: Some(3) }
    );
    assert_eq!(
        st.preview_drop_target(Some(2), 1, 1900, 1050),
        Preview { target: None, restore: Some(2), highlight: None }
    );
}

#[test]
fn a_dropped_window_joins_the_column_of_its_target() {
    let mut st = desk();
    let mut d = st.start_drag(press(1, SUPER, 10, 10), Some(1), false, 16).unwrap();
    st.on_drag(&mut d, 700, 900);
    let r = st.on_drag_end(&d, 700, 900);
    assert_eq!(r, Release::Dropped { monitor: 0 });
    let w = &st.monitors[0].workspaces[0];
    // Window 1 was alone in the first column, which is gone.
    assert_eq!(w.columns.len(), 2);
    assert_eq!(w.columns[0].windows, vec![2, 1]);
    assert_eq!(w.columns[1].windows, vec![3]);
    assert_eq!(w.focused_win(), Some(1));
    assert!(!st.clients[&1].is_float());
}

#[test]
fn a_window_dropped_above_the_middle_goes_on_top() {
    let mut st = desk();
    let mut d = st.start_drag(press(1, SUPER, 1300, 10), Some(3), false, 16).unwrap();
    st.on_drag(&mut d, 700, 100);
    st.on_drag_end(&d, 700, 100);
    let w = &st.monitors[0].workspaces[0];
    assert_eq!(w.columns[1].windows, vec![3, 2]);
}

#[test]
fn a_window_dropped_elsewhere_floats() {
    let mut st = desk();
    let mut d = st.start_drag(press(1, SUPER, 10, 10), Some(1), false, 16).unwrap();
    st.on_drag(&mut d, 1900, 1050);
    assert_eq!(
        st.on_drag_end(&d, 1900, 1050),
        Release::Floating { monitor: 0, restack: true }
    );
    assert_eq!(st.monitors[0].workspaces[0].floats, vec![1]);
    assert_eq!(st.monitors[0].workspaces[0].columns.len(), 2);
    assert_eq!(
        st.on_drag_end(&d, 1900, 1050),
        Release::Floating { monitor: 0, restack: false }
    );
}

#[test]
fn a_click_with_super_held_drops_nothing() {
    let mut st = desk();
    let d = st.start_drag(press(1, SUPER, 700, 10), Some(2), false, 16).unwrap();
    assert_eq!(
        st.on_drag_end(&d, 700, 10),
        Release::Floating { monitor: 0, restack: false }
    );
    assert_eq!(st.monitors[0].workspaces[0].columns.len(), 3);
}

#[test]
fn the_column_under_the_wheel_takes_the_focus() {
    let wa = Rect::new(0, 0, 1920, 1080);
    let extents = vec![(-300, 300), (310, 900), (910, 2500)];
    assert_eq!(column_at(&extents, wa, 0), Some(0));
    assert_eq!(column_at(&extents, wa, 305), None);
    assert_eq!(column_at(&extents, wa, 310), Some(1));
    assert_eq!(column_at(&extents, wa, 1920), Some(2));
    assert_eq!(column_at(&extents, wa, 2000), None);
    let mut st = desk();
    assert_eq!(st.focus_column(0, 1), Some(2));
    assert_eq!(st.monitors[0].workspaces[0].focus.column_idx, 1);
}
