use maverick::actions::FocusMove;
use maverick::config::Dir;
use maverick::geom::Rect;
use maverick::model::{Client, FullscreenPolicy, LayoutKind, WinFlags};
use maverick::state::{Monitor, State};
use maverick::workspace::{Focus, Workspace};

fn desk() -> State {
    let mut st = State::new();
    st.monitors.push(Monitor::new(Rect::new(0, 0, 1920, 1080), 3));
    for w in 1..=3 {
        let mut c = Client::new(w, 0, 0);
        c.border_w = 2;
        st.add_client(c);
        st.monitors[0].workspaces[0].add_tiled(w, 700);
    }
    st.monitors[0].note_focus(1);
    st.monitors[0].note_focus(2);
    st.monitors[0].note_focus(3);
    st
}

fn columns(w: &Workspace) -> Vec<Vec<u32>> {
    w.columns.iter().map(|c| c.windows.clone()).collect()
}

#[test]
fn new_tiles_open_after_the_focused_column() {
    let mut w = Workspace::new(LayoutKind::Column);
    w.add_tiled(1, 100);
    w.add_tiled(2, 200);
    assert_eq!(columns(&w), vec![vec![1], vec![2]]);
    w.focus = Focus { column_idx: 0 };
    w.add_tiled(3, 300);
    assert_eq!(columns(&w), vec![vec![1], vec![3], vec![2]]);
    assert_eq!(w.focus.column_idx, 1);
    assert_eq!(w.columns[1].width, 300);
    assert_eq!(w.focused_win(), Some(3));
}

#[test]
fn a_removed_window_is_gone_and_so_is_its_empty_column() {
    let mut w = Workspace::new(LayoutKind::Column);
    w.add_tiled(1, 100);
    w.add_tiled(2, 100);
    w.add_float(3);
    w.remove_window(2);
    assert_eq!(columns(&w), vec![vec![1]]);
    assert_eq!(w.focus.column_idx, 0);
    assert!(!w.holds(2));
    w.remove_window(3);
    assert!(w.floats.is_empty());
    w.remove_window(1);
    assert!(w.is_empty());
}

#[test]
fn flags_do_not_disturb_each_other() {
    let mut f = WinFlags { bits: 0 };
    f.set(WinFlags::FLOAT);
    f.set(WinFlags::URGENT);
    f.clear(WinFlags::FLOAT);
    assert!(!f.has(WinFlags::FLOAT));
    assert!(f.has(WinFlags::URGENT));
    assert!(!f.has(WinFlags::STICKY));
}

#[test]
fn focus_goes_round_the_ribbon() {
    let mut st = desk();
    assert_eq!(st.monitors[0].workspaces[0].focus.column_idx, 2);
    assert_eq!(
        st.focus_dir(Dir::Right),
        Some(FocusMove { arrange: true, window: Some(1) })
    );
    assert_eq!(
        st.focus_dir(Dir::Left),
        Some(FocusMove { arrange: true, window: Some(3) })
    );
    assert_eq!(
        st.focus_dir(Dir::Left),
        Some(FocusMove { arrange: true, window: Some(2) })
    );
    // One row: up and down stay on it.
    assert_eq!(
        st.focus_dir(Dir::Up),
        Some(FocusMove { arrange: true, window: Some(2) })
    );
    // The history is 1, 2, 3 with 3 focused: next wraps to 1, previous is 2.
    assert_eq!(
        st.focus_dir(Dir::Next),
        Some(FocusMove { arrange: false, window: Some(1) })
    );
    assert_eq!(
        st.focus_dir(Dir::Prev),
        Some(FocusMove { arrange: false, window: Some(2) })
    );
}

#[test]
fn focus_has_nowhere_to_go_on_an_empty_workspace() {
    let mut st = State::new();
    st.monitors.push(Monitor::new(Rect::new(0, 0, 800, 600), 1));
    for d in [Dir::Left, Dir::Right, Dir::Up, Dir::Down, Dir::Next, Dir::Prev] {
        assert_eq!(st.focus_dir(d), None);
    }
}

#[test]
fn rows_are_walked_in_their_column() {
    let mut st = desk();
    st.monitors[0].workspaces[0].remove_window(3);
    st.monitors[0].workspaces[0].drop_into_column(1, 3, 9);
    assert_eq!(columns(&st.monitors[0].workspaces[0]), vec![vec![1], vec![2, 3]]);
    assert_eq!(
        st.focus_dir(Dir::Up),
        Some(FocusMove { arrange: true, window: Some(2) })
    );
    assert_eq!(
        st.focus_dir(Dir::Up),
        Some(FocusMove { arrange: true, window: Some(3) })
    );
}

#[test]
fn columns_grow_between_their_limits() {
    let mut st = desk();
    st.grow_col(50);
    assert_eq!(st.monitors[0].workspaces[0].columns[2].width, 750);
    st.grow_col(-10_000);
    assert_eq!(st.monitors[0].workspaces[0].columns[2].width, 100);
    st.grow_col(1_000_000);
    assert_eq!(st.monitors[0].workspaces[0].columns[2].width, 1820);
}

#[test]
fn collapsing_moves_every_window_into_the_column_before() {
    let mut st = desk();
    assert_eq!(st.collapse_col(), Some(0));
    let w = &st.monitors[0].workspaces[0];
    assert_eq!(columns(w), vec![vec![1], vec![2, 3]]);
    assert_eq!(w.focus.column_idx, 1);
    assert_eq!(st.collapse_col(), Some(0));
    assert_eq!(columns(&st.monitors[0].workspaces[0]), vec![vec![1, 2, 3]]);
    assert_eq!(st.collapse_col(), None);
}

#[test]
fn a_tile_gets_a_column_of_its_own() {
    let mut st = desk();
    st.collapse_col();
    assert_eq!(st.new_column(400), Some(3));
    let w = &st.monitors[0].workspaces[0];
    assert_eq!(columns(w), vec![vec![1], vec![2], vec![3]]);
    assert_eq!(w.columns[2].width, 400);
    // A float has none.
    st.toggle_float(700);
    assert_eq!(st.new_column(400), None);
}

#[test]
fn floating_and_tiling_again() {
    let mut st = desk();
    assert_eq!(st.toggle_float(700), Some(0));
    assert_eq!(st.monitors[0].workspaces[0].floats, vec![3]);
    assert!(st.clients[&3].is_float());
    assert_eq!(st.toggle_float(700), Some(0));
    assert!(st.monitors[0].workspaces[0].floats.is_empty());
    assert!(!st.clients[&3].is_float());
    assert!(st.monitors[0].workspaces[0].holds(3));
    st.monitors[0].focused = None;
    assert_eq!(st.toggle_float(700), None);
}

#[test]
fn leaving_fullscreen_brings_border_and_place_back() {
    let mut st = desk();
    if let Some(c) = st.clients.get_mut(&3) {
        c.geom = Rect::new(10, 20, 300, 200);
    }
    let (win, change) = st.toggle_fullscreen(700).unwrap();
    assert_eq!(win, 3);
    assert_eq!(change.monitor, 0);
    assert!(change.recenter);
    assert!(st.clients[&3].is_fullscreen());
    assert_eq!(st.clients[&3].border_w, 0);
    st.toggle_fullscreen(700).unwrap();
    assert!(!st.clients[&3].is_fullscreen());
    assert_eq!(st.clients[&3].border_w, 2);
    assert_eq!(st.set_fullscreen(3, false, 700), None);
    assert_eq!(st.set_fullscreen(99, true, 700), None);
}

#[test]
fn an_exclusive_fullscreen_window_does_not_move_the_camera() {
    let mut st = desk();
    if let Some(c) = st.clients.get_mut(&3) {
        c.fullscreen_policy = FullscreenPolicy::True;
    }
    let change = st.set_fullscreen(3, true, 700).unwrap();
    assert!(!change.recenter);
}

#[test]
fn maximized_axes_are_independent() {
    let mut st = desk();
    if let Some(c) = st.clients.get_mut(&3) {
        c.geom = Rect::new(10, 20, 300, 200);
        c.flags.set(WinFlags::FLOAT);
    }
    let change = st.set_maximized(3, Some(true), None).unwrap();
    assert!(change.raise);
    assert!(st.clients[&3].is_maximized_v());
    assert!(!st.clients[&3].is_maximized_h());
    assert_eq!(st.set_maximized(3, Some(true), None), None);
    if let Some(c) = st.clients.get_mut(&3) {
        c.geom = Rect::new(0, 0, 300, 1080);
    }
    st.set_maximized(3, Some(false), Some(false)).unwrap();
    assert_eq!(st.clients[&3].geom, Rect::new(10, 20, 300, 200));
}

#[test]
fn workspaces_are_shown_and_windows_sent_to_them() {
    let mut st = desk();
    assert!(!st.view_ws(0));
    assert!(!st.view_ws(3));
    assert_eq!(st.move_to_ws(1, 500), Some(3));
    assert_eq!(st.clients[&3].workspace, 1);
    assert!(st.monitors[0].workspaces[1].holds(3));
    assert!(!st.monitors[0].workspaces[0].holds(3));
    assert_eq!(st.monitors[0].focused, Some(2));
    assert_eq!(st.monitors[0].focus_stack, vec![1, 2]);
    assert_eq!(st.move_to_ws(0, 500), None);
    assert_eq!(st.move_to_ws(9, 500), None);
    assert!(st.view_ws(1));
    assert_eq!(st.monitors[0].active_ws, 1);
}

#[test]
fn monitors_are_walked_and_windows_sent_across() {
    let mut st = desk();
    assert_eq!(st.focus_mon(Dir::Next), None);
    assert_eq!(st.move_mon(Dir::Next, 500), None);
    st.monitors.push(Monitor::new(Rect::new(1920, 0, 1280, 1024), 3));
    assert_eq!(st.focus_mon(Dir::Prev), Some((Some(3), 1)));
    assert_eq!(st.focus_mon(Dir::Next), Some((None, 0)));
    assert_eq!(st.move_mon(Dir::Left, 500), Some((3, 0, 1)));
    assert_eq!(st.sel_mon, 1);
    assert_eq!(st.clients[&3].monitor, 1);
    assert!(st.monitors[1].workspaces[0].holds(3));
    assert_eq!(st.monitors[1].focus_stack, vec![3]);
    assert_eq!(st.monitors[0].focused, Some(2));
}

#[test]
fn layouts_cycle_on_every_monitor() {
    let mut st = desk();
    st.monitors.push(Monitor::new(Rect::new(1920, 0, 1280, 1024), 2));
    st.cycle_layout();
    assert!(st
        .monitors
        .iter()
        .all(|m| m.workspaces.iter().all(|w| w.layout == LayoutKind::Monocle)));
    st.cycle_layout();
    assert_eq!(st.monitors[1].workspaces[1].layout, LayoutKind::Grid);
    st.cycle_layout();
    assert_eq!(st.monitors[1].workspaces[1].layout, LayoutKind::Column);
    st.set_layout(LayoutKind::Grid);
    assert_eq!(st.monitors[0].workspaces[2].layout, LayoutKind::Grid);
}
