use maverick::actions::Followup;
use maverick::arrange::{
    hide_step, notify_geometry, EmitStyle, HideStep, NotifyGeometry, RoundMask, StackMemo,
};
use maverick::config::{Action, Dir};
use maverick::floats::{clamp_i32, rounded_rectangles, Rectangle};
use maverick::ewmh::HubEvent;
use maverick::focus::{focus_announcement, observed_focus, warp_point, FocusRepair, FocusStart, FocusTarget};
use maverick::geom::Rect;
use maverick::model::{Client, FullscreenPolicy, LayoutKind, WinFlags};
use maverick::monitors::{match_monitors, TopologyChange};
use maverick::overlay::{order_by_focus, tiled_windows, workspace_windows};
use maverick::reconciler::{AppliedState, DesiredState, DesiredWindow};
use maverick::state::{Monitor, State};

const ROOT: u32 = 500;

fn desk() -> State {
    let mut st = State::new();
    st.monitors.push(Monitor::new(Rect::new(0, 0, 1920, 1080), 2));
    for w in 1..=4 {
        let mut c = Client::new(w, 0, 0);
        c.geom = Rect::new(100, 100, 400, 300);
        c.border_w = 2;
        st.add_client(c);
    }
    st.monitors[0].workspaces[0].add_tiled(1, 700);
    st.monitors[0].workspaces[0].add_tiled(2, 700);
    st.monitors[0].workspaces[0].add_float(3);
    if let Some(c) = st.clients.get_mut(&3) {
        c.flags.set(WinFlags::FLOAT);
    }
    st.monitors[0].workspaces[1].add_tiled(4, 700);
    if let Some(c) = st.clients.get_mut(&4) {
        c.workspace = 1;
    }
    for w in [3, 2, 1] {
        st.monitors[0].note_focus(w);
    }
    st
}

fn set(st: &mut State, win: u32, f: u16) {
    if let Some(c) = st.clients.get_mut(&win) {
        c.flags.set(f);
    }
}

fn plain() -> EmitStyle {
    EmitStyle { corner_radius: 0, composited: false }
}

#[test]
fn floats_are_raised_and_an_overlay_above_them() {
    let mut st = desk();
    assert_eq!(st.stack_order(0, &vec![]), vec![3]);
    set(&mut st, 1, WinFlags::FULLSCREEN);
    if let Some(c) = st.clients.get_mut(&1) {
        c.fullscreen_policy = FullscreenPolicy::True;
    }
    assert_eq!(st.presented_windows(0), vec![1]);
    assert_eq!(st.presented_overlay_owner(0), Some(1));
    assert_eq!(st.stack_order(0, &vec![9]), vec![3, 9, 1]);
    if let Some(c) = st.clients.get_mut(&3) {
        c.transient_parent = Some(1);
    }
    assert_eq!(st.stack_order(0, &vec![]), vec![3, 1, 3]);
}

#[test]
fn an_unchanged_stack_is_left_alone() {
    let st = desk();
    let mut memo = StackMemo { order: None, covering: None };
    let first = st.plan_stack(0, &vec![], true, &mut memo);
    assert_eq!(first.raise, vec![3]);
    let again = st.plan_stack(0, &vec![], true, &mut memo);
    assert!(again.raise.is_empty() && again.lower.is_none() && again.cover.is_none());
}

#[test]
fn a_fullscreen_tile_covers_while_the_camera_rests() {
    let mut st = desk();
    set(&mut st, 1, WinFlags::FULLSCREEN);
    assert_eq!(st.covering_fullscreen_window(0), None);
    st.monitors[0].workspaces[0].focus_tile(1);
    assert_eq!(st.covering_fullscreen_window(0), Some(1));
    assert!(st.presented_windows(0).is_empty());
    let mut memo = StackMemo { order: None, covering: None };
    let p = st.plan_stack(0, &vec![], true, &mut memo);
    assert_eq!((p.cover, p.lower), (Some(1), None));
    let again = st.plan_stack(0, &vec![], true, &mut memo);
    assert!(again.raise.is_empty() && again.cover.is_none() && again.lower.is_none());
    let q = st.plan_stack(0, &vec![], false, &mut memo);
    assert_eq!((q.cover, q.lower), (None, Some(1)));
    st.monitors[0].workspaces[0].layout = LayoutKind::Grid;
    assert_eq!(st.covering_fullscreen_window(0), None);
    assert_eq!(st.presented_windows(0), vec![1]);
}

#[test]
fn overlays_are_ordered_by_focus() {
    assert_eq!(order_by_focus(&vec![1, 2, 3], &vec![3, 1, 2]), vec![3, 1, 2]);
    let st = desk();
    let ws = &st.monitors[0].workspaces[0];
    assert_eq!(tiled_windows(ws), vec![1, 2]);
    assert_eq!(workspace_windows(ws), vec![1, 2, 3]);
}

#[test]
fn a_focused_maximized_window_is_presented() {
    let mut st = desk();
    set(&mut st, 1, WinFlags::MAXIMIZED_V);
    st.sync_presented_maximize(0);
    assert_eq!(st.monitors[0].workspaces[0].presented_maximize, Some(1));
    assert_eq!(st.presented_windows(0), vec![1]);
    st.monitors[0].note_focus(2);
    st.sync_presented_maximize(0);
    assert_eq!(st.monitors[0].workspaces[0].presented_maximize, None);
}

#[test]
fn sticky_windows_are_on_every_workspace() {
    let mut st = desk();
    set(&mut st, 4, WinFlags::STICKY);
    assert_eq!(st.sticky_windows(0), vec![4]);
    let plan = st.hide_plan(0);
    assert!(plan.iter().all(|(w, s)| *w != 4 || *s == HideStep::Keep));
}

#[test]
fn windows_of_other_workspaces_leave_the_screen() {
    let st = desk();
    let mut hidden: Vec<(u32, HideStep)> =
        st.hide_plan(0).into_iter().filter(|(_, s)| *s != HideStep::Keep).collect();
    hidden.sort_by_key(|(w, _)| *w);
    assert_eq!(
        hidden,
        vec![(
            4,
            HideStep::Hide { rect: Rect::new(-600, 100, 400, 300), border: 2, other_ws: true }
        )]
    );
    let mut c = Client::new(1, 0, 0);
    c.geom = Rect::new(10, 10, u32::MAX, 5);
    assert_eq!(
        hide_step(&c, false, 0),
        HideStep::Hide { rect: Rect::new(-i32::MAX, 10, u32::MAX, 5), border: 0, other_ws: false }
    );
    c.wm_hidden = true;
    assert_eq!(hide_step(&c, false, 0), HideStep::Keep);
    assert_eq!(hide_step(&c, true, 0), HideStep::Show { rect: c.geom, border: 0 });
}

#[test]
fn reported_geometry_is_pinned_to_the_protocol() {
    assert_eq!(
        notify_geometry(Rect::new(-40000, 40000, 70000, 5), 3),
        NotifyGeometry { x: -32768, y: 32767, width: 65535, height: 5, border_width: 3 }
    );
}

#[test]
fn geometry_is_sent_once() {
    let mut st = desk();
    let mut applied = AppliedState::default();
    let g = Rect::new(5, 6, 70, 80);
    st.monitors[0].layout_dirty = false;
    let e = st.apply_geom(&mut applied, 1, g, 2, true, plain()).unwrap();
    assert_eq!((e.win, e.rect, e.border, e.round), (1, g, 2, None));
    assert_eq!(st.clients[&1].geom, g);
    assert!(st.monitors[0].layout_dirty);
    assert!(st.apply_geom(&mut applied, 1, g, 2, true, plain()).is_none());
    let away = Rect::new(-600, 6, 70, 80);
    assert!(st.apply_geom(&mut applied, 1, away, 2, false, plain()).is_some());
    assert_eq!(st.clients[&1].geom, g);
    assert!(st.emit_geometry(99, g, 2, true, plain()).is_none());
}

#[test]
fn corners_are_rounded_but_not_in_fullscreen() {
    let mut st = desk();
    let style = EmitStyle { corner_radius: 8, composited: false };
    let g = Rect::new(0, 0, 100, 50);
    let e = st.emit_geometry(1, g, 2, true, style).unwrap();
    assert_eq!(e.round, Some(RoundMask { outer_w: 104, outer_h: 54, radius: 8 }));
    set(&mut st, 2, WinFlags::FULLSCREEN);
    let f = st.emit_geometry(2, g, 0, true, style).unwrap();
    assert_eq!(f.round, Some(RoundMask { outer_w: 100, outer_h: 50, radius: 0 }));
    let composited = EmitStyle { corner_radius: 8, composited: true };
    assert_eq!(st.emit_geometry(1, g, 2, true, composited).unwrap().round, None);
}

#[test]
fn what_is_desired_is_applied_and_noted() {
    let mut st = desk();
    let mut applied = AppliedState::default();
    let rect = Rect::new(1, 2, 30, 40);
    let desired = DesiredState {
        windows: vec![DesiredWindow { window: 1, rect, border: 2, mapped: true }],
        raise: vec![],
    };
    let sent = st.apply_desired(&desired, &mut applied, plain());
    assert_eq!(sent.len(), 1);
    assert_eq!(st.clients[&1].last_desired, Some(rect));
    assert!(st.apply_desired(&desired, &mut applied, plain()).is_empty());
}

#[test]
fn floats_outside_the_work_area_are_found() {
    let mut st = desk();
    if let Some(c) = st.clients.get_mut(&3) {
        c.geom = Rect::new(1800, 100, 400, 300);
    }
    let moves = vec![(3, Rect::new(1516, 100, 400, 300), 2)];
    assert_eq!(st.misplaced_floats(0, &vec![1, 2, 3]), moves);
    assert_eq!(st.reposition_floats(0), moves);
    set(&mut st, 4, WinFlags::STICKY);
    assert_eq!(st.monitor_floats(0, &vec![4]), vec![3]);
    set(&mut st, 4, WinFlags::FLOAT);
    assert_eq!(st.monitor_floats(0, &vec![4]), vec![3, 4]);
}

#[test]
fn a_focus_request_goes_in_two_steps() {
    let mut st = desk();
    set(&mut st, 2, WinFlags::URGENT);
    assert_eq!(
        st.focus_start(Some(2)),
        FocusStart::Window {
            win: 2,
            mon: 0,
            unfocus: Some(1),
            wants_input: true,
            urgent: true,
            announce: Some(HubEvent::FocusChanged { from: Some(1), to: Some(2) }),
        }
    );
    assert_eq!(st.logical_focus(), Some(2));
    assert!(st.focus_finish(2, 0));
    assert!(!st.clients[&2].flags.has(WinFlags::URGENT));
    assert!(st.clients[&2].focus_serial > 0);
    set(&mut st, 1, WinFlags::NO_FOCUS);
    assert_eq!(st.focus_start(Some(1)), FocusStart::Refused);
    assert_eq!(st.logical_focus(), Some(2));
    assert_eq!(
        st.focus_start(Some(2)),
        FocusStart::Window {
            win: 2,
            mon: 0,
            unfocus: None,
            wants_input: true,
            urgent: false,
            announce: None,
        }
    );
    assert_eq!(
        st.focus_start(None),
        FocusStart::Root {
            unfocus: Some(2),
            announce: Some(HubEvent::FocusChanged { from: Some(2), to: None }),
        }
    );
    assert_eq!(st.focus_start(Some(77)), FocusStart::Root { unfocus: None, announce: None });
    assert_eq!(focus_announcement(Some(3), Some(3)), None);
    assert_eq!(st.logical_focus(), None);
}

#[test]
fn a_strayed_focus_is_brought_back() {
    let mut st = desk();
    assert_eq!(st.reconcile_focus(Some(1), ROOT), FocusRepair::Settled);
    assert_eq!(
        st.reconcile_focus(Some(2), ROOT),
        FocusRepair::Assert {
            target: FocusTarget::Window { win: 1, wants_input: true, urgent: false },
            repaint: Some(2)
        }
    );
    st.monitors[0].focused = None;
    assert_eq!(
        st.reconcile_focus(Some(2), ROOT),
        FocusRepair::Assert { target: FocusTarget::Root, repaint: Some(2) }
    );
    st.monitors[0].focused = Some(99);
    assert_eq!(
        st.reconcile_focus(None, ROOT),
        FocusRepair::Assert { target: FocusTarget::Nowhere, repaint: None }
    );
}

#[test]
fn an_overlay_keeps_its_input() {
    let mut st = desk();
    set(&mut st, 2, WinFlags::FULLSCREEN);
    if let Some(c) = st.clients.get_mut(&2) {
        c.fullscreen_policy = FullscreenPolicy::True;
    }
    assert_eq!(st.reconcile_focus(Some(2), ROOT), FocusRepair::Yield);
}

#[test]
fn the_servers_focus_is_read() {
    assert_eq!(observed_focus(Some(7), ROOT, None), Some(7));
    assert_eq!(observed_focus(Some(ROOT), ROOT, Some(7)), None);
    assert_eq!(observed_focus(Some(0), ROOT, Some(7)), None);
    assert_eq!(observed_focus(None, ROOT, Some(7)), Some(7));
}

#[test]
fn the_best_window_takes_the_focus_over() {
    let mut st = desk();
    assert_eq!(st.best_focus(0), Some(2));
    st.monitors[0].workspaces[0].columns.clear();
    assert_eq!(st.best_focus(0), Some(1));
    st.unmanage(1);
    st.unmanage(2);
    assert_eq!(st.best_focus(0), Some(3));
}

#[test]
fn the_pointer_is_warped_to_the_middle() {
    assert_eq!(warp_point(Rect::new(0, 0, 100, 51)), (50, 25));
}

#[test]
fn focus_finds_the_column_of_a_window() {
    let mut st = desk();
    assert_eq!(st.monitors[0].workspaces[0].column_position(2), Some(1));
    assert_eq!(st.monitors[0].workspaces[0].column_position(3), None);
    assert!(st.monitors[0].workspaces[0].focus_tile(1));
    assert_eq!(st.monitors[0].workspaces[0].focus.column_idx, 0);
    assert!(!st.monitors[0].workspaces[0].focus_tile(9));
    assert_eq!(st.retarget_focus(2), Some(0));
    assert_eq!(st.monitors[0].workspaces[0].focus.column_idx, 1);
}

#[test]
fn rounded_shapes_stay_in_their_box() {
    assert_eq!(
        rounded_rectangles(10, 6, 0),
        vec![Rectangle { x: 0, y: 0, width: 10, height: 6 }]
    );
    let r = rounded_rectangles(20, 20, 4);
    for b in &r {
        assert!(b.x >= 0 && b.y >= 0);
        assert!(b.x as i32 + b.width as i32 <= 20 && b.y as i32 + b.height as i32 <= 20);
    }
    assert!(r.contains(&Rectangle { x: 0, y: 4, width: 20, height: 12 }));
    assert_eq!(clamp_i32(5, 0, 3), 3);
    assert_eq!(clamp_i32(-5, 0, 3), 0);
}

#[test]
fn topology_changes_are_told_apart() {
    let st = desk();
    let same = vec![Monitor::new(Rect::new(0, 0, 1920, 1080), 2)];
    assert_eq!(st.topology_change(&same), TopologyChange::Unchanged);
    let bigger = vec![Monitor::new(Rect::new(0, 0, 2560, 1440), 2)];
    assert_eq!(st.topology_change(&bigger), TopologyChange::Geometry);
    let two = vec![
        Monitor::new(Rect::new(0, 0, 1920, 1080), 2),
        Monitor::new(Rect::new(1920, 0, 800, 600), 2),
    ];
    assert_eq!(st.topology_change(&two), TopologyChange::Count);
    assert_eq!(match_monitors(&two, &same), vec![Some(0), None]);
}

#[test]
fn a_resized_monitor_keeps_its_windows() {
    let mut st = desk();
    let bigger = || vec![Monitor::new(Rect::new(0, 0, 2560, 1440), 2)];
    assert_eq!(st.handle_monitor_change(bigger(), 700), TopologyChange::Geometry);
    assert_eq!(st.handle_monitor_change(bigger(), 700), TopologyChange::Unchanged);
    assert_eq!(st.monitors[0].screen, Rect::new(0, 0, 2560, 1440));
    assert!(st.monitors[0].workspaces[0].holds(1));
    assert_eq!(st.monitors[0].focused, Some(1));
}

#[test]
fn an_unplugged_monitors_windows_move() {
    let mut st = desk();
    st.monitors.push(Monitor::new(Rect::new(1920, 0, 800, 600), 2));
    let mut c = Client::new(5, 1, 1);
    c.flags.set(WinFlags::FLOAT);
    st.add_client(c);
    st.monitors[1].workspaces[1].add_float(5);
    st.sel_mon = 1;
    let left = vec![Monitor::new(Rect::new(0, 0, 1920, 1080), 2)];
    assert_eq!(st.handle_monitor_change(left, 700), TopologyChange::Count);
    assert_eq!(st.monitors.len(), 1);
    assert_eq!(st.sel_mon, 0);
    assert_eq!((st.clients[&5].monitor, st.clients[&5].workspace), (0, 1));
    assert!(st.monitors[0].workspaces[1].holds(5));
    assert!(st.monitors[0].workspaces[0].holds(1));
}

#[test]
fn a_plugged_monitor_keeps_the_others_as_they_are() {
    let mut st = desk();
    let both = vec![
        Monitor::new(Rect::new(-800, 0, 800, 600), 2),
        Monitor::new(Rect::new(0, 0, 1920, 1080), 2),
    ];
    assert_eq!(st.handle_monitor_change(both, 700), TopologyChange::Count);
    assert_eq!(st.sel_mon, 1);
    assert_eq!(st.clients[&1].monitor, 1);
    assert!(st.monitors[1].workspaces[0].holds(1));
    assert!(st.monitors[0].workspaces[0].is_empty());
    assert_eq!(st.monitors[1].focused, Some(1));
}

#[test]
fn actions_change_the_state_and_leave_the_rest() {
    let mut st = desk();
    let line = Action::Spawn(vec!["xterm".to_string()]);
    assert_eq!(st.do_action(&line, 700), Followup::Spawn);
    assert_eq!(st.do_action(&Action::Kill, 700), Followup::Kill(1));
    assert_eq!(st.do_action(&Action::View(1), 700), Followup::Viewed(1));
    assert_eq!(st.monitors[0].active_ws, 1);
    assert_eq!(st.do_action(&Action::View(1), 700), Followup::Nothing);
    st.do_action(&Action::View(0), 700);
    assert_eq!(st.do_action(&Action::MoveToWs(1), 700), Followup::Sent(1, 1));
    assert!(st.monitors[0].workspaces[1].holds(1));
    assert_eq!(st.do_action(&Action::ToggleFloat, 700), Followup::Arrange(0));
    assert!(st.clients[&2].is_float());
    assert_eq!(st.do_action(&Action::FocusMon(Dir::Next), 700), Followup::Nothing);
    assert_eq!(st.do_action(&Action::CycleLayout, 700), Followup::ArrangeAll);
    assert_eq!(st.monitors[0].workspaces[0].layout, LayoutKind::Monocle);
    assert_eq!(st.do_action(&Action::ToggleBar, 700), Followup::Bar(0));
    assert_eq!(st.do_action(&Action::MoveDir(Dir::Left), 700), Followup::Move(Dir::Left));
    assert_eq!(st.do_action(&Action::PageSnap(Dir::Right), 700), Followup::Page(Dir::Right));
    assert_eq!(st.do_action(&Action::Restart, 700), Followup::Restart);
    assert_eq!(st.do_action(&Action::QuitConfirm, 700), Followup::AskToStop);
    st.running = true;
    assert_eq!(st.do_action(&Action::Quit, 700), Followup::Stop);
    assert!(!st.running);
    assert_eq!(st.clients.len(), 4);
}

#[test]
fn actions_on_columns_and_fullscreen() {
    let mut st = desk();
    assert!(matches!(st.do_action(&Action::FocusDir(Dir::Left), 700), Followup::Focus(_)));
    assert_eq!(st.do_action(&Action::GrowCol(50), 700), Followup::Arrange(0));
    assert_eq!(st.do_action(&Action::NewColumn, 700), Followup::NewColumn(1));
    assert_eq!(st.do_action(&Action::CollapseColumn, 700), Followup::Arrange(0));
    assert!(matches!(
        st.do_action(&Action::ToggleFullscreen, 700),
        Followup::Fullscreen(1, _)
    ));
    assert!(st.clients[&1].is_fullscreen());
    assert_eq!(st.do_action(&Action::SetLayout(LayoutKind::Grid), 700), Followup::ArrangeAll);
}
