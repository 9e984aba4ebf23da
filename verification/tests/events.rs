use maverick::arrange::NotifyGeometry;
use maverick::atoms::{atom_names, Atoms};
use maverick::events::{
    crossing_counts, focus_change_counts, message_kind, on_mapping, read_window_opacity,
    ConfigureAnswer, ConfigureReaction, ConfigureReport, ConfigureRequest, MessageKind,
    PointerFocus, PropertyAction, PropertyReport, StateMessage, UnmapAction,
};
use maverick::geom::Rect;
use maverick::model::{Client, FullscreenPolicy, WinFlags};
use maverick::reconciler::{AppliedState, AppliedWindow};
use maverick::state::{Monitor, PendingFocus, State};
use maverick::xproto::Property;
use std::collections::HashMap;

const ROOT: u32 = 500;

fn atoms() -> Atoms {
    let ids: Vec<u32> = (0..atom_names().len() as u32).map(|i| 1000 + i).collect();
    Atoms::new(&ids).unwrap()
}

fn desk() -> State {
    let mut st = State::new();
    let mut m = Monitor::new(Rect::new(0, 0, 1920, 1080), 2);
    m.workarea = Rect::new(0, 22, 1920, 1058);
    st.monitors.push(m);
    for w in 1..=3 {
        let mut c = Client::new(w, 0, 0);
        c.geom = Rect::new(100, 100, 400, 300);
        c.border_w = 2;
        st.add_client(c);
    }
    st
}

fn with_flags(st: &mut State, win: u32, f: u16) {
    if let Some(c) = st.clients.get_mut(&win) {
        c.flags.set(f);
    }
}

fn request(window: u32, mask: u16) -> ConfigureRequest {
    ConfigureRequest { window, x: 50, y: 60, width: 640, height: 480, border_width: 5, mask }
}

#[test]
fn only_unmanaged_ordinary_windows_are_taken_on() {
    let st = desk();
    assert!(st.on_map_request(9, false));
    assert!(!st.on_map_request(9, true));
    assert!(!st.on_map_request(1, false));
}

#[test]
fn unmaps_are_told_apart() {
    let st = desk();
    let mut docks = HashMap::new();
    docks.insert(7u32, 0usize);
    assert_eq!(st.on_unmap(&docks, 1, ROOT, ROOT), UnmapAction::Ignore);
    assert_eq!(st.on_unmap(&docks, 1, 1, ROOT), UnmapAction::Unmanage);
    assert_eq!(st.on_unmap(&docks, 7, 7, ROOT), UnmapAction::ReleaseDock);
    assert_eq!(st.on_unmap(&docks, 8, 8, ROOT), UnmapAction::Ignore);
    assert_eq!(st.on_destroy(&docks, 1), (true, false));
    assert_eq!(st.on_destroy(&docks, 7), (false, true));
}

#[test]
fn a_tiled_window_is_told_where_it_is() {
    let st = desk();
    assert_eq!(
        st.on_configure_request(request(1, 31)),
        ConfigureAnswer::Reassert(NotifyGeometry {
            x: 100,
            y: 100,
            width: 400,
            height: 300,
            border_width: 2
        })
    );
}

#[test]
fn a_fullscreen_float_is_told_where_it_is() {
    let mut st = desk();
    with_flags(&mut st, 1, WinFlags::FLOAT);
    with_flags(&mut st, 1, WinFlags::FULLSCREEN);
    assert!(matches!(st.on_configure_request(request(1, 31)), ConfigureAnswer::Reassert(_)));
}

#[test]
fn a_float_gets_the_values_it_asks_for() {
    let mut st = desk();
    with_flags(&mut st, 1, WinFlags::FLOAT);
    for (mask, geom, border) in [
        (0u16, Rect::new(100, 100, 400, 300), 2u32),
        (1, Rect::new(50, 100, 400, 300), 2),
        (2, Rect::new(100, 60, 400, 300), 2),
        (4, Rect::new(100, 100, 640, 300), 2),
        (8, Rect::new(100, 100, 400, 480), 2),
        (16, Rect::new(100, 100, 400, 300), 5),
        (31, Rect::new(50, 60, 640, 480), 5),
    ] {
        assert_eq!(
            st.on_configure_request(request(1, mask)),
            ConfigureAnswer::Apply { geom, border }
        );
    }
}

#[test]
fn a_float_stays_in_the_work_area() {
    let mut st = desk();
    with_flags(&mut st, 1, WinFlags::FLOAT);
    let mut e = request(1, 31);
    e.x = -500;
    e.y = 0;
    e.width = 9000;
    e.height = 0;
    assert_eq!(
        st.on_configure_request(e),
        ConfigureAnswer::Apply { geom: Rect::new(0, 22, 1910, 1), border: 5 }
    );
}

#[test]
fn an_unmanaged_window_gets_its_request_value_by_value() {
    let st = desk();
    assert_eq!(
        st.on_configure_request(request(9, 4 | 16)),
        ConfigureAnswer::Pass {
            x: None,
            y: None,
            width: Some(640),
            height: None,
            border_width: Some(5)
        }
    );
}

fn report(window: u32, event: u32) -> ConfigureReport {
    ConfigureReport {
        response_type: 22,
        event,
        window,
        x: 7,
        y: 8,
        width: 90,
        height: 80,
        border_width: 3,
        above_sibling: 0,
    }
}

fn applied(win: u32) -> AppliedState {
    let mut a = AppliedState::default();
    a.windows.insert(
        win,
        AppliedWindow { rect: Rect::new(100, 100, 400, 300), border_w: 2, seen: true },
    );
    a
}

#[test]
fn a_wandering_tile_is_put_back() {
    let mut st = desk();
    let r = st.on_configure_notify(&applied(1), report(1, ROOT), ROOT);
    assert_eq!(
        r,
        ConfigureReaction::Observed {
            write: Some((Rect::new(100, 100, 400, 300), 2)),
            restack: Some(None)
        }
    );
    assert!(st.clients[&1].geometry_dirty);
    assert_eq!(st.clients[&1].last_reported, Some(Rect::new(7, 8, 90, 80)));
}

#[test]
fn a_wandering_float_is_followed_once() {
    let mut st = desk();
    with_flags(&mut st, 1, WinFlags::FLOAT);
    let mut a = applied(1);
    let r = st.on_configure_notify(&a, report(1, ROOT), ROOT);
    assert_eq!(
        r,
        ConfigureReaction::Observed {
            write: Some((Rect::new(7, 8, 90, 80), 3)),
            restack: Some(None)
        }
    );
    assert_eq!(st.clients[&1].geom, Rect::new(7, 8, 90, 80));
    a.diff(1, Rect::new(7, 8, 90, 80), 3, false);
    let again = st.on_configure_notify(&a, report(1, ROOT), ROOT);
    assert_eq!(again, ConfigureReaction::Observed { write: None, restack: Some(None) });
}

#[test]
fn made_up_and_second_hand_reports_are_not_acted_on() {
    let mut st = desk();
    let a = applied(1);
    let mut e = report(1, ROOT);
    e.response_type = 0x80 | 22;
    assert_eq!(st.on_configure_notify(&a, e, ROOT), ConfigureReaction::Ignore);
    assert_eq!(
        st.on_configure_notify(&a, report(1, 1), ROOT),
        ConfigureReaction::Observed { write: None, restack: None }
    );
    assert_eq!(st.on_configure_notify(&a, report(ROOT, ROOT), ROOT), ConfigureReaction::Monitors);
    let mut up = report(9, ROOT);
    up.above_sibling = 4;
    assert_eq!(
        st.on_configure_notify(&a, up, ROOT),
        ConfigureReaction::Observed { write: None, restack: Some(Some(4)) }
    );
}

#[test]
fn property_changes_are_sorted() {
    let st = desk();
    let a = atoms();
    let ask = |window: u32, atom: u32, state: u8, comp: bool| {
        st.on_property(PropertyReport { window, atom, state }, ROOT, comp, &a)
    };
    // WM_NAME is 39 and WM_HINTS 35 on every server.
    assert_eq!(ask(ROOT, 39, 0, false), PropertyAction::Status);
    assert_eq!(ask(ROOT, 39, 1, false), PropertyAction::Status);
    assert_eq!(ask(9, a.net_wm_strut, 1, false), PropertyAction::Strut);
    assert_eq!(ask(9, a.net_wm_strut_partial, 0, false), PropertyAction::Strut);
    assert_eq!(ask(1, a.net_wm_strut, 0, false), PropertyAction::Nothing);
    assert_eq!(ask(1, a.net_wm_name, 1, false), PropertyAction::Nothing);
    assert_eq!(ask(9, a.net_wm_window_opacity, 0, true), PropertyAction::Opacity);
    assert_eq!(ask(9, a.net_wm_window_opacity, 0, false), PropertyAction::Nothing);
    assert_eq!(ask(1, a.net_wm_name, 0, false), PropertyAction::Title);
    assert_eq!(ask(1, 39, 0, false), PropertyAction::Title);
    assert_eq!(ask(1, 35, 0, false), PropertyAction::Hints);
    assert_eq!(ask(9, 35, 0, false), PropertyAction::Nothing);
}

#[test]
fn opacity_is_the_first_word() {
    let bytes = 0x8000_0000u32.to_ne_bytes().to_vec();
    let p = Property { type_: 6, format: 32, value: bytes.clone() };
    assert_eq!(read_window_opacity(&Some(p)), Some(0x8000_0000));
    assert_eq!(read_window_opacity(&Some(Property { type_: 6, format: 8, value: bytes })), None);
    assert_eq!(
        read_window_opacity(&Some(Property { type_: 6, format: 32, value: vec![1, 2, 3] })),
        None
    );
    assert_eq!(read_window_opacity(&None), None);
}

#[test]
fn messages_are_sorted() {
    let a = atoms();
    assert_eq!(message_kind(a.net_wm_state, 1, &a), MessageKind::State);
    assert_eq!(message_kind(a.net_current_desktop, 4, &a), MessageKind::View(4));
    assert_eq!(message_kind(a.net_active_window, 0, &a), MessageKind::Activate);
    assert_eq!(message_kind(a.net_close_window, 0, &a), MessageKind::Close);
    assert_eq!(message_kind(77, 0, &a), MessageKind::Other);
}

fn message(action: u32, first: u32, second: u32) -> StateMessage {
    StateMessage { window: 1, action, first, second }
}

#[test]
fn state_messages_add_remove_and_toggle() {
    let a = atoms();
    let mut st = desk();
    let fs = a.net_wm_state_fullscreen;
    let r = st.on_state_message(message(1, fs, 0), &a, 700);
    assert!(!r.denied);
    assert_eq!(r.fullscreen.map(|c| c.monitor), Some(0));
    assert!(st.clients[&1].is_fullscreen());
    let r = st.on_state_message(message(1, fs, 0), &a, 700);
    assert_eq!(r.fullscreen, None);
    st.on_state_message(message(2, 0, fs), &a, 700);
    assert!(!st.clients[&1].is_fullscreen());
    st.on_state_message(message(2, 0, fs), &a, 700);
    st.on_state_message(message(0, 0, fs), &a, 700);
    assert!(!st.clients[&1].is_fullscreen());
}

#[test]
fn state_messages_name_one_axis_or_both() {
    let a = atoms();
    let mut st = desk();
    let (v, h) = (a.net_wm_state_maximized_vert, a.net_wm_state_maximized_horiz);
    let r = st.on_state_message(message(1, v, 0), &a, 700);
    assert_eq!(r.maximize.map(|m| m.monitor), Some(0));
    assert!(st.clients[&1].is_maximized_v());
    assert!(!st.clients[&1].is_maximized_h());
    st.on_state_message(message(2, v, h), &a, 700);
    assert!(!st.clients[&1].is_maximized_v());
    assert!(st.clients[&1].is_maximized_h());
    let r = st.on_state_message(message(1, h, 0), &a, 700);
    assert_eq!(r.maximize, None);
}

#[test]
fn refused_fullscreen_is_refused_every_time() {
    let a = atoms();
    let mut st = desk();
    if let Some(c) = st.clients.get_mut(&1) {
        c.fullscreen_policy = FullscreenPolicy::Deny;
    }
    for action in 0..3 {
        let r = st.on_state_message(message(action, a.net_wm_state_fullscreen, 0), &a, 700);
        assert!(r.denied);
        assert_eq!(r.fullscreen, None);
        assert!(!st.clients[&1].is_fullscreen());
    }
}

#[test]
fn attention_is_demanded() {
    let a = atoms();
    let mut st = desk();
    st.on_state_message(message(0, a.net_wm_state_demands_attention, 0), &a, 700);
    assert!(st.clients[&1].flags.has(WinFlags::URGENT));
    assert!(!st.clients[&2].flags.has(WinFlags::URGENT));
}

#[test]
fn an_overlay_is_not_robbed_of_the_focus_by_a_request() {
    let mut st = desk();
    // Window 1 is presented as an exclusive overlay; 2 is its dialog, 3 a stranger.
    if let Some(c) = st.clients.get_mut(&1) {
        c.flags.set(WinFlags::FULLSCREEN);
        c.fullscreen_policy = FullscreenPolicy::True;
    }
    if let Some(c) = st.clients.get_mut(&2) {
        c.transient_parent = Some(1);
    }
    for w in 1..=3 {
        st.monitors[0].workspaces[0].add_tiled(w, 700);
    }
    st.pending_focus = Some(PendingFocus { window: 3, owner: 1, monitor: 0, workspace: 0 });
    assert_eq!(st.presented_overlay_owner(0), Some(1));
    assert!(!st.on_activate(3));
    assert!(st.pending_focus.is_some());
    assert!(!st.on_activate(9));
    assert!(st.on_activate(2));
    assert!(st.pending_focus.is_none());
    assert!(st.on_activate(1));
    // On a workspace that is not on show the overlay does not matter.
    if let Some(c) = st.clients.get_mut(&3) {
        c.workspace = 1;
    }
    assert!(st.on_activate(3));
}

#[test]
fn a_request_does_not_switch_the_monitor() {
    let mut st = desk();
    st.monitors.push(Monitor::new(Rect::new(1920, 0, 1280, 720), 2));
    if let Some(c) = st.clients.get_mut(&2) {
        c.monitor = 1;
    }
    st.sel_mon = 0;
    assert!(!st.on_activate(2));
    assert!(st.on_activate(1));
    st.focus_start(Some(1));
    assert_eq!(st.sel_mon, 0);
    st.sel_mon = 1;
    assert!(st.on_activate(2));
    assert!(!st.on_activate(1));
}

#[test]
fn grabs_and_children_move_neither_pointer_nor_focus() {
    assert!(crossing_counts(0, 0));
    assert!(!crossing_counts(1, 0));
    assert!(!crossing_counts(0, 2));
    assert!(crossing_counts(0, 5));
    assert!(focus_change_counts(0, 3));
    assert!(!focus_change_counts(2, 3));
    assert!(!focus_change_counts(0, 2));
    assert!(!focus_change_counts(0, 5));
}

#[test]
fn the_pointer_is_ignored_right_after_a_key() {
    let mut st = desk();
    st.monitors[0].focused = Some(1);
    let mut p = PointerFocus { enabled: true, guard_until: None };
    assert_eq!(st.on_enter(&p, 1000, Some(2)), Some(2));
    assert_eq!(st.on_enter(&p, 1000, Some(1)), None);
    assert_eq!(st.on_enter(&p, 1000, None), None);
    p.guard(1000);
    assert_eq!(st.on_enter(&p, 1049, Some(2)), None);
    assert_eq!(st.on_enter(&p, 1050, Some(2)), Some(2));
    p.guard(1000);
    p.lift();
    assert_eq!(st.on_enter(&p, 1001, Some(2)), Some(2));
    p.enabled = false;
    assert_eq!(st.on_enter(&p, 5000, Some(2)), None);
}

#[test]
fn the_mirror_of_the_input_focus_follows_the_server() {
    let mut st = desk();
    st.on_focus_in(2, ROOT);
    assert_eq!(st.x11_input_focus, Some(2));
    st.on_focus_out(1);
    assert_eq!(st.x11_input_focus, Some(2));
    st.on_focus_out(2);
    assert_eq!(st.x11_input_focus, None);
    st.on_focus_in(2, ROOT);
    st.on_focus_in(ROOT, ROOT);
    assert_eq!(st.x11_input_focus, None);
}

#[test]
fn only_keyboard_mappings_matter() {
    assert!(on_mapping(0));
    assert!(on_mapping(1));
    assert!(!on_mapping(2));
}
