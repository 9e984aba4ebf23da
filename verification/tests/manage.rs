use maverick::atoms::{atom_names, Atoms};
use maverick::config::{compiled_config, Cfg, Rule};
use maverick::geom::Rect;
use maverick::lifecycle::Unmanaged;
use maverick::manage::{
    apply_rule_geometry, apply_rules, center_float, detect_portal, detect_portal_by, new_client,
    Arrival, WindowReplies,
};
use maverick::model::{Client, FullscreenPolicy, SizeHints, WinFlags};
use maverick::pointer::ClickOutcome;
use maverick::props::{
    flags_with_state, read_class, read_float_prefs, read_size_hints, read_title_value,
    read_wm_hints_value, reply_atoms, reply_words, strip_initial_state, transient_for,
    window_type_name, window_types, write_net_wm_state, PrefsWrite, WmHints,
};
use maverick::state::{Monitor, PendingFocus, State};
use maverick::xproto::Property;

const ROOT: u32 = 500;

fn atoms() -> Atoms {
    let ids: Vec<u32> = (0..atom_names().len() as u32).map(|i| 1000 + i).collect();
    Atoms::new(&ids).unwrap()
}

fn words(type_: u32, v: &[u32]) -> Option<Property> {
    let mut value = Vec::new();
    for w in v {
        value.extend_from_slice(&w.to_ne_bytes());
    }
    Some(Property { type_, format: 32, value })
}

fn bytes(v: &[u8]) -> Option<Property> {
    Some(Property { type_: 31, format: 8, value: v.to_vec() })
}

fn no_replies() -> WindowReplies {
    WindowReplies {
        net_name: None,
        wm_name: None,
        class: None,
        types: None,
        state: None,
        hints: None,
        size: None,
    }
}

fn arrival(win: u32) -> Arrival {
    Arrival { win, monitor: 0, workspace: 1, geom: Rect::new(10, 20, 300, 200), border_w: 2 }
}

fn desk() -> State {
    let mut st = State::new();
    let mut m = Monitor::new(Rect::new(0, 0, 1920, 1080), 2);
    m.workarea = Rect::new(0, 80, 1920, 1000);
    st.monitors.push(m);
    st
}

fn plain() -> Cfg {
    Cfg::default()
}

fn manage(st: &mut State, win: u32, parent: Option<u32>) -> maverick::lifecycle::Managed {
    let mut c = Client::new(win, 0, 0);
    c.geom = Rect::new(0, 0, 300, 200);
    st.manage(c, parent, (false, None), &plain())
}

#[test]
fn atoms_come_in_the_order_of_their_names() {
    let a = atoms();
    let names = atom_names();
    assert_eq!(names[0], "WM_PROTOCOLS");
    assert_eq!(a.wm_protocols, 1000);
    assert_eq!(a.utf8_string, 1000 + names.len() as u32 - 1);
    assert!(Atoms::new(&[1, 2, 3]).is_none());
    for atom in a.supported_list() {
        assert!((1000..1000 + names.len() as u32).contains(&atom));
    }
    assert!(a.supported_list().contains(&a.net_wm_state_fullscreen));
    assert!(!a.supported_list().contains(&a.wm_protocols));
}

#[test]
fn replies_are_read_by_type_and_format() {
    assert_eq!(reply_words(&words(9, &[7, 8])), Some(vec![7, 8]));
    assert_eq!(reply_words(&bytes(b"abcd")), None);
    assert_eq!(reply_words(&None), None);
    assert_eq!(reply_atoms(&words(4, &[7, 8])), vec![7, 8]);
    assert!(reply_atoms(&words(6, &[7, 8])).is_empty());
}

#[test]
fn window_types_are_named_and_sorted_out() {
    let a = atoms();
    assert_eq!(window_type_name(&a, a.net_wm_window_type_menu), Some("menu"));
    assert_eq!(window_type_name(&a, 1), None);
    let t = window_types(&a, &[a.net_wm_window_type_dialog, 1]);
    assert_eq!(t.names, vec!["dialog".to_string()]);
    assert!(t.floats && !t.unmanaged);
    let d = window_types(&a, &[a.net_wm_window_type_dock]);
    assert!(d.unmanaged && !d.floats);
    let n = window_types(&a, &[]);
    assert!(!n.unmanaged && !n.floats && n.names.is_empty());
}

#[test]
fn the_initial_state_sets_flags() {
    let a = atoms();
    let f = flags_with_state(
        &a,
        WinFlags { bits: 0 },
        &[a.net_wm_state_fullscreen, a.net_wm_state_modal],
    );
    assert!(f.has(WinFlags::FULLSCREEN) && f.has(WinFlags::FLOAT));
    assert!(!f.has(WinFlags::MAXIMIZED_V) && !f.has(WinFlags::MAXIMIZED_H));
}

#[test]
fn hints_tell_input_and_urgency() {
    assert_eq!(
        read_wm_hints_value(&Some(vec![1, 0])),
        Some(WmHints { no_focus: true, wants_input: false, urgent: false })
    );
    assert_eq!(
        read_wm_hints_value(&Some(vec![257, 1])),
        Some(WmHints { no_focus: false, wants_input: true, urgent: true })
    );
    assert_eq!(
        read_wm_hints_value(&Some(vec![1])),
        Some(WmHints { no_focus: false, wants_input: true, urgent: false })
    );
    assert_eq!(read_wm_hints_value(&Some(vec![])), None);
    assert_eq!(read_wm_hints_value(&None), None);
}

#[test]
fn size_hints_are_read_by_their_flags() {
    let mut v = vec![0u32; 18];
    v[0] = 16 | 32 | 64 | 128 | 256;
    for (i, w) in v.iter_mut().enumerate().skip(7) {
        *w = i as u32;
    }
    v[16] = 0;
    assert_eq!(
        read_size_hints(&Some(v.clone())),
        Some(SizeHints {
            min_w: 9,
            min_h: 10,
            max_w: 11,
            max_h: 12,
            inc_w: 13,
            inc_h: 14,
            base_w: 7,
            base_h: 8,
            min_aspect_num: 15,
            max_aspect_num: 17,
            aspect_den: 1,
            valid: true,
        })
    );
    v[0] = 0;
    assert_eq!(
        read_size_hints(&Some(v.clone())),
        Some(SizeHints { valid: true, ..SizeHints::default() })
    );
    v.pop();
    assert_eq!(read_size_hints(&Some(v)), None);
}

#[test]
fn a_window_of_one_size_floats() {
    let mut c = Client::new(1, 0, 0);
    c.take_size_hints(Some(SizeHints {
        min_w: 300,
        min_h: 200,
        max_w: 300,
        max_h: 200,
        valid: true,
        ..SizeHints::default()
    }));
    assert!(c.is_float() && c.flags.has(WinFlags::FIXED));
    let mut d = Client::new(1, 0, 0);
    d.take_size_hints(Some(SizeHints { min_w: 300, max_w: 300, ..SizeHints::default() }));
    assert!(!d.is_float());
}

#[test]
fn titles_prefer_the_newer_property() {
    let net = bytes(b"new");
    let old = bytes(b"old\xff");
    assert_eq!(read_title_value(&net, &old), Some("new".to_string()));
    assert_eq!(read_title_value(&bytes(b""), &old), Some("old\u{fffd}".to_string()));
    assert_eq!(read_title_value(&None, &None), None);
}

#[test]
fn classes_are_two_texts() {
    let p = bytes(b"navigator\0Firefox\0");
    assert_eq!(read_class(&p), ("navigator".to_string(), "Firefox".to_string()));
    assert_eq!(read_class(&bytes(b"xterm")), ("xterm".to_string(), String::new()));
    assert_eq!(read_class(&None), (String::new(), String::new()));
}

#[test]
fn a_parent_is_neither_none_nor_the_root() {
    assert_eq!(transient_for(&Some(vec![7]), ROOT), Some(7));
    assert_eq!(transient_for(&Some(vec![0]), ROOT), None);
    assert_eq!(transient_for(&Some(vec![ROOT]), ROOT), None);
    assert_eq!(transient_for(&None, ROOT), None);
}

#[test]
fn a_new_client_is_what_its_properties_say() {
    let a = atoms();
    let r = WindowReplies {
        wm_name: bytes(b"Editor"),
        class: bytes(b"ed\0Editor\0"),
        types: words(4, &[a.net_wm_window_type_utility]),
        state: words(4, &[a.net_wm_state_maximized_vert]),
        hints: words(35, &[257, 0]),
        ..no_replies()
    };
    let c = new_client(arrival(7), &a, &r);
    assert_eq!((c.window, c.monitor, c.workspace, c.border_w), (7, 0, 1, 2));
    assert_eq!(c.geom, Rect::new(10, 20, 300, 200));
    assert_eq!(c.saved_geom, c.geom);
    assert_eq!((c.name.as_str(), c.instance.as_str(), c.class.as_str()), ("Editor", "ed", "Editor"));
    assert_eq!(c.window_types, vec!["utility".to_string()]);
    assert!(c.is_float() && c.is_maximized_v() && !c.is_maximized_h());
    assert!(c.no_focus() && !c.wants_input && c.flags.has(WinFlags::URGENT));
    let bare = new_client(arrival(8), &a, &no_replies());
    assert_eq!(bare.flags.bits, 0);
    assert!(bare.wants_input && !bare.is_unmanaged && bare.name.is_empty());
}

#[test]
fn rules_shape_a_client() {
    let mut c = Client::new(1, 0, 0);
    c.class = "Gimp".to_string();
    c.flags.set(WinFlags::FULLSCREEN);
    c.flags.set(WinFlags::MAXIMIZED_H);
    let rules = vec![
        Rule {
            class: Some("gimp".to_string()),
            sticky: true,
            ws: Some(1),
            ignore_initial_state: true,
            deny_fullscreen: true,
            border_w: Some(7),
            opacity: Some(0x8000_0000),
            ..Rule::default()
        },
        Rule { class: Some("other".to_string()), border_w: Some(9), ..Rule::default() },
    ];
    assert!(apply_rules(&mut c, &rules, Some(2)));
    assert!(c.is_float() && c.is_sticky());
    assert!(!c.is_fullscreen() && !c.is_maximized());
    assert_eq!((c.workspace, c.border_w, c.opacity), (1, 7, Some(0x8000_0000)));
    assert_eq!(c.fullscreen_policy, FullscreenPolicy::Deny);
}

#[test]
fn true_fullscreen_wins_over_denial() {
    let both =
        Rule { true_fullscreen: true, deny_fullscreen: true, ..Rule::default() };
    let deny = Rule { deny_fullscreen: true, ..Rule::default() };
    let mut c = Client::new(1, 0, 0);
    assert!(!apply_rules(&mut c, &vec![both, deny], Some(1)));
    assert_eq!(c.fullscreen_policy, FullscreenPolicy::True);
}

#[test]
fn a_rule_for_a_missing_workspace_is_no_move() {
    let mut c = Client::new(1, 0, 0);
    let far = Rule { ws: Some(5), ..Rule::default() };
    apply_rules(&mut c, &vec![far], Some(2));
    assert_eq!(c.workspace, 0);
}

#[test]
fn portals_and_file_dialogs_float() {
    let mut c = Client::new(1, 0, 0);
    c.name = "SAVE FILE as".to_string();
    c.border_w = 2;
    detect_portal(&mut c);
    assert!(c.is_float());
    assert_eq!(c.border_w, 2);
    let mut f = Client::new(2, 0, 0);
    f.class = "Flameshot".to_string();
    f.border_w = 2;
    detect_portal(&mut f);
    assert!(f.is_float());
    assert_eq!(f.border_w, 0);
    let mut p = Client::new(3, 0, 0);
    detect_portal_by(&mut p, "terminal", "shell");
    assert!(!p.is_float());
}

#[test]
fn floats_are_centered_and_kept_in_the_work_area() {
    let g = Rect::new(0, 0, 300, 200);
    let wa = Rect::new(0, 80, 1920, 1000);
    assert_eq!(center_float(g, wa, Some(wa)), Rect::new(810, 480, 300, 200));
    let parent = Rect::new(1800, 1000, 400, 300);
    assert_eq!(center_float(g, parent, Some(wa)), Rect::new(1620, 880, 300, 200));
    assert_eq!(center_float(g, parent, None), Rect::new(1850, 1050, 300, 200));
    let huge = Rect::new(0, 0, 4000, 3000);
    assert_eq!(center_float(huge, wa, Some(wa)), Rect::new(0, 80, 4000, 3000));
}

#[test]
fn rule_geometry_is_clamped() {
    let wa = Rect::new(0, 80, 1920, 1000);
    let r = Rule { size: Some((2500, 400)), position: Some((50, 900)), ..Rule::default() };
    let mut c = Client::new(1, 0, 0);
    c.flags.set(WinFlags::FLOAT);
    apply_rule_geometry(&mut c, &vec![r], wa);
    assert_eq!(c.geom, Rect::new(0, 680, 1920, 400));
    assert_eq!(c.saved_geom, c.geom);
    let mut t = Client::new(2, 0, 0);
    let s = Rule { size: Some((10, 10)), ..Rule::default() };
    apply_rule_geometry(&mut t, &vec![s], wa);
    assert_eq!(t.geom, Rect::new(0, 0, 0, 0));
}

#[test]
fn a_persisted_float_comes_back() {
    let mut c = Client::new(1, 0, 0);
    c.flags.set(WinFlags::FLOAT);
    for g in [Rect::new(40, 50, 300, 200), Rect::new(-5, -1200, 300, 200)] {
        c.geom = g;
        match c.window_prefs() {
            PrefsWrite::Float { geom } => {
                assert_eq!(read_float_prefs(&Some(vec![1]), &Some(geom)), (true, Some(g)));
            }
            other => panic!("{other:?}"),
        }
    }
    assert_eq!(read_float_prefs(&Some(vec![1]), &Some(vec![1, 2, 3])), (true, None));
    assert_eq!(read_float_prefs(&Some(vec![0]), &Some(vec![1, 2, 3, 4])), (false, None));
    assert_eq!(read_float_prefs(&None, &None), (false, None));
    assert!(matches!(Client::new(2, 0, 0).window_prefs(), PrefsWrite::Clear));
}

#[test]
fn the_written_state_keeps_foreign_atoms() {
    let a = atoms();
    let mut f = WinFlags { bits: 0 };
    f.set(WinFlags::MAXIMIZED_V);
    f.set(WinFlags::URGENT);
    let had = [77, a.net_wm_state_fullscreen, a.net_wm_state_maximized_vert];
    let v = write_net_wm_state(&a, f, &had);
    assert_eq!(v, vec![77, a.net_wm_state_maximized_vert, a.net_wm_state_demands_attention]);
    assert_eq!(write_net_wm_state(&a, f, &v), v);
    assert_eq!(
        strip_initial_state(&a, &[77, a.net_wm_state_fullscreen, a.net_wm_state_demands_attention]),
        vec![77, a.net_wm_state_demands_attention]
    );
}

#[test]
fn a_managed_window_joins_its_workspace() {
    let mut st = desk();
    let m = manage(&mut st, 1, None);
    assert!(m.focus && !m.floats && !m.strip_state && m.first);
    assert_eq!((m.monitor, m.workspace), (0, 0));
    assert!(st.monitors[0].workspaces[0].holds(1));
    let d = manage(&mut st, 2, Some(1));
    assert!(d.floats && d.focus && !d.first);
    assert_eq!(st.monitors[0].workspaces[0].floats, vec![2]);
    assert_eq!(st.clients[&2].transient_parent, Some(1));
}

#[test]
fn a_restored_position_wins() {
    let mut st = desk();
    let g = Rect::new(7, 90, 111, 222);
    let m = st.manage(Client::new(1, 0, 0), None, (true, Some(g)), &plain());
    assert!(m.floats);
    assert_eq!(st.clients[&1].geom, g);
    assert_eq!(st.clients[&1].saved_geom, g);
}

#[test]
fn a_baseline_rule_applies_while_managing() {
    let mut st = desk();
    let mut c = Client::new(1, 0, 0);
    c.name = "Open File".to_string();
    c.geom = Rect::new(0, 0, 300, 200);
    let m = st.manage(c, None, (false, None), &compiled_config());
    assert!(m.floats);
    assert_eq!(st.clients[&1].geom, Rect::new(810, 480, 300, 200));
}

#[test]
fn an_overlay_keeps_the_focus_and_the_new_window_waits() {
    let mut st = desk();
    manage(&mut st, 1, None);
    st.monitors[0].note_focus(1);
    if let Some(c) = st.clients.get_mut(&1) {
        c.flags.set(WinFlags::FULLSCREEN);
    }
    let m = manage(&mut st, 2, None);
    assert!(!m.focus);
    assert!(st.clients[&2].flags.has(WinFlags::URGENT));
    assert_eq!(
        st.pending_focus,
        Some(PendingFocus { window: 2, owner: 1, monitor: 0, workspace: 0 })
    );
    assert_eq!(
        st.decide_click(0, Some(1), false),
        ClickOutcome::DismissForPending { overlay: 1, fullscreen: true, window: 2 }
    );
    let d = manage(&mut st, 3, Some(1));
    assert!(d.focus);
    assert!(!st.clients[&3].flags.has(WinFlags::URGENT));
}

#[test]
fn an_early_popup_finds_its_parent() {
    let mut st = desk();
    let m = manage(&mut st, 2, Some(1));
    assert!(m.floats);
    assert_eq!(st.pending_transients, vec![2]);
    assert!(st.relink_pending_transients().is_empty());
    assert_eq!(st.pending_transients, vec![2]);
    let mut p = Client::new(1, 0, 1);
    p.geom = Rect::new(100, 100, 500, 400);
    st.manage(p, None, (false, None), &plain());
    assert_eq!(st.relink_pending_transients(), vec![0]);
    assert!(st.pending_transients.is_empty());
    assert_eq!(st.clients[&2].workspace, 1);
    assert_eq!(st.clients[&2].geom, Rect::new(200, 200, 300, 200));
    assert_eq!(st.monitors[0].workspaces[1].floats, vec![2]);
    assert!(st.monitors[0].workspaces[0].floats.is_empty());
    assert!(st.relink_pending_transients().is_empty());
}

#[test]
fn an_unmanaged_window_leaves_no_trace() {
    let mut st = desk();
    manage(&mut st, 1, None);
    st.monitors[0].note_focus(1);
    if let Some(c) = st.clients.get_mut(&1) {
        c.old_border_w = 3;
    }
    assert_eq!(st.unmanage(1), Some(Unmanaged { old_border_w: 3, monitor: Some(0) }));
    assert!(!st.monitors[0].workspaces[0].holds(1));
    assert!(st.monitors[0].focus_stack.is_empty());
    assert_eq!(st.monitors[0].focused, None);
    assert_eq!(st.unmanage(1), None);
}

#[test]
fn titles_and_hints_are_refreshed() {
    let mut st = desk();
    manage(&mut st, 1, None);
    st.refresh_title(1, Some("fresh".to_string()));
    st.refresh_title(1, None);
    assert_eq!(st.clients[&1].name, "fresh");
    st.refresh_hints(1, Some(WmHints { no_focus: true, wants_input: false, urgent: true }));
    st.refresh_hints(1, None);
    let c = &st.clients[&1];
    assert!(c.no_focus() && !c.wants_input && c.flags.has(WinFlags::URGENT));
    assert!(matches!(st.sync_window_prefs(1), PrefsWrite::Clear));
    assert!(matches!(st.sync_window_prefs(9), PrefsWrite::Nothing));
}
