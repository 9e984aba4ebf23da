use maverick::config::compiled_config;
use maverick::geom::Rect;
use maverick::model::Client;
use maverick::runloop::{
    check_window, detect_monitors, poll_timeout, scan_manages, tags_changed, ClaimStep, FindStep,
    KeyboardRefresh, Publisher, ScreenClaim, Shutdown, ATTEMPTS, SLEEP_MS,
};
use maverick::state::{Monitor, State};

const ROOT: u32 = 500;

fn desk(monitors: usize) -> State {
    let mut st = State::new();
    for i in 0..monitors {
        st.monitors.push(Monitor::new(Rect::new(1920 * i as i32, 0, 1920, 1080), 3));
    }
    st
}

#[test]
fn the_wait_depends_on_who_paces_the_frames() {
    assert_eq!(poll_timeout(false, false, false, None), 100);
    assert_eq!(poll_timeout(true, true, true, None), 0);
    assert_eq!(poll_timeout(true, false, true, None), 2);
    assert_eq!(poll_timeout(true, false, false, None), 16);
}

#[test]
fn the_loop_does_not_sleep_past_a_keyboard_refresh() {
    assert_eq!(poll_timeout(false, false, false, Some(30)), 30);
    assert_eq!(poll_timeout(true, true, true, Some(30)), 0);
    assert_eq!(poll_timeout(false, false, false, Some(400)), 100);
}

#[test]
fn a_burst_does_not_put_the_refresh_off() {
    let mut k = KeyboardRefresh { due: None };
    assert_eq!(k.remaining(1000), None);
    k.schedule(1000);
    k.schedule(1030);
    k.schedule(1049);
    assert_eq!(k.remaining(1040), Some(10));
    assert_eq!(k.remaining(2000), Some(0));
    assert!(!k.take_due(1049));
    assert!(k.take_due(1050));
    assert!(!k.take_due(1051));
    assert_eq!(k.due, None);
}

#[test]
fn idle_monitors_are_not_projected_again() {
    let mut st = desk(2);
    assert_eq!(st.take_stale(2, false), vec![0, 1]);
    assert!(st.take_stale(2, false).is_empty());
    st.monitors[1].layout_dirty = true;
    assert_eq!(st.take_stale(2, false), vec![1]);
    assert_eq!(st.take_stale(2, true), vec![0, 1]);
    assert_eq!(st.take_stale(1, false), vec![0, 1]);
}

#[test]
fn a_click_on_a_subwindow_finds_its_client() {
    let mut st = desk(1);
    st.add_client(Client::new(7, 0, 0));
    let mut seen = Vec::new();
    assert_eq!(st.find_client(7, &mut seen), FindStep::Found(7));
    let mut seen = Vec::new();
    assert_eq!(st.find_client(70, &mut seen), FindStep::Ask(70));
    assert_eq!(st.find_client_above(&mut seen, Some(71), ROOT), FindStep::Ask(71));
    assert_eq!(st.find_client_above(&mut seen, Some(7), ROOT), FindStep::Found(7));
}

#[test]
fn a_search_ends_at_the_root_and_in_a_ring() {
    let st = desk(1);
    let mut seen = Vec::new();
    st.find_client(70, &mut seen);
    assert_eq!(st.find_client_above(&mut seen, Some(ROOT), ROOT), FindStep::Lost);
    assert_eq!(st.find_client_above(&mut seen, Some(0), ROOT), FindStep::Lost);
    assert_eq!(st.find_client_above(&mut seen, None, ROOT), FindStep::Lost);
    assert_eq!(st.find_client_above(&mut seen, Some(70), ROOT), FindStep::Lost);
    assert_eq!(st.find_client_above(&mut seen, Some(71), ROOT), FindStep::Ask(71));
    assert_eq!(st.find_client_above(&mut seen, Some(70), ROOT), FindStep::Lost);
}

#[test]
fn only_visible_ordinary_windows_are_taken_over() {
    assert!(scan_manages(false, 2));
    assert!(!scan_manages(true, 2));
    assert!(!scan_manages(false, 0));
    assert!(!scan_manages(false, 1));
}

#[test]
fn another_window_manager_is_asked_twenty_times() {
    assert_eq!((ATTEMPTS, SLEEP_MS), (20, 150));
    let mut c = ScreenClaim::new();
    for _ in 0..20 {
        assert_eq!(c.attempted(false), ClaimStep::AskAndWait);
    }
    assert_eq!(c.attempted(false), ClaimStep::GaveUp);
    assert_eq!(c.attempted(true), ClaimStep::Claimed);
}

#[test]
fn the_other_window_manager_is_known_by_its_check_window() {
    assert_eq!(check_window(&Some(vec![9, 8])), Some(9));
    assert_eq!(check_window(&Some(vec![0])), None);
    assert_eq!(check_window(&Some(vec![])), None);
    assert_eq!(check_window(&None), None);
}

#[test]
fn a_screen_without_listed_monitors_is_one_monitor() {
    let whole = Rect::new(0, 0, 1024, 768);
    let one = detect_monitors(&Vec::new(), whole, 4);
    assert_eq!(one.len(), 1);
    assert_eq!(one[0].screen, whole);
    assert_eq!(one[0].workspaces.len(), 4);
    let listed = vec![Rect::new(0, 0, 800, 600), Rect::new(800, 0, 640, 480)];
    let two = detect_monitors(&listed, whole, 2);
    assert_eq!(two.iter().map(|m| m.screen).collect::<Vec<_>>(), listed);
    assert_eq!(two[1].workarea, listed[1]);
    assert!(two[1].layout_dirty);
}

#[test]
fn tags_differ_in_number_or_name() {
    let a = compiled_config();
    let mut b = compiled_config();
    assert!(!tags_changed(&a, &b));
    b.tag_names[0] = "mail".to_string();
    assert!(tags_changed(&a, &b));
    let mut c = compiled_config();
    c.n_tags += 1;
    assert!(tags_changed(&a, &c));
    let mut d = compiled_config();
    d.tag_names.pop();
    assert!(tags_changed(&a, &d));
}

#[test]
fn fewer_tags_keep_every_window() {
    let mut st = desk(1);
    for w in 1..=3 {
        st.add_client(Client::new(w, 0, w as usize - 1));
        st.monitors[0].workspaces[w as usize - 1].add_tiled(w, 700);
    }
    let mut moved = st.adopt_tags(1);
    moved.sort_unstable();
    assert_eq!(moved, vec![2, 3]);
    assert_eq!(st.monitors[0].workspaces.len(), 1);
    for w in 1..=3 {
        assert!(st.monitors[0].workspaces[0].holds(w));
        assert_eq!(st.clients[&w].workspace, 0);
    }
    assert!(st.adopt_tags(4).is_empty());
    assert_eq!(st.monitors[0].workspaces.len(), 4);
}

#[test]
fn a_shutdown_begins_once() {
    let mut s = Shutdown { deadline: None };
    assert!(!s.expired(u64::MAX));
    assert!(s.begin(100));
    assert!(!s.begin(900));
    assert_eq!(s.deadline, Some(3100));
    assert!(!s.expired(3099));
    assert!(s.expired(3100));
}

#[test]
fn an_unchanged_state_is_no_news() {
    let mut p = Publisher::new();
    let a = "{\"sel\":0}".to_string();
    let b = "{\"sel\":1}".to_string();
    assert!(p.publish(&a));
    assert!(!p.publish(&a));
    assert!(p.publish(&b));
    assert!(p.publish(&a));
}

#[test]
fn a_shutdown_is_over_when_the_clients_are_gone() {
    let mut s = Shutdown { deadline: None };
    assert!(!s.is_over(9000, 0));
    s.begin(1000);
    assert!(!s.is_over(3999, 2));
    assert!(s.is_over(3999, 0));
    assert!(s.is_over(4000, 2));
}
