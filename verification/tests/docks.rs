use maverick::docks::{
    read_strut, renumber_docks, reply_cardinals, strut_edge, strut_edges, DockChange, DockGeometry,
};
use maverick::ewmh::{
    desktop_names, has_protocol, proto_message, status_text, HubEvent, HubEventSink,
};
use maverick::geom::Rect;
use maverick::model::Client;
use maverick::monitors::TopologyChange;
use maverick::state::{Edge, Monitor, State};
use maverick::xproto::Property;
use std::collections::HashMap;

fn two_monitors() -> State {
    let mut st = State::new();
    st.monitors.push(Monitor::new(Rect::new(0, 0, 1920, 1080), 2));
    st.monitors.push(Monitor::new(Rect::new(1920, 0, 1280, 720), 2));
    st
}

fn cardinals(words: &[u32]) -> Option<Property> {
    let mut value = Vec::new();
    for w in words {
        value.extend_from_slice(&w.to_ne_bytes());
    }
    Some(Property { type_: 6, format: 32, value })
}

#[test]
fn the_first_edge_is_the_first_in_the_property() {
    assert_eq!(strut_edge(&[1, 2, 3, 4]), Some((Edge::Left, 1)));
    assert_eq!(strut_edge(&[10, 0, 20, 0]), Some((Edge::Left, 10)));
    assert_eq!(strut_edge(&[0, 2, 3, 4]), Some((Edge::Right, 2)));
    assert_eq!(strut_edge(&[0, 0, 3, 4]), Some((Edge::Top, 3)));
    assert_eq!(strut_edge(&[0, 0, 0, 4]), Some((Edge::Bottom, 4)));
    assert_eq!(strut_edge(&[0, 0, 0, 0]), None);
}

#[test]
fn a_dock_may_reserve_several_edges() {
    assert_eq!(
        strut_edges(&[64, 0, 30, 0]),
        vec![(Edge::Left, 64), (Edge::Top, 30)]
    );
    assert!(strut_edges(&[0, 0, 0, 0]).is_empty());
}

#[test]
fn the_partial_strut_comes_first() {
    let partial = vec![0, 0, 30, 0, 0, 0, 0, 0, 0, 1919, 0, 0];
    let basic = vec![64, 0, 0, 0];
    assert_eq!(read_strut(&partial, &basic), Some(vec![(Edge::Top, 30)]));
    assert_eq!(read_strut(&vec![], &basic), Some(vec![(Edge::Left, 64)]));
    assert_eq!(read_strut(&vec![1, 2], &vec![]), None);
}

#[test]
fn cardinals_are_read_from_a_property() {
    assert_eq!(reply_cardinals(&cardinals(&[0, 0, 30, 0])), vec![0, 0, 30, 0]);
    assert!(reply_cardinals(&None).is_empty());
    let atoms = Some(Property { type_: 4, format: 32, value: vec![1, 0, 0, 0] });
    assert!(reply_cardinals(&atoms).is_empty());
}

#[test]
fn a_strut_belongs_to_the_monitor_of_its_span() {
    let st = two_monitors();
    let on_first = Some(DockGeometry { x: 0, y: 0, width: 100, height: 30 });
    let on_second = Some(DockGeometry { x: 1920, y: 690, width: 1280, height: 30 });
    let top = vec![(Edge::Top, 30u32)];
    let bottom = vec![(Edge::Bottom, 30u32)];
    let top_span = vec![0, 0, 30, 0, 0, 0, 0, 0, 1920, 3199, 0, 0];
    assert_eq!(st.monitor_for_strut(&top, &top_span, on_first), 1);
    let bottom_span = vec![0, 0, 0, 30, 0, 0, 0, 0, 0, 0, 1920, 3199];
    assert_eq!(st.monitor_for_strut(&bottom, &bottom_span, on_second), 1);
    assert_eq!(st.monitor_for_strut(&bottom, &vec![0, 0, 0, 30], on_second), 1);
    assert_eq!(st.monitor_for_strut(&top, &vec![], on_first), 0);
    assert_eq!(st.monitor_for_strut(&top, &top_span, None), 0);
}

#[test]
fn a_side_dock_goes_by_its_own_span() {
    let mut st = State::new();
    st.monitors.push(Monitor::new(Rect::new(0, 0, 1920, 1080), 1));
    st.monitors.push(Monitor::new(Rect::new(0, 1080, 1920, 1080), 1));
    let geom = Some(DockGeometry { x: 0, y: 0, width: 40, height: 40 });
    let left = vec![40, 0, 0, 0, 1080, 2159, 0, 0, 0, 0, 0, 0];
    assert_eq!(st.monitor_for_strut(&vec![(Edge::Left, 40)], &left, geom), 1);
    let right = vec![0, 40, 0, 0, 0, 0, 1080, 2159, 0, 0, 0, 0];
    assert_eq!(st.monitor_for_strut(&vec![(Edge::Right, 40)], &right, geom), 1);
}

#[test]
fn a_dock_takes_space_and_gives_it_back() {
    let mut st = two_monitors();
    let mut docks = HashMap::new();
    let before = st.monitors[0].workarea;
    let struts = Some(vec![(Edge::Left, 64), (Edge::Top, 30)]);
    assert_eq!(
        st.apply_dock_strut(&mut docks, 9, &struts, 0),
        DockChange::Reserved { monitor: 0, left: None, new: true }
    );
    assert_eq!(st.monitors[0].workarea, Rect::new(64, 30, 1856, 1050));
    assert_eq!(st.monitors[1].workarea, Rect::new(1920, 0, 1280, 720));
    let thinner = Some(vec![(Edge::Top, 20)]);
    assert_eq!(
        st.apply_dock_strut(&mut docks, 9, &thinner, 0),
        DockChange::Reserved { monitor: 0, left: None, new: false }
    );
    assert_eq!(st.monitors[0].workarea, Rect::new(0, 20, 1920, 1060));
    assert_eq!(
        st.apply_dock_strut(&mut docks, 9, &None, 0),
        DockChange::Released { monitor: 0 }
    );
    assert_eq!(st.monitors[0].workarea, before);
    assert!(docks.is_empty());
    assert_eq!(st.remove_dock(&mut docks, 9), DockChange::Nothing);
}

#[test]
fn a_dock_that_moves_leaves_nothing_behind() {
    let mut st = two_monitors();
    let mut docks = HashMap::new();
    let bar = Some(vec![(Edge::Top, 30)]);
    st.apply_dock_strut(&mut docks, 9, &bar, 0);
    st.apply_dock_strut(&mut docks, 8, &Some(vec![(Edge::Bottom, 20)]), 0);
    assert_eq!(
        st.apply_dock_strut(&mut docks, 9, &bar, 1),
        DockChange::Reserved { monitor: 1, left: Some(0), new: false }
    );
    // The other dock of the first monitor keeps its space.
    assert_eq!(st.monitors[0].workarea, Rect::new(0, 0, 1920, 1060));
    assert_eq!(st.monitors[1].workarea, Rect::new(1920, 30, 1280, 690));
    assert_eq!(docks.get(&9), Some(&1));
    assert_eq!(st.remove_dock(&mut docks, 9), DockChange::Released { monitor: 1 });
    for m in &st.monitors {
        assert!(m.reserved.iter().all(|r| r.owner != 9));
    }
    assert_eq!(st.monitors[1].workarea, st.monitors[1].screen);
}

#[test]
fn docks_follow_their_monitors() {
    let mut st = two_monitors();
    let mut docks = HashMap::new();
    st.apply_dock_strut(&mut docks, 8, &Some(vec![(Edge::Bottom, 20)]), 0);
    st.apply_dock_strut(&mut docks, 9, &Some(vec![(Edge::Top, 30)]), 1);
    // The first monitor goes, so the second becomes the first.
    let left = vec![Monitor::new(Rect::new(1920, 0, 1280, 720), 2)];
    assert_eq!(st.follow_monitors(&mut docks, left, 700), TopologyChange::Count);
    assert_eq!(docks, HashMap::from([(9, 0)]));
    assert_eq!(st.monitors[0].workarea, Rect::new(1920, 30, 1280, 690));
    assert_eq!(st.remove_dock(&mut docks, 8), DockChange::Nothing);
    assert_eq!(st.remove_dock(&mut docks, 9), DockChange::Released { monitor: 0 });
    assert_eq!(st.monitors[0].workarea, Rect::new(1920, 0, 1280, 720));
}

#[test]
fn an_entry_without_a_monitor_leaves_the_record() {
    let mut docks = HashMap::from([(1, 0), (2, 1), (3, 2), (4, 9)]);
    renumber_docks(&mut docks, &vec![Some(2), None, Some(0)]);
    assert_eq!(docks, HashMap::from([(1, 2), (3, 0)]));
}

#[test]
fn a_dock_does_not_look_like_a_change_of_monitors() {
    let mut st = two_monitors();
    let mut docks = HashMap::new();
    st.apply_dock_strut(&mut docks, 9, &Some(vec![(Edge::Top, 30)]), 0);
    let narrowed = st.monitors[0].workarea;
    let same = two_monitors().monitors;
    assert_eq!(st.follow_monitors(&mut docks, same, 700), TopologyChange::Unchanged);
    assert_eq!(st.monitors[0].workarea, narrowed);
    // A new resolution keeps what the dock reserves.
    let mut bigger = two_monitors().monitors;
    bigger[0] = Monitor::new(Rect::new(0, 0, 2560, 1440), 2);
    assert_eq!(st.follow_monitors(&mut docks, bigger, 700), TopologyChange::Geometry);
    assert_eq!(st.monitors[0].workarea, Rect::new(0, 30, 2560, 1410));
    assert_eq!(docks.get(&9), Some(&0));
}

#[test]
fn the_work_area_never_leaves_the_screen() {
    let mut m = Monitor::new(Rect::new(0, 0, 800, 600), 1);
    m.set_reserved_regions(9, &vec![(Edge::Top, 400), (Edge::Bottom, 500), (Edge::Right, 900)]);
    let wa = m.workarea;
    assert!(m.screen.contains_rect(wa));
}

#[test]
fn work_areas_are_published_per_desktop() {
    let mut st = two_monitors();
    st.monitors[0].workarea = Rect::new(0, 22, 1920, 1058);
    assert_eq!(
        st.workarea_words(2),
        Some((
            vec![0, 22, 1920, 1058, 0, 22, 1920, 1058, 1920, 0, 1280, 720, 1920, 0, 1280, 720],
            vec![1920, 1058]
        ))
    );
    assert_eq!(State::new().workarea_words(2), None);
}

#[test]
fn desktop_names_end_in_zeros() {
    let names = vec!["1".to_string(), "\u{e9}".to_string()];
    assert_eq!(desktop_names(&names), vec![b'1', 0, 0xc3, 0xa9, 0]);
}

#[test]
fn the_stacking_list_is_complete_and_in_order() {
    let mut st = two_monitors();
    for w in 1..=6 {
        st.add_client(Client::new(w, 0, 0));
    }
    st.monitors[0].workspaces[0].add_tiled(3, 100);
    st.monitors[0].workspaces[0].add_float(1);
    st.monitors[1].workspaces[1].add_tiled(2, 100);
    st.monitors[0].note_focus(4);
    st.monitors[0].note_focus(5);
    st.monitors[0].note_focus(3);
    let mut all = st.client_list();
    all.sort_unstable();
    assert_eq!(all, vec![1, 2, 3, 4, 5, 6]);
    assert_eq!(st.client_list_stacking(&all), vec![3, 1, 2, 5, 4, 6]);
}

#[test]
fn protocols_are_looked_up_and_sent() {
    assert!(has_protocol(&Some(vec![5, 6]), 6));
    assert!(!has_protocol(&Some(vec![5, 6]), 7));
    assert!(!has_protocol(&None, 7));
    assert_eq!(proto_message(6, 1234), [6, 1234, 0, 0, 0]);
}

#[test]
fn the_status_is_read_leniently() {
    let p = Property { type_: 31, format: 8, value: vec![b'a', 0xff, b'b'] };
    assert_eq!(status_text(&p), "a\u{fffd}b");
}

#[test]
fn subscribers_are_told_once() {
    let mut s = HubEventSink::new();
    assert_eq!(
        s.on_event(HubEvent::FocusChanged { from: None, to: Some(42) }),
        Some("focus 42".to_string())
    );
    assert_eq!(s.on_event(HubEvent::FocusChanged { from: None, to: Some(42) }), None);
    assert_eq!(s.on_event(HubEvent::FocusChanged { from: Some(42), to: None }), Some("focus 0".to_string()));
    assert_eq!(
        s.on_event(HubEvent::WorkspaceChanged { monitor: 1, to: 10 }),
        Some("workspace 10 1".to_string())
    );
    assert_eq!(s.on_event(HubEvent::WorkspaceChanged { monitor: 1, to: 10 }), None);
    assert_eq!(
        s.on_event(HubEvent::WorkspaceChanged { monitor: 0, to: 10 }),
        Some("workspace 10 0".to_string())
    );
    assert_eq!(s.on_event(HubEvent::Other), None);
}
