use maverick::arrange::{hide_step, HideStep};
use maverick::compositor::{
    Compositor, VisualFormat, WindowAttributes, WindowGeometry,
};
use maverick::damage::{span, DirtyReason};
use maverick::floats::clamp_float_to_workarea;
use maverick::focus::FocusStart;
use maverick::geom::Rect;
use maverick::keyboard::{clean_mask, mod_variants};
use maverick::model::{Client, WinFlags};
use maverick::monitors::TopologyChange;
use maverick::state::{Monitor, State};
use maverick::transient::transient_chain_reaches;
use std::collections::HashMap;

#[test]
fn an_enclosing_rectangle_covers_the_pixels_inside() {
    let outer = Rect::new(10, 20, 100, 50);
    let inner = Rect::new(40, 30, 70, 40);
    assert!(outer.contains_rect(inner));
    for (x, y) in [(40, 30), (109, 69), (75, 50)] {
        assert!(inner.contains_point(x, y));
        assert!(outer.contains_point(x, y));
    }
    assert!(!outer.contains_rect(Rect::new(40, 30, 71, 40)));
    assert!(!outer.contains_point(110, 30));
}

#[test]
fn clamping_again_changes_nothing() {
    let wa = Rect::new(100, 50, 800, 600);
    for g in [
        Rect::new(-500, -500, 3000, 10),
        Rect::new(5000, 5000, 10, 10),
        Rect::new(200, 200, 0, 0),
        Rect::new(200, 200, 300, 200),
    ] {
        let once = clamp_float_to_workarea(g, wa, 3);
        assert_eq!(clamp_float_to_workarea(once, wa, 3), once);
        assert!(wa.contains_rect(Rect::new(once.x, once.y, once.w + 6, once.h + 6)));
    }
}

#[test]
fn more_owners_own_no_less() {
    let mut clients = HashMap::new();
    for w in 1..=3 {
        let mut c = Client::new(w, 0, 0);
        c.transient_parent = if w < 3 { Some(w + 1) } else { None };
        clients.insert(w, c);
    }
    assert!(transient_chain_reaches(&clients, 1, &[3]));
    assert!(transient_chain_reaches(&clients, 1, &[9, 3, 8]));
    assert!(!transient_chain_reaches(&clients, 3, &[1, 2, 3]));
    assert!(!transient_chain_reaches(&clients, 77, &[1, 2, 3]));
    clients.remove(&3);
    assert!(!transient_chain_reaches(&clients, 1, &[3]));
    assert!(!transient_chain_reaches(&clients, 2, &[3]));
    assert!(transient_chain_reaches(&clients, 1, &[2]));
}

#[test]
fn a_reason_stays_until_it_is_cleared() {
    let mut d = DirtyReason::of(DirtyReason::NONE);
    for r in [DirtyReason::DAMAGE, DirtyReason::FOCUS, DirtyReason::WALLPAPER] {
        d.insert(r);
        assert!(d.contains(r));
    }
    assert!(d.contains(DirtyReason::DAMAGE));
    assert!(!d.contains(DirtyReason::SURFACE));
    d.clear();
    assert!(!d.contains(DirtyReason::DAMAGE));
}

#[test]
fn an_extent_is_tight() {
    let rects = [Rect::new(5, 7, 10, 10), Rect::new(-3, 9, 4, 100), Rect::new(50, 8, 1, 1)];
    assert_eq!(span(&rects), (-3, 7, 51, 109));
}

#[test]
fn a_window_that_takes_no_focus_changes_nothing() {
    let mut st = State::new();
    st.monitors.push(Monitor::new(Rect::new(0, 0, 1920, 1080), 1));
    for w in [1, 2] {
        st.add_client(Client::new(w, 0, 0));
        st.monitors[0].workspaces[0].add_tiled(w, 700);
    }
    st.monitors[0].note_focus(1);
    if let Some(c) = st.clients.get_mut(&2) {
        c.flags.set(WinFlags::NO_FOCUS);
    }
    assert_eq!(st.focus_start(Some(2)), FocusStart::Refused);
    assert_eq!(st.monitors[0].focused, Some(1));
    assert_eq!(st.monitors[0].focus_stack, vec![1]);
}

#[test]
fn a_hidden_window_is_hidden_once() {
    let mut c = Client::new(1, 0, 1);
    c.geom = Rect::new(300, 40, 500, 400);
    c.border_w = 2;
    let HideStep::Hide { rect, border, other_ws } = hide_step(&c, false, 0) else {
        panic!("a window of another workspace is hidden");
    };
    assert_eq!((rect, border, other_ws), (Rect::new(-700, 40, 500, 400), 2, true));
    c.wm_hidden = true;
    assert_eq!(hide_step(&c, false, 0), HideStep::Keep);
    assert_eq!(
        hide_step(&c, true, 1),
        HideStep::Show { rect: Rect::new(300, 40, 500, 400), border: 2 }
    );
}

#[test]
fn a_selected_monitor_that_stays_is_still_selected() {
    let mut st = State::new();
    for x in [0, 1920, 3840] {
        st.monitors.push(Monitor::new(Rect::new(x, 0, 1920, 1080), 2));
    }
    st.sel_mon = 2;
    let news = vec![
        Monitor::new(Rect::new(1920, 0, 1920, 1080), 2),
        Monitor::new(Rect::new(3840, 0, 1920, 1080), 2),
    ];
    assert_eq!(st.handle_monitor_change(news, 700), TopologyChange::Count);
    assert_eq!(st.sel_mon, 1);
    assert_eq!(st.monitors[st.sel_mon].screen.x, 3840);
}

#[test]
fn locks_do_not_change_a_binding() {
    for numlock in [0, 16, 32] {
        for extra in mod_variants(numlock) {
            assert_eq!(clean_mask(64 | 1 | extra, numlock), 65);
        }
    }
}

#[test]
fn a_reshaped_window_is_painted_anew() {
    let format = VisualFormat {
        id: 33,
        depth: 24,
        red_bits: 8,
        green_bits: 8,
        blue_bits: 8,
        alpha_bits: 0,
        direct: true,
    };
    let mut c = Compositor::new(800, 600, &vec![format], format, 900, 901, 0, false);
    let attrs = Some(WindowAttributes { class: 1, visual: 33 });
    let geom = WindowGeometry { x: 0, y: 0, width: 10, height: 10, border_width: 0 };
    assert!(c.track(5, attrs, Some(geom)));
    c.set_transforms(&[]);
    c.cull_occluded();
    c.compute_scene();
    assert!(c.damage_region().is_empty());
    c.finish_frame();
    if let Some(w) = c.wins.get_mut(&5) {
        w.damaged = false;
    }
    assert!(!c.needs_frame());
    c.on_shape(5);
    assert!(c.wins[&5].damaged);
    assert!(c.needs_frame() && c.needs_full);
    assert!(c.dirty_reasons().contains(DirtyReason::GEOMETRY));
}
