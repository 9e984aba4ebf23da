use maverick::bar::{
    bar_strut, to_latin1, truncate_latin1, Bar, BarMarks, BarStyle, DrawOp, COL_LAYOUT_CYAN,
    COL_OCC, COL_SEP, COL_STATUS, COL_SURFACE2,
};
use maverick::dialog::{quit_answer, QuitDialog};
use maverick::docks::strut_edges;
use maverick::geom::Rect;
use maverick::model::{Client, WinFlags};
use maverick::state::{Edge, Monitor, State};

const BG: u32 = 0x11;
const FG: u32 = 0x22;
const SEL: u32 = 0x33;
const URGENT: u32 = 0x44;

fn style() -> BarStyle {
    BarStyle {
        bar_height: 22,
        col_bar_bg: BG,
        col_bar_fg: FG,
        col_bar_sel: SEL,
        col_urgent: URGENT,
    }
}

fn names(n: &[&str]) -> Vec<String> {
    n.iter().map(|s| s.to_string()).collect()
}

fn desk() -> State {
    let mut st = State::new();
    st.monitors.push(Monitor::new(Rect::new(0, 0, 1920, 1080), 2));
    for w in 1..=2 {
        let mut c = Client::new(w, 0, w as usize - 1);
        c.name = "Terminal".to_string();
        st.add_client(c);
        st.monitors[0].workspaces[w as usize - 1].add_tiled(w, 700);
    }
    st.monitors[0].note_focus(1);
    st
}

fn fill(color: u32, x: i16, y: i16, width: u16, height: u16) -> DrawOp {
    DrawOp::Fill { color, x, y, width, height }
}

fn text(color: u32, x: i16, y: i16, text: &[u8]) -> DrawOp {
    DrawOp::Text { color, background: BG, x, y, text: text.to_vec() }
}

#[test]
fn texts_are_converted_for_the_font() {
    assert_eq!(to_latin1("caf\u{e9}", 255), vec![b'c', b'a', b'f', 0xe9]);
    assert_eq!(to_latin1("a\u{4e2d}b", 255), b"a?b".to_vec());
    assert_eq!(to_latin1("abcdef", 4), b"abcd".to_vec());
    assert!(to_latin1("abc", 0).is_empty());
}

#[test]
fn long_titles_end_in_dots() {
    assert_eq!(truncate_latin1("abcdef", 6), b"abcdef".to_vec());
    assert_eq!(truncate_latin1("abcdefg", 6), b"abc...".to_vec());
    assert_eq!(truncate_latin1("abcdefg", 3), b"abc".to_vec());
    assert_eq!(truncate_latin1("abcdefg", 4), b"a...".to_vec());
}

#[test]
fn a_font_without_a_width_counts_as_seven_wide() {
    assert_eq!(Bar::load(3, 11, 0).char_w, 7);
    assert_eq!(Bar::load(3, 11, 6).char_w, 6);
    assert_eq!(Bar::load(3, 11, -6).char_w, 6);
    assert_eq!(Bar::load(3, 11, 6), Bar { font_id: 3, font_ascent: 11, char_w: 6 });
}

#[test]
fn a_click_finds_its_tag() {
    let bar = Bar::load(0, 11, 7);
    let tags = names(&["1", "web"]);
    assert_eq!(bar.tag_at_x(8, &tags), None);
    assert_eq!(bar.tag_at_x(9, &tags), Some(0));
    assert_eq!(bar.tag_at_x(37, &tags), Some(0));
    assert_eq!(bar.tag_at_x(38, &tags), Some(1));
    assert_eq!(bar.tag_at_x(80, &tags), Some(1));
    assert_eq!(bar.tag_at_x(81, &tags), None);
}

#[test]
fn a_clicked_tag_is_the_drawn_one() {
    let bar = Bar::load(0, 11, 7);
    let st = desk();
    let tags = names(&["1", "2"]);
    for op in bar.draw(&st, 0, &style(), &tags, &Vec::new(), &String::new()) {
        if let DrawOp::Text { x, text, .. } = op {
            if text == b"2" {
                assert_eq!(bar.tag_at_x(x, &tags), Some(1));
            }
        }
    }
}

#[test]
fn the_bar_shows_tags_layout_status_and_title() {
    let bar = Bar::load(0, 11, 7);
    let st = desk();
    let ops = bar.draw(
        &st,
        0,
        &style(),
        &names(&["1", "2"]),
        &b"|||".to_vec(),
        &"ok".to_string(),
    );
    assert_eq!(
        ops,
        vec![
            fill(BG, 0, 0, 1920, 22),
            fill(SEL, 2, 7, 3, 8),
            fill(SEL, 9, 2, 27, 18),
            text(BG, 19, 16, b"1"),
            text(COL_OCC, 48, 16, b"2"),
            fill(COL_OCC, 57, 10, 3, 3),
            fill(COL_SEP, 67, 4, 1, 14),
            text(COL_LAYOUT_CYAN, 74, 16, b"|||"),
            fill(COL_SEP, 101, 4, 1, 14),
            text(COL_STATUS, 1898, 16, b"ok"),
            text(FG, 108, 16, b"Terminal"),
            fill(SEL, 0, 20, 1920, 2),
        ]
    );
}

#[test]
fn a_tag_that_wants_attention_has_a_pill() {
    let bar = Bar::load(0, 11, 7);
    let mut st = desk();
    if let Some(c) = st.clients.get_mut(&2) {
        c.flags.set(WinFlags::URGENT);
    }
    let ops = bar.draw(
        &st,
        0,
        &style(),
        &names(&["1", "2"]),
        &Vec::new(),
        &String::new(),
    );
    assert!(ops.contains(&fill(URGENT, 38, 2, 27, 18)));
    assert!(ops.contains(&text(BG, 48, 16, b"2")));
}

#[test]
fn the_bar_of_another_monitor_is_dim_and_empty_tags_are_grey() {
    let bar = Bar::load(0, 11, 7);
    let mut st = desk();
    st.monitors.push(Monitor::new(Rect::new(1920, 0, 800, 600), 2));
    let ops = bar.draw(
        &st,
        1,
        &style(),
        &names(&["1", "2"]),
        &Vec::new(),
        &String::new(),
    );
    assert_eq!(ops[0], fill(BG, 0, 0, 800, 22));
    assert_eq!(ops[1], fill(SEL, 9, 2, 27, 18));
    assert!(ops.contains(&text(COL_SURFACE2, 48, 16, b"2")));
    assert_eq!(ops[ops.len() - 1], fill(COL_SEP, 0, 20, 800, 2));
}

#[test]
fn bars_are_drawn_once_per_mark() {
    let mut marks = BarMarks { bits: 0 };
    marks.mark_bar(2);
    marks.mark_bar(0);
    marks.mark_bar(2);
    marks.mark_bar(64);
    assert_eq!(marks.flush_bars(3), vec![0, 2]);
    assert!(marks.flush_bars(3).is_empty());
    marks.mark_all_bars(3);
    assert_eq!(marks.flush_bars(8), vec![0, 1, 2]);
    marks.mark_all_bars(100);
    assert_eq!(marks.flush_bars(100).len(), 64);
}

#[test]
fn a_bar_reserves_its_own_edge() {
    let screen = Rect::new(1920, 0, 1280, 720);
    assert_eq!(bar_strut(true, 22, screen), [0, 0, 22, 0, 0, 0, 0, 0, 1920, 3200, 0, 0]);
    assert_eq!(bar_strut(false, 22, screen), [0, 0, 0, 22, 0, 0, 0, 0, 0, 0, 1920, 3200]);
    assert_eq!(strut_edges(&bar_strut(true, 22, screen)), vec![(Edge::Top, 22)]);
    assert_eq!(strut_edges(&bar_strut(false, 22, screen)), vec![(Edge::Bottom, 22)]);
}

#[test]
fn the_quit_dialog_is_in_the_middle() {
    let d = QuitDialog::place(Rect::new(100, 50, 1920, 1080), BG, 0x00ff_8040, SEL);
    assert_eq!((d.x, d.y), (875, 542));
    assert_eq!(d.dim, 0x007f_4020);
    let small = QuitDialog::place(Rect::new(0, 0, 369, 95), BG, FG, SEL);
    assert_eq!((small.x, small.y), (0, 0));
    let ops = d.paint();
    assert_eq!(ops.len(), 5);
    assert_eq!(ops[0], fill(SEL, 0, 0, 370, 22));
    assert_eq!(ops[1], text(BG, 10, 15, b"maverick"));
    assert_eq!(ops[2], fill(BG, 0, 22, 370, 74));
    assert_eq!(ops[3], text(0x00ff_8040, 14, 50, b"Seguro que quieres salir de maverick?"));
    assert_eq!(ops[4], text(d.dim, 14, 78, b"[Y / Enter] Si      [N / Escape] Cancelar"));
}

#[test]
fn keys_answer_the_quit_dialog() {
    for yes in [29, 36, 104] {
        assert_eq!(quit_answer(yes), Some(true));
    }
    for no in [57, 9] {
        assert_eq!(quit_answer(no), Some(false));
    }
    assert_eq!(quit_answer(30), None);
}

#[test]
fn a_font_may_sit_below_its_line() {
    let bar = Bar::load(0, -5, 7);
    let ops = bar.draw(
        &desk(),
        0,
        &style(),
        &names(&["1", "2"]),
        &Vec::new(),
        &String::new(),
    );
    assert!(ops.contains(&text(BG, 19, 9, b"1")));
}
