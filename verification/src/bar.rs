//! The status bar: what is drawn where, and which tag a click is on.

use crate::docks::strut_edge_list;
use crate::geom::Rect;
use crate::manage::half;
use crate::model::{WinFlags, WindowId};
use crate::overlay::{all_windows, workspace_windows};
use crate::state::{Edge, State, StateV};
use crate::text::texts;
use vstd::prelude::*;
use vstd::string::*;

verus! {

broadcast use vstd::std_specs::hash::group_hash_axioms;

// ---- Text -------------------------------------------------------------------

/// The byte that stands for a character in the bar's font: its own code up to
/// 255, a question mark beyond.
pub open spec fn latin1_byte(c: char) -> u8 {
    if c as u32 <= 0xff {
        c as u8
    } else {
        63
    }
}

/// The first `max` characters of a text, in the encoding of the bar's font.
pub open spec fn latin1(s: Seq<char>, max: int) -> Seq<u8> {
    let n = if s.len() <= max {
        s.len()
    } else {
        max as nat
    };
    Seq::new(n, |i: int| latin1_byte(s[i]))
}

/// A text cut to `max` characters, with dots where something was cut off and
/// there is room for dots.
pub open spec fn latin1_cut(s: Seq<char>, max: int) -> Seq<u8> {
    if s.len() <= max || max <= 3 {
        latin1(s, max)
    } else {
        latin1(s, max - 3) + seq![46u8, 46u8, 46u8]
    }
}

/// Convert a text for the bar's font, at most `max` characters of it.
pub fn to_latin1(s: &str, max: usize) -> (out: Vec<u8>)
    ensures
        out@ == latin1(s@, max as int),
{
    let total: usize = s.unicode_len();
    let n: usize = if total <= max { total } else { max };
    let mut out: Vec<u8> = Vec::new();
    let mut i: usize = 0;
    assert(out@ =~= latin1(s@, max as int).take(0));
    while i < n
        invariant
            i <= n,
            n <= s@.len(),
            n == latin1(s@, max as int).len(),
            out@ == latin1(s@, max as int).take(i as int),
        decreases n - i,
    {
        let c: char = s.get_char(i);
        let code: u32 = c as u32;
        let b: u8 = if code <= 0xff { code as u8 } else { 63 };
        out.push(b);
        assert(out@ =~= latin1(s@, max as int).take(i as int + 1));
        i = i + 1;
    }
    assert(out@ =~= latin1(s@, max as int));
    out
}

/// Like [`to_latin1`], with dots at the end of a text that was cut.
pub fn truncate_latin1(s: &str, max: usize) -> (out: Vec<u8>)
    ensures
        out@ == latin1_cut(s@, max as int),
{
    if s.unicode_len() <= max || max <= 3 {
        return to_latin1(s, max);
    }
    let mut out: Vec<u8> = to_latin1(s, max - 3);
    out.push(46);
    out.push(46);
    out.push(46);
    assert(out@ =~= latin1_cut(s@, max as int));
    out
}

/// A text for the bar never takes more room than it was given, and one that fits
/// is whole.
pub proof fn cut_text_fits(s: Seq<char>, max: int)
    requires
        max >= 0,
    ensures
        latin1_cut(s, max).len() <= max,
        s.len() <= max ==> latin1_cut(s, max).len() == s.len(),
        s.len() > max ==> latin1_cut(s, max).len() == max,
{
}

// ---- Tags -------------------------------------------------------------------

/// Left and right of a tag's name.
pub const TAG_PAD: i16 = 10;

/// Where the first tag starts, right of the monitor marker.
pub const START_X: i16 = 9;

/// Room beside a separator.
pub const SEP_W: u16 = 6;

/// Height of the line at the bottom of the bar.
pub const ACCENT_H: u16 = 2;

pub const COL_SEP: u32 = 0x313244;

pub const COL_OCC: u32 = 0xa6e3a1;

pub const COL_STATUS: u32 = 0xa6adc8;

pub const COL_SURFACE2: u32 = 0x585b70;

pub const COL_LAYOUT_CYAN: u32 = 0x89dceb;

/// The bar's font, as far as the layout depends on it.
#[derive(Debug, Clone, Copy, PartialEq, Eq, Structural)]
pub struct Bar {
    pub font_id: u32,
    pub font_ascent: i32,
    /// Width of a character.
    pub char_w: u32,
}

/// The name on tag `i`, as drawn.
pub open spec fn label_of(names: Seq<Seq<char>>, i: int) -> Seq<u8> {
    if 0 <= i < names.len() {
        latin1(names[i], 255)
    } else {
        latin1("?"@, 255)
    }
}

/// The width of a tag: its name and the padding.
pub open spec fn tag_width_of(label: Seq<u8>, char_w: u32) -> int {
    label.len() * char_w + 20
}

/// Where tag `i` starts. Two pixels are left free after each tag.
pub open spec fn tag_left(names: Seq<Seq<char>>, char_w: u32, i: int) -> int
    decreases i,
{
    if i <= 0 {
        9
    } else {
        tag_left(names, char_w, i - 1) + tag_width_of(label_of(names, i - 1), char_w) + 2
    }
}

/// Tags stand in order, left to right.
pub proof fn tags_stand_in_order(names: Seq<Seq<char>>, char_w: u32, i: int, j: int)
    requires
        0 <= i <= j,
    ensures
        tag_left(names, char_w, i) + 22 * (j - i) <= tag_left(names, char_w, j),
        tag_left(names, char_w, i) >= 9,
    decreases j,
{
    let l = label_of(names, j - 1);
    assert(l.len() * char_w >= 0) by (nonlinear_arith);
    if i < j {
        tags_stand_in_order(names, char_w, i, j - 1);
    } else if i > 0 {
        tags_stand_in_order(names, char_w, i - 1, j - 1);
    }
}

/// The tag that `x` is on, or the gap after it: tag `i`.
pub open spec fn on_tag(names: Seq<Seq<char>>, char_w: u32, i: int, x: int) -> bool {
    tag_left(names, char_w, i) <= x < tag_left(names, char_w, i + 1)
}

fn label_at(names: &Vec<String>, i: usize) -> (l: Vec<u8>)
    ensures
        l@ == label_of(texts(names@), i as int),
        l@.len() <= 255,
{
    if i < names.len() {
        assert(texts(names@)[i as int] == names@[i as int]@);
        to_latin1(names[i].as_str(), 255)
    } else {
        to_latin1("?", 255)
    }
}

impl Bar {
    /// The font's metrics; a font that declares no width counts as 7 wide.
    pub fn load(font_id: u32, font_ascent: i16, min_width: i16) -> (b: Bar)
        ensures
            b == (Bar {
                font_id,
                font_ascent: font_ascent as i32,
                char_w: if min_width == 0 {
                    7
                } else if min_width < 0 {
                    (-min_width) as u32
                } else {
                    min_width as u32
                },
            }),
    {
        let w: i32 = min_width as i32;
        let char_w: u32 = if w == 0 {
            7
        } else if w < 0 {
            (-w) as u32
        } else {
            w as u32
        };
        Bar { font_id, font_ascent: font_ascent as i32, char_w }
    }

    fn text_width(&self, label: &Vec<u8>) -> (w: u64)
        requires
            label@.len() <= 255,
        ensures
            w == label@.len() * self.char_w,
            w <= 255 * 0xffff_ffff,
    {
        let n: u64 = label.len() as u64;
        assert(n * self.char_w <= 255 * 0xffff_ffff) by (nonlinear_arith)
            requires
                n <= 255,
                self.char_w <= 0xffff_ffff,
        ;
        n * self.char_w as u64
    }

    /// The tag under `x`, if any; the gap after a tag belongs to it.
    pub fn tag_at_x(&self, x: i16, names: &Vec<String>) -> (r: Option<usize>)
        requires
            tag_left(texts(names@), self.char_w, names.len() as int) <= 32767,
        ensures
            match r {
                Some(i) => i < names.len() && on_tag(
                    texts(names@),
                    self.char_w,
                    i as int,
                    x as int,
                ),
                None => forall|i: int|
                    0 <= i < names.len() ==> !#[trigger] on_tag(
                        texts(names@),
                        self.char_w,
                        i,
                        x as int,
                    ),
            },
    {
        let ghost ts = texts(names@);
        let mut cur: i64 = START_X as i64;
        let mut i: usize = 0;
        while i < names.len()
            invariant
                i <= names.len(),
                ts == texts(names@),
                cur == tag_left(ts, self.char_w, i as int),
                tag_left(ts, self.char_w, names.len() as int) <= 32767,
                9 <= cur <= 32767,
                forall|j: int|
                    0 <= j < i ==> !#[trigger] on_tag(ts, self.char_w, j, x as int),
            decreases names.len() - i,
        {
            let label: Vec<u8> = label_at(names, i);
            let w: u64 = self.text_width(&label);
            let right: i64 = cur + w as i64 + 20 + 2;
            proof {
                assert(right == tag_left(ts, self.char_w, i as int + 1));
                tags_stand_in_order(ts, self.char_w, i as int + 1, names.len() as int);
            }
            if x as i64 >= cur && (x as i64) < right {
                assert(on_tag(ts, self.char_w, i as int, x as int));
                return Some(i);
            }
            cur = right;
            i = i + 1;
        }
        None
    }
}

/// A click on a tag, anywhere from its left edge to the end of its name, is a
/// click on that tag and on no other.
pub proof fn clicked_tag_is_the_drawn_one(
    names: Seq<Seq<char>>,
    char_w: u32,
    i: int,
    j: int,
    x: int,
)
    requires
        0 <= i < names.len(),
        0 <= j < names.len(),
        tag_left(names, char_w, i) <= x < tag_left(names, char_w, i) + tag_width_of(
            label_of(names, i),
            char_w,
        ),
    ensures
        on_tag(names, char_w, j, x) <==> i == j,
{
    if i < j {
        tags_stand_in_order(names, char_w, i + 1, j);
    } else if j < i {
        tags_stand_in_order(names, char_w, j + 1, i);
    }
}

// ---- Drawing ----------------------------------------------------------------

/// Height and colours of the bar.
#[derive(Debug, Clone, Copy, PartialEq, Eq, Structural)]
pub struct BarStyle {
    pub bar_height: u32,
    pub col_bar_bg: u32,
    pub col_bar_fg: u32,
    pub col_bar_sel: u32,
    pub col_urgent: u32,
}

/// One drawing request.
#[derive(Debug, Clone, PartialEq, Eq)]
pub enum DrawOp {
    Fill { color: u32, x: i16, y: i16, width: u16, height: u16 },
    Text { color: u32, background: u32, x: i16, y: i16, text: Vec<u8> },
}

/// A [`DrawOp`], mathematically.
pub enum DrawOpV {
    Fill { color: u32, x: int, y: int, width: int, height: int },
    Text { color: u32, background: u32, x: int, y: int, text: Seq<u8> },
}

impl View for DrawOp {
    type V = DrawOpV;

    open spec fn view(&self) -> DrawOpV {
        match *self {
            DrawOp::Fill { color, x, y, width, height } => DrawOpV::Fill {
                color,
                x: x as int,
                y: y as int,
                width: width as int,
                height: height as int,
            },
            DrawOp::Text { color, background, x, y, text } => DrawOpV::Text {
                color,
                background,
                x: x as int,
                y: y as int,
                text: text@,
            },
        }
    }
}

/// Drawing requests, mathematically.
pub open spec fn op_views(s: Seq<DrawOp>) -> Seq<DrawOpV> {
    s.map_values(|o: DrawOp| o@)
}

fn fill(out: &mut Vec<DrawOp>, color: u32, x: i16, y: i16, width: u16, height: u16)
    ensures
        op_views(final(out)@) == op_views(old(out)@).push(
            DrawOpV::Fill {
                color,
                x: x as int,
                y: y as int,
                width: width as int,
                height: height as int,
            },
        ),
{
    let ghost before = out@;
    out.push(DrawOp::Fill { color, x, y, width, height });
    assert(op_views(out@) =~= op_views(before).push(out@.last()@));
}

fn write_text(out: &mut Vec<DrawOp>, color: u32, background: u32, x: i16, y: i16, text: Vec<u8>)
    ensures
        op_views(final(out)@) == op_views(old(out)@).push(
            DrawOpV::Text { color, background, x: x as int, y: y as int, text: text@ },
        ),
{
    let ghost before = out@;
    out.push(DrawOp::Text { color, background, x, y, text });
    assert(op_views(out@) =~= op_views(before).push(out@.last()@));
}

/// How a tag looks.
pub struct TagLook {
    pub active: bool,
    pub urgent: bool,
    pub occupied: bool,
}

/// Some window of the workspace demands attention.
pub open spec fn wants_attention(st: StateV, mi: int, wi: int) -> bool {
    exists|i: int|
        0 <= i < all_windows(st.monitors[mi].workspaces[wi]).len() && st.client_on(
            #[trigger] all_windows(st.monitors[mi].workspaces[wi])[i],
            WinFlags::URGENT,
        )
}

pub open spec fn look_of(st: StateV, mi: int, wi: int) -> TagLook {
    TagLook {
        active: wi == st.monitors[mi].active_ws,
        urgent: wants_attention(st, mi, wi),
        occupied: !st.monitors[mi].workspaces[wi].is_empty(),
    }
}

/// The requests that draw a tag at `x`: a pill behind the name of the tag on show
/// and of one that demands attention, a dot behind that of any other tag with
/// windows.
pub open spec fn tag_ops(
    style: BarStyle,
    look: TagLook,
    label: Seq<u8>,
    char_w: u32,
    x: int,
    text_y: int,
) -> Seq<DrawOpV> {
    let h = style.bar_height as int;
    let pill = if look.active || look.urgent {
        seq![
            DrawOpV::Fill {
                color: if look.active {
                    style.col_bar_sel
                } else {
                    style.col_urgent
                },
                x,
                y: 2,
                width: tag_width_of(label, char_w),
                height: h - 4,
            },
        ]
    } else {
        Seq::empty()
    };
    let name = seq![
        DrawOpV::Text {
            color: if look.active || look.urgent {
                style.col_bar_bg
            } else if look.occupied {
                COL_OCC
            } else {
                COL_SURFACE2
            },
            background: style.col_bar_bg,
            x: x + 10,
            y: text_y,
            text: label,
        },
    ];
    let dot = if look.occupied && !look.active && !look.urgent {
        seq![
            DrawOpV::Fill {
                color: COL_OCC,
                x: x + 10 + label.len() * char_w + 2,
                y: h / 2 - 1,
                width: 3,
                height: 3,
            },
        ]
    } else {
        Seq::empty()
    };
    pill + name + dot
}

/// The requests that draw the first `n` tags.
pub open spec fn tags_ops(
    bar: Bar,
    st: StateV,
    mi: int,
    style: BarStyle,
    names: Seq<Seq<char>>,
    n: int,
) -> Seq<DrawOpV>
    decreases n,
{
    if n <= 0 {
        Seq::empty()
    } else {
        tags_ops(bar, st, mi, style, names, n - 1) + tag_ops(
            style,
            look_of(st, mi, n - 1),
            label_of(names, n - 1),
            bar.char_w,
            tag_left(names, bar.char_w, n - 1),
            text_line(bar, style),
        )
    }
}

/// The baseline of the bar's text.
pub open spec fn text_line(bar: Bar, style: BarStyle) -> int {
    style.bar_height as int / 2 + half(bar.font_ascent as int)
}

/// A vertical line.
pub open spec fn separator_op(x: int, h: int) -> DrawOpV {
    DrawOpV::Fill { color: COL_SEP, x, y: 4, width: 1, height: h - 8 }
}

/// What the bar of a monitor shows.
pub struct BarText {
    pub names: Seq<Seq<char>>,
    pub symbol: Seq<u8>,
    pub status: Seq<char>,
}

/// Where the first separator is: after the tags.
pub open spec fn first_separator(bar: Bar, st: StateV, mi: int, t: BarText) -> int {
    tag_left(t.names, bar.char_w, st.monitors[mi].workspaces.len() as int)
}

/// Where the second separator is: after the symbol of the layout.
pub open spec fn second_separator(bar: Bar, st: StateV, mi: int, t: BarText) -> int {
    first_separator(bar, st, mi, t) + 7 + t.symbol.len() * bar.char_w + 6
}

/// Where the title starts.
pub open spec fn title_left(bar: Bar, st: StateV, mi: int, t: BarText) -> int {
    second_separator(bar, st, mi, t) + 7
}

/// Where the status text starts, so that it ends at the right edge.
pub open spec fn status_left(bar: Bar, st: StateV, mi: int, t: BarText) -> int {
    let room = st.monitors[mi].screen.w - (latin1_cut(t.status, 255).len() * bar.char_w + 8);
    if room < 0 {
        0
    } else {
        room
    }
}

/// The status text, where it does not run into the rest.
pub open spec fn status_ops(bar: Bar, st: StateV, mi: int, style: BarStyle, t: BarText) -> Seq<
    DrawOpV,
> {
    let text = latin1_cut(t.status, 255);
    let x = status_left(bar, st, mi, t);
    if x > title_left(bar, st, mi, t) + 8 && text.len() > 0 {
        seq![
            DrawOpV::Text {
                color: COL_STATUS,
                background: style.col_bar_bg,
                x,
                y: text_line(bar, style),
                text,
            },
        ]
    } else {
        Seq::empty()
    }
}

/// How many characters of a title there is room for.
pub open spec fn title_room(bar: Bar, st: StateV, mi: int, t: BarText) -> int {
    let px = status_left(bar, st, mi, t) - title_left(bar, st, mi, t) - 4;
    let n = if px < 0 {
        0
    } else {
        px / bar.char_w as int
    };
    if n > 255 {
        255
    } else {
        n
    }
}

/// The title of the focused window, cut to the room between the layout's symbol
/// and the status text.
pub open spec fn title_ops(bar: Bar, st: StateV, mi: int, style: BarStyle, t: BarText) -> Seq<
    DrawOpV,
> {
    let n = title_room(bar, st, mi, t);
    match st.monitors[mi].focused {
        Some(w) => if st.clients.contains_key(w) && n > 1 && st.clients[w].name@.len() > 0 {
            seq![
                DrawOpV::Text {
                    color: style.col_bar_fg,
                    background: style.col_bar_bg,
                    x: title_left(bar, st, mi, t),
                    y: text_line(bar, style),
                    text: latin1_cut(st.clients[w].name@, n),
                },
            ]
        } else {
            Seq::empty()
        },
        None => Seq::empty(),
    }
}

/// The background, and the marker of the selected monitor.
pub open spec fn ground_ops(st: StateV, mi: int, style: BarStyle) -> Seq<DrawOpV> {
    let h = style.bar_height as int;
    let ground = seq![
        DrawOpV::Fill {
            color: style.col_bar_bg,
            x: 0,
            y: 0,
            width: st.monitors[mi].screen.w as int,
            height: h,
        },
    ];
    if st.sel_mon == mi {
        ground.push(
            DrawOpV::Fill { color: style.col_bar_sel, x: 2, y: h / 2 - 4, width: 3, height: 8 },
        )
    } else {
        ground
    }
}

/// Separators and the symbol of the layout.
pub open spec fn layout_ops(bar: Bar, st: StateV, mi: int, style: BarStyle, t: BarText) -> Seq<
    DrawOpV,
> {
    let h = style.bar_height as int;
    let x = first_separator(bar, st, mi, t);
    seq![
        separator_op(x, h),
        DrawOpV::Text {
            color: COL_LAYOUT_CYAN,
            background: style.col_bar_bg,
            x: x + 7,
            y: text_line(bar, style),
            text: t.symbol,
        },
        separator_op(second_separator(bar, st, mi, t), h),
    ]
}

/// The line at the bottom, brighter on the selected monitor.
pub open spec fn accent_op(st: StateV, mi: int, style: BarStyle) -> DrawOpV {
    DrawOpV::Fill {
        color: if st.sel_mon == mi {
            style.col_bar_sel
        } else {
            COL_SEP
        },
        x: 0,
        y: style.bar_height - 2,
        width: st.monitors[mi].screen.w as int,
        height: 2,
    }
}

/// Everything on the bar of monitor `mi`, back to front.
pub open spec fn bar_ops(bar: Bar, st: StateV, mi: int, style: BarStyle, t: BarText) -> Seq<
    DrawOpV,
> {
    let n = st.monitors[mi].workspaces.len() as int;
    (ground_ops(st, mi, style) + tags_ops(bar, st, mi, style, t.names, n) + layout_ops(
        bar,
        st,
        mi,
        style,
        t,
    ) + status_ops(bar, st, mi, style, t) + title_ops(bar, st, mi, style, t)).push(
        accent_op(st, mi, style),
    )
}

/// The bar and everything up to the title can be placed in X coordinates.
pub open spec fn bar_fits(bar: Bar, st: StateV, mi: int, style: BarStyle, t: BarText) -> bool {
    &&& 8 <= style.bar_height <= 32767
    &&& bar.char_w > 0
    &&& -32768 <= text_line(bar, style) <= 32767
    &&& st.monitors[mi].screen.w <= 32767
    &&& t.symbol.len() <= 255
    &&& title_left(bar, st, mi, t) + 8 <= 32767
}

impl State {
    fn demands_attention(&self, ws: &Vec<WindowId>) -> (b: bool)
        ensures
            b == exists|i: int|
                0 <= i < ws@.len() && self@.client_on(#[trigger] ws@[i], WinFlags::URGENT),
    {
        let mut i: usize = 0;
        while i < ws.len()
            invariant
                i <= ws.len(),
                forall|j: int| 0 <= j < i ==> !self@.client_on(#[trigger] ws@[j], WinFlags::URGENT),
            decreases ws.len() - i,
        {
            let urgent: bool = match self.clients.get(&ws[i]) {
                Some(c) => c.flags.has(WinFlags::URGENT),
                None => false,
            };
            if urgent {
                assert(self@.client_on(ws@[i as int], WinFlags::URGENT));
                return true;
            }
            i = i + 1;
        }
        false
    }

    fn tag_look(&self, mi: usize, wi: usize) -> (l: TagLook)
        requires
            self@.has_ws(mi as int, wi as int),
        ensures
            l == look_of(self@, mi as int, wi as int),
    {
        assert(self@.monitors[mi as int] == self.monitors@[mi as int]@);
        assert(self@.monitors[mi as int].workspaces[wi as int]
            == self.monitors@[mi as int].workspaces@[wi as int]@);
        let ws: Vec<WindowId> = workspace_windows(&self.monitors[mi].workspaces[wi]);
        TagLook {
            active: wi == self.monitors[mi].active_ws,
            urgent: self.demands_attention(&ws),
            occupied: !self.monitors[mi].workspaces[wi].is_empty(),
        }
    }
}

impl Bar {
    fn draw_tag(
        &self,
        out: &mut Vec<DrawOp>,
        style: &BarStyle,
        look: &TagLook,
        label: Vec<u8>,
        x: i16,
        text_y: i16,
    )
        requires
            label@.len() <= 255,
            8 <= style.bar_height <= 32767,
            0 <= x,
            x + tag_width_of(label@, self.char_w) + 2 <= 32767,
        ensures
            op_views(final(out)@) == op_views(old(out)@) + tag_ops(
                *style,
                *look,
                label@,
                self.char_w,
                x as int,
                text_y as int,
            ),
    {
        let ghost before = op_views(out@);
        let h: u16 = style.bar_height as u16;
        let w: u64 = self.text_width(&label);
        let pill: bool = look.active || look.urgent;
        if pill {
            fill(
                out,
                if look.active { style.col_bar_sel } else { style.col_urgent },
                x,
                2,
                (w + 20) as u16,
                h - 4,
            );
        }
        let color: u32 = if pill {
            style.col_bar_bg
        } else if look.occupied {
            COL_OCC
        } else {
            COL_SURFACE2
        };
        write_text(out, color, style.col_bar_bg, x + TAG_PAD, text_y, label);
        if look.occupied && !pill {
            fill(out, COL_OCC, (x as i64 + 10 + w as i64 + 2) as i16, h as i16 / 2 - 1, 3, 3);
        }
        assert(op_views(out@) =~= before + tag_ops(
            *style,
            *look,
            label@,
            self.char_w,
            x as int,
            text_y as int,
        ));
    }

    fn draw_ground(&self, out: &mut Vec<DrawOp>, state: &State, mi: usize, style: &BarStyle)
        requires
            mi < state.monitors.len(),
            8 <= style.bar_height <= 32767,
            state@.monitors[mi as int].screen.w <= 32767,
        ensures
            op_views(final(out)@) == op_views(old(out)@) + ground_ops(state@, mi as int, *style),
    {
        assert(state@.monitors[mi as int] == state.monitors@[mi as int]@);
        let ghost before = op_views(out@);
        let h: u16 = style.bar_height as u16;
        fill(out, style.col_bar_bg, 0, 0, state.monitors[mi].screen.w as u16, h);
        if state.sel_mon == mi {
            fill(out, style.col_bar_sel, 2, h as i16 / 2 - 4, 3, 8);
        }
        assert(op_views(out@) =~= before + ground_ops(state@, mi as int, *style));
    }

    fn draw_tags(
        &self,
        out: &mut Vec<DrawOp>,
        state: &State,
        mi: usize,
        style: &BarStyle,
        names: &Vec<String>,
        text_y: i16,
    ) -> (x: i16)
        requires
            mi < state.monitors.len(),
            8 <= style.bar_height <= 32767,
            text_y == text_line(*self, *style),
            tag_left(
                texts(names@),
                self.char_w,
                state@.monitors[mi as int].workspaces.len() as int,
            ) <= 32767,
        ensures
            x == tag_left(
                texts(names@),
                self.char_w,
                state@.monitors[mi as int].workspaces.len() as int,
            ),
            op_views(final(out)@) == op_views(old(out)@) + tags_ops(
                *self,
                state@,
                mi as int,
                *style,
                texts(names@),
                state@.monitors[mi as int].workspaces.len() as int,
            ),
    {
        assert(state@.monitors[mi as int] == state.monitors@[mi as int]@);
        let ghost before = op_views(out@);
        let ghost ts = texts(names@);
        let n: usize = state.monitors[mi].workspaces.len();
        let mut x: i16 = START_X;
        let mut i: usize = 0;
        assert(op_views(out@) =~= before + tags_ops(*self, state@, mi as int, *style, ts, 0));
        while i < n
            invariant
                i <= n,
                n == state@.monitors[mi as int].workspaces.len(),
                mi < state.monitors.len(),
                8 <= style.bar_height <= 32767,
                text_y == text_line(*self, *style),
                ts == texts(names@),
                tag_left(ts, self.char_w, n as int) <= 32767,
                x == tag_left(ts, self.char_w, i as int),
                op_views(out@) == before + tags_ops(
                    *self,
                    state@,
                    mi as int,
                    *style,
                    ts,
                    i as int,
                ),
            decreases n - i,
        {
            let look: TagLook = state.tag_look(mi, i);
            let label: Vec<u8> = label_at(names, i);
            let w: u64 = self.text_width(&label);
            proof {
                tags_stand_in_order(ts, self.char_w, 0, i as int);
                tags_stand_in_order(ts, self.char_w, i as int + 1, n as int);
                assert(tag_left(ts, self.char_w, i as int + 1) == x + tag_width_of(
                    label@,
                    self.char_w,
                ) + 2);
            }
            self.draw_tag(out, style, &look, label, x, text_y);
            proof {
                assert(op_views(out@) =~= before + tags_ops(
                    *self,
                    state@,
                    mi as int,
                    *style,
                    ts,
                    i as int + 1,
                ));
            }
            x = (x as i64 + w as i64 + 22) as i16;
            i = i + 1;
        }
        x
    }

    /// The requests that draw the bar of monitor `mi`. `symbol` is the one of the
    /// layout on show.
    #[verifier::spinoff_prover]
    pub fn draw(
        &self,
        state: &State,
        mi: usize,
        style: &BarStyle,
        names: &Vec<String>,
        symbol: &Vec<u8>,
        status: &String,
    ) -> (out: Vec<DrawOp>)
        requires
            mi < state.monitors.len(),
            bar_fits(
                *self,
                state@,
                mi as int,
                *style,
                BarText { names: texts(names@), symbol: symbol@, status: status@ },
            ),
        ensures
            op_views(out@) == bar_ops(
                *self,
                state@,
                mi as int,
                *style,
                BarText { names: texts(names@), symbol: symbol@, status: status@ },
            ),
    {
        let ghost t = BarText { names: texts(names@), symbol: symbol@, status: status@ };
        let ghost st = state@;
        let ghost m = mi as int;
        assert(state@.monitors[mi as int] == state.monitors@[mi as int]@);
        let h: u16 = style.bar_height as u16;
        let ascent: i64 = self.font_ascent as i64;
        let rise: i64 = if ascent >= 0 {
            ascent / 2
        } else {
            -((-ascent) / 2)
        };
        let text_y: i16 = (style.bar_height as i64 / 2 + rise) as i16;
        let w: u64 = self.text_width(symbol);
        proof {
            tags_stand_in_order(t.names, self.char_w, 0, st.monitors[m].workspaces.len() as int);
            assert(t.symbol.len() * self.char_w >= 0) by (nonlinear_arith);
        }
        let mut out: Vec<DrawOp> = Vec::new();
        assert(op_views(out@) =~= Seq::<DrawOpV>::empty());
        self.draw_ground(&mut out, state, mi, style);
        let x1: i16 = self.draw_tags(&mut out, state, mi, style, names, text_y);
        let ghost so_far = op_views(out@);
        assert(so_far =~= ground_ops(st, m, *style) + tags_ops(
            *self,
            st,
            m,
            *style,
            t.names,
            st.monitors[m].workspaces.len() as int,
        ));
        fill(&mut out, COL_SEP, x1, 4, 1, h - 8);
        let x2: i16 = x1 + 1 + SEP_W as i16;
        write_text(&mut out, COL_LAYOUT_CYAN, style.col_bar_bg, x2, text_y, copy_bytes(symbol));
        let x3: i16 = (x2 as i64 + w as i64 + 6) as i16;
        fill(&mut out, COL_SEP, x3, 4, 1, h - 8);
        let x4: i16 = x3 + 1 + SEP_W as i16;
        assert(op_views(out@) =~= so_far + layout_ops(*self, st, m, *style, t));
        let ghost laid = op_views(out@);
        let text: Vec<u8> = truncate_latin1(status.as_str(), 255);
        proof {
            cut_text_fits(status@, 255);
        }
        let sw: u64 = self.text_width(&text) + 8;
        let bar_w: u64 = state.monitors[mi].screen.w as u64;
        let sx: i16 = if sw > bar_w { 0 } else { (bar_w - sw) as i16 };
        assert(sx == status_left(*self, st, m, t));
        if sx > x4 + 8 && text.len() > 0 {
            write_text(&mut out, COL_STATUS, style.col_bar_bg, sx, text_y, text);
        }
        assert(op_views(out@) =~= laid + status_ops(*self, st, m, *style, t));
        let ghost stated = op_views(out@);
        self.draw_title(&mut out, state, mi, style, x4, sx, text_y, Ghost(t));
        fill(
            &mut out,
            if state.sel_mon == mi { style.col_bar_sel } else { COL_SEP },
            0,
            h as i16 - ACCENT_H as i16,
            bar_w as u16,
            ACCENT_H,
        );
        assert(op_views(out@) =~= (stated + title_ops(*self, st, m, *style, t)).push(
            accent_op(st, m, *style),
        ));
        out
    }

    fn draw_title(
        &self,
        out: &mut Vec<DrawOp>,
        state: &State,
        mi: usize,
        style: &BarStyle,
        x: i16,
        status_x: i16,
        text_y: i16,
        Ghost(t): Ghost<BarText>,
    )
        requires
            mi < state.monitors.len(),
            self.char_w > 0,
            text_y == text_line(*self, *style),
            x == title_left(*self, state@, mi as int, t),
            status_x == status_left(*self, state@, mi as int, t),
        ensures
            op_views(final(out)@) == op_views(old(out)@) + title_ops(
                *self,
                state@,
                mi as int,
                *style,
                t,
            ),
    {
        assert(state@.monitors[mi as int] == state.monitors@[mi as int]@);
        let ghost before = op_views(out@);
        let px: i64 = status_x as i64 - x as i64 - 4;
        let room: i64 = if px < 0 { 0 } else { px / self.char_w as i64 };
        assert(room <= 65535) by {
            assert(px >= 0 ==> px / self.char_w as i64 <= px) by (nonlinear_arith)
                requires
                    self.char_w > 0,
            ;
        }
        let n: usize = if room > 255 { 255 } else { room as usize };
        assert(n == title_room(*self, state@, mi as int, t));
        match state.monitors[mi].focused {
            Some(f) => match state.clients.get(&f) {
                Some(c) => {
                    if n > 1 {
                        let title: Vec<u8> = truncate_latin1(c.name.as_str(), n);
                        proof {
                            cut_text_fits(c.name@, n as int);
                        }
                        if title.len() > 0 {
                            write_text(out, style.col_bar_fg, style.col_bar_bg, x, text_y, title);
                        }
                    }
                },
                None => {},
            },
            None => {},
        }
        assert(op_views(out@) =~= before + title_ops(*self, state@, mi as int, *style, t));
    }
}

fn copy_bytes(v: &Vec<u8>) -> (r: Vec<u8>)
    ensures
        r@ == v@,
{
    let mut r: Vec<u8> = Vec::new();
    let mut i: usize = 0;
    while i < v.len()
        invariant
            i <= v.len(),
            r@ == v@.take(i as int),
        decreases v.len() - i,
    {
        r.push(v[i]);
        assert(v@.take(i as int + 1) =~= v@.take(i as int).push(v@[i as int]));
        i = i + 1;
    }
    assert(v@.take(i as int) =~= v@);
    r
}

// ---- Which bars to draw -----------------------------------------------------

/// The monitors whose bar is to be drawn anew, one bit each; monitors from the
/// 65th on have none.
#[derive(Debug, Clone, Copy, PartialEq, Eq, Structural)]
pub struct BarMarks {
    pub bits: u64,
}

impl BarMarks {
    /// The bar of monitor `mi` is to be drawn anew.
    pub open spec fn marked(self, mi: u64) -> bool {
        mi < 64 && self.bits & (1u64 << mi) != 0
    }

    pub fn mark_bar(&mut self, mi: u64)
        ensures
            forall|j: u64| #[trigger]
                final(self).marked(j) == (old(self).marked(j) || j == mi && mi < 64),
    {
        if mi < 64 {
            let b: u64 = self.bits;
            self.bits = b | (1u64 << mi);
            assert forall|j: u64| j < 64 implies ((b | (1u64 << mi)) & (1u64 << j) != 0) == (b & (
            1u64 << j) != 0 || j == mi) by {
                assert(((b | (1u64 << mi)) & (1u64 << j) != 0) == (b & (1u64 << j) != 0 || j
                    == mi)) by (bit_vector)
                    requires
                        j < 64,
                        mi < 64,
                ;
            }
        }
    }

    /// Mark the bars of the first `n` monitors.
    pub fn mark_all_bars(&mut self, n: u64)
        ensures
            forall|j: u64| #[trigger]
                final(self).marked(j) == (old(self).marked(j) || j < n && j < 64),
    {
        let b: u64 = self.bits;
        if n >= 64 {
            self.bits = u64::MAX;
            assert forall|j: u64| j < 64 implies 0xffff_ffff_ffff_ffffu64 & (1u64 << j) != 0 by {
                assert(0xffff_ffff_ffff_ffffu64 & (1u64 << j) != 0) by (bit_vector)
                    requires
                        j < 64,
                ;
            }
        } else {
            assert(1u64 << n >= 1) by (bit_vector)
                requires
                    n < 64,
            ;
            self.bits = b | ((1u64 << n) - 1);
            assert forall|j: u64| j < 64 implies ((b | (((1u64 << n) - 1) as u64)) & (1u64 << j)
                != 0) == (b & (1u64 << j) != 0 || j < n) by {
                assert(((b | (((1u64 << n) - 1) as u64)) & (1u64 << j) != 0) == (b & (1u64 << j)
                    != 0 || j < n)) by (bit_vector)
                    requires
                        j < 64,
                        n < 64,
                ;
            }
        }
    }

    /// Take the marks of the first `n` monitors; none are left.
    pub fn flush_bars(&mut self, n: u64) -> (out: Vec<u64>)
        ensures
            final(self).bits == 0,
            out@.no_duplicates(),
            forall|j: u64| #[trigger] out@.contains(j) <==> j < n && old(self).marked(j),
    {
        let b: BarMarks = *self;
        self.bits = 0;
        let top: u64 = if n > 64 { 64 } else { n };
        let mut out: Vec<u64> = Vec::new();
        let mut i: u64 = 0;
        while i < top
            invariant
                i <= top <= 64,
                forall|k: int| 0 <= k < out@.len() ==> out@[k] < i,
                out@.no_duplicates(),
                forall|j: u64| #[trigger] out@.contains(j) <==> j < i && b.marked(j),
            decreases top - i,
        {
            if b.bits & (1u64 << i) != 0 {
                let ghost before = out@;
                out.push(i);
                assert forall|j: u64| #[trigger] out@.contains(j) <==> j < i + 1 && b.marked(j) by {
                    if before.contains(j) {
                        let k = choose|k: int| 0 <= k < before.len() && before[k] == j;
                        assert(out@[k] == j);
                    }
                    if j == i {
                        assert(out@[before.len() as int] == i);
                    }
                    if out@.contains(j) && j != i {
                        let k = choose|k: int| 0 <= k < out@.len() && out@[k] == j;
                        assert(before[k] == j);
                    }
                }
            }
            i = i + 1;
        }
        out
    }
}

/// The twelve words of the strut of a bar at the top or bottom of the screen.
pub open spec fn strut_words(top: bool, bar_height: u32, screen: Rect) -> Seq<u32> {
    let l = screen.x as u32;
    let r = screen.right_edge() as i32 as u32;
    if top {
        seq![0u32, 0, bar_height, 0, 0, 0, 0, 0, l, r, 0, 0]
    } else {
        seq![0u32, 0, 0, bar_height, 0, 0, 0, 0, 0, 0, l, r]
    }
}

/// What a bar at the top or bottom of the screen reserves.
pub fn bar_strut(top: bool, bar_height: u32, screen: Rect) -> (s: [u32; 12])
    requires
        screen.right_edge() <= i32::MAX,
    ensures
        s@ == strut_words(top, bar_height, screen),
{
    let l: u32 = #[verifier::truncate] (screen.x as u32);
    let far: i32 = screen.right();
    let r: u32 = #[verifier::truncate] (far as u32);
    if top {
        [0, 0, bar_height, 0, 0, 0, 0, 0, l, r, 0, 0]
    } else {
        [0, 0, 0, bar_height, 0, 0, 0, 0, 0, 0, l, r]
    }
}

/// A bar reserves just its own edge.
pub proof fn bar_reserves_its_own_edge(top: bool, bar_height: u32, screen: Rect)
    requires
        bar_height > 0,
    ensures
        strut_edge_list(strut_words(top, bar_height, screen)) == seq![
            (
                if top {
                    Edge::Top
                } else {
                    Edge::Bottom
                },
                bar_height,
            ),
        ],
{
    assert(strut_edge_list(strut_words(top, bar_height, screen)) =~= seq![
        (
            if top {
                Edge::Top
            } else {
                Edge::Bottom
            },
            bar_height,
        ),
    ]);
}

/// A title ends before the status text begins.
pub proof fn title_stops_before_the_status(bar: Bar, st: StateV, mi: int, t: BarText, name: Seq<char>)
    requires
        bar.char_w > 0,
        title_room(bar, st, mi, t) > 1,
    ensures
        title_left(bar, st, mi, t) + latin1_cut(name, title_room(bar, st, mi, t)).len()
            * bar.char_w + 4 <= status_left(bar, st, mi, t),
{
    let n = title_room(bar, st, mi, t);
    let px = status_left(bar, st, mi, t) - title_left(bar, st, mi, t) - 4;
    let w = bar.char_w as int;
    cut_text_fits(name, n);
    let len = latin1_cut(name, n).len() as int;
    assert(len * w <= px) by (nonlinear_arith)
        requires
            0 <= len <= n,
            n <= px / w,
            w > 0,
            px >= 0,
    ;
}

// ---- What the bar shows -----------------------------------------------------

/// A character of the Latin-1 set is drawn as itself and any other as a question
/// mark; a text that is too long ends in three dots.
pub proof fn text_is_drawn_in_latin_1(s: Seq<char>, max: int, i: int)
    requires
        0 <= i < s.len(),
        i < max,
    ensures
        s.len() <= max ==> latin1_cut(s, max).len() == s.len(),
        s.len() <= max || i < max - 3 || max <= 3 ==> ({
            let b = latin1_cut(s, max)[i];
            &&& s[i] as u32 <= 255 ==> b == s[i] as u8
            &&& s[i] as u32 > 255 ==> b == 63
        }),
        s.len() > max && max > 3 && i >= max - 3 ==> latin1_cut(s, max)[i] == 46,
{
}

/// The tags follow each other from the ninth pixel on, each as wide as its label and
/// ten pixels on either side, two pixels apart.
pub proof fn tags_are_as_wide_as_their_labels(names: Seq<Seq<char>>, char_w: u32, i: int)
    requires
        0 <= i < names.len(),
        names[i].len() <= 255,
    ensures
        tag_left(names, char_w, 0) == 9,
        tag_left(names, char_w, i + 1) == tag_left(names, char_w, i) + 10 + names[i].len() * char_w
            + 10 + 2,
{
}

/// The look of a tag is that of its workspace: active where the workspace is on show,
/// occupied where it holds a window, urgent where one of them asks for attention.
pub proof fn tag_looks_like_its_workspace(st: StateV, mi: int, wi: int)
    ensures
        ({
            let l = look_of(st, mi, wi);
            let ws = st.monitors[mi].workspaces[wi];
            &&& l.active <==> st.monitors[mi].active_ws == wi
            &&& l.urgent <==> exists|w: WindowId|
                #![trigger st.clients[w]]
                all_windows(ws).contains(w) && st.clients.contains_key(w)
                    && st.clients[w].flags.on(WinFlags::URGENT)
            &&& l.occupied <==> ws.columns.len() > 0 || ws.floats.len() > 0
        }),
{
    let ws = st.monitors[mi].workspaces[wi];
    if wants_attention(st, mi, wi) {
        let i = choose|i: int|
            0 <= i < all_windows(ws).len() && st.client_on(
                #[trigger] all_windows(ws)[i],
                WinFlags::URGENT,
            );
        let w = all_windows(ws)[i];
        assert(all_windows(ws).contains(w) && st.clients[w].flags.on(WinFlags::URGENT));
    }
    if exists|w: WindowId|
        #![trigger st.clients[w]]
        all_windows(ws).contains(w) && st.clients.contains_key(w) && st.clients[w].flags.on(
            WinFlags::URGENT,
        ) {
        let w = choose|w: WindowId|
            #![trigger st.clients[w]]
            all_windows(ws).contains(w) && st.clients.contains_key(w) && st.clients[w].flags.on(
                WinFlags::URGENT,
            );
        let i = choose|i: int| 0 <= i < all_windows(ws).len() && all_windows(ws)[i] == w;
        assert(st.client_on(all_windows(ws)[i], WinFlags::URGENT));
    }
}

/// A tag has a pill under its label where it is active or urgent, in the colour of
/// the selection or else of urgency, and a dot behind it where it is merely occupied;
/// its label always stands ten pixels in.
pub proof fn tag_is_drawn_as_it_looks(
    style: BarStyle,
    look: TagLook,
    label: Seq<u8>,
    char_w: u32,
    x: int,
    text_y: int,
)
    ensures
        ({
            let o = tag_ops(style, look, label, char_w, x, text_y);
            let wide = label.len() * char_w + 20;
            let h = style.bar_height as int;
            let text = |c: u32|
                DrawOpV::Text {
                    color: c,
                    background: style.col_bar_bg,
                    x: x + 10,
                    y: text_y,
                    text: label,
                };
            &&& look.active ==> o == seq![
                DrawOpV::Fill { color: style.col_bar_sel, x, y: 2, width: wide, height: h - 4 },
                text(style.col_bar_bg),
            ]
            &&& !look.active && look.urgent ==> o == seq![
                DrawOpV::Fill { color: style.col_urgent, x, y: 2, width: wide, height: h - 4 },
                text(style.col_bar_bg),
            ]
            &&& !look.active && !look.urgent && look.occupied ==> o == seq![
                text(0xa6e3a1),
                DrawOpV::Fill {
                    color: 0xa6e3a1,
                    x: x + 10 + label.len() * char_w + 2,
                    y: h / 2 - 1,
                    width: 3,
                    height: 3,
                },
            ]
            &&& !look.active && !look.urgent && !look.occupied ==> o == seq![text(0x585b70)]
        }),
{
}

/// Each workspace's tag is drawn after those before it, where its tag stands and as
/// it looks.
pub proof fn tags_are_drawn_in_their_places(
    bar: Bar,
    st: StateV,
    mi: int,
    style: BarStyle,
    names: Seq<Seq<char>>,
    n: int,
)
    requires
        n >= 0,
    ensures
        tags_ops(bar, st, mi, style, names, 0).len() == 0,
        tags_ops(bar, st, mi, style, names, n + 1) == tags_ops(bar, st, mi, style, names, n)
            + tag_ops(
            style,
            look_of(st, mi, n),
            label_of(names, n),
            bar.char_w,
            tag_left(names, bar.char_w, n),
            style.bar_height as int / 2 + half(bar.font_ascent as int),
        ),
{
}

/// The status stands at the right end of the bar, eight pixels from it, and is drawn
/// just where it leaves room for the title; the title is that of the focused window.
pub proof fn status_stands_at_the_right(bar: Bar, st: StateV, mi: int, style: BarStyle, t: BarText)
    requires
        t.status.len() <= 255,
        t.status.len() * bar.char_w + 8 <= st.monitors[mi].screen.w,
    ensures
        ({
            let x = status_left(bar, st, mi, t);
            let o = status_ops(bar, st, mi, style, t);
            &&& x + t.status.len() * bar.char_w + 8 == st.monitors[mi].screen.w
            &&& o.len() == 1 <==> t.status.len() > 0 && x > title_left(bar, st, mi, t) + 8
            &&& o.len() == 0 <==> t.status.len() == 0 || x <= title_left(bar, st, mi, t) + 8
            &&& o.len() == 1 ==> (o[0] matches DrawOpV::Text { x: at, text, .. } && at == x && text
                == latin1(t.status, 255))
        }),
{
    cut_text_fits(t.status, 255);
    assert(latin1_cut(t.status, 255) == latin1(t.status, 255));
}

/// The title on the bar is the name of the monitor's focused window; there is none
/// where no window has the focus.
pub proof fn title_is_that_of_the_focused_window(
    bar: Bar,
    st: StateV,
    mi: int,
    style: BarStyle,
    t: BarText,
)
    ensures
        ({
            let o = title_ops(bar, st, mi, style, t);
            let f = st.monitors[mi].focused;
            &&& f is None ==> o.len() == 0
            &&& f is Some && st.clients.contains_key(f->0) && st.clients[f->0].name@.len() > 0
                && title_room(bar, st, mi, t) > 1 ==> o.len() == 1 && (
            o[0] matches DrawOpV::Text { color, x, text, .. } && color == style.col_bar_fg && x
                == title_left(bar, st, mi, t) && text == latin1_cut(
                st.clients[f->0].name@,
                title_room(bar, st, mi, t),
            ))
        }),
{
}

/// The bar's ground covers it whole and is drawn first; the line along its lower edge
/// is drawn last, in the colour of the selection on the selected monitor alone.
pub proof fn bar_is_drawn_from_ground_to_accent(
    bar: Bar,
    st: StateV,
    mi: int,
    style: BarStyle,
    t: BarText,
)
    ensures
        ({
            let o = bar_ops(bar, st, mi, style, t);
            let w = st.monitors[mi].screen.w as int;
            let h = style.bar_height as int;
            &&& o.len() >= 2
            &&& o[0] == (DrawOpV::Fill {
                color: style.col_bar_bg,
                x: 0,
                y: 0,
                width: w,
                height: h,
            })
            &&& o.last() == (DrawOpV::Fill {
                color: if st.sel_mon == mi {
                    style.col_bar_sel
                } else {
                    COL_SEP
                },
                x: 0,
                y: h - 2,
                width: w,
                height: 2,
            })
        }),
{
    assert(ground_ops(st, mi, style)[0] == (DrawOpV::Fill {
        color: style.col_bar_bg,
        x: 0,
        y: 0,
        width: st.monitors[mi].screen.w as int,
        height: style.bar_height as int,
    }));
}

/// The bar reserves its height along its own edge, over the width of its screen.
pub proof fn bar_strut_spans_its_screen(top: bool, bar_height: u32, screen: Rect)
    requires
        0 <= screen.x,
        screen.right_edge() <= i32::MAX,
    ensures
        ({
            let s = strut_words(top, bar_height, screen);
            let edge = if top {
                2int
            } else {
                3int
            };
            let span = if top {
                8int
            } else {
                10int
            };
            &&& s.len() == 12
            &&& s[edge] == bar_height && s[span] == screen.x && s[span + 1] == screen.x + screen.w
            &&& forall|i: int|
                0 <= i < 12 && i != edge && i != span && i != span + 1 ==> #[trigger] s[i] == 0
        }),
{
}

/// The layout's symbol stands between two lines, seven pixels behind the first and
/// six before the second, and the title seven pixels behind that.
pub proof fn symbol_stands_between_two_lines(
    bar: Bar,
    st: StateV,
    mi: int,
    style: BarStyle,
    t: BarText,
)
    ensures
        ({
            let o = layout_ops(bar, st, mi, style, t);
            let first = tag_left(t.names, bar.char_w, st.monitors[mi].workspaces.len() as int);
            let second = first + 7 + t.symbol.len() * bar.char_w + 6;
            &&& o.len() == 3
            &&& o[0] matches DrawOpV::Fill { x, y, width, height, .. } && x == first && y == 4
                && width == 1 && height == style.bar_height - 8
            &&& o[1] matches DrawOpV::Text { x, text, .. } && x == first + 7 && text == t.symbol
            &&& o[2] matches DrawOpV::Fill { x, y, width, height, .. } && x == second && y == 4
                && width == 1 && height == style.bar_height - 8
            &&& title_left(bar, st, mi, t) == second + 7
        }),
{
}

} // verus!
