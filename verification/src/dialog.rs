//! The dialog that asks before the window manager quits.

use crate::bar::{op_views, DrawOp, DrawOpV};
use crate::geom::Rect;
use vstd::prelude::*;

verus! {

/// Width and height of the dialog.
pub const DIALOG_W: u16 = 370;

pub const DIALOG_H: u16 = 96;

/// Height of its title bar.
pub const HEADER_H: u16 = 22;

/// Half of `n`, rounded towards zero.
pub open spec fn toward_zero_half(n: int) -> int {
    if n >= 0 {
        n / 2
    } else {
        -((-n) / 2)
    }
}

/// Where the dialog is, and its colours.
#[derive(Debug, Clone, Copy, PartialEq, Eq, Structural)]
pub struct QuitDialog {
    pub x: i16,
    pub y: i16,
    pub bg: u32,
    pub fg: u32,
    pub accent: u32,
    /// Half as bright as `fg`.
    pub dim: u32,
}

/// The monitor has a place that X coordinates can name.
pub open spec fn placeable(screen: Rect) -> bool {
    &&& -32768 <= screen.x
    &&& -32768 <= screen.y
    &&& screen.w <= 32767
    &&& screen.h <= 32767
    &&& screen.right_edge() <= 32767
    &&& screen.bottom_edge() <= 32767
    &&& screen.x + toward_zero_half(screen.w - 370) >= -32768
    &&& screen.y + toward_zero_half(screen.h - 96) >= -32768
}

/// The window of the question, in the middle of the monitor.
pub open spec fn dialog_at(screen: Rect, bg: u32, fg: u32, accent: u32) -> QuitDialog {
    QuitDialog {
        x: (screen.x + toward_zero_half(screen.w - 370)) as i16,
        y: (screen.y + toward_zero_half(screen.h - 96)) as i16,
        bg,
        fg,
        accent,
        dim: (fg & 0xfefefe) >> 1,
    }
}

fn half_of(n: i32) -> (r: i32)
    ensures
        r == toward_zero_half(n as int),
{
    if n >= 0 {
        n / 2
    } else if n == i32::MIN {
        -0x4000_0000
    } else {
        -((-n) / 2)
    }
}

fn bytes_of(s: &str) -> (v: Vec<u8>)
    ensures
        v@ == vstd::utf8::encode_utf8(s@),
{
    s.as_bytes_vec()
}

/// The bytes of a text that is drawn.
pub open spec fn drawn(s: Seq<char>) -> Seq<u8> {
    vstd::utf8::encode_utf8(s)
}

impl QuitDialog {
    pub fn place(screen: Rect, bg: u32, fg: u32, accent: u32) -> (d: QuitDialog)
        requires
            placeable(screen),
        ensures
            d == dialog_at(screen, bg, fg, accent),
    {
        QuitDialog {
            x: (screen.x + half_of(screen.w as i32 - 370)) as i16,
            y: (screen.y + half_of(screen.h as i32 - 96)) as i16,
            bg,
            fg,
            accent,
            dim: (fg & 0xfefefe) >> 1,
        }
    }

    /// What the dialog shows: a title bar, the question, and the keys that answer
    /// it.
    pub open spec fn ops(self) -> Seq<DrawOpV> {
        seq![
            DrawOpV::Fill { color: self.accent, x: 0, y: 0, width: 370, height: 22 },
            DrawOpV::Text {
                color: self.bg,
                background: self.bg,
                x: 10,
                y: 15,
                text: drawn("maverick"@),
            },
            DrawOpV::Fill { color: self.bg, x: 0, y: 22, width: 370, height: 74 },
            DrawOpV::Text {
                color: self.fg,
                background: self.bg,
                x: 14,
                y: 50,
                text: drawn("Seguro que quieres salir de maverick?"@),
            },
            DrawOpV::Text {
                color: self.dim,
                background: self.bg,
                x: 14,
                y: 78,
                text: drawn("[Y / Enter] Si      [N / Escape] Cancelar"@),
            },
        ]
    }

    pub fn paint(&self) -> (out: Vec<DrawOp>)
        ensures
            op_views(out@) == self.ops(),
    {
        let body: u16 = DIALOG_H - HEADER_H;
        let out: Vec<DrawOp> = vec![
            DrawOp::Fill { color: self.accent, x: 0, y: 0, width: DIALOG_W, height: HEADER_H },
            DrawOp::Text {
                color: self.bg,
                background: self.bg,
                x: 10,
                y: 15,
                text: bytes_of("maverick"),
            },
            DrawOp::Fill {
                color: self.bg,
                x: 0,
                y: HEADER_H as i16,
                width: DIALOG_W,
                height: body,
            },
            DrawOp::Text {
                color: self.fg,
                background: self.bg,
                x: 14,
                y: 50,
                text: bytes_of("Seguro que quieres salir de maverick?"),
            },
            DrawOp::Text {
                color: self.dim,
                background: self.bg,
                x: 14,
                y: 78,
                text: bytes_of("[Y / Enter] Si      [N / Escape] Cancelar"),
            },
        ];
        assert(op_views(out@) =~= self.ops());
        out
    }
}

/// What a key answers: yes to Y and both Enters, no to N and Escape, nothing to
/// any other key.
pub fn quit_answer(keycode: u8) -> (r: Option<bool>)
    ensures
        r == (if keycode == 29 || keycode == 36 || keycode == 104 {
            Some(true)
        } else if keycode == 57 || keycode == 9 {
            Some(false)
        } else {
            None
        }),
{
    if keycode == 29 || keycode == 36 || keycode == 104 {
        Some(true)
    } else if keycode == 57 || keycode == 9 {
        Some(false)
    } else {
        None
    }
}

/// On a monitor that has room for it, the whole dialog is on the monitor.
pub proof fn dialog_is_on_its_monitor(screen: Rect, bg: u32, fg: u32, accent: u32)
    requires
        placeable(screen),
        screen.w >= 370,
        screen.h >= 96,
    ensures
        ({
            let d = dialog_at(screen, bg, fg, accent);
            screen.encloses(Rect { x: d.x as i32, y: d.y as i32, w: 370, h: 96 })
        }),
{
}

/// The dialog stands in the middle of its screen, to the pixel, in the colours given;
/// its hint is written in half the brightness of its text.
pub proof fn dialog_is_in_the_middle(screen: Rect, bg: u32, fg: u32, accent: u32)
    requires
        placeable(screen),
        screen.w >= 370,
        screen.h >= 96,
    ensures
        ({
            let d = dialog_at(screen, bg, fg, accent);
            let left = d.x - screen.x;
            let right = screen.x + screen.w - (d.x + 370);
            let above = d.y - screen.y;
            let below = screen.y + screen.h - (d.y + 96);
            &&& 0 <= right - left <= 1
            &&& 0 <= below - above <= 1
            &&& d.bg == bg && d.fg == fg && d.accent == accent
            &&& d.dim % 256 == fg % 256 / 2
            &&& d.dim / 256 % 256 == fg / 256 % 256 / 2
            &&& d.dim / 65536 == fg / 65536 % 256 / 2
        }),
{
    assert(((fg & 0xfefefe) >> 1) % 256 == fg % 256 / 2 && ((fg & 0xfefefe) >> 1) / 256 % 256 == fg
        / 256 % 256 / 2 && ((fg & 0xfefefe) >> 1) / 65536 == fg / 65536 % 256 / 2) by (bit_vector);
}

/// The dialog's header and body fill it from top to bottom, and its text stands
/// inside it.
pub proof fn dialog_is_filled(d: QuitDialog)
    ensures
        ({
            let o = d.ops();
            &&& o.len() == 5
            &&& o[0] matches DrawOpV::Fill { color, x, y, width, height } && color == d.accent && x
                == 0 && y == 0 && width == 370 && (o[2] matches DrawOpV::Fill {
                color: c,
                x: x2,
                y: y2,
                width: w2,
                height: h2,
            } && c == d.bg && x2 == 0 && y2 == height && w2 == 370 && height + h2 == 96)
            &&& o[1] matches DrawOpV::Text { x, y, .. } && x == 10 && y == 15
            &&& o[3] matches DrawOpV::Text { color, background, x, y, .. } && color == d.fg
                && background == d.bg && x == 14 && y == 50
            &&& o[4] matches DrawOpV::Text { color, background, x, y, .. } && color == d.dim
                && background == d.bg && x == 14 && y == 78
        }),
{
}

} // verus!
