//! What window properties say, once their replies are in.

use crate::atoms::Atoms;
use crate::geom::Rect;
use crate::model::{Client, SizeHints, WinFlags, WindowId};
use crate::text::{after_nul, before_nul, from_utf8_lossy, lossy_text, split_nul, texts};
use crate::xproto::{are_native_words, predefined_atoms, Property};
use vstd::prelude::*;
use vstd::string::*;

verus! {

// ---- Words of a reply -------------------------------------------------------

/// `v` is what a reply holds as words: nothing where there is no reply or the
/// property is no list of words.
pub open spec fn holds_words(p: Option<Property>, v: Option<Seq<u32>>) -> bool {
    match p {
        Some(p) => if p.format == 32 {
            v is Some && are_native_words(v->0, p.value@)
        } else {
            v is None
        },
        None => v is None,
    }
}

/// `v` is what a reply holds as a list of atoms: empty where there is no reply or
/// the property is no list of atoms.
pub open spec fn holds_atoms(p: Option<Property>, v: Seq<u32>) -> bool {
    match p {
        Some(p) => if p.type_ == 4 && p.format == 32 {
            are_native_words(v, p.value@)
        } else {
            v.len() == 0
        },
        None => v.len() == 0,
    }
}

/// The view of a list of words that may be missing.
pub open spec fn words_view(v: Option<Vec<u32>>) -> Option<Seq<u32>> {
    match v {
        Some(v) => Some(v@),
        None => None,
    }
}

/// The words of a reply, if it holds any.
pub fn reply_words(p: &Option<Property>) -> (v: Option<Vec<u32>>)
    ensures
        holds_words(*p, words_view(v)),
{
    match p {
        Some(p) => p.words(),
        None => None,
    }
}

/// The atoms of a reply.
pub fn reply_atoms(p: &Option<Property>) -> (v: Vec<u32>)
    ensures
        holds_atoms(*p, v@),
{
    match p {
        Some(p) => p.typed_words(predefined_atoms().atom),
        None => Vec::new(),
    }
}

/// The first word of a reply.
pub open spec fn first_word(v: Option<Seq<u32>>) -> Option<u32> {
    match v {
        Some(s) => if s.len() > 0 {
            Some(s[0])
        } else {
            None
        },
        None => None,
    }
}

fn first_of(v: &Option<Vec<u32>>) -> (r: Option<u32>)
    ensures
        r == first_word(words_view(*v)),
{
    match v {
        Some(s) => {
            if s.len() > 0 {
                Some(s[0])
            } else {
                None
            }
        },
        None => None,
    }
}

// ---- Window types -----------------------------------------------------------

/// The name of a window type, as rules write it.
pub open spec fn type_text(a: Atoms, atom: u32) -> Option<Seq<char>> {
    if atom == a.net_wm_window_type_desktop {
        Some("desktop"@)
    } else if atom == a.net_wm_window_type_dock {
        Some("dock"@)
    } else if atom == a.net_wm_window_type_toolbar {
        Some("toolbar"@)
    } else if atom == a.net_wm_window_type_menu {
        Some("menu"@)
    } else if atom == a.net_wm_window_type_utility {
        Some("utility"@)
    } else if atom == a.net_wm_window_type_splash {
        Some("splash"@)
    } else if atom == a.net_wm_window_type_dialog {
        Some("dialog"@)
    } else {
        None
    }
}

/// The type is not for the window manager to place.
pub open spec fn type_unmanaged(a: Atoms, atom: u32) -> bool {
    atom == a.net_wm_window_type_desktop || atom == a.net_wm_window_type_dock
}

/// Windows of the type float.
pub open spec fn type_floats(a: Atoms, atom: u32) -> bool {
    ||| atom == a.net_wm_window_type_dialog
    ||| atom == a.net_wm_window_type_utility
    ||| atom == a.net_wm_window_type_menu
    ||| atom == a.net_wm_window_type_toolbar
    ||| atom == a.net_wm_window_type_splash
}

/// The names of the known types among the atoms.
pub open spec fn type_names(a: Atoms, v: Seq<u32>) -> Seq<Seq<char>>
    decreases v.len(),
{
    if v.len() == 0 {
        Seq::empty()
    } else {
        match type_text(a, v.last()) {
            Some(t) => type_names(a, v.drop_last()).push(t),
            None => type_names(a, v.drop_last()),
        }
    }
}

/// The lower-case name of a `_NET_WM_WINDOW_TYPE` atom; `None` for types that are
/// not advertised.
pub fn window_type_name(a: &Atoms, atom: u32) -> (r: Option<&'static str>)
    ensures
        match r {
            Some(s) => type_text(*a, atom) == Some(s@),
            None => type_text(*a, atom) is None,
        },
{
    if atom == a.net_wm_window_type_desktop {
        Some("desktop")
    } else if atom == a.net_wm_window_type_dock {
        Some("dock")
    } else if atom == a.net_wm_window_type_toolbar {
        Some("toolbar")
    } else if atom == a.net_wm_window_type_menu {
        Some("menu")
    } else if atom == a.net_wm_window_type_utility {
        Some("utility")
    } else if atom == a.net_wm_window_type_splash {
        Some("splash")
    } else if atom == a.net_wm_window_type_dialog {
        Some("dialog")
    } else {
        None
    }
}

/// What the types of a window mean for it.
#[derive(Debug)]
pub struct WindowTypes {
    pub names: Vec<String>,
    pub unmanaged: bool,
    pub floats: bool,
}

/// Some atom of the list satisfies the test.
pub open spec fn some_unmanaged(a: Atoms, v: Seq<u32>) -> bool {
    exists|i: int| 0 <= i < v.len() && type_unmanaged(a, #[trigger] v[i])
}

pub open spec fn some_floats(a: Atoms, v: Seq<u32>) -> bool {
    exists|i: int| 0 <= i < v.len() && type_floats(a, #[trigger] v[i])
}

/// What the `_NET_WM_WINDOW_TYPE` atoms of a window mean for it.
pub fn window_types(a: &Atoms, v: &[u32]) -> (r: WindowTypes)
    ensures
        texts(r.names@) == type_names(*a, v@),
        r.unmanaged == some_unmanaged(*a, v@),
        r.floats == some_floats(*a, v@),
{
    let mut names: Vec<String> = Vec::new();
    let mut unmanaged: bool = false;
    let mut floats: bool = false;
    let mut i: usize = 0;
    assert(texts(names@) =~= type_names(*a, v@.take(0)));
    while i < v.len()
        invariant
            i <= v@.len(),
            texts(names@) == type_names(*a, v@.take(i as int)),
            unmanaged == exists|j: int| 0 <= j < i && type_unmanaged(*a, #[trigger] v@[j]),
            floats == exists|j: int| 0 <= j < i && type_floats(*a, #[trigger] v@[j]),
        decreases v@.len() - i,
    {
        let atom: u32 = v[i];
        let ghost before = names@;
        proof {
            let t = v@.take(i as int + 1);
            assert(t.drop_last() =~= v@.take(i as int));
            assert(t.last() == atom);
        }
        match window_type_name(a, atom) {
            Some(n) => {
                names.push(n.to_owned());
                assert(texts(names@) =~= texts(before).push(n@));
            },
            None => {},
        }
        if atom == a.net_wm_window_type_desktop || atom == a.net_wm_window_type_dock {
            assert(type_unmanaged(*a, v@[i as int]));
            unmanaged = true;
        }
        if atom == a.net_wm_window_type_dialog || atom == a.net_wm_window_type_utility || atom
            == a.net_wm_window_type_menu || atom == a.net_wm_window_type_toolbar || atom
            == a.net_wm_window_type_splash {
            assert(type_floats(*a, v@[i as int]));
            floats = true;
        }
        i = i + 1;
    }
    assert(v@.take(i as int) =~= v@);
    WindowTypes { names, unmanaged, floats }
}

// ---- Window state -----------------------------------------------------------

/// The flags with what one `_NET_WM_STATE` atom asks for.
pub open spec fn state_step(a: Atoms, f: WinFlags, atom: u32) -> WinFlags {
    let f1 = if atom == a.net_wm_state_fullscreen {
        f.with(WinFlags::FULLSCREEN)
    } else {
        f
    };
    let f2 = if atom == a.net_wm_state_maximized_vert {
        f1.with(WinFlags::MAXIMIZED_V)
    } else {
        f1
    };
    let f3 = if atom == a.net_wm_state_maximized_horiz {
        f2.with(WinFlags::MAXIMIZED_H)
    } else {
        f2
    };
    if atom == a.net_wm_state_modal {
        f3.with(WinFlags::FLOAT)
    } else {
        f3
    }
}

/// The flags with what every atom of the list asks for.
pub open spec fn state_flags(a: Atoms, f: WinFlags, v: Seq<u32>) -> WinFlags
    decreases v.len(),
{
    if v.len() == 0 {
        f
    } else {
        state_step(a, state_flags(a, f, v.drop_last()), v.last())
    }
}

/// The flags with what the `_NET_WM_STATE` atoms of a window ask for.
pub fn flags_with_state(a: &Atoms, f: WinFlags, v: &[u32]) -> (r: WinFlags)
    ensures
        r == state_flags(*a, f, v@),
{
    let mut r: WinFlags = f;
    let mut i: usize = 0;
    while i < v.len()
        invariant
            i <= v@.len(),
            r == state_flags(*a, f, v@.take(i as int)),
        decreases v@.len() - i,
    {
        let atom: u32 = v[i];
        proof {
            let t = v@.take(i as int + 1);
            assert(t.drop_last() =~= v@.take(i as int));
            assert(t.last() == atom);
        }
        if atom == a.net_wm_state_fullscreen {
            r.set(WinFlags::FULLSCREEN);
        }
        if atom == a.net_wm_state_maximized_vert {
            r.set(WinFlags::MAXIMIZED_V);
        }
        if atom == a.net_wm_state_maximized_horiz {
            r.set(WinFlags::MAXIMIZED_H);
        }
        if atom == a.net_wm_state_modal {
            r.set(WinFlags::FLOAT);
        }
        i = i + 1;
    }
    assert(v@.take(i as int) =~= v@);
    r
}

// ---- Hints ------------------------------------------------------------------

/// What `WM_HINTS` says: whether the window refuses the focus, whether it takes
/// input, and whether it wants attention.
#[derive(Debug, Clone, Copy, PartialEq, Eq, Structural)]
pub struct WmHints {
    pub no_focus: bool,
    pub wants_input: bool,
    pub urgent: bool,
}

/// What the words of `WM_HINTS` say; nothing where there are none.
pub open spec fn wm_hints(v: Option<Seq<u32>>) -> Option<WmHints> {
    match v {
        Some(s) => if s.len() > 0 {
            let input = s[0] & 1u32 != 0 && s.len() > 1;
            Some(
                WmHints {
                    no_focus: input && s[1] == 0,
                    wants_input: input ==> s[1] != 0,
                    urgent: s[0] & 256u32 != 0,
                },
            )
        } else {
            None
        },
        None => None,
    }
}

/// What the words of `WM_HINTS` say.
pub fn read_wm_hints_value(v: &Option<Vec<u32>>) -> (r: Option<WmHints>)
    ensures
        r == wm_hints(words_view(*v)),
{
    match v {
        Some(s) => {
            if s.len() == 0 {
                return None;
            }
            let input: bool = s[0] & 1 != 0 && s.len() > 1;
            Some(
                WmHints {
                    no_focus: input && s[1] == 0,
                    wants_input: !input || s[1] != 0,
                    urgent: s[0] & 256 != 0,
                },
            )
        },
        None => None,
    }
}

/// The client with what `WM_HINTS` says taken over.
pub open spec fn hinted(c: Client, h: Option<WmHints>) -> Client {
    match h {
        Some(h) => {
            let f1 = if h.no_focus {
                c.flags.with(WinFlags::NO_FOCUS)
            } else {
                c.flags
            };
            let f2 = if h.urgent {
                f1.with(WinFlags::URGENT)
            } else {
                f1
            };
            Client { flags: f2, wants_input: h.wants_input, ..c }
        },
        None => c,
    }
}

impl Client {
    /// Take over what `WM_HINTS` says. Urgency and the refusal of focus are only
    /// ever turned on here.
    pub fn take_wm_hints(&mut self, h: Option<WmHints>)
        ensures
            *final(self) == hinted(*old(self), h),
    {
        match h {
            Some(h) => {
                if h.no_focus {
                    self.flags.set(WinFlags::NO_FOCUS);
                }
                self.wants_input = h.wants_input;
                if h.urgent {
                    self.flags.set(WinFlags::URGENT);
                }
            },
            None => {},
        }
    }
}

/// What the words of `WM_NORMAL_HINTS` say; nothing where there are fewer than
/// eighteen.
pub open spec fn normal_hints(v: Option<Seq<u32>>) -> Option<SizeHints> {
    match v {
        Some(s) => if s.len() >= 18 {
            let f = s[0];
            let h0 = SizeHints::unset();
            let h1 = if f & 16u32 != 0 {
                SizeHints { min_w: s[9] as i32, min_h: s[10] as i32, ..h0 }
            } else {
                h0
            };
            let h2 = if f & 32u32 != 0 {
                SizeHints { max_w: s[11] as i32, max_h: s[12] as i32, ..h1 }
            } else {
                h1
            };
            let h3 = if f & 64u32 != 0 {
                SizeHints { inc_w: s[13] as i32, inc_h: s[14] as i32, ..h2 }
            } else {
                h2
            };
            let h4 = if f & 128u32 != 0 {
                SizeHints {
                    min_aspect_num: s[15],
                    max_aspect_num: s[17],
                    aspect_den: if s[16] < 1 {
                        1
                    } else {
                        s[16]
                    },
                    ..h3
                }
            } else {
                h3
            };
            let h5 = if f & 256u32 != 0 {
                SizeHints { base_w: s[7] as i32, base_h: s[8] as i32, ..h4 }
            } else {
                h4
            };
            Some(SizeHints { valid: true, ..h5 })
        } else {
            None
        },
        None => None,
    }
}

/// The hints allow one size only.
pub open spec fn one_size(h: SizeHints) -> bool {
    h.max_w > 0 && h.max_h > 0 && h.max_w == h.min_w && h.max_h == h.min_h
}

/// What the words of `WM_NORMAL_HINTS` say.
pub fn read_size_hints(v: &Option<Vec<u32>>) -> (r: Option<SizeHints>)
    ensures
        r == normal_hints(words_view(*v)),
{
    match v {
        Some(s) => {
            if s.len() < 18 {
                return None;
            }
            let f: u32 = s[0];
            let mut h: SizeHints = SizeHints::default();
            if f & 16 != 0 {
                h.min_w = #[verifier::truncate] (s[9] as i32);
                h.min_h = #[verifier::truncate] (s[10] as i32);
            }
            if f & 32 != 0 {
                h.max_w = #[verifier::truncate] (s[11] as i32);
                h.max_h = #[verifier::truncate] (s[12] as i32);
            }
            if f & 64 != 0 {
                h.inc_w = #[verifier::truncate] (s[13] as i32);
                h.inc_h = #[verifier::truncate] (s[14] as i32);
            }
            if f & 128 != 0 {
                h.aspect_den = if s[16] < 1 {
                    1
                } else {
                    s[16]
                };
                h.min_aspect_num = s[15];
                h.max_aspect_num = s[17];
            }
            if f & 256 != 0 {
                h.base_w = #[verifier::truncate] (s[7] as i32);
                h.base_h = #[verifier::truncate] (s[8] as i32);
            }
            h.valid = true;
            Some(h)
        },
        None => None,
    }
}

/// The client with its size hints taken over. One that can have a single size
/// only is fixed, and floats.
pub open spec fn sized(c: Client, h: Option<SizeHints>) -> Client {
    match h {
        Some(h) => Client {
            hints: h,
            flags: if one_size(h) {
                c.flags.with(WinFlags::FIXED).with(WinFlags::FLOAT)
            } else {
                c.flags
            },
            ..c
        },
        None => c,
    }
}

impl Client {
    /// Take over the size hints.
    pub fn take_size_hints(&mut self, h: Option<SizeHints>)
        ensures
            *final(self) == sized(*old(self), h),
    {
        match h {
            Some(h) => {
                self.hints = h;
                if h.max_w > 0 && h.max_h > 0 && h.max_w == h.min_w && h.max_h == h.min_h {
                    self.flags.set(WinFlags::FIXED);
                    self.flags.set(WinFlags::FLOAT);
                }
            },
            None => {},
        }
    }
}

// ---- Title, class, parent ---------------------------------------------------

/// The text of a reply.
pub open spec fn reply_text(p: Property) -> Seq<char> {
    lossy_text(p.value@)
}

/// The reply is there and not empty.
pub open spec fn has_bytes(p: Option<Property>) -> bool {
    p matches Some(q) && q.value@.len() > 0
}

/// The title of a window: `_NET_WM_NAME` where it holds anything, else `WM_NAME`;
/// nothing where neither was answered.
pub open spec fn title_of(net: Option<Property>, wm: Option<Property>) -> Option<Seq<char>> {
    if has_bytes(net) {
        Some(reply_text(net->0))
    } else {
        match wm {
            Some(p) => Some(reply_text(p)),
            None => None,
        }
    }
}

/// The title of a window.
pub fn read_title_value(net: &Option<Property>, wm: &Option<Property>) -> (r: Option<String>)
    ensures
        match r {
            Some(s) => title_of(*net, *wm) == Some(s@),
            None => title_of(*net, *wm) is None,
        },
{
    match net {
        Some(p) => {
            if p.value.len() > 0 {
                return Some(from_utf8_lossy(&p.value));
            }
        },
        None => {},
    }
    match wm {
        Some(p) => Some(from_utf8_lossy(&p.value)),
        None => None,
    }
}

/// The first two of the texts in `text`, which a NUL ends each.
pub fn first_texts(text: &str) -> (r: (String, String))
    ensures
        r.0@ == before_nul(text@),
        r.1@ == before_nul(after_nul(text@)),
{
    let (first, rest): (String, String) = split_nul(text);
    let (second, _): (String, String) = split_nul(rest.as_str());
    (first, second)
}

/// Instance and class of a window: the first two of the texts in `WM_CLASS`,
/// which a NUL ends each.
pub fn read_class(p: &Option<Property>) -> (r: (String, String))
    ensures
        match *p {
            Some(q) => r.0@ == before_nul(reply_text(q)) && r.1@ == before_nul(
                after_nul(reply_text(q)),
            ),
            None => r.0@.len() == 0 && r.1@.len() == 0,
        },
{
    match p {
        Some(q) => {
            let text: String = from_utf8_lossy(&q.value);
            first_texts(text.as_str())
        },
        None => (String::new(), String::new()),
    }
}

/// The window that another one is transient for: the first word, if it is neither
/// no window nor the root window.
pub open spec fn parent_of(v: Option<Seq<u32>>, root: WindowId) -> Option<WindowId> {
    match first_word(v) {
        Some(w) => if w != 0 && w != root {
            Some(w)
        } else {
            None
        },
        None => None,
    }
}

/// The window that another one is transient for.
pub fn transient_for(v: &Option<Vec<u32>>, root: WindowId) -> (r: Option<WindowId>)
    ensures
        r == parent_of(words_view(*v), root),
{
    match first_of(v) {
        Some(w) => {
            if w != 0 && w != root {
                Some(w)
            } else {
                None
            }
        },
        None => None,
    }
}

// ---- Persisted floats -------------------------------------------------------

/// What a window keeps across a restart: whether it floated and where.
pub open spec fn float_prefs(float: Option<Seq<u32>>, geom: Option<Seq<u32>>) -> (
    bool,
    Option<Rect>,
) {
    if first_word(float) == Some(1u32) {
        (
            true,
            match geom {
                Some(g) => if g.len() == 4 {
                    Some(Rect { x: g[0] as i32, y: g[1] as i32, w: g[2], h: g[3] })
                } else {
                    None
                },
                None => None,
            },
        )
    } else {
        (false, None)
    }
}

/// Whether a window floated before a restart, and where.
pub fn read_float_prefs(float: &Option<Vec<u32>>, geom: &Option<Vec<u32>>) -> (r: (
    bool,
    Option<Rect>,
))
    ensures
        r == float_prefs(words_view(*float), words_view(*geom)),
{
    let was_float: bool = match first_of(float) {
        Some(w) => w == 1,
        None => false,
    };
    if !was_float {
        return (false, None);
    }
    match geom {
        Some(g) => {
            if g.len() == 4 {
                let x: i32 = #[verifier::truncate] (g[0] as i32);
                let y: i32 = #[verifier::truncate] (g[1] as i32);
                (true, Some(Rect::new(x, y, g[2], g[3])))
            } else {
                (true, None)
            }
        },
        None => (true, None),
    }
}

/// What is written to a window to be kept across a restart.
#[derive(Debug)]
pub enum PrefsWrite {
    /// Not managed: nothing.
    Nothing,
    /// The two properties are deleted.
    Clear,
    /// That it floats, and where.
    Float { geom: Vec<u32> },
}

/// The words of the persisted geometry. A corner left of or above the root
/// window's is written in two's complement.
pub open spec fn prefs_words(g: Rect) -> Seq<u32> {
    seq![g.x as u32, g.y as u32, g.w, g.h]
}

impl Client {
    /// What is written to the window to be kept across a restart.
    pub fn window_prefs(&self) -> (r: PrefsWrite)
        ensures
            self.floats() && !self.is_unmanaged ==> (r matches PrefsWrite::Float { geom } && geom@
                == prefs_words(self.geom)),
            !(self.floats() && !self.is_unmanaged) ==> r is Clear,
    {
        if self.is_float() && !self.is_unmanaged {
            let x: u32 = #[verifier::truncate] (self.geom.x as u32);
            let y: u32 = #[verifier::truncate] (self.geom.y as u32);
            let geom: Vec<u32> = vec![x, y, self.geom.w, self.geom.h];
            assert(geom@ =~= prefs_words(self.geom));
            PrefsWrite::Float { geom }
        } else {
            PrefsWrite::Clear
        }
    }
}

/// A floating window comes back exactly where it was: what is written is what is
/// read back.
pub proof fn persisted_float_comes_back(g: Rect, float: Seq<u32>)
    requires
        float == seq![1u32],
    ensures
        float_prefs(Some(float), Some(prefs_words(g))) == (true, Some(g)),
{
    let (x, y) = (g.x, g.y);
    assert((x as u32) as i32 == x) by (bit_vector);
    assert((y as u32) as i32 == y) by (bit_vector);
}

// ---- Advertised state -------------------------------------------------------

/// Not one of the four states that the window manager itself advertises.
pub open spec fn foreign_state(a: Atoms) -> spec_fn(u32) -> bool {
    |x: u32|
        x != a.net_wm_state_fullscreen && x != a.net_wm_state_maximized_vert && x
            != a.net_wm_state_maximized_horiz && x != a.net_wm_state_demands_attention
}

pub open spec fn push_if(s: Seq<u32>, on: bool, x: u32) -> Seq<u32> {
    if on {
        s.push(x)
    } else {
        s
    }
}

/// `_NET_WM_STATE` as it is rewritten: what is not ours stays, and each of our
/// states is there exactly where its flag is on.
pub open spec fn state_words(a: Atoms, f: WinFlags, v: Seq<u32>) -> Seq<u32> {
    let s0 = v.filter(foreign_state(a));
    let s1 = push_if(s0, f.on(WinFlags::FULLSCREEN), a.net_wm_state_fullscreen);
    let s2 = push_if(s1, f.on(WinFlags::MAXIMIZED_V), a.net_wm_state_maximized_vert);
    let s3 = push_if(s2, f.on(WinFlags::MAXIMIZED_H), a.net_wm_state_maximized_horiz);
    push_if(s3, f.on(WinFlags::URGENT), a.net_wm_state_demands_attention)
}

/// What `_NET_WM_STATE` becomes, given what it holds. Setting one state does not
/// clobber the others.
pub fn write_net_wm_state(a: &Atoms, flags: WinFlags, v: &[u32]) -> (out: Vec<u32>)
    ensures
        out@ == state_words(*a, flags, v@),
{
    let mut out: Vec<u32> = Vec::new();
    let ghost p = foreign_state(*a);
    let mut i: usize = 0;
    proof {
        reveal(Seq::filter);
    }
    assert(out@ =~= v@.take(0).filter(p));
    while i < v.len()
        invariant
            i <= v@.len(),
            p == foreign_state(*a),
            out@ == v@.take(i as int).filter(p),
        decreases v@.len() - i,
    {
        proof {
            crate::seqs::filter_take_step(v@, i as int, p);
        }
        let x: u32 = v[i];
        if x != a.net_wm_state_fullscreen && x != a.net_wm_state_maximized_vert && x
            != a.net_wm_state_maximized_horiz && x != a.net_wm_state_demands_attention {
            out.push(x);
        }
        i = i + 1;
    }
    assert(v@.take(i as int) =~= v@);
    if flags.has(WinFlags::FULLSCREEN) {
        out.push(a.net_wm_state_fullscreen);
    }
    if flags.has(WinFlags::MAXIMIZED_V) {
        out.push(a.net_wm_state_maximized_vert);
    }
    if flags.has(WinFlags::MAXIMIZED_H) {
        out.push(a.net_wm_state_maximized_horiz);
    }
    if flags.has(WinFlags::URGENT) {
        out.push(a.net_wm_state_demands_attention);
    }
    out
}

/// Writing the state again changes nothing.
pub proof fn written_state_is_stable(a: Atoms, f: WinFlags, v: Seq<u32>)
    ensures
        state_words(a, f, state_words(a, f, v)) == state_words(a, f, v),
{
    let p = foreign_state(a);
    let s0 = v.filter(p);
    let s1 = push_if(s0, f.on(WinFlags::FULLSCREEN), a.net_wm_state_fullscreen);
    let s2 = push_if(s1, f.on(WinFlags::MAXIMIZED_V), a.net_wm_state_maximized_vert);
    let s3 = push_if(s2, f.on(WinFlags::MAXIMIZED_H), a.net_wm_state_maximized_horiz);
    let s4 = push_if(s3, f.on(WinFlags::URGENT), a.net_wm_state_demands_attention);
    filter_again(v, p);
    assert(s0.push(a.net_wm_state_fullscreen).drop_last() =~= s0);
    assert(s1.push(a.net_wm_state_maximized_vert).drop_last() =~= s1);
    assert(s2.push(a.net_wm_state_maximized_horiz).drop_last() =~= s2);
    assert(s3.push(a.net_wm_state_demands_attention).drop_last() =~= s3);
    reveal(Seq::filter);
    assert(s1.filter(p) == s0);
    assert(s2.filter(p) == s0);
    assert(s3.filter(p) == s0);
    assert(s4.filter(p) == s0);
}

proof fn filter_again(v: Seq<u32>, p: spec_fn(u32) -> bool)
    ensures
        v.filter(p).filter(p) == v.filter(p),
    decreases v.len(),
{
    reveal(Seq::filter);
    if v.len() > 0 {
        filter_again(v.drop_last(), p);
        let s = v.drop_last().filter(p);
        assert(s.push(v.last()).drop_last() =~= s);
    }
}

/// Not one of the states that a rule may strip from a new window.
pub open spec fn kept_initial(a: Atoms) -> spec_fn(u32) -> bool {
    |x: u32|
        x != a.net_wm_state_fullscreen && x != a.net_wm_state_maximized_vert && x
            != a.net_wm_state_maximized_horiz
}

/// `_NET_WM_STATE` without the state a window asked for when it mapped.
pub fn strip_initial_state(a: &Atoms, v: &[u32]) -> (out: Vec<u32>)
    ensures
        out@ == v@.filter(kept_initial(*a)),
{
    let mut out: Vec<u32> = Vec::new();
    let ghost p = kept_initial(*a);
    let mut i: usize = 0;
    proof {
        reveal(Seq::filter);
    }
    assert(out@ =~= v@.take(0).filter(p));
    while i < v.len()
        invariant
            i <= v@.len(),
            p == kept_initial(*a),
            out@ == v@.take(i as int).filter(p),
        decreases v@.len() - i,
    {
        proof {
            crate::seqs::filter_take_step(v@, i as int, p);
        }
        let x: u32 = v[i];
        if x != a.net_wm_state_fullscreen && x != a.net_wm_state_maximized_vert && x
            != a.net_wm_state_maximized_horiz {
            out.push(x);
        }
        i = i + 1;
    }
    assert(v@.take(i as int) =~= v@);
    out
}

// ---- What the words mean ----------------------------------------------------

proof fn state_bits(s: WinFlags, f: u16)
    requires
        f == 1 || f == 2 || f == 4 || f == 8 || f == 32 || f == 64 || f == 128,
    ensures
        s.with(f).on(WinFlags::FLOAT) <==> f == WinFlags::FLOAT || s.on(WinFlags::FLOAT),
        s.with(f).on(WinFlags::FULLSCREEN) <==> f == WinFlags::FULLSCREEN || s.on(WinFlags::FULLSCREEN),
        s.with(f).on(WinFlags::MAXIMIZED_V) <==> f == WinFlags::MAXIMIZED_V || s.on(WinFlags::MAXIMIZED_V),
        s.with(f).on(WinFlags::MAXIMIZED_H) <==> f == WinFlags::MAXIMIZED_H || s.on(WinFlags::MAXIMIZED_H),
        s.with(f).on(WinFlags::URGENT) <==> f == WinFlags::URGENT || s.on(WinFlags::URGENT),
        s.with(f).on(WinFlags::NO_FOCUS) <==> f == WinFlags::NO_FOCUS || s.on(WinFlags::NO_FOCUS),
        s.with(f).on(WinFlags::FIXED) <==> f == WinFlags::FIXED || s.on(WinFlags::FIXED),
{
    let b = s.bits;
    assert(f == 1 || f == 2 || f == 4 || f == 8 || f == 32 || f == 64 || f == 128 ==> ((b | f) & 1
        != 0 <==> f == 1 || b & 1 != 0) && ((b | f) & 2 != 0 <==> f == 2 || b & 2 != 0) && ((b | f)
        & 4 != 0 <==> f == 4 || b & 4 != 0) && ((b | f) & 8 != 0 <==> f == 8 || b & 8 != 0) && ((b
        | f) & 32 != 0 <==> f == 32 || b & 32 != 0) && ((b | f) & 64 != 0 <==> f == 64 || b & 64
        != 0) && ((b | f) & 128 != 0 <==> f == 128 || b & 128 != 0)) by (bit_vector);
}

/// A window starts in just the states that its property lists: fullscreen, maximized
/// along either axis, and floating where it is modal. What was on stays on.
pub proof fn initial_state_is_what_is_listed(a: Atoms, f: WinFlags, v: Seq<u32>)
    ensures
        state_flags(a, f, v).on(WinFlags::FULLSCREEN) <==> f.on(WinFlags::FULLSCREEN)
            || v.contains(a.net_wm_state_fullscreen),
        state_flags(a, f, v).on(WinFlags::MAXIMIZED_V) <==> f.on(WinFlags::MAXIMIZED_V)
            || v.contains(a.net_wm_state_maximized_vert),
        state_flags(a, f, v).on(WinFlags::MAXIMIZED_H) <==> f.on(WinFlags::MAXIMIZED_H)
            || v.contains(a.net_wm_state_maximized_horiz),
        state_flags(a, f, v).on(WinFlags::FLOAT) <==> f.on(WinFlags::FLOAT) || v.contains(
            a.net_wm_state_modal,
        ),
        state_flags(a, f, v).on(WinFlags::URGENT) == f.on(WinFlags::URGENT),
        state_flags(a, f, v).on(WinFlags::NO_FOCUS) == f.on(WinFlags::NO_FOCUS),
        state_flags(a, f, v).on(WinFlags::FIXED) == f.on(WinFlags::FIXED),
    decreases v.len(),
{
    if v.len() > 0 {
        let before = v.drop_last();
        initial_state_is_what_is_listed(a, f, before);
        let f0 = state_flags(a, f, before);
        let f1 = if v.last() == a.net_wm_state_fullscreen {
            f0.with(WinFlags::FULLSCREEN)
        } else {
            f0
        };
        let f2 = if v.last() == a.net_wm_state_maximized_vert {
            f1.with(WinFlags::MAXIMIZED_V)
        } else {
            f1
        };
        let f3 = if v.last() == a.net_wm_state_maximized_horiz {
            f2.with(WinFlags::MAXIMIZED_H)
        } else {
            f2
        };
        state_bits(f0, WinFlags::FULLSCREEN);
        state_bits(f1, WinFlags::MAXIMIZED_V);
        state_bits(f2, WinFlags::MAXIMIZED_H);
        state_bits(f3, WinFlags::FLOAT);
        assert forall|x: u32| #[trigger] v.contains(x) <==> before.contains(x) || x == v.last() by {
            if v.contains(x) {
                let i = choose|i: int| 0 <= i < v.len() && v[i] == x;
                if i < before.len() {
                    assert(before[i] == x);
                }
            }
            if before.contains(x) {
                let i = choose|i: int| 0 <= i < before.len() && before[i] == x;
                assert(v[i] == x);
            }
            assert(v[v.len() - 1] == v.last());
        }
    }
}

/// Hints count where there is at least their first word. They refuse the input focus
/// just where they say something of input and say no, and want it else; their
/// ninth bit is the urgency.
pub proof fn hints_say_who_takes_input(s: Seq<u32>)
    ensures
        wm_hints(None) is None,
        wm_hints(Some(s)) is Some <==> s.len() > 0,
        s.len() > 0 ==> ({
            let h = wm_hints(Some(s))->0;
            &&& h.wants_input == !h.no_focus
            &&& h.no_focus <==> s[0] & 1 != 0 && s.len() > 1 && s[1] == 0
            &&& h.urgent <==> s[0] & 256 != 0
        }),
{
}

/// Hints turn on what they say, take nothing back but the wish for input, and change
/// nothing else of the client.
pub proof fn hints_are_noted(c: Client, h: WmHints)
    ensures
        ({
            let d = hinted(c, Some(h));
            &&& d.flags.on(WinFlags::NO_FOCUS) <==> c.flags.on(WinFlags::NO_FOCUS) || h.no_focus
            &&& d.flags.on(WinFlags::URGENT) <==> c.flags.on(WinFlags::URGENT) || h.urgent
            &&& d.flags.on(WinFlags::FLOAT) == c.flags.on(WinFlags::FLOAT)
            &&& d.flags.on(WinFlags::FULLSCREEN) == c.flags.on(WinFlags::FULLSCREEN)
            &&& d.flags.on(WinFlags::MAXIMIZED_V) == c.flags.on(WinFlags::MAXIMIZED_V)
            &&& d.flags.on(WinFlags::MAXIMIZED_H) == c.flags.on(WinFlags::MAXIMIZED_H)
            &&& d.flags.on(WinFlags::FIXED) == c.flags.on(WinFlags::FIXED)
            &&& d.wants_input == h.wants_input
            &&& d == (Client { flags: d.flags, wants_input: d.wants_input, ..c })
        }),
        hinted(c, None) == c,
{
    state_bits(c.flags, WinFlags::NO_FOCUS);
    state_bits(c.flags, WinFlags::URGENT);
    state_bits(c.flags.with(WinFlags::NO_FOCUS), WinFlags::URGENT);
}

/// Each part of the size hints is read from its own words where its bit is set and
/// left unset else.
pub proof fn size_hints_are_read_part_by_part(s: Seq<u32>)
    ensures
        normal_hints(Some(s)) is Some <==> s.len() >= 18,
        s.len() >= 18 ==> ({
            let h = normal_hints(Some(s))->0;
            let f = s[0];
            &&& h.valid
            &&& f & 16 != 0 ==> h.min_w == s[9] as i32 && h.min_h == s[10] as i32
            &&& f & 16 == 0 ==> h.min_w == 0 && h.min_h == 0
            &&& f & 32 != 0 ==> h.max_w == s[11] as i32 && h.max_h == s[12] as i32
            &&& f & 32 == 0 ==> h.max_w == 0 && h.max_h == 0
            &&& f & 64 != 0 ==> h.inc_w == s[13] as i32 && h.inc_h == s[14] as i32
            &&& f & 64 == 0 ==> h.inc_w == 0 && h.inc_h == 0
            &&& f & 128 != 0 ==> h.min_aspect_num == s[15] && h.max_aspect_num == s[17]
                && h.aspect_den >= 1 && (s[16] >= 1 ==> h.aspect_den == s[16])
            &&& f & 256 != 0 ==> h.base_w == s[7] as i32 && h.base_h == s[8] as i32
            &&& f & 256 == 0 ==> h.base_w == 0 && h.base_h == 0
        }),
{
}

/// A window whose least and greatest size are the same, and not none, is of fixed
/// size and floats; size hints change nothing else but themselves.
pub proof fn window_of_one_size_floats(c: Client, h: SizeHints)
    ensures
        ({
            let d = sized(c, Some(h));
            let fixed = h.max_w > 0 && h.max_h > 0 && h.min_w == h.max_w && h.min_h == h.max_h;
            &&& d.hints == h
            &&& fixed ==> d.flags.on(WinFlags::FIXED) && d.flags.on(WinFlags::FLOAT)
            &&& !fixed ==> d.flags == c.flags
            &&& d.flags.on(WinFlags::FULLSCREEN) == c.flags.on(WinFlags::FULLSCREEN)
            &&& d.flags.on(WinFlags::MAXIMIZED_V) == c.flags.on(WinFlags::MAXIMIZED_V)
            &&& d.flags.on(WinFlags::MAXIMIZED_H) == c.flags.on(WinFlags::MAXIMIZED_H)
            &&& d.flags.on(WinFlags::URGENT) == c.flags.on(WinFlags::URGENT)
            &&& d.flags.on(WinFlags::NO_FOCUS) == c.flags.on(WinFlags::NO_FOCUS)
            &&& d == (Client { flags: d.flags, hints: h, ..c })
        }),
{
    state_bits(c.flags, WinFlags::FIXED);
    state_bits(c.flags.with(WinFlags::FIXED), WinFlags::FLOAT);
}

/// A window's title is what the newer property says where that says anything, and
/// what the older one says else.
pub proof fn newer_title_comes_first(net: Property, wm: Option<Property>)
    ensures
        net.value@.len() > 0 ==> title_of(Some(net), wm) == Some(lossy_text(net.value@)),
        net.value@.len() == 0 ==> title_of(Some(net), wm) == title_of(None, wm),
        wm is Some ==> title_of(None, wm) == Some(lossy_text((wm->0).value@)),
        title_of(None, None) is None,
{
}

/// A window belongs to the one that its property names first, which is neither none
/// nor the root.
pub proof fn parent_is_the_first_word(s: Seq<u32>, root: WindowId)
    ensures
        parent_of(None, root) is None,
        parent_of(Some(s), root) is Some <==> s.len() > 0 && s[0] != 0 && s[0] != root,
        parent_of(Some(s), root) is Some ==> parent_of(Some(s), root)->0 == s[0],
{
}

/// Only a window that was persisted as a float comes back as one, with the geometry
/// of the four words that it left.
pub proof fn only_persisted_floats_come_back(float: Seq<u32>, geom: Seq<u32>)
    ensures
        float_prefs(None, Some(geom)) == (false, None::<Rect>),
        float_prefs(Some(float), Some(geom)).0 <==> float.len() > 0 && float[0] == 1,
        float_prefs(Some(float), Some(geom)).1 is Some <==> float.len() > 0 && float[0] == 1
            && geom.len() == 4,
        float_prefs(Some(float), Some(geom)).1 is Some ==> ({
            let g = float_prefs(Some(float), Some(geom)).1->0;
            g.x == geom[0] as i32 && g.y == geom[1] as i32 && g.w == geom[2] && g.h == geom[3]
        }),
        float_prefs(Some(float), None).1 is None,
{
}

proof fn push_if_holds(s: Seq<u32>, on: bool, x: u32, y: u32)
    ensures
        push_if(s, on, x).contains(y) <==> s.contains(y) || (on && x == y),
{
    let t = push_if(s, on, x);
    if on {
        assert(t[t.len() - 1] == x);
        if s.contains(y) {
            let i = choose|i: int| 0 <= i < s.len() && s[i] == y;
            assert(t[i] == y);
        }
        if t.contains(y) && x != y {
            let i = choose|i: int| 0 <= i < t.len() && t[i] == y;
            assert(s[i] == y);
        }
    }
}

/// The advertised state is that of the window: each of the four states is listed just
/// where the window is in it, and every other state is listed as before.
pub proof fn advertised_state_is_the_window_s_own(a: Atoms, f: WinFlags, v: Seq<u32>, x: u32)
    requires
        a.net_wm_state_fullscreen != a.net_wm_state_maximized_vert,
        a.net_wm_state_fullscreen != a.net_wm_state_maximized_horiz,
        a.net_wm_state_fullscreen != a.net_wm_state_demands_attention,
        a.net_wm_state_maximized_vert != a.net_wm_state_maximized_horiz,
        a.net_wm_state_maximized_vert != a.net_wm_state_demands_attention,
        a.net_wm_state_maximized_horiz != a.net_wm_state_demands_attention,
    ensures
        ({
            let on = state_words(a, f, v).contains(x);
            &&& x == a.net_wm_state_fullscreen ==> on == f.on(WinFlags::FULLSCREEN)
            &&& x == a.net_wm_state_maximized_vert ==> on == f.on(WinFlags::MAXIMIZED_V)
            &&& x == a.net_wm_state_maximized_horiz ==> on == f.on(WinFlags::MAXIMIZED_H)
            &&& x == a.net_wm_state_demands_attention ==> on == f.on(WinFlags::URGENT)
            &&& x != a.net_wm_state_fullscreen && x != a.net_wm_state_maximized_vert && x
                != a.net_wm_state_maximized_horiz && x != a.net_wm_state_demands_attention ==> on
                == v.contains(x)
        }),
{
    let s0 = v.filter(foreign_state(a));
    let s1 = push_if(s0, f.on(WinFlags::FULLSCREEN), a.net_wm_state_fullscreen);
    let s2 = push_if(s1, f.on(WinFlags::MAXIMIZED_V), a.net_wm_state_maximized_vert);
    let s3 = push_if(s2, f.on(WinFlags::MAXIMIZED_H), a.net_wm_state_maximized_horiz);
    push_if_holds(s0, f.on(WinFlags::FULLSCREEN), a.net_wm_state_fullscreen, x);
    push_if_holds(s1, f.on(WinFlags::MAXIMIZED_V), a.net_wm_state_maximized_vert, x);
    push_if_holds(s2, f.on(WinFlags::MAXIMIZED_H), a.net_wm_state_maximized_horiz, x);
    push_if_holds(s3, f.on(WinFlags::URGENT), a.net_wm_state_demands_attention, x);
    kept_words(v, foreign_state(a), x);
}

proof fn kept_words(v: Seq<u32>, p: spec_fn(u32) -> bool, x: u32)
    ensures
        v.filter(p).contains(x) <==> v.contains(x) && p(x),
{
    let s = v.filter(p);
    if s.contains(x) {
        let i = choose|i: int| 0 <= i < s.len() && s[i] == x;
        v.lemma_filter_pred(p, i);
        v.lemma_filter_contains_rev(p, x);
    }
    if v.contains(x) && p(x) {
        let i = choose|i: int| 0 <= i < v.len() && v[i] == x;
        v.lemma_filter_contains(p, i);
    }
}

/// Of an initial state that is to be ignored, fullscreen and both kinds of maximized
/// go and everything else stays.
pub proof fn ignored_state_loses_its_size(a: Atoms, v: Seq<u32>, x: u32)
    ensures
        v.filter(kept_initial(a)).contains(x) <==> v.contains(x) && x != a.net_wm_state_fullscreen
            && x != a.net_wm_state_maximized_vert && x != a.net_wm_state_maximized_horiz,
{
    kept_words(v, kept_initial(a), x);
}

/// Desktops and docks are not managed; dialogs, utilities, menus, toolbars and
/// splashes float; and no window is both for the same reason.
pub proof fn window_types_are_sorted(a: Atoms, atom: u32)
    ensures
        atom == a.net_wm_window_type_desktop || atom == a.net_wm_window_type_dock
            <==> type_unmanaged(a, atom),
        atom == a.net_wm_window_type_dialog || atom == a.net_wm_window_type_utility || atom
            == a.net_wm_window_type_menu || atom == a.net_wm_window_type_toolbar || atom
            == a.net_wm_window_type_splash <==> type_floats(a, atom),
        type_text(a, atom) is Some <==> type_unmanaged(a, atom) || type_floats(a, atom),
{
}

/// The types of a window are named one by one, in the order in which it lists them.
pub proof fn types_are_named_in_order(a: Atoms, v: Seq<u32>, w: Seq<u32>)
    ensures
        type_names(a, v + w) == type_names(a, v) + type_names(a, w),
        v.len() == 1 ==> type_names(a, v) == (match type_text(a, v[0]) {
            Some(t) => seq![t],
            None => Seq::empty(),
        }),
    decreases w.len(),
{
    if v.len() == 1 {
        assert(v.drop_last() =~= Seq::empty());
        assert(type_names(a, v.drop_last()) =~= Seq::empty());
        assert(v.last() == v[0]);
        assert(Seq::<Seq<char>>::empty().push(type_text(a, v[0])->0) =~= seq![
            type_text(a, v[0])->0,
        ]);
    }
    if w.len() == 0 {
        assert(v + w =~= v);
        assert(type_names(a, w) =~= Seq::empty());
        assert(type_names(a, v) + type_names(a, w) =~= type_names(a, v));
    } else {
        types_are_named_in_order(a, v, w.drop_last());
        assert((v + w).drop_last() =~= v + w.drop_last());
        assert((v + w).last() == w.last());
        match type_text(a, w.last()) {
            Some(t) => {
                assert((type_names(a, v) + type_names(a, w.drop_last())).push(t) =~= type_names(a, v)
                    + type_names(a, w.drop_last()).push(t));
            },
            None => {},
        }
    }
}

} // verus!
