//! Taking a new window under management and letting one go.

use crate::atoms::Atoms;
use crate::config::{rule_views, Rule, RuleV};
use crate::geom::Rect;
use crate::model::{Client, FullscreenPolicy, SizeHints, WinFlags, WindowId};
use crate::props::{
    flags_with_state, has_bytes, hinted, holds_atoms, holds_words, normal_hints, read_class,
    read_size_hints, read_wm_hints_value, reply_atoms, reply_text, reply_words, sized, some_floats,
    some_unmanaged, state_flags, type_names, window_types, wm_hints, words_view, WindowTypes,
};
use crate::text::{
    after_nul, before_nul, from_utf8_lossy, lowercased, occurs_in, text_contains, texts,
    to_lowercase,
};
use crate::xproto::Property;
use vstd::prelude::*;
use vstd::string::*;

verus! {

broadcast use vstd::std_specs::hash::group_hash_axioms;

// ---- The client as its properties describe it -------------------------------

/// The replies to the requests for a new window's properties; `None` where a
/// request failed.
#[derive(Debug)]
pub struct WindowReplies {
    pub net_name: Option<Property>,
    pub wm_name: Option<Property>,
    pub class: Option<Property>,
    pub types: Option<Property>,
    pub state: Option<Property>,
    pub hints: Option<Property>,
    pub size: Option<Property>,
}

/// The words of the replies that are lists of words.
pub struct ReplyWords {
    pub types: Seq<u32>,
    pub state: Seq<u32>,
    pub hints: Option<Seq<u32>>,
    pub size: Option<Seq<u32>>,
}

/// `w` is what the replies hold.
pub open spec fn holds_reply_words(r: WindowReplies, w: ReplyWords) -> bool {
    &&& holds_atoms(r.types, w.types)
    &&& holds_atoms(r.state, w.state)
    &&& holds_words(r.hints, w.hints)
    &&& holds_words(r.size, w.size)
}

/// The name of a new window: its `_NET_WM_NAME`, or where that is empty its
/// `WM_NAME`.
pub open spec fn first_name(net: Option<Property>, wm: Option<Property>) -> Seq<char> {
    let n = if has_bytes(net) {
        reply_text(net->0)
    } else {
        Seq::empty()
    };
    if n.len() == 0 && wm is Some {
        reply_text(wm->0)
    } else {
        n
    }
}

/// Where a new window is and how wide its border becomes.
#[derive(Clone, Copy)]
pub struct Arrival {
    pub win: WindowId,
    pub monitor: usize,
    pub workspace: usize,
    pub geom: Rect,
    pub border_w: u32,
}

/// `c` is the client that the replies describe: tiled where nothing says
/// otherwise, with the names, types, state and hints that were read.
pub open spec fn described(
    c: Client,
    at: Arrival,
    a: Atoms,
    r: WindowReplies,
    w: ReplyWords,
) -> bool {
    let none = WinFlags { bits: 0 };
    let typed = if some_floats(a, w.types) {
        none.with(WinFlags::FLOAT)
    } else {
        none
    };
    let z = sized(
        hinted(
            Client {
                flags: state_flags(a, typed, w.state),
                wants_input: true,
                hints: SizeHints::unset(),
                ..c
            },
            wm_hints(w.hints),
        ),
        normal_hints(w.size),
    );
    &&& c.window == at.win && c.monitor == at.monitor && c.workspace == at.workspace
    &&& c.geom == at.geom && c.saved_geom == at.geom
    &&& c.border_w == at.border_w && c.old_border_w == 0
    &&& c.flags == z.flags && c.wants_input == z.wants_input && c.hints == z.hints
    &&& c.fullscreen_policy == FullscreenPolicy::Tile
    &&& c.transient_parent is None && c.opacity is None
    &&& c.last_reported is None && c.last_desired is None
    &&& !c.geometry_dirty && !c.wm_hidden && c.focus_serial == 0
    &&& c.is_unmanaged == some_unmanaged(a, w.types)
    &&& c.name@ == first_name(r.net_name, r.wm_name)
    &&& texts(c.window_types@) == type_names(a, w.types)
    &&& match r.class {
        Some(p) => c.instance@ == before_nul(reply_text(p)) && c.class@ == before_nul(
            after_nul(reply_text(p)),
        ),
        None => c.instance@.len() == 0 && c.class@.len() == 0,
    }
}

fn window_name(net: &Option<Property>, wm: &Option<Property>) -> (s: String)
    ensures
        s@ == first_name(*net, *wm),
{
    let mut name: String = String::new();
    assert(name@ =~= Seq::<char>::empty());
    match net {
        Some(p) => {
            if p.value.len() > 0 {
                name = from_utf8_lossy(&p.value);
            }
        },
        None => {},
    }
    if name.as_str().unicode_len() == 0 {
        match wm {
            Some(p) => {
                name = from_utf8_lossy(&p.value);
            },
            None => {},
        }
    }
    name
}

/// The client that a new window's properties describe, given their words.
pub fn client_of_words(
    at: Arrival,
    a: &Atoms,
    r: &WindowReplies,
    types: &Vec<u32>,
    state: &Vec<u32>,
    hints: &Option<Vec<u32>>,
    size: &Option<Vec<u32>>,
) -> (c: Client)
    ensures
        described(
            c,
            at,
            *a,
            *r,
            (ReplyWords {
                types: types@,
                state: state@,
                hints: words_view(*hints),
                size: words_view(*size),
            }),
        ),
{
    let mut c: Client = Client::new(at.win, at.monitor, at.workspace);
    c.geom = at.geom;
    c.saved_geom = at.geom;
    c.border_w = at.border_w;
    c.name = window_name(&r.net_name, &r.wm_name);
    let (instance, class): (String, String) = read_class(&r.class);
    c.instance = instance;
    c.class = class;
    let t: WindowTypes = window_types(a, types);
    c.window_types = t.names;
    c.is_unmanaged = t.unmanaged;
    if t.floats {
        c.flags.set(WinFlags::FLOAT);
    }
    c.flags = flags_with_state(a, c.flags, state);
    c.take_wm_hints(read_wm_hints_value(hints));
    c.take_size_hints(read_size_hints(size));
    c
}

/// The client that a new window's properties describe.
pub fn new_client(at: Arrival, a: &Atoms, r: &WindowReplies) -> (c: Client)
    ensures
        exists|w: ReplyWords| #[trigger] holds_reply_words(*r, w) && described(c, at, *a, *r, w),
{
    let types: Vec<u32> = reply_atoms(&r.types);
    let state: Vec<u32> = reply_atoms(&r.state);
    let hints: Option<Vec<u32>> = reply_words(&r.hints);
    let size: Option<Vec<u32>> = reply_words(&r.size);
    let c: Client = client_of_words(at, a, r, &types, &state, &hints, &size);
    proof {
        let w = ReplyWords {
            types: types@,
            state: state@,
            hints: words_view(hints),
            size: words_view(size),
        };
        assert(holds_reply_words(*r, w));
    }
    c
}

// ---- Rules ------------------------------------------------------------------

/// The rule applies to the client.
pub open spec fn rule_applies(r: RuleV, c: Client) -> bool {
    r.matches(c.class@, c.instance@, texts(c.window_types@), c.name@)
}

/// The client under one rule. `room` is the number of workspaces of its monitor,
/// if that exists.
#[verifier::opaque]
pub open spec fn rule_step(c: Client, r: RuleV, room: Option<int>) -> Client {
    if !rule_applies(r, c) {
        c
    } else {
        let f1 = if r.float {
            c.flags.with(WinFlags::FLOAT)
        } else {
            c.flags
        };
        let f2 = if r.sticky {
            f1.with(WinFlags::FLOAT).with(WinFlags::STICKY)
        } else {
            f1
        };
        let f3 = if r.ignore_initial_state {
            f2.less(WinFlags::MAXIMIZED_V).less(WinFlags::MAXIMIZED_H).less(WinFlags::FULLSCREEN)
        } else {
            f2
        };
        Client {
            flags: f3,
            workspace: match (r.ws, room) {
                (Some(ws), Some(n)) => if ws < n {
                    ws
                } else {
                    c.workspace
                },
                _ => c.workspace,
            },
            fullscreen_policy: if r.true_fullscreen {
                FullscreenPolicy::True
            } else if r.deny_fullscreen && c.fullscreen_policy != FullscreenPolicy::True {
                FullscreenPolicy::Deny
            } else {
                c.fullscreen_policy
            },
            border_w: match r.border_w {
                Some(bw) => bw,
                None => c.border_w,
            },
            opacity: match r.opacity {
                Some(op) => Some(op),
                None => c.opacity,
            },
            ..c
        }
    }
}

/// The client under all rules, one after the other.
pub open spec fn ruled(c: Client, rules: Seq<RuleV>, room: Option<int>) -> Client
    decreases rules.len(),
{
    if rules.len() == 0 {
        c
    } else {
        rule_step(ruled(c, rules.drop_last(), room), rules.last(), room)
    }
}

/// Some rule that applies strips the state the window asked for.
pub open spec fn strips(c: Client, rules: Seq<RuleV>) -> bool {
    exists|i: int|
        0 <= i < rules.len() && rule_applies(#[trigger] rules[i], c)
            && rules[i].ignore_initial_state
}

/// Rules look only at what they never change.
proof fn rules_see_the_same(c: Client, rules: Seq<RuleV>, room: Option<int>)
    ensures
        ({
            let d = ruled(c, rules, room);
            &&& d.class == c.class && d.instance == c.instance && d.window_types == c.window_types
                && d.name == c.name && d.monitor == c.monitor && d.window == c.window
        }),
    decreases rules.len(),
{
    if rules.len() > 0 {
        reveal(rule_step);
        rules_see_the_same(c, rules.drop_last(), room);
    }
}

fn apply_rule(c: &mut Client, rule: &Rule, room: Option<usize>) -> (strip: bool)
    ensures
        *final(c) == rule_step(*old(c), rule@, room_int(room)),
        strip == (rule_applies(rule@, *old(c)) && rule.ignore_initial_state),
{
    reveal(rule_step);
    if !rule.matches(c.class.as_str(), c.instance.as_str(), &c.window_types, c.name.as_str()) {
        return false;
    }
    if rule.float {
        c.flags.set(WinFlags::FLOAT);
    }
    if rule.sticky {
        c.flags.set(WinFlags::FLOAT);
        c.flags.set(WinFlags::STICKY);
    }
    if rule.ignore_initial_state {
        c.flags.clear(WinFlags::MAXIMIZED_V);
        c.flags.clear(WinFlags::MAXIMIZED_H);
        c.flags.clear(WinFlags::FULLSCREEN);
    }
    match (rule.ws, room) {
        (Some(ws), Some(n)) => {
            if ws < n {
                c.workspace = ws;
            }
        },
        _ => {},
    }
    if rule.true_fullscreen {
        c.fullscreen_policy = FullscreenPolicy::True;
    } else if rule.deny_fullscreen && c.fullscreen_policy != FullscreenPolicy::True {
        c.fullscreen_policy = FullscreenPolicy::Deny;
    }
    match rule.border_w {
        Some(bw) => {
            c.border_w = bw;
        },
        None => {},
    }
    match rule.opacity {
        Some(op) => {
            c.opacity = Some(op);
        },
        None => {},
    }
    rule.ignore_initial_state
}

/// Apply the rules to a new client, in order. `room` is the number of workspaces
/// of its monitor. Returns whether the state that the window asked for is to be
/// stripped from its `_NET_WM_STATE`.
pub fn apply_rules(c: &mut Client, rules: &Vec<Rule>, room: Option<usize>) -> (strip: bool)
    ensures
        *final(c) == ruled(*old(c), rule_views(rules@), room_int(room)),
        strip == strips(*old(c), rule_views(rules@)),
{
    let ghost start = *c;
    let ghost all = rule_views(rules@);
    let mut strip: bool = false;
    let mut i: usize = 0;
    assert(all.take(0) =~= Seq::<RuleV>::empty());
    while i < rules.len()
        invariant
            i <= rules.len(),
            all == rule_views(rules@),
            *c == ruled(start, all.take(i as int), room_int(room)),
            strip == exists|j: int|
                0 <= j < i && rule_applies(#[trigger] all[j], start) && all[j].ignore_initial_state,
        decreases rules.len() - i,
    {
        let rule: &Rule = &rules[i];
        proof {
            let t = all.take(i as int + 1);
            assert(t.drop_last() =~= all.take(i as int));
            assert(t.last() == rule@);
            assert(all[i as int] == rule@);
            rules_see_the_same(start, all.take(i as int), room_int(room));
        }
        if apply_rule(c, rule, room) {
            strip = true;
        }
        i = i + 1;
    }
    assert(all.take(i as int) =~= all);
    strip
}

pub open spec fn room_int(room: Option<usize>) -> Option<int> {
    match room {
        Some(n) => Some(n as int),
        None => None,
    }
}

// ---- Portals ----------------------------------------------------------------

/// Classes whose windows always float.
pub open spec fn portal_classes() -> Seq<Seq<char>> {
    seq!["xdg-desktop-portal"@, "flameshot"@, "gpick"@, "pinentry"@, "screenkey"@]
}

/// Titles whose windows always float.
pub open spec fn portal_titles() -> Seq<Seq<char>> {
    seq![
        "file upload"@,
        "open file"@,
        "save file"@,
        "file chooser"@,
        "qt file dialog"@,
        "choose file"@,
        "select file"@,
    ]
}

/// Some of the texts occurs in `hay`.
pub open spec fn some_occurs(hay: Seq<char>, list: Seq<Seq<char>>) -> bool {
    exists|i: int| 0 <= i < list.len() && occurs_in(hay, #[trigger] list[i])
}

/// The window is a portal's or a file dialog, by its class or title in lower
/// case.
pub open spec fn is_portal(class: Seq<char>, title: Seq<char>) -> bool {
    some_occurs(class, portal_classes()) || some_occurs(title, portal_titles())
}

/// The client with what is known of portals applied, by its class and title in
/// lower case: they float, and the screenshot tool has no border.
pub open spec fn portaled_by(c: Client, class: Seq<char>, title: Seq<char>) -> Client {
    if is_portal(class, title) {
        Client {
            flags: c.flags.with(WinFlags::FLOAT),
            border_w: if occurs_in(class, "flameshot"@) {
                0
            } else {
                c.border_w
            },
            ..c
        }
    } else {
        c
    }
}

/// The client with what is known of portals applied, whatever the case of its
/// class and title.
#[verifier::opaque]
pub open spec fn portaled(c: Client) -> Client {
    portaled_by(c, lowercased(c.class@), lowercased(c.name@))
}

fn occurs_any(hay: &str, list: &Vec<&'static str>) -> (b: bool)
    ensures
        b == some_occurs(hay@, list@.map_values(|s: &'static str| s@)),
{
    let ghost views = list@.map_values(|s: &'static str| s@);
    let mut i: usize = 0;
    while i < list.len()
        invariant
            i <= list.len(),
            views == list@.map_values(|s: &'static str| s@),
            forall|j: int| 0 <= j < i ==> !occurs_in(hay@, #[trigger] views[j]),
        decreases list.len() - i,
    {
        assert(views[i as int] == list@[i as int]@);
        if text_contains(hay, list[i]) {
            return true;
        }
        i = i + 1;
    }
    false
}

/// Let a window float if its class or title, given in lower case, is one of a
/// portal or a file dialog.
pub fn detect_portal_by(c: &mut Client, class: &str, title: &str)
    ensures
        *final(c) == portaled_by(*old(c), class@, title@),
{
    let classes: Vec<&'static str> = vec![
        "xdg-desktop-portal",
        "flameshot",
        "gpick",
        "pinentry",
        "screenkey",
    ];
    assert(classes@.map_values(|s: &'static str| s@) =~= portal_classes());
    let titles: Vec<&'static str> = vec![
        "file upload",
        "open file",
        "save file",
        "file chooser",
        "qt file dialog",
        "choose file",
        "select file",
    ];
    assert(titles@.map_values(|s: &'static str| s@) =~= portal_titles());
    if occurs_any(class, &classes) || occurs_any(title, &titles) {
        c.flags.set(WinFlags::FLOAT);
        if text_contains(class, "flameshot") {
            c.border_w = 0;
        }
    }
}

/// Let windows of portals and file dialogs float.
pub fn detect_portal(c: &mut Client)
    ensures
        *final(c) == portaled(*old(c)),
{
    reveal(portaled);
    let class: String = to_lowercase(c.class.as_str());
    let title: String = to_lowercase(c.name.as_str());
    detect_portal_by(c, class.as_str(), title.as_str());
}

// ---- Where a float goes -----------------------------------------------------

/// Half of `n`, rounded towards zero.
pub open spec fn half(n: int) -> int {
    if n >= 0 {
        n / 2
    } else {
        -((-n) / 2)
    }
}

/// `v` kept between `lo` and `hi`, or at `lo` where there is no room.
pub open spec fn kept_in(v: int, lo: int, hi: int) -> int {
    let top = if hi > lo {
        hi
    } else {
        lo
    };
    if v < lo {
        lo
    } else if v > top {
        top
    } else {
        v
    }
}

/// The position of something `len` long in the middle of a stretch.
pub open spec fn middle(start: int, stretch: int, len: int) -> int {
    start + half(stretch - len)
}

/// Where a floating window of the size of `g` goes: in the middle of `on`, kept
/// inside the work area if there is one.
pub open spec fn centered(g: Rect, on: Rect, wa: Option<Rect>) -> Rect {
    let x = middle(on.x as int, on.w as int, g.w as int);
    let y = middle(on.y as int, on.h as int, g.h as int);
    match wa {
        Some(a) => Rect {
            x: kept_in(x, a.x as int, a.right_edge() - g.w) as i32,
            y: kept_in(y, a.y as int, a.bottom_edge() - g.h) as i32,
            ..g
        },
        None => Rect { x: x as i32, y: y as i32, ..g },
    }
}

/// The middle is representable.
pub open spec fn middle_fits(g: Rect, on: Rect) -> bool {
    &&& i32::MIN <= middle(on.x as int, on.w as int, g.w as int) <= i32::MAX
    &&& i32::MIN <= middle(on.y as int, on.h as int, g.h as int) <= i32::MAX
}

fn mid(start: i32, stretch: u32, len: u32) -> (r: i64)
    ensures
        r == middle(start as int, stretch as int, len as int),
{
    if stretch >= len {
        start as i64 + ((stretch - len) / 2) as i64
    } else {
        start as i64 - ((len - stretch) / 2) as i64
    }
}

fn keep_in(v: i64, lo: i32, hi: i64) -> (r: i64)
    ensures
        r == kept_in(v as int, lo as int, hi as int),
{
    let top: i64 = if hi > lo as i64 {
        hi
    } else {
        lo as i64
    };
    if v < lo as i64 {
        lo as i64
    } else if v > top {
        top
    } else {
        v
    }
}

/// Where a floating window of the size of `g` goes.
pub fn center_float(g: Rect, on: Rect, wa: Option<Rect>) -> (r: Rect)
    requires
        match wa {
            Some(a) => a.edges_fit(),
            None => middle_fits(g, on),
        },
    ensures
        r == centered(g, on, wa),
{
    let x: i64 = mid(on.x, on.w, g.w);
    let y: i64 = mid(on.y, on.h, g.h);
    match wa {
        Some(a) => {
            let cx: i64 = keep_in(x, a.x, a.x as i64 + a.w as i64 - g.w as i64);
            let cy: i64 = keep_in(y, a.y, a.y as i64 + a.h as i64 - g.h as i64);
            Rect::new(cx as i32, cy as i32, g.w, g.h)
        },
        None => Rect::new(x as i32, y as i32, g.w, g.h),
    }
}

/// A centered window that is no larger than the work area lies in it.
pub proof fn centered_float_is_in_the_workarea(g: Rect, on: Rect, wa: Rect)
    requires
        wa.edges_fit(),
        g.w <= wa.w,
        g.h <= wa.h,
    ensures
        wa.encloses(centered(g, on, Some(wa))),
{
}

/// The geometry under one rule with a size or a position.
#[verifier::opaque]
pub open spec fn rule_geometry(g: Rect, r: RuleV, wa: Rect) -> Rect {
    let (w, h) = match r.size {
        Some((w, h)) => (w, h),
        None => (g.w, g.h),
    };
    let (x, y) = match r.position {
        Some((x, y)) => (wa.x + x, wa.y + y),
        None => (g.x as int, g.y as int),
    };
    Rect {
        x: kept_in(x, wa.x as int, wa.right_edge() - w) as i32,
        y: kept_in(y, wa.y as int, wa.bottom_edge() - h) as i32,
        w: if w < wa.w {
            w
        } else {
            wa.w
        },
        h: if h < wa.h {
            h
        } else {
            wa.h
        },
    }
}

/// A floating client under the geometry of every rule that applies.
pub open spec fn geometry_ruled(c: Client, rules: Seq<RuleV>, wa: Rect) -> Client
    decreases rules.len(),
{
    if rules.len() == 0 || !c.floats() {
        c
    } else {
        let d = geometry_ruled(c, rules.drop_last(), wa);
        if rule_applies(rules.last(), d) {
            let g = rule_geometry(d.geom, rules.last(), wa);
            Client { geom: g, saved_geom: g, ..d }
        } else {
            d
        }
    }
}

proof fn geometry_rules_see_the_same(c: Client, rules: Seq<RuleV>, wa: Rect)
    ensures
        geometry_ruled(c, rules, wa) == (Client {
            geom: geometry_ruled(c, rules, wa).geom,
            saved_geom: geometry_ruled(c, rules, wa).saved_geom,
            ..c
        }),
    decreases rules.len(),
{
    if rules.len() > 0 && c.floats() {
        geometry_rules_see_the_same(c, rules.drop_last(), wa);
    }
}

fn ruled_rect(g: Rect, rule: &Rule, wa: Rect) -> (r: Rect)
    requires
        wa.edges_fit(),
    ensures
        r == rule_geometry(g, rule@, wa),
{
    reveal(rule_geometry);
    let (w, h): (u32, u32) = match rule.size {
        Some((w, h)) => (w, h),
        None => (g.w, g.h),
    };
    let (x, y): (i64, i64) = match rule.position {
        Some((x, y)) => (wa.x as i64 + x as i64, wa.y as i64 + y as i64),
        None => (g.x as i64, g.y as i64),
    };
    let cx: i64 = keep_in(x, wa.x, wa.x as i64 + wa.w as i64 - w as i64);
    let cy: i64 = keep_in(y, wa.y, wa.y as i64 + wa.h as i64 - h as i64);
    Rect::new(
        cx as i32,
        cy as i32,
        if w < wa.w {
            w
        } else {
            wa.w
        },
        if h < wa.h {
            h
        } else {
            wa.h
        },
    )
}

/// Apply the size and position of the rules to a floating client, clamped to the
/// work area.
pub fn apply_rule_geometry(c: &mut Client, rules: &Vec<Rule>, wa: Rect)
    requires
        wa.edges_fit(),
    ensures
        *final(c) == geometry_ruled(*old(c), rule_views(rules@), wa),
{
    if !c.is_float() {
        return;
    }
    let ghost start = *c;
    let ghost all = rule_views(rules@);
    let mut i: usize = 0;
    assert(all.take(0) =~= Seq::<RuleV>::empty());
    while i < rules.len()
        invariant
            i <= rules.len(),
            wa.edges_fit(),
            start.floats(),
            all == rule_views(rules@),
            *c == geometry_ruled(start, all.take(i as int), wa),
        decreases rules.len() - i,
    {
        let rule: &Rule = &rules[i];
        proof {
            let t = all.take(i as int + 1);
            assert(t.drop_last() =~= all.take(i as int));
            assert(t.last() == rule@);
            geometry_rules_see_the_same(start, all.take(i as int), wa);
        }
        if rule.matches(c.class.as_str(), c.instance.as_str(), &c.window_types, c.name.as_str()) {
            let g: Rect = ruled_rect(c.geom, rule, wa);
            c.geom = g;
            c.saved_geom = g;
        }
        i = i + 1;
    }
    assert(all.take(i as int) =~= all);
}

/// Whatever size and position a rule asks for, the window ends inside the work
/// area.
pub proof fn rule_geometry_is_in_the_workarea(g: Rect, r: RuleV, wa: Rect)
    requires
        wa.edges_fit(),
    ensures
        wa.encloses(rule_geometry(g, r, wa)),
{
    reveal(rule_geometry);
}

// ---- What rules and centering are for ---------------------------------------

/// A position that a rule gives counts from the corner of the work area, and a size
/// that it gives is the window's: where the window then lies in the work area, that
/// is exactly its geometry. What the rule leaves open stays as it was.
pub proof fn rule_places_the_window_as_asked(g: Rect, r: RuleV, wa: Rect)
    requires
        wa.edges_fit(),
    ensures
        ({
            let w = if r.size is Some {
                (r.size->0).0
            } else {
                g.w
            };
            let h = if r.size is Some {
                (r.size->0).1
            } else {
                g.h
            };
            let out = rule_geometry(g, r, wa);
            &&& w <= wa.w ==> out.w == w
            &&& h <= wa.h ==> out.h == h
            &&& w > wa.w ==> out.w == wa.w && out.x == wa.x
            &&& h > wa.h ==> out.h == wa.h && out.y == wa.y
            &&& r.position matches Some((x, y)) ==> {
                &&& 0 <= x && x + w <= wa.w ==> out.x == wa.x + x
                &&& 0 <= y && y + h <= wa.h ==> out.y == wa.y + y
                &&& x < 0 ==> out.x == wa.x
                &&& y < 0 ==> out.y == wa.y
                &&& w <= wa.w && x + w > wa.w ==> out.x + w == wa.x + wa.w
                &&& h <= wa.h && y + h > wa.h ==> out.y + h == wa.y + wa.h
            }
            &&& r.position is None ==> {
                &&& wa.x <= g.x && g.x + w <= wa.x + wa.w ==> out.x == g.x
                &&& wa.y <= g.y && g.y + h <= wa.y + wa.h ==> out.y == g.y
                &&& g.x < wa.x ==> out.x == wa.x
                &&& g.y < wa.y ==> out.y == wa.y
                &&& w <= wa.w && g.x + w > wa.x + wa.w ==> out.x + w == wa.x + wa.w
                &&& h <= wa.h && g.y + h > wa.y + wa.h ==> out.y + h == wa.y + wa.h
            }
        }),
{
    reveal(rule_geometry);
}

/// Moving a rule's position moves the window by just as much, as long as it stays
/// in the work area.
pub proof fn rule_position_moves_the_window(
    g: Rect,
    r: RuleV,
    wa: Rect,
    p: (i32, i32),
    q: (i32, i32),
)
    requires
        wa.edges_fit(),
        ({
            let w = if r.size is Some {
                (r.size->0).0
            } else {
                g.w
            };
            let h = if r.size is Some {
                (r.size->0).1
            } else {
                g.h
            };
            &&& 0 <= p.0 && p.0 + w <= wa.w && 0 <= p.1 && p.1 + h <= wa.h
            &&& 0 <= q.0 && q.0 + w <= wa.w && 0 <= q.1 && q.1 + h <= wa.h
        }),
    ensures
        ({
            let a = rule_geometry(g, RuleV { position: Some(p), ..r }, wa);
            let b = rule_geometry(g, RuleV { position: Some(q), ..r }, wa);
            &&& b.x - a.x == q.0 - p.0 && b.y - a.y == q.1 - p.1
            &&& a.w == b.w && a.h == b.h
        }),
{
    reveal(rule_geometry);
}

/// A floating client ends with the geometry of the last rule that applies to it,
/// and that is also where it returns to; a tile takes no geometry from rules, and
/// neither does a window that no rule applies to.
pub proof fn last_rule_places_the_float(c: Client, rules: Seq<RuleV>, wa: Rect)
    ensures
        ({
            let d = geometry_ruled(c, rules, wa);
            &&& !c.floats() ==> d == c
            &&& (forall|i: int| 0 <= i < rules.len() ==> !rule_applies(#[trigger] rules[i], c))
                ==> d == c
            &&& c.floats() && rules.len() > 0 && rule_applies(rules.last(), c) ==> {
                &&& d.geom == rule_geometry(
                    geometry_ruled(c, rules.drop_last(), wa).geom,
                    rules.last(),
                    wa,
                )
                &&& d.saved_geom == d.geom
            }
            &&& c.floats() && rules.len() > 0 && !rule_applies(rules.last(), c) ==> d
                == geometry_ruled(c, rules.drop_last(), wa)
            &&& d == (Client { geom: d.geom, saved_geom: d.saved_geom, ..c })
        }),
    decreases rules.len(),
{
    geometry_rules_see_the_same(c, rules, wa);
    if rules.len() > 0 {
        let t = rules.drop_last();
        geometry_rules_see_the_same(c, t, wa);
        last_rule_places_the_float(c, t, wa);
        assert forall|i: int| 0 <= i < t.len() implies t[i] == #[trigger] rules[i] by {}
        if forall|i: int| 0 <= i < rules.len() ==> !rule_applies(#[trigger] rules[i], c) {
            assert forall|i: int| 0 <= i < t.len() implies !rule_applies(#[trigger] t[i], c) by {
                assert(rules[i] == t[i]);
            }
            assert(rules[rules.len() - 1] == rules.last());
        }
    }
}

/// A rule that applies does what it says and nothing else: it makes the window
/// float, or float on every workspace, sends it to a workspace that there is, gives
/// it a border and an opacity, strips the state it asked for, and settles what
/// becomes of its fullscreen requests. One that does not apply does nothing.
pub proof fn rule_does_what_it_says(c: Client, r: RuleV, room: Option<int>)
    ensures
        ({
            let d = rule_step(c, r, room);
            let applies = r.matches(c.class@, c.instance@, texts(c.window_types@), c.name@);
            &&& !applies ==> d == c
            &&& applies ==> {
                &&& d.flags.on(WinFlags::FLOAT) == (r.float || r.sticky || c.flags.on(
                    WinFlags::FLOAT,
                ))
                &&& d.flags.on(WinFlags::STICKY) == (r.sticky || c.flags.on(WinFlags::STICKY))
                &&& d.flags.on(WinFlags::FULLSCREEN) == (!r.ignore_initial_state && c.flags.on(
                    WinFlags::FULLSCREEN,
                ))
                &&& d.flags.on(WinFlags::MAXIMIZED_V) == (!r.ignore_initial_state && c.flags.on(
                    WinFlags::MAXIMIZED_V,
                ))
                &&& d.flags.on(WinFlags::MAXIMIZED_H) == (!r.ignore_initial_state && c.flags.on(
                    WinFlags::MAXIMIZED_H,
                ))
                &&& d.flags.on(WinFlags::URGENT) == c.flags.on(WinFlags::URGENT)
                &&& d.flags.on(WinFlags::NO_FOCUS) == c.flags.on(WinFlags::NO_FOCUS)
                &&& d.flags.on(WinFlags::FIXED) == c.flags.on(WinFlags::FIXED)
                &&& r.ws is Some && room is Some && r.ws->0 < room->0 ==> d.workspace == r.ws->0
                &&& r.ws is None || room is None || r.ws->0 >= room->0 ==> d.workspace
                    == c.workspace
                &&& r.border_w is Some ==> d.border_w == r.border_w->0
                &&& r.border_w is None ==> d.border_w == c.border_w
                &&& r.opacity is Some ==> d.opacity == r.opacity
                &&& r.opacity is None ==> d.opacity == c.opacity
                &&& r.true_fullscreen ==> d.fullscreen_policy == FullscreenPolicy::True
                &&& !r.true_fullscreen && c.fullscreen_policy == FullscreenPolicy::True
                    ==> d.fullscreen_policy == FullscreenPolicy::True
                &&& !r.true_fullscreen && r.deny_fullscreen && c.fullscreen_policy
                    != FullscreenPolicy::True ==> d.fullscreen_policy == FullscreenPolicy::Deny
                &&& !r.true_fullscreen && !r.deny_fullscreen ==> d.fullscreen_policy
                    == c.fullscreen_policy
            }
            &&& d == (Client {
                flags: d.flags,
                workspace: d.workspace,
                fullscreen_policy: d.fullscreen_policy,
                border_w: d.border_w,
                opacity: d.opacity,
                ..c
            })
        }),
{
    reveal(rule_step);
    let b = c.flags.bits;
    assert(forall|m: u16| #![trigger m & 0u16]
        (m == 1 || m == 2 || m == 4 || m == 8 || m == 16 || m == 32 || m == 64 || m == 128) ==> (
        (b | 1u16) & m != 0 <==> m == 1 || b & m != 0)
            && (((b | 1u16) | 1u16 | 16u16) & m != 0 <==> m == 1 || m == 16 || b & m != 0)
            && ((b | 1u16 | 16u16) & m != 0 <==> m == 1 || m == 16 || b & m != 0)) by (bit_vector);
    assert(forall|x: u16, m: u16| #![trigger x & m]
        (m == 1 || m == 2 || m == 4 || m == 8 || m == 16 || m == 32 || m == 64 || m == 128) ==> ((
        x & !4u16 & !8u16 & !2u16) & m != 0 <==> m != 2 && m != 4 && m != 8 && x & m != 0))
        by (bit_vector);
    assert(1u16 & 0u16 == 0 && 2u16 & 0u16 == 0 && 4u16 & 0u16 == 0 && 8u16 & 0u16 == 0 && 16u16
        & 0u16 == 0 && 32u16 & 0u16 == 0 && 64u16 & 0u16 == 0 && 128u16 & 0u16 == 0)
        by (bit_vector);
    let f1 = if r.float {
        c.flags.with(WinFlags::FLOAT)
    } else {
        c.flags
    };
    let f2 = if r.sticky {
        f1.with(WinFlags::FLOAT).with(WinFlags::STICKY)
    } else {
        f1
    };
    let x = f2.bits;
    assert(x & 1u16 == x & 1u16 && x & 2u16 == x & 2u16 && x & 4u16 == x & 4u16 && x & 8u16 == x
        & 8u16 && x & 16u16 == x & 16u16 && x & 32u16 == x & 32u16 && x & 64u16 == x & 64u16 && x
        & 128u16 == x & 128u16);
}

/// A centered window has the same room to its left as to its right, and above as
/// below, within a pixel, as long as the work area lets it; its size is its own. A
/// window that would leave the work area stops at the edge it would cross.
pub proof fn centered_float_is_in_the_middle(g: Rect, on: Rect, wa: Rect)
    requires
        wa.edges_fit(),
        g.w <= wa.w,
        g.h <= wa.h,
    ensures
        ({
            let r = centered(g, on, Some(wa));
            let left = r.x - on.x;
            let right = (on.x + on.w) - (r.x + r.w);
            let above = r.y - on.y;
            let below = (on.y + on.h) - (r.y + r.h);
            &&& r.w == g.w && r.h == g.h
            &&& wa.x < r.x && r.x + r.w < wa.x + wa.w ==> -1 <= left - right <= 1
            &&& wa.y < r.y && r.y + r.h < wa.y + wa.h ==> -1 <= above - below <= 1
            &&& r.x == wa.x && r.x + r.w < wa.x + wa.w ==> left - right >= -1
            &&& r.y == wa.y && r.y + r.h < wa.y + wa.h ==> above - below >= -1
            &&& r.x + r.w == wa.x + wa.w && wa.x < r.x ==> left - right <= 1
            &&& r.y + r.h == wa.y + wa.h && wa.y < r.y ==> above - below <= 1
        }),
{
}

/// Without a work area a centered window lies in the middle, within a pixel.
pub proof fn centered_float_needs_no_work_area(g: Rect, on: Rect)
    requires
        middle_fits(g, on),
    ensures
        ({
            let r = centered(g, on, None);
            &&& r.w == g.w && r.h == g.h
            &&& -1 <= (r.x - on.x) - ((on.x + on.w) - (r.x + r.w)) <= 1
            &&& -1 <= (r.y - on.y) - ((on.y + on.h) - (r.y + r.h)) <= 1
        }),
{
}

/// A window whose class holds the name of a portal, or whose title holds that of a
/// file dialog, floats and keeps all else but its border, which only the screenshot
/// tool loses; any other window stays as it is.
pub proof fn portals_float(c: Client, class: Seq<char>, title: Seq<char>)
    ensures
        ({
            let d = portaled_by(c, class, title);
            let named = occurs_in(class, "xdg-desktop-portal"@) || occurs_in(class, "flameshot"@)
                || occurs_in(class, "gpick"@) || occurs_in(class, "pinentry"@) || occurs_in(
                class,
                "screenkey"@,
            );
            let titled = occurs_in(title, "file upload"@) || occurs_in(title, "open file"@)
                || occurs_in(title, "save file"@) || occurs_in(title, "file chooser"@)
                || occurs_in(title, "qt file dialog"@) || occurs_in(title, "choose file"@)
                || occurs_in(title, "select file"@);
            &&& named || titled ==> d.floats()
            &&& !named && !titled ==> d == c
            &&& occurs_in(class, "flameshot"@) ==> d.border_w == 0
            &&& !occurs_in(class, "flameshot"@) ==> d.border_w == c.border_w
            &&& d == (Client { flags: d.flags, border_w: d.border_w, ..c })
        }),
{
    let a = portal_classes();
    let b = portal_titles();
    crate::model::flag_is_as_it_was_set(c.flags, WinFlags::FLOAT);
    assert(occurs_in(class, a[0]) || occurs_in(class, a[1]) || occurs_in(class, a[2]) || occurs_in(
        class,
        a[3],
    ) || occurs_in(class, a[4]) <==> some_occurs(class, a));
    assert(occurs_in(title, b[0]) || occurs_in(title, b[1]) || occurs_in(title, b[2]) || occurs_in(
        title,
        b[3],
    ) || occurs_in(title, b[4]) || occurs_in(title, b[5]) || occurs_in(title, b[6])
        <==> some_occurs(title, b));
}

/// A new window is called what its newer name says, or else its older one.
pub proof fn new_window_has_its_first_name(net: Option<Property>, wm: Option<Property>)
    ensures
        has_bytes(net) && reply_text(net->0).len() > 0 ==> first_name(net, wm) == reply_text(
            net->0,
        ),
        !has_bytes(net) && wm is Some ==> first_name(net, wm) == reply_text(wm->0),
        !has_bytes(net) && wm is None ==> first_name(net, wm).len() == 0,
{
}

/// A new client is what its window says of itself: where it is asked to be, in the
/// states that it lists, floating for its type, its modality or its one size, and
/// taking input and attention as its hints say.
pub proof fn new_client_is_what_its_window_says(
    c: Client,
    at: Arrival,
    a: Atoms,
    r: WindowReplies,
    w: ReplyWords,
)
    requires
        described(c, at, a, r, w),
    ensures
        c.window == at.win && c.monitor == at.monitor && c.workspace == at.workspace && c.geom
            == at.geom && c.border_w == at.border_w,
        c.flags.on(WinFlags::FULLSCREEN) <==> w.state.contains(a.net_wm_state_fullscreen),
        c.flags.on(WinFlags::MAXIMIZED_V) <==> w.state.contains(a.net_wm_state_maximized_vert),
        c.flags.on(WinFlags::MAXIMIZED_H) <==> w.state.contains(a.net_wm_state_maximized_horiz),
        c.flags.on(WinFlags::FLOAT) <==> (exists|i: int|
            0 <= i < w.types.len() && crate::props::type_floats(a, #[trigger] w.types[i])) || w.state.contains(
            a.net_wm_state_modal,
        ) || (normal_hints(w.size) is Some && crate::props::one_size(normal_hints(w.size)->0)),
        c.flags.on(WinFlags::URGENT) <==> wm_hints(w.hints) is Some && (wm_hints(
            w.hints,
        )->0).urgent,
        c.flags.on(WinFlags::NO_FOCUS) <==> wm_hints(w.hints) is Some && (wm_hints(
            w.hints,
        )->0).no_focus,
        c.wants_input == !c.flags.on(WinFlags::NO_FOCUS),
        normal_hints(w.size) is Some ==> c.hints == normal_hints(w.size)->0,
        normal_hints(w.size) is None ==> !c.hints.valid,
        c.transient_parent is None && c.opacity is None && c.focus_serial == 0,
        c.is_unmanaged <==> exists|i: int|
            0 <= i < w.types.len() && crate::props::type_unmanaged(a, #[trigger] w.types[i]),
{
    let none = WinFlags { bits: 0 };
    let typed = if some_floats(a, w.types) {
        none.with(WinFlags::FLOAT)
    } else {
        none
    };
    assert(0u16 & 1u16 == 0 && 0u16 & 2u16 == 0 && 0u16 & 4u16 == 0 && 0u16 & 8u16 == 0 && 0u16
        & 32u16 == 0 && 0u16 & 64u16 == 0 && (0u16 | 1u16) & 1u16 != 0 && (0u16 | 1u16) & 2u16 == 0
        && (0u16 | 1u16) & 4u16 == 0 && (0u16 | 1u16) & 8u16 == 0 && (0u16 | 1u16) & 32u16 == 0 && (
    0u16 | 1u16) & 64u16 == 0) by (bit_vector);
    crate::props::initial_state_is_what_is_listed(a, typed, w.state);
    let base = Client {
        flags: state_flags(a, typed, w.state),
        wants_input: true,
        hints: SizeHints::unset(),
        ..c
    };
    if wm_hints(w.hints) is Some {
        crate::props::hints_are_noted(base, wm_hints(w.hints)->0);
        crate::props::hints_say_who_takes_input(w.hints->0);
    }
    let mid = hinted(base, wm_hints(w.hints));
    if normal_hints(w.size) is Some {
        crate::props::window_of_one_size_floats(mid, normal_hints(w.size)->0);
    }
}

/// The state that a window asked for is stripped just where a rule that applies to it
/// says so, whichever of the rules it is.
pub proof fn one_rule_strips_the_state(c: Client, rules: Seq<RuleV>, i: int)
    requires
        0 <= i < rules.len(),
    ensures
        rule_applies(rules[i], c) && rules[i].ignore_initial_state ==> strips(c, rules),
        strips(c, rules) ==> strips(c, rules.remove(i)) || (rule_applies(rules[i], c)
            && rules[i].ignore_initial_state),
        !strips(c, Seq::empty()),
{
    if strips(c, rules) && !(rule_applies(rules[i], c) && rules[i].ignore_initial_state) {
        let k = choose|k: int|
            0 <= k < rules.len() && rule_applies(#[trigger] rules[k], c)
                && rules[k].ignore_initial_state;
        let rest = rules.remove(i);
        if k < i {
            assert(rest[k] == rules[k]);
        } else {
            assert(rest[k - 1] == rules[k]);
        }
    }
}

/// Half of a number is rounded towards zero.
pub proof fn half_is_rounded_towards_zero(n: int)
    ensures
        n >= 0 ==> 0 <= n - 2 * half(n) <= 1,
        n <= 0 ==> -1 <= n - 2 * half(n) <= 0,
{
}

} // verus!
