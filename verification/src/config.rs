//! Configuration: actions, key bindings, window rules and colours.

use crate::model::LayoutKind;
use crate::text::{
    ascii_lowercased, contains_text, copy_texts, lowercased, occurs_in, same_text, text_contains,
    texts, to_ascii_lowercase, to_lowercase,
};
use crate::xproto::{modifier_bits, ModifierBits};
use vstd::prelude::*;
use vstd::string::*;

verus! {

/// A direction of focus or movement.
#[derive(Debug, Clone, Copy, PartialEq, Eq, Structural)]
pub enum Dir {
    Left,
    Right,
    Up,
    Down,
    Next,
    Prev,
}

/// What a key binding does.
#[derive(Debug, Clone, PartialEq, Eq)]
pub enum Action {
    Spawn(Vec<String>),
    Kill,
    FocusDir(Dir),
    MoveDir(Dir),
    PageSnap(Dir),
    ToggleFloat,
    ToggleFullscreen,
    ToggleBar,
    SetLayout(LayoutKind),
    CycleLayout,
    GrowCol(i32),
    NewColumn,
    CollapseColumn,
    View(usize),
    MoveToWs(usize),
    FocusMon(Dir),
    MoveMon(Dir),
    Restart,
    Quit,
    QuitConfirm,
}

/// An [`Action`], mathematically: a command line is the texts of its words.
pub enum ActionV {
    Spawn(Seq<Seq<char>>),
    Do(Action),
}

impl View for Action {
    type V = ActionV;

    open spec fn view(&self) -> ActionV {
        match self {
            Action::Spawn(v) => ActionV::Spawn(texts(v@)),
            _ => ActionV::Do(*self),
        }
    }
}

impl Action {
    /// The same action again.
    pub fn copy(&self) -> (r: Action)
        ensures
            r@ == self@,
    {
        match self {
            Action::Spawn(v) => Action::Spawn(copy_texts(v)),
            Action::Kill => Action::Kill,
            Action::FocusDir(d) => Action::FocusDir(*d),
            Action::MoveDir(d) => Action::MoveDir(*d),
            Action::PageSnap(d) => Action::PageSnap(*d),
            Action::ToggleFloat => Action::ToggleFloat,
            Action::ToggleFullscreen => Action::ToggleFullscreen,
            Action::ToggleBar => Action::ToggleBar,
            Action::SetLayout(l) => Action::SetLayout(*l),
            Action::CycleLayout => Action::CycleLayout,
            Action::GrowCol(n) => Action::GrowCol(*n),
            Action::NewColumn => Action::NewColumn,
            Action::CollapseColumn => Action::CollapseColumn,
            Action::View(n) => Action::View(*n),
            Action::MoveToWs(n) => Action::MoveToWs(*n),
            Action::FocusMon(d) => Action::FocusMon(*d),
            Action::MoveMon(d) => Action::MoveMon(*d),
            Action::Restart => Action::Restart,
            Action::Quit => Action::Quit,
            Action::QuitConfirm => Action::QuitConfirm,
        }
    }
}

/// A window rule: criteria, and what it does to the windows that meet them.
#[derive(Debug, Clone)]
pub struct Rule {
    pub class: Option<String>,
    /// `WM_CLASS` instance part. Matched like class.
    pub instance: Option<String>,
    /// Name of a `_NET_WM_WINDOW_TYPE` (`dialog`, `utility`, `menu`, ...). An
    /// empty one stands for any type.
    pub window_type: Option<String>,
    pub title: Option<String>,
    pub float: bool,
    /// Sticky float: always visible on every workspace of its monitor.
    pub sticky: bool,
    pub ws: Option<usize>,
    /// Forced floating size, in pixels.
    pub size: Option<(u32, u32)>,
    /// Forced floating position, relative to the work area's origin.
    pub position: Option<(i32, i32)>,
    /// Value of `_NET_WM_WINDOW_OPACITY` to publish.
    pub opacity: Option<u32>,
    pub border_w: Option<u32>,
    /// Ignore the maximized or fullscreen state the window asked for at map
    /// time.
    pub ignore_initial_state: bool,
    /// Fullscreen is an exclusive overlay.
    pub true_fullscreen: bool,
    /// Refuse the application's fullscreen requests.
    pub deny_fullscreen: bool,
}

/// A criterion's text, if the criterion is present.
pub open spec fn criterion(c: Option<String>) -> Option<Seq<char>> {
    match c {
        Some(s) => Some(s@),
        None => None,
    }
}

/// A [`Rule`], mathematically.
pub struct RuleV {
    pub class: Option<Seq<char>>,
    pub instance: Option<Seq<char>>,
    pub window_type: Option<Seq<char>>,
    pub title: Option<Seq<char>>,
    pub float: bool,
    pub sticky: bool,
    pub ws: Option<usize>,
    pub size: Option<(u32, u32)>,
    pub position: Option<(i32, i32)>,
    pub opacity: Option<u32>,
    pub border_w: Option<u32>,
    pub ignore_initial_state: bool,
    pub true_fullscreen: bool,
    pub deny_fullscreen: bool,
}

impl View for Rule {
    type V = RuleV;

    open spec fn view(&self) -> RuleV {
        RuleV {
            class: criterion(self.class),
            instance: criterion(self.instance),
            window_type: criterion(self.window_type),
            title: criterion(self.title),
            float: self.float,
            sticky: self.sticky,
            ws: self.ws,
            size: self.size,
            position: self.position,
            opacity: self.opacity,
            border_w: self.border_w,
            ignore_initial_state: self.ignore_initial_state,
            true_fullscreen: self.true_fullscreen,
            deny_fullscreen: self.deny_fullscreen,
        }
    }
}

impl RuleV {
    /// No criterion, no effect.
    pub open spec fn blank() -> RuleV {
        RuleV {
            class: None,
            instance: None,
            window_type: None,
            title: None,
            float: false,
            sticky: false,
            ws: None,
            size: None,
            position: None,
            opacity: None,
            border_w: None,
            ignore_initial_state: false,
            true_fullscreen: false,
            deny_fullscreen: false,
        }
    }

    /// Every criterion that is present holds: class, instance and title as a
    /// part of the window's own, the type as one of the window's types, or any
    /// where it is empty. The case of letters never matters.
    pub open spec fn matches(
        self,
        class: Seq<char>,
        instance: Seq<char>,
        types: Seq<Seq<char>>,
        title: Seq<char>,
    ) -> bool {
        &&& is_part_of(self.class, class)
        &&& is_part_of(self.instance, instance)
        &&& (self.window_type matches Some(t) ==> t.len() == 0 || exists|i: int|
            0 <= i < types.len() && lowercased(#[trigger] types[i]) == lowercased(t))
        &&& is_part_of(self.title, title)
    }
}

/// The criterion is absent, or occurs in `text`, whatever the case.
pub open spec fn is_part_of(c: Option<Seq<char>>, text: Seq<char>) -> bool {
    c matches Some(t) ==> occurs_in(lowercased(text), lowercased(t))
}

impl Default for Rule {
    fn default() -> (r: Rule)
        ensures
            r@ == RuleV::blank(),
    {
        Rule {
            class: None,
            instance: None,
            window_type: None,
            title: None,
            float: false,
            sticky: false,
            ws: None,
            size: None,
            position: None,
            opacity: None,
            border_w: None,
            ignore_initial_state: false,
            true_fullscreen: false,
            deny_fullscreen: false,
        }
    }
}

/// The criteria of a rule, in lower case.
#[derive(Debug, Clone)]
pub struct Criteria {
    pub class: Option<String>,
    pub instance: Option<String>,
    pub window_type: Option<String>,
    pub title: Option<String>,
}

/// The criterion is absent, or occurs in `text`.
pub open spec fn occurs_if_present(c: Option<Seq<char>>, text: Seq<char>) -> bool {
    c matches Some(t) ==> occurs_in(text, t)
}

fn part_of(c: &Option<String>, text: &str) -> (b: bool)
    ensures
        b == occurs_if_present(criterion(*c), text@),
{
    match c {
        Some(t) => text_contains(text, t.as_str()),
        None => true,
    }
}

impl Criteria {
    /// Whether a window meets the criteria. Its class, instance, types and
    /// title are given in lower case.
    pub fn met_by(&self, class: &str, instance: &str, types: &[String], title: &str) -> (b: bool)
        ensures
            b == ({
                &&& occurs_if_present(criterion(self.class), class@)
                &&& occurs_if_present(criterion(self.instance), instance@)
                &&& (criterion(self.window_type) matches Some(t) ==> texts(types@).contains(t))
                &&& occurs_if_present(criterion(self.title), title@)
            }),
    {
        if !part_of(&self.class, class) || !part_of(&self.instance, instance) || !part_of(
            &self.title,
            title,
        ) {
            return false;
        }
        match &self.window_type {
            Some(t) => contains_text(types, t.as_str()),
            None => true,
        }
    }
}

/// A criterion in lower case.
pub open spec fn lowered(c: Option<Seq<char>>) -> Option<Seq<char>> {
    match c {
        Some(t) => Some(lowercased(t)),
        None => None,
    }
}

fn lower(c: &Option<String>) -> (r: Option<String>)
    ensures
        criterion(r) == lowered(criterion(*c)),
{
    match c {
        Some(t) => Some(to_lowercase(t.as_str())),
        None => None,
    }
}

fn lower_all(v: &[String]) -> (r: Vec<String>)
    ensures
        texts(r@) == texts(v@).map_values(|s: Seq<char>| lowercased(s)),
{
    let mut r: Vec<String> = Vec::new();
    let ghost low = |s: Seq<char>| lowercased(s);
    let mut i: usize = 0;
    while i < v.len()
        invariant
            i <= v.len(),
            low == (|s: Seq<char>| lowercased(s)),
            texts(r@) == texts(v@.take(i as int)).map_values(low),
        decreases v.len() - i,
    {
        r.push(to_lowercase(v[i].as_str()));
        proof {
            assert(texts(r@) =~= texts(v@.take(i as int)).map_values(low).push(
                lowercased(v@[i as int]@),
            ));
            assert(texts(v@.take(i as int + 1)).map_values(low) =~= texts(
                v@.take(i as int),
            ).map_values(low).push(lowercased(v@[i as int]@)));
        }
        i = i + 1;
    }
    assert(v@.take(i as int) =~= v@);
    r
}

impl Rule {
    /// Whether the rule applies to a window. Any absent criterion is a wildcard,
    /// and so is an empty type; every other one must hold.
    pub fn matches(&self, class: &str, instance: &str, types: &[String], title: &str) -> (b: bool)
        ensures
            b == self@.matches(class@, instance@, texts(types@), title@),
    {
        let window_type: Option<String> = match &self.window_type {
            Some(t) => if t.as_str().unicode_len() == 0 {
                None
            } else {
                Some(to_lowercase(t.as_str()))
            },
            None => None,
        };
        let c: Criteria = Criteria {
            class: lower(&self.class),
            instance: lower(&self.instance),
            window_type,
            title: lower(&self.title),
        };
        let types_lower: Vec<String> = lower_all(types);
        proof {
            let (low, own) = (texts(types_lower@), texts(types@));
            assert(low.len() == own.len());
            assert forall|t: Seq<char>| #[trigger] low.contains(t) == exists|i: int|
                0 <= i < own.len() && lowercased(#[trigger] own[i]) == t by {
                if low.contains(t) {
                    let i = choose|i: int| 0 <= i < low.len() && low[i] == t;
                    assert(lowercased(own[i]) == t);
                }
                if exists|i: int| 0 <= i < own.len() && lowercased(#[trigger] own[i]) == t {
                    let i = choose|i: int|
                        0 <= i < own.len() && lowercased(#[trigger] own[i]) == t;
                    assert(low[i] == t);
                }
            }
        }
        c.met_by(
            to_lowercase(class).as_str(),
            to_lowercase(instance).as_str(),
            types_lower.as_slice(),
            to_lowercase(title).as_str(),
        )
    }
}

/// A rule without criteria applies to every window.
pub proof fn blank_rule_matches_everything(
    class: Seq<char>,
    instance: Seq<char>,
    types: Seq<Seq<char>>,
    title: Seq<char>,
)
    ensures
        RuleV::blank().matches(class, instance, types, title),
{
}

/// The configuration.
#[derive(Debug, Clone)]
pub struct Cfg {
    pub border_w: u32,
    /// Gap between windows within a column and between columns.
    pub gaps_inner: u32,
    /// Gap at the screen edges.
    pub gaps_outer: u32,
    /// Collapse gaps when a workspace has exactly one tiled window.
    pub smart_gaps: bool,
    /// Rounded corner radius in pixels. 0 disables.
    pub corner_radius: u32,
    pub n_tags: usize,
    /// Width of a new column.
    pub default_col_w: u32,
    /// Extra height of the focused row, in thousandths.
    pub split_bias: u32,
    pub focus_mouse: bool,
    pub warp_cursor: bool,
    /// Border colours, 0xRRGGBB.
    pub col_normal: u32,
    pub col_focused: u32,
    pub col_urgent: u32,
    pub tag_names: Vec<String>,
    pub keybinds: Vec<(u16, u32, Action)>,
    pub rules: Vec<Rule>,
    /// Programs launched once the window manager is ready.
    pub autostart: Vec<Vec<String>>,
}

/// The scalar settings that every configuration starts from.
pub open spec fn has_baseline_settings(c: Cfg) -> bool {
    &&& c.border_w == 2
    &&& c.gaps_inner == 6
    &&& c.gaps_outer == 6
    &&& !c.smart_gaps
    &&& c.corner_radius == 0
    &&& c.n_tags == 9
    &&& c.default_col_w == 700
    &&& c.split_bias == 600
    &&& !c.focus_mouse
    &&& !c.warp_cursor
    &&& c.col_normal == 0x45475a
    &&& c.col_focused == 0x89b4fa
    &&& c.col_urgent == 0xf38ba8
    &&& texts(c.tag_names@) == baseline_tags()
}

/// The names of the tags.
pub open spec fn baseline_tags() -> Seq<Seq<char>> {
    seq!["1"@, "2"@, "3"@, "4"@, "5"@, "6"@, "7"@, "8"@, "9"@]
}

fn baseline_tag_names() -> (v: Vec<String>)
    ensures
        texts(v@) == baseline_tags(),
{
    let v: Vec<String> = vec![
        "1".to_owned(),
        "2".to_owned(),
        "3".to_owned(),
        "4".to_owned(),
        "5".to_owned(),
        "6".to_owned(),
        "7".to_owned(),
        "8".to_owned(),
        "9".to_owned(),
    ];
    assert(texts(v@) =~= baseline_tags());
    v
}

impl Default for Cfg {
    /// The baseline settings with no key bindings, rules or programs.
    fn default() -> (c: Cfg)
        ensures
            has_baseline_settings(c),
            c.keybinds@.len() == 0,
            c.rules@.len() == 0,
            c.autostart@.len() == 0,
    {
        Cfg {
            border_w: 2,
            gaps_inner: 6,
            gaps_outer: 6,
            smart_gaps: false,
            corner_radius: 0,
            n_tags: 9,
            default_col_w: 700,
            split_bias: 600,
            focus_mouse: false,
            warp_cursor: false,
            col_normal: 0x45475a,
            col_focused: 0x89b4fa,
            col_urgent: 0xf38ba8,
            tag_names: baseline_tag_names(),
            keybinds: Vec::new(),
            rules: Vec::new(),
            autostart: Vec::new(),
        }
    }
}

/// Key bindings, mathematically.
pub open spec fn bind_views(v: Seq<(u16, u32, Action)>) -> Seq<(u16, u32, ActionV)> {
    v.map_values(|b: (u16, u32, Action)| (b.0, b.1, b.2@))
}

/// Rules, mathematically.
pub open spec fn rule_views(v: Seq<Rule>) -> Seq<RuleV> {
    v.map_values(|r: Rule| r@)
}

/// Command lines, mathematically.
pub open spec fn command_views(v: Seq<Vec<String>>) -> Seq<Seq<Seq<char>>> {
    v.map_values(|c: Vec<String>| texts(c@))
}

/// Super.
pub const SUP: u16 = 64;

/// Super and Shift.
pub const SHS: u16 = 65;

/// Super and Control.
pub const SCT: u16 = 68;

pub const XK_RETURN: u32 = 0xff0d;

pub const XK_SPACE: u32 = 0x0020;

pub const XK_F5: u32 = 0xffc2;

pub const XK_TAB: u32 = 0xff09;

/// The bindings that are not about workspaces.
pub open spec fn baseline_window_binds() -> Seq<(u16, u32, ActionV)> {
    seq![
        (SUP, XK_RETURN, ActionV::Spawn(seq!["alacritty"@])),
        (SHS, 0x70, ActionV::Spawn(seq!["rofi"@, "-show"@, "run"@])),
        (SUP, 0x70, ActionV::Spawn(seq!["rofi"@, "-show"@, "drun"@])),
        (SHS, 0x63, ActionV::Do(Action::Kill)),
        (SHS, XK_SPACE, ActionV::Do(Action::ToggleFloat)),
        (SHS, 0x66, ActionV::Do(Action::ToggleFullscreen)),
        (SUP, 0x68, ActionV::Do(Action::FocusDir(Dir::Left))),
        (SUP, 0x6c, ActionV::Do(Action::FocusDir(Dir::Right))),
        (SUP, 0x6a, ActionV::Do(Action::FocusDir(Dir::Down))),
        (SUP, 0x6b, ActionV::Do(Action::FocusDir(Dir::Up))),
        (SHS, 0x68, ActionV::Do(Action::MoveDir(Dir::Left))),
        (SHS, 0x6c, ActionV::Do(Action::MoveDir(Dir::Right))),
        (SHS, 0x6a, ActionV::Do(Action::MoveDir(Dir::Down))),
        (SHS, 0x6b, ActionV::Do(Action::MoveDir(Dir::Up))),
        (SHS, XK_RETURN, ActionV::Do(Action::NewColumn)),
        (SCT, 0x68, ActionV::Do(Action::GrowCol((-50) as i32))),
        (SCT, 0x6c, ActionV::Do(Action::GrowCol(50))),
        (SCT, 0x6a, ActionV::Do(Action::CollapseColumn)),
        (SUP, XK_SPACE, ActionV::Do(Action::CycleLayout)),
        (SUP, 0x67, ActionV::Do(Action::SetLayout(LayoutKind::Grid))),
        (SUP, 0x74, ActionV::Do(Action::SetLayout(LayoutKind::Column))),
        (SHS, 0x71, ActionV::Spawn(seq!["maverickctl"@, "quit"@, "--confirm"@])),
        (SHS, 0x72, ActionV::Do(Action::Restart)),
        (SUP, XK_F5, ActionV::Do(Action::Restart)),
        (SUP, XK_TAB, ActionV::Do(Action::FocusMon(Dir::Next))),
        (SHS, XK_TAB, ActionV::Do(Action::MoveMon(Dir::Next))),
    ]
}

/// Super and a digit views a workspace, with Shift it moves a window there.
pub open spec fn baseline_tag_binds(n: nat) -> Seq<(u16, u32, ActionV)>
    decreases n,
{
    if n == 0 {
        Seq::empty()
    } else {
        let ws = (n - 1) as usize;
        let key = (0x31 + n - 1) as u32;
        baseline_tag_binds((n - 1) as nat).push((SUP, key, ActionV::Do(Action::View(ws)))).push(
            (SHS, key, ActionV::Do(Action::MoveToWs(ws))),
        )
    }
}

/// Windows of the given class float.
pub open spec fn floating_class(c: Seq<char>) -> RuleV {
    RuleV { class: Some(c), float: true, ..RuleV::blank() }
}

/// Windows of the given title float.
pub open spec fn floating_title(t: Seq<char>) -> RuleV {
    RuleV { title: Some(t), float: true, ..RuleV::blank() }
}

/// The rules shipped with the program: portals and file dialogs float.
pub open spec fn baseline_rules() -> Seq<RuleV> {
    seq![
        floating_class("xdg-desktop-portal"@),
        floating_class("gpick"@),
        floating_class("pinentry"@),
        floating_title("file upload"@),
        floating_title("open file"@),
        floating_title("save file"@),
        floating_title("qt file dialog"@),
    ]
}

/// The programs started by default.
pub open spec fn baseline_autostart() -> Seq<Seq<Seq<char>>> {
    seq![seq!["/usr/lib/xdg-desktop-portal-gtk"@], seq!["/usr/lib/xdg-desktop-portal"@]]
}

fn words1(a: &str) -> (v: Vec<String>)
    ensures
        texts(v@) == seq![a@],
{
    let v: Vec<String> = vec![a.to_owned()];
    assert(texts(v@) =~= seq![a@]);
    v
}

fn words3(a: &str, b: &str, c: &str) -> (v: Vec<String>)
    ensures
        texts(v@) == seq![a@, b@, c@],
{
    let v: Vec<String> = vec![a.to_owned(), b.to_owned(), c.to_owned()];
    assert(texts(v@) =~= seq![a@, b@, c@]);
    v
}

fn spawn1(a: &str) -> (r: Action)
    ensures
        r@ == ActionV::Spawn(seq![a@]),
{
    Action::Spawn(words1(a))
}

fn spawn3(a: &str, b: &str, c: &str) -> (r: Action)
    ensures
        r@ == ActionV::Spawn(seq![a@, b@, c@]),
{
    Action::Spawn(words3(a, b, c))
}

fn float_class(c: &str) -> (r: Rule)
    ensures
        r@ == floating_class(c@),
{
    let mut r: Rule = Rule::default();
    r.class = Some(c.to_owned());
    r.float = true;
    r
}

fn float_title(t: &str) -> (r: Rule)
    ensures
        r@ == floating_title(t@),
{
    let mut r: Rule = Rule::default();
    r.title = Some(t.to_owned());
    r.float = true;
    r
}

fn baseline_binds() -> (binds: Vec<(u16, u32, Action)>)
    ensures
        bind_views(binds@) == baseline_window_binds() + baseline_tag_binds(9),
{
    let m: ModifierBits = modifier_bits();
    assert(64u16 | 1u16 == 65u16 && 64u16 | 4u16 == 68u16) by (bit_vector);
    let sup: u16 = m.m4;
    let shs: u16 = m.m4 | m.shift;
    let sct: u16 = m.m4 | m.control;
    let mut binds: Vec<(u16, u32, Action)> = Vec::new();
    binds.push((sup, XK_RETURN, spawn1("alacritty")));
    binds.push((shs, 0x70, spawn3("rofi", "-show", "run")));
    binds.push((sup, 0x70, spawn3("rofi", "-show", "drun")));
    binds.push((shs, 0x63, Action::Kill));
    binds.push((shs, XK_SPACE, Action::ToggleFloat));
    binds.push((shs, 0x66, Action::ToggleFullscreen));
    binds.push((sup, 0x68, Action::FocusDir(Dir::Left)));
    binds.push((sup, 0x6c, Action::FocusDir(Dir::Right)));
    binds.push((sup, 0x6a, Action::FocusDir(Dir::Down)));
    binds.push((sup, 0x6b, Action::FocusDir(Dir::Up)));
    binds.push((shs, 0x68, Action::MoveDir(Dir::Left)));
    binds.push((shs, 0x6c, Action::MoveDir(Dir::Right)));
    binds.push((shs, 0x6a, Action::MoveDir(Dir::Down)));
    binds.push((shs, 0x6b, Action::MoveDir(Dir::Up)));
    binds.push((shs, XK_RETURN, Action::NewColumn));
    binds.push((sct, 0x68, Action::GrowCol(-50)));
    binds.push((sct, 0x6c, Action::GrowCol(50)));
    binds.push((sct, 0x6a, Action::CollapseColumn));
    binds.push((sup, XK_SPACE, Action::CycleLayout));
    binds.push((sup, 0x67, Action::SetLayout(LayoutKind::Grid)));
    binds.push((sup, 0x74, Action::SetLayout(LayoutKind::Column)));
    binds.push((shs, 0x71, spawn3("maverickctl", "quit", "--confirm")));
    binds.push((shs, 0x72, Action::Restart));
    binds.push((sup, XK_F5, Action::Restart));
    binds.push((sup, XK_TAB, Action::FocusMon(Dir::Next)));
    binds.push((shs, XK_TAB, Action::MoveMon(Dir::Next)));
    assert(bind_views(binds@) =~= baseline_window_binds());
    let ghost base = bind_views(binds@);
    let mut ws: usize = 0;
    assert(bind_views(binds@) =~= base + baseline_tag_binds(0));
    while ws < 9
        invariant
            ws <= 9,
            sup == SUP,
            shs == SHS,
            bind_views(binds@) == base + baseline_tag_binds(ws as nat),
        decreases 9 - ws,
    {
        let key: u32 = 0x31 + ws as u32;
        let ghost before = binds@;
        binds.push((sup, key, Action::View(ws)));
        binds.push((shs, key, Action::MoveToWs(ws)));
        proof {
            assert(bind_views(binds@) =~= bind_views(before).push(
                (SUP, key, ActionV::Do(Action::View(ws))),
            ).push((SHS, key, ActionV::Do(Action::MoveToWs(ws)))));
            assert(bind_views(binds@) =~= base + baseline_tag_binds((ws + 1) as nat));
        }
        ws = ws + 1;
    }
    binds
}

/// Build the compiled baseline configuration: the fallback whenever no user
/// configuration exists, and the starting point that a user configuration
/// overrides.
pub fn compiled_config() -> (c: Cfg)
    ensures
        has_baseline_settings(c),
        bind_views(c.keybinds@) == baseline_window_binds() + baseline_tag_binds(9),
        rule_views(c.rules@) == baseline_rules(),
        command_views(c.autostart@) == baseline_autostart(),
{
    let mut rules: Vec<Rule> = Vec::new();
    rules.push(float_class("xdg-desktop-portal"));
    rules.push(float_class("gpick"));
    rules.push(float_class("pinentry"));
    rules.push(float_title("file upload"));
    rules.push(float_title("open file"));
    rules.push(float_title("save file"));
    rules.push(float_title("qt file dialog"));
    assert(rule_views(rules@) =~= baseline_rules());
    let mut autostart: Vec<Vec<String>> = Vec::new();
    autostart.push(words1("/usr/lib/xdg-desktop-portal-gtk"));
    autostart.push(words1("/usr/lib/xdg-desktop-portal"));
    assert(command_views(autostart@) =~= baseline_autostart());
    let mut c: Cfg = Cfg::default();
    c.keybinds = baseline_binds();
    c.rules = rules;
    c.autostart = autostart;
    c
}

/// The colours of a theme: normal, focused, urgent.
pub open spec fn palette_of(n: Seq<char>) -> Option<(u32, u32, u32)> {
    if n == "catppuccin-mocha"@ {
        Some((0x45475au32, 0x89b4fau32, 0xf38ba8u32))
    } else if n == "catppuccin-latte"@ {
        Some((0xd9d9e0u32, 0x1e90ffu32, 0xd30066u32))
    } else if n == "gruvbox"@ {
        Some((0xfbf1c7u32, 0x4c79a6u32, 0xea6962u32))
    } else if n == "nord"@ {
        Some((0x4c566au32, 0x81a1c1u32, 0xa3be8cu32))
    } else if n == "dracula"@ {
        Some((0x282a36u32, 0xbd93f9u32, 0xff5555u32))
    } else if n == "everforest"@ {
        Some((0x3c434eu32, 0x7fbbb3u32, 0xdb7070u32))
    } else if n == "solarized"@ {
        Some((0x837c73u32, 0x268bd2u32, 0xdc322fu32))
    } else {
        None
    }
}

/// Named colour themes, whatever the case of the name. Returns `(normal,
/// focused, urgent)` as `0xRRGGBB`, and `None` for an unknown theme.
pub fn theme_palette(name: &str) -> (r: Option<(u32, u32, u32)>)
    ensures
        r == palette_of(ascii_lowercased(name@)),
{
    let lower: String = to_ascii_lowercase(name);
    let n: &str = lower.as_str();
    if same_text(n, "catppuccin-mocha") {
        return Some((0x45475a, 0x89b4fa, 0xf38ba8));
    }
    if same_text(n, "catppuccin-latte") {
        return Some((0xd9d9e0, 0x1e90ff, 0xd30066));
    }
    if same_text(n, "gruvbox") {
        return Some((0xfbf1c7, 0x4c79a6, 0xea6962));
    }
    if same_text(n, "nord") {
        return Some((0x4c566a, 0x81a1c1, 0xa3be8c));
    }
    if same_text(n, "dracula") {
        return Some((0x282a36, 0xbd93f9, 0xff5555));
    }
    if same_text(n, "everforest") {
        return Some((0x3c434e, 0x7fbbb3, 0xdb7070));
    }
    if same_text(n, "solarized") {
        return Some((0x837c73, 0x268bd2, 0xdc322f));
    }
    None
}

/// A rule applies to a window where each of its criteria is met, and a criterion that
/// is not there asks for nothing: class, instance and title must hold the text asked
/// for, whatever its case, and one of the types must be the one asked for.
pub proof fn rule_applies_where_every_criterion_is_met(
    r: RuleV,
    class: Seq<char>,
    instance: Seq<char>,
    types: Seq<Seq<char>>,
    title: Seq<char>,
)
    ensures
        ({
            let by_class = r.class is None || occurs_in(
                lowercased(class),
                lowercased(r.class->0),
            );
            let by_instance = r.instance is None || occurs_in(
                lowercased(instance),
                lowercased(r.instance->0),
            );
            let by_title = r.title is None || occurs_in(lowercased(title), lowercased(r.title->0));
            let by_type = r.window_type is None || (r.window_type->0).len() == 0 || exists|i: int|
                0 <= i < types.len() && lowercased(#[trigger] types[i]) == lowercased(
                    r.window_type->0,
                );
            r.matches(class, instance, types, title) <==> by_class && by_instance && by_type
                && by_title
        }),
{
}

/// A rule looks at each text for its own criterion: a rule that asks for the class
/// alone applies whatever the instance, the types and the title are.
pub proof fn criteria_look_at_their_own_text(
    t: Seq<char>,
    class: Seq<char>,
    instance: Seq<char>,
    types: Seq<Seq<char>>,
    title: Seq<char>,
)
    ensures
        (RuleV { class: Some(t), ..RuleV::blank() }).matches(class, instance, types, title)
            <==> occurs_in(lowercased(class), lowercased(t)),
        (RuleV { instance: Some(t), ..RuleV::blank() }).matches(class, instance, types, title)
            <==> occurs_in(lowercased(instance), lowercased(t)),
        (RuleV { title: Some(t), ..RuleV::blank() }).matches(class, instance, types, title)
            <==> occurs_in(lowercased(title), lowercased(t)),
{
}

/// Each number key shows its workspace with Super, and sends the focused window there
/// with Shift as well.
pub proof fn number_keys_stand_for_workspaces(n: nat, i: int)
    requires
        0 <= i < n <= 9,
    ensures
        baseline_tag_binds(n).len() == 2 * n,
        baseline_tag_binds(n)[2 * i] == (
            SUP,
            (0x31 + i) as u32,
            ActionV::Do(Action::View(i as usize)),
        ),
        baseline_tag_binds(n)[2 * i + 1] == (
            SHS,
            (0x31 + i) as u32,
            ActionV::Do(Action::MoveToWs(i as usize)),
        ),
    decreases n,
{
    if n == 1 {
        assert(baseline_tag_binds(0).len() == 0);
    } else if i < n - 1 {
        number_keys_stand_for_workspaces((n - 1) as nat, i);
    } else {
        number_keys_stand_for_workspaces((n - 1) as nat, 0);
    }
}

/// Every rule that is there from the start makes its windows float and does nothing
/// else.
pub proof fn baseline_rules_only_float(i: int)
    requires
        0 <= i < baseline_rules().len(),
    ensures
        ({
            let r = baseline_rules()[i];
            &&& r.float && !r.sticky && r.ws is None && r.size is None && r.position is None
            &&& r.opacity is None && r.border_w is None
            &&& !r.ignore_initial_state && !r.true_fullscreen && !r.deny_fullscreen
            &&& r.instance is None && r.window_type is None
            &&& r.class is Some != r.title is Some
        }),
{
}

/// The keys h, j, k and l stand for left, down, up and right: with Super they move
/// the focus, with Shift as well the window, and with Control as well h and l make
/// the column narrower and wider by the same.
pub proof fn directions_are_on_the_home_row(i: int)
    requires
        0 <= i < 4,
    ensures
        ({
            let b = baseline_window_binds();
            let (key, dir): (u32, Dir) = if i == 0 {
                (0x68, Dir::Left)
            } else if i == 1 {
                (0x6a, Dir::Down)
            } else if i == 2 {
                (0x6b, Dir::Up)
            } else {
                (0x6c, Dir::Right)
            };
            &&& b.contains((64u16, key, ActionV::Do(Action::FocusDir(dir))))
            &&& b.contains((65u16, key, ActionV::Do(Action::MoveDir(dir))))
            &&& b.contains((68u16, 0x68, ActionV::Do(Action::GrowCol(-50i32))))
            &&& b.contains((68u16, 0x6c, ActionV::Do(Action::GrowCol(50))))
        }),
{
    let b = baseline_window_binds();
    assert(b[6] == (64u16, 0x68u32, ActionV::Do(Action::FocusDir(Dir::Left))));
    assert(b[7] == (64u16, 0x6cu32, ActionV::Do(Action::FocusDir(Dir::Right))));
    assert(b[8] == (64u16, 0x6au32, ActionV::Do(Action::FocusDir(Dir::Down))));
    assert(b[9] == (64u16, 0x6bu32, ActionV::Do(Action::FocusDir(Dir::Up))));
    assert(b[10] == (65u16, 0x68u32, ActionV::Do(Action::MoveDir(Dir::Left))));
    assert(b[11] == (65u16, 0x6cu32, ActionV::Do(Action::MoveDir(Dir::Right))));
    assert(b[12] == (65u16, 0x6au32, ActionV::Do(Action::MoveDir(Dir::Down))));
    assert(b[13] == (65u16, 0x6bu32, ActionV::Do(Action::MoveDir(Dir::Up))));
    assert(b[15] == (68u16, 0x68u32, ActionV::Do(Action::GrowCol((-50) as i32))));
    assert(b[16] == (68u16, 0x6cu32, ActionV::Do(Action::GrowCol(50))));
}

} // verus!
