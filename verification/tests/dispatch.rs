use maverick::config::{Action, Cfg, Dir};
use maverick::dispatch::{keysym_name, missing_bind_warning, mods_name, KeyTimes};
use maverick::keyboard::{
    build_keymap, button_grabs, compute_numlock, keycode_count, mod_variants, normalize_ksym,
    plan_key_grabs, ButtonGrab, KeyGrab, KeyboardState, XK_NUM_LOCK,
};

const SUPER: u16 = 64;
const SHIFT: u16 = 1;
const LOCK: u16 = 2;
const NUM: u16 = 16;

/// Keycodes from 8 on: `a`, `NumLock`, `[` behind a third column.
fn rows() -> Vec<u32> {
    vec![0x61, 0x41, 0, XK_NUM_LOCK, 0, 0, 0xfe50, 0xfe52, 0x5b]
}

/// Eight modifiers of two keycodes each, with NumLock on the fifth.
fn modifier_map() -> Vec<u8> {
    let mut m = vec![0u8; 16];
    m[8] = 9;
    m
}

fn config() -> Cfg {
    let mut c = Cfg::default();
    c.keybinds = vec![
        (SUPER, 0x61, Action::Kill),
        (SUPER | SHIFT, 0x61, Action::Restart),
        (SUPER, 0x5b, Action::FocusDir(Dir::Left)),
    ];
    c
}

#[test]
fn numlock_is_found_on_its_modifier() {
    let k = KeyboardState::from_replies(rows(), 3, 8, 10, Some(modifier_map()));
    assert_eq!(k.numlock, NUM);
    assert_eq!((k.kpk, k.min), (3, 8));
    assert_eq!(KeyboardState::from_replies(rows(), 3, 8, 10, None).numlock, 0);
    assert_eq!(compute_numlock(&[0, 9], 1, &rows(), 3, 8, 10), 2);
    assert_eq!(compute_numlock(&[0, 8], 1, &rows(), 3, 8, 10), 0);
    assert_eq!(compute_numlock(&[], 0, &rows(), 3, 8, 10), 0);
}

#[test]
fn the_keymap_request_takes_a_count() {
    assert_eq!(keycode_count(8, 255), 248);
    assert_eq!(keycode_count(8, 8), 1);
}

#[test]
fn keysyms_are_read_by_column() {
    let k = KeyboardState::from_replies(rows(), 3, 8, 10, None);
    assert_eq!(k.keysym_at_col(8, 0), 0x61);
    assert_eq!(k.keysym_at_col(8, 1), 0x41);
    assert_eq!(k.keysym_at_col(10, 2), 0x5b);
    assert_eq!(k.keysym_at_col(10, 9), 0x5b);
    assert_eq!(k.keysym_at_col(7, 0), 0);
    assert_eq!(k.keysym_at_col(11, 0), 0);
}

#[test]
fn a_grabbed_key_is_dispatched_in_every_state_of_the_locks() {
    let k = KeyboardState::from_replies(rows(), 3, 8, 10, Some(modifier_map()));
    let cfg = config();
    let binds: Vec<(u16, u32)> = cfg.keybinds.iter().map(|(m, s, _)| (*m, *s)).collect();
    let plan = plan_key_grabs(&k.keysyms, k.min, k.kpk, &binds);
    assert!(plan.missing.is_empty());
    let keymap = build_keymap(&cfg);
    for g in plan.requests(k.numlock) {
        assert!(k.resolve_press(&keymap, &plan.code_bindings, g.code, g.mask).is_some());
    }
    let hit = k.resolve_press(&keymap, &plan.code_bindings, 8, SUPER | NUM | LOCK).unwrap();
    assert_eq!(hit.0, (SUPER, 0x61));
    assert_eq!(hit.1, Action::Kill);
    let shifted = k.resolve_press(&keymap, &plan.code_bindings, 8, SUPER | SHIFT).unwrap();
    assert_eq!(shifted.1, Action::Restart);
    let far = k.resolve_press(&keymap, &plan.code_bindings, 10, SUPER).unwrap();
    assert_eq!(far.1, Action::FocusDir(Dir::Left));
    assert!(k.resolve_press(&keymap, &plan.code_bindings, 8, 0).is_none());
}

#[test]
fn a_key_is_grabbed_once_per_state_of_the_locks() {
    let plan = plan_key_grabs(&rows(), 8, 3, &[(SUPER, 0x61)]);
    let grab = |mask: u16, checked: bool| KeyGrab { mask, code: 8, keysym: 0x61, checked };
    assert_eq!(
        plan.requests(NUM),
        vec![
            grab(SUPER, true),
            grab(SUPER | NUM, false),
            grab(SUPER | LOCK, false),
            grab(SUPER | NUM | LOCK, false)
        ]
    );
    assert_eq!(plan.requests(0), vec![grab(SUPER, true), grab(SUPER | LOCK, false)]);
    assert_eq!(mod_variants(NUM), [0, NUM, LOCK, NUM | LOCK]);
}

#[test]
fn buttons_are_grabbed_for_dragging() {
    let g = button_grabs(NUM);
    assert_eq!(g.len(), 8);
    assert_eq!(g[0], ButtonGrab { button: 1, mask: SUPER });
    assert_eq!(g[1], ButtonGrab { button: 3, mask: SUPER });
    assert_eq!(g[7], ButtonGrab { button: 3, mask: SUPER | NUM | LOCK });
}

#[test]
fn a_fired_binding_rests() {
    let mut t = KeyTimes::new();
    let key = (SUPER, 0x61);
    assert!(t.fire(key, &Action::Kill, 1000));
    assert!(!t.fire(key, &Action::Kill, 1059));
    assert!(t.fire(key, &Action::Kill, 1060));
    assert!(t.fire((SUPER, 0x62), &Action::Kill, 1061));
    let line = Action::Spawn(vec!["xterm".to_string()]);
    let spawn = (SUPER, 0xff0d);
    assert!(t.fire(spawn, &line, 2000));
    assert!(!t.fire(spawn, &line, 2199));
    assert!(t.fire(spawn, &line, 2200));
}

#[test]
fn keys_are_named() {
    assert_eq!(keysym_name(0x6b), "k");
    assert_eq!(keysym_name(0x37), "7");
    assert_eq!(keysym_name(0xff0d), "Return");
    assert_eq!(keysym_name(0x1008_ff13), "0x1008ff13");
    assert_eq!(mods_name(SUPER | SHIFT | 4 | 8), "Super+Ctrl+Alt+Shift");
    assert_eq!(mods_name(0), "");
    assert_eq!(
        missing_bind_warning(SUPER, 0x5b),
        "keybinding Super+bracketleft: that keysym does not exist in the current layout \u{2014} ignored"
    );
}

#[test]
fn letters_are_bound_in_lower_case() {
    assert_eq!(normalize_ksym(0x41), 0x61);
    assert_eq!(normalize_ksym(0x5a), 0x7a);
    assert_eq!(normalize_ksym(0x5b), 0x5b);
}
