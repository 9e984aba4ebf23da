use maverick::config::{compiled_config, theme_palette, Action, Dir, Rule, SUP, XK_RETURN};

fn class(c: &str) -> Rule {
    Rule { class: Some(c.to_string()), ..Rule::default() }
}

#[test]
fn no_criteria_matches_anything() {
    assert!(Rule::default().matches("Firefox", "", &["normal".into()], "My Blog"));
    assert!(Rule::default().matches("", "", &[], ""));
}

#[test]
fn class_match_is_substring_case_insensitive() {
    let r = class("fire");
    assert!(r.matches("Firefox", "", &[], ""));
    assert!(!r.matches("chrome", "", &[], ""));
}

#[test]
fn instance_match_uses_wm_class_instance_part() {
    let r = Rule { instance: Some("term".to_string()), ..Rule::default() };
    assert!(r.matches("Alacritty", "xterm", &[], ""));
    assert!(!r.matches("Alacritty", "foot", &[], ""));
}

#[test]
fn window_type_match_is_exact_and_lowercase() {
    let dialog = "dialog".to_string();
    let normal = "normal".to_string();
    let r = Rule { window_type: Some("dialog".to_string()), ..Rule::default() };
    assert!(r.matches("x", "", &[dialog], ""));
    assert!(!r.matches("x", "", &[normal], ""));
    assert!(!r.matches("x", "", &[], ""));
}

#[test]
fn title_match_is_substring_case_insensitive() {
    let r = Rule { title: Some("find".to_string()), ..Rule::default() };
    assert!(r.matches("x", "", &[], "Search & Find"));
    assert!(!r.matches("x", "", &[], "Notepad"));
}

#[test]
fn all_criteria_must_hold_together() {
    let r = Rule {
        class: Some("fire".to_string()),
        instance: Some("navig".to_string()),
        window_type: Some("email".to_string()),
        title: Some("gmail".to_string()),
        ..Rule::default()
    };
    assert!(r.matches("Firefox", "Navigator", &["email".to_string()], "Gmail"));
    assert!(!r.matches("Firefox", "Navigator", &["normal".to_string()], "Gmail"));
    assert!(!r.matches("Chrome", "Navigator", &["email".to_string()], "Gmail"));
}

#[test]
fn criteria_fold_letters_beyond_ascii() {
    let r = Rule { title: Some("\u{e1}rbol".to_string()), ..Rule::default() };
    assert!(r.matches("", "", &[], "El \u{c1}RBOL"));
    let r = Rule { title: Some("\u{c1}RBOL".to_string()), ..Rule::default() };
    assert!(r.matches("", "", &[], "el \u{e1}rbol"));
}

#[test]
fn themes_are_found_by_name_in_any_case() {
    let one = Some((0x45475a, 0x89b4fa, 0xf38ba8));
    assert_eq!(theme_palette("catppuccin-mocha"), one);
    assert_eq!(theme_palette("Catppuccin-MOCHA"), one);
    assert_eq!(theme_palette("no such theme"), None);
}

#[test]
fn baseline_binds_the_terminal_and_the_tags() {
    let c = compiled_config();
    assert_eq!(c.n_tags, 9);
    assert_eq!(c.tag_names.len(), 9);
    assert!(c
        .keybinds
        .iter()
        .any(|(m, k, a)| *m == SUP && *k == XK_RETURN && matches!(a, Action::Spawn(_))));
    assert!(c.keybinds.iter().any(|(_, _, a)| *a == Action::View(8)));
    assert!(c.keybinds.iter().any(|(_, _, a)| *a == Action::FocusDir(Dir::Left)));
}

#[test]
fn an_empty_type_stands_for_any() {
    let r = Rule { window_type: Some(String::new()), ..Rule::default() };
    assert!(r.matches("x", "", &[], ""));
    assert!(r.matches("x", "", &["dialog".to_string()], ""));
}

#[test]
fn types_are_compared_in_any_case() {
    let r = Rule { window_type: Some("dialog".to_string()), ..Rule::default() };
    assert!(r.matches("x", "", &["Dialog".to_string()], ""));
    let loud = Rule { window_type: Some("DIALOG".to_string()), ..Rule::default() };
    assert!(loud.matches("x", "", &["menu".to_string(), "dialog".to_string()], ""));
    assert!(!loud.matches("x", "", &["dialogue".to_string()], ""));
}
