use rsiv::keybinds::{
    modifiers_match, resolve, Action, Binding, BindingMode, KeyCode, Modifiers,
};
use rsiv::utils::parse_color;

fn no_mods() -> Modifiers {
    Modifiers { shift: false, ctrl: false, alt: false, super_key: false }
}

fn ctrl() -> Modifiers {
    Modifiers { shift: false, ctrl: true, alt: false, super_key: false }
}

fn table() -> Vec<Binding> {
    vec![
        Binding {
            key: KeyCode::Character("q".to_string()),
            mods: no_mods(),
            mode: BindingMode::Global,
            action: Action::Quit,
        },
        Binding {
            key: KeyCode::Character("n".to_string()),
            mods: no_mods(),
            mode: BindingMode::View,
            action: Action::NextImage,
        },
        Binding {
            key: KeyCode::ArrowLeft,
            mods: no_mods(),
            mode: BindingMode::Grid,
            action: Action::GridMoveLeft,
        },
        Binding {
            key: KeyCode::ArrowLeft,
            mods: no_mods(),
            mode: BindingMode::View,
            action: Action::PanLeft,
        },
    ]
}

#[test]
fn resolve_finds_global_binding_in_both_modes() {
    let bindings = table();
    let q = KeyCode::Character("q".to_string());
    assert_eq!(resolve(&q, &bindings, no_mods(), false), Some(Action::Quit));
    assert_eq!(resolve(&q, &bindings, no_mods(), true), Some(Action::Quit));
}

#[test]
fn resolve_respects_mode() {
    let bindings = table();
    assert_eq!(
        resolve(&KeyCode::ArrowLeft, &bindings, no_mods(), true),
        Some(Action::GridMoveLeft)
    );
    assert_eq!(
        resolve(&KeyCode::ArrowLeft, &bindings, no_mods(), false),
        Some(Action::PanLeft)
    );
    let n = KeyCode::Character("n".to_string());
    assert_eq!(resolve(&n, &bindings, no_mods(), true), None);
}

#[test]
fn modifier_blocks_bare_binding() {
    let bindings = table();
    let q = KeyCode::Character("q".to_string());
    assert_eq!(resolve(&q, &bindings, ctrl(), false), None);
}

#[test]
fn shift_is_ignored_for_character_keys() {
    let shifted = Modifiers { shift: true, ctrl: false, alt: false, super_key: false };
    assert!(modifiers_match(
        shifted,
        no_mods(),
        &KeyCode::Character("G".to_string())
    ));
    assert!(!modifiers_match(shifted, no_mods(), &KeyCode::ArrowLeft));
}

#[test]
fn digit_fallback_parses_count_prefixes() {
    let bindings = table();
    let five = KeyCode::Character("5".to_string());
    assert_eq!(
        resolve(&five, &bindings, no_mods(), false),
        Some(Action::Digit(5))
    );
    let twelve = KeyCode::Character("12".to_string());
    assert_eq!(
        resolve(&twelve, &bindings, no_mods(), false),
        Some(Action::Digit(12))
    );
    assert_eq!(resolve(&five, &bindings, ctrl(), false), None);
    let word = KeyCode::Character("x".to_string());
    assert_eq!(resolve(&word, &bindings, no_mods(), false), None);
}

#[test]
fn parse_color_reads_hex_triples() {
    assert_eq!(parse_color("#FF8001"), (255, 128, 1));
    assert_eq!(parse_color("ff8001"), (255, 128, 1));
    assert_eq!(parse_color("#000000"), (0, 0, 0));
    assert_eq!(parse_color("#ffffff"), (255, 255, 255));
    assert_eq!(parse_color("#3c3c3c"), (60, 60, 60));
}

#[test]
fn parse_color_tolerates_malformed_input() {
    assert_eq!(parse_color(""), (0, 0, 0));
    assert_eq!(parse_color("#fff"), (0, 0, 0));
    assert_eq!(parse_color("#gggggg"), (0, 0, 0));
    // one malformed channel reads as zero without disturbing the others
    assert_eq!(parse_color("#FFzz00"), (255, 0, 0));
    assert_eq!(parse_color("###ff8001"), (255, 128, 1));
}

use rsiv::keybinds::parse_keybinding;
use rsiv::utils::is_likely_image;

#[test]
fn parse_keybinding_reads_plain_keys() {
    match parse_keybinding("q") {
        Some((KeyCode::Character(c), mods)) => {
            assert_eq!(c, "q");
            assert!(!mods.ctrl && !mods.shift && !mods.alt && !mods.super_key);
        }
        _ => panic!("expected a character key"),
    }
    assert!(matches!(parse_keybinding("Left"), Some((KeyCode::ArrowLeft, _))));
    assert!(matches!(parse_keybinding("Esc"), Some((KeyCode::Escape, _))));
    assert!(matches!(parse_keybinding("Return"), Some((KeyCode::Enter, _))));
}

#[test]
fn parse_keybinding_reads_modifiers() {
    match parse_keybinding("Ctrl+x") {
        Some((KeyCode::Character(c), mods)) => {
            assert_eq!(c, "x");
            assert!(mods.ctrl && !mods.shift && !mods.alt && !mods.super_key);
        }
        _ => panic!("expected ctrl+x"),
    }
    match parse_keybinding("shift+ALT+Up") {
        Some((KeyCode::ArrowUp, mods)) => {
            assert!(mods.shift && mods.alt && !mods.ctrl);
        }
        _ => panic!("expected shift+alt+up"),
    }
    match parse_keybinding("meta+Space") {
        Some((KeyCode::Space, mods)) => assert!(mods.super_key),
        _ => panic!("expected a super binding"),
    }
}

#[test]
fn parse_keybinding_handles_the_plus_key() {
    match parse_keybinding("+") {
        Some((KeyCode::Character(c), mods)) => {
            assert_eq!(c, "+");
            assert!(!mods.ctrl);
        }
        _ => panic!("expected the plus key"),
    }
    match parse_keybinding("Ctrl++") {
        Some((KeyCode::Character(c), mods)) => {
            assert_eq!(c, "+");
            assert!(mods.ctrl);
        }
        _ => panic!("expected ctrl and the plus key"),
    }
}

#[test]
fn parse_keybinding_rejects_unknown_keys() {
    assert!(parse_keybinding("NoSuchKey").is_none());
    assert!(parse_keybinding("Ctrl+").is_none());
    assert!(parse_keybinding("").is_none());
}

#[test]
fn likely_image_extensions() {
    assert!(is_likely_image("photos/cat.PNG"));
    assert!(is_likely_image("a.jpeg"));
    assert!(is_likely_image("/tmp/x.svg"));
    assert!(!is_likely_image("notes.txt"));
    assert!(!is_likely_image("no_extension"));
    assert!(!is_likely_image(".hidden"));
    assert!(!is_likely_image("dir.png/file"));
}

use rsiv::config::{BindingList, Keybindings, Ui};
use rsiv::keybinds::get_all_bindings;

#[test]
fn default_table_resolves_standard_keys() {
    let bindings = get_all_bindings(&Keybindings::default());
    let q = KeyCode::Character("q".to_string());
    assert_eq!(resolve(&q, &bindings, no_mods(), false), Some(Action::Quit));
    let n = KeyCode::Character("n".to_string());
    assert_eq!(resolve(&n, &bindings, no_mods(), false), Some(Action::NextImage));
    // pan keys are dual-bound: panning in single view, movement in grid
    let h = KeyCode::Character("h".to_string());
    assert_eq!(resolve(&h, &bindings, no_mods(), false), Some(Action::PanLeft));
    assert_eq!(resolve(&h, &bindings, no_mods(), true), Some(Action::GridMoveLeft));
    assert_eq!(
        resolve(&KeyCode::ArrowLeft, &bindings, no_mods(), false),
        Some(Action::PanLeft)
    );
    // modified bindings require their modifier
    let u = KeyCode::Character("u".to_string());
    assert_eq!(resolve(&u, &bindings, ctrl(), true), Some(Action::GridMovePageUp));
    assert_eq!(resolve(&u, &bindings, no_mods(), true), Some(Action::UnmarkAll));
    assert_eq!(
        resolve(&KeyCode::Enter, &bindings, no_mods(), false),
        Some(Action::ToggleGrid)
    );
}

#[test]
fn custom_binding_list_feeds_the_table() {
    let mut keybindings = Keybindings::default();
    keybindings.quit = BindingList(vec!["Ctrl+w".to_string()]);
    let bindings = get_all_bindings(&keybindings);
    let w = KeyCode::Character("w".to_string());
    assert_eq!(resolve(&w, &bindings, ctrl(), false), Some(Action::Quit));
    let q = KeyCode::Character("q".to_string());
    assert_eq!(resolve(&q, &bindings, no_mods(), false), None);
}

#[test]
fn default_ui_settings() {
    let ui = Ui::default();
    assert_eq!(ui.bg_color, "#000000");
    assert_eq!(ui.font_size, 13);
    assert_eq!(ui.thumbnail_border_color, "#FFFFFF");
    assert_eq!(parse_color(&ui.status_bar_bg), (48, 48, 48));
}
