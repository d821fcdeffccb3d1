use vitrum::config::{direction_from_lowered, occurs_in_exec, parse_direction};
use vitrum::keybind::{modifiers_from_lowered, parse_key, parse_key_lowered, KeyModifiers, Keysym};
use vitrum::state::Direction;
use vitrum::text::char_is_whitespace;
use vitrum::wallpaper::{is_image_extension, FitMode};
use vitrum::window::WindowId;
use vitrum::workspace::{Workspace, WorkspaceSet};

#[test]
fn key_names_looked_up_in_lowercase() {
    assert_eq!(parse_key_lowered("Return", "return"), Some(Keysym(0xff0d)));
    assert_eq!(parse_key_lowered("Q", "q"), Some(Keysym(0x71)));
    assert_eq!(parse_key_lowered("foo", "foo"), None);
    assert_eq!(parse_key_lowered("!", "!"), None);
}

#[test]
fn key_names_ignore_ascii_case() {
    for name in ["return", "Escape", "f5", "KP_Enter", "volumeup", "q", "7", "Left"] {
        assert_eq!(parse_key(name), parse_key(&name.to_ascii_uppercase()));
    }
}

#[test]
fn modifiers_from_lowered_names() {
    let m = modifiers_from_lowered(&["control".to_string(), "mod4".to_string(), "hyper".to_string()]);
    assert_eq!(m, KeyModifiers { ctrl: true, shift: false, alt: false, super_: true });
    assert_eq!(modifiers_from_lowered(&["Ctrl".to_string()]), KeyModifiers::default());
}

#[test]
fn fit_modes_from_lowered_names() {
    assert_eq!(FitMode::from_lowered("center"), FitMode::Center);
    assert_eq!(FitMode::from_lowered("Center"), FitMode::Fill);
    assert_eq!(FitMode::from_str("TILE"), FitMode::Tile);
}

#[test]
fn image_extensions_in_lowercase() {
    assert!(is_image_extension("jpeg"));
    assert!(!is_image_extension("JPEG"));
    assert!(!is_image_extension("txt"));
}

#[test]
fn directions_from_lowered_names() {
    assert_eq!(direction_from_lowered("up"), Some(Direction::Up));
    assert_eq!(direction_from_lowered("Up"), None);
    assert_eq!(parse_direction("DOWN"), Some(Direction::Down));
}

#[test]
fn runs_found_in_text() {
    let hay: Vec<char> = "firefox-esr".chars().collect();
    let needle: Vec<char> = "fox".chars().collect();
    let none: Vec<char> = "chrome".chars().collect();
    assert!(occurs_in_exec(&hay, &needle));
    assert!(!occurs_in_exec(&hay, &none));
    assert!(occurs_in_exec(&hay, &[]));
}

#[test]
fn white_space_characters() {
    for c in [' ', '\t', '\n', '\r', '\u{0b}', '\u{0c}', '\u{85}', '\u{a0}', '\u{1680}', '\u{2003}', '\u{2028}', '\u{3000}'] {
        assert!(char_is_whitespace(c));
        assert_eq!(char_is_whitespace(c), c.is_whitespace());
    }
    for c in ['a', '0', '\u{200b}', '\u{feff}', '_'] {
        assert!(!char_is_whitespace(c));
        assert_eq!(char_is_whitespace(c), c.is_whitespace());
    }
    for u in 0u32..0x3100 {
        if let Some(c) = char::from_u32(u) {
            assert_eq!(char_is_whitespace(c), c.is_whitespace());
        }
    }
}

#[test]
fn workspace_calls_without_a_valid_focus() {
    let mut ws = Workspace::new(1);
    ws.focus_window(WindowId(9));
    assert_eq!(ws.focused_window, None);
    ws.add_window(WindowId(9));
    ws.add_window(WindowId(9));
    assert_eq!(ws.windows, vec![WindowId(9)]);
    ws.focus_window(WindowId(9));
    assert_eq!(ws.focused_window, Some(WindowId(9)));
}

#[test]
fn workspace_set_ignores_invalid_ids() {
    let mut set = WorkspaceSet::new();
    set.add_window_to(11, WindowId(1));
    set.add_window_to(0, WindowId(1));
    assert!(set.all().iter().all(|w| w.windows.is_empty()));
    assert!(!set.remove_window_from(11, WindowId(1)));
    set.add_window_to(4, WindowId(1));
    assert!(set.remove_window_from(4, WindowId(1)));
    assert!(!set.remove_window_from(4, WindowId(1)));
}

#[test]
fn moving_a_window_leaves_other_workspaces_alone() {
    let mut set = WorkspaceSet::new();
    set.add_window_to(1, WindowId(1));
    set.add_window_to(5, WindowId(7));
    set.get_mut(5).unwrap().focus_window(WindowId(7));
    assert!(!set.move_window(WindowId(9), 3));
    assert!(set.move_window(WindowId(1), 3));
    assert_eq!(set.get(5).unwrap().focused_window, Some(WindowId(7)));
    assert_eq!(set.get(5).unwrap().windows, vec![WindowId(7)]);
    assert_eq!(set.get(3).unwrap().windows, vec![WindowId(1)]);
}

#[test]
fn new_state_layout_and_damage() {
    let state = vitrum::state::State::new(vitrum::output_id::OutputId(1));
    let d = state.damage_tracker();
    assert!(d.damage().is_none());
    assert_eq!(d.frame_count(), 0);
    assert_eq!(d.output_size(), (1920, 1080));
}

#[test]
fn output_ids_increase() {
    let mut c = vitrum::output_id::OutputIdCounter::new();
    let a = vitrum::output_id::OutputId::next(&mut c);
    let b = vitrum::output_id::OutputId::next(&mut c);
    assert_eq!(a.0, 1);
    assert!(b.0 > a.0);
}
