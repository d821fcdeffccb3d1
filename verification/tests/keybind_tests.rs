use vitrum::keybind::{parse_key, Action, KeyModifiers, KeyState, Keybind, KeybindManager, Keysym};

#[test]
fn test_parse_key_letters() {
    assert_eq!(parse_key("a"), Some(Keysym(0x61)));
    assert_eq!(parse_key("z"), Some(Keysym(0x7a)));
    assert_eq!(parse_key("A"), Some(Keysym(0x61)));
}

#[test]
fn test_parse_key_numbers() {
    assert_eq!(parse_key("1"), Some(Keysym(0x31)));
    assert_eq!(parse_key("0"), Some(Keysym(0x30)));
}

#[test]
fn test_parse_key_special() {
    assert_eq!(parse_key("Return"), Some(Keysym(0xff0d)));
    assert_eq!(parse_key("space"), Some(Keysym(0x20)));
    assert_eq!(parse_key("Escape"), Some(Keysym(0xff1b)));
}

#[test]
fn test_key_modifiers_matches() {
    let mods = KeyModifiers { ctrl: false, shift: false, alt: false, super_: true };
    assert!(mods.matches(&vec!["super".to_string()]));
    assert!(!mods.matches(&vec!["ctrl".to_string()]));
    assert!(!mods.matches(&vec!["super".to_string(), "shift".to_string()]));

    let mods_with_shift = KeyModifiers { ctrl: false, shift: true, alt: false, super_: true };
    assert!(mods_with_shift.matches(&vec!["super".to_string(), "shift".to_string()]));
}

#[test]
fn parse_key_function_and_unknown() {
    assert_eq!(parse_key("F1"), Some(Keysym(0xffbe)));
    assert_eq!(parse_key("F12"), Some(Keysym(0xffc9)));
    assert_eq!(parse_key("no-such-key"), None);
}

#[test]
fn modifier_names_ignore_case_and_aliases() {
    let mods = KeyModifiers { ctrl: true, shift: false, alt: false, super_: true };
    assert!(mods.matches(&vec!["CTRL".to_string(), "Mod4".to_string()]));
    assert!(mods.matches(&vec!["control".to_string(), "logo".to_string()]));
    assert!(!KeyModifiers::default().matches(&vec!["alt".to_string()]));
}

fn binding(key: &str, mods: &[&str], action: Action) -> Keybind {
    Keybind { key: key.to_string(), mods: mods.iter().map(|m| m.to_string()).collect(), action }
}

#[test]
fn first_matching_binding_wins() {
    let manager = KeybindManager::new(vec![
        binding("q", &["super"], Action::KillFocused),
        binding("q", &["super"], Action::Quit),
        binding("Return", &["super"], Action::Spawn { cmd: "foot".to_string() }),
    ]);
    let sup = KeyModifiers { ctrl: false, shift: false, alt: false, super_: true };
    assert!(matches!(manager.match_keybind(Keysym(0x71), sup, KeyState::Pressed), Some(Action::KillFocused)));
    assert!(manager.match_keybind(Keysym(0x71), sup, KeyState::Released).is_none());
    assert!(manager.match_keybind(Keysym(0x71), KeyModifiers::default(), KeyState::Pressed).is_none());
    match manager.match_keybind(Keysym(0xff0d), sup, KeyState::Pressed) {
        Some(Action::Spawn { cmd }) => assert_eq!(cmd, "foot"),
        _ => panic!("expected the spawn binding"),
    }
}
