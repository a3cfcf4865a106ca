use lucien::hotkeys::{default_keybindings, Action, Key, Keystrokes, Modifier, ModifierSet};
use lucien::preferences::keybindings::{HeldModifiers, NamedKey, PressedKey};

fn held(control: bool, shift: bool) -> HeldModifiers {
    HeldModifiers { logo: false, control, alt: false, shift }
}

#[test]
fn default_table_binds_the_four_actions() {
    let b = default_keybindings();
    let exit = b.get(&Action::Exit).unwrap();
    assert_eq!(exit.key, Key::Escape);
    let mark = b.get(&Action::Mark).unwrap();
    assert_eq!(mark.key, Key::Char('f'));
    assert!(mark.modifiers.contains(&Modifier::Control));
    assert!(!mark.modifiers.contains(&Modifier::Shift));
    let prev = b.get(&Action::GoPreviousEntry).unwrap();
    assert!(prev.modifiers.contains(&Modifier::Shift));
}

#[test]
fn keystrokes_match_exact_modifiers() {
    let b = default_keybindings();
    let mark = b.get(&Action::Mark).unwrap();
    assert!(mark.matches(&PressedKey::Character("f".to_string()), held(true, false)));
    assert!(!mark.matches(&PressedKey::Character("f".to_string()), held(true, true)));
    assert!(!mark.matches(&PressedKey::Character("f".to_string()), held(false, false)));
    assert!(!mark.matches(&PressedKey::Character("ff".to_string()), held(true, false)));
    let next = b.get(&Action::GoNextEntry).unwrap();
    assert!(next.matches(&PressedKey::Named(NamedKey::Tab), held(false, false)));
    assert!(!next.matches(&PressedKey::Named(NamedKey::Escape), held(false, false)));
    assert!(!next.matches(&PressedKey::Named(NamedKey::ArrowDown), held(false, false)));
}

#[test]
fn modifier_sets_hold_what_they_are_made_of() {
    let s = ModifierSet::from_slice(&[Modifier::Alt, Modifier::Super, Modifier::Alt]);
    assert!(s.contains(&Modifier::Alt));
    assert!(s.contains(&Modifier::Super));
    assert!(!s.contains(&Modifier::Control));
    let k = Keystrokes { key: Key::Escape, modifiers: s };
    let all = HeldModifiers { logo: true, control: false, alt: true, shift: false };
    assert!(k.matches(&PressedKey::Named(NamedKey::Escape), all));
}
