use lucien::preferences::keybindings::{
    default_keybindings, extend_keybindings, extract_parameter, Action, HeldModifiers, Key,
    Keybindings, Keystrokes, Modifiers, NamedKey, PressedKey,
};

fn control_shift() -> Modifiers {
    Modifiers::control_only().union(Modifiers::shift_only())
}

#[test]
fn modifiers_parse_names_joined_by_dashes() {
    let m = Modifiers::from_str("control-shift").unwrap();
    assert_eq!(m, control_shift());
    assert_eq!(Modifiers::from_str("").unwrap(), Modifiers::empty());
    assert_eq!(Modifiers::from_str("super").unwrap(), Modifiers::super_only());
}

#[test]
fn modifiers_reject_unknown_names() {
    assert_eq!(
        Modifiers::from_str("control-meta"),
        Err("'meta' is not a valid modifier. Use 'logo', 'control', 'alt', or 'shift' instead"
            .to_string())
    );
}

#[test]
fn modifiers_are_written_in_a_fixed_order() {
    let m = Modifiers::shift_only().union(Modifiers::super_only()).union(Modifiers::alt_only());
    assert_eq!(m.to_string(), "super-alt-shift");
    assert_eq!(Modifiers::empty().to_string(), "");
}

#[test]
fn modifiers_round_trip_through_text() {
    for bits in 0u8..16 {
        let m = Modifiers::empty()
            .union(if bits & 1 != 0 { Modifiers::super_only() } else { Modifiers::empty() })
            .union(if bits & 2 != 0 { Modifiers::control_only() } else { Modifiers::empty() })
            .union(if bits & 4 != 0 { Modifiers::alt_only() } else { Modifiers::empty() })
            .union(if bits & 8 != 0 { Modifiers::shift_only() } else { Modifiers::empty() });
        assert_eq!(Modifiers::from_str(&m.to_string()), Ok(m));
    }
}

#[test]
fn keys_parse_names_and_single_characters() {
    assert_eq!(Key::from_str("tab"), Ok(Key::Tab));
    assert_eq!(Key::from_str("escape"), Ok(Key::Escape));
    assert_eq!(Key::from_str("left"), Ok(Key::Left));
    assert_eq!(Key::from_str("f"), Ok(Key::Character('f')));
    assert_eq!(Key::from_str("7"), Ok(Key::Character('7')));
}

#[test]
fn keys_reject_other_text() {
    let message = "' is not a valid key. It must be a named key ('tab', 'escape', 'up', 'down', 'left', 'right') or a single alphanumeric character (A-Z, 0-9)";
    assert_eq!(Key::from_str("!"), Err(format!("'!{}", message)));
    assert_eq!(Key::from_str("ab"), Err(format!("'ab{}", message)));
    assert_eq!(Key::from_str(""), Err(format!("'{}", message)));
}

#[test]
fn keys_are_written_by_name() {
    assert_eq!(Key::Up.to_string(), "up");
    assert_eq!(Key::Character('q').to_string(), "q");
    assert_eq!(Key::Unidentified.to_string(), "unidentified");
}

#[test]
fn keystrokes_parse_modifiers_before_the_last_dash() {
    let k = Keystrokes::from_str("control-shift-f").unwrap();
    assert_eq!(k, Keystrokes { key: Key::Character('f'), modifiers: control_shift() });
    let t = Keystrokes::from_str("tab").unwrap();
    assert_eq!(t, Keystrokes { key: Key::Tab, modifiers: Modifiers::empty() });
}

#[test]
fn keystrokes_report_the_key_error_first() {
    let r = Keystrokes::from_str("meta-!");
    assert!(r.unwrap_err().starts_with("'!' is not a valid key"));
    let r = Keystrokes::from_str("meta-f");
    assert!(r.unwrap_err().starts_with("'meta' is not a valid modifier"));
}

#[test]
fn keystrokes_are_written_and_read_back() {
    let k = Keystrokes { key: Key::Down, modifiers: Modifiers::alt_only() };
    assert_eq!(k.to_string(), "alt-down");
    assert_eq!(Keystrokes::from_str(&k.to_string()), Ok(k));
    let plain = Keystrokes { key: Key::Escape, modifiers: Modifiers::empty() };
    assert_eq!(plain.to_string(), "escape");
}

#[test]
fn keystrokes_new_unites_the_modifiers() {
    let k = Keystrokes::new(&[Modifiers::control_only(), Modifiers::shift_only()], Key::Tab);
    assert_eq!(k, Keystrokes { key: Key::Tab, modifiers: control_shift() });
    let none = Keystrokes::new(&[], Key::Escape);
    assert_eq!(none.modifiers, Modifiers::empty());
}

#[test]
fn actions_parse_by_name() {
    assert_eq!(Action::from_str("close"), Ok(Action::Close));
    assert_eq!(Action::from_str("toggle_favorite"), Ok(Action::ToggleFavorite));
    assert_eq!(Action::from_str("next_entry"), Ok(Action::NextEntry));
    assert_eq!(Action::from_str("previous_entry"), Ok(Action::PreviousEntry));
    assert_eq!(Action::from_str("launch_entry(3)"), Ok(Action::LaunchEntry(3)));
    assert_eq!(Action::from_str("launch_entry( 12 ))"), Ok(Action::LaunchEntry(12)));
}

#[test]
fn actions_reject_unknown_names_and_bad_indices() {
    assert_eq!(
        Action::from_str("jump"),
        Err("unknown action 'jump'. Available actions are: 'toggle_favorite', 'close', 'next_entry', 'previous_entry', 'launch_entry(index)'".to_string())
    );
    assert_eq!(
        Action::from_str("launch_entry(x)"),
        Err("incorrect type assigned to parameter: expected usize".to_string())
    );
    assert!(Action::from_str("launch_entry(3").is_err());
}

#[test]
fn actions_round_trip_through_text() {
    for a in [Action::Close, Action::ToggleFavorite, Action::NextEntry, Action::PreviousEntry, Action::LaunchEntry(0), Action::LaunchEntry(4021)] {
        assert_eq!(Action::from_str(&a.to_string()), Ok(a));
    }
    assert_eq!(Action::LaunchEntry(12).to_string(), "launch_entry(12)");
}

#[test]
fn extract_parameter_reads_the_index() {
    assert_eq!(extract_parameter("5)"), Ok(5));
    assert_eq!(extract_parameter(" 42 ))"), Ok(42));
    assert_eq!(
        extract_parameter("-1)"),
        Err("incorrect type assigned to parameter: expected usize".to_string())
    );
}

#[test]
fn default_bindings_cover_navigation_and_launching() {
    let b = default_keybindings();
    let esc = Keystrokes { key: Key::Escape, modifiers: Modifiers::empty() };
    assert_eq!(b.get(&esc), Some(Action::Close));
    let ctrl_f = Keystrokes { key: Key::Character('f'), modifiers: Modifiers::control_only() };
    assert_eq!(b.get(&ctrl_f), Some(Action::ToggleFavorite));
    let shift_tab = Keystrokes { key: Key::Tab, modifiers: Modifiers::shift_only() };
    assert_eq!(b.get(&shift_tab), Some(Action::PreviousEntry));
    let ctrl_3 = Keystrokes { key: Key::Character('3'), modifiers: Modifiers::control_only() };
    assert_eq!(b.get(&ctrl_3), Some(Action::LaunchEntry(3)));
    let ctrl_6 = Keystrokes { key: Key::Character('6'), modifiers: Modifiers::control_only() };
    assert_eq!(b.get(&ctrl_6), None);
}

#[test]
fn extended_bindings_override_the_defaults() {
    let mut user = Keybindings::new();
    let esc = Keystrokes { key: Key::Escape, modifiers: Modifiers::empty() };
    let ctrl_j = Keystrokes { key: Key::Character('j'), modifiers: Modifiers::control_only() };
    user.insert(esc, Action::NextEntry);
    user.insert(ctrl_j, Action::NextEntry);
    let b = extend_keybindings(user);
    assert_eq!(b.get(&esc), Some(Action::NextEntry));
    assert_eq!(b.get(&ctrl_j), Some(Action::NextEntry));
    let tab = Keystrokes { key: Key::Tab, modifiers: Modifiers::empty() };
    assert_eq!(b.get(&tab), Some(Action::NextEntry));
}

#[test]
fn keybindings_insert_returns_the_replaced_action() {
    let mut b = Keybindings::new();
    let k = Keystrokes { key: Key::Up, modifiers: Modifiers::empty() };
    assert_eq!(b.insert(k, Action::Close), None);
    assert_eq!(b.insert(k, Action::PreviousEntry), Some(Action::Close));
    assert!(b.contains_key(&k));
    assert_eq!(b.pairs().len(), 1);
}

#[test]
fn key_events_become_keystrokes() {
    let held = HeldModifiers { logo: false, control: true, alt: false, shift: false };
    let k = Keystrokes::from_iced_keystrokes(held, PressedKey::Character("fx".to_string()));
    assert_eq!(k, Keystrokes { key: Key::Character('f'), modifiers: Modifiers::control_only() });
    let none = HeldModifiers { logo: false, control: false, alt: false, shift: false };
    let lone = Keystrokes::from_iced_keystrokes(none, PressedKey::Named(NamedKey::Shift));
    assert_eq!(lone, Keystrokes { key: Key::Unidentified, modifiers: Modifiers::shift_only() });
    assert_eq!(lone.to_string(), "shift");
    let up = Keystrokes::from_iced_keystrokes(none, PressedKey::Named(NamedKey::ArrowUp));
    assert_eq!(up.key, Key::Up);
    let empty = Keystrokes::from_iced_keystrokes(none, PressedKey::Character(String::new()));
    assert_eq!(empty.key, Key::Unidentified);
}
