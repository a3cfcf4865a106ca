use lucien::launcher::{wrapped_index, Effect, Lucien, Message};
use lucien::preferences::keybindings::{Action, Key, Keystrokes, Modifiers};
use lucien::preferences::theme::ContainerClass;
use lucien::preferences::Preferences;
use lucien::providers::{ProviderKind, ScannerState};
use lucien::ui::entry::{Entry, EntryIcon, ShortcutLabel};

fn entry(id: &str, main: &str, secondary: Option<&str>) -> Entry<u32> {
    Entry::new(
        id.as_bytes().to_vec(),
        main.to_string(),
        secondary.map(|s| s.to_string()),
        EntryIcon::Lazy(main.to_string()),
    )
}

fn scanned(prefs: Preferences) -> Lucien<u32> {
    let mut l: Lucien<u32> = Lucien::new(prefs);
    assert!(matches!(l.update(Message::ScanEvent(ScannerState::Started)), Effect::FocusPrompt));
    let batch = vec![
        entry("firefox", "Firefox", Some("Web browser")),
        entry("gimp", "GIMP", None),
        entry("kitty", "Kitty", Some("Terminal")),
    ];
    assert!(matches!(l.update(Message::ScanEvent(ScannerState::Found(batch))), Effect::Nothing));
    assert!(matches!(l.update(Message::ScanEvent(ScannerState::Finished)), Effect::Nothing));
    l
}

#[test]
fn wrapped_index_moves_around_the_list() {
    assert_eq!(wrapped_index(0, 5, 1), 1);
    assert_eq!(wrapped_index(4, 5, 1), 0);
    assert_eq!(wrapped_index(0, 5, -1), 4);
    assert_eq!(wrapped_index(2, 5, -7), 0);
    assert_eq!(wrapped_index(3, 5, 12), 0);
    assert_eq!(wrapped_index(3, 0, 1), 0);
    assert_eq!(wrapped_index(1, 3, isize::MIN), 2);
}

#[test]
fn next_then_previous_returns_to_the_start() {
    for n in 1usize..6 {
        for i in 0..n {
            assert_eq!(wrapped_index(wrapped_index(i, n, 1), n, -1), i);
        }
    }
}

#[test]
fn a_scan_fills_the_list() {
    let l = scanned(Preferences::default());
    assert_eq!(l.entry_registry.len(), 3);
    assert_eq!(l.entry_registry.visible_len(), 3);
    assert!(l.is_scan_completed);
    assert_eq!(l.selected_entry, 0);
}

#[test]
fn a_new_scan_starts_from_an_empty_list() {
    let mut l = scanned(Preferences::default());
    l.update(Message::PromptChange("fi".to_string()));
    assert!(matches!(l.update(Message::ScanEvent(ScannerState::Started)), Effect::FocusPrompt));
    assert!(l.entry_registry.is_empty());
    assert!(l.prompt.is_empty());
    assert!(!l.is_scan_completed);
}

#[test]
fn next_and_previous_move_the_selection_around() {
    let mut l = scanned(Preferences::default());
    assert!(matches!(l.update(Message::TriggerAction(Action::NextEntry)), Effect::SnapToSelected));
    assert_eq!(l.selected_entry, 1);
    l.update(Message::TriggerAction(Action::PreviousEntry));
    l.update(Message::TriggerAction(Action::PreviousEntry));
    assert_eq!(l.selected_entry, 2);
}

#[test]
fn moving_in_an_empty_list_does_nothing() {
    let mut l: Lucien<u32> = Lucien::new(Preferences::default());
    assert!(matches!(l.update(Message::TriggerAction(Action::NextEntry)), Effect::Nothing));
    assert_eq!(l.selected_entry, 0);
}

#[test]
fn keybindings_trigger_their_actions() {
    let mut l = scanned(Preferences::default());
    let tab = Keystrokes { key: Key::Tab, modifiers: Modifiers::empty() };
    assert!(matches!(l.update(Message::TriggerActionByKeybinding(tab)), Effect::SnapToSelected));
    assert_eq!(l.selected_entry, 1);
    let esc = Keystrokes { key: Key::Escape, modifiers: Modifiers::empty() };
    assert!(matches!(l.update(Message::TriggerActionByKeybinding(esc)), Effect::Exit));
    let unbound = Keystrokes { key: Key::Character('z'), modifiers: Modifiers::alt_only() };
    assert!(matches!(l.update(Message::TriggerActionByKeybinding(unbound)), Effect::Nothing));
    assert_eq!(l.selected_entry, 1);
}

#[test]
fn launching_hands_the_identifier_to_the_provider() {
    let mut l = scanned(Preferences::default());
    match l.update(Message::TriggerAction(Action::LaunchEntry(2))) {
        Effect::Launch(p, id) => {
            assert_eq!(p, ProviderKind::App);
            assert_eq!(id, b"kitty".to_vec());
        }
        _ => panic!("expected a launch"),
    }
    assert!(matches!(l.update(Message::TriggerAction(Action::LaunchEntry(9))), Effect::Nothing));
}

#[test]
fn prompt_changes_filter_later_or_switch_providers() {
    let mut l = scanned(Preferences::default());
    assert!(matches!(l.update(Message::PromptChange("fi".to_string())), Effect::FilterAfterDelay));
    assert_eq!(l.prompt, "fi");
    assert!(matches!(l.update(Message::PromptChange("/".to_string())), Effect::FilterAfterDelay));
    assert!(l.prompt.is_empty());
    assert_eq!(l.provider, ProviderKind::File);
    assert!(matches!(l.update(Message::PromptChange("@".to_string())), Effect::FilterAfterDelay));
    assert_eq!(l.provider, ProviderKind::App);
    assert!(matches!(l.update(Message::PromptChange(String::new())), Effect::FilterNow));
}

#[test]
fn the_debounced_filter_ranks_and_resets_the_selection() {
    let mut l = scanned(Preferences::default());
    l.update(Message::TriggerAction(Action::NextEntry));
    l.update(Message::PromptChange("kit".to_string()));
    assert!(matches!(l.update(Message::DebouncedFilter), Effect::ScrollToTop));
    assert_eq!(l.selected_entry, 0);
    assert_eq!(l.entry_registry.visible_len(), 1);
    assert_eq!(l.entry_registry.get_visible_by_index(0).unwrap().main, "Kitty");
}

#[test]
fn toggling_a_favorite_needs_a_preferences_file() {
    let mut l = scanned(Preferences::default());
    assert!(matches!(l.update(Message::TriggerAction(Action::ToggleFavorite)), Effect::Nothing));
    assert!(l.preferences.favorite_apps.is_empty());
}

#[test]
fn toggling_a_favorite_saves_and_reranks() {
    let mut prefs = Preferences::default();
    prefs.path = Some(b"/tmp/preferences.toml".to_vec());
    let mut l = scanned(prefs);
    l.update(Message::TriggerAction(Action::NextEntry));
    l.update(Message::TriggerAction(Action::NextEntry));
    match l.update(Message::TriggerAction(Action::ToggleFavorite)) {
        Effect::SaveFavorites(path, saved) => {
            assert_eq!(path, b"/tmp/preferences.toml".to_vec());
            assert_eq!(saved, vec!["kitty".to_string()]);
        }
        _ => panic!("expected a save"),
    }
    assert!(l.preferences.favorite_apps.contains(&"kitty".to_string()));
    assert_eq!(l.entry_registry.get_visible_by_index(0).unwrap().main, "Kitty");
    assert_eq!(l.selected_entry, 2);
    // The same entry, now listed first, toggled again leaves the favorites.
    l.update(Message::TriggerAction(Action::NextEntry));
    assert_eq!(l.selected_entry, 0);
    match l.update(Message::TriggerAction(Action::ToggleFavorite)) {
        Effect::SaveFavorites(_, saved) => assert!(saved.is_empty()),
        _ => panic!("expected a save"),
    }
    assert!(l.preferences.favorite_apps.is_empty());
}

#[test]
fn hovering_and_leaving_restores_the_selection() {
    let mut l = scanned(Preferences::default());
    l.update(Message::TriggerAction(Action::NextEntry));
    l.update(Message::HoveredEntry(2));
    assert_eq!(l.hovered_entry, 2);
    l.update(Message::HoveredExit(0));
    assert_eq!(l.hovered_entry, 2);
    l.update(Message::HoveredExit(2));
    assert_eq!(l.hovered_entry, 1);
}

#[test]
fn resolved_icons_replace_the_lazy_ones() {
    let mut l = scanned(Preferences::default());
    l.update(Message::IconResolved { id: b"gimp".to_vec(), handle: 42 });
    assert!(matches!(l.entry_registry.get_by_index(1).unwrap().icon, EntryIcon::Handle(42)));
}

#[test]
fn a_context_change_empties_the_list() {
    let mut l = scanned(Preferences::default());
    l.update(Message::PromptChange("abc".to_string()));
    assert!(matches!(l.update(Message::ContextChange), Effect::ScrollToTop));
    assert!(l.entry_registry.is_empty());
    assert!(l.prompt.is_empty());
    assert_eq!(l.selected_entry, 0);
}

#[test]
fn the_view_plan_dresses_each_listed_entry() {
    let mut prefs = Preferences::default();
    prefs.favorite_apps.insert("gimp".to_string());
    let mut l = scanned(prefs);
    l.update(Message::HoveredEntry(1));
    let v = l.view_plan();
    assert!(v.show_sections);
    assert!(v.show_results);
    assert!(!v.show_no_results);
    assert!(!v.folder_active);
    assert_eq!(v.container, ContainerClass::MainContainer);
    assert_eq!(v.submit_index, 0);
    assert_eq!(v.rows.len(), 3);
    assert!(matches!(v.rows[0].decorations.shortcut, ShortcutLabel::Enter));
    assert!(v.rows[1].starred);
    assert!(v.rows[1].decorations.show_favorite_toggle);
    assert!(v.rows[1].decorations.star_active);
    assert!(!v.rows[2].starred);
    assert_eq!(v.rows[0].secondary.as_deref(), Some("Web browser"));
    assert_eq!(v.rows[1].secondary, None);
    assert_eq!(v.rows[2].entry.main, "Kitty");
}

#[test]
fn the_view_plan_reports_an_empty_result() {
    let mut l = scanned(Preferences::default());
    l.update(Message::PromptChange("qqq".to_string()));
    l.update(Message::DebouncedFilter);
    let v = l.view_plan();
    assert!(v.show_no_results);
    assert!(v.show_results);
    assert!(!v.show_sections);
    assert!(v.rows.is_empty());
    let fresh: Lucien<u32> = Lucien::new(Preferences::default());
    let w = fresh.view_plan();
    assert!(!w.show_results);
    assert!(!w.show_no_results);
}

#[test]
fn a_bound_keystroke_is_answered_as_its_action() {
    let mut by_key = scanned(Preferences::default());
    let mut by_action = scanned(Preferences::default());
    let down = Keystrokes { key: Key::Down, modifiers: Modifiers::empty() };
    let a = by_key.update(Message::TriggerActionByKeybinding(down));
    let b = by_action.update(Message::TriggerAction(Action::NextEntry));
    assert!(matches!((a, b), (Effect::SnapToSelected, Effect::SnapToSelected)));
    assert_eq!(by_key.selected_entry, by_action.selected_entry);
    let ctrl_2 = Keystrokes { key: Key::Character('2'), modifiers: Modifiers::control_only() };
    match by_key.update(Message::TriggerActionByKeybinding(ctrl_2)) {
        Effect::Launch(_, id) => assert_eq!(id, b"kitty".to_vec()),
        _ => panic!("expected a launch"),
    }
}
