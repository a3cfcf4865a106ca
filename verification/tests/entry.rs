use lucien::preferences::theme::{ButtonClass, TextClass};
use lucien::preferences::Preferences;
use lucien::ui::entry::{
    display_entry, rank_entries, truncate_with_elipsis, Entry, EntryIcon, EntryRegistry,
    ShortcutLabel,
};

fn entry(id: &str, main: &str) -> Entry<u32> {
    Entry::new(id.as_bytes().to_vec(), main.to_string(), None, EntryIcon::Lazy("icon".to_string()))
}

fn visible_mains(r: &EntryRegistry<u32>) -> Vec<String> {
    r.iter_visible().into_iter().map(|e| e.main.clone()).collect()
}

#[test]
fn registry_lists_pushed_entries_in_order() {
    let mut r: EntryRegistry<u32> = EntryRegistry::new();
    assert!(r.is_empty());
    assert!(r.is_visibles_empty());
    r.push(entry("a", "Alpha"));
    r.extend(vec![entry("b", "Beta"), entry("c", "Gamma")]);
    assert_eq!(r.len(), 3);
    assert_eq!(r.visible_len(), 3);
    assert_eq!(visible_mains(&r), vec!["Alpha", "Beta", "Gamma"]);
    assert_eq!(r.get_visible_by_index(1).unwrap().main, "Beta");
    assert!(r.get_visible_by_index(3).is_none());
    assert_eq!(r.get_by_index(2).unwrap().main, "Gamma");
    r.clear();
    assert!(r.is_empty());
    assert!(r.is_visibles_empty());
}

#[test]
fn registry_finds_the_last_entry_with_an_identifier() {
    let mut r: EntryRegistry<u32> = EntryRegistry::new();
    r.push(entry("same", "First"));
    r.push(entry("other", "Other"));
    r.push(entry("same", "Second"));
    assert_eq!(r.get_by_id(&b"same".to_vec()).unwrap().main, "Second");
    assert!(r.get_by_id(&b"missing".to_vec()).is_none());
}

#[test]
fn registry_sets_the_icon_of_the_named_entry() {
    let mut r: EntryRegistry<u32> = EntryRegistry::new();
    r.push(entry("a", "Alpha"));
    r.push(entry("b", "Beta"));
    assert!(r.set_icon_by_id(&b"b".to_vec(), EntryIcon::Handle(7)));
    assert!(matches!(r.get_by_index(1).unwrap().icon, EntryIcon::Handle(7)));
    assert!(matches!(r.get_by_index(0).unwrap().icon, EntryIcon::Lazy(_)));
    assert!(!r.set_icon_by_id(&b"z".to_vec(), EntryIcon::Handle(1)));
    assert_eq!(r.visible_len(), 2);
}

#[test]
fn ranking_puts_favorites_first_then_higher_scores() {
    let scores = vec![Some(10), None, Some(30), Some(10), Some(20)];
    let favorites = vec![false, true, false, true, false];
    assert_eq!(rank_entries(&scores, &favorites), vec![3, 2, 4, 0]);
    let ties = vec![Some(5), Some(5), Some(5)];
    assert_eq!(rank_entries(&ties, &vec![false, false, false]), vec![0, 1, 2]);
    assert_eq!(rank_entries(&vec![None, None], &vec![true, false]), Vec::<usize>::new());
}

#[test]
fn sort_by_rank_with_an_empty_pattern_keeps_every_entry() {
    let mut r: EntryRegistry<u32> = EntryRegistry::new();
    r.extend(vec![entry("firefox", "Firefox"), entry("gimp", "GIMP"), entry("kitty", "Kitty")]);
    let mut prefs = Preferences::default();
    prefs.favorite_apps.insert("kitty".to_string());
    r.sort_by_rank(&prefs, "");
    assert_eq!(visible_mains(&r), vec!["Kitty", "Firefox", "GIMP"]);
}

#[test]
fn sort_by_rank_hides_entries_that_do_not_match() {
    let mut r: EntryRegistry<u32> = EntryRegistry::new();
    r.extend(vec![entry("firefox", "Firefox"), entry("gimp", "GIMP"), entry("files", "Files")]);
    let prefs = Preferences::default();
    r.sort_by_rank(&prefs, "fire");
    assert_eq!(visible_mains(&r), vec!["Firefox"]);
    assert_eq!(r.len(), 3);
    r.sort_by_rank(&prefs, "zzz");
    assert!(r.is_visibles_empty());
}

#[test]
fn truncation_keeps_short_texts() {
    assert_eq!(truncate_with_elipsis("hello", 5), "hello");
    assert_eq!(truncate_with_elipsis("", 0), "");
}

#[test]
fn truncation_cuts_at_a_character_boundary() {
    assert_eq!(truncate_with_elipsis("hello world", 5), "hello...");
    assert_eq!(truncate_with_elipsis("héllo", 2), "h...");
    assert_eq!(truncate_with_elipsis("héllo", 3), "hé...");
    assert_eq!(truncate_with_elipsis("abc", 0), "...");
    let long = "x".repeat(200);
    assert_eq!(truncate_with_elipsis(&long, 95).len(), 98);
}

#[test]
fn selected_entry_shows_the_enter_key() {
    let d = display_entry(0, true, false, true);
    assert!(matches!(d.shortcut, ShortcutLabel::Enter));
    assert!(d.show_favorite_toggle);
    assert!(d.star_active);
    assert_eq!(d.class, ButtonClass::ItemlistSelected);
}

#[test]
fn first_entries_show_their_control_shortcut() {
    let d = display_entry(1, false, false, false);
    match d.shortcut {
        ShortcutLabel::Text(t, c) => {
            assert_eq!(t, "Ctrl+2");
            assert_eq!(c, TextClass::TextDim);
        }
        _ => panic!("expected a shortcut"),
    }
    assert!(!d.show_favorite_toggle);
    assert_eq!(d.class, ButtonClass::Itemlist);
    let last = display_entry(4, false, true, false);
    assert!(matches!(last.shortcut, ShortcutLabel::Text(ref t, _) if t == "Ctrl+5"));
    assert!(last.show_favorite_toggle);
    let later = display_entry(5, false, false, false);
    assert!(matches!(later.shortcut, ShortcutLabel::Blank));
}
