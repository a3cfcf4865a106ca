use lucien::preferences::{set_preference, FavoriteApps, Preferences};

#[test]
fn favorites_are_kept_once_each() {
    let mut f = FavoriteApps::new();
    assert!(f.is_empty());
    assert!(f.insert("a".to_string()));
    assert!(f.insert("b".to_string()));
    assert!(!f.insert("a".to_string()));
    assert_eq!(f.len(), 2);
    assert_eq!(f.to_vec(), vec!["a".to_string(), "b".to_string()]);
    assert!(f.remove(&"a".to_string()));
    assert!(!f.remove(&"a".to_string()));
    assert!(!f.contains(&"a".to_string()));
    assert_eq!(f.to_vec(), vec!["b".to_string()]);
}

#[test]
fn default_preferences_have_no_favorites_and_the_default_bindings() {
    let p = Preferences::default();
    assert_eq!(p.leading_icon_count, 10);
    assert!(p.path.is_none());
    assert!(p.favorite_apps.is_empty());
    assert_eq!(p.keybindings.pairs().len(), 11);
}

#[test]
fn toggling_twice_gives_back_the_favorites() {
    let mut p = Preferences::default();
    let first = p.toggle_favorite("firefox".to_string());
    let listed: Vec<&str> = first.iter().map(|v| v.as_str().unwrap()).collect();
    assert_eq!(listed, vec!["firefox"]);
    let second = p.toggle_favorite("firefox".to_string());
    assert_eq!(second.len(), 0);
    assert!(p.favorite_apps.is_empty());
}

#[test]
fn preferences_text_gets_the_new_value() {
    let favorites = vec!["kitty".to_string(), "gimp".to_string()];
    let text = set_preference("# mine\nleading_icon_count = 4\n", "favorite_apps", &favorites).unwrap();
    assert_eq!(text, "# mine\nleading_icon_count = 4\nfavorite_apps = [\"kitty\", \"gimp\"]\n");
    let replaced = set_preference(&text, "favorite_apps", &vec![]).unwrap();
    assert_eq!(replaced, "# mine\nleading_icon_count = 4\nfavorite_apps = []\n");
}

#[test]
fn preferences_text_that_is_not_toml_is_refused() {
    let r = set_preference("leading_icon_count = = 4", "favorite_apps", &vec![]);
    assert!(r.is_err());
    assert!(!r.unwrap_err().is_empty());
}
