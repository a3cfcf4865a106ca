use lucien::app_info::{
    icon_lookup, registry_raster, App, AppShortcut, IconLookup, IconSlot, IconState, IconStatus,
    LaunchError, RegistryRaster, icon_state_after_load,
};
use lucien::preferences::theme::ButtonClass;

fn app(commandline: Option<&[u8]>, icon_state: IconState<u32>) -> App<u32> {
    App {
        commandline: commandline.map(|c| c.to_vec()),
        id: "org.example.App".to_string(),
        name: "Example".to_string(),
        description: None,
        icon_state,
        icon_name: None,
    }
}

#[test]
fn icon_states_report_their_status() {
    assert_eq!(IconState::Ready(3u32).status(), IconStatus::Ready);
    assert_eq!(IconState::<u32>::Loading.status(), IconStatus::Loading);
    assert_eq!(IconState::<u32>::Empty.status(), IconStatus::Empty);
    assert_eq!(IconState::<u32>::NotFound.status(), IconStatus::NotFound);
}

#[test]
fn shell_commands_drop_field_codes() {
    let a = app(Some(b"  firefox  %u --private\t%F "), IconState::Empty);
    assert_eq!(a.shell_command(), Ok("firefox --private &".to_string()));
    let none = app(None, IconState::Empty);
    assert_eq!(none.shell_command(), Err(LaunchError::NoCommandLine));
    let bad = app(Some(&[0xff, 0x20, 0x61]), IconState::Empty);
    assert_eq!(bad.shell_command(), Ok(" &".to_string()));
}

#[test]
fn icon_names_with_a_path_are_used_directly() {
    assert!(matches!(icon_lookup("/usr/share/x.png"), IconLookup::Direct(ref p) if p == "/usr/share/x.png"));
    assert!(matches!(icon_lookup("C:\\icon"), IconLookup::Direct(_)));
}

#[test]
fn other_icon_names_are_searched_in_the_data_files() {
    match icon_lookup("gimp") {
        IconLookup::Search(c) => {
            assert_eq!(c.len(), 11);
            assert_eq!(c[0], "icons/hicolor/scalable/apps/gimp.svg");
            assert_eq!(c[1], "icons/hicolor/512x512/apps/gimp.png");
            assert_eq!(c[7], "icons/hicolor/32x32/apps/gimp.png");
            assert_eq!(c[10], "pixmaps/gimp.ico");
        }
        _ => panic!("expected a search"),
    }
}

#[test]
fn registry_icons_load_by_extension() {
    assert_eq!(registry_raster("svg"), Some(RegistryRaster::Svg));
    assert_eq!(registry_raster("jpeg"), Some(RegistryRaster::Bitmap));
    assert_eq!(registry_raster("png"), Some(RegistryRaster::Bitmap));
    assert_eq!(registry_raster("ico"), None);
}

#[test]
fn loaded_icons_become_ready() {
    assert!(matches!(icon_state_after_load(&None, Some(1u32)), IconState::Empty));
    assert!(matches!(icon_state_after_load::<u32>(&Some("x".to_string()), None), IconState::Empty));
    assert!(matches!(icon_state_after_load(&Some("x".to_string()), Some(4u32)), IconState::Ready(4)));
}

#[test]
fn application_rows_are_dressed_by_place() {
    let a = app(None, IconState::Loading);
    let selected = a.entry(2, 2, true);
    assert!(matches!(selected.shortcut, AppShortcut::Enter));
    assert!(selected.show_mark_favorite);
    assert!(selected.star_active);
    assert_eq!(selected.class, ButtonClass::ItemlistSelected);
    assert_eq!(selected.icon, IconSlot::Reserved);
    let other = a.entry(0, 2, false);
    assert!(matches!(other.shortcut, AppShortcut::Text(ref t, _) if t == "Alt+1"));
    assert!(!other.show_mark_favorite);
    assert_eq!(other.launch_index, 0);
    let far = app(None, IconState::Ready(1)).entry(7, 2, false);
    assert!(matches!(far.shortcut, AppShortcut::Empty));
    assert_eq!(far.icon, IconSlot::Image);
    assert_eq!(app(None, IconState::NotFound).entry(1, 0, false).icon, IconSlot::Collapsed);
}
