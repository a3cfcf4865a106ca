use lucien::providers::app::{
    app_entry, command_line_parts, icon_lookup_paths, parse_desktop_entry, raster_source, App,
    AppProvider, RasterSource,
};
use lucien::providers::file::{
    file_entry, file_extension, get_icon_from_mimetype, parent_entry, GenericIcon, MimeType,
};
use lucien::providers::{LaunchPlan, ProviderKind, Scanner, ScannerState};
use lucien::ui::entry::{Entry, EntryIcon};

fn entry(id: &str) -> Entry<u32> {
    Entry::new(id.as_bytes().to_vec(), id.to_string(), None, EntryIcon::Handle(0))
}

fn found_ids(s: &ScannerState<u32>) -> Vec<String> {
    match s {
        ScannerState::Found(b) => b.iter().map(|e| e.main.clone()).collect(),
        _ => panic!("expected a batch"),
    }
}

#[test]
fn scanner_hands_out_full_batches() {
    let mut s: Scanner<u32> = Scanner::new(2);
    assert!(matches!(s.start(), ScannerState::Started));
    assert!(s.load(entry("a")).is_none());
    let batch = s.load(entry("b")).unwrap();
    assert_eq!(found_ids(&batch), vec!["a", "b"]);
    assert!(s.load(entry("c")).is_none());
    let end = s.finish();
    assert_eq!(end.len(), 2);
    assert_eq!(found_ids(&end[0]), vec!["c"]);
    assert!(matches!(end[1], ScannerState::Finished));
}

#[test]
fn scanner_finishes_without_an_empty_batch() {
    let mut s: Scanner<u32> = Scanner::new(3);
    let end = s.finish();
    assert_eq!(end.len(), 1);
    assert!(matches!(end[0], ScannerState::Finished));
    assert!(s.flush().is_none());
}

#[test]
fn scanner_with_no_capacity_hands_out_each_entry() {
    let mut s: Scanner<u32> = Scanner::new(0);
    assert_eq!(found_ids(&s.load(entry("a")).unwrap()), vec!["a"]);
    assert_eq!(found_ids(&s.load(entry("b")).unwrap()), vec!["b"]);
    assert_eq!(s.finish().len(), 1);
}

#[test]
fn command_lines_lose_field_codes_and_empty_pieces() {
    let parts = command_line_parts(b"firefox  %U --new-window");
    assert_eq!(parts, vec![b"firefox".to_vec(), b"--new-window".to_vec()]);
    assert!(command_line_parts(b"").is_empty());
    assert!(command_line_parts(b" %f ").is_empty());
}

#[test]
fn app_provider_splits_program_and_arguments() {
    let c = AppProvider::command(b"gimp-2.10 %F -n").unwrap();
    assert_eq!(c.program, b"gimp-2.10".to_vec());
    assert_eq!(c.args, vec![b"-n".to_vec()]);
    assert!(AppProvider::command(b"%u").is_none());
}

#[test]
fn providers_plan_their_launches() {
    let id = b"/home/user/notes.txt".to_vec();
    match ProviderKind::File.launch(&id, false) {
        LaunchPlan::Spawn(c) => {
            assert_eq!(c.program, b"xdg-open".to_vec());
            assert_eq!(c.args, vec![id.clone()]);
        }
        _ => panic!("expected a spawn"),
    }
    match ProviderKind::File.launch(&id, true) {
        LaunchPlan::ChangePath(p) => assert_eq!(p, id),
        _ => panic!("expected a change of directory"),
    }
    assert!(matches!(ProviderKind::App.launch(&b"  ".to_vec(), false), LaunchPlan::Nothing));
    match ProviderKind::App.launch(&b"kitty --single".to_vec(), true) {
        LaunchPlan::Spawn(c) => assert_eq!(c.program, b"kitty".to_vec()),
        _ => panic!("expected a spawn"),
    }
}

const FIREFOX: &str = "# A comment\n[Desktop Entry]\nType=Application\nName = Firefox \nExec=firefox %u\nComment=Browse the Web\r\nIcon=firefox\nName=Ignored\n";

#[test]
fn desktop_entries_stop_once_every_key_is_read() {
    let app = parse_desktop_entry(FIREFOX).unwrap();
    assert_eq!(app.name, "Firefox");
    assert_eq!(app.command_line, "firefox %u");
    assert_eq!(app.comment.as_deref(), Some("Browse the Web"));
    assert_eq!(app.icon.as_deref(), Some("firefox"));
}

#[test]
fn desktop_entries_need_a_name_a_command_and_a_type() {
    let minimal = "[Desktop Entry]\nName=Tool\nExec=tool\nType=Application\n";
    let app = parse_desktop_entry(minimal).unwrap();
    assert_eq!(app.name, "Tool");
    assert_eq!(app.comment, None);
    assert_eq!(app.icon, None);
    assert!(parse_desktop_entry("[Desktop Entry]\nName=Tool\nExec=tool\n").is_none());
    assert!(parse_desktop_entry("").is_none());
}

#[test]
fn desktop_entries_reject_hidden_and_other_types() {
    assert!(parse_desktop_entry("[Desktop Entry]\nType=Link\nName=A\nExec=a\n").is_none());
    assert!(parse_desktop_entry("[Desktop Entry]\nName=A\nExec=a\nNoDisplay=true\nType=Application\n").is_none());
    assert!(parse_desktop_entry("[Desktop Entry]\nHidden = true\nName=A\nExec=a\nType=Application\n").is_none());
    let shown = parse_desktop_entry("[Desktop Entry]\nHidden=false\nName=A\nExec=a\nType=Application\n");
    assert!(shown.is_some());
}

#[test]
fn desktop_entries_read_only_the_main_section() {
    let text = "[Other]\nName=Wrong\n[Desktop Entry]\nName=Right\nExec=r\nType=Application\n[Desktop Action new]\nName=Later\n";
    assert_eq!(parse_desktop_entry(text).unwrap().name, "Right");
    let outside = "Name=A\nExec=a\nType=Application\n";
    assert!(parse_desktop_entry(outside).is_none());
}

#[test]
fn icon_lookup_tries_scalable_then_sizes_then_pixmaps() {
    let paths = icon_lookup_paths("firefox");
    assert_eq!(paths.len(), 10);
    assert_eq!(paths[0], "icons/hicolor/scalable/apps/firefox.svg");
    assert_eq!(paths[1], "icons/hicolor/512x512/apps/firefox.png");
    assert_eq!(paths[7], "icons/hicolor/32x32/apps/firefox.png");
    assert_eq!(paths[8], "pixmaps/firefox.svg");
    assert_eq!(paths[9], "pixmaps/firefox.png");
}

#[test]
fn icons_load_by_extension() {
    assert_eq!(raster_source("svg"), Some(RasterSource::Svg));
    assert_eq!(raster_source("png"), Some(RasterSource::Png));
    assert_eq!(raster_source("xpm"), None);
}

#[test]
fn application_entries_take_their_command_line_as_identifier() {
    let app = App {
        name: "Kitty".to_string(),
        command_line: "kitty".to_string(),
        comment: Some("Terminal".to_string()),
        icon: Some("kitty-icon".to_string()),
    };
    let e: Entry<u32> = app_entry(app, 5);
    assert_eq!(e.id, b"kitty".to_vec());
    assert_eq!(e.main, "Kitty");
    assert_eq!(e.secondary.as_deref(), Some("Terminal"));
    assert!(matches!(e.icon, EntryIcon::Lazy(ref n) if n == "kitty-icon"));
    let bare = App { name: "X".to_string(), command_line: "x".to_string(), comment: None, icon: None };
    assert!(matches!(app_entry(bare, 5u32).icon, EntryIcon::Handle(5)));
}

#[test]
fn mime_types_follow_extensions() {
    assert!(matches!(MimeType::get_type_from_extension("md"), MimeType::Text));
    assert!(matches!(MimeType::get_type_from_extension("pdf"), MimeType::Application));
    assert!(matches!(MimeType::get_type_from_extension("webp"), MimeType::Image));
    assert!(matches!(MimeType::get_type_from_extension("ogg"), MimeType::Audio));
    assert!(matches!(MimeType::get_type_from_extension("mov"), MimeType::Video));
    assert!(matches!(MimeType::get_type_from_extension("woff2"), MimeType::Font));
    assert!(matches!(MimeType::get_type_from_extension("mhtml"), MimeType::Multipart));
    assert!(matches!(MimeType::get_type_from_extension("3ds"), MimeType::Model));
    assert!(matches!(MimeType::get_type_from_extension("PNG"), MimeType::Unknown));
    assert!(matches!(MimeType::get_type_from_extension(""), MimeType::Unknown));
}

#[test]
fn mime_types_pick_their_icons() {
    assert_eq!(MimeType::Unknown.get_icon_from_type(), GenericIcon::Text);
    assert_eq!(MimeType::Application.get_icon_from_type(), GenericIcon::ApplicationDefault);
    assert_eq!(MimeType::Model.get_icon_from_type(), GenericIcon::Model);
}

#[test]
fn file_extensions_are_lower_cased() {
    assert_eq!(file_extension(b"/home/a/Photo.JPG"), "jpg");
    assert_eq!(file_extension(b"/home/a/archive.tar.gz"), "gz");
    assert_eq!(file_extension(b"/home/a/README"), "");
    assert_eq!(get_icon_from_mimetype(b"/home/a/Photo.JPG", false), GenericIcon::Image);
    assert_eq!(get_icon_from_mimetype(b"/home/a/dir.mp3", true), GenericIcon::Folder);
    assert_eq!(get_icon_from_mimetype(b"/home/a/song.mp3", false), GenericIcon::Audio);
}

#[test]
fn file_entries_show_names_and_paths() {
    let e = file_entry(b"/home/a/notes.txt".to_vec(), b"notes.txt", 3u32);
    assert_eq!(e.id, b"/home/a/notes.txt".to_vec());
    assert_eq!(e.main, "notes.txt");
    assert_eq!(e.secondary.as_deref(), Some("/home/a/notes.txt"));
    let p = parent_entry(b"/home".to_vec(), 1u32);
    assert_eq!(p.main, "..");
    assert_eq!(p.secondary.as_deref(), Some("/home"));
    let odd = file_entry(vec![0x66, 0xff], &[0x66, 0xff], 0u32);
    assert_eq!(odd.main, "f\u{FFFD}");
}

#[test]
fn a_whole_scan_opens_hands_out_full_batches_and_closes() {
    let entries: Vec<Entry<u32>> = ["a", "b", "c", "d", "e"].iter().map(|i| entry(i)).collect();
    let events = Scanner::run(2, entries);
    assert_eq!(events.len(), 5);
    assert!(matches!(events[0], ScannerState::Started));
    assert_eq!(found_ids(&events[1]), vec!["a", "b"]);
    assert_eq!(found_ids(&events[2]), vec!["c", "d"]);
    assert_eq!(found_ids(&events[3]), vec!["e"]);
    assert!(matches!(events[4], ScannerState::Finished));
}

#[test]
fn a_whole_scan_of_nothing_only_opens_and_closes() {
    let events = Scanner::<u32>::run(3, Vec::new());
    assert_eq!(events.len(), 2);
    assert!(matches!(events[0], ScannerState::Started));
    assert!(matches!(events[1], ScannerState::Finished));
    let exact = Scanner::run(0, vec![entry("x"), entry("y")]);
    assert_eq!(exact.len(), 4);
    assert_eq!(found_ids(&exact[2]), vec!["y"]);
}
