//! Applications as the desktop's application registry lists them: the shell
//! command that starts one, where its icon is looked for, how far its icon
//! has loaded, and how its row is dressed.
use vstd::prelude::*;
use vstd::string::StringExecFns;
use crate::preferences::keybindings::join_with;
use crate::preferences::theme::{ButtonClass, TextClass};
use crate::text::{chars_of, decimal_text, is_whitespace_char, char_is_whitespace, push_char, push_decimal, string_from_literal};

verus! {

broadcast use vstd::string::group_string_axioms;

/// How far the icon of an application has loaded.
pub enum IconState<H> {
    Ready(H),
    Loading,
    Empty,
    NotFound,
}

/// The state of an icon, without the image.
#[derive(Debug, Clone, Copy, PartialEq, Eq, Hash, Structural)]
pub enum IconStatus {
    Empty,
    Loading,
    Ready,
    NotFound,
}

/// The status of an icon state.
pub open spec fn status_of<H>(s: IconState<H>) -> IconStatus {
    match s {
        IconState::Ready(_) => IconStatus::Ready,
        IconState::Loading => IconStatus::Loading,
        IconState::Empty => IconStatus::Empty,
        IconState::NotFound => IconStatus::NotFound,
    }
}

impl<H> IconState<H> {
    /// The state of the icon, without the image.
    pub fn status(&self) -> (s: IconStatus)
        ensures
            s == status_of(*self),
    {
        match self {
            IconState::Ready(_) => IconStatus::Ready,
            IconState::Loading => IconStatus::Loading,
            IconState::Empty => IconStatus::Empty,
            IconState::NotFound => IconStatus::NotFound,
        }
    }
}

/// An application of the registry.
pub struct App<H> {
    /// The bytes of the command line that starts it, if the registry has one.
    pub commandline: Option<Vec<u8>>,
    pub id: String,
    pub name: String,
    pub description: Option<String>,
    pub icon_state: IconState<H>,
    pub icon_name: Option<String>,
}

// ---------------------------------------------------------------------------
// The shell command
// ---------------------------------------------------------------------------

/// Calls `std::str::from_utf8` and keeps the text. By its documentation it
/// succeeds exactly on valid UTF-8, and then holds the decoded characters.
#[verifier::external_body]
fn utf8_text(bytes: &[u8]) -> (r: Option<String>)
    ensures
        r is Some <==> vstd::utf8::valid_utf8(bytes@),
        r matches Some(s) ==> s@ == vstd::utf8::decode_utf8(bytes@),
{
    std::str::from_utf8(bytes).ok().map(|s| s.to_string())
}

/// The pieces of `s` between whitespace characters, empty pieces included.
pub open spec fn split_at_whitespace(s: Seq<char>) -> Seq<Seq<char>>
    decreases s.len(),
{
    if s.len() == 0 {
        seq![Seq::empty()]
    } else {
        let rest = split_at_whitespace(s.drop_last());
        if is_whitespace_char(s.last()) {
            rest.push(Seq::empty())
        } else {
            rest.update(rest.len() - 1, rest.last().push(s.last()))
        }
    }
}

/// The pieces that are words of the command: not empty, and not a field
/// code such as `%U`.
pub open spec fn command_words(pieces: Seq<Seq<char>>) -> Seq<Seq<char>>
    decreases pieces.len(),
{
    if pieces.len() == 0 {
        Seq::empty()
    } else {
        let rest = command_words(pieces.drop_last());
        let p = pieces.last();
        if p.len() > 0 && p[0] != '%' {
            rest.push(p)
        } else {
            rest
        }
    }
}

/// The command line with its field codes removed: its words, those that do
/// not start with `%`, joined by single spaces. A command line that is not
/// valid UTF-8 counts as empty.
pub open spec fn clean_command(commandline: Seq<u8>) -> Seq<char> {
    let text = if vstd::utf8::valid_utf8(commandline) {
        vstd::utf8::decode_utf8(commandline)
    } else {
        Seq::empty()
    };
    join_with(command_words(split_at_whitespace(text)), ' ')
}

/// An application has no command line to start.
#[derive(Debug, Clone, Copy, PartialEq, Eq, Structural)]
pub enum LaunchError {
    NoCommandLine,
}

/// Appends `word` to `out`, after a space unless `out` holds no word yet.
fn push_word(out: &mut String, word: &Vec<char>, first: bool, Ghost(words): Ghost<Seq<Seq<char>>>)
    requires
        old(out)@ == join_with(words, ' '),
        first == (words.len() == 0),
    ensures
        final(out)@ == join_with(words.push(word@), ' '),
{
    if !first {
        push_char(out, ' ');
    } else {
        assert(old(out)@ =~= Seq::<char>::empty());
    }
    let mut i: usize = 0;
    let ghost base = out@;
    while i < word.len()
        invariant
            i <= word@.len(),
            out@ == base + word@.take(i as int),
        decreases word.len() - i,
    {
        push_char(out, word[i]);
        assert(word@.take((i + 1) as int) =~= word@.take(i as int).push(word@[i as int]));
        i = i + 1;
    }
    assert(word@.take(i as int) =~= word@);
    assert(words.push(word@).drop_last() =~= words);
    if first {
        assert(out@ =~= word@);
    }
}

/// The command line with its field codes removed.
pub fn clean_command_line(commandline: &Vec<u8>) -> (r: String)
    ensures
        r@ == clean_command(commandline@),
{
    let text = match utf8_text(commandline.as_slice()) {
        Some(t) => t,
        None => String::new(),
    };
    let v = chars_of(text.as_str());
    let mut out = String::new();
    let mut word: Vec<char> = Vec::new();
    let ghost mut pieces: Seq<Seq<char>> = Seq::empty();
    let mut i: usize = 0;
    let mut first = true;
    assert(v@.take(0) =~= Seq::<char>::empty());
    assert(out@ =~= join_with(command_words(pieces), ' '));
    while i < v.len()
        invariant
            i <= v@.len(),
            split_at_whitespace(v@.take(i as int)) == pieces.push(word@),
            out@ == join_with(command_words(pieces), ' '),
            first == (command_words(pieces).len() == 0),
        decreases v.len() - i,
    {
        let c = v[i];
        let ghost prev = v@.take(i as int);
        assert(v@.take((i + 1) as int).drop_last() =~= prev);
        if char_is_whitespace(c) {
            if word.len() > 0 && word[0] != '%' {
                push_word(&mut out, &word, first, Ghost(command_words(pieces)));
                first = false;
            }
            assert(pieces.push(word@).drop_last() =~= pieces);
            proof {
                pieces = pieces.push(word@);
            }
            word = Vec::new();
            assert(split_at_whitespace(v@.take((i + 1) as int)) =~= pieces.push(word@));
        } else {
            let ghost w = word@;
            word.push(c);
            assert(split_at_whitespace(v@.take((i + 1) as int)) =~= pieces.push(word@));
        }
        i = i + 1;
    }
    assert(v@.take(i as int) =~= v@);
    if word.len() > 0 && word[0] != '%' {
        push_word(&mut out, &word, first, Ghost(command_words(pieces)));
    }
    assert(pieces.push(word@).drop_last() =~= pieces);
    out
}

/// The text that the shell runs to start the application in the background.
pub open spec fn shell_command_text(commandline: Seq<u8>) -> Seq<char> {
    clean_command(commandline) + " &"@
}

impl<H> App<H> {
    /// The text that `sh -c` runs to start the application in the
    /// background: its cleaned command line followed by ` &`.
    pub fn shell_command(&self) -> (r: Result<String, LaunchError>)
        ensures
            self.commandline is None ==> r == Err::<String, LaunchError>(LaunchError::NoCommandLine),
            self.commandline matches Some(c) ==> (r matches Ok(s) && s@ == shell_command_text(c@)),
    {
        match &self.commandline {
            None => Err(LaunchError::NoCommandLine),
            Some(c) => {
                let mut s = clean_command_line(c);
                s.append(" &");
                Ok(s)
            },
        }
    }
}

// ---------------------------------------------------------------------------
// Icons
// ---------------------------------------------------------------------------

/// The theme sizes tried for an icon, from the scalable one down.
pub open spec fn registry_icon_sizes() -> Seq<Seq<char>> {
    seq![
        "scalable"@,
        "512x512"@,
        "256x256"@,
        "128x128"@,
        "96x96"@,
        "64x64"@,
        "48x48"@,
        "32x32"@,
    ]
}

/// The extensions tried for a pixmap icon.
pub open spec fn registry_pixmap_extensions() -> Seq<Seq<char>> {
    seq!["svg"@, "png"@, "ico"@]
}

/// Where the icon named `name` is: itself, when the name is a path; else one
/// of the data files of `candidates`, the first that exists.
pub enum IconLookup {
    Direct(String),
    Search(Vec<String>),
}

/// The theme icon of the given size: SVG for the scalable size, PNG for the
/// others.
pub open spec fn theme_icon_path(size: Seq<char>, name: Seq<char>) -> Seq<char> {
    "icons/hicolor/"@ + size + "/apps/"@ + name + "."@ + (if size == "scalable"@ {
        "svg"@
    } else {
        "png"@
    })
}

/// The data files under which the icon named `name` is looked for, in order.
pub open spec fn registry_icon_candidates(name: Seq<char>) -> Seq<Seq<char>> {
    registry_icon_sizes().map_values(|size: Seq<char>| theme_icon_path(size, name))
        + registry_pixmap_extensions().map_values(
        |ext: Seq<char>| "pixmaps/"@ + name + "."@ + ext,
    )
}

/// Where the icon named `iconname` is looked for: the name itself when it
/// holds a `/` or a `\\`, else the theme and pixmap data files, in order.
pub fn icon_lookup(iconname: &str) -> (r: IconLookup)
    ensures
        (iconname@.contains('/') || iconname@.contains('\\')) ==> (r matches IconLookup::Direct(p)
            && p@ == iconname@),
        !(iconname@.contains('/') || iconname@.contains('\\')) ==> (r matches IconLookup::Search(
            c,
        ) && c@.map_values(|s: String| s@) == registry_icon_candidates(iconname@)),
{
    let v = chars_of(iconname);
    let mut k: usize = 0;
    while k < v.len()
        invariant
            v@ == iconname@,
            k <= v@.len(),
            forall|j: int| 0 <= j < k ==> v@[j] != '/' && v@[j] != '\\',
        decreases v.len() - k,
    {
        if v[k] == '/' || v[k] == '\\' {
            let mut p = String::new();
            p.append(iconname);
            return IconLookup::Direct(p);
        }
        k = k + 1;
    }
    let sizes = vec!["scalable", "512x512", "256x256", "128x128", "96x96", "64x64", "48x48", "32x32"];
    let exts = vec!["svg", "png", "ico"];
    proof {
        reveal_strlit("scalable");
        reveal_strlit("512x512");
        assert(sizes@.map_values(|s: &str| s@) =~= registry_icon_sizes());
        assert(exts@.map_values(|s: &str| s@) =~= registry_pixmap_extensions());
    }
    let mut r: Vec<String> = Vec::new();
    let mut i: usize = 0;
    while i < sizes.len()
        invariant
            i <= sizes@.len(),
            sizes@.map_values(|s: &str| s@) == registry_icon_sizes(),
            r@.map_values(|s: String| s@) == registry_icon_sizes().take(i as int).map_values(
                |size: Seq<char>| theme_icon_path(size, iconname@),
            ),
        decreases sizes.len() - i,
    {
        let ghost before = r@;
        let size = sizes[i];
        assert(size@ == registry_icon_sizes()[i as int]);
        let sv = chars_of(size);
        let scalable = sv.len() == 8 && sv[0] == 's' && sv[1] == 'c' && sv[2] == 'a' && sv[3] == 'l'
            && sv[4] == 'a' && sv[5] == 'b' && sv[6] == 'l' && sv[7] == 'e';
        proof {
            reveal_strlit("scalable");
            if scalable {
                assert(size@ =~= "scalable"@);
            }
        }
        let mut path = String::new();
        path.append("icons/hicolor/");
        path.append(size);
        path.append("/apps/");
        path.append(iconname);
        path.append(".");
        if scalable {
            path.append("svg");
        } else {
            path.append("png");
        }
        r.push(path);
        assert(registry_icon_sizes().take((i + 1) as int) =~= registry_icon_sizes().take(
            i as int,
        ).push(registry_icon_sizes()[i as int]));
        assert(r@.map_values(|s: String| s@) =~= before.map_values(|s: String| s@).push(path@));
        i = i + 1;
    }
    assert(registry_icon_sizes().take(i as int) =~= registry_icon_sizes());
    let mut j: usize = 0;
    while j < exts.len()
        invariant
            j <= exts@.len(),
            exts@.map_values(|s: &str| s@) == registry_pixmap_extensions(),
            r@.map_values(|s: String| s@) == registry_icon_sizes().map_values(
                |size: Seq<char>| theme_icon_path(size, iconname@),
            ) + registry_pixmap_extensions().take(j as int).map_values(
                |ext: Seq<char>| "pixmaps/"@ + iconname@ + "."@ + ext,
            ),
        decreases exts.len() - j,
    {
        let ghost before = r@;
        let ext = exts[j];
        assert(ext@ == registry_pixmap_extensions()[j as int]);
        let mut path = String::new();
        path.append("pixmaps/");
        path.append(iconname);
        path.append(".");
        path.append(ext);
        r.push(path);
        assert(registry_pixmap_extensions().take((j + 1) as int) =~= registry_pixmap_extensions().take(
            j as int,
        ).push(registry_pixmap_extensions()[j as int]));
        assert(r@.map_values(|s: String| s@) =~= before.map_values(|s: String| s@).push(path@));
        j = j + 1;
    }
    assert(registry_pixmap_extensions().take(j as int) =~= registry_pixmap_extensions());
    proof {
        if iconname@.contains('/') || iconname@.contains('\\') {
            let w = choose|w: int| 0 <= w < iconname@.len() && (iconname@[w] == '/' || iconname@[w] == '\\');
            assert(v@[w] != '/' && v@[w] != '\\');
        }
    }
    IconLookup::Search(r)
}

/// How an icon file of the registry is turned into an image.
#[derive(Debug, Clone, Copy, PartialEq, Eq, Structural)]
pub enum RegistryRaster {
    /// Drawn from its SVG source at 64 pixels.
    Svg,
    /// Loaded as a bitmap image.
    Bitmap,
}

/// How an icon file with the extension `extension` is loaded: SVG drawn,
/// PNG and JPEG loaded; none for other extensions.
pub fn registry_raster(extension: &str) -> (r: Option<RegistryRaster>)
    ensures
        extension@ == "svg"@ ==> r == Some(RegistryRaster::Svg),
        extension@ != "svg"@ && (extension@ == "png"@ || extension@ == "jpg"@ || extension@
            == "jpeg"@) ==> r == Some(RegistryRaster::Bitmap),
        extension@ != "svg"@ && extension@ != "png"@ && extension@ != "jpg"@ && extension@
            != "jpeg"@ ==> r is None,
{
    let v = chars_of(extension);
    assert(v@.subrange(0, v@.len() as int) =~= v@);
    if crate::text::range_eq_str(&v, 0, v.len(), "svg") {
        Some(RegistryRaster::Svg)
    } else if crate::text::range_eq_str(&v, 0, v.len(), "png") || crate::text::range_eq_str(
        &v,
        0,
        v.len(),
        "jpg",
    ) || crate::text::range_eq_str(&v, 0, v.len(), "jpeg") {
        Some(RegistryRaster::Bitmap)
    } else {
        None
    }
}

/// The icon state once loading an icon has been tried: an application
/// without an icon name, or whose icon did not load, stays empty.
pub fn icon_state_after_load<H>(icon_name: &Option<String>, loaded: Option<H>) -> (s: IconState<H>)
    ensures
        icon_name is None ==> s is Empty,
        icon_name is Some && loaded is None ==> s is Empty,
        icon_name is Some ==> (loaded matches Some(h) ==> s == IconState::Ready(h)),
{
    match icon_name {
        None => IconState::Empty,
        Some(_) => match loaded {
            Some(h) => IconState::Ready(h),
            None => IconState::Empty,
        },
    }
}

// ---------------------------------------------------------------------------
// The row of an application
// ---------------------------------------------------------------------------

/// What stands in place of an application's icon.
#[derive(Debug, Clone, Copy, PartialEq, Eq, Structural)]
pub enum IconSlot {
    /// The loaded image, at the icon size.
    Image,
    /// Room of the icon size, while the icon loads.
    Reserved,
    /// Nothing.
    Collapsed,
}

/// What the row shows at its end.
pub enum AppShortcut {
    /// The enter key, on the selected row.
    Enter,
    /// The alt shortcut of the row, such as `Alt+2`, in dimmed text.
    Text(String, TextClass),
    /// An empty text.
    Empty,
}

/// How the row of an application is dressed.
pub struct AppRow {
    pub icon: IconSlot,
    pub shortcut: AppShortcut,
    /// The favorite star shows, as a transparent button.
    pub show_mark_favorite: bool,
    pub star_active: bool,
    pub class: ButtonClass,
    /// A click on the row launches the application at this index.
    pub launch_index: usize,
}

/// The label of the alt shortcut of the row at `index`.
pub open spec fn alt_shortcut_text(index: nat) -> Seq<char> {
    "Alt+"@ + decimal_text(index + 1)
}

impl<H> App<H> {
    /// How the row of this application is dressed, at `index`, when the row
    /// at `current_index` is selected.
    pub fn entry(&self, index: usize, current_index: usize, is_favorite: bool) -> (r: AppRow)
        ensures
            r.icon == (match status_of(self.icon_state) {
                IconStatus::Ready => IconSlot::Image,
                IconStatus::Loading => IconSlot::Reserved,
                _ => IconSlot::Collapsed,
            }),
            current_index == index ==> r.shortcut is Enter,
            current_index != index && index < 5 ==> (r.shortcut matches AppShortcut::Text(t, c) && t@
                == alt_shortcut_text(index as nat) && c == TextClass::TextDim),
            current_index != index && index >= 5 ==> r.shortcut is Empty,
            r.show_mark_favorite == (current_index == index),
            r.star_active == is_favorite,
            r.class == (if current_index == index {
                ButtonClass::ItemlistSelected
            } else {
                ButtonClass::Itemlist
            }),
            r.launch_index == index,
    {
        let is_selected = current_index == index;
        let icon = match self.icon_state.status() {
            IconStatus::Ready => IconSlot::Image,
            IconStatus::Loading => IconSlot::Reserved,
            _ => IconSlot::Collapsed,
        };
        let shortcut = if is_selected {
            AppShortcut::Enter
        } else if index < 5 {
            let mut t = string_from_literal("Alt+");
            push_decimal(&mut t, index + 1);
            AppShortcut::Text(t, TextClass::TextDim)
        } else {
            AppShortcut::Empty
        };
        AppRow {
            icon,
            shortcut,
            show_mark_favorite: is_selected,
            star_active: is_favorite,
            class: if is_selected {
                ButtonClass::ItemlistSelected
            } else {
                ButtonClass::Itemlist
            },
            launch_index: index,
        }
    }
}

} // verus!
