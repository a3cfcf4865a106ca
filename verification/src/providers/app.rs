//! Installed applications as entries: the desktop entry files that describe
//! them, the command line that launches one, and where its icon is looked for.
use vstd::prelude::*;
use vstd::string::StringExecFns;
use crate::ui::entry::{Entry, EntryIcon};
use vstd::utf8::encode_utf8;
use crate::ui::icon::{icon_extension_names, icon_extensions, icon_size_names, icon_sizes, str_texts};
use crate::text::{
    chars_of, find_first_char, first_index, is_first_index, is_whitespace_char,
    lemma_first_index_unique, lemma_split_seq_after_sep, lemma_split_seq_no_sep, range_eq_str,
    range_pieces, split_once_seq, split_ranges, split_seq, string_of_range, trim_bounds, trim_seq,
    trim_start_seq, trim_end_seq,
};

verus! {

broadcast use vstd::string::group_string_axioms;

/// Installed applications as a source of entries.
pub struct AppProvider;

/// A program to start, with its arguments, as bytes.
pub struct LaunchCommand {
    pub program: Vec<u8>,
    pub args: Vec<Vec<u8>>,
}

/// The bytes of each byte string of `s`.
pub open spec fn byte_views(s: Seq<Vec<u8>>) -> Seq<Seq<u8>> {
    s.map_values(|p: Vec<u8>| p@)
}

/// A piece of a command line that is kept: not empty, and not a field code
/// such as `%U` (which starts with `%`).
pub open spec fn is_argument(p: Seq<u8>) -> bool {
    p.len() > 0 && p[0] != 37u8
}

/// The pieces that `is_argument` keeps, in order.
pub open spec fn keep_arguments(pieces: Seq<Seq<u8>>) -> Seq<Seq<u8>>
    decreases pieces.len(),
{
    if pieces.len() == 0 {
        Seq::empty()
    } else {
        let rest = keep_arguments(pieces.drop_last());
        if is_argument(pieces.last()) {
            rest.push(pieces.last())
        } else {
            rest
        }
    }
}

/// The program and arguments of a desktop entry's command line: its pieces
/// between spaces, without empty pieces and field codes.
pub open spec fn command_parts(id: Seq<u8>) -> Seq<Seq<u8>> {
    keep_arguments(split_seq(id, 32u8))
}

/// Every part of a launched command line is an argument: not empty, and not
/// a field code.
pub proof fn lemma_command_parts_are_arguments(id: Seq<u8>)
    ensures
        forall|j: int| 0 <= j < command_parts(id).len() ==> is_argument(
            #[trigger] command_parts(id)[j],
        ),
{
    lemma_keep_arguments(split_seq(id, 32u8));
}

proof fn lemma_keep_arguments(pieces: Seq<Seq<u8>>)
    ensures
        forall|j: int| 0 <= j < keep_arguments(pieces).len() ==> is_argument(
            #[trigger] keep_arguments(pieces)[j],
        ),
    decreases pieces.len(),
{
    if pieces.len() > 0 {
        let rest = keep_arguments(pieces.drop_last());
        lemma_keep_arguments(pieces.drop_last());
        assert forall|j: int| 0 <= j < keep_arguments(pieces).len() implies is_argument(
            #[trigger] keep_arguments(pieces)[j],
        ) by {
            if j < rest.len() {
                assert(keep_arguments(pieces)[j] == rest[j]);
            }
        }
    }
}

/// The launched program and arguments are exactly the pieces of the command
/// line between spaces that are not empty and do not start with `%`, in
/// order: nothing else is dropped.
pub proof fn lemma_command_parts_are_the_kept_pieces(id: Seq<u8>)
    ensures
        command_parts(id) == split_seq(id, 32u8).filter(|p: Seq<u8>| p.len() > 0 && p[0] != 37u8),
{
    lemma_keep_arguments_filters(split_seq(id, 32u8));
}

proof fn lemma_keep_arguments_filters(pieces: Seq<Seq<u8>>)
    ensures
        keep_arguments(pieces) == pieces.filter(|p: Seq<u8>| p.len() > 0 && p[0] != 37u8),
    decreases pieces.len(),
{
    reveal(Seq::filter);
    if pieces.len() > 0 {
        lemma_keep_arguments_filters(pieces.drop_last());
    }
}

/// A copy of `v[lo..hi]`.
fn bytes_of_range(v: &[u8], lo: usize, hi: usize) -> (r: Vec<u8>)
    requires
        lo <= hi <= v@.len(),
    ensures
        r@ == v@.subrange(lo as int, hi as int),
{
    let mut r: Vec<u8> = Vec::new();
    let mut i = lo;
    while i < hi
        invariant
            lo <= i <= hi <= v@.len(),
            r@ == v@.subrange(lo as int, i as int),
        decreases hi - i,
    {
        r.push(v[i]);
        assert(v@.subrange(lo as int, (i + 1) as int) =~= v@.subrange(lo as int, i as int).push(
            v@[i as int],
        ));
        i = i + 1;
    }
    r
}

/// Adds `piece` to `kept` when it is an argument.
fn keep_piece(kept: &mut Vec<Vec<u8>>, piece: Vec<u8>, Ghost(all): Ghost<Seq<Seq<u8>>>)
    requires
        byte_views(old(kept)@) == keep_arguments(all),
    ensures
        byte_views(final(kept)@) == keep_arguments(all.push(piece@)),
{
    assert(all.push(piece@).drop_last() =~= all);
    if piece.len() > 0 && piece[0] != 37u8 {
        let ghost before = kept@;
        kept.push(piece);
        assert(byte_views(kept@) =~= byte_views(before).push(piece@));
    }
}

/// The arguments of the command line `id`, in order.
pub fn command_line_parts(id: &[u8]) -> (r: Vec<Vec<u8>>)
    ensures
        byte_views(r@) == command_parts(id@),
{
    let mut kept: Vec<Vec<u8>> = Vec::new();
    let ghost mut all: Seq<Seq<u8>> = Seq::empty();
    let mut start: usize = 0;
    let mut i: usize = 0;
    assert(byte_views(kept@) =~= keep_arguments(all));
    assert(id@.subrange(0, 0) =~= Seq::<u8>::empty());
    while i < id.len()
        invariant
            start <= i <= id@.len(),
            split_seq(id@.subrange(0, i as int), 32u8) == all.push(
                id@.subrange(start as int, i as int),
            ),
            byte_views(kept@) == keep_arguments(all),
        decreases id.len() - i,
    {
        let ghost prev = id@.subrange(0, i as int);
        let ghost t = id@.subrange(0, (i + 1) as int);
        assert(t.drop_last() =~= prev);
        assert(t.last() == id@[i as int]);
        if id[i] == 32u8 {
            let piece = bytes_of_range(id, start, i);
            keep_piece(&mut kept, piece, Ghost(all));
            proof {
                all = all.push(id@.subrange(start as int, i as int));
            }
            start = i + 1;
            assert(id@.subrange(start as int, (i + 1) as int) =~= Seq::<u8>::empty());
        } else {
            assert(id@.subrange(start as int, (i + 1) as int) =~= id@.subrange(
                start as int,
                i as int,
            ).push(id@[i as int]));
            assert(split_seq(t, 32u8) =~= all.push(id@.subrange(start as int, (i + 1) as int)));
        }
        i = i + 1;
    }
    assert(id@.subrange(0, id@.len() as int) =~= id@);
    let piece = bytes_of_range(id, start, id.len());
    keep_piece(&mut kept, piece, Ghost(all));
    kept
}

// ---------------------------------------------------------------------------
// Desktop entry files
// ---------------------------------------------------------------------------

/// An application as its desktop entry describes it.
pub struct App {
    pub name: String,
    /// The `Exec` key: the command line that starts the application.
    pub command_line: String,
    pub comment: Option<String>,
    pub icon: Option<String>,
}

/// The entry that lists an application: its command line is its
/// identifier; its icon is resolved later from the name its desktop entry
/// gives, or is `default_icon` when it gives none.
pub fn app_entry<H>(app: App, default_icon: H) -> (e: Entry<H>)
    ensures
        e.id@ == encode_utf8(app.command_line@),
        e.main@ == app.name@,
        opt_text(e.secondary) == opt_text(app.comment),
        app.icon matches Some(n) ==> (e.icon matches EntryIcon::Lazy(l) && l@ == n@),
        app.icon is None ==> e.icon == EntryIcon::Handle(default_icon),
{
    let icon = match app.icon {
        Some(name) => EntryIcon::Lazy(name),
        None => EntryIcon::Handle(default_icon),
    };
    let id = string_bytes(app.command_line.as_str());
    Entry::new(id, app.name, app.comment, icon)
}

/// The bytes of the UTF-8 encoding of `s`.
fn string_bytes(s: &str) -> (b: Vec<u8>)
    ensures
        b@ == encode_utf8(s@),
{
    let bytes = s.as_bytes();
    let mut b: Vec<u8> = Vec::new();
    let mut i: usize = 0;
    while i < bytes.len()
        invariant
            bytes@ == encode_utf8(s@),
            i <= bytes@.len(),
            b@ == bytes@.take(i as int),
        decreases bytes.len() - i,
    {
        b.push(bytes[i]);
        assert(bytes@.take((i + 1) as int) =~= bytes@.take(i as int).push(bytes@[i as int]));
        i = i + 1;
    }
    assert(bytes@.take(i as int) =~= bytes@);
    b
}

/// The text of an optional string.
pub open spec fn opt_text(s: Option<String>) -> Option<Seq<char>> {
    match s {
        Some(t) => Some(t@),
        None => None,
    }
}

/// What a desktop entry says of an application, as text.
pub struct DesktopApp {
    pub name: Seq<char>,
    pub command_line: Seq<char>,
    pub comment: Option<Seq<char>>,
    pub icon: Option<Seq<char>>,
}

/// The text of an application.
pub open spec fn app_text(a: App) -> DesktopApp {
    DesktopApp { name: a.name@, command_line: a.command_line@, comment: opt_text(a.comment), icon: opt_text(a.icon) }
}

/// The text of an optional application.
pub open spec fn opt_app_text(a: Option<App>) -> Option<DesktopApp> {
    match a {
        Some(x) => Some(app_text(x)),
        None => None,
    }
}

/// Where the reading of a desktop entry stands: what was read of the
/// application, whether the lines read belong to its `[Desktop Entry]`
/// section, and which keys were seen.
pub struct DesktopScan {
    pub app: DesktopApp,
    pub in_main_section: bool,
    pub has_name: bool,
    pub has_exec: bool,
    pub has_type: bool,
    pub has_icon: bool,
    pub has_comment: bool,
}

/// Reading a line either goes on from a new standing, or ends the reading
/// with its result.
pub enum ScanStep {
    Go(DesktopScan),
    Stop(Option<DesktopApp>),
}

/// Nothing read yet.
pub open spec fn initial_scan() -> DesktopScan {
    DesktopScan {
        app: DesktopApp { name: Seq::empty(), command_line: Seq::empty(), comment: None, icon: None },
        in_main_section: false,
        has_name: false,
        has_exec: false,
        has_type: false,
        has_icon: false,
        has_comment: false,
    }
}

/// The result once the lines are read: the application, if its name, its
/// command line and its type were seen.
pub open spec fn scan_result(st: DesktopScan) -> Option<DesktopApp> {
    if st.has_name && st.has_exec && st.has_type {
        Some(st.app)
    } else {
        None
    }
}

/// After a key is read: once all five keys were seen, the reading ends with
/// the application.
pub open spec fn after_key(st: DesktopScan) -> ScanStep {
    if st.has_name && st.has_exec && st.has_type && st.has_icon && st.has_comment {
        ScanStep::Stop(Some(st.app))
    } else {
        ScanStep::Go(st)
    }
}

/// What a `key=value` line of the main section does.
pub open spec fn read_key(st: DesktopScan, key: Seq<char>, value: Seq<char>) -> ScanStep {
    if key == "Type"@ {
        if value != "Application"@ {
            ScanStep::Stop(None)
        } else {
            after_key(DesktopScan { has_type: true, ..st })
        }
    } else if key == "Hidden"@ || key == "NoDisplay"@ {
        if value == "true"@ {
            ScanStep::Stop(None)
        } else {
            after_key(st)
        }
    } else if key == "Name"@ {
        after_key(DesktopScan { app: DesktopApp { name: value, ..st.app }, has_name: true, ..st })
    } else if key == "Exec"@ {
        after_key(DesktopScan { app: DesktopApp { command_line: value, ..st.app }, has_exec: true, ..st })
    } else if key == "Icon"@ {
        after_key(
            DesktopScan { app: DesktopApp { icon: Some(value), ..st.app }, has_icon: true, ..st },
        )
    } else if key == "Comment"@ {
        after_key(
            DesktopScan {
                app: DesktopApp { comment: Some(value), ..st.app },
                has_comment: true,
                ..st
            },
        )
    } else {
        after_key(st)
    }
}

/// What reading one line does. The line is trimmed; empty lines and
/// comments are skipped. A section header opens the main section when it is
/// `[Desktop Entry]`, and ends the reading when the main section was open.
/// In the main section a line with `=` sets the key before it, both sides
/// trimmed, to the value after it; a type other than `Application`, or a
/// `Hidden` or `NoDisplay` set to `true`, rejects the entry.
pub open spec fn read_line(st: DesktopScan, raw: Seq<char>) -> ScanStep {
    let line = trim_seq(raw);
    if line.len() == 0 || line[0] == '#' {
        ScanStep::Go(st)
    } else if line[0] == '[' {
        if st.in_main_section {
            ScanStep::Stop(scan_result(st))
        } else {
            ScanStep::Go(DesktopScan { in_main_section: line == "[Desktop Entry]"@, ..st })
        }
    } else if st.in_main_section {
        match split_once_seq(line, '=') {
            Some((k, v)) => read_key(st, trim_seq(k), trim_seq(v)),
            None => ScanStep::Go(st),
        }
    } else {
        ScanStep::Go(st)
    }
}

/// The result of reading `lines` from the standing `st`.
pub open spec fn read_lines(st: DesktopScan, lines: Seq<Seq<char>>) -> Option<DesktopApp>
    decreases lines.len(),
{
    if lines.len() == 0 {
        scan_result(st)
    } else {
        match read_line(st, lines[0]) {
            ScanStep::Go(next) => read_lines(next, lines.drop_first()),
            ScanStep::Stop(r) => r,
        }
    }
}

/// The application that a desktop entry file describes, if it describes one
/// to list. The file is read line by line, a line being a piece between
/// newlines: the carriage return of a `\r\n` ending and the empty piece after
/// a final newline fall to the trimming and to the skip of empty lines.
pub open spec fn desktop_entry(content: Seq<char>) -> Option<DesktopApp> {
    read_lines(initial_scan(), split_seq(content, '\n'))
}

// ---------------------------------------------------------------------------
// What a complete desktop entry reads as
// ---------------------------------------------------------------------------

/// A value without surrounding whitespace and without a newline.
pub open spec fn is_clean_value(v: Seq<char>) -> bool {
    &&& forall|i: int| 0 <= i < v.len() ==> (#[trigger] v[i]) != '\n'
    &&& v.len() > 0 ==> !is_whitespace_char(v[0]) && !is_whitespace_char(v.last())
}

/// A key of a desktop entry line: not empty, its first character a letter
/// (neither whitespace, `#` nor `[`), and with no `=` or newline in it.
pub open spec fn is_entry_key(k: Seq<char>) -> bool {
    &&& k.len() > 0
    &&& 'A' <= k[0] && k[0] <= 'Z'
    &&& !is_whitespace_char(k.last())
    &&& forall|i: int| 0 <= i < k.len() ==> (#[trigger] k[i]) != '=' && k[i] != '\n'
}

/// The line that sets `key` to `value`.
pub open spec fn key_line(key: Seq<char>, value: Seq<char>) -> Seq<char> {
    key + seq!['='] + value
}

proof fn lemma_clean_is_trimmed(v: Seq<char>)
    requires
        v.len() == 0 || (!is_whitespace_char(v[0]) && !is_whitespace_char(v.last())),
    ensures
        trim_seq(v) == v,
{
    assert(trim_start_seq(v) == v);
    assert(trim_end_seq(v) == v);
}

proof fn lemma_read_key_line(st: DesktopScan, k: Seq<char>, v: Seq<char>)
    requires
        st.in_main_section,
        is_entry_key(k),
        is_clean_value(v),
    ensures
        read_line(st, key_line(k, v)) == read_key(st, k, v),
{
    let line = key_line(k, v);
    assert(line[0] == k[0]);
    if v.len() > 0 {
        assert(line.last() == v.last());
    } else {
        assert(line.last() == '=');
    }
    lemma_clean_is_trimmed(line);
    lemma_clean_is_trimmed(k);
    lemma_clean_is_trimmed(v);
    let n = k.len() as int;
    assert(line[n] == '=');
    assert forall|j: int| 0 <= j < n implies line[j] != '=' by {
        assert(line[j] == k[j]);
    }
    assert(is_first_index(line, '=', n));
    lemma_first_index_unique(line, '=', n);
    assert(line.subrange(0, n) =~= k);
    assert(line.subrange(n + 1, line.len() as int) =~= v);
}


/// A section header without surrounding whitespace or newline.
pub open spec fn is_header_line(h: Seq<char>) -> bool {
    &&& h.len() > 0
    &&& h[0] == '['
    &&& !is_whitespace_char(h.last())
    &&& forall|i: int| 0 <= i < h.len() ==> (#[trigger] h[i]) != '\n'
}

proof fn lemma_desktop_words()
    ensures
        "Type"@ != "Hidden"@,
        "Type"@ != "NoDisplay"@,
        "Type"@ != "Name"@,
        "Type"@ != "Exec"@,
        "Type"@ != "Icon"@,
        "Type"@ != "Comment"@,
        "Hidden"@ != "NoDisplay"@,
        "Hidden"@ != "Name"@,
        "Hidden"@ != "Exec"@,
        "Hidden"@ != "Icon"@,
        "Hidden"@ != "Comment"@,
        "NoDisplay"@ != "Name"@,
        "NoDisplay"@ != "Exec"@,
        "NoDisplay"@ != "Icon"@,
        "NoDisplay"@ != "Comment"@,
        "Name"@ != "Exec"@,
        "Name"@ != "Icon"@,
        "Name"@ != "Comment"@,
        "Exec"@ != "Icon"@,
        "Exec"@ != "Comment"@,
        "Icon"@ != "Comment"@,
        is_entry_key("Type"@),
        is_entry_key("Name"@),
        is_entry_key("Exec"@),
        is_entry_key("Icon"@),
        is_entry_key("Comment"@),
        is_clean_value("Application"@),
        "Application"@ != "true"@,
        is_header_line("[Desktop Entry]"@),
{
    reveal_strlit("Type");
    assert("Type"@.len() == 4);
    assert("Type"@[0] == 'T');
    assert("Type"@[1] == 'y');
    assert("Type"@[2] == 'p');
    assert("Type"@[3] == 'e');
    reveal_strlit("Hidden");
    assert("Hidden"@.len() == 6);
    assert("Hidden"@[0] == 'H');
    assert("Hidden"@[1] == 'i');
    assert("Hidden"@[2] == 'd');
    assert("Hidden"@[3] == 'd');
    assert("Hidden"@[4] == 'e');
    assert("Hidden"@[5] == 'n');
    reveal_strlit("NoDisplay");
    assert("NoDisplay"@.len() == 9);
    assert("NoDisplay"@[0] == 'N');
    assert("NoDisplay"@[1] == 'o');
    assert("NoDisplay"@[2] == 'D');
    assert("NoDisplay"@[3] == 'i');
    assert("NoDisplay"@[4] == 's');
    assert("NoDisplay"@[5] == 'p');
    assert("NoDisplay"@[6] == 'l');
    assert("NoDisplay"@[7] == 'a');
    assert("NoDisplay"@[8] == 'y');
    reveal_strlit("Name");
    assert("Name"@.len() == 4);
    assert("Name"@[0] == 'N');
    assert("Name"@[1] == 'a');
    assert("Name"@[2] == 'm');
    assert("Name"@[3] == 'e');
    reveal_strlit("Exec");
    assert("Exec"@.len() == 4);
    assert("Exec"@[0] == 'E');
    assert("Exec"@[1] == 'x');
    assert("Exec"@[2] == 'e');
    assert("Exec"@[3] == 'c');
    reveal_strlit("Icon");
    assert("Icon"@.len() == 4);
    assert("Icon"@[0] == 'I');
    assert("Icon"@[1] == 'c');
    assert("Icon"@[2] == 'o');
    assert("Icon"@[3] == 'n');
    reveal_strlit("Comment");
    assert("Comment"@.len() == 7);
    assert("Comment"@[0] == 'C');
    assert("Comment"@[1] == 'o');
    assert("Comment"@[2] == 'm');
    assert("Comment"@[3] == 'm');
    assert("Comment"@[4] == 'e');
    assert("Comment"@[5] == 'n');
    assert("Comment"@[6] == 't');
    reveal_strlit("Application");
    assert("Application"@.len() == 11);
    assert("Application"@[0] == 'A');
    assert("Application"@[1] == 'p');
    assert("Application"@[2] == 'p');
    assert("Application"@[3] == 'l');
    assert("Application"@[4] == 'i');
    assert("Application"@[5] == 'c');
    assert("Application"@[6] == 'a');
    assert("Application"@[7] == 't');
    assert("Application"@[8] == 'i');
    assert("Application"@[9] == 'o');
    assert("Application"@[10] == 'n');
    reveal_strlit("true");
    assert("true"@.len() == 4);
    assert("true"@[0] == 't');
    assert("true"@[1] == 'r');
    assert("true"@[2] == 'u');
    assert("true"@[3] == 'e');
    reveal_strlit("[Desktop Entry]");
    assert("[Desktop Entry]"@.len() == 15);
    assert("[Desktop Entry]"@[0] == '[');
    assert("[Desktop Entry]"@[1] == 'D');
    assert("[Desktop Entry]"@[2] == 'e');
    assert("[Desktop Entry]"@[3] == 's');
    assert("[Desktop Entry]"@[4] == 'k');
    assert("[Desktop Entry]"@[5] == 't');
    assert("[Desktop Entry]"@[6] == 'o');
    assert("[Desktop Entry]"@[7] == 'p');
    assert("[Desktop Entry]"@[8] == ' ');
    assert("[Desktop Entry]"@[9] == 'E');
    assert("[Desktop Entry]"@[10] == 'n');
    assert("[Desktop Entry]"@[11] == 't');
    assert("[Desktop Entry]"@[12] == 'r');
    assert("[Desktop Entry]"@[13] == 'y');
    assert("[Desktop Entry]"@[14] == ']');
}

/// In the main section, a `Type` other than `Application`, or a `Hidden` or
/// `NoDisplay` set to `true`, rejects the entry at once, whatever was read.
pub proof fn lemma_rejected_entries(st: DesktopScan, v: Seq<char>)
    requires
        st.in_main_section,
        is_clean_value(v),
    ensures
        v != "Application"@ ==> read_line(st, key_line("Type"@, v)) == ScanStep::Stop(None),
        v == "true"@ ==> read_line(st, key_line("Hidden"@, v)) == ScanStep::Stop(None),
        v == "true"@ ==> read_line(st, key_line("NoDisplay"@, v)) == ScanStep::Stop(None),
{
    lemma_desktop_words();
    assert(is_entry_key("Hidden"@) && is_entry_key("NoDisplay"@)) by {
        reveal_strlit("Hidden");
        reveal_strlit("NoDisplay");
        assert("Hidden"@[0] == 'H');
        assert("Hidden"@[5] == 'n');
        assert("NoDisplay"@[0] == 'N');
        assert("NoDisplay"@[8] == 'y');
        assert(forall|i: int| 0 <= i < 6 ==> "Hidden"@[i] != '=' && "Hidden"@[i] != '\n') by {
            assert("Hidden"@ =~= seq!['H', 'i', 'd', 'd', 'e', 'n']);
        }
        assert(forall|i: int| 0 <= i < 9 ==> "NoDisplay"@[i] != '=' && "NoDisplay"@[i] != '\n') by {
            assert("NoDisplay"@ =~= seq!['N', 'o', 'D', 'i', 's', 'p', 'l', 'a', 'y']);
        }
    }
    lemma_read_key_line(st, "Type"@, v);
    lemma_read_key_line(st, "Hidden"@, v);
    lemma_read_key_line(st, "NoDisplay"@, v);
}

/// The key of the `k`-th line of a complete entry: `Type`, `Name`, `Exec`,
/// `Icon`, `Comment`.
pub open spec fn entry_key(k: int) -> Seq<char> {
    if k == 0 {
        "Type"@
    } else if k == 1 {
        "Name"@
    } else if k == 2 {
        "Exec"@
    } else if k == 3 {
        "Icon"@
    } else {
        "Comment"@
    }
}

/// The value of the `k`-th line of a complete entry: `Application` for the
/// type, then the name, the command line, the icon and the comment.
pub open spec fn entry_value(
    k: int,
    name: Seq<char>,
    command: Seq<char>,
    icon: Seq<char>,
    comment: Seq<char>,
) -> Seq<char> {
    if k == 0 {
        "Application"@
    } else if k == 1 {
        name
    } else if k == 2 {
        command
    } else if k == 3 {
        icon
    } else {
        comment
    }
}

/// The `k`-th line of a complete entry.
pub open spec fn entry_line(
    k: int,
    name: Seq<char>,
    command: Seq<char>,
    icon: Seq<char>,
    comment: Seq<char>,
) -> Seq<char> {
    key_line(entry_key(k), entry_value(k, name, command, icon, comment))
}

/// `lines` after `header`, each on a line of its own.
pub open spec fn lines_text(header: Seq<char>, lines: Seq<Seq<char>>) -> Seq<char>
    decreases lines.len(),
{
    if lines.len() == 0 {
        header
    } else {
        lines_text(header, lines.drop_last()).push('\n') + lines.last()
    }
}

/// A desktop entry file made of its `[Desktop Entry]` header and the five
/// lines `Type=Application`, `Name=name`, `Exec=command`, `Icon=icon` and
/// `Comment=comment`, in the order `order` gives, each line ending with a
/// newline.
pub open spec fn complete_entry_text(
    order: Seq<int>,
    name: Seq<char>,
    command: Seq<char>,
    icon: Seq<char>,
    comment: Seq<char>,
) -> Seq<char> {
    lines_text(
        "[Desktop Entry]"@,
        Seq::new(5, |j: int| entry_line(order[j], name, command, icon, comment)),
    ).push('\n')
}

/// `order` lists 0 to 4, each once.
pub open spec fn is_order_of_five(order: Seq<int>) -> bool {
    &&& order.len() == 5
    &&& forall|j: int| 0 <= j < 5 ==> 0 <= #[trigger] order[j] < 5
    &&& forall|i: int, j: int| 0 <= i < j < 5 ==> order[i] != order[j]
}

proof fn lemma_split_lines(header: Seq<char>, lines: Seq<Seq<char>>)
    requires
        forall|i: int| 0 <= i < header.len() ==> (#[trigger] header[i]) != '\n',
        forall|j: int, i: int|
            0 <= j < lines.len() && 0 <= i < lines[j].len() ==> (#[trigger] lines[j][i]) != '\n',
    ensures
        split_seq(lines_text(header, lines), '\n') == seq![header] + lines,
    decreases lines.len(),
{
    if lines.len() == 0 {
        lemma_split_seq_no_sep(header, '\n');
        assert(seq![header] + lines =~= seq![header]);
    } else {
        lemma_split_lines(header, lines.drop_last());
        let last = lines.last();
        assert forall|i: int| 0 <= i < last.len() implies last[i] != '\n' by {
            assert(lines[lines.len() - 1][i] != '\n');
        }
        lemma_split_seq_after_sep(lines_text(header, lines.drop_last()), last, '\n');
        assert(seq![header] + lines =~= (seq![header] + lines.drop_last()).push(last));
    }
}

/// Whether the key `k` is among the first `t` keys of `order`.
spec fn seen(order: Seq<int>, t: int, k: int) -> bool
    decreases t,
{
    if t <= 0 {
        false
    } else {
        order[t - 1] == k || seen(order, t - 1, k)
    }
}

/// Where the reading stands after the header and the first `t` lines.
spec fn scan_at(
    order: Seq<int>,
    t: int,
    name: Seq<char>,
    command: Seq<char>,
    icon: Seq<char>,
    comment: Seq<char>,
) -> DesktopScan {
    DesktopScan {
        app: DesktopApp {
            name: if seen(order, t, 1) {
                name
            } else {
                Seq::empty()
            },
            command_line: if seen(order, t, 2) {
                command
            } else {
                Seq::empty()
            },
            comment: if seen(order, t, 4) {
                Some(comment)
            } else {
                None
            },
            icon: if seen(order, t, 3) {
                Some(icon)
            } else {
                None
            },
        },
        in_main_section: true,
        has_name: seen(order, t, 1),
        has_exec: seen(order, t, 2),
        has_type: seen(order, t, 0),
        has_icon: seen(order, t, 3),
        has_comment: seen(order, t, 4),
    }
}

proof fn lemma_entry_step(
    order: Seq<int>,
    t: int,
    name: Seq<char>,
    command: Seq<char>,
    icon: Seq<char>,
    comment: Seq<char>,
)
    requires
        is_order_of_five(order),
        0 <= t < 5,
        is_clean_value(name),
        is_clean_value(command),
        is_clean_value(icon),
        is_clean_value(comment),
    ensures
        read_line(
            scan_at(order, t, name, command, icon, comment),
            entry_line(order[t], name, command, icon, comment),
        ) == after_key(scan_at(order, t + 1, name, command, icon, comment)),
{
    lemma_desktop_words();
    let k = order[t];
    let st = scan_at(order, t, name, command, icon, comment);
    lemma_read_key_line(st, entry_key(k), entry_value(k, name, command, icon, comment));
    let next = scan_at(order, t + 1, name, command, icon, comment);
    assert(forall|q: int| seen(order, t + 1, q) == (order[t] == q || seen(order, t, q)));
    if k == 0 {
        assert(DesktopScan { has_type: true, ..st } == next);
    } else if k == 1 {
        assert(DesktopScan { app: DesktopApp { name: name, ..st.app }, has_name: true, ..st } == next);
    } else if k == 2 {
        assert(DesktopScan {
            app: DesktopApp { command_line: command, ..st.app },
            has_exec: true,
            ..st
        } == next);
    } else if k == 3 {
        assert(DesktopScan { app: DesktopApp { icon: Some(icon), ..st.app }, has_icon: true, ..st }
            == next);
    } else {
        assert(DesktopScan {
            app: DesktopApp { comment: Some(comment), ..st.app },
            has_comment: true,
            ..st
        } == next);
    }
}

/// A `[Desktop Entry]` section made of the lines `Type=Application`,
/// `Name=name`, `Exec=command`, `Icon=icon` and `Comment=comment`, once each
/// and in any order, reads as the application with that name, command line,
/// icon and comment: no key is left out, whichever comes last.
pub proof fn lemma_complete_entry_is_read_whole(
    order: Seq<int>,
    name: Seq<char>,
    command: Seq<char>,
    icon: Seq<char>,
    comment: Seq<char>,
)
    requires
        is_order_of_five(order),
        is_clean_value(name),
        is_clean_value(command),
        is_clean_value(icon),
        is_clean_value(comment),
    ensures
        desktop_entry(complete_entry_text(order, name, command, icon, comment)) == Some(
            DesktopApp { name, command_line: command, comment: Some(comment), icon: Some(icon) },
        ),
{
    lemma_desktop_words();
    let h = "[Desktop Entry]"@;
    let lines = Seq::new(5, |j: int| entry_line(order[j], name, command, icon, comment));
    let text = lines_text(h, lines);
    assert forall|j: int, i: int| 0 <= j < lines.len() && 0 <= i < lines[j].len() implies (
    #[trigger] lines[j][i]) != '\n' by {
        let k = order[j];
        let key = entry_key(k);
        let v = entry_value(k, name, command, icon, comment);
        assert(lines[j] == key + seq!['='] + v);
        if i < key.len() {
            assert(lines[j][i] == key[i]);
        } else if i > key.len() {
            assert(lines[j][i] == v[i - key.len() - 1]);
        }
    }
    lemma_split_lines(h, lines);
    lemma_split_seq_after_sep(text, Seq::<char>::empty(), '\n');
    assert(text.push('\n') + Seq::<char>::empty() =~= text.push('\n'));
    let all = seq![h] + lines + seq![Seq::<char>::empty()];
    assert(split_seq(text.push('\n'), '\n') =~= all);
    // The header opens the main section.
    lemma_clean_is_trimmed(h);
    reveal_with_fuel(seen, 6);
    assert(DesktopScan { in_main_section: true, ..initial_scan() } == scan_at(order, 0, name, command, icon, comment));
    assert(read_line(initial_scan(), h) == ScanStep::Go(scan_at(order, 0, name, command, icon, comment)));
    assert(all.drop_first() =~= all.subrange(1, 7));
    // Four lines in, a key is still missing; after the fifth, all are seen.
    lemma_entry_advance(order, all, 0, name, command, icon, comment);
    lemma_entry_advance(order, all, 1, name, command, icon, comment);
    lemma_entry_advance(order, all, 2, name, command, icon, comment);
    lemma_entry_advance(order, all, 3, name, command, icon, comment);
    lemma_entry_step(order, 4, name, command, icon, comment);
    let rest = all.subrange(5, 7);
    assert(rest[0] == lines[4]);
    assert(seen(order, 5, 0) && seen(order, 5, 1) && seen(order, 5, 2) && seen(order, 5, 3)
        && seen(order, 5, 4));
}

proof fn lemma_entry_advance(
    order: Seq<int>,
    all: Seq<Seq<char>>,
    t: int,
    name: Seq<char>,
    command: Seq<char>,
    icon: Seq<char>,
    comment: Seq<char>,
)
    requires
        is_order_of_five(order),
        0 <= t < 4,
        all.len() == 7,
        all[t + 1] == entry_line(order[t], name, command, icon, comment),
        is_clean_value(name),
        is_clean_value(command),
        is_clean_value(icon),
        is_clean_value(comment),
        !(seen(order, t + 1, 0) && seen(order, t + 1, 1) && seen(order, t + 1, 2) && seen(
            order,
            t + 1,
            3,
        ) && seen(order, t + 1, 4)),
    ensures
        read_lines(scan_at(order, t, name, command, icon, comment), all.subrange(t + 1, 7))
            == read_lines(scan_at(order, t + 1, name, command, icon, comment), all.subrange(t + 2, 7)),
{
    lemma_entry_step(order, t, name, command, icon, comment);
    let rest = all.subrange(t + 1, 7);
    assert(rest[0] == all[t + 1]);
    assert(rest.drop_first() =~= all.subrange(t + 2, 7));
}


/// The reader of a desktop entry: the application read so far and the keys
/// seen.
struct DesktopParser {
    app: App,
    in_main_section: bool,
    has_name: bool,
    has_exec: bool,
    has_type: bool,
    has_icon: bool,
    has_comment: bool,
}

impl DesktopParser {
    spec fn scan(self) -> DesktopScan {
        DesktopScan {
            app: app_text(self.app),
            in_main_section: self.in_main_section,
            has_name: self.has_name,
            has_exec: self.has_exec,
            has_type: self.has_type,
            has_icon: self.has_icon,
            has_comment: self.has_comment,
        }
    }

    fn new() -> (p: DesktopParser)
        ensures
            p.scan() == initial_scan(),
    {
        DesktopParser {
            app: App { name: String::new(), command_line: String::new(), comment: None, icon: None },
            in_main_section: false,
            has_name: false,
            has_exec: false,
            has_type: false,
            has_icon: false,
            has_comment: false,
        }
    }

    /// Hands out the application read so far.
    fn take_app(&mut self) -> (a: App)
        ensures
            app_text(a) == old(self).scan().app,
    {
        let mut out = App { name: String::new(), command_line: String::new(), comment: None, icon: None };
        std::mem::swap(&mut out, &mut self.app);
        out
    }

    fn result(&mut self) -> (r: Option<App>)
        ensures
            opt_app_text(r) == scan_result(old(self).scan()),
    {
        if self.has_name && self.has_exec && self.has_type {
            Some(self.take_app())
        } else {
            None
        }
    }

    fn after_key(&mut self) -> (r: Option<Option<App>>)
        ensures
            match after_key(old(self).scan()) {
                ScanStep::Go(next) => r is None && final(self).scan() == next,
                ScanStep::Stop(res) => r matches Some(x) && opt_app_text(x) == res,
            },
    {
        if self.has_name && self.has_exec && self.has_type && self.has_icon && self.has_comment {
            Some(Some(self.take_app()))
        } else {
            None
        }
    }

    /// Reads the key `v[klo..khi]` with the value `v[vlo..vhi]`.
    fn read_key(&mut self, v: &Vec<char>, klo: usize, khi: usize, vlo: usize, vhi: usize) -> (r:
        Option<Option<App>>)
        requires
            klo <= khi <= v@.len(),
            vlo <= vhi <= v@.len(),
        ensures
            match read_key(
                old(self).scan(),
                v@.subrange(klo as int, khi as int),
                v@.subrange(vlo as int, vhi as int),
            ) {
                ScanStep::Go(next) => r is None && final(self).scan() == next,
                ScanStep::Stop(res) => r matches Some(x) && opt_app_text(x) == res,
            },
    {
        if range_eq_str(v, klo, khi, "Type") {
            if !range_eq_str(v, vlo, vhi, "Application") {
                return Some(None);
            }
            self.has_type = true;
        } else if range_eq_str(v, klo, khi, "Hidden") || range_eq_str(v, klo, khi, "NoDisplay") {
            if range_eq_str(v, vlo, vhi, "true") {
                return Some(None);
            }
        } else if range_eq_str(v, klo, khi, "Name") {
            self.app.name = string_of_range(v, vlo, vhi);
            self.has_name = true;
        } else if range_eq_str(v, klo, khi, "Exec") {
            self.app.command_line = string_of_range(v, vlo, vhi);
            self.has_exec = true;
        } else if range_eq_str(v, klo, khi, "Icon") {
            self.app.icon = Some(string_of_range(v, vlo, vhi));
            self.has_icon = true;
        } else if range_eq_str(v, klo, khi, "Comment") {
            self.app.comment = Some(string_of_range(v, vlo, vhi));
            self.has_comment = true;
        }
        self.after_key()
    }

    /// Reads the line `v[lo..hi]`.
    fn read_line(&mut self, v: &Vec<char>, lo: usize, hi: usize) -> (r: Option<Option<App>>)
        requires
            lo <= hi <= v@.len(),
        ensures
            match read_line(old(self).scan(), v@.subrange(lo as int, hi as int)) {
                ScanStep::Go(next) => r is None && final(self).scan() == next,
                ScanStep::Stop(res) => r matches Some(x) && opt_app_text(x) == res,
            },
    {
        let (a, b) = trim_bounds(v, lo, hi);
        let ghost line = v@.subrange(a as int, b as int);
        if a == b || v[a] == '#' {
            return None;
        }
        assert(line[0] == v@[a as int]);
        if v[a] == '[' {
            if self.in_main_section {
                return Some(self.result());
            }
            self.in_main_section = range_eq_str(v, a, b, "[Desktop Entry]");
            return None;
        }
        if !self.in_main_section {
            return None;
        }
        match find_first_char(v, a, b, '=') {
            Some(i) => {
                assert(line.subrange(0, i - a) =~= v@.subrange(a as int, i as int));
                assert(line.subrange(i - a + 1, line.len() as int) =~= v@.subrange(
                    i + 1,
                    b as int,
                ));
                let (ka, kb) = trim_bounds(v, a, i);
                let (va, vb) = trim_bounds(v, i + 1, b);
                self.read_key(v, ka, kb, va, vb)
            },
            None => None,
        }
    }
}

/// The application that the desktop entry file `content` describes, if it
/// describes one to list.
pub fn parse_desktop_entry(content: &str) -> (r: Option<App>)
    ensures
        opt_app_text(r) == desktop_entry(content@),
{
    let v = chars_of(content);
    let ranges = split_ranges(&v, 0, v.len(), '\n');
    let ghost lines = split_seq(v@, '\n');
    assert(v@.subrange(0, v@.len() as int) =~= v@);
    let mut parser = DesktopParser::new();
    let mut j: usize = 0;
    assert(lines.subrange(0, lines.len() as int) =~= lines);
    while j < ranges.len()
        invariant
            v@ == content@,
            lines == split_seq(v@, '\n'),
            range_pieces(v@, ranges@) == lines,
            forall|q: int| 0 <= q < ranges@.len() ==> 0 <= (#[trigger] ranges@[q]).0 <= ranges@[q].1
                <= v@.len(),
            j <= ranges@.len(),
            desktop_entry(content@) == read_lines(
                parser.scan(),
                lines.subrange(j as int, lines.len() as int),
            ),
        decreases ranges.len() - j,
    {
        let (lo, hi) = ranges[j];
        let ghost rest = lines.subrange(j as int, lines.len() as int);
        assert(rest[0] == v@.subrange(lo as int, hi as int));
        assert(rest.drop_first() =~= lines.subrange(j + 1, lines.len() as int));
        match parser.read_line(&v, lo, hi) {
            Some(result) => {
                return result;
            },
            None => {},
        }
        j = j + 1;
    }
    parser.result()
}

// ---------------------------------------------------------------------------
// Icons
// ---------------------------------------------------------------------------

/// The data files under which the icon named `name` is looked for, in order:
/// the scalable theme icon, the fixed-size theme icons from the largest, then
/// the pixmaps.
pub open spec fn icon_candidates(name: Seq<char>) -> Seq<Seq<char>> {
    seq!["icons/hicolor/scalable/apps/"@ + name + ".svg"@] + icon_size_names().map_values(
        |size: Seq<char>| "icons/hicolor/"@ + size + "/apps/"@ + name + ".png"@,
    ) + icon_extension_names().map_values(|ext: Seq<char>| "pixmaps/"@ + name + "."@ + ext)
}

/// The data files under which the icon named `icon_name` is looked for, in
/// the order they are tried.
pub fn icon_lookup_paths(icon_name: &str) -> (r: Vec<String>)
    ensures
        r@.map_values(|s: String| s@) == icon_candidates(icon_name@),
{
    let mut r: Vec<String> = Vec::new();
    let mut first = String::new();
    first.append("icons/hicolor/scalable/apps/");
    first.append(icon_name);
    first.append(".svg");
    r.push(first);
    let sizes = icon_sizes();
    let mut i: usize = 0;
    while i < sizes.len()
        invariant
            i <= sizes@.len(),
            str_texts(sizes@) == icon_size_names(),
            r@.map_values(|s: String| s@) == seq!["icons/hicolor/scalable/apps/"@ + icon_name@
                + ".svg"@] + icon_size_names().take(i as int).map_values(
                |size: Seq<char>| "icons/hicolor/"@ + size + "/apps/"@ + icon_name@ + ".png"@,
            ),
        decreases sizes.len() - i,
    {
        let ghost before = r@;
        let mut path = String::new();
        path.append("icons/hicolor/");
        path.append(sizes[i]);
        path.append("/apps/");
        path.append(icon_name);
        path.append(".png");
        r.push(path);
        assert(str_texts(sizes@)[i as int] == sizes@[i as int]@);
        assert(icon_size_names().take((i + 1) as int) =~= icon_size_names().take(i as int).push(
            icon_size_names()[i as int],
        ));
        assert(r@.map_values(|s: String| s@) =~= before.map_values(|s: String| s@).push(path@));
        assert(r@.map_values(|s: String| s@) =~= seq!["icons/hicolor/scalable/apps/"@ + icon_name@
            + ".svg"@] + icon_size_names().take((i + 1) as int).map_values(
            |size: Seq<char>| "icons/hicolor/"@ + size + "/apps/"@ + icon_name@ + ".png"@,
        ));
        i = i + 1;
    }
    assert(icon_size_names().take(i as int) =~= icon_size_names());
    let extensions = icon_extensions();
    let mut j: usize = 0;
    while j < extensions.len()
        invariant
            j <= extensions@.len(),
            str_texts(extensions@) == icon_extension_names(),
            r@.map_values(|s: String| s@) == seq!["icons/hicolor/scalable/apps/"@ + icon_name@
                + ".svg"@] + icon_size_names().map_values(
                |size: Seq<char>| "icons/hicolor/"@ + size + "/apps/"@ + icon_name@ + ".png"@,
            ) + icon_extension_names().take(j as int).map_values(
                |ext: Seq<char>| "pixmaps/"@ + icon_name@ + "."@ + ext,
            ),
        decreases extensions.len() - j,
    {
        let ghost before = r@;
        let mut path = String::new();
        path.append("pixmaps/");
        path.append(icon_name);
        path.append(".");
        path.append(extensions[j]);
        r.push(path);
        assert(str_texts(extensions@)[j as int] == extensions@[j as int]@);
        assert(icon_extension_names().take((j + 1) as int) =~= icon_extension_names().take(
            j as int,
        ).push(icon_extension_names()[j as int]));
        assert(r@.map_values(|s: String| s@) =~= before.map_values(|s: String| s@).push(path@));
        j = j + 1;
    }
    assert(icon_extension_names().take(j as int) =~= icon_extension_names());
    r
}

/// How an icon file is turned into an image.
#[derive(Debug, Clone, Copy, PartialEq, Eq, Structural)]
pub enum RasterSource {
    /// Drawn from its SVG source at the icon size.
    Svg,
    /// Loaded as a PNG image.
    Png,
}

/// How an icon file with the extension `extension` is loaded; none for
/// other extensions.
pub fn raster_source(extension: &str) -> (r: Option<RasterSource>)
    ensures
        extension@ == "svg"@ ==> r == Some(RasterSource::Svg),
        extension@ != "svg"@ && extension@ == "png"@ ==> r == Some(RasterSource::Png),
        extension@ != "svg"@ && extension@ != "png"@ ==> r is None,
{
    let v = chars_of(extension);
    assert(v@.subrange(0, v@.len() as int) =~= v@);
    if range_eq_str(&v, 0, v.len(), "svg") {
        Some(RasterSource::Svg)
    } else if range_eq_str(&v, 0, v.len(), "png") {
        Some(RasterSource::Png)
    } else {
        None
    }
}

impl AppProvider {
    /// The program and arguments that launch the application whose command
    /// line is `id`; none when no argument is left.
    pub fn command(id: &[u8]) -> (r: Option<LaunchCommand>)
        ensures
            command_parts(id@).len() == 0 <==> r is None,
            r matches Some(c) ==> c.program@ == command_parts(id@)[0] && byte_views(c.args@)
                == command_parts(id@).drop_first(),
    {
        let mut parts = command_line_parts(id);
        if parts.len() == 0 {
            return None;
        }
        let ghost before = parts@;
        let program = parts.remove(0);
        assert(byte_views(parts@) =~= byte_views(before).drop_first());
        Some(LaunchCommand { program, args: parts })
    }
}

} // verus!
