# lucien

A keyboard-driven application launcher for the Linux desktop: type to filter
the installed applications (or, after `/`, the files of a directory), move
with the keyboard, mark favorites, and launch.

The launcher's logic is a library verified with Verus; the window, the file
system and the processes are handled by a thin program around it.

## Layout

- `src/` — the verified library.
  - `launcher.rs`: the launcher's state, how it answers each event, and the
    view plan that says what the window shows.
  - `ui/entry.rs`: the entries, the registry that ranks the visible ones,
    and how a listed entry is dressed; `ui/icon.rs`: icon sizes and
    extensions.
  - `providers/`: the sources of entries — the batching scanner and launch
    plans (`mod.rs`), desktop entry files, command lines and icon lookup
    (`app.rs`), files and their kinds (`file.rs`).
  - `preferences/`: favorites, keybindings and their text forms, style
    classes, and the update of the preferences file's text.
  - `hotkeys.rs`: a keybinding table keyed by action, with exact key-event
    matching.
  - `app_info.rs`: applications of the desktop's application registry: shell
    commands, icon lookup and row dressing.
  - `text.rs`: the character-level helpers the parsers share.
- `tests/` — tests of the library's public functions.
- `app/` — the iced program: window, theme, scanning, icons, processes.
