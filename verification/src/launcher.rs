//! The launcher's state and how it answers each event: scans that fill the
//! list, the prompt that filters it, the keys and clicks that move the
//! selection, mark favorites and launch entries. Each answer changes the state
//! and names the outside work that the program performs next.
use vstd::prelude::*;
use crate::preferences::{texts, Preferences};
use crate::preferences::keybindings::{Action, Keystrokes};
use crate::providers::{ProviderKind, ScannerState};
use crate::text::{bytes_to_string_lossy, range_eq_str, chars_of, utf8_lossy_text};
use crate::preferences::theme::ContainerClass;
use crate::ui::entry::{
    display_entry, dressed_as, entry_favorites, entry_scores, is_last_with_id, is_ranking,
    is_truncation, truncate_with_elipsis, Entry, EntryDecorations, EntryIcon, EntryRegistry,
};

verus! {

/// `index` moved by `step` places around a list of `len` places.
pub open spec fn wrapped(index: int, len: int, step: int) -> int {
    if len <= 0 {
        0
    } else {
        (index + step) % len
    }
}

/// `index` moved by `step` places around a list of `array_len` places; 0 for
/// an empty list.
pub fn wrapped_index(index: usize, array_len: usize, step: isize) -> (r: usize)
    requires
        array_len > 0 && step >= 0 ==> index + step <= usize::MAX,
        array_len > 0 && step < 0 ==> index + array_len <= usize::MAX,
    ensures
        r == wrapped(index as int, array_len as int, step as int),
{
    if array_len == 0 {
        return 0;
    }
    if step >= 0 {
        return (index + step as usize) % array_len;
    }
    let abs_offset: usize = ((-(step + 1)) as usize) + 1;
    proof {
        let n = array_len as int;
        let a = abs_offset as int;
        assert(a == -step);
        vstd::arithmetic::div_mod::lemma_sub_mod_noop_right(index + n, a, n);
        vstd::arithmetic::div_mod::lemma_mod_add_multiples_vanish(index - a, n);
    }
    (index + array_len - (abs_offset % array_len)) % array_len
}

/// Moving one place forward and then one place back returns to the start.
pub proof fn lemma_next_then_previous(index: int, len: int)
    requires
        0 <= index < len,
    ensures
        wrapped(wrapped(index, len, 1), len, -1) == index,
{
    if index + 1 < len {
        vstd::arithmetic::div_mod::lemma_small_mod((index + 1) as nat, len as nat);
        vstd::arithmetic::div_mod::lemma_small_mod(index as nat, len as nat);
    } else {
        vstd::arithmetic::div_mod::lemma_mod_self_0(len);
        vstd::arithmetic::div_mod::lemma_mod_sub_multiples_vanish(len - 1, len);
        vstd::arithmetic::div_mod::lemma_small_mod((len - 1) as nat, len as nat);
    }
}

/// A moved selection always lands inside the list.
pub proof fn lemma_wrapped_in_range(index: int, len: int, step: int)
    requires
        len > 0,
    ensures
        0 <= wrapped(index, len, step) < len,
{
}

/// The outside work that follows an event.
pub enum Effect {
    /// Nothing more.
    Nothing,
    /// Close the launcher.
    Exit,
    /// Put the keyboard focus on the prompt.
    FocusPrompt,
    /// Scroll the list back to its top.
    ScrollToTop,
    /// Scroll the list so that the selected entry shows.
    SnapToSelected,
    /// Launch the entry with this identifier, as this provider does.
    Launch(ProviderKind, Vec<u8>),
    /// Save the favorites, in this order, into the preferences file at this
    /// path.
    SaveFavorites(Vec<u8>, Vec<String>),
    /// Filter the list now.
    FilterNow,
    /// Filter the list once the prompt has been still for a moment, unless
    /// another change comes first.
    FilterAfterDelay,
}

/// The events that the launcher answers.
pub enum Message<H> {
    /// The directory or source to scan changed.
    ContextChange,
    ScanEvent(ScannerState<H>),
    PromptChange(String),
    /// The prompt has been still long enough: filter the list.
    DebouncedFilter,
    TriggerAction(Action),
    TriggerActionByKeybinding(Keystrokes),
    IconResolved { id: Vec<u8>, handle: H },
    HoveredEntry(usize),
    HoveredExit(usize),
}

/// The launcher's state.
pub struct Lucien<H> {
    pub entry_registry: EntryRegistry<H>,
    pub is_scan_completed: bool,
    pub provider: ProviderKind,
    pub prompt: String,
    pub preferences: Preferences,
    pub selected_entry: usize,
    pub hovered_entry: usize,
}

/// The same state with another selection.
pub open spec fn with_selection<H>(s: Lucien<H>, selected: int) -> Lucien<H> {
    Lucien { selected_entry: selected as usize, ..s }
}

/// What moving the selection by `step` does: around the listed entries, with
/// a scroll when the selection changed; nothing when no entry is listed.
pub open spec fn went_to_entry<H>(before: Lucien<H>, after: Lucien<H>, step: int, r: Effect) -> bool {
    let total = before.entry_registry.projection().len();
    if total == 0 {
        after == before && r is Nothing
    } else {
        let sel = wrapped(before.selected_entry as int, total as int, step);
        &&& after == with_selection(before, sel)
        &&& (sel != before.selected_entry ==> r is SnapToSelected)
        &&& (sel == before.selected_entry ==> r is Nothing)
    }
}

/// The text by which an entry is found among the favorites.
pub open spec fn favorite_key<H>(e: Entry<H>) -> Seq<char> {
    utf8_lossy_text(e.id@)
}

/// `set` with `t` added, or removed when it was there.
pub open spec fn toggled(set: Set<Seq<char>>, t: Seq<char>) -> Set<Seq<char>> {
    if set.contains(t) {
        set.remove(t)
    } else {
        set.insert(t)
    }
}

/// Toggling the same entry twice gives back the favorites there were.
pub proof fn lemma_toggle_twice(set: Set<Seq<char>>, t: Seq<char>)
    ensures
        toggled(toggled(set, t), t) == set,
{
    if set.contains(t) {
        assert(set.remove(t).insert(t) =~= set);
    } else {
        assert(set.insert(t).remove(t) =~= set);
    }
}

/// What toggling the favorite of the entry listed at `index` does. Without a
/// preferences file, or without an entry there, nothing. Otherwise the entry
/// joins or leaves the favorites, the list is ranked again with the same
/// prompt, and the favorites are saved.
pub open spec fn toggled_favorite<H>(before: Lucien<H>, after: Lucien<H>, index: int, r: Effect) -> bool {
    let vis = before.entry_registry.projection();
    let entries = before.entry_registry.entries();
    if 0 <= index < vis.len() && before.preferences.path is Some {
        let e = entries[vis[index] as int];
        let set = after.preferences.favorite_apps.set();
        &&& set == toggled(before.preferences.favorite_apps.set(), favorite_key(e))
        &&& after.preferences.path == before.preferences.path
        &&& after.preferences.keybindings == before.preferences.keybindings
        &&& after.preferences.leading_icon_count == before.preferences.leading_icon_count
        &&& after.entry_registry.entries() == entries
        &&& is_ranking(
            entry_scores(entries, before.prompt@),
            entry_favorites(entries, set),
            after.entry_registry.projection(),
        )
        &&& after.selected_entry == before.selected_entry
        &&& after.hovered_entry == before.hovered_entry
        &&& after.prompt == before.prompt
        &&& after.provider == before.provider
        &&& after.is_scan_completed == before.is_scan_completed
        &&& r matches Effect::SaveFavorites(p, a)
        &&& p@ == before.preferences.path->0@
        &&& texts(a@) == after.preferences.favorite_apps.listing()
    } else {
        after == before && r is Nothing
    }
}

/// What launching the entry listed at `index` does: the provider launches
/// its identifier; nothing when no entry is listed there.
pub open spec fn launched<H>(s: Lucien<H>, index: int, r: Effect) -> bool {
    let vis = s.entry_registry.projection();
    if 0 <= index < vis.len() {
        r matches Effect::Launch(p, id) && p == s.provider && id@ == s.entry_registry.entries()[vis[index] as int].id@
    } else {
        r is Nothing
    }
}

/// What an action does.
pub open spec fn action_outcome<H>(before: Lucien<H>, after: Lucien<H>, action: Action, r: Effect) -> bool {
    match action {
        Action::Close => after == before && r is Exit,
        Action::NextEntry => went_to_entry(before, after, 1, r),
        Action::PreviousEntry => went_to_entry(before, after, -1, r),
        Action::ToggleFavorite => toggled_favorite(before, after, before.selected_entry as int, r),
        Action::LaunchEntry(i) => after == before && launched(before, i as int, r),
    }
}

/// The action moves the selection.
pub open spec fn moves_selection(action: Action) -> bool {
    action is NextEntry || action is PreviousEntry
}

/// The selection plus the number of listed entries fits in a `usize`.
pub open spec fn selection_fits<H>(s: Lucien<H>) -> bool {
    s.selected_entry + s.entry_registry.projection().len() <= usize::MAX
}

/// The event triggers an action that moves the selection.
pub open spec fn message_moves_selection<H>(s: Lucien<H>, message: Message<H>) -> bool {
    match message {
        Message::TriggerAction(a) => moves_selection(a),
        Message::TriggerActionByKeybinding(k) => s.preferences.keybindings@.contains_key(k)
            && moves_selection(s.preferences.keybindings@[k]),
        _ => false,
    }
}

/// The preferences, the provider and the hovered entry are as before.
pub open spec fn same_view<H>(before: Lucien<H>, after: Lucien<H>) -> bool {
    &&& after.preferences == before.preferences
    &&& after.provider == before.provider
    &&& after.hovered_entry == before.hovered_entry
}

/// The entry is one of the favorites.
pub open spec fn is_favorite_in<H>(prefs: Preferences, e: Entry<H>) -> bool {
    prefs.favorite_apps.set().contains(favorite_key(e))
}

/// An entry as the list shows it.
pub struct ListedEntry<'a, H> {
    /// Its place in the list.
    pub index: usize,
    pub entry: &'a Entry<H>,
    /// It is listed in the favorites' section rather than the general one.
    pub starred: bool,
    pub decorations: EntryDecorations,
    /// Its secondary text, cut to the room there is.
    pub secondary: Option<String>,
}

/// What the launcher's window shows.
pub struct ViewPlan<'a, H> {
    /// The list is split in a favorites' section and a general one, each
    /// under its title.
    pub show_sections: bool,
    pub rows: Vec<ListedEntry<'a, H>>,
    /// The notice that nothing matches shows.
    pub show_no_results: bool,
    /// The list, and the rule above it, show.
    pub show_results: bool,
    /// The indicator of the file provider is lit.
    pub folder_active: bool,
    /// Submitting the prompt launches the entry at this place.
    pub submit_index: usize,
    pub container: ContainerClass,
}

/// The room for an entry's secondary text, in bytes.
pub open spec fn secondary_room() -> nat {
    95
}

/// `row` shows the entry listed at place `p` of the state `s`.
pub open spec fn row_planned<H>(s: Lucien<H>, p: int, row: ListedEntry<'_, H>) -> bool {
    let e = s.entry_registry.entries()[s.entry_registry.projection()[p] as int];
    let fav = is_favorite_in(s.preferences, e);
    &&& row.index == p
    &&& *row.entry == e
    &&& row.starred == (fav && s.prompt@.len() == 0)
    &&& dressed_as(row.decorations, p as nat, s.selected_entry == p, s.hovered_entry == p, fav)
    &&& match e.secondary {
        None => row.secondary is None,
        Some(t) => row.secondary matches Some(x) && is_truncation(t@, secondary_room(), x@),
    }
}

/// What answering `message` in the state `before` does: the state `after`
/// and the outside work `r`.
pub open spec fn answered<H>(before: Lucien<H>, message: Message<H>, after: Lucien<H>, r: Effect) -> bool {
    match message {
        Message::ContextChange => {
            &&& after.entry_registry.entries().len() == 0
            &&& after.entry_registry.projection().len() == 0
            &&& after.selected_entry == 0
            &&& after.prompt@.len() == 0
            &&& after.is_scan_completed == before.is_scan_completed
            &&& same_view(before, after)
            &&& r is ScrollToTop
        },
        Message::ScanEvent(ScannerState::Started) => {
            &&& after.entry_registry.entries().len() == 0
            &&& after.entry_registry.projection().len() == 0
            &&& after.selected_entry == 0
            &&& after.prompt@.len() == 0
            &&& !after.is_scan_completed
            &&& same_view(before, after)
            &&& r is FocusPrompt
        },
        Message::ScanEvent(ScannerState::Found(batch)) => {
            let base = before.entry_registry.entries().len();
            &&& after.entry_registry.entries() == before.entry_registry.entries()
                + batch@
            &&& after.entry_registry.projection() == before.entry_registry.projection() + Seq::new(
                batch@.len(),
                |k: int| (base + k) as usize,
            )
            &&& after.selected_entry == before.selected_entry
            &&& after.prompt == before.prompt
            &&& after.is_scan_completed == before.is_scan_completed
            &&& same_view(before, after)
            &&& r is Nothing
        },
        Message::ScanEvent(ScannerState::Finished) => {
            &&& after == Lucien { is_scan_completed: true, ..before }
            &&& r is Nothing
        },
        Message::ScanEvent(ScannerState::Errored(_, _)) => {
            &&& after == before
            &&& r is Nothing
        },
        Message::IconResolved { id, handle } => {
            let entries = before.entry_registry.entries();
            &&& (exists|i: int| is_last_with_id(entries, id@, i))
                ==> (exists|i: int| is_last_with_id(entries, id@, i)
                && after.entry_registry.entries() == entries.update(
                i,
                Entry { icon: EntryIcon::Handle(handle), ..entries[i] },
            ))
            &&& !(exists|i: int| is_last_with_id(entries, id@, i))
                ==> after.entry_registry.entries() == entries
            &&& after.entry_registry.projection() == before.entry_registry.projection()
            &&& after.selected_entry == before.selected_entry
            &&& after.prompt == before.prompt
            &&& after.is_scan_completed == before.is_scan_completed
            &&& same_view(before, after)
            &&& r is Nothing
        },
        Message::TriggerAction(action) => action_outcome(
            before,
            after,
            action,
            r,
        ),
        Message::TriggerActionByKeybinding(k) => {
            let bindings = before.preferences.keybindings@;
            &&& bindings.contains_key(k) ==> action_outcome(
                before,
                after,
                bindings[k],
                r,
            )
            &&& !bindings.contains_key(k) ==> after == before && r is Nothing
        },
        Message::PromptChange(p) => {
            &&& after.entry_registry == before.entry_registry
            &&& after.selected_entry == before.selected_entry
            &&& after.hovered_entry == before.hovered_entry
            &&& after.is_scan_completed == before.is_scan_completed
            &&& after.preferences == before.preferences
            &&& p@.len() == 0 ==> r is FilterNow && after.prompt@ == p@
                && after.provider == before.provider
            &&& p@ == "@"@ ==> r is FilterAfterDelay && after.prompt@.len() == 0
                && after.provider == ProviderKind::App
            &&& p@ == "/"@ ==> r is FilterAfterDelay && after.prompt@.len() == 0
                && after.provider == ProviderKind::File
            &&& p@.len() > 0 && p@ != "@"@ && p@ != "/"@ ==> r is FilterAfterDelay
                && after.prompt@ == p@ && after.provider == before.provider
        },
        Message::DebouncedFilter => {
            let entries = before.entry_registry.entries();
            &&& after.entry_registry.entries() == entries
            &&& is_ranking(
                entry_scores(entries, before.prompt@),
                entry_favorites(entries, before.preferences.favorite_apps.set()),
                after.entry_registry.projection(),
            )
            &&& after.selected_entry == 0
            &&& after.prompt == before.prompt
            &&& after.is_scan_completed == before.is_scan_completed
            &&& same_view(before, after)
            &&& r is ScrollToTop
        },
        Message::HoveredEntry(i) => {
            &&& after == Lucien { hovered_entry: i, ..before }
            &&& r is Nothing
        },
        Message::HoveredExit(i) => {
            &&& before.hovered_entry == i ==> after == Lucien {
                hovered_entry: before.selected_entry,
                ..before
            }
            &&& before.hovered_entry != i ==> after == before
            &&& r is Nothing
        },
    }
}

/// A keystroke bound to an action is answered exactly as that action is, and
/// asks for the same room in the selection's arithmetic; an unbound
/// keystroke changes nothing and asks for nothing.
pub proof fn lemma_keybinding_answers_as_its_action<H>(
    before: Lucien<H>,
    k: Keystrokes,
    after: Lucien<H>,
    r: Effect,
)
    ensures
        before.preferences.keybindings@.contains_key(k) ==> (answered(
            before,
            Message::TriggerActionByKeybinding(k),
            after,
            r,
        ) == answered(
            before,
            Message::TriggerAction(before.preferences.keybindings@[k]),
            after,
            r,
        )),
        before.preferences.keybindings@.contains_key(k) ==> (message_moves_selection(
            before,
            Message::<H>::TriggerActionByKeybinding(k),
        ) == message_moves_selection(
            before,
            Message::<H>::TriggerAction(before.preferences.keybindings@[k]),
        )),
        !before.preferences.keybindings@.contains_key(k) ==> (answered(
            before,
            Message::TriggerActionByKeybinding(k),
            after,
            r,
        ) == (after == before && r is Nothing)),
{
}

impl<H> Lucien<H> {
    /// What the window shows: the prompt, then the listed entries, each
    /// dressed for its place, split in sections when the prompt is empty and
    /// there are favorites; the notice that nothing matches once a scan that
    /// found nothing has finished.
    pub fn view_plan(&self) -> (v: ViewPlan<'_, H>)
        ensures
            v.show_sections == (self.prompt@.len() == 0 && self.preferences.favorite_apps.set()
                != Set::<Seq<char>>::empty()),
            v.rows@.len() == self.entry_registry.projection().len(),
            forall|p: int| 0 <= p < v.rows@.len() ==> row_planned(*self, p, #[trigger] v.rows@[p]),
            v.show_no_results == (self.entry_registry.projection().len() == 0
                && self.is_scan_completed),
            v.show_results == (self.entry_registry.entries().len() > 0 || self.is_scan_completed),
            v.folder_active == (self.provider == ProviderKind::File),
            v.submit_index == self.selected_entry,
            v.container == ContainerClass::MainContainer,
    {
        let prompt_empty = self.prompt.as_str().is_empty();
        let show_sections = prompt_empty && !self.preferences.favorite_apps.is_empty();
        let visible = self.entry_registry.iter_visible();
        let mut rows: Vec<ListedEntry<'_, H>> = Vec::new();
        let mut p: usize = 0;
        while p < visible.len()
            invariant
                p <= visible@.len(),
                prompt_empty == (self.prompt@.len() == 0),
                visible@.len() == self.entry_registry.projection().len(),
                forall|q: int| 0 <= q < visible@.len() ==> *(#[trigger] visible@[q])
                    == self.entry_registry.entries()[self.entry_registry.projection()[q] as int],
                rows@.len() == p,
                forall|q: int| 0 <= q < p ==> row_planned(*self, q, #[trigger] rows@[q]),
            decreases visible.len() - p,
        {
            let entry = visible[p];
            let key = bytes_to_string_lossy(entry.id.as_slice());
            let fav = self.preferences.favorite_apps.contains(&key);
            let decorations = display_entry(
                p,
                self.selected_entry == p,
                self.hovered_entry == p,
                fav,
            );
            let secondary = match &entry.secondary {
                Some(t) => Some(truncate_with_elipsis(t.as_str(), 95)),
                None => None,
            };
            rows.push(ListedEntry { index: p, entry, starred: fav && prompt_empty, decorations, secondary });
            p = p + 1;
        }
        ViewPlan {
            show_sections,
            rows,
            show_no_results: self.entry_registry.is_visibles_empty() && self.is_scan_completed,
            show_results: !self.entry_registry.is_empty() || self.is_scan_completed,
            folder_active: self.provider == ProviderKind::File,
            submit_index: self.selected_entry,
            container: ContainerClass::MainContainer,
        }
    }

    /// A launcher listing applications, with nothing scanned yet.
    pub fn new(preferences: Preferences) -> (s: Lucien<H>)
        ensures
            s.entry_registry.entries().len() == 0,
            s.entry_registry.projection().len() == 0,
            !s.is_scan_completed,
            s.provider == ProviderKind::App,
            s.prompt@.len() == 0,
            s.preferences == preferences,
            s.selected_entry == 0,
            s.hovered_entry == 0,
    {
        Lucien {
            entry_registry: EntryRegistry::new(),
            is_scan_completed: false,
            provider: ProviderKind::App,
            prompt: String::new(),
            preferences,
            selected_entry: 0,
            hovered_entry: 0,
        }
    }

    fn go_to_entry(&mut self, step: isize) -> (r: Effect)
        requires
            step == 1 || step == -1,
            selection_fits(*old(self)),
        ensures
            went_to_entry(*old(self), *final(self), step as int, r),
    {
        let total = self.entry_registry.visible_len();
        if total == 0 {
            return Effect::Nothing;
        }
        let old_pos = self.selected_entry;
        self.selected_entry = wrapped_index(self.selected_entry, total, step);
        if old_pos != self.selected_entry {
            Effect::SnapToSelected
        } else {
            Effect::Nothing
        }
    }

    fn toggle_favorite(&mut self, index: usize) -> (r: Effect)
        ensures
            toggled_favorite(*old(self), *final(self), index as int, r),
    {
        let id = match self.entry_registry.get_visible_by_index(index) {
            Some(entry) => entry.id.clone(),
            None => return Effect::Nothing,
        };
        let path = match &self.preferences.path {
            Some(p) => p.clone(),
            None => return Effect::Nothing,
        };
        let id_text = bytes_to_string_lossy(id.as_slice());
        self.preferences.toggle_favorite(id_text);
        self.entry_registry.sort_by_rank(&self.preferences, self.prompt.as_str());
        Effect::SaveFavorites(path, self.preferences.favorite_apps.to_vec())
    }

    fn launch_entry(&self, index: usize) -> (r: Effect)
        ensures
            launched(*self, index as int, r),
    {
        match self.entry_registry.get_visible_by_index(index) {
            Some(entry) => Effect::Launch(self.provider, entry.id.clone()),
            None => Effect::Nothing,
        }
    }

    fn handle_action(&mut self, action: Action) -> (r: Effect)
        requires
            moves_selection(action) ==> selection_fits(*old(self)),
        ensures
            action_outcome(*old(self), *final(self), action, r),
    {
        match action {
            Action::Close => Effect::Exit,
            Action::NextEntry => self.go_to_entry(1),
            Action::PreviousEntry => self.go_to_entry(-1),
            Action::ToggleFavorite => {
                let selected = self.selected_entry;
                self.toggle_favorite(selected)
            },
            Action::LaunchEntry(index) => self.launch_entry(index),
        }
    }

    /// Answers a new prompt: the prompt `@` switches to the applications and
    /// `/` to the files, each leaving the prompt empty; an empty prompt
    /// filters at once, any other after a short delay.
    fn prompt_change(&mut self, prompt: String) -> (r: Effect)
        ensures
            final(self).entry_registry == old(self).entry_registry,
            final(self).selected_entry == old(self).selected_entry,
            final(self).hovered_entry == old(self).hovered_entry,
            final(self).is_scan_completed == old(self).is_scan_completed,
            final(self).preferences == old(self).preferences,
            prompt@.len() == 0 ==> r is FilterNow && final(self).prompt@ == prompt@
                && final(self).provider == old(self).provider,
            prompt@ == "@"@ ==> r is FilterAfterDelay && final(self).prompt@.len() == 0
                && final(self).provider == ProviderKind::App,
            prompt@ == "/"@ ==> r is FilterAfterDelay && final(self).prompt@.len() == 0
                && final(self).provider == ProviderKind::File,
            prompt@.len() > 0 && prompt@ != "@"@ && prompt@ != "/"@ ==> r is FilterAfterDelay
                && final(self).prompt@ == prompt@ && final(self).provider == old(self).provider,
    {
        proof {
            reveal_strlit("@");
            reveal_strlit("/");
            assert("@"@[0] != "/"@[0]);
        }
        let v = chars_of(prompt.as_str());
        assert(v@.subrange(0, v@.len() as int) =~= v@);
        self.prompt = prompt;
        if v.len() == 0 {
            return Effect::FilterNow;
        }
        if range_eq_str(&v, 0, v.len(), "@") {
            self.prompt = String::new();
            self.provider = ProviderKind::App;
        } else if range_eq_str(&v, 0, v.len(), "/") {
            self.prompt = String::new();
            self.provider = ProviderKind::File;
        }
        Effect::FilterAfterDelay
    }

    /// Answers an event: changes the state and names the outside work that
    /// follows.
    pub fn update(&mut self, message: Message<H>) -> (r: Effect)
        requires
            message_moves_selection(*old(self), message) ==> selection_fits(*old(self)),
        ensures
            answered(*old(self), message, *final(self), r),
    {
        match message {
            Message::ContextChange => {
                self.entry_registry.clear();
                self.selected_entry = 0;
                self.prompt = String::new();
                Effect::ScrollToTop
            },
            Message::ScanEvent(scan_event) => match scan_event {
                ScannerState::Started => {
                    self.prompt = String::new();
                    self.selected_entry = 0;
                    self.entry_registry.clear();
                    self.is_scan_completed = false;
                    Effect::FocusPrompt
                },
                ScannerState::Found(batch) => {
                    self.entry_registry.extend(batch);
                    Effect::Nothing
                },
                ScannerState::Finished => {
                    self.is_scan_completed = true;
                    Effect::Nothing
                },
                ScannerState::Errored(_, _) => Effect::Nothing,
            },
            Message::IconResolved { id, handle } => {
                self.entry_registry.set_icon_by_id(&id, EntryIcon::Handle(handle));
                Effect::Nothing
            },
            Message::TriggerAction(action) => self.handle_action(action),
            Message::TriggerActionByKeybinding(keystrokes) => {
                match self.preferences.keybindings.get(&keystrokes) {
                    Some(action) => self.handle_action(action),
                    None => Effect::Nothing,
                }
            },
            Message::PromptChange(prompt) => self.prompt_change(prompt),
            Message::DebouncedFilter => {
                self.selected_entry = 0;
                self.entry_registry.sort_by_rank(&self.preferences, self.prompt.as_str());
                Effect::ScrollToTop
            },
            Message::HoveredEntry(index) => {
                self.hovered_entry = index;
                Effect::Nothing
            },
            Message::HoveredExit(index) => {
                if self.hovered_entry == index {
                    self.hovered_entry = self.selected_entry;
                }
                Effect::Nothing
            },
        }
    }
}

} // verus!
