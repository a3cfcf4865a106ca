//! A keybinding table keyed by action: each action has one keystroke, made
//! of a key and the set of modifiers that must be held, and a key event
//! triggers the action when it matches that keystroke exactly.
use vstd::prelude::*;
use crate::preferences::keybindings::{HeldModifiers, NamedKey, PressedKey};
use crate::text::chars_of;

verus! {

/// A modifier key.
#[derive(Debug, Clone, Copy, Hash, PartialEq, Eq, Structural)]
pub enum Modifier {
    Alt,
    Shift,
    Control,
    Super,
}

/// A key of a keystroke.
#[derive(Debug, Clone, Copy, PartialEq, Eq, Structural)]
pub enum Key {
    Tab,
    Escape,
    Char(char),
}

/// The actions of the table.
#[derive(Debug, Hash, Eq, PartialEq, Copy, Clone, Structural)]
pub enum Action {
    Mark,
    Exit,
    GoNextEntry,
    GoPreviousEntry,
}

/// A set of modifier keys.
#[derive(Debug, Clone, Copy, PartialEq, Eq, Structural)]
pub struct ModifierSet {
    pub alt: bool,
    pub shift: bool,
    pub control: bool,
    pub super_key: bool,
}

impl ModifierSet {
    /// Whether `m` belongs to the set.
    pub open spec fn has(self, m: Modifier) -> bool {
        match m {
            Modifier::Alt => self.alt,
            Modifier::Shift => self.shift,
            Modifier::Control => self.control,
            Modifier::Super => self.super_key,
        }
    }

    /// The set of the modifiers listed in `mods`.
    pub fn from_slice(mods: &[Modifier]) -> (s: ModifierSet)
        ensures
            forall|m: Modifier| s.has(m) <==> mods@.contains(m),
    {
        let mut s = ModifierSet { alt: false, shift: false, control: false, super_key: false };
        let mut i: usize = 0;
        while i < mods.len()
            invariant
                i <= mods@.len(),
                forall|m: Modifier| s.has(m) <==> mods@.take(i as int).contains(m),
            decreases mods.len() - i,
        {
            let ghost before = s;
            match mods[i] {
                Modifier::Alt => s.alt = true,
                Modifier::Shift => s.shift = true,
                Modifier::Control => s.control = true,
                Modifier::Super => s.super_key = true,
            }
            let ghost prefix = mods@.take(i as int);
            assert(mods@.take((i + 1) as int) =~= prefix.push(mods@[i as int]));
            assert forall|m: Modifier| prefix.push(mods@[i as int]).contains(m) <==> (
            prefix.contains(m) || m == mods@[i as int]) by {
                if prefix.contains(m) {
                    let w = choose|w: int| 0 <= w < prefix.len() && prefix[w] == m;
                    assert(prefix.push(mods@[i as int])[w] == m);
                }
                if m == mods@[i as int] {
                    assert(prefix.push(mods@[i as int])[i as int] == m);
                }
                if prefix.push(mods@[i as int]).contains(m) && m != mods@[i as int] {
                    let w = choose|w: int|
                        0 <= w < prefix.len() + 1 && prefix.push(mods@[i as int])[w] == m;
                    assert(prefix[w] == m);
                }
            }
            assert forall|m: Modifier| s.has(m) <==> mods@.take((i + 1) as int).contains(m) by {
                assert(before.has(m) <==> prefix.contains(m));
            }
            i = i + 1;
        }
        assert(mods@.take(i as int) =~= mods@);
        s
    }

    /// Whether `m` belongs to the set.
    pub fn contains(&self, m: &Modifier) -> (r: bool)
        ensures
            r == self.has(*m),
    {
        match m {
            Modifier::Alt => self.alt,
            Modifier::Shift => self.shift,
            Modifier::Control => self.control,
            Modifier::Super => self.super_key,
        }
    }
}

/// A key and the modifiers that must be held with it.
#[derive(Debug, Clone, Copy, PartialEq, Eq, Structural)]
pub struct Keystrokes {
    pub key: Key,
    pub modifiers: ModifierSet,
}

/// The key event with the pressed key `key` and the held modifiers `held`
/// triggers `k`: the same modifiers are held, and the key is the same tab,
/// escape, or a character key whose text is exactly the character of `k`.
pub open spec fn key_event_matches(k: Keystrokes, key: PressedKey, held: HeldModifiers) -> bool {
    &&& held.alt == k.modifiers.has(Modifier::Alt)
    &&& held.shift == k.modifiers.has(Modifier::Shift)
    &&& held.control == k.modifiers.has(Modifier::Control)
    &&& held.logo == k.modifiers.has(Modifier::Super)
    &&& match key {
        PressedKey::Named(NamedKey::Tab) => k.key is Tab,
        PressedKey::Named(NamedKey::Escape) => k.key is Escape,
        PressedKey::Character(s) => k.key matches Key::Char(d) && s@ == seq![d],
        _ => false,
    }
}

impl Keystrokes {
    /// Whether the key event with the pressed key `key` and the held
    /// modifiers `held` triggers this keystroke.
    pub fn matches(&self, key: &PressedKey, held: HeldModifiers) -> (r: bool)
        ensures
            r == key_event_matches(*self, *key, held),
    {
        let alt = held.alt == self.modifiers.contains(&Modifier::Alt);
        let shift = held.shift == self.modifiers.contains(&Modifier::Shift);
        let control = held.control == self.modifiers.contains(&Modifier::Control);
        let logo = held.logo == self.modifiers.contains(&Modifier::Super);
        if !(alt && shift && control && logo) {
            return false;
        }
        match key {
            PressedKey::Named(NamedKey::Tab) => matches!(self.key, Key::Tab),
            PressedKey::Named(NamedKey::Escape) => matches!(self.key, Key::Escape),
            PressedKey::Character(s) => match self.key {
                Key::Char(d) => {
                    let v = chars_of(s.as_str());
                    let r = v.len() == 1 && v[0] == d;
                    proof {
                        if r {
                            assert(s@ =~= seq![d]);
                        }
                    }
                    r
                },
                _ => false,
            },
            _ => false,
        }
    }
}

/// A table that gives each action at most one keystroke.
pub struct ActionKeybindings {
    entries: Vec<(Action, Keystrokes)>,
}

/// The table that a list of pairs makes, a later pair replacing an earlier
/// one for the same action.
pub open spec fn action_map(s: Seq<(Action, Keystrokes)>) -> Map<Action, Keystrokes>
    decreases s.len(),
{
    if s.len() == 0 {
        Map::empty()
    } else {
        action_map(s.drop_last()).insert(s.last().0, s.last().1)
    }
}

impl View for ActionKeybindings {
    type V = Map<Action, Keystrokes>;

    closed spec fn view(&self) -> Map<Action, Keystrokes> {
        action_map(self.entries@)
    }
}

proof fn lemma_action_map_absent(s: Seq<(Action, Keystrokes)>, a: Action)
    requires
        forall|j: int| 0 <= j < s.len() ==> s[j].0 != a,
    ensures
        !action_map(s).contains_key(a),
    decreases s.len(),
{
    if s.len() > 0 {
        lemma_action_map_absent(s.drop_last(), a);
    }
}

proof fn lemma_action_map_last(s: Seq<(Action, Keystrokes)>, i: int)
    requires
        0 <= i < s.len(),
        forall|j: int| i < j < s.len() ==> s[j].0 != s[i].0,
    ensures
        action_map(s).contains_key(s[i].0),
        action_map(s)[s[i].0] == s[i].1,
    decreases s.len(),
{
    if i < s.len() - 1 {
        lemma_action_map_last(s.drop_last(), i);
    }
}

impl ActionKeybindings {
    /// An empty table.
    pub fn new() -> (b: ActionKeybindings)
        ensures
            b@ == Map::<Action, Keystrokes>::empty(),
    {
        ActionKeybindings { entries: Vec::new() }
    }

    /// Gives `a` the keystroke `k`.
    pub fn insert(&mut self, a: Action, k: Keystrokes)
        ensures
            final(self)@ == old(self)@.insert(a, k),
    {
        let ghost before = self.entries@;
        self.entries.push((a, k));
        assert(self.entries@.drop_last() =~= before);
    }

    /// The keystroke of `a`, if it has one.
    pub fn get(&self, a: &Action) -> (r: Option<Keystrokes>)
        ensures
            r == (if self@.contains_key(*a) {
                Some(self@[*a])
            } else {
                None
            }),
    {
        let mut i = self.entries.len();
        while i > 0
            invariant
                i <= self.entries@.len(),
                forall|j: int| i <= j < self.entries@.len() ==> self.entries@[j].0 != *a,
            decreases i,
        {
            if self.entries[i - 1].0 == *a {
                proof {
                    lemma_action_map_last(self.entries@, i - 1);
                }
                return Some(self.entries[i - 1].1);
            }
            i = i - 1;
        }
        proof {
            lemma_action_map_absent(self.entries@, *a);
        }
        None
    }
}

/// The set of no modifier.
pub open spec fn no_modifier() -> ModifierSet {
    ModifierSet { alt: false, shift: false, control: false, super_key: false }
}

/// The set of the modifier `m` alone.
pub open spec fn only(m: Modifier) -> ModifierSet {
    ModifierSet {
        alt: m == Modifier::Alt,
        shift: m == Modifier::Shift,
        control: m == Modifier::Control,
        super_key: m == Modifier::Super,
    }
}

/// The table that holds when the preferences give none.
pub open spec fn default_action_map() -> Map<Action, Keystrokes> {
    Map::empty().insert(Action::Exit, Keystrokes { key: Key::Escape, modifiers: no_modifier() }).insert(
        Action::Mark,
        Keystrokes { key: Key::Char('f'), modifiers: only(Modifier::Control) },
    ).insert(Action::GoNextEntry, Keystrokes { key: Key::Tab, modifiers: no_modifier() }).insert(
        Action::GoPreviousEntry,
        Keystrokes { key: Key::Tab, modifiers: only(Modifier::Shift) },
    )
}

/// The set of no modifier.
fn none_held() -> (s: ModifierSet)
    ensures
        s == no_modifier(),
{
    let v: Vec<Modifier> = Vec::new();
    let s = ModifierSet::from_slice(v.as_slice());
    assert(s.has(Modifier::Alt) == v@.contains(Modifier::Alt));
    assert(s.has(Modifier::Shift) == v@.contains(Modifier::Shift));
    assert(s.has(Modifier::Control) == v@.contains(Modifier::Control));
    assert(s.has(Modifier::Super) == v@.contains(Modifier::Super));
    s
}

/// The set of the modifier `m` alone.
fn held_alone(m: Modifier) -> (s: ModifierSet)
    ensures
        s == only(m),
{
    let v = vec![m];
    let s = ModifierSet::from_slice(v.as_slice());
    assert(v@[0] == m);
    assert(s.has(Modifier::Alt) == v@.contains(Modifier::Alt));
    assert(s.has(Modifier::Shift) == v@.contains(Modifier::Shift));
    assert(s.has(Modifier::Control) == v@.contains(Modifier::Control));
    assert(s.has(Modifier::Super) == v@.contains(Modifier::Super));
    s
}

/// The table that holds when the preferences give none: escape exits,
/// control-f marks, tab goes to the next entry and shift-tab to the previous.
pub fn default_keybindings() -> (b: ActionKeybindings)
    ensures
        b@ == default_action_map(),
{
    let mut b = ActionKeybindings::new();
    b.insert(Action::Exit, Keystrokes { key: Key::Escape, modifiers: none_held() });
    b.insert(Action::Mark, Keystrokes { key: Key::Char('f'), modifiers: held_alone(Modifier::Control) });
    b.insert(Action::GoNextEntry, Keystrokes { key: Key::Tab, modifiers: none_held() });
    b.insert(
        Action::GoPreviousEntry,
        Keystrokes { key: Key::Tab, modifiers: held_alone(Modifier::Shift) },
    );
    b
}

} // verus!
