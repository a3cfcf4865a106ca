//! Keystrokes, the actions they trigger, and the table that binds them.
//!
//! A keystroke is written as its modifiers and its key joined by `-`, such as
//! `control-shift-f`; an action is written as its snake-case name, with an
//! index for `launch_entry(3)`.
use vstd::prelude::*;
use crate::text::{
    char_is_alphanumeric, chars_of, decimal_text, find_first_char, find_last_char,
    is_alphanumeric_char, parse_usize_range, push_char, push_decimal, range_eq_str, range_pieces,
    rsplit_once_seq, split_once_seq, split_ranges, split_seq, string_from_literal, surround_range,
    trim_bounds, trim_end_char_bound, trim_end_char_seq, trim_seq, usize_parse, all_digits,
    digits_value, first_index, last_index, is_first_index, is_last_index, lemma_decimal_text,
    lemma_first_index_unique, lemma_last_index_none, lemma_last_index_unique,
    lemma_split_seq_after_sep, lemma_split_seq_no_sep, trim_start_seq, trim_end_seq,
};
use vstd::string::StringExecFns;

verus! {

broadcast use vstd::string::group_string_axioms;

/// The modifier keys held during a keystroke.
#[derive(Debug, Clone, Copy, Hash, PartialEq, Eq, Structural)]
pub struct Modifiers {
    pub super_key: bool,
    pub control: bool,
    pub alt: bool,
    pub shift: bool,
}

/// A key of a keystroke.
#[derive(Debug, Clone, Copy, Hash, PartialEq, Eq, Structural)]
pub enum Key {
    Up,
    Down,
    Left,
    Right,
    Tab,
    Escape,
    Unidentified,
    Character(char),
}

/// What a keystroke can trigger.
#[derive(Debug, Hash, Eq, PartialEq, Copy, Clone, Structural)]
pub enum Action {
    ToggleFavorite,
    Close,
    NextEntry,
    PreviousEntry,
    LaunchEntry(usize),
}

/// A key together with the modifiers held while it is pressed.
#[derive(Debug, Hash, PartialEq, Eq, Clone, Copy, Structural)]
pub struct Keystrokes {
    pub key: Key,
    pub modifiers: Modifiers,
}

// ---------------------------------------------------------------------------
// Modifiers
// ---------------------------------------------------------------------------

pub open spec fn no_modifiers() -> Modifiers {
    Modifiers { super_key: false, control: false, alt: false, shift: false }
}

pub open spec fn union_modifiers(a: Modifiers, b: Modifiers) -> Modifiers {
    Modifiers {
        super_key: a.super_key || b.super_key,
        control: a.control || b.control,
        alt: a.alt || b.alt,
        shift: a.shift || b.shift,
    }
}

impl Modifiers {
    /// No modifier held.
    pub fn empty() -> (m: Modifiers)
        ensures
            m == no_modifiers(),
    {
        Modifiers { super_key: false, control: false, alt: false, shift: false }
    }

    /// The super (logo) key alone.
    pub fn super_only() -> (m: Modifiers)
        ensures
            m == (Modifiers { super_key: true, ..no_modifiers() }),
    {
        Modifiers { super_key: true, control: false, alt: false, shift: false }
    }

    /// The control key alone.
    pub fn control_only() -> (m: Modifiers)
        ensures
            m == (Modifiers { control: true, ..no_modifiers() }),
    {
        Modifiers { super_key: false, control: true, alt: false, shift: false }
    }

    /// The alt key alone.
    pub fn alt_only() -> (m: Modifiers)
        ensures
            m == (Modifiers { alt: true, ..no_modifiers() }),
    {
        Modifiers { super_key: false, control: false, alt: true, shift: false }
    }

    /// The shift key alone.
    pub fn shift_only() -> (m: Modifiers)
        ensures
            m == (Modifiers { shift: true, ..no_modifiers() }),
    {
        Modifiers { super_key: false, control: false, alt: false, shift: true }
    }

    /// The modifiers of `self` and of `other` together.
    pub fn union(self, other: Modifiers) -> (m: Modifiers)
        ensures
            m == union_modifiers(self, other),
    {
        Modifiers {
            super_key: self.super_key || other.super_key,
            control: self.control || other.control,
            alt: self.alt || other.alt,
            shift: self.shift || other.shift,
        }
    }

    /// Whether no modifier is held.
    pub fn is_empty(&self) -> (r: bool)
        ensures
            r == (*self == no_modifiers()),
    {
        !self.super_key && !self.control && !self.alt && !self.shift
    }

    /// The flag bits: super 1, control 2, alt 4, shift 8.
    pub fn bits(&self) -> (b: u8)
        ensures
            b == (if self.super_key {
                1u8
            } else {
                0u8
            }) + (if self.control {
                2u8
            } else {
                0u8
            }) + (if self.alt {
                4u8
            } else {
                0u8
            }) + (if self.shift {
                8u8
            } else {
                0u8
            }),
    {
        let mut b: u8 = 0;
        if self.super_key {
            b = b + 1;
        }
        if self.control {
            b = b + 2;
        }
        if self.alt {
            b = b + 4;
        }
        if self.shift {
            b = b + 8;
        }
        b
    }
}

/// The names of the held modifiers, in the order super, control, alt, shift.
pub open spec fn modifier_names(m: Modifiers) -> Seq<Seq<char>> {
    (if m.super_key {
        seq!["super"@]
    } else {
        Seq::empty()
    }) + (if m.control {
        seq!["control"@]
    } else {
        Seq::empty()
    }) + (if m.alt {
        seq!["alt"@]
    } else {
        Seq::empty()
    }) + (if m.shift {
        seq!["shift"@]
    } else {
        Seq::empty()
    })
}

/// `parts` joined with `sep` between consecutive parts.
pub open spec fn join_with(parts: Seq<Seq<char>>, sep: char) -> Seq<char>
    decreases parts.len(),
{
    if parts.len() == 0 {
        Seq::empty()
    } else if parts.len() == 1 {
        parts[0]
    } else {
        join_with(parts.drop_last(), sep).push(sep) + parts.last()
    }
}

/// How a set of modifiers is written: the held names joined by `-`.
pub open spec fn modifiers_text(m: Modifiers) -> Seq<char> {
    join_with(modifier_names(m), '-')
}

/// The modifier that one `-`-separated part names.
pub open spec fn modifier_named(part: Seq<char>) -> Option<Modifiers> {
    if part == "control"@ {
        Some(Modifiers { control: true, ..no_modifiers() })
    } else if part == "shift"@ {
        Some(Modifiers { shift: true, ..no_modifiers() })
    } else if part == "alt"@ {
        Some(Modifiers { alt: true, ..no_modifiers() })
    } else if part == "super"@ {
        Some(Modifiers { super_key: true, ..no_modifiers() })
    } else {
        None
    }
}

/// The union of the modifiers that `parts` name, or the first part that names none.
pub open spec fn fold_modifier_parts(parts: Seq<Seq<char>>) -> Result<Modifiers, Seq<char>>
    decreases parts.len(),
{
    if parts.len() == 0 {
        Ok(no_modifiers())
    } else {
        match fold_modifier_parts(parts.drop_last()) {
            Err(bad) => Err(bad),
            Ok(acc) => match modifier_named(parts.last()) {
                Some(m) => Ok(union_modifiers(acc, m)),
                None => Err(parts.last()),
            },
        }
    }
}

/// The message for a part that names no modifier.
pub open spec fn invalid_modifier_message(part: Seq<char>) -> Seq<char> {
    "'"@ + part + "' is not a valid modifier. Use 'logo', 'control', 'alt', or 'shift' instead"@
}

/// How a modifier list is read: empty text is no modifier, otherwise every
/// `-`-separated part must name one.
pub open spec fn parse_modifiers(s: Seq<char>) -> Result<Modifiers, Seq<char>> {
    if s.len() == 0 {
        Ok(no_modifiers())
    } else {
        match fold_modifier_parts(split_seq(s, '-')) {
            Ok(m) => Ok(m),
            Err(bad) => Err(invalid_modifier_message(bad)),
        }
    }
}

// ---------------------------------------------------------------------------
// Key
// ---------------------------------------------------------------------------

/// How a key is written.
pub open spec fn key_text(k: Key) -> Seq<char> {
    match k {
        Key::Up => "up"@,
        Key::Down => "down"@,
        Key::Left => "left"@,
        Key::Right => "right"@,
        Key::Tab => "tab"@,
        Key::Escape => "escape"@,
        Key::Character(c) => seq![c],
        Key::Unidentified => "unidentified"@,
    }
}

/// The named key that `s` spells.
pub open spec fn key_named(s: Seq<char>) -> Option<Key> {
    if s == "tab"@ {
        Some(Key::Tab)
    } else if s == "escape"@ {
        Some(Key::Escape)
    } else if s == "up"@ {
        Some(Key::Up)
    } else if s == "down"@ {
        Some(Key::Down)
    } else if s == "left"@ {
        Some(Key::Left)
    } else if s == "right"@ {
        Some(Key::Right)
    } else {
        None
    }
}

/// The message for text that names no key.
pub open spec fn invalid_key_message(s: Seq<char>) -> Seq<char> {
    "'"@ + s
        + "' is not a valid key. It must be a named key ('tab', 'escape', 'up', 'down', 'left', 'right') or a single alphanumeric character (A-Z, 0-9)"@
}

/// How a key is read: a single alphanumeric character, or one of the names
/// `tab`, `escape`, `up`, `down`, `left`, `right`.
pub open spec fn parse_key(s: Seq<char>) -> Result<Key, Seq<char>> {
    if s.len() == 1 && is_alphanumeric_char(s[0]) {
        Ok(Key::Character(s[0]))
    } else {
        match key_named(s) {
            Some(k) => Ok(k),
            None => Err(invalid_key_message(s)),
        }
    }
}

// ---------------------------------------------------------------------------
// Keystrokes
// ---------------------------------------------------------------------------

/// How a keystroke is written: its modifiers, `-`, and its key; the modifiers
/// alone for an unidentified key, the key alone without modifiers.
pub open spec fn keystrokes_text(k: Keystrokes) -> Seq<char> {
    let m = modifiers_text(k.modifiers);
    if k.key == Key::Unidentified {
        m
    } else if m.len() == 0 {
        key_text(k.key)
    } else {
        m.push('-') + key_text(k.key)
    }
}

/// How a keystroke is read: the text after the last `-` is the key and the
/// text before it the modifiers; without `-` the whole text is the key. The
/// key is read first, so its error comes first.
pub open spec fn parse_keystrokes(s: Seq<char>) -> Result<Keystrokes, Seq<char>> {
    match rsplit_once_seq(s, '-') {
        Some((m, k)) => match parse_key(k) {
            Err(e) => Err(e),
            Ok(key) => match parse_modifiers(m) {
                Err(e) => Err(e),
                Ok(modifiers) => Ok(Keystrokes { key, modifiers }),
            },
        },
        None => match parse_key(s) {
            Err(e) => Err(e),
            Ok(key) => Ok(Keystrokes { key, modifiers: no_modifiers() }),
        },
    }
}

// ---------------------------------------------------------------------------
// Action
// ---------------------------------------------------------------------------

/// How an action is written.
pub open spec fn action_text(a: Action) -> Seq<char> {
    match a {
        Action::ToggleFavorite => "toggle_favorite"@,
        Action::Close => "close"@,
        Action::NextEntry => "next_entry"@,
        Action::PreviousEntry => "previous_entry"@,
        Action::LaunchEntry(n) => "launch_entry("@ + decimal_text(n as nat) + ")"@,
    }
}

/// The message for a parameter that is not an index.
pub open spec fn parameter_message() -> Seq<char> {
    "incorrect type assigned to parameter: expected usize"@
}

/// How the parameter part of `launch_entry(...)` is read: trailing `)` and
/// surrounding whitespace are dropped and the rest read as a `usize`.
pub open spec fn parse_parameter(part: Seq<char>) -> Result<usize, Seq<char>> {
    match usize_parse(trim_seq(trim_end_char_seq(part, ')'))) {
        Some(n) => Ok(n),
        None => Err(parameter_message()),
    }
}

/// The message for text that names no action.
pub open spec fn unknown_action_message(s: Seq<char>) -> Seq<char> {
    "unknown action '"@ + s
        + "'. Available actions are: 'toggle_favorite', 'close', 'next_entry', 'previous_entry', 'launch_entry(index)'"@
}

/// How an action is read: the text before the first `(` names it; for
/// `launch_entry` the text after it must end with `)` and hold the index.
pub open spec fn parse_action(s: Seq<char>) -> Result<Action, Seq<char>> {
    let (ident, param) = match split_once_seq(s, '(') {
        Some(p) => p,
        None => (s, Seq::empty()),
    };
    if ident == "toggle_favorite"@ {
        Ok(Action::ToggleFavorite)
    } else if ident == "close"@ {
        Ok(Action::Close)
    } else if ident == "next_entry"@ {
        Ok(Action::NextEntry)
    } else if ident == "previous_entry"@ {
        Ok(Action::PreviousEntry)
    } else if ident == "launch_entry"@ && param.len() > 0 && param.last() == ')' {
        match parse_parameter(param) {
            Ok(n) => Ok(Action::LaunchEntry(n)),
            Err(e) => Err(e),
        }
    } else {
        Err(unknown_action_message(s))
    }
}

/// `r` is the `String` form of the outcome `s`: the same value, or an error
/// with the same text.
pub open spec fn same_outcome<T>(r: Result<T, String>, s: Result<T, Seq<char>>) -> bool {
    match r {
        Ok(v) => s == Ok::<T, Seq<char>>(v),
        Err(e) => s == Err::<T, Seq<char>>(e@),
    }
}

fn append_part(s: &mut String, first: bool, part: &str, Ghost(parts): Ghost<Seq<Seq<char>>>)
    requires
        old(s)@ == join_with(parts, '-'),
        first == (parts.len() == 0),
    ensures
        final(s)@ == join_with(parts.push(part@), '-'),
{
    if !first {
        push_char(s, '-');
    }
    s.append(part);
    assert(parts.push(part@).drop_last() =~= parts);
}

proof fn lemma_fold_modifier_parts_error(p: Seq<Seq<char>>, q: Seq<Seq<char>>)
    requires
        fold_modifier_parts(p) is Err,
    ensures
        fold_modifier_parts(p + q) == fold_modifier_parts(p),
    decreases q.len(),
{
    if q.len() == 0 {
        assert(p + q =~= p);
    } else {
        lemma_fold_modifier_parts_error(p, q.drop_last());
        assert((p + q).drop_last() =~= p + q.drop_last());
    }
}

/// The modifier that `v[lo..hi]` names.
fn modifier_in_range(v: &Vec<char>, lo: usize, hi: usize) -> (r: Option<Modifiers>)
    requires
        lo <= hi <= v@.len(),
    ensures
        r == modifier_named(v@.subrange(lo as int, hi as int)),
{
    if range_eq_str(v, lo, hi, "control") {
        Some(Modifiers::control_only())
    } else if range_eq_str(v, lo, hi, "shift") {
        Some(Modifiers::shift_only())
    } else if range_eq_str(v, lo, hi, "alt") {
        Some(Modifiers::alt_only())
    } else if range_eq_str(v, lo, hi, "super") {
        Some(Modifiers::super_only())
    } else {
        None
    }
}

/// Reads the modifier list `v[lo..hi]`.
fn modifiers_in_range(v: &Vec<char>, lo: usize, hi: usize) -> (r: Result<Modifiers, String>)
    requires
        lo <= hi <= v@.len(),
    ensures
        same_outcome(r, parse_modifiers(v@.subrange(lo as int, hi as int))),
{
    if lo == hi {
        return Ok(Modifiers::empty());
    }
    let ranges = split_ranges(v, lo, hi, '-');
    let ghost pieces = range_pieces(v@, ranges@);
    let mut acc = Modifiers::empty();
    let mut k: usize = 0;
    assert(pieces.take(0) =~= Seq::<Seq<char>>::empty());
    while k < ranges.len()
        invariant
            lo < hi <= v@.len(),
            pieces == range_pieces(v@, ranges@),
            pieces == split_seq(v@.subrange(lo as int, hi as int), '-'),
            forall|j: int| 0 <= j < ranges@.len() ==> lo <= (#[trigger] ranges@[j]).0 <= ranges@[j].1 <= hi,
            k <= ranges@.len(),
            fold_modifier_parts(pieces.take(k as int)) == Ok::<Modifiers, Seq<char>>(acc),
        decreases ranges.len() - k,
    {
        let (a, b) = ranges[k];
        assert(pieces[k as int] == v@.subrange(a as int, b as int));
        assert(pieces.take((k + 1) as int).drop_last() =~= pieces.take(k as int));
        match modifier_in_range(v, a, b) {
            Some(m) => {
                acc = acc.union(m);
            },
            None => {
                proof {
                    assert(pieces.take((k + 1) as int).last() == pieces[k as int]);
                    assert(fold_modifier_parts(pieces.take((k + 1) as int)) == Err::<
                        Modifiers,
                        Seq<char>,
                    >(pieces[k as int]));
                    lemma_fold_modifier_parts_error(
                        pieces.take((k + 1) as int),
                        pieces.skip((k + 1) as int),
                    );
                    assert(pieces.take((k + 1) as int) + pieces.skip((k + 1) as int) =~= pieces);
                }
                return Err(
                    surround_range(
                        "'",
                        v,
                        a,
                        b,
                        "' is not a valid modifier. Use 'logo', 'control', 'alt', or 'shift' instead",
                    ),
                );
            },
        }
        k = k + 1;
    }
    assert(pieces.take(k as int) =~= pieces);
    Ok(acc)
}

/// Reads the key `v[lo..hi]`.
fn key_in_range(v: &Vec<char>, lo: usize, hi: usize) -> (r: Result<Key, String>)
    requires
        lo <= hi <= v@.len(),
    ensures
        same_outcome(r, parse_key(v@.subrange(lo as int, hi as int))),
{
    let ghost s = v@.subrange(lo as int, hi as int);
    if hi - lo == 1 && char_is_alphanumeric(v[lo]) {
        assert(s[0] == v@[lo as int]);
        return Ok(Key::Character(v[lo]));
    }
    if hi - lo == 1 {
        assert(s[0] == v@[lo as int]);
    }
    if range_eq_str(v, lo, hi, "tab") {
        Ok(Key::Tab)
    } else if range_eq_str(v, lo, hi, "escape") {
        Ok(Key::Escape)
    } else if range_eq_str(v, lo, hi, "up") {
        Ok(Key::Up)
    } else if range_eq_str(v, lo, hi, "down") {
        Ok(Key::Down)
    } else if range_eq_str(v, lo, hi, "left") {
        Ok(Key::Left)
    } else if range_eq_str(v, lo, hi, "right") {
        Ok(Key::Right)
    } else {
        Err(
            surround_range(
                "'",
                v,
                lo,
                hi,
                "' is not a valid key. It must be a named key ('tab', 'escape', 'up', 'down', 'left', 'right') or a single alphanumeric character (A-Z, 0-9)",
            ),
        )
    }
}

/// Reads the index part of `launch_entry(...)` held in `v[lo..hi]`.
fn parameter_in_range(v: &Vec<char>, lo: usize, hi: usize) -> (r: Result<usize, String>)
    requires
        lo <= hi <= v@.len(),
    ensures
        same_outcome(r, parse_parameter(v@.subrange(lo as int, hi as int))),
{
    let b = trim_end_char_bound(v, lo, hi, ')');
    let (x, y) = trim_bounds(v, lo, b);
    match parse_usize_range(v, x, y) {
        Some(n) => Ok(n),
        None => Err(string_from_literal("incorrect type assigned to parameter: expected usize")),
    }
}

impl Modifiers {
    /// The held modifiers as text, such as `control-shift`.
    pub fn to_string(&self) -> (s: String)
        ensures
            s@ == modifiers_text(*self),
    {
        let mut s = String::new();
        let mut first = true;
        let ghost mut parts: Seq<Seq<char>> = Seq::empty();
        if self.super_key {
            append_part(&mut s, first, "super", Ghost(parts));
            proof {
                parts = parts.push("super"@);
            }
            first = false;
        }
        if self.control {
            append_part(&mut s, first, "control", Ghost(parts));
            proof {
                parts = parts.push("control"@);
            }
            first = false;
        }
        if self.alt {
            append_part(&mut s, first, "alt", Ghost(parts));
            proof {
                parts = parts.push("alt"@);
            }
            first = false;
        }
        if self.shift {
            append_part(&mut s, first, "shift", Ghost(parts));
            proof {
                parts = parts.push("shift"@);
            }
        }
        assert(parts =~= modifier_names(*self));
        s
    }

    /// Reads a modifier list such as `control-shift`.
    pub fn from_str(s: &str) -> (r: Result<Modifiers, String>)
        ensures
            same_outcome(r, parse_modifiers(s@)),
    {
        let v = chars_of(s);
        assert(v@.subrange(0, v@.len() as int) =~= v@);
        modifiers_in_range(&v, 0, v.len())
    }
}

impl Key {
    /// The key as text, such as `escape` or `f`.
    pub fn to_string(&self) -> (s: String)
        ensures
            s@ == key_text(*self),
    {
        match self {
            Key::Up => string_from_literal("up"),
            Key::Down => string_from_literal("down"),
            Key::Left => string_from_literal("left"),
            Key::Right => string_from_literal("right"),
            Key::Tab => string_from_literal("tab"),
            Key::Escape => string_from_literal("escape"),
            Key::Character(c) => {
                let mut s = String::new();
                push_char(&mut s, *c);
                assert(s@ =~= seq![*c]);
                s
            },
            Key::Unidentified => string_from_literal("unidentified"),
        }
    }

    /// Reads a key such as `tab` or `f`.
    pub fn from_str(s: &str) -> (r: Result<Key, String>)
        ensures
            same_outcome(r, parse_key(s@)),
    {
        let v = chars_of(s);
        assert(v@.subrange(0, v@.len() as int) =~= v@);
        key_in_range(&v, 0, v.len())
    }
}

impl Keystrokes {
    /// The keystroke as text, such as `control-f`.
    pub fn to_string(&self) -> (s: String)
        ensures
            s@ == keystrokes_text(*self),
    {
        let mut m = self.modifiers.to_string();
        if self.key == Key::Unidentified {
            return m;
        }
        let k = self.key.to_string();
        if m.as_str().is_empty() {
            return k;
        }
        push_char(&mut m, '-');
        m.append(k.as_str());
        m
    }

    /// Reads a keystroke such as `control-f`.
    pub fn from_str(s: &str) -> (r: Result<Keystrokes, String>)
        ensures
            same_outcome(r, parse_keystrokes(s@)),
    {
        let v = chars_of(s);
        let n = v.len();
        assert(v@.subrange(0, n as int) =~= v@);
        match find_last_char(&v, 0, n, '-') {
            Some(i) => {
                let key = match key_in_range(&v, i + 1, n) {
                    Ok(k) => k,
                    Err(e) => {
                        return Err(e);
                    },
                };
                let modifiers = match modifiers_in_range(&v, 0, i) {
                    Ok(m) => m,
                    Err(e) => {
                        return Err(e);
                    },
                };
                Ok(Keystrokes { key, modifiers })
            },
            None => {
                let key = match key_in_range(&v, 0, n) {
                    Ok(k) => k,
                    Err(e) => {
                        return Err(e);
                    },
                };
                Ok(Keystrokes { key, modifiers: Modifiers::empty() })
            },
        }
    }

    /// The keystroke of `key` with the union of `modifiers` held.
    pub fn new(modifiers: &[Modifiers], key: Key) -> (k: Keystrokes)
        ensures
            k.key == key,
            k.modifiers == modifiers@.fold_left(
                no_modifiers(),
                |acc: Modifiers, m: Modifiers| union_modifiers(acc, m),
            ),
    {
        let mut acc = Modifiers::empty();
        let mut i: usize = 0;
        while i < modifiers.len()
            invariant
                i <= modifiers@.len(),
                acc == modifiers@.take(i as int).fold_left(
                    no_modifiers(),
                    |acc: Modifiers, m: Modifiers| union_modifiers(acc, m),
                ),
            decreases modifiers.len() - i,
        {
            assert(modifiers@.take((i + 1) as int).drop_last() =~= modifiers@.take(i as int));
            acc = acc.union(modifiers[i]);
            i = i + 1;
        }
        assert(modifiers@.take(i as int) =~= modifiers@);
        Keystrokes { key, modifiers: acc }
    }
}

impl Action {
    /// The action as text, such as `next_entry` or `launch_entry(2)`.
    pub fn to_string(&self) -> (s: String)
        ensures
            s@ == action_text(*self),
    {
        match self {
            Action::ToggleFavorite => string_from_literal("toggle_favorite"),
            Action::Close => string_from_literal("close"),
            Action::NextEntry => string_from_literal("next_entry"),
            Action::PreviousEntry => string_from_literal("previous_entry"),
            Action::LaunchEntry(n) => {
                let mut s = string_from_literal("launch_entry(");
                push_decimal(&mut s, *n);
                s.append(")");
                s
            },
        }
    }

    /// Reads an action such as `close` or `launch_entry(2)`.
    pub fn from_str(action: &str) -> (r: Result<Action, String>)
        ensures
            same_outcome(r, parse_action(action@)),
    {
        let v = chars_of(action);
        let n = v.len();
        assert(v@.subrange(0, n as int) =~= v@);
        let (ihi, plo) = match find_first_char(&v, 0, n, '(') {
            Some(i) => (i, i + 1),
            None => (n, n),
        };
        assert(v@.subrange(n as int, n as int) =~= Seq::<char>::empty());
        if range_eq_str(&v, 0, ihi, "toggle_favorite") {
            Ok(Action::ToggleFavorite)
        } else if range_eq_str(&v, 0, ihi, "close") {
            Ok(Action::Close)
        } else if range_eq_str(&v, 0, ihi, "next_entry") {
            Ok(Action::NextEntry)
        } else if range_eq_str(&v, 0, ihi, "previous_entry") {
            Ok(Action::PreviousEntry)
        } else if range_eq_str(&v, 0, ihi, "launch_entry") && n > plo && v[n - 1] == ')' {
            assert(v@.subrange(plo as int, n as int).last() == v@[n - 1]);
            match parameter_in_range(&v, plo, n) {
                Ok(idx) => Ok(Action::LaunchEntry(idx)),
                Err(e) => Err(e),
            }
        } else {
            proof {
                if n > plo {
                    assert(v@.subrange(plo as int, n as int).last() == v@[n - 1]);
                }
            }
            Err(
                surround_range(
                    "unknown action '",
                    &v,
                    0,
                    n,
                    "'. Available actions are: 'toggle_favorite', 'close', 'next_entry', 'previous_entry', 'launch_entry(index)'",
                ),
            )
        }
    }
}

/// Reads the index of `launch_entry(...)` from the text after the `(`:
/// trailing `)` and whitespace are dropped and the rest read as a `usize`.
pub fn extract_parameter(parameter_part: &str) -> (r: Result<usize, String>)
    ensures
        same_outcome(r, parse_parameter(parameter_part@)),
{
    let v = chars_of(parameter_part);
    assert(v@.subrange(0, v@.len() as int) =~= v@);
    parameter_in_range(&v, 0, v.len())
}

// ---------------------------------------------------------------------------
// Key events
// ---------------------------------------------------------------------------

/// The modifier keys that a key event reports as already held.
#[derive(Debug, Clone, Copy, PartialEq, Eq)]
pub struct HeldModifiers {
    pub logo: bool,
    pub control: bool,
    pub alt: bool,
    pub shift: bool,
}

/// The named keys that a key event can report.
#[derive(Debug, Clone, Copy, PartialEq, Eq, Structural)]
pub enum NamedKey {
    Super,
    Control,
    Alt,
    Shift,
    Tab,
    Escape,
    ArrowUp,
    ArrowDown,
    ArrowLeft,
    ArrowRight,
    Other,
}

/// The key that a key event reports.
#[derive(Debug, Clone, PartialEq, Eq)]
pub enum PressedKey {
    Character(String),
    Named(NamedKey),
    Unidentified,
}

/// The modifiers of a key event: those already held, together with the
/// pressed key itself when it is a modifier key.
pub open spec fn event_modifiers(held: HeldModifiers, key: PressedKey) -> Modifiers {
    Modifiers {
        super_key: held.logo || key == PressedKey::Named(NamedKey::Super),
        control: held.control || key == PressedKey::Named(NamedKey::Control),
        alt: held.alt || key == PressedKey::Named(NamedKey::Alt),
        shift: held.shift || key == PressedKey::Named(NamedKey::Shift),
    }
}

/// The key of a key event: the first character of a character key, the
/// arrows, tab and escape; anything else is unidentified.
pub open spec fn event_key(key: PressedKey) -> Key {
    match key {
        PressedKey::Character(s) => if s@.len() > 0 {
            Key::Character(s@[0])
        } else {
            Key::Unidentified
        },
        PressedKey::Named(NamedKey::Tab) => Key::Tab,
        PressedKey::Named(NamedKey::Escape) => Key::Escape,
        PressedKey::Named(NamedKey::ArrowUp) => Key::Up,
        PressedKey::Named(NamedKey::ArrowDown) => Key::Down,
        PressedKey::Named(NamedKey::ArrowLeft) => Key::Left,
        PressedKey::Named(NamedKey::ArrowRight) => Key::Right,
        _ => Key::Unidentified,
    }
}

/// The modifiers that a key event reports as held.
pub open spec fn held_as_modifiers(held: HeldModifiers) -> Modifiers {
    Modifiers { super_key: held.logo, control: held.control, alt: held.alt, shift: held.shift }
}

/// The named keys that are not modifier keys.
pub open spec fn is_plain_named(n: NamedKey) -> bool {
    n != NamedKey::Super && n != NamedKey::Control && n != NamedKey::Alt && n != NamedKey::Shift
}

/// A key event of a named key gives the key of the same name, with the held
/// modifiers unchanged: tab, escape and the four arrows each give their own
/// key, so two of them never give the same keystroke.
pub proof fn lemma_named_keys_keep_their_meaning(held: HeldModifiers)
    ensures
        event_key(PressedKey::Named(NamedKey::Tab)) == Key::Tab,
        event_key(PressedKey::Named(NamedKey::Escape)) == Key::Escape,
        event_key(PressedKey::Named(NamedKey::ArrowUp)) == Key::Up,
        event_key(PressedKey::Named(NamedKey::ArrowDown)) == Key::Down,
        event_key(PressedKey::Named(NamedKey::ArrowLeft)) == Key::Left,
        event_key(PressedKey::Named(NamedKey::ArrowRight)) == Key::Right,
        forall|n: NamedKey| #[trigger] is_plain_named(n) ==> event_modifiers(held, PressedKey::Named(n))
            == held_as_modifiers(held),
{
}

/// A character key gives its first character with the held modifiers, and a
/// modifier key pressed alone adds itself to the held ones and gives no key.
pub proof fn lemma_character_and_modifier_keys(held: HeldModifiers, text: String)
    ensures
        text@.len() > 0 ==> event_key(PressedKey::Character(text)) == Key::Character(text@[0]),
        text@.len() == 0 ==> event_key(PressedKey::Character(text)) == Key::Unidentified,
        event_modifiers(held, PressedKey::Character(text)) == held_as_modifiers(held),
        event_modifiers(held, PressedKey::Named(NamedKey::Super)) == (Modifiers {
            super_key: true,
            ..held_as_modifiers(held)
        }),
        event_modifiers(held, PressedKey::Named(NamedKey::Control)) == (Modifiers {
            control: true,
            ..held_as_modifiers(held)
        }),
        event_modifiers(held, PressedKey::Named(NamedKey::Alt)) == (Modifiers {
            alt: true,
            ..held_as_modifiers(held)
        }),
        event_modifiers(held, PressedKey::Named(NamedKey::Shift)) == (Modifiers {
            shift: true,
            ..held_as_modifiers(held)
        }),
        event_key(PressedKey::Named(NamedKey::Shift)) == Key::Unidentified,
        event_key(PressedKey::Unidentified) == Key::Unidentified,
{
}

impl Keystrokes {
    /// The keystroke of a key event. A lone modifier press is not yet among
    /// the held modifiers, so the pressed modifier key is added to them.
    pub fn from_iced_keystrokes(iced_modifiers: HeldModifiers, iced_key: PressedKey) -> (k:
        Keystrokes)
        ensures
            k.modifiers == event_modifiers(iced_modifiers, iced_key),
            k.key == event_key(iced_key),
    {
        let mut modifiers = Modifiers::empty();
        if iced_modifiers.logo {
            modifiers = modifiers.union(Modifiers::super_only());
        }
        if iced_modifiers.control {
            modifiers = modifiers.union(Modifiers::control_only());
        }
        if iced_modifiers.alt {
            modifiers = modifiers.union(Modifiers::alt_only());
        }
        if iced_modifiers.shift {
            modifiers = modifiers.union(Modifiers::shift_only());
        }
        match &iced_key {
            PressedKey::Named(NamedKey::Super) => {
                modifiers = modifiers.union(Modifiers::super_only());
            },
            PressedKey::Named(NamedKey::Control) => {
                modifiers = modifiers.union(Modifiers::control_only());
            },
            PressedKey::Named(NamedKey::Alt) => {
                modifiers = modifiers.union(Modifiers::alt_only());
            },
            PressedKey::Named(NamedKey::Shift) => {
                modifiers = modifiers.union(Modifiers::shift_only());
            },
            _ => {},
        }
        let key = match &iced_key {
            PressedKey::Character(s) => {
                let chars = chars_of(s.as_str());
                if chars.len() > 0 {
                    Key::Character(chars[0])
                } else {
                    Key::Unidentified
                }
            },
            PressedKey::Named(NamedKey::Tab) => Key::Tab,
            PressedKey::Named(NamedKey::Escape) => Key::Escape,
            PressedKey::Named(NamedKey::ArrowUp) => Key::Up,
            PressedKey::Named(NamedKey::ArrowDown) => Key::Down,
            PressedKey::Named(NamedKey::ArrowLeft) => Key::Left,
            PressedKey::Named(NamedKey::ArrowRight) => Key::Right,
            _ => Key::Unidentified,
        };
        Keystrokes { key, modifiers }
    }
}

// ---------------------------------------------------------------------------
// The table of bindings
// ---------------------------------------------------------------------------

/// A table from keystrokes to the actions they trigger.
pub struct Keybindings {
    entries: Vec<(Keystrokes, Action)>,
}

/// The table that a list of bindings makes, a later binding of a keystroke
/// replacing an earlier one.
pub open spec fn bindings_map(s: Seq<(Keystrokes, Action)>) -> Map<Keystrokes, Action>
    decreases s.len(),
{
    if s.len() == 0 {
        Map::empty()
    } else {
        bindings_map(s.drop_last()).insert(s.last().0, s.last().1)
    }
}

impl View for Keybindings {
    type V = Map<Keystrokes, Action>;

    closed spec fn view(&self) -> Map<Keystrokes, Action> {
        bindings_map(self.entries@)
    }
}

proof fn lemma_bindings_last(s: Seq<(Keystrokes, Action)>, i: int)
    requires
        0 <= i < s.len(),
        forall|j: int| i < j < s.len() ==> s[j].0 != s[i].0,
    ensures
        bindings_map(s).contains_key(s[i].0),
        bindings_map(s)[s[i].0] == s[i].1,
    decreases s.len(),
{
    if i < s.len() - 1 {
        lemma_bindings_last(s.drop_last(), i);
    }
}

proof fn lemma_bindings_absent(s: Seq<(Keystrokes, Action)>, k: Keystrokes)
    requires
        forall|j: int| 0 <= j < s.len() ==> s[j].0 != k,
    ensures
        !bindings_map(s).contains_key(k),
    decreases s.len(),
{
    if s.len() > 0 {
        lemma_bindings_absent(s.drop_last(), k);
    }
}

proof fn lemma_bindings_update_last(s: Seq<(Keystrokes, Action)>, i: int, a: Action)
    requires
        0 <= i < s.len(),
        forall|j: int| i < j < s.len() ==> s[j].0 != s[i].0,
    ensures
        bindings_map(s.update(i, (s[i].0, a))) == bindings_map(s).insert(s[i].0, a),
    decreases s.len(),
{
    let k = s[i].0;
    let u = s.update(i, (k, a));
    if i == s.len() - 1 {
        assert(u.drop_last() =~= s.drop_last());
        assert(bindings_map(u) =~= bindings_map(s).insert(k, a));
    } else {
        let t = s.drop_last();
        assert(u.drop_last() =~= t.update(i, (k, a)));
        lemma_bindings_update_last(t, i, a);
        assert(s.last().0 != k);
        assert(bindings_map(u) =~= bindings_map(s).insert(k, a));
    }
}

impl Keybindings {
    /// An empty table.
    pub fn new() -> (b: Keybindings)
        ensures
            b@ == Map::<Keystrokes, Action>::empty(),
    {
        Keybindings { entries: Vec::new() }
    }

    /// The last position of a binding of `k`, if any.
    fn position(&self, k: &Keystrokes) -> (r: Option<usize>)
        ensures
            match r {
                Some(i) => i < self.entries@.len() && self.entries@[i as int].0 == *k && forall|
                    j: int,
                | i < j < self.entries@.len() ==> self.entries@[j].0 != *k,
                None => forall|j: int| 0 <= j < self.entries@.len() ==> self.entries@[j].0 != *k,
            },
    {
        let mut i = self.entries.len();
        while i > 0
            invariant
                i <= self.entries@.len(),
                forall|j: int| i <= j < self.entries@.len() ==> self.entries@[j].0 != *k,
            decreases i,
        {
            if self.entries[i - 1].0 == *k {
                return Some(i - 1);
            }
            i = i - 1;
        }
        None
    }

    /// The action bound to `k`, if any.
    pub fn get(&self, k: &Keystrokes) -> (r: Option<Action>)
        ensures
            r == (if self@.contains_key(*k) {
                Some(self@[*k])
            } else {
                None
            }),
    {
        match self.position(k) {
            Some(i) => {
                proof {
                    lemma_bindings_last(self.entries@, i as int);
                }
                Some(self.entries[i].1)
            },
            None => {
                proof {
                    lemma_bindings_absent(self.entries@, *k);
                }
                None
            },
        }
    }

    /// Whether some action is bound to `k`.
    pub fn contains_key(&self, k: &Keystrokes) -> (r: bool)
        ensures
            r == self@.contains_key(*k),
    {
        self.get(k).is_some()
    }

    /// Binds `k` to `a`, replacing an earlier binding of `k`, and returns the
    /// action that was bound to `k` before.
    pub fn insert(&mut self, k: Keystrokes, a: Action) -> (r: Option<Action>)
        ensures
            final(self)@ == old(self)@.insert(k, a),
            r == (if old(self)@.contains_key(k) {
                Some(old(self)@[k])
            } else {
                None
            }),
    {
        match self.position(&k) {
            Some(i) => {
                proof {
                    lemma_bindings_last(self.entries@, i as int);
                    lemma_bindings_update_last(self.entries@, i as int, a);
                }
                let previous = self.entries[i].1;
                self.entries[i] = (k, a);
                Some(previous)
            },
            None => {
                proof {
                    lemma_bindings_absent(self.entries@, k);
                }
                let ghost before = self.entries@;
                self.entries.push((k, a));
                assert(self.entries@.drop_last() =~= before);
                None
            },
        }
    }

    /// Adds the bindings of `other`, which replace those of `self` for the
    /// same keystrokes.
    pub fn extend(&mut self, other: Keybindings)
        ensures
            final(self)@ == old(self)@.union_prefer_right(other@),
    {
        let mut j: usize = 0;
        assert(other.entries@.take(0) =~= Seq::<(Keystrokes, Action)>::empty());
        assert(old(self)@.union_prefer_right(Map::empty()) =~= old(self)@);
        while j < other.entries.len()
            invariant
                j <= other.entries@.len(),
                self@ == old(self)@.union_prefer_right(
                    bindings_map(other.entries@.take(j as int)),
                ),
            decreases other.entries.len() - j,
        {
            let (k, a) = other.entries[j];
            let ghost before = self@;
            self.insert(k, a);
            assert(other.entries@.take((j + 1) as int).drop_last() =~= other.entries@.take(
                j as int,
            ));
            assert(self@ =~= old(self)@.union_prefer_right(
                bindings_map(other.entries@.take((j + 1) as int)),
            ));
            j = j + 1;
        }
        assert(other.entries@.take(j as int) =~= other.entries@);
    }

    /// The bindings as a list, each keystroke with its action.
    pub fn pairs(&self) -> (r: Vec<(Keystrokes, Action)>)
        ensures
            bindings_map(r@) == self@,
    {
        let mut r: Vec<(Keystrokes, Action)> = Vec::new();
        let mut i: usize = 0;
        while i < self.entries.len()
            invariant
                i <= self.entries@.len(),
                r@ == self.entries@.take(i as int),
            decreases self.entries.len() - i,
        {
            r.push(self.entries[i]);
            assert(self.entries@.take((i + 1) as int) =~= self.entries@.take(i as int).push(
                self.entries@[i as int],
            ));
            i = i + 1;
        }
        assert(self.entries@.take(i as int) =~= self.entries@);
        r
    }
}

/// The keystroke of `key` with the modifiers `modifiers`.
pub open spec fn stroke(modifiers: Modifiers, key: Key) -> Keystrokes {
    Keystrokes { key, modifiers }
}

/// The bindings that hold when the preferences name none.
pub open spec fn default_keybindings_map() -> Map<Keystrokes, Action> {
    let none = no_modifiers();
    let control = Modifiers { control: true, ..no_modifiers() };
    let shift = Modifiers { shift: true, ..no_modifiers() };
    Map::empty().insert(stroke(none, Key::Escape), Action::Close).insert(
        stroke(control, Key::Character('f')),
        Action::ToggleFavorite,
    ).insert(stroke(none, Key::Tab), Action::NextEntry).insert(
        stroke(none, Key::Down),
        Action::NextEntry,
    ).insert(stroke(shift, Key::Tab), Action::PreviousEntry).insert(
        stroke(none, Key::Up),
        Action::PreviousEntry,
    ).insert(stroke(control, Key::Character('1')), Action::LaunchEntry(1)).insert(
        stroke(control, Key::Character('2')),
        Action::LaunchEntry(2),
    ).insert(stroke(control, Key::Character('3')), Action::LaunchEntry(3)).insert(
        stroke(control, Key::Character('4')),
        Action::LaunchEntry(4),
    ).insert(stroke(control, Key::Character('5')), Action::LaunchEntry(5))
}

/// The default table as a list of bindings.
pub open spec fn default_binding_list() -> Seq<(Keystrokes, Action)> {
    let none = Modifiers { super_key: false, control: false, alt: false, shift: false };
    let ctrl = Modifiers { super_key: false, control: true, alt: false, shift: false };
    let shift = Modifiers { super_key: false, control: false, alt: false, shift: true };
    seq![
        (Keystrokes { key: Key::Escape, modifiers: none }, Action::Close),
        (Keystrokes { key: Key::Character('f'), modifiers: ctrl }, Action::ToggleFavorite),
        (Keystrokes { key: Key::Tab, modifiers: none }, Action::NextEntry),
        (Keystrokes { key: Key::Down, modifiers: none }, Action::NextEntry),
        (Keystrokes { key: Key::Tab, modifiers: shift }, Action::PreviousEntry),
        (Keystrokes { key: Key::Up, modifiers: none }, Action::PreviousEntry),
        (Keystrokes { key: Key::Character('1'), modifiers: ctrl }, Action::LaunchEntry(1)),
        (Keystrokes { key: Key::Character('2'), modifiers: ctrl }, Action::LaunchEntry(2)),
        (Keystrokes { key: Key::Character('3'), modifiers: ctrl }, Action::LaunchEntry(3)),
        (Keystrokes { key: Key::Character('4'), modifiers: ctrl }, Action::LaunchEntry(4)),
        (Keystrokes { key: Key::Character('5'), modifiers: ctrl }, Action::LaunchEntry(5)),
    ]
}

/// The keystrokes of a list of bindings.
pub open spec fn binding_keys(list: Seq<(Keystrokes, Action)>) -> Set<Keystrokes> {
    list.map_values(|b: (Keystrokes, Action)| b.0).to_set()
}

/// The default table, binding by binding: escape closes; control-f toggles
/// the favorite; tab and the down arrow go to the next entry; shift-tab and
/// the up arrow go to the previous one; control-1 to control-5 launch the
/// entries with those indices; no other keystroke is bound.
pub proof fn lemma_default_bindings()
    ensures
        forall|j: int|
            0 <= j < default_binding_list().len() ==> default_keybindings_map().contains_key(
                (#[trigger] default_binding_list()[j]).0,
            ) && default_keybindings_map()[default_binding_list()[j].0] == default_binding_list()[j].1,
        default_keybindings_map().dom() == binding_keys(default_binding_list()),
{
    let list = default_binding_list();
    let m = default_keybindings_map();
    assert forall|j: int| 0 <= j < list.len() implies m.contains_key((#[trigger] list[j]).0)
        && m[list[j].0] == list[j].1 by {
        if j == 0 {} else if j == 1 {} else if j == 2 {} else if j == 3 {} else if j == 4 {}
        else if j == 5 {} else if j == 6 {} else if j == 7 {} else if j == 8 {} else if j == 9 {}
        else {}
    }
    let keys = list.map_values(|b: (Keystrokes, Action)| b.0);
    assert forall|k: Keystrokes| m.dom().contains(k) <==> binding_keys(list).contains(k) by {
        if m.dom().contains(k) {
            if k == list[0].0 { assert(keys[0] == k); }
            else if k == list[1].0 { assert(keys[1] == k); }
            else if k == list[2].0 { assert(keys[2] == k); }
            else if k == list[3].0 { assert(keys[3] == k); }
            else if k == list[4].0 { assert(keys[4] == k); }
            else if k == list[5].0 { assert(keys[5] == k); }
            else if k == list[6].0 { assert(keys[6] == k); }
            else if k == list[7].0 { assert(keys[7] == k); }
            else if k == list[8].0 { assert(keys[8] == k); }
            else if k == list[9].0 { assert(keys[9] == k); }
            else { assert(keys[10] == k); }
        }
        if binding_keys(list).contains(k) {
            let w = choose|w: int| 0 <= w < keys.len() && keys[w] == k;
            assert(m.contains_key(list[w].0));
        }
    }
    assert(m.dom() =~= binding_keys(list));
}

/// The bindings that hold when the preferences name none: escape closes,
/// control-f toggles the favorite, tab and down go to the next entry,
/// shift-tab and up to the previous one, and control-1 to control-5 launch
/// the entries with those indices.
pub fn default_keybindings() -> (b: Keybindings)
    ensures
        b@ == default_keybindings_map(),
{
    let none = Modifiers::empty();
    let control = Modifiers::control_only();
    let shift = Modifiers::shift_only();
    let mut b = Keybindings::new();
    b.insert(Keystrokes { key: Key::Escape, modifiers: none }, Action::Close);
    b.insert(Keystrokes { key: Key::Character('f'), modifiers: control }, Action::ToggleFavorite);
    b.insert(Keystrokes { key: Key::Tab, modifiers: none }, Action::NextEntry);
    b.insert(Keystrokes { key: Key::Down, modifiers: none }, Action::NextEntry);
    b.insert(Keystrokes { key: Key::Tab, modifiers: shift }, Action::PreviousEntry);
    b.insert(Keystrokes { key: Key::Up, modifiers: none }, Action::PreviousEntry);
    b.insert(Keystrokes { key: Key::Character('1'), modifiers: control }, Action::LaunchEntry(1));
    b.insert(Keystrokes { key: Key::Character('2'), modifiers: control }, Action::LaunchEntry(2));
    b.insert(Keystrokes { key: Key::Character('3'), modifiers: control }, Action::LaunchEntry(3));
    b.insert(Keystrokes { key: Key::Character('4'), modifiers: control }, Action::LaunchEntry(4));
    b.insert(Keystrokes { key: Key::Character('5'), modifiers: control }, Action::LaunchEntry(5));
    b
}

/// The default bindings with `extended_keybindings` laid over them: a
/// keystroke bound in `extended_keybindings` triggers its action there, any
/// other keeps its default action.
pub fn extend_keybindings(extended_keybindings: Keybindings) -> (b: Keybindings)
    ensures
        b@ == default_keybindings_map().union_prefer_right(extended_keybindings@),
{
    let mut base_keybindings = default_keybindings();
    base_keybindings.extend(extended_keybindings);
    base_keybindings
}

// ---------------------------------------------------------------------------
// What is written is read back
// ---------------------------------------------------------------------------

/// No character of `s` is `c`.
pub open spec fn lacks(s: Seq<char>, c: char) -> bool {
    forall|j: int| 0 <= j < s.len() ==> s[j] != c
}

proof fn lemma_modifier_name_literals()
    ensures
        "super"@.len() == 5 && lacks("super"@, '-'),
        "control"@.len() == 7 && lacks("control"@, '-'),
        "alt"@.len() == 3 && lacks("alt"@, '-'),
        "shift"@.len() == 5 && lacks("shift"@, '-'),
        modifier_named("super"@) == Some(Modifiers { super_key: true, ..no_modifiers() }),
        modifier_named("control"@) == Some(Modifiers { control: true, ..no_modifiers() }),
        modifier_named("alt"@) == Some(Modifiers { alt: true, ..no_modifiers() }),
        modifier_named("shift"@) == Some(Modifiers { shift: true, ..no_modifiers() }),
{
    reveal_strlit("super");
    reveal_strlit("control");
    reveal_strlit("alt");
    reveal_strlit("shift");
    assert("super"@.len() != "control"@.len());
    assert("super"@[1] != "shift"@[1]);
    assert("super"@.len() != "alt"@.len());
    assert("alt"@.len() != "control"@.len());
    assert("alt"@.len() != "shift"@.len());
    assert("shift"@.len() != "control"@.len());
}

proof fn lemma_join_parts(parts: Seq<Seq<char>>)
    requires
        parts.len() >= 1,
        forall|i: int| 0 <= i < parts.len() ==> (#[trigger] parts[i]).len() > 0 && lacks(
            parts[i],
            '-',
        ),
    ensures
        split_seq(join_with(parts, '-'), '-') == parts,
        join_with(parts, '-').len() > 0,
    decreases parts.len(),
{
    if parts.len() == 1 {
        lemma_split_seq_no_sep(parts[0], '-');
        assert(seq![parts[0]] =~= parts);
    } else {
        let init = parts.drop_last();
        assert forall|i: int| 0 <= i < init.len() implies (#[trigger] init[i]).len() > 0 && lacks(
            init[i],
            '-',
        ) by {
            assert(init[i] == parts[i]);
        }
        lemma_join_parts(init);
        let last = parts.last();
        assert(lacks(last, '-'));
        lemma_split_seq_after_sep(join_with(init, '-'), last, '-');
        assert(init.push(last) =~= parts);
    }
}

proof fn lemma_fold_names(m: Modifiers)
    ensures
        fold_modifier_parts(modifier_names(m)) == Ok::<Modifiers, Seq<char>>(m),
{
    lemma_modifier_name_literals();
    let a: Seq<Seq<char>> = if m.super_key {
        seq!["super"@]
    } else {
        Seq::empty()
    };
    let b: Seq<Seq<char>> = if m.control {
        seq!["control"@]
    } else {
        Seq::empty()
    };
    let c: Seq<Seq<char>> = if m.alt {
        seq!["alt"@]
    } else {
        Seq::empty()
    };
    let d: Seq<Seq<char>> = if m.shift {
        seq!["shift"@]
    } else {
        Seq::empty()
    };
    let m1 = Modifiers { super_key: m.super_key, ..no_modifiers() };
    let m2 = Modifiers { super_key: m.super_key, control: m.control, ..no_modifiers() };
    let m3 = Modifiers { shift: false, ..m };
    assert(fold_modifier_parts(a) == Ok::<Modifiers, Seq<char>>(m1)) by {
        if m.super_key {
            assert(a.drop_last() =~= Seq::<Seq<char>>::empty());
        }
    }
    assert(fold_modifier_parts(a + b) == Ok::<Modifiers, Seq<char>>(m2)) by {
        if m.control {
            assert((a + b).drop_last() =~= a);
            assert((a + b).last() == "control"@);
        } else {
            assert(a + b =~= a);
        }
    }
    assert(fold_modifier_parts(a + b + c) == Ok::<Modifiers, Seq<char>>(m3)) by {
        if m.alt {
            assert((a + b + c).drop_last() =~= a + b);
            assert((a + b + c).last() == "alt"@);
        } else {
            assert(a + b + c =~= a + b);
        }
    }
    assert(fold_modifier_parts(a + b + c + d) == Ok::<Modifiers, Seq<char>>(m)) by {
        if m.shift {
            assert((a + b + c + d).drop_last() =~= a + b + c);
            assert((a + b + c + d).last() == "shift"@);
        } else {
            assert(a + b + c + d =~= a + b + c);
        }
    }
    assert(modifier_names(m) == a + b + c + d);
}

/// Writing a set of modifiers and reading the text back gives the same set.
pub proof fn lemma_modifiers_round_trip(m: Modifiers)
    ensures
        parse_modifiers(modifiers_text(m)) == Ok::<Modifiers, Seq<char>>(m),
        (modifiers_text(m).len() == 0) == (m == no_modifiers()),
        lacks(modifiers_text(m), '-') == (modifier_names(m).len() <= 1),
{
    lemma_modifier_name_literals();
    let names = modifier_names(m);
    if m == no_modifiers() {
        assert(names =~= Seq::<Seq<char>>::empty());
    } else {
        assert forall|i: int| 0 <= i < names.len() implies (#[trigger] names[i]).len() > 0
            && lacks(names[i], '-') by {
        }
        lemma_join_parts(names);
        lemma_fold_names(m);
        if names.len() > 1 {
            let init = names.drop_last();
            let j = join_with(init, '-');
            assert forall|i: int| 0 <= i < init.len() implies (#[trigger] init[i]).len() > 0
                && lacks(init[i], '-') by {
                assert(init[i] == names[i]);
            }
            lemma_join_parts(init);
            assert(modifiers_text(m)[j.len() as int] == '-');
        } else {
            assert(names.len() == 1);
            assert(modifiers_text(m) == names[0]);
        }
    }
}

/// The keys that a key text can name: every key but an unidentified one, a
/// character key only for an alphanumeric character other than `-`.
pub open spec fn is_readable_key(k: Key) -> bool {
    match k {
        Key::Unidentified => false,
        Key::Character(c) => is_alphanumeric_char(c) && c != '-',
        _ => true,
    }
}

proof fn lemma_key_literals()
    ensures
        "tab"@.len() == 3 && lacks("tab"@, '-'),
        "escape"@.len() == 6 && lacks("escape"@, '-'),
        "up"@.len() == 2 && lacks("up"@, '-'),
        "down"@.len() == 4 && lacks("down"@, '-'),
        "left"@.len() == 4 && lacks("left"@, '-'),
        "right"@.len() == 5 && lacks("right"@, '-'),
        key_named("tab"@) == Some(Key::Tab),
        key_named("escape"@) == Some(Key::Escape),
        key_named("up"@) == Some(Key::Up),
        key_named("down"@) == Some(Key::Down),
        key_named("left"@) == Some(Key::Left),
        key_named("right"@) == Some(Key::Right),
{
    reveal_strlit("tab");
    reveal_strlit("escape");
    reveal_strlit("up");
    reveal_strlit("down");
    reveal_strlit("left");
    reveal_strlit("right");
    assert("escape"@.len() != "tab"@.len());
    assert("up"@.len() != "tab"@.len());
    assert("up"@.len() != "escape"@.len());
    assert("down"@.len() != "tab"@.len());
    assert("down"@.len() != "escape"@.len());
    assert("down"@.len() != "up"@.len());
    assert("left"@.len() != "tab"@.len());
    assert("left"@.len() != "escape"@.len());
    assert("left"@.len() != "up"@.len());
    assert("left"@[0] != "down"@[0]);
    assert("right"@.len() != "tab"@.len());
    assert("right"@.len() != "escape"@.len());
    assert("right"@.len() != "up"@.len());
    assert("right"@.len() != "down"@.len());
    assert("right"@.len() != "left"@.len());
}

/// Writing a readable key and reading the text back gives the same key.
pub proof fn lemma_key_round_trip(k: Key)
    requires
        is_readable_key(k),
    ensures
        parse_key(key_text(k)) == Ok::<Key, Seq<char>>(k),
        lacks(key_text(k), '-'),
        key_text(k).len() > 0,
{
    lemma_key_literals();
}

/// Writing a keystroke with a readable key and reading the text back gives
/// the same keystroke.
pub proof fn lemma_keystrokes_round_trip(k: Keystrokes)
    requires
        is_readable_key(k.key),
    ensures
        parse_keystrokes(keystrokes_text(k)) == Ok::<Keystrokes, Seq<char>>(k),
{
    lemma_key_round_trip(k.key);
    lemma_modifiers_round_trip(k.modifiers);
    let m = modifiers_text(k.modifiers);
    let kt = key_text(k.key);
    let t = keystrokes_text(k);
    if m.len() == 0 {
        assert(t == kt);
        lemma_last_index_none(t, '-');
    } else {
        assert(t == m.push('-') + kt);
        assert(is_last_index(t, '-', m.len() as int)) by {
            assert forall|j: int| m.len() < j < t.len() implies t[j] != '-' by {
                assert(t[j] == kt[j - m.len() - 1]);
            }
        }
        lemma_last_index_unique(t, '-', m.len() as int);
        assert(t.subrange(0, m.len() as int) =~= m);
        assert(t.subrange(m.len() as int + 1, t.len() as int) =~= kt);
    }
}

proof fn lemma_action_literals()
    ensures
        "toggle_favorite"@ != "close"@,
        "toggle_favorite"@ != "next_entry"@,
        "toggle_favorite"@ != "previous_entry"@,
        "close"@ != "next_entry"@,
        "close"@ != "previous_entry"@,
        "next_entry"@ != "previous_entry"@,
        "launch_entry"@ != "toggle_favorite"@,
        "launch_entry"@ != "close"@,
        "launch_entry"@ != "next_entry"@,
        "launch_entry"@ != "previous_entry"@,
        lacks("toggle_favorite"@, '('),
        lacks("close"@, '('),
        lacks("next_entry"@, '('),
        lacks("previous_entry"@, '('),
        lacks("launch_entry"@, '('),
        "launch_entry("@ == "launch_entry"@.push('('),
        ")"@ == seq![')'],
{
    reveal_strlit("toggle_favorite");
    reveal_strlit("close");
    reveal_strlit("next_entry");
    reveal_strlit("previous_entry");
    reveal_strlit("launch_entry");
    reveal_strlit("launch_entry(");
    reveal_strlit(")");
    assert("toggle_favorite"@.len() != "close"@.len());
    assert("toggle_favorite"@.len() != "next_entry"@.len());
    assert("toggle_favorite"@[0] != "previous_entry"@[0]);
    assert("close"@.len() != "next_entry"@.len());
    assert("close"@.len() != "previous_entry"@.len());
    assert("next_entry"@.len() != "previous_entry"@.len());
    assert("launch_entry"@.len() != "toggle_favorite"@.len());
    assert("launch_entry"@.len() != "close"@.len());
    assert("launch_entry"@.len() != "next_entry"@.len());
    assert("launch_entry"@.len() != "previous_entry"@.len());
    assert("launch_entry("@ =~= "launch_entry"@.push('('));
    assert(")"@ =~= seq![')']);
}

/// Writing an action and reading the text back gives the same action.
pub proof fn lemma_action_round_trip(a: Action)
    ensures
        parse_action(action_text(a)) == Ok::<Action, Seq<char>>(a),
{
    lemma_action_literals();
    let t = action_text(a);
    match a {
        Action::LaunchEntry(n) => {
            let d = decimal_text(n as nat);
            lemma_decimal_text(n as nat);
            let name = "launch_entry"@;
            let param = d.push(')');
            assert(t =~= name.push('(') + param);
            let i = name.len() as int;
            assert(is_first_index(t, '(', i)) by {
                assert forall|j: int| 0 <= j < i implies t[j] != '(' by {
                    assert(t[j] == name[j]);
                }
            }
            lemma_first_index_unique(t, '(', i);
            assert(t.subrange(0, i) =~= name);
            assert(t.subrange(i + 1, t.len() as int) =~= param);
            assert(param.drop_last() =~= d);
            assert(d.len() > 0 && d.last() != ')');
            assert(trim_end_char_seq(d, ')') == d);
            assert(trim_end_char_seq(param, ')') == trim_end_char_seq(d, ')'));
            assert(trim_start_seq(d) == d);
            assert(trim_end_seq(d) == d);
            assert(d.drop_first().len() + 1 == d.len());
        },
        _ => {
            assert(forall|j: int| 0 <= j < t.len() ==> t[j] != '(');
            assert(first_index(t, '(') is None);
        },
    }
}

impl std::str::FromStr for Modifiers {
    type Err = String;

    fn from_str(s: &str) -> (r: Result<Self, Self::Err>)
        ensures
            same_outcome(r, parse_modifiers(s@)),
    {
        Modifiers::from_str(s)
    }
}

impl std::str::FromStr for Key {
    type Err = String;

    fn from_str(s: &str) -> (r: Result<Self, Self::Err>)
        ensures
            same_outcome(r, parse_key(s@)),
    {
        Key::from_str(s)
    }
}

impl std::str::FromStr for Action {
    type Err = String;

    fn from_str(s: &str) -> (r: Result<Self, Self::Err>)
        ensures
            same_outcome(r, parse_action(s@)),
    {
        Action::from_str(s)
    }
}

impl std::str::FromStr for Keystrokes {
    type Err = String;

    fn from_str(s: &str) -> (r: Result<Self, Self::Err>)
        ensures
            same_outcome(r, parse_keystrokes(s@)),
    {
        Keystrokes::from_str(s)
    }
}

} // verus!
