//! The launcher's user preferences: the favorite applications and the
//! keybindings. The theme, which is made of colors and sizes in floating
//! point, and the file the preferences come from stay with the program.
use vstd::prelude::*;

pub mod keybindings;
pub mod theme;

use keybindings::{default_keybindings, default_keybindings_map, Keybindings};

verus! {

/// The TOML array type of `toml_edit`.
#[verifier::external_type_specification]
#[verifier::external_body]
pub struct ExTomlArray(toml_edit::Array);

/// The strings that a `toml_edit::Array` of string values holds, in order.
pub uninterp spec fn toml_array_strings(a: toml_edit::Array) -> Seq<Seq<char>>;

/// Calls `toml_edit::Array::from_iter` on the strings of `items`. By the
/// source of `toml_edit`, the array holds one string value per item, in order.
#[verifier::external_body]
fn toml_array_of_strings(items: &Vec<String>) -> (a: toml_edit::Array)
    ensures
        toml_array_strings(a) == items@.map_values(|s: String| s@),
{
    toml_edit::Array::from_iter(items)
}

/// What reading `content` as a TOML document fails with: the message of the
/// parse error, or none when it is a TOML document.
pub uninterp spec fn toml_parse_error(content: Seq<char>) -> Option<Seq<char>>;

/// The text that `toml_edit` writes for the document read from `content`
/// once the top-level `key` is set to an array of the strings `items`: the
/// other keys, the comments and the layout of `content` are kept.
pub uninterp spec fn toml_with_string_array(
    content: Seq<char>,
    key: Seq<char>,
    items: Seq<Seq<char>>,
) -> Seq<char>;

/// Reads `content` as a `toml_edit::DocumentMut` (`str::parse`), sets its
/// top-level `key` through `IndexMut` to `toml_edit::value` of the array that
/// `toml_edit::Array::from_iter` makes of `items`, and writes the document
/// back with `to_string`. Parse errors become their message. Whether the
/// parse fails, with which message, and the text written are each named,
/// as functions of the arguments alone: toml_edit reads, edits and writes
/// deterministically. What the text holds is not stated further.
#[verifier::external_body]
fn toml_set_string_array(content: &str, key: &str, items: &Vec<String>) -> (r: Result<
    String,
    String,
>)
    ensures
        r is Ok <==> toml_parse_error(content@) is None,
        r matches Err(m) ==> toml_parse_error(content@) == Some(m@),
        r matches Ok(t) ==> t@ == toml_with_string_array(content@, key@, texts(items@)),
{
    let mut doc = content.parse::<toml_edit::DocumentMut>().map_err(|e| e.message().to_string())?;
    doc[key] = toml_edit::value(toml_edit::Array::from_iter(items));
    Ok(doc.to_string())
}

/// The preferences text `content` with the top-level `key` set to the array
/// of the strings `items`; the parser's message when `content` is not a TOML
/// document.
pub fn set_preference(content: &str, key: &str, items: &Vec<String>) -> (r: Result<
    String,
    String,
>)
    ensures
        r is Ok <==> toml_parse_error(content@) is None,
        r matches Err(m) ==> toml_parse_error(content@) == Some(m@),
        r matches Ok(t) ==> t@ == toml_with_string_array(content@, key@, texts(items@)),
{
    toml_set_string_array(content, key, items)
}

/// No two items of `s` are equal.
pub open spec fn no_duplicates<T>(s: Seq<T>) -> bool {
    forall|i: int, j: int| 0 <= i < s.len() && 0 <= j < s.len() && i != j ==> s[i] != s[j]
}

/// The texts of a list of strings.
pub open spec fn texts(s: Seq<String>) -> Seq<Seq<char>> {
    s.map_values(|x: String| x@)
}

/// The identifiers of the favorite applications, each once.
pub struct FavoriteApps {
    items: Vec<String>,
}

impl FavoriteApps {
    #[verifier::type_invariant]
    spec fn distinct(self) -> bool {
        no_duplicates(texts(self.items@))
    }

    /// The favorites in the order they were added.
    pub closed spec fn listing(self) -> Seq<Seq<char>> {
        texts(self.items@)
    }

    /// The set of favorite identifiers.
    pub open spec fn set(self) -> Set<Seq<char>> {
        self.listing().to_set()
    }

    /// No favorite.
    pub fn new() -> (f: FavoriteApps)
        ensures
            f.listing() == Seq::<Seq<char>>::empty(),
            f.set() == Set::<Seq<char>>::empty(),
    {
        let f = FavoriteApps { items: Vec::new() };
        assert(f.listing() =~= Seq::<Seq<char>>::empty());
        assert(f.set() =~= Set::<Seq<char>>::empty());
        f
    }

    fn position(&self, id: &String) -> (r: Option<usize>)
        ensures
            match r {
                Some(i) => i < self.listing().len() && self.listing()[i as int] == id@,
                None => !self.listing().contains(id@),
            },
    {
        let mut i: usize = 0;
        while i < self.items.len()
            invariant
                i <= self.items@.len(),
                forall|j: int| 0 <= j < i ==> self.items@[j]@ != id@,
            decreases self.items.len() - i,
        {
            if self.items[i] == *id {
                return Some(i);
            }
            i = i + 1;
        }
        proof {
            if self.listing().contains(id@) {
                let j = choose|j: int| 0 <= j < self.listing().len() && self.listing()[j] == id@;
                assert(self.items@[j]@ == id@);
            }
        }
        None
    }

    /// Whether `id` is a favorite.
    pub fn contains(&self, id: &String) -> (r: bool)
        ensures
            r == self.set().contains(id@),
    {
        self.position(id).is_some()
    }

    /// The number of favorites.
    pub fn len(&self) -> (n: usize)
        ensures
            n == self.listing().len(),
            n == self.set().len(),
    {
        proof {
            use_type_invariant(self);
            self.listing().unique_seq_to_set();
        }
        self.items.len()
    }

    /// Whether there is no favorite.
    pub fn is_empty(&self) -> (r: bool)
        ensures
            r == (self.set() == Set::<Seq<char>>::empty()),
    {
        let n = self.len();
        proof {
            if n > 0 {
                assert(self.set().contains(self.listing()[0]));
            } else {
                assert(self.set() =~= Set::<Seq<char>>::empty());
            }
        }
        n == 0
    }

    /// Makes `id` a favorite; false when it was one already.
    pub fn insert(&mut self, id: String) -> (r: bool)
        ensures
            r == !old(self).set().contains(id@),
            final(self).set() == old(self).set().insert(id@),
            r ==> final(self).listing() == old(self).listing().push(id@),
            !r ==> final(self).listing() == old(self).listing(),
    {
        proof {
            use_type_invariant(&*self);
        }
        if self.contains(&id) {
            return false;
        }
        let ghost before = self.items@;
        let mut items = Vec::new();
        std::mem::swap(&mut items, &mut self.items);
        items.push(id);
        assert(texts(items@) =~= texts(before).push(id@));
        assert(no_duplicates(texts(items@)));
        self.items = items;
        proof {
            texts(before).lemma_push_to_set_commute(id@);
        }
        true
    }

    /// Stops `id` from being a favorite; false when it was not one.
    pub fn remove(&mut self, id: &String) -> (r: bool)
        ensures
            r == old(self).set().contains(id@),
            final(self).set() == old(self).set().remove(id@),
            final(self).listing() == old(self).listing().filter(|x: Seq<char>| x != id@),
    {
        proof {
            use_type_invariant(&*self);
        }
        let ghost before = texts(self.items@);
        let found = self.contains(id);
        let mut kept: Vec<String> = Vec::new();
        let mut i: usize = 0;
        while i < self.items.len()
            invariant
                i <= self.items@.len(),
                before == texts(self.items@),
                no_duplicates(before),
                texts(kept@) == before.take(i as int).filter(|x: Seq<char>| x != id@),
                no_duplicates(texts(kept@)),
                forall|k: int| 0 <= k < kept@.len() ==> before.take(i as int).contains(
                    #[trigger] kept@[k]@,
                ),
            decreases self.items.len() - i,
        {
            let ghost prev = kept@;
            assert(before.take((i + 1) as int).drop_last() =~= before.take(i as int));
            reveal(Seq::filter);
            if self.items[i] == *id {
            } else {
                let item = self.items[i].clone();
                kept.push(item);
                assert(texts(kept@) =~= texts(prev).push(before[i as int]));
                assert forall|a: int, b: int|
                    0 <= a < texts(kept@).len() && 0 <= b < texts(kept@).len() && a != b implies texts(
                    kept@,
                )[a] != texts(kept@)[b] by {
                    if a == prev.len() as int || b == prev.len() as int {
                        let o = if a == prev.len() as int {
                            b
                        } else {
                            a
                        };
                        let w = choose|w: int|
                            0 <= w < i && before.take(i as int)[w] == prev[o]@;
                        assert(before[w] == prev[o]@);
                    }
                }
            }
            assert forall|k: int| 0 <= k < kept@.len() implies before.take((i + 1) as int).contains(
                #[trigger] kept@[k]@,
            ) by {
                if k < prev.len() {
                    assert(before.take(i as int).contains(kept@[k]@));
                    let w = choose|w: int| 0 <= w < i && before.take(i as int)[w] == kept@[k]@;
                    assert(before.take((i + 1) as int)[w] == kept@[k]@);
                } else {
                    assert(before.take((i + 1) as int)[i as int] == kept@[k]@);
                }
            }
            i = i + 1;
        }
        assert(before.take(i as int) =~= before);
        self.items = kept;
        assert(self.set() =~= old(self).set().remove(id@)) by {
            let pred = |y: Seq<char>| y != id@;
            assert forall|x: Seq<char>| self.set().contains(x) <==> old(self).set().remove(
                id@,
            ).contains(x) by {
                if old(self).set().remove(id@).contains(x) {
                    let w = choose|w: int| 0 <= w < before.len() && before[w] == x;
                    before.lemma_filter_contains(pred, w);
                }
                if self.set().contains(x) {
                    let w = choose|w: int|
                        0 <= w < self.listing().len() && self.listing()[w] == x;
                    before.lemma_filter_contains_rev(pred, x);
                    before.lemma_filter_pred(pred, w);
                }
            }
        }
        found
    }

    /// The favorites, each once, in the order they were added.
    pub fn to_vec(&self) -> (v: Vec<String>)
        ensures
            texts(v@) == self.listing(),
            no_duplicates(self.listing()),
    {
        proof {
            use_type_invariant(self);
        }
        let mut v: Vec<String> = Vec::new();
        let mut i: usize = 0;
        while i < self.items.len()
            invariant
                i <= self.items@.len(),
                texts(v@) == texts(self.items@).take(i as int),
            decreases self.items.len() - i,
        {
            let ghost prev = v@;
            let item = self.items[i].clone();
            assert(item@ == self.items@[i as int]@);
            v.push(item);
            assert(v@ == prev.push(item));
            assert(texts(v@) =~= texts(prev).push(item@));
            assert(texts(self.items@).take((i + 1) as int) =~= texts(self.items@).take(
                i as int,
            ).push(self.items@[i as int]@));
            i = i + 1;
        }
        assert(texts(self.items@).take(i as int) =~= texts(self.items@));
        v
    }
}

/// The part of the preferences that the launcher's logic reads.
pub struct Preferences {
    /// The bytes of the path of the file the preferences were read from, if
    /// any; without one, nothing is saved.
    pub path: Option<Vec<u8>>,
    pub leading_icon_count: usize,
    pub favorite_apps: FavoriteApps,
    pub keybindings: Keybindings,
}

impl Preferences {
    /// Makes `app_id` a favorite, or stops it from being one when it was, and
    /// returns the favorites as a TOML array to be saved.
    pub fn toggle_favorite(&mut self, app_id: String) -> (a: toml_edit::Array)
        ensures
            final(self).favorite_apps.set() == (if old(self).favorite_apps.set().contains(
                app_id@,
            ) {
                old(self).favorite_apps.set().remove(app_id@)
            } else {
                old(self).favorite_apps.set().insert(app_id@)
            }),
            toml_array_strings(a) == final(self).favorite_apps.listing(),
            no_duplicates(toml_array_strings(a)),
            final(self).leading_icon_count == old(self).leading_icon_count,
            final(self).keybindings == old(self).keybindings,
            final(self).path == old(self).path,
    {
        let id = app_id.clone();
        if !self.favorite_apps.insert(id) {
            self.favorite_apps.remove(&app_id);
        }
        let items = self.favorite_apps.to_vec();
        toml_array_of_strings(&items)
    }
}

impl Default for Preferences {
    fn default() -> (p: Preferences)
        ensures
            p.path is None,
            p.leading_icon_count == 10,
            p.favorite_apps.set() == Set::<Seq<char>>::empty(),
            p.keybindings@ == default_keybindings_map(),
    {
        Preferences {
            path: None,
            leading_icon_count: 10,
            favorite_apps: FavoriteApps::new(),
            keybindings: default_keybindings(),
        }
    }
}

} // verus!
