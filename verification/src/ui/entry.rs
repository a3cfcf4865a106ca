//! The entries that the launcher lists, the registry that holds them and
//! orders the visible ones, and what each listed entry shows beside its text.
use vstd::prelude::*;
use crate::preferences::Preferences;
use crate::preferences::theme::{ButtonClass, TextClass};
use crate::text::{
    bytes_to_string_lossy, decimal_text, push_char, push_decimal, string_from_literal,
    utf8_lossy_text,
};
use vstd::string::StringExecFns;
use fuzzy_matcher::FuzzyMatcher;

verus! {

broadcast use vstd::string::group_string_axioms;

/// What `SkimMatcherV2::default().fuzzy_match(choice, pattern)` returns: the
/// score of `pattern` as a fuzzy match within `choice`, if it matches.
pub uninterp spec fn skim_score(choice: Seq<char>, pattern: Seq<char>) -> Option<i64>;

/// Calls `fuzzy_match` of the `fuzzy_matcher` crate on a default
/// `SkimMatcherV2` (smart case, no element limit). The result is named; the
/// source shows that an empty pattern matches with score 0.
#[verifier::external_body]
fn skim_fuzzy_match(choice: &str, pattern: &str) -> (r: Option<i64>)
    ensures
        r == skim_score(choice@, pattern@),
        pattern@.len() == 0 ==> r == Some(0i64),
{
    fuzzy_matcher::skim::SkimMatcherV2::default().fuzzy_match(choice, pattern)
}

/// The icon of an entry: a name still to be resolved, or a loaded image.
#[derive(Clone)]
pub enum EntryIcon<H> {
    Lazy(String),
    Handle(H),
}

/// A listed item: its identifier (the bytes of a command line or a path), its
/// main and secondary text, and its icon.
#[derive(Clone)]
pub struct Entry<H> {
    pub id: Vec<u8>,
    pub main: String,
    pub secondary: Option<String>,
    pub icon: EntryIcon<H>,
}

impl<H> Entry<H> {
    pub fn new(id: Vec<u8>, main: String, secondary: Option<String>, icon: EntryIcon<H>) -> (e:
        Entry<H>)
        ensures
            e.id@ == id@,
            e.main@ == main@,
            e.secondary == secondary,
            e.icon == icon,
    {
        Entry { id, main, secondary, icon }
    }
}

/// The entries found by a scan, and the order in which the visible ones are listed.
pub struct EntryRegistry<H> {
    entries: Vec<Entry<H>>,
    projection: Vec<usize>,
}

/// The scores of the entries' main texts against `pattern`.
pub open spec fn entry_scores<H>(entries: Seq<Entry<H>>, pattern: Seq<char>) -> Seq<
    Option<i64>,
> {
    entries.map_values(|e: Entry<H>| skim_score(e.main@, pattern))
}

/// Which entries are favorites: those whose identifier, read as UTF-8 with
/// replacement, is among `favorites`.
pub open spec fn entry_favorites<H>(entries: Seq<Entry<H>>, favorites: Set<Seq<char>>) -> Seq<
    bool,
> {
    entries.map_values(|e: Entry<H>| favorites.contains(utf8_lossy_text(e.id@)))
}

/// Entry `a` is listed before entry `b`: favorites first, then the higher
/// score, then the earlier entry.
pub open spec fn ranks_before(scores: Seq<Option<i64>>, favorites: Seq<bool>, a: int, b: int) -> bool {
    ||| (favorites[a] && !favorites[b])
    ||| (favorites[a] == favorites[b] && scores[a]->0 > scores[b]->0)
    ||| (favorites[a] == favorites[b] && scores[a]->0 == scores[b]->0 && a < b)
}

/// Position `i` occurs in `order`.
pub open spec fn lists(order: Seq<usize>, i: int) -> bool {
    exists|p: int| 0 <= p < order.len() && order[p] as int == i
}

/// `order` lists every matching entry (one with a score) once, and no other,
/// in the order `ranks_before`.
pub open spec fn is_ranking(scores: Seq<Option<i64>>, favorites: Seq<bool>, order: Seq<usize>) -> bool {
    &&& forall|p: int| 0 <= p < order.len() ==> (#[trigger] order[p]) < scores.len() && scores[order[p] as int] is Some
    &&& forall|i: int| 0 <= i < scores.len() && (#[trigger] scores[i]) is Some ==> lists(order, i)
    &&& forall|p: int, q: int| 0 <= p < q < order.len() ==> ranks_before(scores, favorites, #[trigger] order[p] as int, #[trigger] order[q] as int)
}

proof fn lemma_ranks_before_total(scores: Seq<Option<i64>>, favorites: Seq<bool>, a: int, b: int)
    requires
        a != b,
    ensures
        ranks_before(scores, favorites, a, b) || ranks_before(scores, favorites, b, a),
        !(ranks_before(scores, favorites, a, b) && ranks_before(scores, favorites, b, a)),
{
}

proof fn lemma_ranks_before_transitive(
    scores: Seq<Option<i64>>,
    favorites: Seq<bool>,
    a: int,
    b: int,
    c: int,
)
    requires
        ranks_before(scores, favorites, a, b),
        ranks_before(scores, favorites, b, c),
    ensures
        ranks_before(scores, favorites, a, c),
{
}

/// Two orders that both rank the same entries are the same order.
pub proof fn lemma_ranking_unique(
    scores: Seq<Option<i64>>,
    favorites: Seq<bool>,
    r1: Seq<usize>,
    r2: Seq<usize>,
)
    requires
        is_ranking(scores, favorites, r1),
        is_ranking(scores, favorites, r2),
    ensures
        r1 == r2,
    decreases r1.len() + r2.len(),
{
    if r1.len() == 0 || r2.len() == 0 {
        if r1.len() > 0 {
            assert(lists(r2, r1[0] as int));
        }
        if r2.len() > 0 {
            assert(lists(r1, r2[0] as int));
        }
        assert(r1 =~= r2);
    } else {
        // The first elements agree: each ranks before every other entry of its order.
        let x = r1[0];
        let y = r2[0];
        if x != y {
            assert(lists(r2, x as int));
            let qx = choose|q: int| 0 <= q < r2.len() && r2[q] as int == x as int;
            assert(qx > 0);
            assert(ranks_before(scores, favorites, y as int, x as int));
            assert(lists(r1, y as int));
            let qy = choose|q: int| 0 <= q < r1.len() && r1[q] as int == y as int;
            assert(qy > 0);
            assert(ranks_before(scores, favorites, x as int, y as int));
            lemma_ranks_before_total(scores, favorites, x as int, y as int);
        }
        let s1 = r1.drop_first();
        let s2 = r2.drop_first();
        let scores2 = scores.update(x as int, None);
        assert forall|p: int| 0 <= p < s1.len() implies (#[trigger] s1[p]) < scores2.len()
            && scores2[s1[p] as int] is Some by {
            assert(ranks_before(scores, favorites, r1[0] as int, r1[p + 1] as int));
        }
        assert forall|p: int| 0 <= p < s2.len() implies (#[trigger] s2[p]) < scores2.len()
            && scores2[s2[p] as int] is Some by {
            assert(ranks_before(scores, favorites, r2[0] as int, r2[p + 1] as int));
        }
        assert forall|i: int| 0 <= i < scores2.len() && (#[trigger] scores2[i]) is Some implies lists(
            s1,
            i,
        ) by {
            assert(scores[i] is Some);
            assert(lists(r1, i));
            let q = choose|q: int| 0 <= q < r1.len() && r1[q] as int == i;
            assert(q != 0);
            assert(s1[q - 1] as int == i);
        }
        assert forall|i: int| 0 <= i < scores2.len() && (#[trigger] scores2[i]) is Some implies lists(
            s2,
            i,
        ) by {
            assert(scores[i] is Some);
            assert(lists(r2, i));
            let q = choose|q: int| 0 <= q < r2.len() && r2[q] as int == i;
            assert(q != 0);
            assert(s2[q - 1] as int == i);
        }
        assert forall|p: int, q: int| 0 <= p < q < s1.len() implies ranks_before(
            scores2,
            favorites,
            #[trigger] s1[p] as int,
            #[trigger] s1[q] as int,
        ) by {
            assert(ranks_before(scores, favorites, r1[p + 1] as int, r1[q + 1] as int));
            assert(ranks_before(scores, favorites, r1[0] as int, r1[p + 1] as int));
            assert(ranks_before(scores, favorites, r1[0] as int, r1[q + 1] as int));
        }
        assert forall|p: int, q: int| 0 <= p < q < s2.len() implies ranks_before(
            scores2,
            favorites,
            #[trigger] s2[p] as int,
            #[trigger] s2[q] as int,
        ) by {
            assert(ranks_before(scores, favorites, r2[p + 1] as int, r2[q + 1] as int));
            assert(ranks_before(scores, favorites, r2[0] as int, r2[p + 1] as int));
            assert(ranks_before(scores, favorites, r2[0] as int, r2[q + 1] as int));
        }
        lemma_ranking_unique(scores2, favorites, s1, s2);
        assert(r1 =~= r2) by {
            assert(r1 =~= seq![x] + s1);
            assert(r2 =~= seq![y] + s2);
        }
    }
}

/// The order in which the matching entries are listed: favorites first, then
/// by descending score, ties kept in the order of the entries.
pub fn rank_entries(scores: &Vec<Option<i64>>, favorites: &Vec<bool>) -> (order: Vec<usize>)
    requires
        scores@.len() == favorites@.len(),
    ensures
        is_ranking(scores@, favorites@, order@),
{
    let n = scores.len();
    let mut ranked: Vec<usize> = Vec::new();
    let mut i: usize = 0;
    while i < n
        invariant
            n == scores@.len(),
            scores@.len() == favorites@.len(),
            i <= n,
            forall|p: int| 0 <= p < ranked@.len() ==> (#[trigger] ranked@[p]) < i && scores@[ranked@[p] as int] is Some,
            forall|j: int| 0 <= j < i && (#[trigger] scores@[j]) is Some ==> lists(ranked@, j),
            forall|p: int, q: int| 0 <= p < q < ranked@.len() ==> ranks_before(scores@, favorites@, #[trigger] ranked@[p] as int, #[trigger] ranked@[q] as int),
        decreases n - i,
    {
        if scores[i].is_some() {
            let si = match scores[i] {
                Some(v) => v,
                None => 0,
            };
            let fi = favorites[i];
            let mut p: usize = 0;
            while p < ranked.len()
                invariant
                    n == scores@.len(),
                    scores@.len() == favorites@.len(),
                    i < n,
                    scores@[i as int] == Some(si),
                    favorites@[i as int] == fi,
                    p <= ranked@.len(),
                    forall|r: int| 0 <= r < ranked@.len() ==> (#[trigger] ranked@[r]) < i && scores@[ranked@[r] as int] is Some,
                    forall|r: int| 0 <= r < p ==> ranks_before(scores@, favorites@, #[trigger] ranked@[r] as int, i as int),
                ensures
                    p <= ranked@.len(),
                    forall|r: int| 0 <= r < p ==> ranks_before(scores@, favorites@, #[trigger] ranked@[r] as int, i as int),
                    p < ranked@.len() ==> ranks_before(scores@, favorites@, i as int, ranked@[p as int] as int),
                decreases ranked.len() - p,
            {
                let x = ranked[p];
                let fx = favorites[x];
                let sx = match scores[x] {
                    Some(v) => v,
                    None => 0,
                };
                if (fi && !fx) || (fi == fx && si > sx) {
                    break;
                }
                p = p + 1;
            }
            let ghost before = ranked@;
            proof {
                if p < before.len() {
                    assert(ranks_before(scores@, favorites@, i as int, before[p as int] as int));
                }
            }
            ranked.insert(p, i);
            proof {
                assert forall|a: int, b: int| 0 <= a < b < ranked@.len() implies ranks_before(
                    scores@,
                    favorites@,
                    #[trigger] ranked@[a] as int,
                    #[trigger] ranked@[b] as int,
                ) by {
                    if b < p {
                    } else if b == p {
                        assert(ranked@[a] == before[a]);
                    } else if a == p {
                        assert(ranked@[b] == before[b - 1]);
                        if b - 1 > p {
                            assert(ranks_before(scores@, favorites@, before[p as int] as int, before[b - 1] as int));
                            lemma_ranks_before_transitive(scores@, favorites@, i as int, before[p as int] as int, before[b - 1] as int);
                        }
                    } else if a < p {
                        assert(ranked@[a] == before[a]);
                        assert(ranked@[b] == before[b - 1]);
                    } else {
                        assert(ranked@[a] == before[a - 1]);
                        assert(ranked@[b] == before[b - 1]);
                    }
                }
                assert forall|j: int| 0 <= j < i + 1 && (#[trigger] scores@[j]) is Some implies lists(ranked@, j) by {
                    if j == i {
                        assert(ranked@[p as int] as int == j);
                    } else {
                        assert(lists(before, j));
                        let w = choose|w: int| 0 <= w < before.len() && before[w] as int == j;
                        if w < p {
                            assert(ranked@[w] as int == j);
                        } else {
                            assert(ranked@[w + 1] as int == j);
                        }
                    }
                }
            }
        } else {
            proof {
                assert forall|j: int| 0 <= j < i + 1 && (#[trigger] scores@[j]) is Some implies lists(ranked@, j) by {
                }
            }
        }
        i = i + 1;
    }
    ranked
}

impl<H> EntryRegistry<H> {
    #[verifier::type_invariant]
    spec fn projection_in_range(self) -> bool {
        forall|p: int| 0 <= p < self.projection@.len() ==> (#[trigger] self.projection@[p]) < self.entries@.len()
    }

    /// The entries, in the order they were added.
    pub closed spec fn entries(self) -> Seq<Entry<H>> {
        self.entries@
    }

    /// The positions of the visible entries, in the order they are listed.
    pub closed spec fn projection(self) -> Seq<usize> {
        self.projection@
    }

    /// No entry.
    pub fn new() -> (r: EntryRegistry<H>)
        ensures
            r.entries().len() == 0,
            r.projection().len() == 0,
            indices_below(r.projection(), r.entries().len()),
    {
        EntryRegistry { entries: Vec::new(), projection: Vec::new() }
    }

    /// Removes every entry.
    pub fn clear(&mut self)
        ensures
            final(self).entries().len() == 0,
            final(self).projection().len() == 0,
            indices_below(final(self).projection(), final(self).entries().len()),
    {
        self.projection = Vec::new();
        self.entries = Vec::new();
    }

    /// Adds an entry, visible at the end of the listing.
    pub fn push(&mut self, entry: Entry<H>)
        ensures
            final(self).entries() == old(self).entries().push(entry),
            final(self).projection() == old(self).projection().push(old(self).entries().len() as usize),
            indices_below(final(self).projection(), final(self).entries().len()),
    {
        proof {
            use_type_invariant(&*self);
        }
        let mut taken = EntryRegistry::new();
        std::mem::swap(&mut taken, self);
        proof {
            use_type_invariant(&taken);
        }
        let EntryRegistry { mut entries, mut projection } = taken;
        let index = entries.len();
        entries.push(entry);
        projection.push(index);
        *self = EntryRegistry { entries, projection };
        proof {
            use_type_invariant(&*self);
        }
    }

    /// Adds the entries in order, each visible at the end of the listing.
    pub fn extend(&mut self, batch: Vec<Entry<H>>)
        ensures
            final(self).entries() == old(self).entries() + batch@,
            final(self).projection() == old(self).projection() + Seq::new(
                batch@.len(),
                |k: int| (old(self).entries().len() + k) as usize,
            ),
            indices_below(final(self).projection(), final(self).entries().len()),
    {
        proof {
            use_type_invariant(&*self);
        }
        let ghost incoming = batch@;
        let ghost base = self.entries().len();
        for entry in it: batch
            invariant
                it.seq() == incoming,
                self.entries() == old(self).entries() + incoming.take(it.index() as int),
                self.projection() == old(self).projection() + Seq::new(
                    it.index() as nat,
                    |j: int| (base + j) as usize,
                ),
                base == old(self).entries().len(),
                indices_below(self.projection(), self.entries().len()),
        {
            let ghost k = it.index();
            assert(entry == incoming[k as int]);
            self.push(entry);
            assert(incoming.take(k + 1) =~= incoming.take(k as int).push(incoming[k as int]));
            assert(Seq::new((k + 1) as nat, |j: int| (base + j) as usize) =~= Seq::new(
                k as nat,
                |j: int| (base + j) as usize,
            ).push((base + k) as usize));
        }
        assert(incoming.take(incoming.len() as int) =~= incoming);
    }

    /// The entry listed at `visual_index`.
    pub fn get_visible_by_index(&self, visual_index: usize) -> (r: Option<&Entry<H>>)
        ensures
            r == (if visual_index < self.projection().len() {
                Some(&self.entries()[self.projection()[visual_index as int] as int])
            } else {
                None
            }),
    {
        proof {
            use_type_invariant(self);
        }
        if visual_index < self.projection.len() {
            let position = self.projection[visual_index];
            Some(&self.entries[position])
        } else {
            None
        }
    }

    /// The entry added at position `index`.
    pub fn get_by_index(&self, index: usize) -> (r: Option<&Entry<H>>)
        ensures
            r == (if index < self.entries().len() {
                Some(&self.entries()[index as int])
            } else {
                None
            }),
    {
        if index < self.entries.len() {
            Some(&self.entries[index])
        } else {
            None
        }
    }

    /// The position of the last entry added with identifier `id`, which is
    /// the one that the identifier names.
    fn position_of(&self, id: &Vec<u8>) -> (r: Option<usize>)
        ensures
            match r {
                Some(i) => is_last_with_id(self.entries(), id@, i as int),
                None => forall|j: int| 0 <= j < self.entries().len() ==> self.entries()[j].id@ != id@,
            },
    {
        let mut i = self.entries.len();
        while i > 0
            invariant
                i <= self.entries@.len(),
                forall|j: int| i <= j < self.entries@.len() ==> self.entries@[j].id@ != id@,
            decreases i,
        {
            if bytes_equal(&self.entries[i - 1].id, id) {
                return Some(i - 1);
            }
            i = i - 1;
        }
        None
    }

    /// The entry that `id` names: the last one added with that identifier.
    pub fn get_by_id(&self, id: &Vec<u8>) -> (r: Option<&Entry<H>>)
        ensures
            match r {
                Some(e) => exists|i: int| is_last_with_id(self.entries(), id@, i) && *e == self.entries()[i],
                None => forall|j: int| 0 <= j < self.entries().len() ==> self.entries()[j].id@ != id@,
            },
    {
        match self.position_of(id) {
            Some(i) => Some(&self.entries[i]),
            None => None,
        }
    }

    /// Sets the icon of the entry that `id` names; false when no entry has it.
    pub fn set_icon_by_id(&mut self, id: &Vec<u8>, icon: EntryIcon<H>) -> (r: bool)
        ensures
            match r {
                true => exists|i: int| is_last_with_id(old(self).entries(), id@, i) && final(self).entries() == old(self).entries().update(i, Entry { icon, ..old(self).entries()[i] }),
                false => final(self).entries() == old(self).entries() && forall|j: int| 0 <= j < old(self).entries().len() ==> old(self).entries()[j].id@ != id@,
            },
            final(self).projection() == old(self).projection(),
            indices_below(final(self).projection(), final(self).entries().len()),
    {
        proof {
            use_type_invariant(&*self);
        }
        let r = match self.position_of(id) {
            Some(i) => {
                let mut taken = EntryRegistry::new();
                std::mem::swap(&mut taken, self);
                proof {
                    use_type_invariant(&taken);
                }
                let EntryRegistry { mut entries, projection } = taken;
                replace_icon(&mut entries, i, icon);
                *self = EntryRegistry { entries, projection };
                true
            },
            None => false,
        };
        proof {
            use_type_invariant(&*self);
        }
        r
    }

    /// The number of entries.
    pub fn len(&self) -> (n: usize)
        ensures
            n == self.entries().len(),
    {
        self.entries.len()
    }

    /// The number of visible entries.
    pub fn visible_len(&self) -> (n: usize)
        ensures
            n == self.projection().len(),
            indices_below(self.projection(), self.entries().len()),
    {
        proof {
            use_type_invariant(self);
        }
        self.projection.len()
    }

    /// Whether there is no entry.
    pub fn is_empty(&self) -> (r: bool)
        ensures
            r == (self.entries().len() == 0),
    {
        self.entries.len() == 0
    }

    /// Whether no entry is visible.
    pub fn is_visibles_empty(&self) -> (r: bool)
        ensures
            r == (self.projection().len() == 0),
    {
        self.projection.len() == 0
    }

    /// The visible entries, in the order they are listed.
    pub fn iter_visible(&self) -> (r: Vec<&Entry<H>>)
        ensures
            r@.len() == self.projection().len(),
            forall|p: int| 0 <= p < r@.len() ==> *(#[trigger] r@[p]) == self.entries()[self.projection()[p] as int],
            indices_below(self.projection(), self.entries().len()),
    {
        proof {
            use_type_invariant(self);
        }
        let mut r: Vec<&Entry<H>> = Vec::new();
        let mut p: usize = 0;
        while p < self.projection.len()
            invariant
                p <= self.projection@.len(),
                r@.len() == p,
                forall|p: int| 0 <= p < self.projection@.len() ==> (#[trigger] self.projection@[p]) < self.entries@.len(),
                forall|q: int| 0 <= q < p ==> *(#[trigger] r@[q]) == self.entries@[self.projection@[q] as int],
            decreases self.projection.len() - p,
        {
            r.push(&self.entries[self.projection[p]]);
            p = p + 1;
        }
        r
    }

    /// Lists the entries whose main text matches `pattern`: favorites first,
    /// then by descending match score, ties in the order the entries were added.
    pub fn sort_by_rank(&mut self, preferences: &Preferences, pattern: &str)
        ensures
            final(self).entries() == old(self).entries(),
            is_ranking(
                entry_scores(old(self).entries(), pattern@),
                entry_favorites(old(self).entries(), preferences.favorite_apps.set()),
                final(self).projection(),
            ),
            indices_below(final(self).projection(), final(self).entries().len()),
    {
        let n = self.entries.len();
        let mut scores: Vec<Option<i64>> = Vec::new();
        let mut favorites: Vec<bool> = Vec::new();
        let mut i: usize = 0;
        while i < n
            invariant
                n == self.entries@.len(),
                i <= n,
                scores@ == entry_scores(self.entries@, pattern@).take(i as int),
                favorites@ == entry_favorites(self.entries@, preferences.favorite_apps.set()).take(i as int),
            decreases n - i,
        {
            let entry = &self.entries[i];
            let score = skim_fuzzy_match(entry.main.as_str(), pattern);
            scores.push(score);
            let text = bytes_to_string_lossy(entry.id.as_slice());
            favorites.push(preferences.favorite_apps.contains(&text));
            assert(scores@ =~= entry_scores(self.entries@, pattern@).take((i + 1) as int));
            assert(favorites@ =~= entry_favorites(self.entries@, preferences.favorite_apps.set()).take((i + 1) as int));
            i = i + 1;
        }
        assert(scores@ =~= entry_scores(self.entries@, pattern@));
        assert(favorites@ =~= entry_favorites(self.entries@, preferences.favorite_apps.set()));
        let order = rank_entries(&scores, &favorites);
        self.projection = order;
        proof {
            use_type_invariant(&*self);
        }
    }
}

/// Every position in `p` is below `n`: each visible entry is one of the `n`.
pub open spec fn indices_below(p: Seq<usize>, n: nat) -> bool {
    forall|i: int| 0 <= i < p.len() ==> (#[trigger] p[i]) < n
}

/// `i` is the last position of an entry with identifier `id`.
pub open spec fn is_last_with_id<H>(entries: Seq<Entry<H>>, id: Seq<u8>, i: int) -> bool {
    &&& 0 <= i < entries.len()
    &&& entries[i].id@ == id
    &&& forall|j: int| i < j < entries.len() ==> entries[j].id@ != id
}

/// Gives the entry at `i` the icon `icon`.
fn replace_icon<H>(entries: &mut Vec<Entry<H>>, i: usize, icon: EntryIcon<H>)
    requires
        i < old(entries)@.len(),
    ensures
        final(entries)@ == old(entries)@.update(i as int, Entry { icon, ..old(entries)@[i as int] }),
{
    let old_entry = entries.remove(i);
    let updated = Entry { icon, ..old_entry };
    entries.insert(i, updated);
    assert(entries@ =~= old(entries)@.update(i as int, Entry { icon, ..old(entries)@[i as int] }));
}

/// An entry just added is the one that its identifier names.
pub proof fn lemma_pushed_entry_is_found<H>(entries: Seq<Entry<H>>, e: Entry<H>)
    ensures
        is_last_with_id(entries.push(e), e.id@, entries.len() as int),
{
}

/// In a ranking, every favorite comes before every other entry, and among
/// entries alike in that, a higher score comes first.
pub proof fn lemma_ranking_order(
    scores: Seq<Option<i64>>,
    favorites: Seq<bool>,
    order: Seq<usize>,
    p: int,
    q: int,
)
    requires
        is_ranking(scores, favorites, order),
        0 <= p < q < order.len(),
    ensures
        favorites[order[q] as int] ==> favorites[order[p] as int],
        favorites[order[p] as int] == favorites[order[q] as int] ==> scores[order[p] as int]->0
            >= scores[order[q] as int]->0,
{
    assert(ranks_before(scores, favorites, order[p] as int, order[q] as int));
}

/// Whether two byte strings are equal.
fn bytes_equal(a: &Vec<u8>, b: &Vec<u8>) -> (r: bool)
    ensures
        r == (a@ == b@),
{
    if a.len() != b.len() {
        return false;
    }
    let mut i: usize = 0;
    while i < a.len()
        invariant
            a@.len() == b@.len(),
            i <= a@.len(),
            forall|j: int| 0 <= j < i ==> a@[j] == b@[j],
        decreases a.len() - i,
    {
        if a[i] != b[i] {
            return false;
        }
        i = i + 1;
    }
    assert(a@ =~= b@);
    true
}

// ---------------------------------------------------------------------------
// What a listed entry shows
// ---------------------------------------------------------------------------

/// The byte length of the UTF-8 encoding of `s`, which `str::len` gives.
pub open spec fn utf8_len(s: Seq<char>) -> nat {
    vstd::utf8::encode_utf8(s).len()
}

/// The number of bytes that UTF-8 takes for `c`.
pub open spec fn char_width(c: char) -> nat {
    let u = c as u32;
    if u <= 0x7F {
        1
    } else if u <= 0x7FF {
        2
    } else if u <= 0xFFFF {
        3
    } else {
        4
    }
}

proof fn lemma_utf8_len_push(s: Seq<char>, c: char)
    ensures
        utf8_len(s.push(c)) == utf8_len(s) + char_width(c),
    decreases s.len(),
{
    if s.len() == 0 {
        vstd::utf8::char_is_scalar(c);
        assert(s.push(c).drop_first() =~= Seq::<char>::empty());
        assert(vstd::utf8::encode_utf8(Seq::<char>::empty()).len() == 0);
    } else {
        lemma_utf8_len_push(s.drop_first(), c);
        assert(s.push(c).drop_first() =~= s.drop_first().push(c));
    }
}

proof fn lemma_utf8_len_prefix(s: Seq<char>, j: int)
    requires
        0 <= j <= s.len(),
    ensures
        utf8_len(s.take(j)) <= utf8_len(s),
    decreases s.len() - j,
{
    if j < s.len() {
        lemma_utf8_len_push(s.take(j), s[j]);
        assert(s.take(j + 1) =~= s.take(j).push(s[j]));
        lemma_utf8_len_prefix(s, j + 1);
    } else {
        assert(s.take(j) =~= s);
    }
}

/// `r` is `text` cut to at most `limit` bytes of UTF-8, at the last character
/// boundary that fits, with `...` added when something was cut.
pub open spec fn is_truncation(text: Seq<char>, limit: nat, r: Seq<char>) -> bool {
    &&& utf8_len(text) <= limit ==> r == text
    &&& utf8_len(text) > limit ==> exists|k: int|
        0 <= k < text.len() && utf8_len(text.take(k)) <= limit && utf8_len(text.take(k + 1))
            > limit && r == text.take(k) + "..."@
}

/// A truncated text takes at most three bytes more than its limit, and is
/// the text itself when the text fits.
pub proof fn lemma_truncation_fits(text: Seq<char>, limit: nat, r: Seq<char>)
    requires
        is_truncation(text, limit, r),
    ensures
        utf8_len(r) <= limit + 3,
        utf8_len(text) <= limit ==> r == text,
{
    if utf8_len(text) > limit {
        let k = choose|k: int|
            0 <= k < text.len() && utf8_len(text.take(k)) <= limit && utf8_len(text.take(k + 1))
                > limit && r == text.take(k) + "..."@;
        reveal_strlit("...");
        let t = text.take(k);
        lemma_utf8_len_push(t, '.');
        lemma_utf8_len_push(t.push('.'), '.');
        lemma_utf8_len_push(t.push('.').push('.'), '.');
        assert(t + "..."@ =~= t.push('.').push('.').push('.'));
    }
}

/// `text` cut to at most `limit` bytes of UTF-8, at a character boundary,
/// with `...` added when something was cut.
pub fn truncate_with_elipsis(text: &str, limit: usize) -> (r: String)
    ensures
        is_truncation(text@, limit as nat, r@),
{
    let chars = crate::text::chars_of(text);
    let mut r = String::new();
    let mut k: usize = 0;
    let mut width: usize = 0;
    proof {
        assert(chars@.take(0) =~= Seq::<char>::empty());
    }
    while k < chars.len()
        invariant
            chars@ == text@,
            k <= chars@.len(),
            width == utf8_len(chars@.take(k as int)),
            width <= limit,
            r@ == chars@.take(k as int),
        decreases chars.len() - k,
    {
        let c = chars[k];
        let u = c as u32;
        let w: usize = if u <= 0x7F {
            1
        } else if u <= 0x7FF {
            2
        } else if u <= 0xFFFF {
            3
        } else {
            4
        };
        proof {
            lemma_utf8_len_push(chars@.take(k as int), c);
            assert(chars@.take((k + 1) as int) =~= chars@.take(k as int).push(c));
        }
        if w > limit - width {
            proof {
                lemma_utf8_len_prefix(chars@, k + 1);
            }
            r.append("...");
            return r;
        }
        width = width + w;
        push_char(&mut r, c);
        k = k + 1;
    }
    proof {
        assert(chars@.take(k as int) =~= chars@);
    }
    r
}

/// What is shown at the end of a listed entry.
pub enum ShortcutLabel {
    /// The enter key: launching the selected entry.
    Enter,
    /// The control shortcut of the entry, such as `Ctrl+2`, in dimmed text.
    Text(String, TextClass),
    /// Nothing.
    Blank,
}

/// How a listed entry is dressed.
pub struct EntryDecorations {
    pub shortcut: ShortcutLabel,
    /// The favorite toggle shows; a click on it toggles the favorite.
    pub show_favorite_toggle: bool,
    /// The favorite toggle shows an active star.
    pub star_active: bool,
    /// The style of the entry's button.
    pub class: ButtonClass,
}

/// The label of the control shortcut of the entry at `index`.
pub open spec fn ctrl_shortcut_text(index: nat) -> Seq<char> {
    "Ctrl+"@ + decimal_text(index + 1)
}

/// `d` is how the entry at `index` is dressed: the selected one shows the
/// enter key, the first five others their control shortcut; the favorite
/// toggle shows on the selected or hovered entry, as an active star on a
/// favorite; the selected entry has its own style.
pub open spec fn dressed_as(
    d: EntryDecorations,
    index: nat,
    is_selected: bool,
    is_hovered: bool,
    is_favorite: bool,
) -> bool {
    &&& is_selected ==> d.shortcut is Enter
    &&& !is_selected && index < 5 ==> (d.shortcut matches ShortcutLabel::Text(t, c) && t@
        == ctrl_shortcut_text(index) && c == TextClass::TextDim)
    &&& !is_selected && index >= 5 ==> d.shortcut is Blank
    &&& d.show_favorite_toggle == (is_selected || is_hovered)
    &&& d.star_active == is_favorite
    &&& d.class == (if is_selected {
        ButtonClass::ItemlistSelected
    } else {
        ButtonClass::Itemlist
    })
}

/// How the entry at `index` is dressed.
pub fn display_entry(index: usize, is_selected: bool, is_hovered: bool, is_favorite: bool) -> (d:
    EntryDecorations)
    ensures
        dressed_as(d, index as nat, is_selected, is_hovered, is_favorite),
{
    let shortcut = if is_selected {
        ShortcutLabel::Enter
    } else if index < 5 {
        let mut t = string_from_literal("Ctrl+");
        push_decimal(&mut t, index + 1);
        ShortcutLabel::Text(t, TextClass::TextDim)
    } else {
        ShortcutLabel::Blank
    };
    EntryDecorations {
        shortcut,
        show_favorite_toggle: is_selected || is_hovered,
        star_active: is_favorite,
        class: if is_selected {
            ButtonClass::ItemlistSelected
        } else {
            ButtonClass::Itemlist
        },
    }
}

} // verus!
