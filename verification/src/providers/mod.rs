//! The sources of entries: installed applications and the files of a
//! directory. A scan hands its entries to a `Scanner`, which groups them in
//! batches; the program sends each event that the scanner returns.
use vstd::prelude::*;
use vstd::string::StringExecFns;
use crate::ui::entry::Entry;
use crate::text::string_from_literal;
use app::{byte_views, command_parts, AppProvider, LaunchCommand};

pub mod app;
pub mod file;

verus! {

broadcast use vstd::string::group_string_axioms;

/// The source that the launcher lists.
#[derive(Debug, Clone, Copy, PartialEq, Eq, Structural, Hash)]
pub enum ProviderKind {
    App,
    File,
}

/// What launching an entry comes to.
pub enum LaunchPlan {
    /// Start a program in a session of its own, then close the launcher.
    Spawn(LaunchCommand),
    /// List the directory at this path instead.
    ChangePath(Vec<u8>),
    /// Nothing can be started.
    Nothing,
}

/// The bytes of `s`, which holds ASCII characters only.
fn ascii_bytes(s: &str) -> (b: Vec<u8>)
    requires
        forall|i: int| 0 <= i < s@.len() ==> (#[trigger] s@[i] as u32) < 128,
    ensures
        b@ == s@.map_values(|c: char| c as u8),
{
    let mut b: Vec<u8> = Vec::new();
    let n = s.unicode_len();
    let mut i: usize = 0;
    while i < n
        invariant
            n == s@.len(),
            i <= n,
            forall|k: int| 0 <= k < s@.len() ==> (#[trigger] s@[k] as u32) < 128,
            b@ == s@.take(i as int).map_values(|c: char| c as u8),
        decreases n - i,
    {
        let c = s.get_char(i);
        b.push(c as u8);
        assert(s@.take((i + 1) as int) =~= s@.take(i as int).push(c));
        assert(b@ =~= s@.take((i + 1) as int).map_values(|c: char| c as u8));
        i = i + 1;
    }
    assert(s@.take(n as int) =~= s@);
    b
}

/// The program that opens a file with the application the desktop prefers.
pub open spec fn opener_program() -> Seq<u8> {
    seq![120u8, 100u8, 103u8, 45u8, 111u8, 112u8, 101u8, 110u8]
}

impl ProviderKind {
    /// What launching the entry with identifier `id` comes to. An application
    /// is started from its command line; a directory is listed; another file
    /// is opened with `xdg-open`. `is_dir` tells whether `id` is the path of a
    /// directory.
    pub fn launch(&self, id: &Vec<u8>, is_dir: bool) -> (r: LaunchPlan)
        ensures
            *self == ProviderKind::App ==> (match r {
                LaunchPlan::Spawn(c) => command_parts(id@).len() > 0 && c.program@ == command_parts(
                    id@,
                )[0] && byte_views(c.args@) == command_parts(id@).drop_first(),
                LaunchPlan::Nothing => command_parts(id@).len() == 0,
                LaunchPlan::ChangePath(_) => false,
            }),
            *self == ProviderKind::File && is_dir ==> (r matches LaunchPlan::ChangePath(p) && p@
                == id@),
            *self == ProviderKind::File && !is_dir ==> (r matches LaunchPlan::Spawn(c)
                && c.program@ == opener_program() && byte_views(c.args@) == seq![id@]),
    {
        match self {
            ProviderKind::App => match AppProvider::command(id.as_slice()) {
                Some(c) => LaunchPlan::Spawn(c),
                None => LaunchPlan::Nothing,
            },
            ProviderKind::File => {
                if is_dir {
                    LaunchPlan::ChangePath(id.clone())
                } else {
                    let opener = string_from_literal("xdg-open");
                    proof {
                        reveal_strlit("xdg-open");
                    }
                    let program = ascii_bytes(opener.as_str());
                    assert(program@ =~= opener_program());
                    let mut args: Vec<Vec<u8>> = Vec::new();
                    args.push(id.clone());
                    assert(byte_views(args@) =~= seq![id@]);
                    LaunchPlan::Spawn(LaunchCommand { program, args })
                }
            },
        }
    }
}

/// The clipboard history as a source of entries: a marker with no behaviour
/// of its own. Listing the history needs its database and launching an entry
/// means handing its text to `wl-copy`; the program carries neither, so this
/// source is never offered.
pub struct ClipboardProvider;

/// What a scan reports: its start, a batch of entries, its end, or an error
/// met on the entry with the given identifier.
#[derive(Clone)]
pub enum ScannerState<H> {
    Started,
    Found(Vec<Entry<H>>),
    Finished,
    Errored(Vec<u8>, String),
}

/// Groups the entries of a scan in batches of `capacity` entries.
pub struct Scanner<H> {
    batch: Vec<Entry<H>>,
    capacity: usize,
    loaded: Ghost<Seq<Entry<H>>>,
    handed_out: Ghost<Seq<Seq<Entry<H>>>>,
}

/// The batches of `bs` put end to end.
pub open spec fn concat_all<E>(bs: Seq<Seq<E>>) -> Seq<E>
    decreases bs.len(),
{
    if bs.len() == 0 {
        Seq::empty()
    } else {
        concat_all(bs.drop_last()) + bs.last()
    }
}

/// Every batch of `bs` holds exactly `limit` entries.
pub open spec fn all_full<E>(bs: Seq<Seq<E>>, limit: nat) -> bool {
    forall|j: int| 0 <= j < bs.len() ==> (#[trigger] bs[j]).len() == limit
}

/// `s` cut, from its start, in pieces of `c` entries; the last piece holds
/// what is left, and there is no empty piece.
pub open spec fn chunks<E>(s: Seq<E>, c: nat) -> Seq<Seq<E>>
    decreases s.len(),
{
    if s.len() == 0 || c == 0 {
        Seq::empty()
    } else if s.len() <= c {
        seq![s]
    } else {
        seq![s.take(c as int)] + chunks(s.skip(c as int), c)
    }
}

proof fn lemma_concat_prepend<E>(a: Seq<E>, rest: Seq<Seq<E>>)
    ensures
        concat_all(seq![a] + rest) == a + concat_all(rest),
    decreases rest.len(),
{
    let t = seq![a] + rest;
    if rest.len() == 0 {
        assert(t =~= seq![a]);
        assert(t.drop_last() =~= Seq::<Seq<E>>::empty());
        assert(concat_all(t.drop_last()) =~= Seq::<E>::empty());
        assert(concat_all(t) == concat_all(t.drop_last()) + t.last());
        assert(concat_all(t) =~= a);
        assert(a + concat_all(rest) =~= a);
    } else {
        lemma_concat_prepend(a, rest.drop_last());
        assert(t.drop_last() =~= seq![a] + rest.drop_last());
        assert(t.last() == rest.last());
        assert(concat_all(t) =~= a + concat_all(rest));
    }
}

/// Cutting a sequence in pieces of `c` entries gives pieces that, end to end,
/// are the sequence again; none is empty, each holds `c` entries but the last,
/// which holds at most `c`; and there are as many as `c` goes into the length,
/// rounded up.
pub proof fn lemma_chunks<E>(s: Seq<E>, c: nat)
    requires
        c > 0,
    ensures
        concat_all(chunks(s, c)) == s,
        forall|j: int| 0 <= j < chunks(s, c).len() ==> 0 < (#[trigger] chunks(s, c)[j]).len() <= c,
        forall|j: int| 0 <= j < chunks(s, c).len() - 1 ==> (#[trigger] chunks(s, c)[j]).len() == c,
        chunks(s, c).len() == (s.len() + c - 1) / (c as int),
    decreases s.len(),
{
    let n = s.len() as int;
    let ci = c as int;
    if n == 0 {
        vstd::arithmetic::div_mod::lemma_basic_div(ci - 1, ci);
        assert(concat_all(chunks(s, c)) =~= s);
    } else if n <= ci {
        vstd::arithmetic::div_mod::lemma_basic_div(n - 1, ci);
        vstd::arithmetic::div_mod::lemma_div_plus_one(n - 1, ci);
        assert(chunks(s, c) == seq![s]);
        lemma_concat_prepend(s, Seq::<Seq<E>>::empty());
        assert(seq![s] + Seq::<Seq<E>>::empty() =~= seq![s]);
        assert(s + concat_all(Seq::<Seq<E>>::empty()) =~= s);
    } else {
        let rest = s.skip(ci);
        lemma_chunks(rest, c);
        let cs = chunks(rest, c);
        assert(chunks(s, c) == seq![s.take(ci)] + cs);
        lemma_concat_prepend(s.take(ci), cs);
        assert(s.take(ci) + rest =~= s);
        vstd::arithmetic::div_mod::lemma_div_plus_one(n - 1, ci);
        assert((n - ci) + ci - 1 == n - 1);
        assert forall|j: int| 0 <= j < chunks(s, c).len() implies 0 < (#[trigger] chunks(
            s,
            c,
        )[j]).len() <= c by {
            if j > 0 {
                assert(chunks(s, c)[j] == cs[j - 1]);
            }
        }
        assert forall|j: int| 0 <= j < chunks(s, c).len() - 1 implies (#[trigger] chunks(
            s,
            c,
        )[j]).len() == c by {
            if j > 0 {
                assert(chunks(s, c)[j] == cs[j - 1]);
            }
        }
    }
}

/// Full batches put end to end, then fewer than `c` pending entries, cut in
/// pieces of `c` entries, give the same batches, then the pending entries as
/// a last piece when there are any.
proof fn lemma_full_batches_are_chunks<E>(bs: Seq<Seq<E>>, p: Seq<E>, c: nat)
    requires
        c > 0,
        all_full(bs, c),
        p.len() < c,
    ensures
        chunks(concat_all(bs) + p, c) == bs + (if p.len() > 0 {
            seq![p]
        } else {
            Seq::<Seq<E>>::empty()
        }),
    decreases bs.len(),
{
    let tail = if p.len() > 0 {
        seq![p]
    } else {
        Seq::<Seq<E>>::empty()
    };
    if bs.len() == 0 {
        assert(concat_all(bs) + p =~= p);
        assert(bs + tail =~= tail);
    } else {
        let a = bs[0];
        let rest = bs.drop_first();
        assert(bs =~= seq![a] + rest);
        lemma_concat_prepend(a, rest);
        let s = concat_all(bs) + p;
        assert(s =~= a + (concat_all(rest) + p));
        assert(a.len() == c);
        if rest.len() == 0 && p.len() == 0 {
            assert(concat_all(rest) =~= Seq::<E>::empty());
            assert(s =~= a);
            assert(bs + tail =~= seq![a]);
        } else {
            if rest.len() > 0 {
                assert(rest.last() == bs[bs.len() - 1]);
                assert(concat_all(rest).len() >= rest.last().len());
            }
            assert(s.len() > c);
            lemma_full_batches_are_chunks(rest, p, c);
            assert(s.take(c as int) =~= a);
            assert(s.skip(c as int) =~= concat_all(rest) + p);
            assert(bs + tail =~= seq![a] + (rest + tail));
        }
    }
}

/// A batch is full when it holds `capacity` entries (one, when `capacity` is 0).
pub open spec fn batch_limit(capacity: usize) -> nat {
    if capacity == 0 {
        1
    } else {
        capacity as nat
    }
}

impl<H> Scanner<H> {
    #[verifier::type_invariant]
    spec fn accounted(self) -> bool {
        &&& concat_all(self.handed_out@) + self.batch@ == self.loaded@
        &&& self.batch@.len() < batch_limit(self.capacity)
    }

    /// The entries loaded and not yet handed out in a batch.
    pub closed spec fn pending(self) -> Seq<Entry<H>> {
        self.batch@
    }

    /// Every entry loaded since the scanner was made, in order.
    pub closed spec fn loaded(self) -> Seq<Entry<H>> {
        self.loaded@
    }

    /// The entries of every batch handed out so far, in order.
    pub closed spec fn emitted(self) -> Seq<Entry<H>> {
        concat_all(self.handed_out@)
    }

    /// The batches handed out so far, in order.
    pub closed spec fn batches(self) -> Seq<Seq<Entry<H>>> {
        self.handed_out@
    }

    /// The size of a full batch.
    pub closed spec fn capacity(self) -> usize {
        self.capacity
    }

    /// A scanner with nothing loaded.
    pub fn new(capacity: usize) -> (s: Scanner<H>)
        ensures
            s.capacity() == capacity,
            s.pending() == Seq::<Entry<H>>::empty(),
            s.loaded() == Seq::<Entry<H>>::empty(),
            s.emitted() == Seq::<Entry<H>>::empty(),
            s.batches() == Seq::<Seq<Entry<H>>>::empty(),
    {
        let s = Scanner {
            batch: Vec::new(),
            capacity,
            loaded: Ghost(Seq::empty()),
            handed_out: Ghost(Seq::empty()),
        };
        assert(concat_all(s.handed_out@) + s.batch@ =~= s.loaded@);
        s
    }

    /// The event that opens a scan.
    pub fn start(&self) -> (r: ScannerState<H>)
        ensures
            r is Started,
    {
        ScannerState::Started
    }

    /// Loads `entry`; when that fills the batch, hands the batch out.
    pub fn load(&mut self, entry: Entry<H>) -> (r: Option<ScannerState<H>>)
        ensures
            final(self).loaded() == old(self).loaded().push(entry),
            final(self).capacity() == old(self).capacity(),
            final(self).emitted() + final(self).pending() == final(self).loaded(),
            final(self).pending().len() < batch_limit(final(self).capacity()),
            old(self).pending().len() + 1 >= batch_limit(old(self).capacity()) ==> (r matches Some(
                ScannerState::Found(b),
            ) && b@ == old(self).pending().push(entry) && final(self).pending() == Seq::<
                Entry<H>,
            >::empty() && final(self).emitted() == old(self).emitted() + b@ && final(self).batches() == old(self).batches().push(b@) && b@.len() == batch_limit(
                old(self).capacity(),
            )),
            old(self).pending().len() + 1 < batch_limit(old(self).capacity()) ==> (r is None
                && final(self).pending() == old(self).pending().push(entry) && final(self).emitted()
                == old(self).emitted() && final(self).batches() == old(self).batches()),
            all_full(old(self).batches(), batch_limit(old(self).capacity())) ==> all_full(
                final(self).batches(),
                batch_limit(final(self).capacity()),
            ),
    {
        proof {
            use_type_invariant(&*self);
        }
        let mut taken = Scanner::new(0);
        std::mem::swap(&mut taken, self);
        proof {
            use_type_invariant(&taken);
        }
        let Scanner { mut batch, capacity, loaded, handed_out } = taken;
        let ghost entry_copy = entry;
        batch.push(entry);
        let ghost now_loaded = loaded@.push(entry_copy);
        if batch.len() >= capacity {
            let ghost now_batches = handed_out@.push(batch@);
            assert(now_batches.drop_last() =~= handed_out@);
            assert(concat_all(now_batches) + Seq::<Entry<H>>::empty() =~= now_loaded);
            assert forall|j: int| 0 <= j < handed_out@.len() implies now_batches[j] == handed_out@[j] by {}
            let out = ScannerState::Found(batch);
            *self = Scanner {
                batch: Vec::new(),
                capacity,
                loaded: Ghost(now_loaded),
                handed_out: Ghost(now_batches),
            };
            Some(out)
        } else {
            assert(concat_all(handed_out@) + batch@ =~= now_loaded);
            *self = Scanner { batch, capacity, loaded: Ghost(now_loaded), handed_out };
            None
        }
    }

    /// Hands out the pending entries, if there are any, as a batch.
    pub fn flush(&mut self) -> (r: Option<ScannerState<H>>)
        ensures
            final(self).loaded() == old(self).loaded(),
            final(self).capacity() == old(self).capacity(),
            final(self).pending() == Seq::<Entry<H>>::empty(),
            final(self).emitted() == final(self).loaded(),
            old(self).pending().len() > 0 ==> (r matches Some(ScannerState::Found(b)) && b@
                == old(self).pending()),
            old(self).pending().len() > 0 ==> final(self).batches() == old(self).batches().push(
                old(self).pending(),
            ),
            old(self).pending().len() == 0 ==> r is None && final(self).batches() == old(self).batches(),
    {
        proof {
            use_type_invariant(&*self);
        }
        let mut taken = Scanner::new(0);
        std::mem::swap(&mut taken, self);
        proof {
            use_type_invariant(&taken);
        }
        let Scanner { batch, capacity, loaded, handed_out } = taken;
        if batch.len() > 0 {
            let ghost now_batches = handed_out@.push(batch@);
            assert(now_batches.drop_last() =~= handed_out@);
            assert(concat_all(now_batches) + Seq::<Entry<H>>::empty() =~= loaded@);
            *self = Scanner {
                batch: Vec::new(),
                capacity,
                loaded,
                handed_out: Ghost(now_batches),
            };
            Some(ScannerState::Found(batch))
        } else {
            assert(concat_all(handed_out@) + Seq::<Entry<H>>::empty() =~= loaded@);
            *self = Scanner { batch: Vec::new(), capacity, loaded, handed_out };
            None
        }
    }

    /// A whole scan of `entries`: it opens, hands the entries out in batches
    /// of `capacity` (one, when `capacity` is 0) as they are loaded, hands out
    /// what is left as a last, shorter batch, and closes.
    pub fn run(capacity: usize, entries: Vec<Entry<H>>) -> (r: Vec<ScannerState<H>>)
        ensures
            r@.len() == chunks(entries@, batch_limit(capacity)).len() + 2,
            r@[0] is Started,
            r@[r@.len() - 1] is Finished,
            forall|j: int|
                0 <= j < chunks(entries@, batch_limit(capacity)).len() ==> (#[trigger] r@[j
                    + 1] matches ScannerState::Found(b) && b@ == chunks(
                    entries@,
                    batch_limit(capacity),
                )[j]),
    {
        let ghost incoming = entries@;
        let ghost limit = batch_limit(capacity);
        let mut scanner: Scanner<H> = Scanner::new(capacity);
        let mut events: Vec<ScannerState<H>> = Vec::new();
        events.push(scanner.start());
        for entry in it: entries
            invariant
                it.seq() == incoming,
                scanner.capacity() == capacity,
                limit == batch_limit(capacity),
                scanner.loaded() == incoming.take(it.index() as int),
                all_full(scanner.batches(), limit),
                events@.len() == scanner.batches().len() + 1,
                events@[0] is Started,
                forall|j: int|
                    0 <= j < scanner.batches().len() ==> (#[trigger] events@[j + 1] matches ScannerState::Found(
                        b,
                    ) && b@ == scanner.batches()[j]),
        {
            let ghost k = it.index();
            assert(entry == incoming[k as int]);
            let ghost before = events@;
            match scanner.load(entry) {
                Some(batch) => {
                    events.push(batch);
                },
                None => {},
            }
            assert(incoming.take(k + 1) =~= incoming.take(k as int).push(incoming[k as int]));
            assert forall|j: int| 0 <= j < scanner.batches().len() implies (#[trigger] events@[j
                + 1] matches ScannerState::Found(b) && b@ == scanner.batches()[j]) by {
                if j + 1 < before.len() {
                    assert(events@[j + 1] == before[j + 1]);
                }
            }
        }
        assert(incoming.take(incoming.len() as int) =~= incoming);
        let ghost full = scanner.batches();
        let ghost before = events@;
        let tail = scanner.finish();
        let ghost last = tail@;
        for event in it: tail
            invariant
                it.seq() == last,
                events@ == before + last.take(it.index() as int),
        {
            let ghost k = it.index();
            assert(event == last[k as int]);
            assert(last.take(k + 1) =~= last.take(k as int).push(last[k as int]));
            events.push(event);
        }
        assert(last.take(last.len() as int) =~= last);
        events
    }

    /// Ends the scan: the pending entries as a last batch, if there are any,
    /// then the event that closes the scan.
    pub fn finish(&mut self) -> (r: Vec<ScannerState<H>>)
        ensures
            final(self).loaded() == old(self).loaded(),
            final(self).capacity() == old(self).capacity(),
            final(self).pending() == Seq::<Entry<H>>::empty(),
            final(self).emitted() == final(self).loaded(),
            old(self).pending().len() > 0 ==> r@.len() == 2 && r@[1] is Finished,
            old(self).pending().len() > 0 ==> (r@[0] matches ScannerState::Found(b) && b@ == old(self).pending()),
            old(self).pending().len() == 0 ==> (r@.len() == 1 && r@[0] is Finished),
            final(self).batches() == old(self).batches() + (if old(self).pending().len() > 0 {
                seq![old(self).pending()]
            } else {
                Seq::<Seq<Entry<H>>>::empty()
            }),
            all_full(old(self).batches(), batch_limit(old(self).capacity())) ==> final(self).batches() == chunks(final(self).loaded(), batch_limit(final(self).capacity())),
    {
        proof {
            use_type_invariant(&*self);
            if all_full(self.batches(), batch_limit(self.capacity())) {
                lemma_full_batches_are_chunks(
                    self.batches(),
                    self.pending(),
                    batch_limit(self.capacity()),
                );
            }
        }
        let mut events: Vec<ScannerState<H>> = Vec::new();
        match self.flush() {
            Some(batch) => events.push(batch),
            None => {},
        }
        events.push(ScannerState::Finished);
        events
    }
}

} // verus!
