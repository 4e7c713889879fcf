//! The per-track synchronization policy: one search per entry in source
//! order, at most one addition per entry, a miss skipped, a transport
//! failure fatal to the remaining entries.
//!
//! The machine decides; the surrounding binary performs the search and
//! addition calls and feeds each entry's outcome back in.

use crate::playlist::query_str;
use crate::playlist::views_of;
use crate::playlist::EntryView;
use crate::playlist::PlaylistEntry;
use vstd::prelude::*;

verus! {

/// What one entry's search-then-add round came to.
pub enum ItemOutcome {
    /// A track was found and appended to the playlist, under this name.
    Added { name: String },
    /// The search returned nothing usable; the entry is skipped.
    NotFound,
    /// The search or the addition failed in transport; the run aborts.
    TransportFailed,
}

/// The mathematical content of an `ItemOutcome`.
pub ghost enum OutcomeView {
    Added { name: Seq<char> },
    NotFound,
    TransportFailed,
}

impl View for ItemOutcome {
    type V = OutcomeView;

    open spec fn view(&self) -> OutcomeView {
        match self {
            ItemOutcome::Added { name } => OutcomeView::Added { name: name@ },
            ItemOutcome::NotFound => OutcomeView::NotFound,
            ItemOutcome::TransportFailed => OutcomeView::TransportFailed,
        }
    }
}

/// The state of a synchronization run.
pub ghost struct SyncView {
    /// The entries to synchronize, in source order.
    pub entries: Seq<EntryView>,
    /// How many entries have been attempted.
    pub next: int,
    /// How many tracks have been added, at most one per attempted entry.
    pub added: int,
    /// How many attempted entries found no usable track.
    pub missed: int,
    /// A transport failure has ended the run.
    pub aborted: bool,
}

/// The state a run starts from.
pub open spec fn init_state(entries: Seq<EntryView>) -> SyncView {
    SyncView { entries, next: 0, added: 0, missed: 0, aborted: false }
}

/// Entries remain and no transport failure has struck.
pub open spec fn in_progress(st: SyncView) -> bool {
    !st.aborted && st.next < st.entries.len()
}

/// The state one entry's outcome moves a run to: an addition or a miss is
/// counted and the run goes on; a transport failure aborts it.
pub open spec fn step(st: SyncView, ev: OutcomeView) -> SyncView {
    match ev {
        OutcomeView::Added { name } => SyncView { next: st.next + 1, added: st.added + 1, ..st },
        OutcomeView::NotFound => SyncView { next: st.next + 1, missed: st.missed + 1, ..st },
        OutcomeView::TransportFailed => SyncView { next: st.next + 1, aborted: true, ..st },
    }
}

/// The state a run reaches from `st` on a sequence of outcomes, stopping
/// where the run is no longer in progress.
pub open spec fn run_from(st: SyncView, evs: Seq<OutcomeView>) -> SyncView
    decreases evs.len(),
{
    if evs.len() == 0 || !in_progress(st) {
        st
    } else {
        run_from(step(st, evs[0]), evs.skip(1))
    }
}

/// The state a fresh run over `entries` reaches on `evs`.
pub open spec fn run(entries: Seq<EntryView>, evs: Seq<OutcomeView>) -> SyncView {
    run_from(init_state(entries), evs)
}

/// How many outcomes of `evs` added a track.
pub open spec fn count_added(evs: Seq<OutcomeView>) -> int
    decreases evs.len(),
{
    if evs.len() == 0 {
        0
    } else {
        (if evs[0] is Added {
            1int
        } else {
            0int
        }) + count_added(evs.skip(1))
    }
}

/// How many outcomes of `evs` found nothing.
pub open spec fn count_missed(evs: Seq<OutcomeView>) -> int
    decreases evs.len(),
{
    if evs.len() == 0 {
        0
    } else {
        (if evs[0] is NotFound {
            1int
        } else {
            0int
        }) + count_missed(evs.skip(1))
    }
}

/// The progress line an addition prints.
pub open spec fn added_line(name: Seq<char>) -> Seq<char> {
    "- Added track: "@ + name
}

/// The progress line a miss prints.
pub open spec fn missed_line(query: Seq<char>) -> Seq<char> {
    "- Track not found: "@ + query
}

/// Drives one synchronization run: hands out the next search query and
/// takes each entry's outcome back, in source order.
pub struct Synchronizer {
    entries: Vec<PlaylistEntry>,
    next: usize,
    added: usize,
    missed: usize,
    aborted: bool,
}

impl View for Synchronizer {
    type V = SyncView;

    closed spec fn view(&self) -> SyncView {
        SyncView {
            entries: views_of(self.entries@),
            next: self.next as int,
            added: self.added as int,
            missed: self.missed as int,
            aborted: self.aborted,
        }
    }
}

impl Synchronizer {
    #[verifier::type_invariant]
    spec fn counters_fit(self) -> bool {
        &&& self.next <= self.entries@.len()
        &&& self.added + self.missed <= self.next
    }

    /// Starts a run over the fetched entries, none yet attempted.
    pub fn new(entries: Vec<PlaylistEntry>) -> (r: Synchronizer)
        ensures
            r@ == init_state(views_of(entries@)),
    {
        Synchronizer { entries, next: 0, added: 0, missed: 0, aborted: false }
    }

    /// The query for the entry now due, or `None` once every entry has
    /// been attempted or a transport failure has aborted the run.
    pub fn next_query(&self) -> (r: Option<String>)
        ensures
            match r {
                Some(q) => in_progress(self@) && q@ == query_str(self@.entries[self@.next]),
                None => !in_progress(self@),
            },
    {
        proof {
            use_type_invariant(&*self);
        }
        if !self.aborted && self.next < self.entries.len() {
            let q = self.entries[self.next].track_query();
            Some(q)
        } else {
            None
        }
    }

    /// Takes the outcome of the entry now due and moves the run one step:
    /// the progress line to print, or `None` on a transport failure,
    /// whose report the caller owns.
    pub fn record(&mut self, outcome: ItemOutcome) -> (msg: Option<String>)
        requires
            in_progress(old(self)@),
        ensures
            final (self)@ == step(old(self)@, outcome@),
            match outcome {
                ItemOutcome::Added { name } => msg is Some && msg.unwrap()@ == added_line(name@),
                ItemOutcome::NotFound => msg is Some && msg.unwrap()@ == missed_line(
                    query_str(old(self)@.entries[old(self)@.next]),
                ),
                ItemOutcome::TransportFailed => msg is None,
            },
    {
        proof {
            use_type_invariant(&*self);
            assert(views_of(self.entries@).len() == self.entries@.len());
        }
        let n = self.entries.len();
        assert(self.next < n);
        let idx = self.next;
        self.next = self.next + 1;
        match outcome {
            ItemOutcome::Added { name } => {
                self.added = self.added + 1;
                let mut m = String::from_str("- Added track: ");
                m.append(name.as_str());
                Some(m)
            },
            ItemOutcome::NotFound => {
                self.missed = self.missed + 1;
                let query = self.entries[idx].track_query();
                let mut m = String::from_str("- Track not found: ");
                m.append(query.as_str());
                Some(m)
            },
            ItemOutcome::TransportFailed => {
                self.aborted = true;
                None
            },
        }
    }

    /// How many tracks the run has added.
    pub fn added_count(&self) -> (r: usize)
        ensures
            r == self@.added,
    {
        self.added
    }

    /// How many attempted entries found no track.
    pub fn missed_count(&self) -> (r: usize)
        ensures
            r == self@.missed,
    {
        self.missed
    }

    /// How many entries have been attempted.
    pub fn attempted_count(&self) -> (r: usize)
        ensures
            r == self@.next,
    {
        self.next
    }

    /// Whether a transport failure has aborted the run.
    pub fn is_aborted(&self) -> (r: bool)
        ensures
            r == self@.aborted,
    {
        self.aborted
    }
}

proof fn lemma_run_from_complete(st: SyncView, evs: Seq<OutcomeView>)
    requires
        !st.aborted,
        st.next + evs.len() == st.entries.len(),
        forall|i: int| 0 <= i < evs.len() ==> !(#[trigger] evs[i] is TransportFailed),
    ensures
        ({
            let f = run_from(st, evs);
            &&& !f.aborted
            &&& f.entries == st.entries
            &&& f.next == st.entries.len()
            &&& f.added == st.added + count_added(evs)
            &&& f.missed == st.missed + count_missed(evs)
        }),
    decreases evs.len(),
{
    if evs.len() != 0 {
        lemma_run_from_complete(step(st, evs[0]), evs.skip(1));
    }
}

/// With one outcome per entry and no transport failure among them, a run
/// attempts every entry, adds one track per found outcome, misses one per
/// not-found outcome, and does not abort: a miss never ends the run.
pub proof fn lemma_run_complete(entries: Seq<EntryView>, evs: Seq<OutcomeView>)
    requires
        evs.len() == entries.len(),
        forall|i: int| 0 <= i < evs.len() ==> !(#[trigger] evs[i] is TransportFailed),
    ensures
        ({
            let f = run(entries, evs);
            &&& !f.aborted
            &&& f.next == entries.len()
            &&& f.added == count_added(evs)
            &&& f.missed == count_missed(evs)
        }),
{
    lemma_run_from_complete(init_state(entries), evs);
}

proof fn lemma_run_from_aborts(st: SyncView, evs: Seq<OutcomeView>, k: int)
    requires
        !st.aborted,
        0 <= k < evs.len(),
        st.next + k < st.entries.len(),
        evs[k] is TransportFailed,
        forall|i: int| 0 <= i < k ==> !(#[trigger] evs[i] is TransportFailed),
    ensures
        ({
            let f = run_from(st, evs);
            &&& f.aborted
            &&& f.entries == st.entries
            &&& f.next == st.next + k + 1
            &&& f.added == st.added + count_added(evs.take(k))
            &&& f.missed == st.missed + count_missed(evs.take(k))
        }),
    decreases k,
{
    if k == 0 {
        let st1 = step(st, evs[0]);
        assert(!in_progress(st1));
        assert(run_from(st1, evs.skip(1)) == st1);
    } else {
        lemma_run_from_aborts(step(st, evs[0]), evs.skip(1), k - 1);
        assert(evs.take(k).skip(1) =~= evs.skip(1).take(k - 1));
        assert(count_added(evs.take(k)) == (if evs[0] is Added {
            1int
        } else {
            0int
        }) + count_added(evs.skip(1).take(k - 1)));
        assert(count_missed(evs.take(k)) == (if evs[0] is NotFound {
            1int
        } else {
            0int
        }) + count_missed(evs.skip(1).take(k - 1)));
    }
}

/// A transport failure at position `k` aborts the run there: exactly the
/// entries up to and including `k` are attempted, later entries never,
/// and only the added and missed outcomes before `k` are counted.
pub proof fn lemma_run_aborts(entries: Seq<EntryView>, evs: Seq<OutcomeView>, k: int)
    requires
        0 <= k < evs.len(),
        k < entries.len(),
        evs[k] is TransportFailed,
        forall|i: int| 0 <= i < k ==> !(#[trigger] evs[i] is TransportFailed),
    ensures
        ({
            let f = run(entries, evs);
            &&& f.aborted
            &&& f.next == k + 1
            &&& f.added == count_added(evs.take(k))
            &&& f.missed == count_missed(evs.take(k))
        }),
{
    lemma_run_from_aborts(init_state(entries), evs, k);
}

proof fn lemma_run_from_bounds(st: SyncView, evs: Seq<OutcomeView>)
    requires
        st.next <= st.entries.len(),
        0 <= st.added,
        0 <= st.missed,
        st.added + st.missed <= st.next,
    ensures
        ({
            let f = run_from(st, evs);
            &&& f.entries == st.entries
            &&& 0 <= f.added
            &&& 0 <= f.missed
            &&& f.added + f.missed <= f.next
            &&& f.next <= st.entries.len()
        }),
    decreases evs.len(),
{
    if evs.len() != 0 && in_progress(st) {
        lemma_run_from_bounds(step(st, evs[0]), evs.skip(1));
    }
}

/// However the outcomes fall, a run never attempts more entries than it
/// was given, and each attempted entry yields at most one added track.
pub proof fn lemma_run_bounds(entries: Seq<EntryView>, evs: Seq<OutcomeView>)
    ensures
        ({
            let f = run(entries, evs);
            &&& f.entries == entries
            &&& 0 <= f.added
            &&& 0 <= f.missed
            &&& f.added + f.missed <= f.next
            &&& f.next <= entries.len()
        }),
{
    lemma_run_from_bounds(init_state(entries), evs);
}

} // verus!
