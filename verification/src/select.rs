//! The selection engine: it admits records into the candidate pool, then
//! hands out the best candidate and drops it when it fails the last test,
//! until one stands or none is left.
//!
//! Looking up a path is the caller's part. `Selector` says when a lookup is
//! wanted and decides on what the caller reports; `select` runs a whole
//! selection over records whose lookups were done beforehand.

use crate::mode::{
    passes_post_filter,
    passes_pre_filter,
    post_filter,
    pre_filter,
    FileStat,
    SearchType,
};
use crate::pool::{is_best, lemma_best_is_unique, outranks, CandidatePool, ScoredRecord};
use crate::query::{contains_all_substrings, matches_all};
use crate::score::FileInfo;
use vstd::prelude::*;

verus! {

/// How the test of the best candidate ended.
#[derive(Clone, Copy, PartialEq, Eq, Structural, Debug)]
pub enum Verdict {
    /// The candidate in this slot stood the test. It stays in the running.
    Chosen(usize),
    /// The candidate in this slot failed the test and left the running.
    Rejected(usize),
    /// No candidate was left to test.
    Exhausted,
}

/// A record together with what a lookup reported about its path.
#[derive(Debug)]
pub struct ProbedRecord {
    /// The record.
    pub record: FileInfo,
    /// `Some` of what the lookup found, `None` where it failed.
    pub probe: Option<FileStat>,
}

/// The record as it enters the pool: with its score at `now`.
pub open spec fn scored(record: FileInfo, now: u32) -> ScoredRecord {
    ScoredRecord { score: record.score_at(now) as u64, record }
}

/// The record becomes a candidate: its path holds every term and stands the
/// test before admission.
pub open spec fn admits(
    record: FileInfo,
    probe: Option<FileStat>,
    terms: Seq<String>,
    mode: SearchType,
) -> bool {
    matches_all(record.filename@, terms) && passes_pre_filter(mode, record.filename@, probe)
}

/// The record may be chosen: it becomes a candidate and stands the test
/// before the choice too.
pub open spec fn qualifies(item: ProbedRecord, terms: Seq<String>, mode: SearchType) -> bool {
    admits(item.record, item.probe, terms, mode) && passes_post_filter(
        mode,
        item.record.filename@,
        item.probe,
    )
}

/// Record `a`, at index `i`, is to be chosen before record `b`, at index `j`:
/// its score is higher, or the scores agree and it comes no later.
pub open spec fn prevails(a: FileInfo, i: int, b: FileInfo, j: int, now: u32) -> bool {
    a.score_at(now) > b.score_at(now) || (a.score_at(now) == b.score_at(now) && i <= j)
}

/// The record at `i` may be chosen, and is to be chosen before every other
/// that may be.
pub open spec fn is_winner(
    items: Seq<ProbedRecord>,
    terms: Seq<String>,
    mode: SearchType,
    now: u32,
    i: int,
) -> bool {
    &&& 0 <= i < items.len()
    &&& qualifies(items[i], terms, mode)
    &&& forall|j: int|
        0 <= j < items.len() && qualifies(#[trigger] items[j], terms, mode) ==> prevails(
            items[i].record,
            i,
            items[j].record,
            j,
            now,
        )
}

/// `chosen` is the outcome of the selection: the path of the winner, or
/// `None` where no record may be chosen.
pub open spec fn selects(
    items: Seq<ProbedRecord>,
    terms: Seq<String>,
    mode: SearchType,
    now: u32,
    chosen: Option<String>,
) -> bool {
    match chosen {
        Some(path) => exists|i: int|
            #![trigger items[i]]
            is_winner(items, terms, mode, now, i) && items[i].record.filename@ == path@,
        None => forall|i: int|
            0 <= i < items.len() ==> !qualifies(#[trigger] items[i], terms, mode),
    }
}

/// One selection in progress: the terms, the search type and the clock it
/// was set up with, and the candidate pool.
pub struct Selector {
    substrings: Vec<String>,
    mode: SearchType,
    now: u32,
    pool: CandidatePool,
}

impl Selector {
    /// The terms that a path has to hold.
    pub closed spec fn terms(&self) -> Seq<String> {
        self.substrings@
    }

    /// The kind of path that is looked for.
    pub closed spec fn mode(&self) -> SearchType {
        self.mode
    }

    /// The time against which every record is scored.
    pub closed spec fn now(&self) -> u32 {
        self.now
    }

    /// The candidates that were admitted, each in its slot.
    pub closed spec fn entries(&self) -> Seq<ScoredRecord> {
        self.pool.entries()
    }

    /// The slots that are still in the running.
    pub closed spec fn live(&self) -> Set<int> {
        self.pool.live()
    }

    /// The pool is in order, and every candidate holds every term in its path
    /// and carries the score that its record has at the selector's clock.
    pub closed spec fn wf(&self) -> bool {
        &&& self.pool.wf()
        &&& forall|slot: int|
            0 <= slot < self.pool.entries().len() ==> {
                &&& #[trigger] self.pool.entries()[slot] == scored(
                    self.pool.entries()[slot].record,
                    self.now,
                )
                &&& matches_all(self.pool.entries()[slot].record.filename@, self.substrings@)
            }
    }

    /// The selector was set up with the same terms, search type and clock as
    /// `other`.
    pub open spec fn same_setup(&self, other: &Selector) -> bool {
        &&& self.terms() == other.terms()
        &&& self.mode() == other.mode()
        &&& self.now() == other.now()
    }

    /// Every slot in the running holds a candidate, so they are finitely
    /// many; and every candidate holds every term in its path and carries
    /// its record's score.
    pub proof fn lemma_slots(&self)
        requires
            self.wf(),
        ensures
            forall|slot: int| #[trigger]
                self.live().contains(slot) ==> 0 <= slot < self.entries().len(),
            self.live().finite(),
            forall|slot: int|
                0 <= slot < self.entries().len() ==> {
                    &&& #[trigger] self.entries()[slot] == scored(
                        self.entries()[slot].record,
                        self.now(),
                    )
                    &&& matches_all(self.entries()[slot].record.filename@, self.terms())
                },
    {
        self.pool.lemma_live_in_range();
    }

    /// A selector with an empty pool.
    pub fn new(substrings: Vec<String>, mode: SearchType, now: u32) -> (selector: Selector)
        ensures
            selector.wf(),
            selector.terms() == substrings@,
            selector.mode() == mode,
            selector.now() == now,
            selector.entries() == Seq::<ScoredRecord>::empty(),
            selector.live() == Set::<int>::empty(),
    {
        Selector { substrings, mode, now, pool: CandidatePool::new() }
    }

    /// Whether admitting this record takes a lookup of its path: its path
    /// holds every term, and the test before admission reads the lookup.
    /// Where no lookup is wanted, whatever is handed in as one decides
    /// nothing.
    pub fn wants_probe(&self, record: &FileInfo) -> (wanted: bool)
        ensures
            wanted == (matches_all(record.filename@, self.terms()) && (self.mode()
                == SearchType::File || self.mode() == SearchType::Editable)),
            !wanted ==> forall|probe: Option<FileStat>| #[trigger]
                admits(*record, probe, self.terms(), self.mode()) == matches_all(
                    record.filename@,
                    self.terms(),
                ),
    {
        self.mode.probes_before_admission() && contains_all_substrings(
            record.filename.as_str(),
            &self.substrings,
        )
    }

    /// Takes one record of the history. It is admitted to the pool, with its
    /// score at the selector's clock, where its path holds every term and
    /// stands the test before admission; else nothing changes.
    pub fn ingest(&mut self, record: &FileInfo, probe: &Option<FileStat>) -> (admitted: bool)
        requires
            old(self).wf(),
        ensures
            final(self).wf(),
            final(self).same_setup(old(self)),
            admitted == admits(*record, *probe, old(self).terms(), old(self).mode()),
            admitted ==> final(self).entries() == old(self).entries().push(
                scored(*record, old(self).now()),
            ) && final(self).live() == old(self).live().insert(old(self).entries().len() as int),
            !admitted ==> final(self).entries() == old(self).entries() && final(self).live()
                == old(self).live(),
    {
        if contains_all_substrings(record.filename.as_str(), &self.substrings) && pre_filter(
            self.mode,
            record.filename.as_str(),
            probe,
        ) {
            let candidate = ScoredRecord { score: record.frecency(self.now), record: record.clone() };
            self.pool.insert(candidate);
            true
        } else {
            false
        }
    }

    /// The slot of the best candidate in the running: the one to look up
    /// next. `None` when no candidate is left.
    pub fn candidate(&self) -> (next: Option<usize>)
        requires
            self.wf(),
        ensures
            match next {
                Some(slot) => is_best(self.entries(), self.live(), slot as int),
                None => self.live() == Set::<int>::empty(),
            },
    {
        self.pool.best()
    }

    /// The candidate in a slot, or `None` where the slot was never taken.
    pub fn entry(&self, slot: usize) -> (found: Option<&ScoredRecord>)
        ensures
            match found {
                Some(entry) => slot < self.entries().len() && *entry == self.entries()[slot as int],
                None => slot >= self.entries().len(),
            },
    {
        self.pool.get(slot)
    }

    /// Puts the best candidate to the test before the choice, on what a
    /// lookup of its path reported. A candidate that stands is chosen; one
    /// that fails leaves the running for good.
    pub fn judge(&mut self, probe: &Option<FileStat>) -> (verdict: Verdict)
        requires
            old(self).wf(),
        ensures
            final(self).wf(),
            final(self).same_setup(old(self)),
            final(self).entries() == old(self).entries(),
            match verdict {
                Verdict::Chosen(slot) => {
                    &&& is_best(old(self).entries(), old(self).live(), slot as int)
                    &&& passes_post_filter(
                        old(self).mode(),
                        old(self).entries()[slot as int].record.filename@,
                        *probe,
                    )
                    &&& final(self).live() == old(self).live()
                },
                Verdict::Rejected(slot) => {
                    &&& is_best(old(self).entries(), old(self).live(), slot as int)
                    &&& !passes_post_filter(
                        old(self).mode(),
                        old(self).entries()[slot as int].record.filename@,
                        *probe,
                    )
                    &&& final(self).live() == old(self).live().remove(slot as int)
                },
                Verdict::Exhausted => {
                    &&& old(self).live() == Set::<int>::empty()
                    &&& final(self).live() == old(self).live()
                },
            },
    {
        match self.pool.best() {
            None => Verdict::Exhausted,
            Some(slot) => {
                proof {
                    self.pool.lemma_live_in_range();
                }
                let pass: bool = match self.pool.get(slot) {
                    Some(entry) => post_filter(self.mode, entry.record.filename.as_str(), probe),
                    None => false,
                };
                if pass {
                    Verdict::Chosen(slot)
                } else {
                    let gone: Option<usize> = self.pool.discard_best();
                    proof {
                        lemma_best_is_unique(
                            old(self).entries(),
                            old(self).live(),
                            slot as int,
                            gone->0 as int,
                        );
                    }
                    Verdict::Rejected(slot)
                }
            },
        }
    }
}

/// The record at index `j` stands in a slot that is in the running.
spec fn stands_in(origin: Seq<usize>, live: Set<int>, j: int) -> bool {
    exists|slot: int|
        0 <= slot < origin.len() && live.contains(slot) && #[trigger] origin[slot] == j
}

/// The candidate in `slot` is the record at index `origin[slot]`, admitted
/// with its score at `now`.
spec fn traces(
    items: Seq<ProbedRecord>,
    terms: Seq<String>,
    mode: SearchType,
    now: u32,
    entries: Seq<ScoredRecord>,
    origin: Seq<usize>,
    slot: int,
) -> bool {
    &&& 0 <= origin[slot] < items.len()
    &&& entries[slot] == scored(items[origin[slot] as int].record, now)
    &&& admits(items[origin[slot] as int].record, items[origin[slot] as int].probe, terms, mode)
}

/// Selects over a whole history whose paths were looked up beforehand: the
/// path of the record that is to be chosen before every other that may be
/// chosen, or `None` where none may be. The lookups are read as a selector
/// asks for them, the best candidate's first.
pub fn select(items: &Vec<ProbedRecord>, substrings: Vec<String>, mode: SearchType, now: u32) -> (chosen:
    Option<String>)
    ensures
        selects(items@, substrings@, mode, now, chosen),
{
    let ghost terms = substrings@;
    let mut selector = Selector::new(substrings, mode, now);
    let mut origin: Vec<usize> = Vec::new();
    let mut i: usize = 0;
    while i < items.len()
        invariant
            i <= items.len(),
            selector.wf(),
            selector.terms() == terms,
            selector.mode() == mode,
            selector.now() == now,
            origin@.len() == selector.entries().len(),
            forall|slot: int| 0 <= slot < origin@.len() ==> selector.live().contains(slot),
            forall|slot: int|
                0 <= slot < origin@.len() ==> #[trigger] origin@[slot] < i && traces(
                    items@,
                    terms,
                    mode,
                    now,
                    selector.entries(),
                    origin@,
                    slot,
                ),
            forall|a: int, b: int|
                0 <= a < b < origin@.len() ==> #[trigger] origin@[a] < #[trigger] origin@[b],
            forall|j: int|
                0 <= j < i && admits(
                    (#[trigger] items@[j]).record,
                    items@[j].probe,
                    terms,
                    mode,
                ) ==> stands_in(origin@, selector.live(), j),
        decreases items.len() - i,
    {
        let ghost before = selector;
        let ghost origin_before = origin@;
        let admitted: bool = selector.ingest(&items[i].record, &items[i].probe);
        if admitted {
            origin.push(i);
        }
        proof {
            assert forall|j: int|
                0 <= j < i + 1 && admits(
                    (#[trigger] items@[j]).record,
                    items@[j].probe,
                    terms,
                    mode,
                ) implies stands_in(origin@, selector.live(), j) by {
                if j < i {
                    assert(stands_in(origin_before, before.live(), j));
                    let slot = choose|slot: int|
                        0 <= slot < origin_before.len() && before.live().contains(slot)
                            && #[trigger] origin_before[slot] == j;
                    assert(origin@[slot] == j);
                } else {
                    assert(origin@[origin_before.len() as int] == j);
                }
            }
        }
        i += 1;
    }
    loop
        invariant
            terms == substrings@,
            selector.wf(),
            selector.terms() == terms,
            selector.mode() == mode,
            selector.now() == now,
            origin@.len() == selector.entries().len(),
            forall|slot: int|
                0 <= slot < origin@.len() ==> traces(
                    items@,
                    terms,
                    mode,
                    now,
                    selector.entries(),
                    origin@,
                    slot,
                ),
            forall|a: int, b: int|
                0 <= a < b < origin@.len() ==> #[trigger] origin@[a] < #[trigger] origin@[b],
            forall|j: int|
                0 <= j < items@.len() && qualifies(#[trigger] items@[j], terms, mode) ==> stands_in(
                    origin@,
                    selector.live(),
                    j,
                ),
        decreases selector.live().len(),
    {
        proof {
            selector.lemma_slots();
        }
        let ghost before = selector;
        let slot: usize = match selector.candidate() {
            Some(slot) => slot,
            None => {
                return None;
            },
        };
        let at: usize = origin[slot];
        assert(traces(items@, terms, mode, now, before.entries(), origin@, slot as int));
        match selector.judge(&items[at].probe) {
            Verdict::Chosen(best) => {
                proof {
                    lemma_best_is_unique(before.entries(), before.live(), slot as int, best as int);
                    assert forall|j: int|
                        0 <= j < items@.len() && qualifies(
                            #[trigger] items@[j],
                            terms,
                            mode,
                        ) implies prevails(items@[at as int].record, at as int, items@[j].record, j, now) by {
                        assert(stands_in(origin@, before.live(), j));
                        let other = choose|other: int|
                            0 <= other < origin@.len() && before.live().contains(other)
                                && #[trigger] origin@[other] == j;
                        assert(outranks(before.entries(), slot as int, other));
                        assert(traces(items@, terms, mode, now, before.entries(), origin@, other));
                    }
                    assert(is_winner(items@, terms, mode, now, at as int));
                }
                return Some(items[at].record.filename.clone());
            },
            Verdict::Rejected(best) => {
                proof {
                    lemma_best_is_unique(before.entries(), before.live(), slot as int, best as int);
                    assert forall|j: int|
                        0 <= j < items@.len() && qualifies(
                            #[trigger] items@[j],
                            terms,
                            mode,
                        ) implies stands_in(origin@, selector.live(), j) by {
                        assert(stands_in(origin@, before.live(), j));
                        let other = choose|other: int|
                            0 <= other < origin@.len() && before.live().contains(other)
                                && #[trigger] origin@[other] == j;
                        assert(other != slot);
                        assert(selector.live().contains(other));
                    }
                }
            },
            Verdict::Exhausted => {
                return None;
            },
        }
    }
}

/// At most one record is the winner: of two records that may be chosen, one
/// is to be chosen before the other.
pub proof fn lemma_winner_is_unique(
    items: Seq<ProbedRecord>,
    terms: Seq<String>,
    mode: SearchType,
    now: u32,
    i: int,
    j: int,
)
    requires
        is_winner(items, terms, mode, now, i),
        is_winner(items, terms, mode, now, j),
    ensures
        i == j,
{
    assert(prevails(items[i].record, i, items[j].record, j, now));
    assert(prevails(items[j].record, j, items[i].record, i, now));
}

/// The history, the terms, the search type and the clock determine the
/// outcome: two selections over the same of each end alike, both without a
/// choice or both with the same path.
pub proof fn lemma_selection_is_determined(
    items: Seq<ProbedRecord>,
    terms: Seq<String>,
    mode: SearchType,
    now: u32,
    first: Option<String>,
    second: Option<String>,
)
    requires
        selects(items, terms, mode, now, first),
        selects(items, terms, mode, now, second),
    ensures
        first is Some <==> second is Some,
        first is Some ==> first->0@ == second->0@,
{
    if first is Some {
        let i = choose|i: int|
            #![trigger items[i]]
            is_winner(items, terms, mode, now, i) && items[i].record.filename@ == first->0@;
        if second is Some {
            let j = choose|j: int|
                #![trigger items[j]]
                is_winner(items, terms, mode, now, j) && items[j].record.filename@ == second->0@;
            lemma_winner_is_unique(items, terms, mode, now, i, j);
        } else {
            assert(!qualifies(items[i], terms, mode));
        }
    } else if second is Some {
        let j = choose|j: int|
            #![trigger items[j]]
            is_winner(items, terms, mode, now, j) && items[j].record.filename@ == second->0@;
        assert(!qualifies(items[j], terms, mode));
    }
}

/// A selection ends without a choice exactly where no record may be chosen:
/// over an empty history, and over one whose records all fail a test, though
/// some of them were candidates.
pub proof fn lemma_none_iff_nothing_qualifies(
    items: Seq<ProbedRecord>,
    terms: Seq<String>,
    mode: SearchType,
    now: u32,
    chosen: Option<String>,
)
    requires
        selects(items, terms, mode, now, chosen),
    ensures
        chosen is None <==> forall|i: int|
            0 <= i < items.len() ==> !qualifies(#[trigger] items[i], terms, mode),
        items.len() == 0 ==> chosen is None,
{
    if chosen is Some {
        let i = choose|i: int|
            #![trigger items[i]]
            is_winner(items, terms, mode, now, i) && items[i].record.filename@ == chosen->0@;
        assert(qualifies(items[i], terms, mode));
    }
}

} // verus!
