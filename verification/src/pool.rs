//! The candidate pool: the scored records that are still in the running,
//! queued so that the best of them is at hand.

use crate::heap::{heap_items, heap_new, heap_peek, heap_pop, heap_push, is_greatest, pair_le};
use crate::score::FileInfo;
use pairing_heap::PairingHeap;
use vstd::prelude::*;
use vstd::set_lib::{lemma_int_range, lemma_len_subset, set_int_range};

verus! {

/// A record with the score it had when it was admitted. The score is not
/// computed again.
#[derive(Debug)]
pub struct ScoredRecord {
    /// The ordering key.
    pub score: u64,
    /// The record that was scored.
    pub record: FileInfo,
}

/// Candidate `a` ranks at least as high as candidate `b`: its score is
/// higher, or the scores agree and it was admitted no later.
pub open spec fn outranks(entries: Seq<ScoredRecord>, a: int, b: int) -> bool {
    entries[a].score > entries[b].score || (entries[a].score == entries[b].score && a <= b)
}

/// `slot` is in the running and ranks at least as high as every candidate
/// that is.
pub open spec fn is_best(entries: Seq<ScoredRecord>, live: Set<int>, slot: int) -> bool {
    &&& live.contains(slot)
    &&& forall|other: int| #[trigger] live.contains(other) ==> outranks(entries, slot, other)
}

/// At most one candidate is the best.
pub proof fn lemma_best_is_unique(entries: Seq<ScoredRecord>, live: Set<int>, a: int, b: int)
    requires
        is_best(entries, live, a),
        is_best(entries, live, b),
    ensures
        a == b,
{
    assert(outranks(entries, a, b));
    assert(outranks(entries, b, a));
}

/// Candidates leave in descending order: the best that is left when the best
/// has gone is another candidate, and the one that went ranks at least as
/// high.
pub proof fn lemma_drain_descends(
    entries: Seq<ScoredRecord>,
    live: Set<int>,
    first: int,
    second: int,
)
    requires
        is_best(entries, live, first),
        is_best(entries, live.remove(first), second),
    ensures
        first != second,
        outranks(entries, first, second),
        entries[first].score >= entries[second].score,
{
    assert(live.contains(second));
}

/// The pair under which the candidate in `slot` is queued. The second number
/// falls as the slot rises, so that of two equal scores the earlier slot is
/// the greater pair.
pub open spec fn queue_key(entries: Seq<ScoredRecord>, slot: int) -> (u64, u64) {
    (entries[slot].score, (u64::MAX - slot) as u64)
}

/// The slot that a queued pair stands for.
pub open spec fn slot_of(key: (u64, u64)) -> int {
    u64::MAX - key.1
}

/// The scored records that were admitted, each in its slot, and a queue over
/// those that were not discarded since.
pub struct CandidatePool {
    heap: PairingHeap<(u64, u64)>,
    admitted: Vec<ScoredRecord>,
}

impl CandidatePool {
    /// Every record that was ever admitted, in the order of admission. A
    /// record's index here is its slot.
    pub closed spec fn entries(&self) -> Seq<ScoredRecord> {
        self.admitted@
    }

    /// The slots that are still in the running.
    pub closed spec fn live(&self) -> Set<int> {
        Set::new(
            |slot: int|
                0 <= slot < self.admitted@.len() && heap_items(self.heap).contains(
                    queue_key(self.admitted@, slot),
                ),
        )
    }

    /// The queue holds each pair once, and each pair is the key of a slot.
    pub closed spec fn wf(&self) -> bool {
        &&& heap_items(self.heap).len() <= self.admitted@.len()
        &&& forall|key: (u64, u64)| #[trigger]
            heap_items(self.heap).contains(key) ==> {
                &&& heap_items(self.heap).count(key) == 1
                &&& 0 <= slot_of(key) < self.admitted@.len()
                &&& queue_key(self.admitted@, slot_of(key)) == key
            }
    }

    /// Every slot in the running holds a record, so they are finitely many.
    pub proof fn lemma_live_in_range(&self)
        ensures
            forall|slot: int| #[trigger]
                self.live().contains(slot) ==> 0 <= slot < self.entries().len(),
            self.live().finite(),
    {
        let slots = set_int_range(0, self.entries().len() as int);
        lemma_int_range(0, self.entries().len() as int);
        assert(self.live().subset_of(slots));
        lemma_len_subset(self.live(), slots);
    }

    /// A pool without candidates.
    pub fn new() -> (pool: CandidatePool)
        ensures
            pool.wf(),
            pool.entries() == Seq::<ScoredRecord>::empty(),
            pool.live() == Set::<int>::empty(),
    {
        let pool = CandidatePool { heap: heap_new(), admitted: Vec::new() };
        assert(pool.live() =~= Set::<int>::empty());
        pool
    }

    /// Admits a candidate: it takes the next slot and is in the running.
    pub fn insert(&mut self, candidate: ScoredRecord)
        requires
            old(self).wf(),
        ensures
            final(self).wf(),
            final(self).entries() == old(self).entries().push(candidate),
            final(self).live() == old(self).live().insert(old(self).entries().len() as int),
    {
        broadcast use vstd::multiset::group_multiset_axioms;

        let slot: usize = self.admitted.len();
        let key: (u64, u64) = (candidate.score, u64::MAX - (slot as u64));
        self.admitted.push(candidate);
        proof {
            assert(self.admitted@.len() == self.admitted.len());
            assert(!heap_items(self.heap).contains(key)) by {
                if heap_items(self.heap).contains(key) {
                    assert(slot_of(key) == slot);
                }
            }
        }
        heap_push(&mut self.heap, key);
        proof {
            let before = heap_items(old(self).heap);
            let after = heap_items(self.heap);
            assert(queue_key(self.admitted@, slot as int) == key);
            assert forall|other: (u64, u64)| #[trigger] after.contains(other) implies {
                &&& after.count(other) == 1
                &&& 0 <= slot_of(other) < self.admitted@.len()
                &&& queue_key(self.admitted@, slot_of(other)) == other
            } by {
                if other != key {
                    assert(before.contains(other));
                }
            }
            assert forall|s: int| self.live().contains(s) <==> old(self).live().insert(
                slot as int,
            ).contains(s) by {
                if 0 <= s < slot {
                    assert(queue_key(self.admitted@, s) == queue_key(old(self).admitted@, s));
                    assert(queue_key(self.admitted@, s) != key);
                }
            }
            assert(self.live() =~= old(self).live().insert(slot as int));
        }
    }

    /// The slot of the best candidate in the running, or `None` when none is
    /// left.
    pub fn best(&self) -> (top: Option<usize>)
        requires
            self.wf(),
        ensures
            match top {
                Some(slot) => is_best(self.entries(), self.live(), slot as int),
                None => self.live() == Set::<int>::empty(),
            },
    {
        broadcast use vstd::multiset::group_multiset_axioms;

        match heap_peek(&self.heap) {
            Some(key) => {
                proof {
                    self.lemma_greatest_is_best(key);
                }
                let slot: usize = (u64::MAX - key.1) as usize;
                Some(slot)
            },
            None => {
                proof {
                    assert forall|s: int| !self.live().contains(s) by {
                        if self.live().contains(s) {
                            assert(heap_items(self.heap).count(queue_key(self.admitted@, s)) > 0);
                        }
                    }
                    assert(self.live() =~= Set::<int>::empty());
                }
                None
            },
        }
    }

    /// The record in a slot, or `None` where the slot was never taken.
    pub fn get(&self, slot: usize) -> (found: Option<&ScoredRecord>)
        ensures
            match found {
                Some(entry) => slot < self.entries().len() && *entry == self.entries()[slot as int],
                None => slot >= self.entries().len(),
            },
    {
        if slot < self.admitted.len() {
            Some(&self.admitted[slot])
        } else {
            None
        }
    }

    /// Takes the best candidate out of the running and returns its slot. It
    /// keeps the slot, and never comes back. `None`, and nothing changed,
    /// when no candidate is left.
    pub fn discard_best(&mut self) -> (top: Option<usize>)
        requires
            old(self).wf(),
        ensures
            final(self).wf(),
            final(self).entries() == old(self).entries(),
            match top {
                Some(slot) => {
                    &&& is_best(old(self).entries(), old(self).live(), slot as int)
                    &&& final(self).live() == old(self).live().remove(slot as int)
                },
                None => {
                    &&& old(self).live() == Set::<int>::empty()
                    &&& final(self).live() == old(self).live()
                },
            },
    {
        broadcast use vstd::multiset::group_multiset_axioms;

        match heap_pop(&mut self.heap) {
            Some(key) => {
                proof {
                    old(self).lemma_greatest_is_best(key);
                }
                let slot: usize = (u64::MAX - key.1) as usize;
                proof {
                    let before = heap_items(old(self).heap);
                    let after = heap_items(self.heap);
                    assert forall|other: (u64, u64)| #[trigger] after.contains(other) implies {
                        &&& after.count(other) == 1
                        &&& 0 <= slot_of(other) < self.admitted@.len()
                        &&& queue_key(self.admitted@, slot_of(other)) == other
                    } by {
                        assert(before.contains(other));
                    }
                    assert forall|s: int| self.live().contains(s) <==> old(self).live().remove(
                        slot as int,
                    ).contains(s) by {
                        if 0 <= s < self.admitted@.len() && s != slot {
                            assert(queue_key(self.admitted@, s) != key);
                        }
                    }
                    assert(self.live() =~= old(self).live().remove(slot as int));
                }
                Some(slot)
            },
            None => {
                proof {
                    assert forall|s: int| !old(self).live().contains(s) by {
                        if old(self).live().contains(s) {
                            assert(heap_items(old(self).heap).count(
                                queue_key(old(self).admitted@, s),
                            ) > 0);
                        }
                    }
                    assert(old(self).live() =~= Set::<int>::empty());
                    assert(self.live() =~= old(self).live());
                }
                None
            },
        }
    }

    /// The slot of the greatest queued pair is the best candidate.
    proof fn lemma_greatest_is_best(&self, key: (u64, u64))
        requires
            self.wf(),
            is_greatest(heap_items(self.heap), key),
        ensures
            0 <= slot_of(key) < self.admitted@.len() <= usize::MAX,
            queue_key(self.admitted@, slot_of(key)) == key,
            is_best(self.entries(), self.live(), slot_of(key)),
    {
        let slot = slot_of(key);
        assert(self.admitted@.len() == self.admitted.len());
        assert(heap_items(self.heap).contains(key));
        assert forall|other: int| #[trigger] self.live().contains(other) implies outranks(
            self.entries(),
            slot,
            other,
        ) by {
            let other_key = queue_key(self.admitted@, other);
            assert(heap_items(self.heap).contains(other_key));
            assert(pair_le(other_key, key));
        }
    }
}

} // verus!
