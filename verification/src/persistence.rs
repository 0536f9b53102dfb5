//! When a collection's counters and vector indexes are written back: the
//! throttles that keep bulk writes from rewriting them on every batch, and
//! the bookkeeping of the periodic drain of collections whose vector indexes
//! changed.
use vstd::prelude::*;

verus! {

/// Least seconds between throttled vector-index persists.
pub const VEC_PERSIST_THROTTLE_SECS: u64 = 5;

/// Seconds from `last` to `now`, zero when the clock went back.
pub open spec fn since(now: u64, last: u64) -> int {
    if now >= last {
        now - last
    } else {
        0
    }
}

/// Whether a throttled stats flush writes: the count changed and the clock
/// has moved past the second of the last flush.
pub fn stats_flush_due(dirty: bool, now: u64, last_flush: u64) -> (r: bool)
    ensures
        r == (dirty && now > last_flush),
{
    dirty && now > last_flush
}

/// Whether a vector index is due for its persist: it changed, and its last
/// persist lies at least `VEC_PERSIST_THROTTLE_SECS` back.
pub fn vector_persist_due(dirty: bool, now: u64, last_persist: u64) -> (r: bool)
    ensures
        r == (dirty && since(now, last_persist) >= VEC_PERSIST_THROTTLE_SECS),
{
    dirty && now.saturating_sub(last_persist) >= VEC_PERSIST_THROTTLE_SECS
}

/// The registered collections a drain persists, by position: those whose
/// last persist lies at least the throttle window back, in order.
pub fn due_for_persist(last_persists: &Vec<u64>, now: u64) -> (r: Vec<usize>)
    ensures
        forall|a: int, b: int| 0 <= a < b < r.len() ==> r@[a] < r@[b],
        forall|j: int| 0 <= j < r.len() ==> r@[j] < last_persists.len(),
        forall|i: usize|
            i < last_persists.len() ==> (#[trigger] r@.contains(i) <==> since(now, last_persists@[i as int])
                >= VEC_PERSIST_THROTTLE_SECS),
{
    let mut r: Vec<usize> = Vec::new();
    let mut i: usize = 0;
    while i < last_persists.len()
        invariant
            i <= last_persists.len(),
            forall|a: int, b: int| 0 <= a < b < r.len() ==> r@[a] < r@[b],
            forall|j: int| 0 <= j < r.len() ==> r@[j] < i,
            forall|k: usize|
                k < i ==> (#[trigger] r@.contains(k) <==> since(now, last_persists@[k as int])
                    >= VEC_PERSIST_THROTTLE_SECS),
        decreases last_persists.len() - i,
    {
        let ghost before = r@;
        if now.saturating_sub(last_persists[i]) >= VEC_PERSIST_THROTTLE_SECS {
            r.push(i);
            proof {
                assert(r@[before.len() as int] == i);
                assert forall|k: usize| k < i implies (#[trigger] r@.contains(k) <==> before.contains(k)) by {
                    if r@.contains(k) {
                        let j = choose|j: int| 0 <= j < r@.len() && r@[j] == k;
                        if j < before.len() {
                            assert(before[j] == k);
                        }
                    }
                    if before.contains(k) {
                        let j = choose|j: int| 0 <= j < before.len() && before[j] == k;
                        assert(r@[j] == k);
                    }
                }
            }
        } else {
            proof {
                assert(!r@.contains(i)) by {
                    if r@.contains(i) {
                        let j = choose|j: int| 0 <= j < r@.len() && r@[j] == i;
                    }
                }
            }
        }
        i = i + 1;
    }
    r
}

/// What persisting one collection's vector indexes came to.
#[derive(Debug, Clone, Copy, PartialEq, Eq)]
pub enum PersistOutcome {
    /// The indexes were written.
    Persisted,
    /// Writing failed; the collection stays registered for the next drain.
    Failed,
    /// The engine, the handle or the collection is gone; nothing to write.
    Gone,
}

/// How many of the outcomes are `Persisted`.
pub open spec fn persisted_count(outcomes: Seq<PersistOutcome>) -> nat
    decreases outcomes.len(),
{
    if outcomes.len() == 0 {
        0
    } else {
        persisted_count(outcomes.drop_last()) + if outcomes.last() == PersistOutcome::Persisted {
            1nat
        } else {
            0nat
        }
    }
}

/// The bookkeeping of one drain of the dirty registry, given the outcome of
/// persisting each due collection in turn: how many were persisted, and
/// which of them (by position among the due ones) stay registered because
/// their persist failed. The others leave the registry.
pub fn flush_dirty_vector_indexes(outcomes: &Vec<PersistOutcome>) -> (r: (usize, Vec<usize>))
    ensures
        r.0 == persisted_count(outcomes@),
        forall|a: int, b: int| 0 <= a < b < r.1.len() ==> r.1@[a] < r.1@[b],
        forall|j: int| 0 <= j < r.1.len() ==> r.1@[j] < outcomes.len(),
        forall|i: usize|
            i < outcomes.len() ==> (#[trigger] r.1@.contains(i) <==> outcomes@[i as int] == PersistOutcome::Failed),
{
    let mut flushed: usize = 0;
    let mut keep: Vec<usize> = Vec::new();
    let mut i: usize = 0;
    while i < outcomes.len()
        invariant
            i <= outcomes.len(),
            flushed == persisted_count(outcomes@.take(i as int)),
            flushed <= i,
            forall|a: int, b: int| 0 <= a < b < keep.len() ==> keep@[a] < keep@[b],
            forall|j: int| 0 <= j < keep.len() ==> keep@[j] < i,
            forall|k: usize|
                k < i ==> (#[trigger] keep@.contains(k) <==> outcomes@[k as int] == PersistOutcome::Failed),
        decreases outcomes.len() - i,
    {
        assert(outcomes@.take(i + 1).drop_last() =~= outcomes@.take(i as int));
        let ghost before = keep@;
        match outcomes[i] {
            PersistOutcome::Persisted => {
                flushed = flushed + 1;
            },
            PersistOutcome::Failed => {
                keep.push(i);
            },
            PersistOutcome::Gone => {},
        }
        proof {
            assert forall|k: usize| k < i implies (#[trigger] keep@.contains(k) <==> before.contains(k)) by {
                if keep@.contains(k) {
                    let j = choose|j: int| 0 <= j < keep@.len() && keep@[j] == k;
                    if j < before.len() {
                        assert(before[j] == k);
                    }
                }
                if before.contains(k) {
                    let j = choose|j: int| 0 <= j < before.len() && before[j] == k;
                    assert(keep@[j] == k);
                }
            }
            if outcomes@[i as int] == PersistOutcome::Failed {
                assert(keep@[before.len() as int] == i);
            } else {
                assert(!keep@.contains(i)) by {
                    if keep@.contains(i) {
                        let j = choose|j: int| 0 <= j < keep@.len() && keep@[j] == i;
                    }
                }
            }
        }
        i = i + 1;
    }
    assert(outcomes@.take(outcomes.len() as int) =~= outcomes@);
    (flushed, keep)
}

} // verus!
