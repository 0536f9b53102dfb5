//! What commit checking promises about operations on one key.
use vstd::prelude::*;
use crate::txn::{TxOpView, TxConflictKind, op_key, last_writes, base_of, state_after, verdict, verdict_at};

verus! {

proof fn lemma_last_writes(ops: Seq<TxOpView>, n: nat, k: Seq<char>)
    requires
        n <= ops.len(),
    ensures
        last_writes(ops, n).contains_key(k) <==> exists|m: int|
            0 <= m < n && #[trigger] op_key(ops[m]) == Some(k),
        last_writes(ops, n).contains_key(k) ==> {
            let j = last_writes(ops, n)[k];
            &&& j < n
            &&& op_key(ops[j as int]) == Some(k)
            &&& forall|m: int| j < m < n ==> #[trigger] op_key(ops[m]) != Some(k)
        },
    decreases n,
{
    if n > 0 {
        lemma_last_writes(ops, (n - 1) as nat, k);
        if op_key(ops[n - 1]) == Some(k) {
            assert(op_key(ops[(n - 1) as int]) == Some(k));
        }
    }
}

/// Each operation is checked against the latest earlier operation of the
/// transaction on the same key; only where there is none does it meet the
/// store.
pub proof fn base_is_latest_earlier_operation(ops: Seq<TxOpView>, i: nat)
    requires
        i < ops.len(),
        op_key(ops[i as int]) is Some,
    ensures
        match base_of(ops, i) {
            Some(j) => {
                &&& j < i
                &&& op_key(ops[j as int]) == op_key(ops[i as int])
                &&& forall|m: int| j < m < i ==> #[trigger] op_key(ops[m]) != op_key(ops[i as int])
            },
            None => forall|m: int| 0 <= m < i ==> #[trigger] op_key(ops[m]) != op_key(ops[i as int]),
        },
{
    let k = op_key(ops[i as int])->0;
    lemma_last_writes(ops, i, k);
}

/// A key inserted or updated earlier in the same transaction counts as
/// taken: a later insert of it conflicts, whatever the store holds.
pub proof fn insert_after_own_write_conflicts(
    ops: Seq<TxOpView>,
    disk: Seq<Option<Option<Seq<char>>>>,
    j: nat,
    i: nat,
)
    requires
        j < i < ops.len(),
        ops[i as int] is Insert,
        ops[j as int] is Insert || ops[j as int] is Update,
        op_key(ops[j as int]) == op_key(ops[i as int]),
        forall|m: int| j < m < i ==> #[trigger] op_key(ops[m]) != op_key(ops[i as int]),
    ensures
        verdict_at(ops, disk, i) == Some(TxConflictKind::AlreadyExists),
{
    let k = op_key(ops[i as int])->0;
    lemma_last_writes(ops, i, k);
    assert(op_key(ops[j as int]) == Some(k));
    if last_writes(ops, i)[k] != j {
        let l = last_writes(ops, i)[k];
        if l < j {
            assert(op_key(ops[j as int]) != Some(k));
        }
    }
}

/// A key deleted earlier in the same transaction counts as gone: a later
/// update or delete of it conflicts, and a later insert of it does not,
/// whatever the store holds.
pub proof fn write_after_own_delete(
    ops: Seq<TxOpView>,
    disk: Seq<Option<Option<Seq<char>>>>,
    j: nat,
    i: nat,
)
    requires
        j < i < ops.len(),
        ops[j as int] is Delete,
        op_key(ops[i as int]) is Some,
        op_key(ops[j as int]) == op_key(ops[i as int]),
        forall|m: int| j < m < i ==> #[trigger] op_key(ops[m]) != op_key(ops[i as int]),
    ensures
        ops[i as int] is Insert ==> verdict_at(ops, disk, i) is None,
        !(ops[i as int] is Insert) ==> verdict_at(ops, disk, i) == Some(TxConflictKind::Deleted),
{
    let k = op_key(ops[i as int])->0;
    lemma_last_writes(ops, i, k);
    assert(op_key(ops[j as int]) == Some(k));
    if last_writes(ops, i)[k] != j {
        let l = last_writes(ops, i)[k];
        if l < j {
            assert(op_key(ops[j as int]) != Some(k));
        }
    }
}

/// An update or delete recorded against the `_rev` that an earlier
/// operation of the same transaction wrote commits, whatever the store
/// holds.
pub proof fn change_of_own_write_commits(
    ops: Seq<TxOpView>,
    disk: Seq<Option<Option<Seq<char>>>>,
    j: nat,
    i: nat,
)
    requires
        j < i < ops.len(),
        ops[j as int] is Insert || ops[j as int] is Update,
        ops[i as int] is Update || ops[i as int] is Delete,
        op_key(ops[j as int]) == op_key(ops[i as int]),
        forall|m: int| j < m < i ==> #[trigger] op_key(ops[m]) != op_key(ops[i as int]),
        state_after(ops[j as int]) == Some(
            match ops[i as int] {
                TxOpView::Update { based_on, .. } => based_on,
                TxOpView::Delete { based_on, .. } => based_on,
                _ => None,
            },
        ),
    ensures
        verdict_at(ops, disk, i) is None,
{
    let k = op_key(ops[i as int])->0;
    lemma_last_writes(ops, i, k);
    assert(op_key(ops[j as int]) == Some(k));
    if last_writes(ops, i)[k] != j {
        let l = last_writes(ops, i)[k];
        if l < j {
            assert(op_key(ops[j as int]) != Some(k));
        }
    }
}

/// With no earlier operation on its key, an operation meets the store: an
/// insert commits exactly when the store has no such document, an update or
/// delete exactly when the stored `_rev` is the one it was recorded against.
pub proof fn first_operation_meets_the_store(
    ops: Seq<TxOpView>,
    disk: Seq<Option<Option<Seq<char>>>>,
    i: nat,
)
    requires
        i < ops.len(),
        i < disk.len(),
        op_key(ops[i as int]) is Some,
        forall|m: int| 0 <= m < i ==> #[trigger] op_key(ops[m]) != op_key(ops[i as int]),
    ensures
        verdict_at(ops, disk, i) == verdict(ops[i as int], disk[i as int]),
{
    let k = op_key(ops[i as int])->0;
    lemma_last_writes(ops, i, k);
    if last_writes(ops, i).contains_key(k) {
        let m = choose|m: int| 0 <= m < i && #[trigger] op_key(ops[m]) == Some(k);
        assert(op_key(ops[m]) != op_key(ops[i as int]));
    }
}

} // verus!
