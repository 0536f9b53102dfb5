//! Commit-time checks of a transaction's operations.
//!
//! Each recorded operation is checked against the document as it stands when
//! the transaction commits: the result of an earlier operation of the same
//! transaction on that key, else what the store holds. A `_rev` that moved, a
//! document that vanished, or an insert over an existing key is a conflict.
use vstd::prelude::*;
use vstd::hash_map::StringHashMap;
use crate::bytes::str_equal;
use crate::catalog::{split_at_colon, split_once_colon};
use crate::keys::Collection;

verus! {

/// What commit needs of one recorded operation: the document key and the
/// `_rev` texts involved (`None` where the value carries no `_rev`). `rev` is
/// the `_rev` of the value the operation writes; `based_on` that of the value
/// the operation was recorded against.
pub enum TxOp {
    Insert { key: String, rev: Option<String> },
    Update { key: String, based_on: Option<String>, rev: Option<String> },
    Delete { key: String, based_on: Option<String> },
    /// An operation that touches no document (a blob chunk and the like).
    Other,
}

pub enum TxOpView {
    Insert { key: Seq<char>, rev: Option<Seq<char>> },
    Update { key: Seq<char>, based_on: Option<Seq<char>>, rev: Option<Seq<char>> },
    Delete { key: Seq<char>, based_on: Option<Seq<char>> },
    Other,
}

pub open spec fn opt_text(o: Option<String>) -> Option<Seq<char>> {
    match o {
        Some(s) => Some(s@),
        None => None,
    }
}

impl View for TxOp {
    type V = TxOpView;

    open spec fn view(&self) -> TxOpView {
        match *self {
            TxOp::Insert { key, rev } => TxOpView::Insert { key: key@, rev: opt_text(rev) },
            TxOp::Update { key, based_on, rev } => TxOpView::Update {
                key: key@,
                based_on: opt_text(based_on),
                rev: opt_text(rev),
            },
            TxOp::Delete { key, based_on } => TxOpView::Delete {
                key: key@,
                based_on: opt_text(based_on),
            },
            TxOp::Other => TxOpView::Other,
        }
    }
}

/// Why an operation cannot commit.
#[derive(Clone, Copy, Debug, PartialEq, Eq, Structural)]
pub enum TxConflictKind {
    /// An insert whose key is already taken.
    AlreadyExists,
    /// An update or delete of a document that is gone.
    Deleted,
    /// An update or delete of a document whose `_rev` moved.
    Modified,
}

/// The first operation that cannot commit, by its position.
#[derive(Clone, Copy, Debug, PartialEq, Eq, Structural)]
pub struct TxConflict {
    pub index: usize,
    pub kind: TxConflictKind,
}

pub open spec fn ops_view(ops: Seq<TxOp>) -> Seq<TxOpView> {
    ops.map_values(|o: TxOp| o@)
}

/// What the store holds for a key: `None` no document, `Some(rev)` a
/// document whose `_rev` text is `rev`.
pub open spec fn stored_view(s: Option<Option<String>>) -> Option<Option<Seq<char>>> {
    match s {
        Some(rev) => Some(opt_text(rev)),
        None => None,
    }
}

pub open spec fn disk_view(disk: Seq<Option<Option<String>>>) -> Seq<Option<Option<Seq<char>>>> {
    disk.map_values(|s: Option<Option<String>>| stored_view(s))
}

pub open spec fn op_key(op: TxOpView) -> Option<Seq<char>> {
    match op {
        TxOpView::Insert { key, .. } => Some(key),
        TxOpView::Update { key, .. } => Some(key),
        TxOpView::Delete { key, .. } => Some(key),
        TxOpView::Other => None,
    }
}

/// The state an operation leaves its key in.
pub open spec fn state_after(op: TxOpView) -> Option<Option<Seq<char>>> {
    match op {
        TxOpView::Insert { rev, .. } => Some(rev),
        TxOpView::Update { rev, .. } => Some(rev),
        _ => None,
    }
}

/// For each key, the position of the latest of `ops[0..n]` on it.
pub open spec fn last_writes(ops: Seq<TxOpView>, n: nat) -> Map<Seq<char>, nat>
    decreases n,
{
    if n == 0 {
        Map::empty()
    } else {
        let m = last_writes(ops, (n - 1) as nat);
        match op_key(ops[n - 1]) {
            Some(k) => m.insert(k, (n - 1) as nat),
            None => m,
        }
    }
}

/// Where operation `i` finds its document: the latest earlier operation on
/// its key, or `None` for the store.
pub open spec fn base_of(ops: Seq<TxOpView>, i: nat) -> Option<nat> {
    match op_key(ops[i as int]) {
        Some(k) => if last_writes(ops, i).contains_key(k) {
            Some(last_writes(ops, i)[k])
        } else {
            None
        },
        None => None,
    }
}

/// The document operation `i` is checked against.
pub open spec fn state_before(
    ops: Seq<TxOpView>,
    disk: Seq<Option<Option<Seq<char>>>>,
    i: nat,
) -> Option<Option<Seq<char>>> {
    match base_of(ops, i) {
        Some(j) => state_after(ops[j as int]),
        None => disk[i as int],
    }
}

/// The conflict, if any, of `op` against the document state `state`.
pub open spec fn verdict(op: TxOpView, state: Option<Option<Seq<char>>>) -> Option<TxConflictKind> {
    match op {
        TxOpView::Insert { .. } => if state is Some {
            Some(TxConflictKind::AlreadyExists)
        } else {
            None
        },
        TxOpView::Update { based_on, .. } => match state {
            None => Some(TxConflictKind::Deleted),
            Some(r) => if r == based_on { None } else { Some(TxConflictKind::Modified) },
        },
        TxOpView::Delete { based_on, .. } => match state {
            None => Some(TxConflictKind::Deleted),
            Some(r) => if r == based_on { None } else { Some(TxConflictKind::Modified) },
        },
        TxOpView::Other => None,
    }
}

pub open spec fn verdict_at(
    ops: Seq<TxOpView>,
    disk: Seq<Option<Option<Seq<char>>>>,
    i: nat,
) -> Option<TxConflictKind> {
    verdict(ops[i as int], state_before(ops, disk, i))
}

pub open spec fn opt_index(o: Option<usize>) -> Option<nat> {
    match o {
        Some(j) => Some(j as nat),
        None => None,
    }
}

proof fn lemma_last_writes_below(ops: Seq<TxOpView>, n: nat)
    ensures
        forall|k: Seq<char>| #[trigger] last_writes(ops, n).contains_key(k) ==> last_writes(ops, n)[k] < n,
    decreases n,
{
    if n > 0 {
        lemma_last_writes_below(ops, (n - 1) as nat);
        let m = last_writes(ops, (n - 1) as nat);
        assert forall|k: Seq<char>| #[trigger] last_writes(ops, n).contains_key(k) implies last_writes(
            ops,
            n,
        )[k] < n by {
            match op_key(ops[n - 1]) {
                Some(key) => {
                    if k != key {
                        assert(m.contains_key(k));
                    }
                },
                None => {
                    assert(m.contains_key(k));
                },
            }
        }
    }
}

/// Whether two optional texts are equal.
fn opt_text_equal(a: &Option<String>, b: &Option<String>) -> (r: bool)
    ensures
        r == (opt_text(*a) == opt_text(*b)),
{
    match (a, b) {
        (Some(x), Some(y)) => str_equal(x.as_str(), y.as_str()),
        (None, None) => true,
        _ => false,
    }
}

/// The conflict of an update or delete recorded against `based_on`, given
/// the state it meets.
fn rev_verdict(state: Option<&Option<String>>, based_on: &Option<String>) -> (r: Option<TxConflictKind>)
    ensures
        r == (match state {
            None => Some(TxConflictKind::Deleted),
            Some(rev) => if opt_text(*rev) == opt_text(*based_on) {
                None
            } else {
                Some(TxConflictKind::Modified)
            },
        }),
{
    match state {
        None => Some(TxConflictKind::Deleted),
        Some(rev) => if opt_text_equal(rev, based_on) {
            None
        } else {
            Some(TxConflictKind::Modified)
        },
    }
}

/// The state operation `j` leaves its key in, as exec data.
fn written_state(op: &TxOp) -> (r: Option<&Option<String>>)
    ensures
        match r {
            Some(rev) => state_after(op@) == Some(opt_text(*rev)),
            None => state_after(op@) is None,
        },
{
    match op {
        TxOp::Insert { rev, .. } => Some(rev),
        TxOp::Update { rev, .. } => Some(rev),
        _ => None,
    }
}

/// Checks the operations of a committing transaction in order. `disk[i]` is
/// what the store holds for the key of `ops[i]` while the transaction's locks
/// are held. Each operation meets the state left by the latest earlier
/// operation on its key, else `disk[i]`.
///
/// On success, returns for each operation the position of that earlier
/// operation (`None`: the document came from the store), which is the base
/// for its index updates. Otherwise returns the first operation that
/// conflicts, and why.
pub fn check_operations(ops: &Vec<TxOp>, disk: &Vec<Option<Option<String>>>) -> (r: Result<
    Vec<Option<usize>>,
    TxConflict,
>)
    requires
        ops.len() == disk.len(),
    ensures
        match r {
            Ok(bases) => {
                &&& bases.len() == ops.len()
                &&& forall|i: int|
                    0 <= i < ops.len() ==> opt_index(#[trigger] bases@[i]) == base_of(
                        ops_view(ops@),
                        i as nat,
                    )
                &&& forall|i: int|
                    0 <= i < ops.len() ==> #[trigger] verdict_at(
                        ops_view(ops@),
                        disk_view(disk@),
                        i as nat,
                    ) is None
            },
            Err(c) => {
                &&& c.index < ops.len()
                &&& verdict_at(ops_view(ops@), disk_view(disk@), c.index as nat) == Some(c.kind)
                &&& forall|i: int|
                    0 <= i < c.index ==> #[trigger] verdict_at(
                        ops_view(ops@),
                        disk_view(disk@),
                        i as nat,
                    ) is None
            },
        },
{
    let ghost opsv = ops_view(ops@);
    let ghost diskv = disk_view(disk@);
    let mut latest: StringHashMap<usize> = StringHashMap::new();
    let mut bases: Vec<Option<usize>> = Vec::new();
    let mut i: usize = 0;
    while i < ops.len()
        invariant
            i <= ops.len(),
            ops.len() == disk.len(),
            opsv == ops_view(ops@),
            diskv == disk_view(disk@),
            latest@.dom() == last_writes(opsv, i as nat).dom(),
            forall|k: Seq<char>|
                #[trigger] latest@.contains_key(k) ==> latest@[k] as nat == last_writes(
                    opsv,
                    i as nat,
                )[k],
            bases@.len() == i,
            forall|j: int| 0 <= j < i ==> opt_index(#[trigger] bases@[j]) == base_of(opsv, j as nat),
            forall|j: int| 0 <= j < i ==> #[trigger] verdict_at(opsv, diskv, j as nat) is None,
        decreases ops.len() - i,
    {
        proof {
            lemma_last_writes_below(opsv, i as nat);
        }
        assert(opsv[i as int] == ops@[i as int]@);
        assert(diskv[i as int] == stored_view(disk@[i as int]));
        let op = &ops[i];
        match op {
            TxOp::Other => {
                bases.push(None);
                assert(last_writes(opsv, (i + 1) as nat) == last_writes(opsv, i as nat));
            },
            TxOp::Insert { key, .. } => {
                let base = match latest.get(key.as_str()) {
                    Some(j) => Some(*j),
                    None => None,
                };
                let taken = match base {
                    Some(j) => written_state(&ops[j]).is_some(),
                    None => disk[i].is_some(),
                };
                if taken {
                    return Err(TxConflict { index: i, kind: TxConflictKind::AlreadyExists });
                }
                bases.push(base);
                latest.insert(key.clone(), i);
            },
            TxOp::Update { key, based_on, .. } => {
                let base = match latest.get(key.as_str()) {
                    Some(j) => Some(*j),
                    None => None,
                };
                let v = match base {
                    Some(j) => rev_verdict(written_state(&ops[j]), based_on),
                    None => rev_verdict(disk[i].as_ref(), based_on),
                };
                if let Some(kind) = v {
                    return Err(TxConflict { index: i, kind });
                }
                bases.push(base);
                latest.insert(key.clone(), i);
            },
            TxOp::Delete { key, based_on } => {
                let base = match latest.get(key.as_str()) {
                    Some(j) => Some(*j),
                    None => None,
                };
                let v = match base {
                    Some(j) => rev_verdict(written_state(&ops[j]), based_on),
                    None => rev_verdict(disk[i].as_ref(), based_on),
                };
                if let Some(kind) = v {
                    return Err(TxConflict { index: i, kind });
                }
                bases.push(base);
                latest.insert(key.clone(), i);
            },
        }
        i = i + 1;
    }
    Ok(bases)
}

/// The database and collection parts of a column family name `db:coll`:
/// the text before and after its first `:`. A name without `:` belongs to no
/// database (the empty name).
pub open spec fn spec_split_collection_name(name: Seq<char>) -> (Seq<char>, Seq<char>) {
    match split_at_colon(name) {
        Some(parts) => parts,
        None => (Seq::empty(), name),
    }
}

impl Collection {
    /// The database and collection this column family belongs to.
    pub fn parse_db_coll(&self) -> (r: (String, String))
        ensures
            (r.0@, r.1@) == spec_split_collection_name(self.name@),
    {
        match split_once_colon(self.name.as_str()) {
            Some(parts) => parts,
            None => (String::new(), self.name.clone()),
        }
    }
}

/// Kind of a recorded transaction operation.
#[derive(Clone, Copy, Debug, PartialEq, Eq, Structural)]
pub enum TxRecordKind {
    Insert,
    Update,
    Delete,
    /// An operation that writes no document (a blob chunk and the like).
    Other,
}

/// Where a recorded operation applies, and what it is.
pub struct TxRecord {
    pub database: String,
    pub collection: String,
    pub key: String,
    pub kind: TxRecordKind,
}

/// Whether record `r` writes the document `key` of `db`/`coll`.
pub open spec fn writes_document(r: TxRecord, db: Seq<char>, coll: Seq<char>, key: Seq<char>) -> bool {
    &&& r.database@ == db
    &&& r.collection@ == coll
    &&& r.key@ == key
    &&& r.kind != TxRecordKind::Other
}

/// The transaction's own latest write to a document, by position: what a
/// later update or delete in the same transaction is based on (`None`: the
/// transaction has not touched it, so the stored document is).
pub fn latest_own_write(records: &Vec<TxRecord>, db: &str, coll: &str, key: &str) -> (r: Option<
    usize,
>)
    ensures
        match r {
            Some(j) => {
                &&& j < records.len()
                &&& writes_document(records@[j as int], db@, coll@, key@)
                &&& forall|m: int|
                    j < m < records.len() ==> !writes_document(#[trigger] records@[m], db@, coll@, key@)
            },
            None => forall|m: int|
                0 <= m < records.len() ==> !writes_document(#[trigger] records@[m], db@, coll@, key@),
        },
{
    let mut i: usize = records.len();
    while i > 0
        invariant
            i <= records.len(),
            forall|m: int|
                i <= m < records.len() ==> !writes_document(#[trigger] records@[m], db@, coll@, key@),
        decreases i,
    {
        let r = &records[i - 1];
        if r.kind != TxRecordKind::Other && str_equal(r.database.as_str(), db) && str_equal(
            r.collection.as_str(),
            coll,
        ) && str_equal(r.key.as_str(), key) {
            return Some(i - 1);
        }
        i = i - 1;
    }
    None
}

} // verus!
