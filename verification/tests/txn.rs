use solidb_storage::keys::Collection;
use solidb_storage::txn::{
    check_operations, latest_own_write, TxConflict, TxConflictKind, TxOp, TxRecord, TxRecordKind,
};

fn s(x: &str) -> String {
    x.to_string()
}

fn insert(key: &str, rev: &str) -> TxOp {
    TxOp::Insert { key: s(key), rev: Some(s(rev)) }
}

fn update(key: &str, based_on: &str, rev: &str) -> TxOp {
    TxOp::Update { key: s(key), based_on: Some(s(based_on)), rev: Some(s(rev)) }
}

fn delete(key: &str, based_on: &str) -> TxOp {
    TxOp::Delete { key: s(key), based_on: Some(s(based_on)) }
}

#[test]
fn second_insert_of_a_key_conflicts() {
    let ops = vec![insert("a", "r1"), insert("a", "r2")];
    let r = check_operations(&ops, &vec![None, None]);
    assert_eq!(r, Err(TxConflict { index: 1, kind: TxConflictKind::AlreadyExists }));
}

#[test]
fn insert_over_stored_document_conflicts() {
    let ops = vec![insert("a", "r1")];
    let r = check_operations(&ops, &vec![Some(Some(s("old")))]);
    assert_eq!(r, Err(TxConflict { index: 0, kind: TxConflictKind::AlreadyExists }));
}

#[test]
fn update_of_own_insert_is_based_on_it() {
    let ops = vec![insert("a", "r1"), update("a", "r1", "r2"), delete("a", "r2")];
    let r = check_operations(&ops, &vec![None, None, None]);
    assert_eq!(r, Ok(vec![None, Some(0), Some(1)]));
}

#[test]
fn stale_revision_is_a_modification_conflict() {
    let ops = vec![update("a", "r1", "r2")];
    let r = check_operations(&ops, &vec![Some(Some(s("r9")))]);
    assert_eq!(r, Err(TxConflict { index: 0, kind: TxConflictKind::Modified }));
    let ok = check_operations(&ops, &vec![Some(Some(s("r1")))]);
    assert_eq!(ok, Ok(vec![None]));
}

#[test]
fn vanished_document_is_a_deletion_conflict() {
    let ops = vec![delete("a", "r1")];
    let r = check_operations(&ops, &vec![None]);
    assert_eq!(r, Err(TxConflict { index: 0, kind: TxConflictKind::Deleted }));
}

#[test]
fn write_after_own_delete() {
    let ops = vec![delete("a", "r1"), update("a", "r1", "r2")];
    let disk = vec![Some(Some(s("r1"))), Some(Some(s("r1")))];
    assert_eq!(
        check_operations(&ops, &disk),
        Err(TxConflict { index: 1, kind: TxConflictKind::Deleted })
    );
    let ops = vec![delete("a", "r1"), insert("a", "r3")];
    assert_eq!(check_operations(&ops, &disk), Ok(vec![None, Some(0)]));
}

#[test]
fn other_operations_and_other_keys_do_not_interfere() {
    let ops = vec![insert("a", "r1"), TxOp::Other, insert("b", "r2"), update("a", "r1", "r3")];
    let r = check_operations(&ops, &vec![None, None, None, None]);
    assert_eq!(r, Ok(vec![None, None, None, Some(0)]));
}

#[test]
fn missing_revision_matches_missing_revision() {
    let ops = vec![TxOp::Update { key: s("a"), based_on: None, rev: None }];
    assert_eq!(check_operations(&ops, &vec![Some(None)]), Ok(vec![None]));
    assert_eq!(
        check_operations(&ops, &vec![Some(Some(s("r1")))]),
        Err(TxConflict { index: 0, kind: TxConflictKind::Modified })
    );
}

#[test]
fn collection_name_splits_at_first_colon() {
    let c = Collection { name: s("shop:orders") };
    assert_eq!(c.parse_db_coll(), (s("shop"), s("orders")));
    let c = Collection { name: s("a:b:c") };
    assert_eq!(c.parse_db_coll(), (s("a"), s("b:c")));
    let c = Collection { name: s("plain") };
    assert_eq!(c.parse_db_coll(), (s(""), s("plain")));
    let c = Collection { name: s("é:ü") };
    assert_eq!(c.parse_db_coll(), (s("é"), s("ü")));
}

fn record(db: &str, coll: &str, key: &str, kind: TxRecordKind) -> TxRecord {
    TxRecord { database: s(db), collection: s(coll), key: s(key), kind }
}

#[test]
fn latest_own_write_skips_other_documents_and_non_writes() {
    let records = vec![
        record("d", "c", "k", TxRecordKind::Insert),
        record("d", "c", "k", TxRecordKind::Update),
        record("d", "x", "k", TxRecordKind::Delete),
        record("d", "c", "k", TxRecordKind::Other),
        record("d", "c", "j", TxRecordKind::Delete),
    ];
    assert_eq!(latest_own_write(&records, "d", "c", "k"), Some(1));
    assert_eq!(latest_own_write(&records, "d", "x", "k"), Some(2));
    assert_eq!(latest_own_write(&records, "e", "c", "k"), None);
}
