use solidb_storage::keys::Collection;
use solidb_storage::ttl::{
    compute_ttl_expiry_entries_for_delete, compute_ttl_expiry_entries_for_insert,
    compute_ttl_expiry_entries_for_update, distinct_doc_keys, due_entries, expiry_time,
    legacy_pass, still_expired, ExpiryField, TtlIndex,
};

fn index(name: &str, field: &str, after: u64) -> TtlIndex {
    TtlIndex { name: name.to_string(), field: field.to_string(), expire_after_seconds: after }
}

#[test]
fn expiry_time_reads_integers_and_rfc3339_text() {
    assert_eq!(expiry_time(&ExpiryField::Unsigned(1000)), Some(1000));
    assert_eq!(
        expiry_time(&ExpiryField::Text("1970-01-01T00:16:40Z".to_string())),
        Some(1000)
    );
    assert_eq!(
        expiry_time(&ExpiryField::Text("2024-01-01T01:00:00+01:00".to_string())),
        Some(1704067200)
    );
    assert_eq!(expiry_time(&ExpiryField::Text("tomorrow".to_string())), None);
    assert_eq!(expiry_time(&ExpiryField::Other), None);
    // A time before 1970 wraps as the cast of a negative i64 does.
    assert_eq!(
        expiry_time(&ExpiryField::Text("1969-12-31T23:59:59Z".to_string())),
        Some(u64::MAX)
    );
}

#[test]
fn entries_follow_the_indexes_whose_field_gives_a_time() {
    let indexes = vec![index("a", "t", 10), index("b", "u", 5), index("c", "v", 1)];
    let fields = vec![
        ExpiryField::Unsigned(100),
        ExpiryField::Other,
        ExpiryField::Unsigned(u64::MAX),
    ];
    let entries = compute_ttl_expiry_entries_for_insert("k", &indexes, &fields);
    assert_eq!(
        entries,
        vec![
            Collection::ttl_expiry_key("a", 110, "k"),
            Collection::ttl_expiry_key("c", u64::MAX, "k"),
        ]
    );
    assert_eq!(compute_ttl_expiry_entries_for_delete("k", &indexes, &fields), entries);
}

#[test]
fn update_adds_new_entries_and_removes_old_ones() {
    let indexes = vec![index("a", "t", 10)];
    let old = vec![ExpiryField::Unsigned(100)];
    let new = vec![ExpiryField::Unsigned(200)];
    let (add, remove) = compute_ttl_expiry_entries_for_update("k", &indexes, &old, &new);
    assert_eq!(add, vec![Collection::ttl_expiry_key("a", 210, "k")]);
    assert_eq!(remove, vec![Collection::ttl_expiry_key("a", 110, "k")]);
}

#[test]
fn scan_stops_at_the_first_entry_not_yet_due() {
    let prefix = Collection::ttl_expiry_prefix("idx");
    let keys = vec![
        Collection::ttl_expiry_key("idx", 5, "a"),
        Collection::ttl_expiry_key("idx:x", 6, "b"),
        Collection::ttl_expiry_key("idx", 10, "c:d"),
        Collection::ttl_expiry_key("idx", 11, "e"),
        Collection::ttl_expiry_key("idx", 3, "late"),
    ];
    let due = due_entries(&keys, &prefix, 10);
    assert_eq!(
        due,
        vec![(keys[0].clone(), "a".to_string()), (keys[2].clone(), "c:d".to_string())]
    );
}

#[test]
fn scan_stops_outside_the_prefix() {
    let prefix = Collection::ttl_expiry_prefix("idx");
    let keys = vec![Collection::ttl_expiry_key("idx", 1, "a"), b"ttl_exp:idy:x".to_vec()];
    let due = due_entries(&keys, &prefix, 100);
    assert_eq!(due, vec![(keys[0].clone(), "a".to_string())]);
    assert_eq!(due_entries(&vec![b"zzz".to_vec()], &prefix, 100), vec![]);
}

fn legacy_key(ts: u64, key: &str) -> Vec<u8> {
    format!("doc:ttl_exp::ttl:{}:{}", ts, key).into_bytes()
}

#[test]
fn legacy_expiry_entries_are_reaped_or_migrated_and_not_counted() {
    let now: u64 = 1_800_000_000;
    let ttl = index("ttl", "t", 1);
    let old_entry = legacy_key(1001, "old");
    let fresh_entry = legacy_key(now + 3601, "fresh");
    let prefix = Collection::legacy_ttl_expiry_prefix("ttl");
    let entries = vec![(old_entry.clone(), vec![]), (fresh_entry.clone(), vec![])];
    let pass = legacy_pass(&entries, &prefix, "ttl", now, 10_000);
    assert_eq!(pass.due, vec![(old_entry.clone(), "old".to_string())]);
    let migrated = Collection::ttl_expiry_key("ttl", now + 3601, "fresh");
    assert_eq!(pass.moved, vec![(migrated, fresh_entry)]);
    // The documents are re-read before deletion: only "old" is still due.
    assert!(still_expired(&ExpiryField::Unsigned(1000), ttl.expire_after_seconds, now));
    assert!(!still_expired(&ExpiryField::Unsigned(now + 3600), ttl.expire_after_seconds, now));
}

#[test]
fn legacy_pass_skips_documents_and_honours_its_limit() {
    let prefix = Collection::legacy_ttl_expiry_prefix("ttl");
    let entries = vec![
        (legacy_key(1, "a"), b"{\"doc\":1}".to_vec()),
        (b"doc:ttl_exp::ttl:x:b".to_vec(), vec![]),
        (legacy_key(2, "c"), vec![]),
        (legacy_key(3, "d"), vec![]),
    ];
    let pass = legacy_pass(&entries, &prefix, "ttl", 100, 1);
    assert_eq!(pass.due, vec![(legacy_key(2, "c"), "c".to_string())]);
    assert!(pass.moved.is_empty());
    let none = legacy_pass(&entries, &prefix, "ttl", 100, 0);
    assert!(none.due.is_empty() && none.moved.is_empty());
}

#[test]
fn still_expired_saturates() {
    assert!(!still_expired(&ExpiryField::Unsigned(u64::MAX - 1), 10, u64::MAX - 1));
    assert!(still_expired(&ExpiryField::Unsigned(u64::MAX - 1), 10, u64::MAX));
    assert!(!still_expired(&ExpiryField::Other, 0, u64::MAX));
}

#[test]
fn documents_are_reread_once_each() {
    let entries = vec![
        (b"e1".to_vec(), "a".to_string()),
        (b"e2".to_vec(), "b".to_string()),
        (b"e3".to_vec(), "a".to_string()),
    ];
    assert_eq!(distinct_doc_keys(&entries), vec!["a".to_string(), "b".to_string()]);
}
