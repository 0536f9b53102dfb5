use solidb_storage::codec::KeyValue;
use solidb_storage::index_entries::{
    rebuild_entries, regular_entry, regular_update, unique_probe_prefix, unique_violation,
    values_all_null,
};
use solidb_storage::keys::Collection;

fn text(s: &str) -> KeyValue {
    KeyValue::Str(s.to_string())
}

#[test]
fn documents_with_only_null_values_have_no_entry() {
    assert!(values_all_null(&[KeyValue::Null, KeyValue::Null]));
    assert!(values_all_null(&[]));
    assert_eq!(regular_entry("i", &[KeyValue::Null], "d"), None);
    let values = [KeyValue::Null, text("x")];
    assert_eq!(
        regular_entry("i", &values, "d"),
        Some(Collection::idx_entry_key("i", &values, "d"))
    );
}

#[test]
fn update_removes_the_old_entry_and_adds_the_new_one() {
    let old = [KeyValue::Null];
    let new = [text("b")];
    let u = regular_update("i", &old, &new, "d");
    assert_eq!(u.remove, None);
    assert_eq!(u.add, Some(Collection::idx_entry_key("i", &new, "d")));
    let u = regular_update("i", &new, &new, "d");
    assert_eq!(u.remove, u.add);
}

#[test]
fn rebuild_writes_one_entry_per_indexed_document() {
    let docs = vec![
        ("a".to_string(), vec![text("x")]),
        ("b".to_string(), vec![KeyValue::Null]),
        ("c".to_string(), vec![KeyValue::Bool(false)]),
    ];
    let entries = rebuild_entries("i", &docs);
    assert_eq!(
        entries,
        vec![
            (Collection::idx_entry_key("i", &[text("x")], "a"), "a".to_string()),
            (Collection::idx_entry_key("i", &[KeyValue::Bool(false)], "c"), "c".to_string()),
        ]
    );
}

#[test]
fn unique_probe_prefix_covers_entries_with_the_same_values() {
    let values = [text("x"), KeyValue::Number(1f64.to_bits())];
    let prefix = unique_probe_prefix("u", &values).unwrap();
    assert!(Collection::idx_entry_key("u", &values, "doc").starts_with(&prefix));
    assert!(!Collection::idx_entry_key("u", &[text("y")], "doc").starts_with(&prefix));
    assert_eq!(unique_probe_prefix("u", &[KeyValue::Null]), None);
}

#[test]
fn unique_violation_needs_another_document_under_the_prefix() {
    let values = [text("x")];
    let prefix = unique_probe_prefix("u", &values).unwrap();
    let mine = Collection::idx_entry_key("u", &values, "me");
    let theirs = Collection::idx_entry_key("u", &values, "you");
    assert!(!unique_violation(&prefix, &Some((mine, b"me".to_vec())), "me"));
    assert!(unique_violation(&prefix, &Some((theirs, b"you".to_vec())), "me"));
    let elsewhere = Collection::idx_entry_key("v", &values, "you");
    assert!(!unique_violation(&prefix, &Some((elsewhere, b"you".to_vec())), "me"));
    assert!(!unique_violation(&prefix, &None, "me"));
}
