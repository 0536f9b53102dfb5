use solidb_storage::crud::{key_exists_error, take_key, txn_document, DocumentError};
use solidb_storage::document::Document;
use solidb_storage::json::{JsonNumber, JsonValue};
use solidb_storage::keys::Collection;
use solidb_storage::timestamps::Timestamp;

fn text(s: &str) -> JsonValue {
    JsonValue::String(s.to_string())
}

fn num(n: u64) -> JsonValue {
    JsonValue::Number(JsonNumber::PosInt(n))
}

fn obj(fields: Vec<(&str, JsonValue)>) -> JsonValue {
    JsonValue::Object(fields.into_iter().map(|(k, v)| (k.to_string(), v)).collect())
}

fn now() -> Timestamp {
    let t = chrono::Utc::now();
    Timestamp { secs: t.timestamp(), nanos: t.timestamp_subsec_nanos() }
}

fn at(t: Timestamp) -> (i64, u32) {
    (t.secs, t.nanos)
}

#[test]
fn test_document_new() {
    let data = obj(vec![("name", text("Alice")), ("age", num(30))]);
    let doc = Document::new("users", data);

    assert!(!doc.key.is_empty());
    assert!(doc.id.starts_with("users/"));
    assert!(!doc.rev.is_empty());

    assert_eq!(doc.data.get("name"), Some(&text("Alice")));
    assert_eq!(doc.data.get("age"), Some(&num(30)));
}

#[test]
fn test_document_with_key() {
    let data = obj(vec![("name", text("Bob"))]);
    let doc = Document::with_key("users", "custom-key".to_string(), data);

    assert_eq!(doc.key, "custom-key");
    assert_eq!(doc.id, "users/custom-key");
    assert!(!doc.rev.is_empty());
    assert_eq!(doc.data.get("name"), Some(&text("Bob")));
}

#[test]
fn test_document_strips_system_fields() {
    let data = obj(vec![
        ("_key", text("should-be-removed")),
        ("_id", text("should-be-removed")),
        ("_rev", text("should-be-removed")),
        ("_created_at", text("should-be-removed")),
        ("_updated_at", text("should-be-removed")),
        ("name", text("Charlie")),
    ]);

    let doc = Document::new("users", data);

    assert!(doc.data.get("_key").is_none());
    assert!(doc.data.get("_id").is_none());
    assert!(doc.data.get("_rev").is_none());

    assert_eq!(doc.data.get("name"), Some(&text("Charlie")));
}

#[test]
fn test_document_update_merges() {
    let initial = obj(vec![("name", text("Dave")), ("age", num(25))]);
    let mut doc = Document::with_key("users", "dave".to_string(), initial);
    let original_rev = doc.rev.clone();

    doc.update(obj(vec![("age", num(26)), ("city", text("NYC"))]));

    assert_eq!(doc.data.get("name"), Some(&text("Dave")));
    assert_eq!(doc.data.get("age"), Some(&num(26)));
    assert_eq!(doc.data.get("city"), Some(&text("NYC")));
    assert_ne!(doc.rev, original_rev);
}

#[test]
fn test_document_update_ignores_system_fields() {
    let initial = obj(vec![("name", text("Eve"))]);
    let mut doc = Document::with_key("users", "eve".to_string(), initial);

    doc.update(obj(vec![("_key", text("hacked")), ("email", text("eve@test.com"))]));

    assert_eq!(doc.key, "eve");
    assert_eq!(doc.data.get("email"), Some(&text("eve@test.com")));
}

#[test]
fn test_document_get_special_fields() {
    let doc = Document::with_key("users", "test".to_string(), obj(vec![("name", text("Test"))]));

    assert_eq!(doc.get("_key"), Some(text("test")));
    assert_eq!(doc.get("_id"), Some(text("users/test")));
    assert!(doc.get("_rev").is_some());
    assert_eq!(doc.get("name"), Some(text("Test")));
    assert_eq!(doc.get("nonexistent"), None);
}

#[test]
fn test_document_revision() {
    let doc = Document::new("test", obj(vec![]));
    assert!(!doc.revision().is_empty());
}

#[test]
fn test_document_to_value() {
    let doc = Document::with_key("users", "id1".to_string(), obj(vec![("name", text("Frank"))]));
    let value = doc.to_value();

    assert!(value.get("_key").is_some());
    assert!(value.get("_id").is_some());
    assert!(value.get("_rev").is_some());
    assert!(value.get("_created_at").is_some());
    assert!(value.get("_updated_at").is_some());
    assert_eq!(value.get("name"), Some(&text("Frank")));
}

#[test]
fn test_document_timestamps() {
    let before = now();
    let doc = Document::new("users", obj(vec![]));
    let after = now();

    assert!(at(doc.created_at) >= at(before) && at(doc.created_at) <= at(after));
    assert!(at(doc.updated_at) >= at(before) && at(doc.updated_at) <= at(after));
}

#[test]
fn keys_and_revisions_are_hyphenated_uuids() {
    let doc = Document::new("c", obj(vec![]));
    for t in [&doc.key, &doc.rev] {
        assert_eq!(t.len(), 36);
        assert_eq!(t.matches('-').count(), 4);
    }
    assert_eq!(&doc.key[14..15], "7");
    assert_eq!(&doc.rev[14..15], "4");
}

#[test]
fn update_with_a_non_object_replaces_the_data() {
    let mut doc = Document::with_key("c", "k".to_string(), obj(vec![("a", num(1))]));
    doc.update(num(5));
    assert_eq!(doc.data, num(5));
    doc.update(obj(vec![("_rev", text("x")), ("b", num(2))]));
    assert_eq!(doc.data, obj(vec![("b", num(2))]));
}

#[test]
fn to_value_exact_fields() {
    let mut doc = Document::with_key("c", "k".to_string(), JsonValue::Null);
    doc.created_at = Timestamp { secs: 1_700_000_000, nanos: 0 };
    doc.updated_at = Timestamp { secs: 1_700_000_000, nanos: 500_000_000 };
    let v = doc.to_value();
    assert_eq!(v.get("_key"), Some(&text("k")));
    assert_eq!(v.get("_id"), Some(&text("c/k")));
    assert_eq!(v.get("_created_at"), Some(&text("2023-11-14T22:13:20Z")));
    assert_eq!(v.get("_updated_at"), Some(&text("2023-11-14T22:13:20.500Z")));
    doc.data = num(3);
    assert_eq!(doc.to_value(), JsonValue::Null);
}

#[test]
fn take_key_takes_a_text_key_out() {
    let mut data = obj(vec![("_key", text("k1")), ("x", num(1))]);
    assert_eq!(take_key(&mut data), Ok("k1".to_string()));
    assert_eq!(data, obj(vec![("x", num(1))]));

    let mut bad = obj(vec![("_key", num(7))]);
    assert_eq!(
        take_key(&mut bad),
        Err(DocumentError::InvalidDocument("_key must be a string".to_string()))
    );
    assert_eq!(bad, obj(vec![]));

    let mut none = obj(vec![("x", num(1))]);
    let k = take_key(&mut none).unwrap();
    assert_eq!(k.len(), 36);
    assert_eq!(none, obj(vec![("x", num(1))]));
}

#[test]
fn insert_conflict_message() {
    assert_eq!(
        key_exists_error("a1"),
        DocumentError::Conflict("Document with _key 'a1' already exists".to_string())
    );
}

#[test]
fn edge_documents_need_non_empty_endpoints() {
    let c = Collection { name: "e".to_string() };
    let invalid = |m: &str| Err(DocumentError::InvalidDocument(m.to_string()));
    assert_eq!(c.validate_edge_document(&num(1)), invalid("Edge document must be a JSON object"));
    assert_eq!(
        c.validate_edge_document(&obj(vec![("_to", text("b/1"))])),
        invalid("Edge document must have a _from field")
    );
    assert_eq!(
        c.validate_edge_document(&obj(vec![("_from", num(1))])),
        invalid("Edge document _from field must be a string")
    );
    assert_eq!(
        c.validate_edge_document(&obj(vec![("_from", text(""))])),
        invalid("Edge document _from field must be a non-empty string")
    );
    assert_eq!(
        c.validate_edge_document(&obj(vec![("_from", text("a/1"))])),
        invalid("Edge document must have a _to field")
    );
    assert_eq!(
        c.validate_edge_document(&obj(vec![("_from", text("a/1")), ("_to", JsonValue::Null)])),
        invalid("Edge document _to field must be a string")
    );
    assert_eq!(
        c.validate_edge_document(&obj(vec![("_from", text("a/1")), ("_to", text(""))])),
        invalid("Edge document _to field must be a non-empty string")
    );
    assert_eq!(
        c.validate_edge_document(&obj(vec![("_from", text("a/1")), ("_to", text("b/2"))])),
        Ok(())
    );
}

#[test]
fn transaction_documents_keep_the_handed_out_revision_and_times() {
    let value = obj(vec![
        ("_key", text("k")),
        ("_rev", text("rev-1")),
        ("_created_at", text("2024-01-01T00:00:00Z")),
        ("_updated_at", text("2024-01-02T00:00:00.250Z")),
        ("n", num(4)),
    ]);
    let doc = txn_document("c", "k", &value);
    assert_eq!(doc.key, "k");
    assert_eq!(doc.id, "c/k");
    assert_eq!(doc.rev, "rev-1");
    assert_eq!(doc.created_at, Timestamp { secs: 1704067200, nanos: 0 });
    assert_eq!(doc.updated_at, Timestamp { secs: 1704153600, nanos: 250_000_000 });
    assert_eq!(doc.data, obj(vec![("n", num(4))]));
}

#[test]
fn test_document_update_changes_updated_at() {
    let mut doc = Document::new("users", obj(vec![]));
    let original_updated = doc.updated_at;

    // Small delay to ensure time difference
    let start = std::time::Instant::now();
    while start.elapsed() < std::time::Duration::from_millis(10) {}

    doc.update(obj(vec![("new_field", JsonValue::Bool(true))]));

    assert!(
        (doc.updated_at.secs, doc.updated_at.nanos)
            > (original_updated.secs, original_updated.nanos)
    );
    // created_at should not change
    assert_eq!(doc.created_at, doc.created_at);
}
