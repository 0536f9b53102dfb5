use solidb_storage::batch_update::{
    check_batch_unique, first_shared_unique, plan_update_batch, plan_upsert_batch,
};
use solidb_storage::crud::{upsert_allowed, DocumentError};
use solidb_storage::document::Document;
use solidb_storage::json::{JsonNumber, JsonValue};
use solidb_storage::keys::Collection;
use solidb_storage::timestamps::Timestamp;

fn text(s: &str) -> JsonValue {
    JsonValue::String(s.to_string())
}

fn num(n: u64) -> JsonValue {
    JsonValue::Number(JsonNumber::PosInt(n))
}

fn obj(fields: Vec<(&str, JsonValue)>) -> JsonValue {
    JsonValue::Object(fields.into_iter().map(|(k, v)| (k.to_string(), v)).collect())
}

fn stored_doc(key: &str, data: JsonValue) -> Document {
    let at = Timestamp { secs: 1_700_000_000, nanos: 0 };
    Document {
        key: key.to_string(),
        id: format!("c/{}", key),
        rev: "r0".to_string(),
        created_at: at,
        updated_at: at,
        data,
    }
}

fn field<'a>(d: &'a Document, k: &str) -> Option<&'a JsonValue> {
    match &d.data {
        JsonValue::Object(e) => e.iter().find(|(n, _)| n == k).map(|(_, v)| v),
        _ => None,
    }
}

fn collection() -> Collection {
    Collection { name: "c".to_string() }
}

#[test]
fn a_repeated_key_builds_on_its_pending_version() {
    let updates = vec![
        ("a".to_string(), obj(vec![("x", num(1))])),
        ("b".to_string(), obj(vec![("y", num(2))])),
        ("a".to_string(), obj(vec![("z", num(3)), ("_key", text("other"))])),
        ("missing".to_string(), obj(vec![("w", num(4))])),
    ];
    let stored = vec![
        Some(stored_doc("a", obj(vec![("q", num(0))]))),
        Some(stored_doc("b", obj(vec![]))),
        Some(stored_doc("a", obj(vec![("q", num(0))]))),
        None,
    ];
    let (docs, applied) = plan_update_batch(&collection(), &updates, stored, false);
    assert_eq!(applied, vec![true, true, true, false]);
    let keys: Vec<&str> = docs.iter().map(|(k, _)| k.as_str()).collect();
    assert_eq!(keys, vec!["a", "b"]);
    let a = &docs[0].1;
    assert_eq!(a.key, "a");
    assert_eq!(a.id, "c/a");
    assert_eq!(field(a, "q"), Some(&num(0)));
    assert_eq!(field(a, "x"), Some(&num(1)));
    assert_eq!(field(a, "z"), Some(&num(3)));
    assert_eq!(field(a, "_key"), None);
    assert_ne!(a.rev, "r0");
    assert_eq!(field(&docs[1].1, "y"), Some(&num(2)));
}

#[test]
fn an_edge_update_that_breaks_the_edge_is_skipped() {
    let edge = || obj(vec![("_from", text("u/1")), ("_to", text("u/2"))]);
    let updates = vec![
        ("e".to_string(), obj(vec![("k", num(1))])),
        ("e".to_string(), JsonValue::Array(vec![num(1)])),
        ("e".to_string(), obj(vec![("m", num(2))])),
        ("half".to_string(), obj(vec![("k", num(1))])),
    ];
    let stored = vec![
        Some(stored_doc("e", edge())),
        Some(stored_doc("e", edge())),
        Some(stored_doc("e", edge())),
        Some(stored_doc("half", obj(vec![("_from", text("u/1"))]))),
    ];
    let (docs, applied) = plan_update_batch(&collection(), &updates, stored, true);
    assert_eq!(applied, vec![true, false, true, false]);
    assert_eq!(docs.len(), 1);
    let e = &docs[0].1;
    assert_eq!(field(e, "k"), Some(&num(1)));
    assert_eq!(field(e, "m"), Some(&num(2)));
    assert_eq!(field(e, "_to"), Some(&text("u/2")));
}

#[test]
fn a_key_first_skipped_is_read_from_storage_again() {
    let updates = vec![
        ("h".to_string(), obj(vec![("k", num(1))])),
        ("h".to_string(), obj(vec![("_to", text("u/9")), ("k", num(2))])),
    ];
    let stored = vec![
        Some(stored_doc("h", obj(vec![("_from", text("u/1"))]))),
        Some(stored_doc("h", obj(vec![("_from", text("u/1")), ("_to", text("u/2"))]))),
    ];
    let (docs, applied) = plan_update_batch(&collection(), &updates, stored, true);
    assert_eq!(applied, vec![false, true]);
    assert_eq!(docs.len(), 1);
    assert_eq!(field(&docs[0].1, "k"), Some(&num(2)));
    assert_eq!(field(&docs[0].1, "_to"), Some(&text("u/2")));
}

fn tokens(v: &[&[&str]]) -> Vec<Vec<String>> {
    v.iter().map(|r| r.iter().map(|s| s.to_string()).collect()).collect()
}

#[test]
fn the_first_shared_unique_value_names_both_documents() {
    assert_eq!(first_shared_unique(&tokens(&[&["t1", "t2"], &["t3"], &["t4", "t2"]])), Some((0, 2)));
    assert_eq!(first_shared_unique(&tokens(&[&["a"], &["b"], &[]])), None);
    assert_eq!(first_shared_unique(&tokens(&[&["x", "x"]])), Some((0, 0)));
    assert_eq!(
        first_shared_unique(&tokens(&[&["p"], &["q"], &["q"], &["p"]])),
        Some((1, 2))
    );
    let keys = vec!["k0".to_string(), "k1".to_string(), "k2".to_string()];
    assert_eq!(check_batch_unique(&keys, &tokens(&[&["a"], &["b"], &["c"]])), Ok(()));
    assert_eq!(
        check_batch_unique(&keys, &tokens(&[&["a"], &["b"], &["a"]])),
        Err(DocumentError::InvalidDocument(
            "Unique constraint violated: documents 'k0' and 'k2' in the same batch share a unique value"
                .to_string()
        ))
    );
}

#[test]
fn an_upsert_batch_merges_repeats_and_makes_new_documents() {
    let batch = vec![
        ("a".to_string(), obj(vec![("x", num(1))])),
        ("n".to_string(), obj(vec![("y", num(2)), ("_rev", text("bogus"))])),
        ("a".to_string(), obj(vec![("z", num(3))])),
        ("u".to_string(), obj(vec![("w", num(4))])),
    ];
    let stored = vec![
        (true, Some(stored_doc("a", obj(vec![("q", num(0))])))),
        (false, None),
        (true, Some(stored_doc("a", obj(vec![("q", num(0))])))),
        (true, None),
    ];
    let r = plan_upsert_batch("c", batch, stored);
    let keys: Vec<(&str, bool)> = r.iter().map(|(k, _, e)| (k.as_str(), *e)).collect();
    assert_eq!(keys, vec![("a", true), ("n", false), ("u", true)]);
    let a = &r[0].1;
    assert_eq!(a.id, "c/a");
    assert_eq!(field(a, "q"), Some(&num(0)));
    assert_eq!(field(a, "x"), Some(&num(1)));
    assert_eq!(field(a, "z"), Some(&num(3)));
    assert_eq!(field(a, "_key"), None);
    let n = &r[1].1;
    assert_eq!(n.key, "n");
    assert_eq!(n.id, "c/n");
    assert_eq!(field(n, "y"), Some(&num(2)));
    assert_eq!(field(n, "_rev"), None);
    assert_ne!(n.rev, "bogus");
    assert_eq!(r[2].1.key, "u");
    assert_eq!(field(&r[2].1, "w"), Some(&num(4)));
}

#[test]
fn upserts_are_refused_on_timeseries() {
    assert_eq!(upsert_allowed("document"), Ok(()));
    assert_eq!(
        upsert_allowed("timeseries"),
        Err(DocumentError::NotSupported(
            "Upsert (update) operations are not allowed on timeseries collections. Use insert_batch instead."
                .to_string()
        ))
    );
}
