use solidb_storage::codec::KeyValue;
use solidb_storage::index_lookup::{
    descending_seek_key, index_for_field, index_prefix, lookup_doc_keys, order_by_keys,
    range_doc_keys, sorted_doc_names, value_prefix, RANGE_SCAN_LIMIT,
};
use solidb_storage::truncate::truncate_ranges;
use solidb_storage::keys::Collection;
use solidb_storage::scans::{
    blob_prefix, blob_totals, count_chunks, count_live_documents, created_before,
    name_prefix, prune_candidates, run_keys, run_length, uuid_timestamp_ms,
};

fn entry(k: &str, v: &str) -> (Vec<u8>, Vec<u8>) {
    (k.as_bytes().to_vec(), v.as_bytes().to_vec())
}

fn strings(v: &[&str]) -> Vec<String> {
    v.iter().map(|s| s.to_string()).collect()
}

#[test]
fn run_stops_at_the_first_key_outside_the_prefix() {
    let entries = vec![entry("doc:a", "x"), entry("doc:b", "y"), entry("idx:c", "z"), entry("doc:d", "w")];
    assert_eq!(run_length(&entries, b"doc:"), 2);
    assert_eq!(run_keys(&entries, b"doc:"), vec![b"doc:a".to_vec(), b"doc:b".to_vec()]);
    assert_eq!(run_length(&entries, b"zzz"), 0);
    assert_eq!(run_length(&Vec::new(), b"doc:"), 0);
}

#[test]
fn legacy_expiry_entries_are_not_documents() {
    let entries = vec![
        entry("doc:a", "{}"),
        entry("doc:ttl_exp::idx:00000000000000000010:a", ""),
        entry("doc:b", "{\"x\":1}"),
        entry("idx:i:00:a", "a"),
    ];
    assert_eq!(count_live_documents(&entries), 2);
}

#[test]
fn blob_statistics_count_data_chunks() {
    let entries = vec![
        entry("blo:", "meta"),
        entry("blo:f:0", "hello"),
        entry("blo:f:1", "world!"),
        entry("doc:x", "{}"),
        entry("blo:g:0", "late"),
    ];
    assert_eq!(count_chunks(&entries), 3);
    assert_eq!(blob_totals(&entries), (2, 11));
    assert_eq!(blob_prefix("f"), b"blo:f:".to_vec());
    let prefix = blob_prefix("f");
    let tail: Vec<_> = entries[1..].to_vec();
    assert_eq!(run_keys(&tail, &prefix), vec![b"blo:f:0".to_vec(), b"blo:f:1".to_vec()]);
    let chunk = Collection::blo_chunk_key("f", 12);
    assert!(chunk.starts_with(&prefix));
}

#[test]
fn lookup_prefixes_have_the_index_layout() {
    assert_eq!(index_prefix("age_idx"), b"idx:age_idx:".to_vec());
    let p = value_prefix("age_idx", &KeyValue::Null);
    assert_eq!(p, b"idx:age_idx:01:".to_vec());
    let entry_key = Collection::idx_entry_key("age_idx", &[KeyValue::Bool(true)], "u1");
    assert!(entry_key.starts_with(&value_prefix("age_idx", &KeyValue::Bool(true))));
    assert!(!entry_key.starts_with(&value_prefix("age_idx", &KeyValue::Bool(false))));
    assert_eq!(descending_seek_key(b"idx:a:"), b"idx:a:\xff".to_vec());
}

#[test]
fn equality_lookup_names_documents_under_the_value() {
    let entries = vec![
        entry("idx:i:01:u1", "u1"),
        entry("idx:i:01:u:2", "u:2"),
        entry("idx:i:02:u3", "u3"),
    ];
    assert_eq!(
        lookup_doc_keys(&entries, b"idx:i:01:", None),
        vec![b"doc:u1".to_vec(), b"doc:u:2".to_vec()]
    );
    assert_eq!(lookup_doc_keys(&entries, b"idx:i:01:", Some(1)), vec![b"doc:u1".to_vec()]);
    assert!(lookup_doc_keys(&entries, b"idx:i:01:", Some(0)).is_empty());
    assert!(lookup_doc_keys(&entries, b"idx:i:09:", None).is_empty());
}

#[test]
fn sorted_reads_give_document_names() {
    let entries = vec![entry("idx:i:01:b", "b"), entry("idx:i:02:a", "a"), entry("idx:j:00:c", "c")];
    assert_eq!(sorted_doc_names(&entries, b"idx:i:", None), strings(&["b", "a"]));
    assert_eq!(sorted_doc_names(&entries, b"idx:i:", Some(1)), strings(&["b"]));
}

#[test]
fn exclusive_range_skips_the_bound_value() {
    let entries = vec![
        entry("idx:i:05:a", "a"),
        entry("idx:i:05:b", "b"),
        entry("idx:i:06:c", "c"),
        entry("idx:i:07:d", "d"),
        entry("idx:j:00:e", "e"),
    ];
    assert_eq!(
        range_doc_keys(&entries, b"idx:i:", b"idx:i:05:", false),
        vec![b"doc:c".to_vec(), b"doc:d".to_vec()]
    );
    assert_eq!(
        range_doc_keys(&entries, b"idx:i:", b"idx:i:05:", true),
        vec![b"doc:a".to_vec(), b"doc:b".to_vec(), b"doc:c".to_vec(), b"doc:d".to_vec()]
    );
}

#[test]
fn range_lookup_is_capped() {
    let mut entries = Vec::new();
    for n in 0..(RANGE_SCAN_LIMIT + 50) {
        entries.push(entry(&format!("idx:i:{:04}:d{}", n, n), &format!("d{}", n)));
    }
    let r = range_doc_keys(&entries, b"idx:i:", b"idx:i:0000:", true);
    assert_eq!(r.len(), RANGE_SCAN_LIMIT);
    assert_eq!(r[0], b"doc:d0".to_vec());
    assert_eq!(r[RANGE_SCAN_LIMIT - 1], format!("doc:d{}", RANGE_SCAN_LIMIT - 1).into_bytes());
}

#[test]
fn fetched_documents_follow_the_key_order() {
    let keys = strings(&["c", "a", "missing", "b"]);
    let found = strings(&["a", "b", "c", "a"]);
    assert_eq!(order_by_keys(&keys, &found), vec![2, 3, 1]);
    assert!(order_by_keys(&keys, &Vec::new()).is_empty());
}

fn in_some_range(k: &[u8], ranges: &[(Vec<u8>, Vec<u8>)]) -> bool {
    ranges.iter().any(|(s, e)| k >= s.as_slice() && k < e.as_slice())
}

#[test]
fn truncate_deletes_data_and_keeps_definitions() {
    let ranges = truncate_ranges();
    assert_eq!(ranges.len(), 10);
    assert_eq!(ranges[0], (b"doc:".to_vec(), b"doc;".to_vec()));
    assert_eq!(ranges[5], (b"ft_term:".to_vec(), b"ft_term;".to_vec()));
    assert_eq!(ranges[7], (b"blo_tmp:".to_vec(), b"blo_tmp;".to_vec()));
    for k in [
        Collection::doc_key("users:1"),
        Collection::idx_entry_key("i", &[KeyValue::Bool(true)], "d"),
        Collection::ft_term_key("ft", "hello", "d"),
        Collection::ft_ngram_key("ft", "hel", "d"),
        Collection::geo_entry_key("g", "d"),
        Collection::blo_chunk_key("b", 3),
        Collection::ttl_expiry_key("t", 10, "d"),
        b"doc:ttl_exp::t:00000000000000000010:d".to_vec(),
    ] {
        assert!(in_some_range(&k, &ranges), "{:?}", String::from_utf8_lossy(&k));
    }
    for k in [
        Collection::idx_meta_key("i"),
        Collection::geo_meta_key("g"),
        Collection::ft_meta_key("ft"),
        Collection::ttl_meta_key("t"),
        Collection::vec_meta_key("v"),
        Collection::vec_data_key("v"),
        b"_stats:count".to_vec(),
        b"_stats:schema".to_vec(),
        b"_stats:type".to_vec(),
    ] {
        assert!(!in_some_range(&k, &ranges), "{:?}", String::from_utf8_lossy(&k));
    }
}

#[test]
fn uuid_timestamps_decide_the_prune() {
    // 0x0190_0000_0000 ms in the top 48 bits.
    let v: u128 = 0x0190_0000_0000_7000_8000_0000_0000_0000;
    assert_eq!(uuid_timestamp_ms(v), 0x0190_0000_0000);
    assert!(created_before(Some(v), 0x0190_0000_0001));
    assert!(!created_before(Some(v), 0x0190_0000_0000));
    assert!(!created_before(None, u64::MAX));
    let entries = vec![
        entry("doc:01900000-0000-7000-8000-000000000000", "{}"),
        entry("doc:not-a-uuid", "{}"),
        entry("doc:01a00000-0000-7000-8000-000000000000", "{}"),
        entry("idx:x", "y"),
    ];
    assert_eq!(
        prune_candidates(&entries, 0x0190_0000_0001),
        strings(&["01900000-0000-7000-8000-000000000000"])
    );
    assert_eq!(prune_candidates(&entries, 0x01a0_0000_0001).len(), 2);
    assert!(prune_candidates(&entries, 0).is_empty());
}

#[test]
fn the_first_index_leading_with_the_field_serves_it() {
    let defs = vec![strings(&["name", "age"]), Vec::new(), strings(&["age"]), strings(&["age", "x"])];
    assert_eq!(index_for_field(&defs, "age"), Some(2));
    assert_eq!(index_for_field(&defs, "name"), Some(0));
    assert_eq!(index_for_field(&defs, "x"), None);
}

#[test]
fn index_entries_lie_under_the_index_prefix() {
    assert_eq!(name_prefix("ft_term:", "body"), b"ft_term:body:".to_vec());
    assert!(Collection::ft_term_key("body", "word", "d1").starts_with(&name_prefix("ft_term:", "body")));
    assert!(Collection::ft_ngram_key("body", "wor", "d1").starts_with(&name_prefix("ft:", "body")));
    assert!(Collection::geo_entry_key("loc", "d1").starts_with(&name_prefix("geo:", "loc")));
    let entry = Collection::idx_entry_key("age", &[KeyValue::Null], "d1");
    assert!(entry.starts_with(&name_prefix("idx:", "age")));
    assert!(!entry.starts_with(&name_prefix("idx:", "ag")));
}
