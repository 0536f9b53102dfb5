use solidb_storage::codec::KeyValue;
use solidb_storage::keys::{
    Collection, BLO_PREFIX, DOC_PREFIX, FT_META_PREFIX, FT_PREFIX, FT_TERM_PREFIX, GEO_META_PREFIX,
    GEO_PREFIX, IDX_META_PREFIX, IDX_PREFIX,
};

#[test]
fn test_doc_key() {
    let key = Collection::doc_key("user123");
    let key_str = String::from_utf8(key).unwrap();
    assert!(key_str.starts_with(DOC_PREFIX));
    assert!(key_str.contains("user123"));
}

#[test]
fn test_blo_chunk_key() {
    let key = Collection::blo_chunk_key("file1", 5);
    let key_str = String::from_utf8(key.clone()).unwrap();
    assert!(key_str.starts_with(BLO_PREFIX));
    assert!(key_str.contains("file1"));
}

#[test]
fn test_idx_meta_key() {
    let key = Collection::idx_meta_key("idx_name");
    let key_str = String::from_utf8(key).unwrap();
    assert!(key_str.starts_with(IDX_META_PREFIX));
    assert!(key_str.contains("idx_name"));
}

#[test]
fn test_idx_entry_key() {
    let values = vec![KeyValue::Str("value1".to_string()), KeyValue::Number(42f64.to_bits())];
    let key = Collection::idx_entry_key("myindex", &values, "doc1");
    let key_str = String::from_utf8(key).unwrap();
    assert!(key_str.starts_with(IDX_PREFIX));
    assert!(key_str.contains("myindex"));
}

#[test]
fn test_geo_meta_key() {
    let key = Collection::geo_meta_key("geo_idx");
    let key_str = String::from_utf8(key).unwrap();
    assert!(key_str.starts_with(GEO_META_PREFIX));
}

#[test]
fn test_geo_entry_key() {
    let key = Collection::geo_entry_key("geo_idx", "doc1");
    let key_str = String::from_utf8(key).unwrap();
    assert!(key_str.starts_with(GEO_PREFIX));
}

#[test]
fn test_ft_meta_key() {
    let key = Collection::ft_meta_key("fulltext_idx");
    let key_str = String::from_utf8(key).unwrap();
    assert!(key_str.starts_with(FT_META_PREFIX));
}

#[test]
fn test_ft_ngram_key() {
    let key = Collection::ft_ngram_key("ft_idx", "hel", "doc1");
    let key_str = String::from_utf8(key).unwrap();
    assert!(key_str.starts_with(FT_PREFIX));
}

#[test]
fn test_ft_term_key() {
    let key = Collection::ft_term_key("ft_idx", "hello", "doc1");
    let key_str = String::from_utf8(key).unwrap();
    assert!(key_str.starts_with(FT_TERM_PREFIX));
}

#[test]
fn expiry_suffix_parsing() {
    let key = Collection::ttl_expiry_key("idx", 1_700_000_000, "a:b");
    let prefix = Collection::ttl_expiry_prefix("idx");
    assert_eq!(
        Collection::parse_expiry_suffix(&key[prefix.len()..]),
        Some((1_700_000_000, "a:b".to_string()))
    );
    assert!(Collection::ttl_expiry_key("idx", 99, "k") < Collection::ttl_expiry_key("idx", 100, "k"));
    let other = Collection::ttl_expiry_key("idx:x", 5, "k");
    assert_eq!(Collection::parse_expiry_suffix(&other[prefix.len()..]), None);
    assert!(!key.starts_with(DOC_PREFIX.as_bytes()));

    assert_eq!(
        Collection::parse_legacy_expiry_suffix(b"12:victim"),
        Some((12, "victim".to_string()))
    );
    assert_eq!(Collection::parse_legacy_expiry_suffix(b"x:victim"), None);
}

#[test]
fn key_layouts_are_exact() {
    assert_eq!(Collection::doc_key("k"), b"doc:k".to_vec());
    assert_eq!(Collection::idx_meta_key("i"), b"idx_meta:i".to_vec());
    assert_eq!(Collection::geo_entry_key("g", "d"), b"geo:g:d".to_vec());
    assert_eq!(Collection::ft_term_key("f", "t", "d"), b"ft_term:f:t:d".to_vec());
    assert_eq!(Collection::ft_ngram_key("f", "hel", "d"), b"ft:f:hel:d".to_vec());
    assert_eq!(Collection::blo_chunk_key("file1", 5), b"blo:file1:5".to_vec());
    assert_eq!(Collection::blo_chunk_key("f", 1234567), b"blo:f:1234567".to_vec());
    assert_eq!(Collection::ttl_meta_key("t"), b"ttl_meta:t".to_vec());
    assert_eq!(Collection::vec_meta_key("v"), b"vec_meta:v".to_vec());
    assert_eq!(Collection::vec_data_key("v"), b"vec_data:v".to_vec());
    assert_eq!(
        Collection::ttl_expiry_key("t", 42, "d"),
        b"ttl_exp:t:00000000000000000042:d".to_vec()
    );
    assert_eq!(Collection::legacy_ttl_expiry_prefix("t"), b"doc:ttl_exp::t:".to_vec());
}

#[test]
fn idx_entry_key_hex_encodes_each_value() {
    let values = vec![KeyValue::Null, KeyValue::Bool(true)];
    let key = Collection::idx_entry_key("i", &values, "d");
    assert_eq!(String::from_utf8(key).unwrap(), "idx:i:01_0201:d");
    let key = Collection::idx_entry_key("i", &[KeyValue::Str("A".to_string())], "d");
    assert_eq!(String::from_utf8(key).unwrap(), "idx:i:044100:d");
}

#[test]
fn version_keys_sort_newest_first() {
    let newer = Collection::version_key("doc", 2_000);
    let older = Collection::version_key("doc", 1_000);
    assert!(newer < older);
    assert!(newer.starts_with(&Collection::version_prefix("doc")));
    assert_eq!(Collection::version_key("d", u64::MAX), "docv:d:0000000000000000");
    assert_eq!(Collection::version_key("d", 0), "docv:d:ffffffffffffffff");
    assert_eq!(Collection::version_prefix("d"), "docv:d:");
}

#[test]
fn expiry_parsing_rejects_overflow_and_short_input() {
    assert_eq!(Collection::parse_expiry_suffix(b"99999999999999999999:k"), None);
    assert_eq!(Collection::parse_expiry_suffix(b"00000000000000000001:"), None);
    assert_eq!(
        Collection::parse_expiry_suffix(b"18446744073709551615:k"),
        Some((u64::MAX, "k".to_string()))
    );
    assert_eq!(Collection::parse_legacy_expiry_suffix(b":k"), None);
    assert_eq!(Collection::parse_legacy_expiry_suffix(b"12"), None);
    assert_eq!(
        Collection::parse_legacy_expiry_suffix(b"007:a:b"),
        Some((7, "a:b".to_string()))
    );
}
