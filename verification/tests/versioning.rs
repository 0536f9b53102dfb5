use solidb_storage::keys::Collection;
use solidb_storage::versioning::{latest_versions, versions_to_prune};

#[test]
fn pruning_keeps_the_newest_versions() {
    let prefix = Collection::version_prefix("d").into_bytes();
    let keys: Vec<Vec<u8>> = [50u64, 40, 30, 20]
        .iter()
        .map(|ts| Collection::version_key("d", *ts).into_bytes())
        .chain(std::iter::once(Collection::version_key("e", 1).into_bytes()))
        .collect();
    assert_eq!(versions_to_prune(&keys, &prefix, 2), vec![keys[2].clone(), keys[3].clone()]);
    assert!(versions_to_prune(&keys, &prefix, 10).is_empty());
    assert_eq!(versions_to_prune(&keys, &prefix, 0).len(), 4);
}

#[test]
fn as_of_scan_picks_the_newest_version_per_document() {
    let records = vec![
        ("a".to_string(), 30, false),
        ("a".to_string(), 10, false),
        ("b".to_string(), 20, true),
        ("b".to_string(), 5, false),
        ("c".to_string(), 50, false),
        ("a".to_string(), 30, false),
    ];
    // At 25: a's newest is ts 10, b's is a tombstone, c did not exist yet.
    assert_eq!(latest_versions(&records, 25), vec![1]);
    // At 40: a's newest is the first ts-30 record; b is deleted.
    assert_eq!(latest_versions(&records, 40), vec![0]);
    // At 60: c appears too.
    assert_eq!(latest_versions(&records, 60), vec![0, 4]);
    // At 7: only b's first version.
    assert_eq!(latest_versions(&records, 7), vec![3]);
}
