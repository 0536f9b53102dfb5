use solidb_storage::registry::{
    available, backfill_candidates, database_prefix, default_type, entry_key, list, list_all,
};

fn record(keys: &mut Vec<String>, cf: &str) {
    keys.push(entry_key(cf));
    keys.sort();
}

fn forget(keys: &mut Vec<String>, cf: &str) {
    let k = entry_key(cf);
    keys.retain(|x| *x != k);
}

#[test]
fn record_then_list_round_trips() {
    let mut keys = Vec::new();
    record(&mut keys, "shop:orders");
    record(&mut keys, "shop:edges");
    record(&mut keys, "other:orders");

    let mut listed = list(&keys, "shop");
    listed.sort();
    assert_eq!(listed, vec!["edges".to_string(), "orders".to_string()]);

    forget(&mut keys, "shop:edges");
    assert_eq!(list(&keys, "shop"), vec!["orders".to_string()]);
}

#[test]
fn list_does_not_leak_across_similar_database_names() {
    let mut keys = Vec::new();
    record(&mut keys, "app:things");
    record(&mut keys, "app_test:things");

    assert_eq!(list(&keys, "app"), vec!["things".to_string()]);
    assert_eq!(list(&keys, "app_test"), vec!["things".to_string()]);
}

#[test]
fn backfill_adopts_unregistered_column_families() {
    let mut keys: Vec<String> = Vec::new();
    let cfs = vec![
        "default".to_string(),
        "_meta".to_string(),
        "shop:orders".to_string(),
        "shop:edges".to_string(),
    ];
    assert!(list(&keys, "shop").is_empty());
    let adopted = backfill_candidates(&cfs, &list_all(&keys), &Vec::new());
    assert_eq!(adopted.len(), 2);
    for cf in &adopted {
        record(&mut keys, cf);
    }
    let mut listed = list(&keys, "shop");
    listed.sort();
    assert_eq!(listed, vec!["edges".to_string(), "orders".to_string()]);

    assert_eq!(backfill_candidates(&cfs, &list_all(&keys), &Vec::new()).len(), 0);
}

#[test]
fn backfill_skips_doomed_column_families() {
    let keys: Vec<String> = Vec::new();
    let cfs = vec!["shop:doomed".to_string()];
    let pending = vec!["shop:doomed".to_string()];
    assert_eq!(backfill_candidates(&cfs, &list_all(&keys), &pending).len(), 0);
    assert!(list(&keys, "shop").is_empty());
}

#[test]
fn registry_key_layout() {
    assert_eq!(entry_key("shop:orders"), "coll:shop:orders");
    assert_eq!(database_prefix("shop"), "coll:shop:");
    assert_eq!(default_type(), "document");
    assert!(available(&vec!["default".to_string(), "_meta".to_string()]));
    assert!(!available(&vec!["default".to_string()]));
    assert_eq!(
        list_all(&vec!["coll:a:b".to_string(), "other".to_string()]),
        vec!["a:b".to_string()]
    );
    let cfs = vec!["nocolon".to_string(), "a:b".to_string()];
    assert_eq!(backfill_candidates(&cfs, &vec!["a:b".to_string()], &Vec::new()).len(), 0);
    assert_eq!(backfill_candidates(&cfs, &Vec::new(), &Vec::new()), vec!["a:b".to_string()]);
}

#[test]
fn list_is_list_all_narrowed_to_the_database() {
    let keys = vec![
        "coll:app:orders".to_string(),
        "coll:app_test:orders".to_string(),
        "coll:app:users".to_string(),
        "coll:other:x".to_string(),
    ];
    let narrowed: Vec<String> = list_all(&keys)
        .into_iter()
        .filter_map(|n| n.strip_prefix("app:").map(|s| s.to_string()))
        .collect();
    assert_eq!(list(&keys, "app"), narrowed);
    assert_eq!(narrowed, vec!["orders".to_string(), "users".to_string()]);
}
