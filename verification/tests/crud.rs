use solidb_storage::crud::{
    duplicate_key_error, first_repeated, readahead_size, scan_window, repeated_unique_value_error,
    revision_conflict, update_allowed, DocumentError,
};

fn strings(v: &[&str]) -> Vec<String> {
    v.iter().map(|s| s.to_string()).collect()
}

#[test]
fn batch_checks_find_the_first_repeat() {
    assert_eq!(first_repeated(&strings(&["a", "b", "c"])), None);
    assert_eq!(first_repeated(&strings(&["a", "b", "a", "b"])), Some(2));
    assert_eq!(first_repeated(&strings(&["x", "y", "y"])), Some(2));
    assert_eq!(first_repeated(&Vec::new()), None);
    assert_eq!(
        duplicate_key_error("k1"),
        DocumentError::InvalidDocument("Duplicate _key 'k1' within batch".to_string())
    );
    assert_eq!(
        repeated_unique_value_error("k2"),
        DocumentError::InvalidDocument(
            "Unique constraint violated: document 'k2' repeats a unique value used earlier in the same batch"
                .to_string()
        )
    );
}

#[test]
fn updates_check_revision_and_collection_type() {
    assert_eq!(revision_conflict("k", "r1", "r1"), None);
    assert_eq!(
        revision_conflict("k", "r1", "r2"),
        Some(DocumentError::Conflict(
            "Document 'k' has been modified. Expected revision 'r1', but current is 'r2'".to_string()
        ))
    );
    assert_eq!(update_allowed("document"), Ok(()));
    assert_eq!(
        update_allowed("timeseries"),
        Err(DocumentError::NotSupported(
            "Update operations are not allowed on timeseries collections".to_string()
        ))
    );
}

#[test]
fn scans_read_ahead_by_size() {
    assert_eq!(readahead_size(0, Some(10)), 0);
    assert_eq!(readahead_size(5, Some(6)), 16 * 1024);
    assert_eq!(readahead_size(0, Some(100)), 16 * 1024);
    assert_eq!(readahead_size(1, Some(100)), 256 * 1024);
    assert_eq!(readahead_size(0, None), 256 * 1024);
    assert_eq!(readahead_size(usize::MAX, Some(1)), 256 * 1024);
}

#[test]
fn a_scan_window_skips_unreadable_values_and_stops_outside_the_prefix() {
    let e = vec![(true, true), (true, false), (true, true), (true, true), (false, true), (true, true)];
    assert_eq!(scan_window(&e, 0, None), vec![0, 2, 3]);
    assert_eq!(scan_window(&e, 1, None), vec![2, 3]);
    assert_eq!(scan_window(&e, 1, Some(1)), vec![2]);
    assert_eq!(scan_window(&e, 0, Some(0)), Vec::<usize>::new());
    assert_eq!(scan_window(&e, 5, Some(2)), Vec::<usize>::new());
    assert_eq!(scan_window(&Vec::new(), 0, None), Vec::<usize>::new());
}
