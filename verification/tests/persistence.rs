use solidb_storage::persistence::{
    due_for_persist, flush_dirty_vector_indexes, stats_flush_due, vector_persist_due,
    PersistOutcome, VEC_PERSIST_THROTTLE_SECS,
};

#[test]
fn throttles_wait_for_their_window() {
    assert!(stats_flush_due(true, 11, 10));
    assert!(!stats_flush_due(true, 10, 10));
    assert!(!stats_flush_due(false, 100, 10));
    assert_eq!(VEC_PERSIST_THROTTLE_SECS, 5);
    assert!(vector_persist_due(true, 15, 10));
    assert!(!vector_persist_due(true, 14, 10));
    assert!(!vector_persist_due(true, 3, 10));
    assert!(!vector_persist_due(false, 100, 10));
}

#[test]
fn a_drain_persists_due_collections_and_keeps_failures() {
    assert_eq!(due_for_persist(&vec![0, 98, 95, 100, 200], 100), vec![0, 2]);
    assert!(due_for_persist(&Vec::new(), 100).is_empty());
    let outcomes = vec![
        PersistOutcome::Persisted,
        PersistOutcome::Failed,
        PersistOutcome::Gone,
        PersistOutcome::Persisted,
        PersistOutcome::Failed,
    ];
    assert_eq!(flush_dirty_vector_indexes(&outcomes), (2, vec![1, 4]));
    assert_eq!(flush_dirty_vector_indexes(&Vec::new()), (0, Vec::new()));
}
