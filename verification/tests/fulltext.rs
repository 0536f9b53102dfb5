use solidb_storage::collection_types::{ChangeEvent, ChangeType};
use solidb_storage::fulltext::{
    count_candidates, difference, field_score, higher_count_first, index_terms, long_enough, max_scored,
    posting_doc_keys, rank_matches, term_entry_changes, term_keys, term_prefix, top_candidates,
    MAX_SCORED_CANDIDATES, MIN_SCORED_CANDIDATES,
};
use solidb_storage::json::JsonValue;
use std::cmp::Ordering;

fn strings(v: &[&str]) -> Vec<String> {
    v.iter().map(|s| s.to_string()).collect()
}

fn pairs(v: &[(&str, usize)]) -> Vec<(String, usize)> {
    v.iter().map(|(s, n)| (s.to_string(), *n)).collect()
}

#[test]
fn test_change_event_creation() {
    let event = ChangeEvent {
        type_: ChangeType::Insert,
        key: "doc1".to_string(),
        data: Some(JsonValue::Object(vec![(
            "name".to_string(),
            JsonValue::String("Alice".to_string()),
        )])),
        old_data: None,
    };
    assert_eq!(event.key, "doc1");
    assert!(event.data.is_some());
    assert!(event.old_data.is_none());
    assert_eq!(event.type_.as_str(), "insert");
}

#[test]
fn difference_keeps_order_and_drops_shared_terms() {
    let a = strings(&["quick", "brown", "fox", "brown"]);
    let b = strings(&["fox", "lazy"]);
    assert_eq!(difference(&a, &b), strings(&["quick", "brown", "brown"]));
    assert_eq!(difference(&b, &a), strings(&["lazy"]));
    assert!(difference(&a, &a).is_empty());
}

#[test]
fn term_keys_have_the_term_layout() {
    let keys = term_keys("ft", "users:1", &strings(&["alice", "bob"]));
    assert_eq!(keys, vec![b"ft_term:ft:alice:users:1".to_vec(), b"ft_term:ft:bob:users:1".to_vec()]);
}

#[test]
fn update_adds_new_terms_and_removes_dropped_ones() {
    let old_terms = strings(&["hello", "world"]);
    let new_terms = strings(&["hello", "there"]);
    let (added, removed) = term_entry_changes("ft", "d1", &old_terms, &new_terms);
    assert_eq!(added, vec![b"ft_term:ft:there:d1".to_vec()]);
    assert_eq!(removed, vec![b"ft_term:ft:world:d1".to_vec()]);
}

#[test]
fn short_tokens_are_not_indexed() {
    let tokens = strings(&["a", "to", "the", "quick", "éé"]);
    // "éé" is four bytes long.
    assert_eq!(long_enough(&tokens, 3), strings(&["the", "quick", "éé"]));
    assert!(long_enough(&tokens, 10).is_empty());
}

#[test]
fn postings_stop_at_the_first_key_outside_the_prefix() {
    let prefix = term_prefix("ft", "alice");
    assert_eq!(prefix, b"ft_term:ft:alice:".to_vec());
    let keys = vec![
        b"ft_term:ft:alice:doc:1".to_vec(),
        b"ft_term:ft:alice:d2".to_vec(),
        b"ft_term:ft:alicex:d3".to_vec(),
        b"ft_term:ft:alice:d4".to_vec(),
    ];
    // A document key holding ':' is read back whole.
    assert_eq!(posting_doc_keys(&keys, &prefix), strings(&["doc:1", "d2"]));
    assert!(posting_doc_keys(&Vec::new(), &prefix).is_empty());
}

#[test]
fn candidates_are_counted_in_first_appearance_order() {
    let docs = strings(&["d2", "d1", "d2", "d3", "d2", "d1"]);
    assert_eq!(count_candidates(&docs), pairs(&[("d2", 3), ("d1", 2), ("d3", 1)]));
    assert!(count_candidates(&Vec::new()).is_empty());
}

#[test]
fn scored_candidates_are_clamped() {
    assert_eq!(max_scored(0), MIN_SCORED_CANDIDATES);
    assert_eq!(max_scored(10), 100);
    assert_eq!(max_scored(30), 120);
    assert_eq!(max_scored(2_000), MAX_SCORED_CANDIDATES);
    assert_eq!(max_scored(usize::MAX), MAX_SCORED_CANDIDATES);
}

#[test]
fn top_candidates_keep_the_highest_counts() {
    let ranked = pairs(&[("a", 1), ("b", 5), ("c", 3), ("d", 4), ("e", 2)]);
    let mut top = top_candidates(ranked.clone(), 3);
    top.sort();
    assert_eq!(top, pairs(&[("b", 5), ("c", 3), ("d", 4)]));
    assert_eq!(top_candidates(ranked.clone(), 5), ranked);
    assert_eq!(top_candidates(ranked.clone(), 9), ranked);
    assert!(top_candidates(ranked, 0).is_empty());
}

#[test]
fn field_score_counts_exact_and_near_terms() {
    assert_eq!(field_score(&vec![0, 1, 2, 3, 0, 7]), 30);
    assert_eq!(field_score(&Vec::new()), 0);
}

#[test]
fn matches_are_ranked_highest_first_and_limited() {
    let matches = pairs(&[("a", 10), ("b", 30), ("c", 20), ("d", 5)]);
    assert_eq!(rank_matches(matches.clone(), 2), pairs(&[("b", 30), ("c", 20)]));
    assert_eq!(rank_matches(matches, 10), pairs(&[("b", 30), ("c", 20), ("a", 10), ("d", 5)]));
}

#[test]
fn higher_count_orders_first() {
    assert_eq!(higher_count_first(&("a".to_string(), 3), &("b".to_string(), 1)), Ordering::Less);
    assert_eq!(higher_count_first(&("a".to_string(), 1), &("b".to_string(), 1)), Ordering::Equal);
    assert_eq!(higher_count_first(&("a".to_string(), 0), &("b".to_string(), 1)), Ordering::Greater);
}

#[test]
fn index_terms_are_long_enough_and_distinct() {
    let tokens = strings(&["the", "cat", "and", "the", "hat", "a", "cat"]);
    let mut terms = index_terms(&tokens, 3);
    terms.sort();
    assert_eq!(terms, strings(&["and", "cat", "hat", "the"]));
    assert!(index_terms(&tokens, 4).is_empty());
}

#[test]
fn unchanged_terms_change_no_entries() {
    let terms = strings(&["alpha", "beta"]);
    let (added, removed) = term_entry_changes("ft", "d1", &terms, &terms);
    assert!(added.is_empty());
    assert!(removed.is_empty());
}
