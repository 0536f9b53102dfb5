use solidb_storage::column_groups::{
    bucket_part, bucket_part_defined, bucket_size, group_key, group_rows, time_bucket,
};
use solidb_storage::timestamps::parse_rfc3339_seconds;

fn strings(v: &[&str]) -> Vec<String> {
    v.iter().map(|s| s.to_string()).collect()
}

#[test]
fn bucket_sizes_follow_the_unit() {
    assert_eq!(bucket_size(5, "m"), 300);
    assert_eq!(bucket_size(1, "h"), 3600);
    assert_eq!(bucket_size(2, "d"), 172_800);
    assert_eq!(bucket_size(30, "s"), 30);
    assert_eq!(bucket_size(7, "w"), 7);
}

#[test]
fn timestamps_fall_in_their_bucket() {
    // 2024-01-01T01:30:00Z in hourly buckets starts at 01:00.
    assert_eq!(time_bucket(1_704_072_600, 3600), 1_704_070_800);
    assert_eq!(time_bucket(3599, 3600), 0);
    assert_eq!(time_bucket(3600, 3600), 3600);
    // Division rounds toward zero, so a time before the epoch rounds up.
    assert_eq!(time_bucket(-1, 3600), 0);
    assert_eq!(time_bucket(-3601, 3600), -3600);
    assert_eq!(time_bucket(7, -2), 6);
    assert_eq!(time_bucket(i64::MIN, 1), i64::MIN);
}

#[test]
fn group_keys_join_parts_with_a_bar() {
    assert_eq!(group_key(&strings(&["\"eu\"", "true"])), "\"eu\"|true");
    assert_eq!(group_key(&strings(&["1"])), "1");
    assert_eq!(group_key(&Vec::new()), "");
}

#[test]
fn rows_are_grouped_by_key_in_first_appearance_order() {
    let keys = strings(&["b", "a", "b", "c", "a", "b"]);
    let groups = group_rows(&keys);
    assert_eq!(
        groups,
        vec![
            ("b".to_string(), vec![0, 2, 5]),
            ("a".to_string(), vec![1, 4]),
            ("c".to_string(), vec![3]),
        ]
    );
    assert!(group_rows(&Vec::new()).is_empty());
}

#[test]
fn time_bucket_parts_label_the_bucket_start() {
    let instant = parse_rfc3339_seconds("2024-01-01T01:30:00Z");
    assert_eq!(instant, Some(1_704_072_600));
    let text = "\"2024-01-01T01:30:00Z\"";
    assert!(bucket_part_defined(instant, "1h"));
    assert_eq!(bucket_part(instant, text, "1h"), "2024-01-01T01:00:00+00:00");
    assert_eq!(bucket_part(instant, text, "5m"), "2024-01-01T01:30:00+00:00");
    assert_eq!(bucket_part(instant, text, "1d"), "2024-01-01T00:00:00+00:00");
    // An interval that does not read counts one hour.
    assert_eq!(bucket_part(instant, text, "soon"), "2024-01-01T01:00:00+00:00");
    // A value that is no instant keeps its JSON text.
    assert_eq!(bucket_part(None, "42", "1h"), "42");
    assert!(bucket_part_defined(None, "0h"));
}

#[test]
fn undefined_buckets_are_reported() {
    let instant = Some(1_704_072_600);
    assert!(!bucket_part_defined(instant, "0h"));
    assert!(!bucket_part_defined(instant, "9223372036854775807d"));
    assert!(!bucket_part_defined(instant, "1é"));
    assert!(!bucket_part_defined(Some(i64::MIN), "-1s"));
    assert!(bucket_part_defined(Some(i64::MIN), "-2s"));
}
