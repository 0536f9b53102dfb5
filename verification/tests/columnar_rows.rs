use solidb_storage::columnar::ColumnarIndexType;
use solidb_storage::columnar_rows::{
    bitmap_rows, bitmap_set, candidate_rows, chunk_count, filter_plan, keep_matching,
    and_rows, scan_matching, sorted_distinct, union_rows, FilterKind, FilterPlan, ScanTest,
};
use solidb_storage::json::{JsonNumber, JsonValue};
use solidb_storage::json_equality::json_equal;

#[test]
fn bitmap_set_grows_and_sets_one_bit() {
    let mut bm: Vec<u8> = Vec::new();
    bitmap_set(&mut bm, 0);
    assert_eq!(bm, vec![0b0000_0001]);
    bitmap_set(&mut bm, 10);
    assert_eq!(bm, vec![0b0000_0001, 0b0000_0100]);
    bitmap_set(&mut bm, 7);
    assert_eq!(bm, vec![0b1000_0001, 0b0000_0100]);
    bitmap_set(&mut bm, 7);
    assert_eq!(bm, vec![0b1000_0001, 0b0000_0100]);
}

#[test]
fn bitmap_rows_lists_set_bits_in_order() {
    assert_eq!(bitmap_rows(&[0b1000_0001, 0, 0b0000_0110]), vec![0, 7, 17, 18]);
    assert_eq!(bitmap_rows(&[]), Vec::<u64>::new());
    let mut bm = Vec::new();
    for p in [3u64, 64, 9, 3] {
        bitmap_set(&mut bm, p);
    }
    assert_eq!(bitmap_rows(&bm), vec![3, 9, 64]);
}

#[test]
fn chunks_cover_all_rows() {
    assert_eq!(chunk_count(0), 0);
    assert_eq!(chunk_count(1), 1);
    assert_eq!(chunk_count(1000), 1);
    assert_eq!(chunk_count(1001), 2);
}

#[test]
fn candidate_rows_follow_matching_chunks() {
    let rows = candidate_rows(2500, &vec![false, true, true]);
    assert_eq!(rows.len(), 1500);
    assert_eq!(rows[0], 1000);
    assert_eq!(*rows.last().unwrap(), 2499);
    assert!(candidate_rows(2500, &vec![false, false, false]).is_empty());
    assert_eq!(candidate_rows(3, &vec![true]), vec![0, 1, 2]);
}

#[test]
fn sorted_distinct_sorts_and_drops_repeats() {
    assert_eq!(sorted_distinct(vec![5, 1, 5, 3, 1]), vec![1, 3, 5]);
    assert_eq!(sorted_distinct(vec![]), Vec::<u64>::new());
}

#[test]
fn and_keeps_rows_in_both_in_first_order() {
    assert_eq!(keep_matching(&vec![4, 1, 9, 2], &vec![9, 4, 7]), vec![4, 9]);
    assert!(keep_matching(&vec![1, 2], &vec![]).is_empty());
}

#[test]
fn or_unions_rows() {
    assert_eq!(union_rows(&vec![vec![7, 1], vec![], vec![3, 7, 2]]), vec![1, 2, 3, 7]);
}

#[test]
fn filter_plans() {
    assert_eq!(filter_plan(FilterKind::Eq, Some(ColumnarIndexType::Bitmap), false), FilterPlan::BitmapLookup);
    assert_eq!(filter_plan(FilterKind::Eq, Some(ColumnarIndexType::Hash), false), FilterPlan::IndexLookup);
    assert_eq!(filter_plan(FilterKind::In, Some(ColumnarIndexType::Sorted), true), FilterPlan::IndexLookup);
    assert_eq!(filter_plan(FilterKind::Eq, Some(ColumnarIndexType::MinMax), false), FilterPlan::FullScan);
    assert_eq!(filter_plan(FilterKind::Ne, Some(ColumnarIndexType::Bitmap), true), FilterPlan::FullScan);
    assert_eq!(filter_plan(FilterKind::Gt, Some(ColumnarIndexType::Sorted), true), FilterPlan::RangeScan);
    assert_eq!(filter_plan(FilterKind::Lte, Some(ColumnarIndexType::MinMax), false), FilterPlan::MinMaxCandidates);
    assert_eq!(filter_plan(FilterKind::Lt, None, false), FilterPlan::FullScan);
    assert_eq!(filter_plan(FilterKind::Or, None, false), FilterPlan::Combine);
}

fn jnum(n: u64) -> JsonValue {
    JsonValue::Number(JsonNumber::PosInt(n))
}

fn jtext(s: &str) -> JsonValue {
    JsonValue::String(s.to_string())
}

#[test]
fn full_column_scans_test_each_row_in_range() {
    let values = vec![
        jnum(1),
        jtext("a"),
        JsonValue::Number(JsonNumber::Float(1.0f64.to_bits())),
        jnum(2),
        JsonValue::Null,
    ];
    assert_eq!(scan_matching(&values, 0, 7, &ScanTest::Eq(jnum(1))), vec![0]);
    assert_eq!(scan_matching(&values, 0, 7, &ScanTest::Ne(jnum(1))), vec![1, 2, 3, 4]);
    assert_eq!(scan_matching(&values, 1, 4, &ScanTest::Ne(jnum(1))), vec![1, 2, 3]);
    assert_eq!(
        scan_matching(&values, 0, 5, &ScanTest::In(vec![jnum(2), jtext("a")])),
        vec![1, 3]
    );
    assert_eq!(scan_matching(&values, 4, 2, &ScanTest::Eq(jnum(1))), Vec::<u64>::new());
}

#[test]
fn json_equality_follows_serde_json() {
    let a = JsonValue::Object(vec![("a".to_string(), jnum(1)), ("b".to_string(), jnum(2))]);
    let b = JsonValue::Object(vec![("b".to_string(), jnum(2)), ("a".to_string(), jnum(1))]);
    let c = JsonValue::Object(vec![("a".to_string(), jnum(1))]);
    assert!(json_equal(&a, &b));
    assert!(!json_equal(&a, &c));
    let zero = JsonValue::Number(JsonNumber::Float(0.0f64.to_bits()));
    let minus_zero = JsonValue::Number(JsonNumber::Float((-0.0f64).to_bits()));
    assert!(json_equal(&zero, &minus_zero));
    assert!(!json_equal(&jnum(0), &zero));
    assert!(json_equal(&JsonValue::Array(vec![jnum(1), jtext("x")]), &JsonValue::Array(vec![jnum(1), jtext("x")])));
    assert!(!json_equal(&JsonValue::Array(vec![jnum(1)]), &JsonValue::Array(vec![jnum(1), jnum(1)])));
}

#[test]
fn and_narrows_the_range_by_each_sub_filter() {
    assert_eq!(and_rows(2, 6, &vec![vec![2, 3, 5], vec![0, 3, 5, 9]]), vec![3, 5]);
    assert_eq!(and_rows(0, 3, &vec![]), vec![0, 1, 2]);
    assert_eq!(and_rows(5, 5, &vec![vec![5]]), Vec::<u64>::new());
}
