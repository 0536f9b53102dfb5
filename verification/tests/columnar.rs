use solidb_storage::column_keys::{
    decode_index_value, encode_bitmap_key, encode_index_key, encode_minmax_key,
    encode_value_for_key, ColumnValue,
};
use solidb_storage::json::{JsonNumber, JsonValue};
use solidb_storage::columnar::{
    compress_data, count_column_entries, count_value, decompress_data, parse_interval, AggregateOp, ColumnType, ColumnarIndexType,
    CompressionType, GroupByColumn,
};

#[test]
fn test_column_type_inference() {
    assert_eq!(ColumnType::infer_from_value(&ColumnValue::Bool(true)), ColumnType::Bool);
    assert_eq!(ColumnType::infer_from_value(&ColumnValue::Int(42)), ColumnType::Int64);
    assert_eq!(
        ColumnType::infer_from_value(&ColumnValue::Float(3.14f64.to_bits())),
        ColumnType::Float64
    );
    assert_eq!(
        ColumnType::infer_from_value(&ColumnValue::Str("hello".to_string())),
        ColumnType::String
    );
    assert_eq!(
        ColumnType::infer_from_value(&ColumnValue::Str("2024-01-01T00:00:00Z".to_string())),
        ColumnType::Timestamp
    );
    assert_eq!(
        ColumnType::infer_from_value(&ColumnValue::Other("{\"nested\":true}".to_string())),
        ColumnType::Json
    );
}

#[test]
fn test_aggregate_op_parsing() {
    assert_eq!(AggregateOp::from_str("SUM"), Some(AggregateOp::Sum));
    assert_eq!(AggregateOp::from_str("avg"), Some(AggregateOp::Avg));
    assert_eq!(AggregateOp::from_str("COUNT"), Some(AggregateOp::Count));
    assert_eq!(AggregateOp::from_str("MIN"), Some(AggregateOp::Min));
    assert_eq!(AggregateOp::from_str("MAX"), Some(AggregateOp::Max));
    assert_eq!(AggregateOp::from_str("unknown"), None);
}

#[test]
fn test_lz4_compression_roundtrip() {
    let data = b"Hello, world! This is test data for compression. Repeated text helps compression.";
    let compressed = compress_data(data, CompressionType::Lz4);
    assert!(!compressed.is_empty());
    let decompressed = decompress_data(&compressed, CompressionType::Lz4).unwrap();
    assert_eq!(data.to_vec(), decompressed);
}

#[test]
fn test_compression_type_default() {
    assert_eq!(CompressionType::default(), CompressionType::Lz4);
}

#[test]
fn plain_compression_stores_as_is_and_bad_lz4_is_an_error() {
    assert_eq!(compress_data(b"abc", CompressionType::Plain), b"abc".to_vec());
    assert_eq!(decompress_data(b"abc", CompressionType::Plain).unwrap(), b"abc".to_vec());
    assert!(decompress_data(&[0x05, 0x00, 0x00, 0x00, 0xff], CompressionType::Lz4).is_err());
}

#[test]
fn aggregate_names_ignore_case_and_have_aliases() {
    assert_eq!(AggregateOp::from_str("Average"), Some(AggregateOp::Avg));
    assert_eq!(AggregateOp::from_str("count_distinct"), Some(AggregateOp::CountDistinct));
    assert_eq!(AggregateOp::from_upper("sum"), None);
    assert_eq!(AggregateOp::from_upper("SUM"), Some(AggregateOp::Sum));
}

#[test]
fn interval_parsing() {
    assert_eq!(parse_interval("5m"), Some((5, "m")));
    assert_eq!(parse_interval("-12h"), Some((-12, "h")));
    assert_eq!(parse_interval("+1d"), Some((1, "d")));
    assert_eq!(parse_interval("h"), None);
    assert_eq!(parse_interval("xh"), None);
    assert_eq!(parse_interval("99999999999999999999h"), None);
    assert_eq!(parse_interval("-9223372036854775808s"), Some((i64::MIN, "s")));
}

#[test]
fn group_by_names_the_column() {
    assert_eq!(GroupByColumn::Simple("a".to_string()).name(), "a");
    assert_eq!(GroupByColumn::TimeBucket("ts".to_string(), "1h".to_string()).name(), "ts");
    assert_eq!(ColumnarIndexType::default(), ColumnarIndexType::Sorted);
}

#[test]
fn value_keys_round_trip_and_sort() {
    let values = vec![
        ColumnValue::Null,
        ColumnValue::Bool(true),
        ColumnValue::Bool(false),
        ColumnValue::Int(-5),
        ColumnValue::Int(i64::MAX),
        ColumnValue::Int(i64::MIN),
        ColumnValue::Float(2.5f64.to_bits()),
        ColumnValue::Float((-2.5f64).to_bits()),
        ColumnValue::Str("héllo".to_string()),
    ];
    for v in &values {
        assert_eq!(decode_index_value(&encode_value_for_key(v)), Some(v.clone()));
    }
    assert!(encode_value_for_key(&ColumnValue::Int(-1)) < encode_value_for_key(&ColumnValue::Int(1)));
    assert!(
        encode_value_for_key(&ColumnValue::Float((-3.0f64).to_bits()))
            < encode_value_for_key(&ColumnValue::Float(0.5f64.to_bits()))
    );
    assert_eq!(encode_value_for_key(&ColumnValue::Int(0)), "2:8000000000000000");
    assert_eq!(encode_value_for_key(&ColumnValue::Str("A".to_string())), "4:41");
    assert_eq!(encode_value_for_key(&ColumnValue::Other("[1]".to_string())), "9:[1]");
    assert_eq!(decode_index_value("9:[1]"), None);
    // Negative zero's key reads back as NaN, which is no value.
    assert_eq!(decode_index_value(&encode_value_for_key(&ColumnValue::Float((-0.0f64).to_bits()))), None);
}

#[test]
fn value_key_decoding_accepts_what_std_and_hex_accept() {
    assert_eq!(decode_index_value("2:+8000000000000001"), Some(ColumnValue::Int(1)));
    assert_eq!(decode_index_value("2:7FFFFFFFFFFFFFFF"), Some(ColumnValue::Int(-1)));
    assert_eq!(decode_index_value("2:"), None);
    assert_eq!(decode_index_value("2:10000000000000000"), None);
    assert_eq!(decode_index_value("4:4"), None);
    assert_eq!(decode_index_value("4:ff"), None);
    assert_eq!(decode_index_value("1:yes"), Some(ColumnValue::Bool(false)));
    assert_eq!(decode_index_value("0"), None);
    assert_eq!(decode_index_value("12:1"), None);
}

#[test]
fn columnar_index_key_layouts() {
    assert_eq!(encode_index_key("c", &ColumnValue::Null), b"col_idx:c:0:".to_vec());
    assert_eq!(encode_bitmap_key("c", &ColumnValue::Bool(true)), b"col_idx_bmp:c:1:1".to_vec());
    assert_eq!(encode_minmax_key("c", 17), b"col_idx_mm:c:17".to_vec());
}

#[test]
fn count_stops_at_the_first_key_outside_the_column() {
    let keys: Vec<Vec<u8>> = vec![
        b"col:price:1".to_vec(),
        b"col:price:2".to_vec(),
        b"col:qty:1".to_vec(),
        b"col:price:3".to_vec(),
    ];
    assert_eq!(count_column_entries(&keys, b"col:price:"), 2);
    assert_eq!(count_column_entries(&keys, b"col:"), 4);
    assert_eq!(count_column_entries(&keys, b"col:x:"), 0);
    assert_eq!(count_column_entries(&Vec::new(), b"col:"), 0);
    assert_eq!(count_value(3), JsonValue::Number(JsonNumber::PosInt(3)));
}
