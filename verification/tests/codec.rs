use solidb_storage::codec::{decode_f64, decode_key, encode_f64, encode_key, KeyValue};

fn num(f: f64) -> KeyValue {
    KeyValue::Number(f.to_bits())
}

fn as_f64(v: &KeyValue) -> Option<f64> {
    match v {
        KeyValue::Number(bits) => Some(f64::from_bits(*bits)),
        _ => None,
    }
}

fn string(s: &str) -> KeyValue {
    KeyValue::Str(s.to_string())
}

#[test]
fn test_encode_decode_null() {
    let value = KeyValue::Null;
    let encoded = encode_key(&value);
    let decoded = decode_key(&encoded);
    assert_eq!(decoded, Some(KeyValue::Null));
}

#[test]
fn test_encode_decode_bool() {
    let true_val = KeyValue::Bool(true);
    let false_val = KeyValue::Bool(false);

    let encoded_true = encode_key(&true_val);
    let encoded_false = encode_key(&false_val);

    assert_eq!(decode_key(&encoded_true), Some(KeyValue::Bool(true)));
    assert_eq!(decode_key(&encoded_false), Some(KeyValue::Bool(false)));

    assert!(encoded_false < encoded_true);
}

#[test]
fn test_encode_decode_numbers() {
    let values = vec![num(-100.5), num(-1.0), num(0.0), num(1.0), num(42.0), num(100.5), num(1000000.0)];

    for v in &values {
        let encoded = encode_key(v);
        let decoded = decode_key(&encoded);
        assert!(decoded.is_some());
        if let (Some(orig), Some(dec)) = (as_f64(v), decoded.as_ref().and_then(as_f64)) {
            assert!((orig - dec).abs() < 1e-10);
        }
    }
}

#[test]
fn test_encode_decode_strings() {
    let values = vec!["", "hello", "world", "abc123", "🦀 Rust"];

    for s in values {
        let value = string(s);
        let encoded = encode_key(&value);
        let decoded = decode_key(&encoded);
        assert_eq!(decoded, Some(string(s)));
    }
}

#[test]
fn test_encode_decode_array() {
    let value = KeyValue::Complex("[1,2,3]".to_string());
    let encoded = encode_key(&value);
    let decoded = decode_key(&encoded);
    assert!(decoded.is_some());
}

#[test]
fn test_encode_decode_object() {
    let value = KeyValue::Complex("{\"key\":\"value\"}".to_string());
    let encoded = encode_key(&value);
    let decoded = decode_key(&encoded);
    assert!(decoded.is_some());
}

#[test]
fn test_sort_order_types() {
    let null = encode_key(&KeyValue::Null);
    let bool_val = encode_key(&KeyValue::Bool(false));
    let number = encode_key(&num(0.0));
    let string_val = encode_key(&string("a"));
    let array = encode_key(&KeyValue::Complex("[]".to_string()));

    assert!(null < bool_val);
    assert!(bool_val < number);
    assert!(number < string_val);
    assert!(string_val < array);
}

#[test]
fn test_sort_order_numbers() {
    let neg_big = encode_key(&num(-1000.0));
    let neg_small = encode_key(&num(-1.0));
    let zero = encode_key(&num(0.0));
    let pos_small = encode_key(&num(1.0));
    let pos_big = encode_key(&num(1000.0));

    assert!(neg_big < neg_small);
    assert!(neg_small < zero);
    assert!(zero < pos_small);
    assert!(pos_small < pos_big);
}

#[test]
fn test_sort_order_strings() {
    let a = encode_key(&string("a"));
    let b = encode_key(&string("b"));
    let aa = encode_key(&string("aa"));
    let ab = encode_key(&string("ab"));

    assert!(a < aa);
    assert!(a < b);
    assert!(aa < ab);
    assert!(ab < b);
}

#[test]
fn test_decode_empty() {
    assert_eq!(decode_key(&[]), None);
}

#[test]
fn test_decode_invalid_type() {
    assert_eq!(decode_key(&[0xFF]), None);
}

#[test]
fn test_decode_truncated_bool() {
    assert_eq!(decode_key(&[0x02]), None);
}

#[test]
fn test_decode_truncated_number() {
    assert_eq!(decode_key(&[0x03, 0x00, 0x00]), None);
}

#[test]
fn test_f64_roundtrip() {
    let values = vec![-1.0, 0.0, 1.0, std::f64::consts::PI, -std::f64::consts::E];
    for v in values {
        let encoded = encode_f64(f64::to_bits(v));
        let decoded = f64::from_bits(decode_f64(encoded));
        assert!((v - decoded).abs() < 1e-15);
    }
}

#[test]
fn number_key_layout_is_tag_then_big_endian_sortable_bits() {
    // 1.0 = 0x3FF0_0000_0000_0000; its sign bit is flipped on.
    let key = encode_key(&num(1.0));
    assert_eq!(key, vec![0x03, 0xBF, 0xF0, 0, 0, 0, 0, 0, 0]);
    // -1.0 = 0xBFF0_0000_0000_0000; all bits are inverted.
    let key = encode_key(&num(-1.0));
    assert_eq!(key, vec![0x03, 0x40, 0x0F, 0xFF, 0xFF, 0xFF, 0xFF, 0xFF, 0xFF]);
}

#[test]
fn non_finite_number_decodes_to_null() {
    let key = encode_key(&num(f64::INFINITY));
    assert_eq!(decode_key(&key), Some(KeyValue::Null));
    let key = encode_key(&num(f64::NAN));
    assert_eq!(decode_key(&key), Some(KeyValue::Null));
}

#[test]
fn invalid_text_and_invalid_json_do_not_decode() {
    assert_eq!(decode_key(&[0x04, 0xFF, 0xFE, 0x00]), None);
    assert_eq!(decode_key(&[0x05, b'{', b'x', 0x00]), None);
    assert_eq!(
        decode_key(&[0x05, b'[', b'1', b']', 0x00]),
        Some(KeyValue::Complex("[1]".to_string()))
    );
}

#[test]
fn string_without_terminator_decodes_whole_payload() {
    assert_eq!(decode_key(&[0x04, b'h', b'i']), Some(string("hi")));
    assert_eq!(decode_key(&[0x04]), Some(string("")));
    assert_eq!(decode_key(&[0x01, 0x99]), Some(KeyValue::Null));
    assert_eq!(decode_key(&[0x02, 0x07]), Some(KeyValue::Bool(false)));
}
