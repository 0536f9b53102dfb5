//! Binary-comparable encoding of index key values.
//!
//! A key starts with a type tag, so values of different kinds sort
//! `Null < Bool < Number < String < Complex`; within a kind the bytes after
//! the tag sort as the values do.
use vstd::prelude::*;
use vstd::utf8::*;
use crate::bytes::{push_all, utf8_text};

verus! {

broadcast use vstd::seq_lib::group_seq_properties;

/// Type tags, in sort order.
pub const TAG_NULL: u8 = 0x01;
pub const TAG_BOOL: u8 = 0x02;
pub const TAG_NUMBER: u8 = 0x03;
pub const TAG_STRING: u8 = 0x04;
pub const TAG_COMPLEX: u8 = 0x05;

/// A value as the key codec sees it.
///
/// `Number` holds the IEEE-754 bits of the `f64` the number converts to;
/// `Complex` (an array or an object) holds its compact JSON text.
#[derive(Debug, Clone, PartialEq)]
pub enum KeyValue {
    Null,
    Bool(bool),
    Number(u64),
    Str(String),
    Complex(String),
}

/// The mathematical content of a `KeyValue`.
pub enum KeyValueView {
    Null,
    Bool(bool),
    Number(u64),
    Str(Seq<char>),
    Complex(Seq<char>),
}

impl View for KeyValue {
    type V = KeyValueView;

    open spec fn view(&self) -> KeyValueView {
        match self {
            KeyValue::Null => KeyValueView::Null,
            KeyValue::Bool(b) => KeyValueView::Bool(*b),
            KeyValue::Number(n) => KeyValueView::Number(*n),
            KeyValue::Str(s) => KeyValueView::Str(s@),
            KeyValue::Complex(s) => KeyValueView::Complex(s@),
        }
    }
}

/// Whether `serde_json` accepts `bytes` as one JSON document.
pub uninterp spec fn json_parses(bytes: Seq<u8>) -> bool;

/// Whether the IEEE-754 bits stand for a finite number (neither infinite nor NaN).
pub open spec fn f64_bits_finite(bits: u64) -> bool {
    (bits >> 52u64) & 0x7ffu64 != 0x7ffu64
}

/// Whether the IEEE-754 bits stand for NaN.
pub open spec fn f64_bits_nan(bits: u64) -> bool {
    &&& (bits >> 52u64) & 0x7ffu64 == 0x7ffu64
    &&& bits & 0xf_ffff_ffff_ffffu64 != 0
}

/// IEEE-754 `<` on two non-NaN values, read off their bits: sign first, then
/// magnitude (reversed for negatives); `-0` and `+0` are equal.
pub open spec fn f64_bits_lt(a: u64, b: u64) -> bool {
    let sa = a >> 63u64;
    let sb = b >> 63u64;
    let ma = a & 0x7fff_ffff_ffff_ffffu64;
    let mb = b & 0x7fff_ffff_ffff_ffffu64;
    if sa == 0 && sb == 0 {
        ma < mb
    } else if sa == 1 && sb == 0 {
        !(ma == 0 && mb == 0)
    } else if sa == 0 && sb == 1 {
        false
    } else {
        mb < ma
    }
}

/// The order-preserving transform of the bits: negatives are inverted, the
/// sign bit of non-negatives is set.
pub open spec fn order_bits(bits: u64) -> u64 {
    if bits & 0x8000_0000_0000_0000u64 != 0 {
        !bits
    } else {
        bits ^ 0x8000_0000_0000_0000u64
    }
}

/// The inverse of `order_bits`.
pub open spec fn unorder_bits(bits: u64) -> u64 {
    if bits & 0x8000_0000_0000_0000u64 != 0 {
        bits ^ 0x8000_0000_0000_0000u64
    } else {
        !bits
    }
}

/// Big-endian bytes of a `u64`.
pub open spec fn be_bytes(x: u64) -> Seq<u8> {
    seq![
        (x >> 56u64) as u8,
        (x >> 48u64) as u8,
        (x >> 40u64) as u8,
        (x >> 32u64) as u8,
        (x >> 24u64) as u8,
        (x >> 16u64) as u8,
        (x >> 8u64) as u8,
        x as u8,
    ]
}

/// The `u64` whose big-endian bytes are the first eight of `s`.
pub open spec fn be_value(s: Seq<u8>) -> u64 {
    be_u64(s[0], s[1], s[2], s[3], s[4], s[5], s[6], s[7])
}

pub open spec fn be_u64(b0: u8, b1: u8, b2: u8, b3: u8, b4: u8, b5: u8, b6: u8, b7: u8) -> u64 {
    ((b0 as u64) << 56u64) | ((b1 as u64) << 48u64) | ((b2 as u64) << 40u64) | ((b3 as u64)
        << 32u64) | ((b4 as u64) << 24u64) | ((b5 as u64) << 16u64) | ((b6 as u64) << 8u64) | (
    b7 as u64)
}

/// The eight key bytes of a number.
pub open spec fn spec_encode_f64(bits: u64) -> Seq<u8> {
    be_bytes(order_bits(bits))
}

/// The encoded key of a value.
pub open spec fn spec_encode_key(v: KeyValueView) -> Seq<u8> {
    match v {
        KeyValueView::Null => seq![TAG_NULL],
        KeyValueView::Bool(b) => seq![TAG_BOOL, if b { 1u8 } else { 0u8 }],
        KeyValueView::Number(bits) => seq![TAG_NUMBER] + spec_encode_f64(bits),
        KeyValueView::Str(s) => seq![TAG_STRING] + encode_utf8(s) + seq![0u8],
        KeyValueView::Complex(s) => seq![TAG_COMPLEX] + encode_utf8(s) + seq![0u8],
    }
}

/// The payload of a string or complex key: everything after the tag, minus a
/// final zero terminator when there is one after the tag.
pub open spec fn key_payload(b: Seq<u8>) -> Seq<u8> {
    if b.len() > 1 && b.last() == 0 {
        b.subrange(1, b.len() - 1)
    } else {
        b.subrange(1, b.len() as int)
    }
}

/// What decoding a key gives back, `None` for bytes that are no key.
pub open spec fn spec_decode_key(b: Seq<u8>) -> Option<KeyValueView> {
    if b.len() == 0 {
        None
    } else if b[0] == TAG_NULL {
        Some(KeyValueView::Null)
    } else if b[0] == TAG_BOOL {
        if b.len() < 2 {
            None
        } else {
            Some(KeyValueView::Bool(b[1] == 1))
        }
    } else if b[0] == TAG_NUMBER {
        if b.len() < 9 {
            None
        } else {
            let bits = unorder_bits(be_value(b.subrange(1, 9)));
            if f64_bits_finite(bits) {
                Some(KeyValueView::Number(bits))
            } else {
                Some(KeyValueView::Null)
            }
        }
    } else if b[0] == TAG_STRING {
        if valid_utf8(key_payload(b)) {
            Some(KeyValueView::Str(decode_utf8(key_payload(b))))
        } else {
            None
        }
    } else if b[0] == TAG_COMPLEX {
        if valid_utf8(key_payload(b)) && json_parses(key_payload(b)) {
            Some(KeyValueView::Complex(decode_utf8(key_payload(b))))
        } else {
            None
        }
    } else {
        None
    }
}

/// Calls `serde_json::from_slice` into a `serde_json::Value` and reports
/// whether it succeeded. Nothing is claimed of which texts are accepted: that
/// is named `json_parses`.
#[verifier::external_body]
fn json_text_parses(bytes: &[u8]) -> (r: bool)
    ensures
        r == json_parses(bytes@),
{
    serde_json::from_slice::<serde_json::Value>(bytes).is_ok()
}

/// Encode a number's bits into eight binary-comparable bytes.
pub fn encode_f64(bits: u64) -> (r: [u8; 8])
    ensures
        r@ == spec_encode_f64(bits),
{
    let x: u64 = if bits & 0x8000_0000_0000_0000u64 != 0 {
        !bits
    } else {
        bits ^ 0x8000_0000_0000_0000u64
    };
    let r: [u8; 8] = [
        (x >> 56u64) as u8,
        (x >> 48u64) as u8,
        (x >> 40u64) as u8,
        (x >> 32u64) as u8,
        (x >> 24u64) as u8,
        (x >> 16u64) as u8,
        (x >> 8u64) as u8,
        x as u8,
    ];
    assert(r@ =~= spec_encode_f64(bits));
    r
}

/// Decode eight binary-comparable bytes back into a number's bits.
pub fn decode_f64(arr: [u8; 8]) -> (bits: u64)
    ensures
        bits == unorder_bits(be_value(arr@)),
{
    let x: u64 = ((arr[0] as u64) << 56u64) | ((arr[1] as u64) << 48u64) | ((arr[2] as u64)
        << 40u64) | ((arr[3] as u64) << 32u64) | ((arr[4] as u64) << 24u64) | ((arr[5] as u64)
        << 16u64) | ((arr[6] as u64) << 8u64) | (arr[7] as u64);
    if x & 0x8000_0000_0000_0000u64 != 0 {
        x ^ 0x8000_0000_0000_0000u64
    } else {
        !x
    }
}

/// Encode a value into a binary-comparable key.
pub fn encode_key(value: &KeyValue) -> (key: Vec<u8>)
    ensures
        key@ == spec_encode_key(value@),
{
    let mut key: Vec<u8> = Vec::with_capacity(9);
    match value {
        KeyValue::Null => {
            key.push(TAG_NULL);
        },
        KeyValue::Bool(b) => {
            key.push(TAG_BOOL);
            key.push(if *b { 1u8 } else { 0u8 });
        },
        KeyValue::Number(bits) => {
            key.push(TAG_NUMBER);
            let enc = encode_f64(*bits);
            push_all(&mut key, &enc);
        },
        KeyValue::Str(s) => {
            key.push(TAG_STRING);
            push_all(&mut key, s.as_str().as_bytes());
            key.push(0u8);
        },
        KeyValue::Complex(s) => {
            key.push(TAG_COMPLEX);
            push_all(&mut key, s.as_str().as_bytes());
            key.push(0u8);
        },
    }
    assert(key@ =~= spec_encode_key(value@));
    key
}

/// The payload of a string or complex key, as `key_payload` describes it.
fn payload(bytes: &[u8]) -> (r: Vec<u8>)
    requires
        bytes@.len() >= 1,
    ensures
        r@ == key_payload(bytes@),
{
    let n = bytes.len();
    let end: usize = if n > 1 && bytes[n - 1] == 0u8 { n - 1 } else { n };
    let mut r: Vec<u8> = Vec::new();
    let mut i: usize = 1;
    while i < end
        invariant
            1 <= i <= end <= n,
            n == bytes@.len(),
            r@ == bytes@.subrange(1, i as int),
        decreases end - i,
    {
        r.push(bytes[i]);
        i = i + 1;
        assert(bytes@.subrange(1, i as int) == bytes@.subrange(1, i - 1 as int).push(bytes@[i - 1]));
    }
    r
}

/// Decode a key back into a value; `None` for bytes that are no key.
///
/// A number whose bits are not finite decodes to `Null`, as JSON has no such
/// number.
pub fn decode_key(bytes: &[u8]) -> (r: Option<KeyValue>)
    ensures
        match r {
            Some(v) => spec_decode_key(bytes@) == Some(v@),
            None => spec_decode_key(bytes@) is None,
        },
{
    if bytes.len() == 0 {
        return None;
    }
    let tag = bytes[0];
    if tag == TAG_NULL {
        Some(KeyValue::Null)
    } else if tag == TAG_BOOL {
        if bytes.len() < 2 {
            return None;
        }
        Some(KeyValue::Bool(bytes[1] == 1u8))
    } else if tag == TAG_NUMBER {
        if bytes.len() < 9 {
            return None;
        }
        let arr: [u8; 8] = [
            bytes[1],
            bytes[2],
            bytes[3],
            bytes[4],
            bytes[5],
            bytes[6],
            bytes[7],
            bytes[8],
        ];
        assert(arr@ =~= bytes@.subrange(1, 9));
        let bits = decode_f64(arr);
        if (bits >> 52u64) & 0x7ffu64 != 0x7ffu64 {
            Some(KeyValue::Number(bits))
        } else {
            Some(KeyValue::Null)
        }
    } else if tag == TAG_STRING {
        let content = payload(bytes);
        match utf8_text(content.as_slice()) {
            Some(s) => Some(KeyValue::Str(s.to_owned())),
            None => None,
        }
    } else if tag == TAG_COMPLEX {
        let content = payload(bytes);
        match utf8_text(content.as_slice()) {
            Some(s) => {
                if json_text_parses(content.as_slice()) {
                    Some(KeyValue::Complex(s.to_owned()))
                } else {
                    None
                }
            },
            None => None,
        }
    } else {
        None
    }
}

} // verus!
