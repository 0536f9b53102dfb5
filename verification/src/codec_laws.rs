//! What the key codec promises: decoding gives back what was encoded, and
//! the byte order of keys is the order of the values.
use vstd::prelude::*;
use vstd::utf8::*;
use crate::bytes::{bytes_lt, lemma_bytes_lt_first_difference};
use crate::codec::{
    be_bytes, be_u64, be_value, f64_bits_finite, f64_bits_lt, f64_bits_nan, json_parses, key_payload,
    order_bits, spec_decode_key, spec_encode_f64, spec_encode_key, unorder_bits, KeyValueView,
    TAG_NUMBER, TAG_STRING,
};

verus! {

broadcast use vstd::seq_lib::group_seq_properties;

/// Sort rank of a value's kind: `Null < Bool < Number < String < Complex`.
pub open spec fn kind_rank(v: KeyValueView) -> int {
    match v {
        KeyValueView::Null => 1,
        KeyValueView::Bool(_) => 2,
        KeyValueView::Number(_) => 3,
        KeyValueView::Str(_) => 4,
        KeyValueView::Complex(_) => 5,
    }
}

proof fn lemma_unorder_order(bits: u64)
    ensures
        unorder_bits(order_bits(bits)) == bits,
{
    assert((bits & 0x8000_0000_0000_0000u64 != 0 ==> (!bits) & 0x8000_0000_0000_0000u64 == 0
        && !(!bits) == bits) && (bits & 0x8000_0000_0000_0000u64 == 0 ==> (bits
        ^ 0x8000_0000_0000_0000u64) & 0x8000_0000_0000_0000u64 != 0 && ((bits
        ^ 0x8000_0000_0000_0000u64) ^ 0x8000_0000_0000_0000u64) == bits)) by (bit_vector);
}

proof fn lemma_be_value_be_bytes(x: u64)
    ensures
        be_value(be_bytes(x)) == x,
{
    assert(be_u64(
        (x >> 56u64) as u8,
        (x >> 48u64) as u8,
        (x >> 40u64) as u8,
        (x >> 32u64) as u8,
        (x >> 24u64) as u8,
        (x >> 16u64) as u8,
        (x >> 8u64) as u8,
        x as u8,
    ) == x) by (bit_vector);
}

proof fn lemma_bytes_lt_common_head(c: u8, a: Seq<u8>, b: Seq<u8>)
    ensures
        bytes_lt(seq![c] + a, seq![c] + b) == bytes_lt(a, b),
{
    assert((seq![c] + a).drop_first() =~= a);
    assert((seq![c] + b).drop_first() =~= b);
}

proof fn lemma_bytes_lt_heads(a: Seq<u8>, b: Seq<u8>)
    requires
        a.len() > 0,
        b.len() > 0,
        a[0] < b[0],
    ensures
        bytes_lt(a, b),
{
}

/// Big-endian bytes order as the numbers do.
proof fn lemma_be_bytes_order(x: u64, y: u64)
    requires
        x < y,
    ensures
        bytes_lt(be_bytes(x), be_bytes(y)),
{
    let bx = be_bytes(x);
    let by = be_bytes(y);
    let (x0, x1, x2, x3, x4, x5, x6, x7) = (bx[0], bx[1], bx[2], bx[3], bx[4], bx[5], bx[6], bx[7]);
    let (y0, y1, y2, y3, y4, y5, y6, y7) = (by[0], by[1], by[2], by[3], by[4], by[5], by[6], by[7]);
    assert(x == be_u64(x0, x1, x2, x3, x4, x5, x6, x7)) by {
        lemma_be_value_be_bytes(x);
    }
    assert(y == be_u64(y0, y1, y2, y3, y4, y5, y6, y7)) by {
        lemma_be_value_be_bytes(y);
    }
    assert({
        ||| x0 < y0
        ||| x0 == y0 && x1 < y1
        ||| x0 == y0 && x1 == y1 && x2 < y2
        ||| x0 == y0 && x1 == y1 && x2 == y2 && x3 < y3
        ||| x0 == y0 && x1 == y1 && x2 == y2 && x3 == y3 && x4 < y4
        ||| x0 == y0 && x1 == y1 && x2 == y2 && x3 == y3 && x4 == y4 && x5 < y5
        ||| x0 == y0 && x1 == y1 && x2 == y2 && x3 == y3 && x4 == y4 && x5 == y5 && x6 < y6
        ||| x0 == y0 && x1 == y1 && x2 == y2 && x3 == y3 && x4 == y4 && x5 == y5 && x6 == y6 && x7 < y7
    }) by (bit_vector)
        requires
            be_u64(x0, x1, x2, x3, x4, x5, x6, x7) < be_u64(y0, y1, y2, y3, y4, y5, y6, y7),
    ;
    if x0 < y0 {
        lemma_bytes_lt_first_difference(bx, by, 0);
    } else if x1 < y1 && x0 == y0 {
        lemma_bytes_lt_first_difference(bx, by, 1);
    } else if x2 < y2 && x0 == y0 && x1 == y1 {
        lemma_bytes_lt_first_difference(bx, by, 2);
    } else if x3 < y3 && x0 == y0 && x1 == y1 && x2 == y2 {
        lemma_bytes_lt_first_difference(bx, by, 3);
    } else if x4 < y4 && x0 == y0 && x1 == y1 && x2 == y2 && x3 == y3 {
        lemma_bytes_lt_first_difference(bx, by, 4);
    } else if x5 < y5 && x0 == y0 && x1 == y1 && x2 == y2 && x3 == y3 && x4 == y4 {
        lemma_bytes_lt_first_difference(bx, by, 5);
    } else if x6 < y6 && x0 == y0 && x1 == y1 && x2 == y2 && x3 == y3 && x4 == y4 && x5 == y5 {
        lemma_bytes_lt_first_difference(bx, by, 6);
    } else {
        lemma_bytes_lt_first_difference(bx, by, 7);
    }
}

/// Decoding an encoded key gives the value back, for every value that has a
/// key: a finite number, and complex text that `serde_json` accepts.
pub proof fn decode_encode_roundtrip(v: KeyValueView)
    requires
        v matches KeyValueView::Number(bits) ==> f64_bits_finite(bits),
        v matches KeyValueView::Complex(t) ==> json_parses(encode_utf8(t)),
    ensures
        spec_decode_key(spec_encode_key(v)) == Some(v),
{
    broadcast use encode_utf8_valid_utf8, encode_utf8_decode_utf8;

    let e = spec_encode_key(v);
    match v {
        KeyValueView::Null => {},
        KeyValueView::Bool(b) => {},
        KeyValueView::Number(bits) => {
            assert(e.subrange(1, 9) =~= be_bytes(order_bits(bits)));
            lemma_be_value_be_bytes(order_bits(bits));
            lemma_unorder_order(bits);
        },
        KeyValueView::Str(s) => {
            assert(key_payload(e) =~= encode_utf8(s));
        },
        KeyValueView::Complex(s) => {
            assert(key_payload(e) =~= encode_utf8(s));
        },
    }
}

/// Keys of different kinds sort by kind: `Null < Bool < Number < String < Complex`.
pub proof fn keys_sort_by_kind(a: KeyValueView, b: KeyValueView)
    requires
        kind_rank(a) < kind_rank(b),
    ensures
        bytes_lt(spec_encode_key(a), spec_encode_key(b)),
{
    lemma_bytes_lt_heads(spec_encode_key(a), spec_encode_key(b));
}

/// `false` sorts before `true`.
pub proof fn false_key_sorts_before_true()
    ensures
        bytes_lt(
            spec_encode_key(KeyValueView::Bool(false)),
            spec_encode_key(KeyValueView::Bool(true)),
        ),
{
    let a = spec_encode_key(KeyValueView::Bool(false));
    let b = spec_encode_key(KeyValueView::Bool(true));
    lemma_bytes_lt_heads(a.drop_first(), b.drop_first());
}

/// The order transform of the bits is monotone in the numbers.
pub proof fn lemma_order_bits_monotone(a: u64, b: u64)
    requires
        f64_bits_lt(a, b),
    ensures
        order_bits(a) < order_bits(b),
{
    assert(order_bits(a) < order_bits(b)) by (bit_vector)
        requires
            f64_bits_lt(a, b),
    ;
}

/// Smaller numbers have smaller keys (for numbers that are not NaN).
pub proof fn number_keys_sort_numerically(a: u64, b: u64)
    requires
        !f64_bits_nan(a),
        !f64_bits_nan(b),
        f64_bits_lt(a, b),
    ensures
        bytes_lt(
            spec_encode_key(KeyValueView::Number(a)),
            spec_encode_key(KeyValueView::Number(b)),
        ),
{
    lemma_order_bits_monotone(a, b);
    lemma_be_bytes_order(order_bits(a), order_bits(b));
    lemma_bytes_lt_common_head(TAG_NUMBER, spec_encode_f64(a), spec_encode_f64(b));
}

proof fn lemma_terminated_order(a: Seq<u8>, b: Seq<u8>)
    requires
        bytes_lt(a, b),
    ensures
        bytes_lt(a + seq![0u8], b + seq![0u8]),
    decreases a.len(),
{
    let a0 = a + seq![0u8];
    let b0 = b + seq![0u8];
    if a.len() == 0 {
        assert(a0.drop_first() =~= Seq::<u8>::empty());
        assert(b0.drop_first().len() > 0);
        assert(a0[0] == 0u8);
        assert(b0[0] == b[0]);
        assert(a0.len() == 1 && b0.len() >= 2);
        if b[0] == 0u8 {
            assert(bytes_lt(a0.drop_first(), b0.drop_first()));
        } else {
            assert(a0[0] < b0[0]);
        }
    } else if a[0] != b[0] {
    } else {
        assert(a0.drop_first() =~= a.drop_first() + seq![0u8]);
        assert(b0.drop_first() =~= b.drop_first() + seq![0u8]);
        lemma_terminated_order(a.drop_first(), b.drop_first());
    }
}

/// Strings keep their UTF-8 byte order as keys; in particular a proper
/// prefix sorts first.
pub proof fn string_keys_sort_by_bytes(s: Seq<char>, t: Seq<char>)
    requires
        bytes_lt(encode_utf8(s), encode_utf8(t)),
    ensures
        bytes_lt(spec_encode_key(KeyValueView::Str(s)), spec_encode_key(KeyValueView::Str(t))),
{
    lemma_terminated_order(encode_utf8(s), encode_utf8(t));
    assert(spec_encode_key(KeyValueView::Str(s)) =~= seq![TAG_STRING] + (encode_utf8(s) + seq![0u8]));
    assert(spec_encode_key(KeyValueView::Str(t)) =~= seq![TAG_STRING] + (encode_utf8(t) + seq![0u8]));
    lemma_bytes_lt_common_head(TAG_STRING, encode_utf8(s) + seq![0u8], encode_utf8(t) + seq![0u8]);
}

} // verus!
