//! What columnar index keys promise: a value reads back from its key, and
//! keys of integers and of floats sort as the numbers do.
use vstd::prelude::*;
use vstd::utf8::{encode_utf8, encode_utf8_decode_utf8, encode_utf8_valid_utf8};
use crate::bytes::{bytes_lt, lemma_bytes_lt_common_prefix};
use crate::codec::{f64_bits_finite, f64_bits_lt, f64_bits_nan, order_bits, unorder_bits};
use crate::codec_laws::lemma_order_bits_monotone;
use crate::column_keys::{
    all_hex, colon_from, float_key_bits, hex_digit_value, hex_value, int_key, spec_decode_value,
    spec_encode_value, spec_hex_decode, spec_parse_hex_u64, tagged, ColumnValueView,
};
use crate::digits::{
    digit_byte, fixed_digits, lemma_fixed_digits_len, lemma_fixed_digits_order,
    lemma_u64_fits_sixteen_hex_digits, pow_nat,
};
use crate::keys::{hex_lower, COLON};

verus! {

broadcast use vstd::seq_lib::group_seq_properties;

proof fn lemma_fixed_hex_digits(n: nat, width: nat)
    ensures
        all_hex(fixed_digits(n, width, 16)),
        width > 0 ==> fixed_digits(n, width, 16)[0] != 43,
    decreases width,
{
    if width > 0 {
        lemma_fixed_hex_digits(n / 16, (width - 1) as nat);
        let f = fixed_digits(n, width, 16);
        let g = fixed_digits(n / 16, (width - 1) as nat, 16);
        assert forall|i: int| 0 <= i < f.len() implies #[trigger] hex_digit_value(f[i]) is Some by {
            if i < g.len() {
                assert(f[i] == g[i]);
            }
        }
        if width > 1 {
            assert(f[0] == g[0]);
        }
    }
}

proof fn lemma_fixed_hex_value(n: nat, width: nat)
    requires
        n < pow_nat(16, width),
    ensures
        hex_value(fixed_digits(n, width, 16)) == n,
    decreases width,
{
    if width > 0 {
        let p = pow_nat(16, (width - 1) as nat);
        assert(n / 16 < p) by (nonlinear_arith)
            requires
                n < 16 * p,
        ;
        lemma_fixed_hex_value(n / 16, (width - 1) as nat);
        let f = fixed_digits(n, width, 16);
        assert(f.drop_last() =~= fixed_digits(n / 16, (width - 1) as nat, 16));
        assert(hex_digit_value(digit_byte(n % 16)) == Some(n % 16));
    }
}

proof fn lemma_parse_fixed_hex(n: u64)
    ensures
        spec_parse_hex_u64(fixed_digits(n as nat, 16, 16)) == Some(n),
{
    lemma_fixed_digits_len(n as nat, 16, 16);
    lemma_fixed_hex_digits(n as nat, 16);
    lemma_u64_fits_sixteen_hex_digits(n);
    lemma_fixed_hex_value(n as nat, 16);
}

proof fn lemma_hex_lower_shape(s: Seq<u8>)
    ensures
        hex_lower(s).len() == 2 * s.len(),
        forall|i: int|
            0 <= i < s.len() ==> hex_lower(s)[2 * i] == digit_byte((s[i] / 16) as nat)
                && hex_lower(s)[2 * i + 1] == digit_byte((s[i] % 16) as nat),
    decreases s.len(),
{
    if s.len() > 0 {
        let init = s.drop_last();
        lemma_hex_lower_shape(init);
        let last = fixed_digits(s.last() as nat, 2, 16);
        reveal_with_fuel(fixed_digits, 3);
        assert(last =~= seq![digit_byte((s.last() as nat / 16) % 16), digit_byte(s.last() as nat % 16)]);
        assert((s.last() as nat / 16) % 16 == (s.last() / 16) as nat);
        assert forall|i: int| 0 <= i < s.len() implies hex_lower(s)[2 * i] == digit_byte(
            (s[i] / 16) as nat,
        ) && hex_lower(s)[2 * i + 1] == digit_byte((s[i] % 16) as nat) by {
            if i < init.len() {
                assert(hex_lower(s)[2 * i] == hex_lower(init)[2 * i]);
                assert(hex_lower(s)[2 * i + 1] == hex_lower(init)[2 * i + 1]);
                assert(init[i] == s[i]);
            }
        }
    }
}

proof fn lemma_hex_decode_hex_lower(s: Seq<u8>)
    ensures
        spec_hex_decode(hex_lower(s)) == Some(s),
{
    lemma_hex_lower_shape(s);
    let h = hex_lower(s);
    assert forall|i: int| 0 <= i < h.len() implies #[trigger] hex_digit_value(h[i]) is Some by {
        let k = i / 2;
        assert(i == 2 * k || i == 2 * k + 1);
        assert(h[2 * k] == digit_byte((s[k] / 16) as nat));
    }
    let d = Seq::new(
        (h.len() / 2) as nat,
        |i: int| (hex_digit_value(h[2 * i]).unwrap() * 16 + hex_digit_value(h[2 * i + 1]).unwrap()) as u8,
    );
    assert forall|i: int| 0 <= i < s.len() implies d[i] == s[i] by {
        assert(h[2 * i] == digit_byte((s[i] / 16) as nat));
        assert(h[2 * i + 1] == digit_byte((s[i] % 16) as nat));
        assert(hex_digit_value(digit_byte((s[i] / 16) as nat)) == Some((s[i] / 16) as nat));
        assert(hex_digit_value(digit_byte((s[i] % 16) as nat)) == Some((s[i] % 16) as nat));
    }
    assert(d =~= s);
}

proof fn lemma_float_key_round_trip(b: u64)
    requires
        f64_bits_finite(b),
        b != 0x8000_0000_0000_0000u64,
    ensures
        unorder_bits(float_key_bits(b)) == b,
        float_key_bits(b) == order_bits(b),
{
    assert(unorder_bits(float_key_bits(b)) == b && float_key_bits(b) == order_bits(b)) by (bit_vector)
        requires
            (b >> 52u64) & 0x7ffu64 != 0x7ffu64,
            b != 0x8000_0000_0000_0000u64,
    ;
}

proof fn lemma_split_at_tag(tag: u8, payload: Seq<u8>)
    requires
        tag != COLON,
    ensures
        colon_from(tagged(tag) + payload, 0) == Some(1int),
        (tagged(tag) + payload).subrange(0, 1) == seq![tag],
        (tagged(tag) + payload).subrange(2, (tagged(tag) + payload).len() as int) == payload,
{
    let e = tagged(tag) + payload;
    assert(e[0] == tag);
    assert(e[1] == COLON);
    reveal_with_fuel(colon_from, 3);
    assert(e.subrange(0, 1) =~= seq![tag]);
    assert(e.subrange(2, e.len() as int) =~= payload);
}

/// A value reads back from its index key: null, booleans, integers, text,
/// and floats that are finite and not negative zero (whose key reads back
/// as NaN, which is no value).
pub proof fn decode_encode_value(v: ColumnValueView)
    requires
        v matches ColumnValueView::Float(b) ==> f64_bits_finite(b) && b != 0x8000_0000_0000_0000u64,
        !(v is Other),
    ensures
        spec_decode_value(spec_encode_value(v)) == Some(v),
{
    match v {
        ColumnValueView::Null => {
            lemma_split_at_tag(48, seq![]);
            assert(spec_encode_value(v) =~= tagged(48) + seq![]);
        },
        ColumnValueView::Bool(x) => {
            lemma_split_at_tag(49, seq![if x { 49u8 } else { 48u8 }]);
            assert(seq![48u8] != seq![49u8]) by {
                assert(seq![48u8][0] != seq![49u8][0]);
            }
            assert(seq![48u8] != seq![49u8] ==> (seq![if x { 49u8 } else { 48u8 }] == seq![49u8]) == x);
        },
        ColumnValueView::Int(i) => {
            let n = int_key(i);
            lemma_split_at_tag(50, fixed_digits(n, 16, 16));
            assert(seq![50u8] != seq![48u8] && seq![50u8] != seq![49u8]) by {
                assert(seq![50u8][0] != seq![48u8][0]);
                assert(seq![50u8][0] != seq![49u8][0]);
            }
            lemma_parse_fixed_hex(n as u64);
        },
        ColumnValueView::Float(b) => {
            let u = float_key_bits(b);
            lemma_split_at_tag(51, fixed_digits(u as nat, 16, 16));
            assert(seq![51u8] != seq![48u8] && seq![51u8] != seq![49u8] && seq![51u8] != seq![50u8]) by {
                assert(seq![51u8][0] != seq![48u8][0]);
                assert(seq![51u8][0] != seq![49u8][0]);
                assert(seq![51u8][0] != seq![50u8][0]);
            }
            lemma_parse_fixed_hex(u);
            lemma_float_key_round_trip(b);
        },
        ColumnValueView::Str(s) => {
            lemma_split_at_tag(52, hex_lower(encode_utf8(s)));
            assert(seq![52u8] != seq![48u8] && seq![52u8] != seq![49u8] && seq![52u8] != seq![50u8]
                && seq![52u8] != seq![51u8]) by {
                assert(seq![52u8][0] != seq![48u8][0]);
                assert(seq![52u8][0] != seq![49u8][0]);
                assert(seq![52u8][0] != seq![50u8][0]);
                assert(seq![52u8][0] != seq![51u8][0]);
            }
            lemma_hex_decode_hex_lower(encode_utf8(s));
            encode_utf8_valid_utf8(s);
            encode_utf8_decode_utf8(s);
        },
        ColumnValueView::Other(_) => {},
    }
}

/// Integer keys sort as the integers do.
pub proof fn int_keys_sort_numerically(a: i64, b: i64)
    requires
        a < b,
    ensures
        bytes_lt(
            spec_encode_value(ColumnValueView::Int(a)),
            spec_encode_value(ColumnValueView::Int(b)),
        ),
{
    lemma_u64_fits_sixteen_hex_digits(int_key(b) as u64);
    lemma_fixed_digits_order(int_key(a), int_key(b), 16, 16);
    lemma_bytes_lt_common_prefix(
        tagged(50),
        fixed_digits(int_key(a), 16, 16),
        fixed_digits(int_key(b), 16, 16),
    );
}

/// Float keys sort as the floats do, for floats that are neither NaN nor
/// negative zero.
pub proof fn float_keys_sort_numerically(a: u64, b: u64)
    requires
        !f64_bits_nan(a),
        !f64_bits_nan(b),
        a != 0x8000_0000_0000_0000u64,
        b != 0x8000_0000_0000_0000u64,
        f64_bits_lt(a, b),
    ensures
        bytes_lt(
            spec_encode_value(ColumnValueView::Float(a)),
            spec_encode_value(ColumnValueView::Float(b)),
        ),
{
    assert(float_key_bits(a) == order_bits(a) && float_key_bits(b) == order_bits(b)) by (bit_vector)
        requires
            !f64_bits_nan(a),
            !f64_bits_nan(b),
            a != 0x8000_0000_0000_0000u64,
            b != 0x8000_0000_0000_0000u64,
    ;
    lemma_order_bits_monotone(a, b);
    lemma_u64_fits_sixteen_hex_digits(float_key_bits(b));
    lemma_fixed_digits_order(float_key_bits(a) as nat, float_key_bits(b) as nat, 16, 16);
    lemma_bytes_lt_common_prefix(
        tagged(51),
        fixed_digits(float_key_bits(a) as nat, 16, 16),
        fixed_digits(float_key_bits(b) as nat, 16, 16),
    );
}

} // verus!
