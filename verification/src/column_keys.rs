//! Index keys of columnar collections: how a column value is written into a
//! key so that keys sort as values do, and how it is read back.
use vstd::prelude::*;
use vstd::utf8::{decode_utf8, encode_utf8, encode_utf8_valid_utf8, valid_utf8, valid_utf8_concat};
use crate::bytes::{lemma_ascii_valid_utf8, all_ascii, push_all, push_str, string_from_utf8, utf8_text};
use crate::codec::{f64_bits_finite, f64_bits_nan, unorder_bits};
use crate::digits::{dec_digits, digit_byte, fixed_digits, push_dec, push_fixed_digits};
use crate::columnar::ColumnType;
use crate::keys::{hex_lower, lemma_hex_digits_ascii, push_hex, COLON};
use crate::timestamps::{is_rfc3339, rfc3339_seconds};

verus! {

broadcast use vstd::seq_lib::group_seq_properties;

/// Key prefixes of columnar storage.
pub const COL_DATA_PREFIX: &'static str = "col:";
pub const COL_META_PREFIX: &'static str = "col_meta:";
pub const COL_ROW_PREFIX: &'static str = "col_row:";
pub const COL_IDX_PREFIX: &'static str = "col_idx:";
pub const COL_IDX_META_PREFIX: &'static str = "col_idx_meta:";
pub const COL_IDX_BITMAP_PREFIX: &'static str = "col_idx_bmp:";
pub const COL_IDX_MINMAX_PREFIX: &'static str = "col_idx_mm:";
/// Rows per min/max chunk.
pub const MINMAX_CHUNK_SIZE: u64 = 1000;

/// A column value as index keys see it. `Int` is a JSON number that fits an
/// `i64`; `Float` holds the IEEE-754 bits of any other number; `Other` (an
/// array or an object) holds its compact JSON text.
#[derive(Debug, Clone, PartialEq)]
pub enum ColumnValue {
    Null,
    Bool(bool),
    Int(i64),
    Float(u64),
    Str(String),
    Other(String),
}

pub enum ColumnValueView {
    Null,
    Bool(bool),
    Int(i64),
    Float(u64),
    Str(Seq<char>),
    Other(Seq<char>),
}

impl View for ColumnValue {
    type V = ColumnValueView;

    open spec fn view(&self) -> ColumnValueView {
        match self {
            ColumnValue::Null => ColumnValueView::Null,
            ColumnValue::Bool(b) => ColumnValueView::Bool(*b),
            ColumnValue::Int(i) => ColumnValueView::Int(*i),
            ColumnValue::Float(f) => ColumnValueView::Float(*f),
            ColumnValue::Str(s) => ColumnValueView::Str(s@),
            ColumnValue::Other(s) => ColumnValueView::Other(s@),
        }
    }
}

/// Whether the float with these bits compares `>= 0.0`: not NaN, and
/// positive or a zero of either sign.
pub open spec fn f64_ge_zero(bits: u64) -> bool {
    !f64_bits_nan(bits) && (bits >> 63u64 == 0 || bits & 0x7fff_ffff_ffff_ffffu64 == 0)
}

/// The sortable form of a float's bits: the sign bit of values `>= 0.0` is
/// set, every other value is inverted.
pub open spec fn float_key_bits(bits: u64) -> u64 {
    if f64_ge_zero(bits) {
        bits ^ 0x8000_0000_0000_0000u64
    } else {
        !bits
    }
}

/// An `i64` shifted into `[0, 2^64)`, preserving order.
pub open spec fn int_key(i: i64) -> nat {
    (i + 0x8000_0000_0000_0000) as nat
}

/// `<tag>:`.
pub open spec fn tagged(tag: u8) -> Seq<u8> {
    seq![tag, COLON]
}

/// UTF-8 bytes of the key form of a value.
pub open spec fn spec_encode_value(v: ColumnValueView) -> Seq<u8> {
    match v {
        ColumnValueView::Null => tagged(48),
        ColumnValueView::Bool(b) => tagged(49) + seq![if b { 49u8 } else { 48u8 }],
        ColumnValueView::Int(i) => tagged(50) + fixed_digits(int_key(i), 16, 16),
        ColumnValueView::Float(bits) => tagged(51) + fixed_digits(float_key_bits(bits) as nat, 16, 16),
        ColumnValueView::Str(s) => tagged(52) + hex_lower(encode_utf8(s)),
        ColumnValueView::Other(t) => tagged(57) + encode_utf8(t),
    }
}

/// The value of a hex digit in either case.
pub open spec fn hex_digit_value(b: u8) -> Option<nat> {
    if 48 <= b <= 57 {
        Some((b - 48) as nat)
    } else if 97 <= b <= 102 {
        Some((b - 87) as nat)
    } else if 65 <= b <= 70 {
        Some((b - 55) as nat)
    } else {
        None
    }
}

pub open spec fn all_hex(s: Seq<u8>) -> bool {
    forall|i: int| 0 <= i < s.len() ==> #[trigger] hex_digit_value(s[i]) is Some
}

/// The number a string of hex digits writes.
pub open spec fn hex_value(s: Seq<u8>) -> nat
    decreases s.len(),
{
    if s.len() == 0 {
        0
    } else {
        hex_value(s.drop_last()) * 16 + hex_digit_value(s.last()).unwrap_or(0)
    }
}

/// What `u64::from_str_radix(s, 16)` reads: an optional `+`, then one or
/// more hex digits whose value fits.
pub open spec fn spec_parse_hex_u64(b: Seq<u8>) -> Option<u64> {
    let digits = if b.len() > 0 && b[0] == 43 {
        b.drop_first()
    } else {
        b
    };
    if digits.len() == 0 || !all_hex(digits) || hex_value(digits) > u64::MAX {
        None
    } else {
        Some(hex_value(digits) as u64)
    }
}

/// What `hex::decode` reads: pairs of hex digits, high digit first.
pub open spec fn spec_hex_decode(s: Seq<u8>) -> Option<Seq<u8>> {
    if s.len() % 2 != 0 || !all_hex(s) {
        None
    } else {
        Some(
            Seq::new(
                (s.len() / 2) as nat,
                |i: int|
                    (hex_digit_value(s[2 * i]).unwrap() * 16 + hex_digit_value(
                        s[2 * i + 1],
                    ).unwrap()) as u8,
            ),
        )
    }
}

/// Position of the first `:` at or after `i`.
pub open spec fn colon_from(s: Seq<u8>, i: int) -> Option<int>
    decreases s.len() - i,
{
    if i < 0 || i >= s.len() {
        None
    } else if s[i] == COLON {
        Some(i)
    } else {
        colon_from(s, i + 1)
    }
}

/// What a value key reads back as, `None` for no value.
pub open spec fn spec_decode_value(b: Seq<u8>) -> Option<ColumnValueView> {
    match colon_from(b, 0) {
        None => None,
        Some(c) => {
            let tag = b.subrange(0, c);
            let rest = b.subrange(c + 1, b.len() as int);
            if tag == seq![48u8] {
                Some(ColumnValueView::Null)
            } else if tag == seq![49u8] {
                Some(ColumnValueView::Bool(rest == seq![49u8]))
            } else if tag == seq![50u8] {
                match spec_parse_hex_u64(rest) {
                    Some(u) => Some(ColumnValueView::Int((u - 0x8000_0000_0000_0000) as i64)),
                    None => None,
                }
            } else if tag == seq![51u8] {
                match spec_parse_hex_u64(rest) {
                    Some(u) => if f64_bits_finite(unorder_bits(u)) {
                        Some(ColumnValueView::Float(unorder_bits(u)))
                    } else {
                        None
                    },
                    None => None,
                }
            } else if tag == seq![52u8] {
                match spec_hex_decode(rest) {
                    Some(bytes) => if valid_utf8(bytes) {
                        Some(ColumnValueView::Str(decode_utf8(bytes)))
                    } else {
                        None
                    },
                    None => None,
                }
            } else {
                None
            }
        },
    }
}

/// Encode a column value into its index-key form, so that keys of one kind
/// sort as the values do.
pub fn encode_value_for_key(value: &ColumnValue) -> (r: String)
    ensures
        encode_utf8(r@) == spec_encode_value(value@),
{
    let mut k: Vec<u8> = Vec::new();
    match value {
        ColumnValue::Null => {
            k.push(48u8);
            k.push(COLON);
        },
        ColumnValue::Bool(b) => {
            k.push(49u8);
            k.push(COLON);
            k.push(if *b { 49u8 } else { 48u8 });
        },
        ColumnValue::Int(i) => {
            k.push(50u8);
            k.push(COLON);
            let shifted: u64 = if *i >= 0 {
                (*i as u64) + 0x8000_0000_0000_0000u64
            } else {
                (*i - i64::MIN) as u64
            };
            push_fixed_digits(&mut k, shifted, 16, 16);
        },
        ColumnValue::Float(bits) => {
            k.push(51u8);
            k.push(COLON);
            let b = *bits;
            let nan = (b >> 52u64) & 0x7ffu64 == 0x7ffu64 && b & 0xf_ffff_ffff_ffffu64 != 0;
            let ge_zero = !nan && (b >> 63u64 == 0 || b & 0x7fff_ffff_ffff_ffffu64 == 0);
            let enc: u64 = if ge_zero {
                b ^ 0x8000_0000_0000_0000u64
            } else {
                !b
            };
            push_fixed_digits(&mut k, enc, 16, 16);
        },
        ColumnValue::Str(s) => {
            k.push(52u8);
            k.push(COLON);
            push_hex(&mut k, s.as_str().as_bytes());
        },
        ColumnValue::Other(t) => {
            k.push(57u8);
            k.push(COLON);
            push_str(&mut k, t.as_str());
        },
    }
    assert(k@ =~= spec_encode_value(value@));
    proof {
        lemma_encoded_value_valid_utf8(value@);
    }
    string_from_utf8(k.as_slice())
}

/// Lower-case hex is ASCII.
pub proof fn lemma_hex_lower_ascii(s: Seq<u8>)
    ensures
        all_ascii(hex_lower(s)),
    decreases s.len(),
{
    if s.len() > 0 {
        lemma_hex_lower_ascii(s.drop_last());
        lemma_hex_digits_ascii(s.last() as nat, 2);
        let a = hex_lower(s.drop_last());
        let b = fixed_digits(s.last() as nat, 2, 16);
        assert forall|i: int| 0 <= i < (a + b).len() implies #[trigger] (a + b)[i] < 128 by {
            if i < a.len() {
                assert((a + b)[i] == a[i]);
            } else {
                assert((a + b)[i] == b[i - a.len()]);
            }
        }
    }
}

proof fn lemma_encoded_value_valid_utf8(v: ColumnValueView)
    ensures
        valid_utf8(spec_encode_value(v)),
{
    match v {
        ColumnValueView::Other(t) => {
            lemma_ascii_valid_utf8(tagged(57));
            encode_utf8_valid_utf8(t);
            valid_utf8_concat(tagged(57), encode_utf8(t));
        },
        ColumnValueView::Str(s) => {
            lemma_hex_lower_ascii(encode_utf8(s));
            let e = spec_encode_value(v);
            assert forall|i: int| 0 <= i < e.len() implies #[trigger] e[i] < 128 by {
                if i >= 2 {
                    assert(e[i] == hex_lower(encode_utf8(s))[i - 2]);
                }
            }
            lemma_ascii_valid_utf8(e);
        },
        ColumnValueView::Int(i) => {
            lemma_hex_digits_ascii(int_key(i), 16);
            let e = spec_encode_value(v);
            assert forall|j: int| 0 <= j < e.len() implies #[trigger] e[j] < 128 by {
                if j >= 2 {
                    assert(e[j] == fixed_digits(int_key(i), 16, 16)[j - 2]);
                }
            }
            lemma_ascii_valid_utf8(e);
        },
        ColumnValueView::Float(bits) => {
            lemma_hex_digits_ascii(float_key_bits(bits) as nat, 16);
            let e = spec_encode_value(v);
            assert forall|j: int| 0 <= j < e.len() implies #[trigger] e[j] < 128 by {
                if j >= 2 {
                    assert(e[j] == fixed_digits(float_key_bits(bits) as nat, 16, 16)[j - 2]);
                }
            }
            lemma_ascii_valid_utf8(e);
        },
        _ => {
            lemma_ascii_valid_utf8(spec_encode_value(v));
        },
    }
}

fn hex_digit(b: u8) -> (r: Option<u8>)
    ensures
        match r {
            Some(d) => hex_digit_value(b) == Some(d as nat) && d < 16,
            None => hex_digit_value(b) is None,
        },
{
    if b >= 48u8 && b <= 57u8 {
        Some(b - 48u8)
    } else if b >= 97u8 && b <= 102u8 {
        Some(b - 87u8)
    } else if b >= 65u8 && b <= 70u8 {
        Some(b - 55u8)
    } else {
        None
    }
}

proof fn lemma_hex_value_grows(s: Seq<u8>, i: int)
    requires
        0 <= i <= s.len(),
    ensures
        hex_value(s.subrange(0, i)) <= hex_value(s),
    decreases s.len() - i,
{
    if i < s.len() {
        lemma_hex_value_grows(s, i + 1);
        assert(s.subrange(0, i + 1).drop_last() =~= s.subrange(0, i));
    } else {
        assert(s.subrange(0, i) =~= s);
    }
}

fn hex_value_checked(d: &[u8]) -> (r: Option<u64>)
    requires
        all_hex(d@),
    ensures
        match r {
            Some(v) => v as nat == hex_value(d@),
            None => hex_value(d@) > u64::MAX,
        },
{
    let mut acc: u64 = 0;
    let mut i: usize = 0;
    while i < d.len()
        invariant
            i <= d@.len(),
            all_hex(d@),
            acc as nat == hex_value(d@.subrange(0, i as int)),
        decreases d@.len() - i,
    {
        assert(hex_digit_value(d@[i as int]) is Some);
        let x = hex_digit(d[i]).unwrap() as u64;
        assert(d@.subrange(0, i + 1).drop_last() =~= d@.subrange(0, i as int));
        if acc > (u64::MAX - x) / 16 {
            assert(acc * 16 + x > u64::MAX) by (nonlinear_arith)
                requires
                    acc > (u64::MAX - x) / 16,
                    x <= 15,
            ;
            proof {
                lemma_hex_value_grows(d@, i + 1);
            }
            return None;
        }
        assert(acc * 16 + x <= u64::MAX) by (nonlinear_arith)
            requires
                acc <= (u64::MAX - x) / 16,
                x <= 15,
        ;
        acc = acc * 16 + x;
        i = i + 1;
    }
    assert(d@.subrange(0, d@.len() as int) =~= d@);
    Some(acc)
}

/// Parse hex as `u64::from_str_radix(s, 16)` does.
pub fn parse_hex_u64(b: &[u8]) -> (r: Option<u64>)
    ensures
        r == spec_parse_hex_u64(b@),
{
    let start: usize = if b.len() > 0 && b[0] == 43u8 { 1 } else { 0 };
    let digits = crate::bytes::tail(b, start);
    assert(digits@ == (if b@.len() > 0 && b@[0] == 43 {
        b@.drop_first()
    } else {
        b@
    }));
    if digits.len() == 0 {
        return None;
    }
    let mut i: usize = 0;
    while i < digits.len()
        invariant
            i <= digits@.len(),
            digits@ == (if b@.len() > 0 && b@[0] == 43 {
                b@.drop_first()
            } else {
                b@
            }),
            forall|j: int| 0 <= j < i ==> #[trigger] hex_digit_value(digits@[j]) is Some,
        decreases digits@.len() - i,
    {
        if hex_digit(digits[i]).is_none() {
            assert(hex_digit_value(digits@[i as int]) is None);
            return None;
        }
        i = i + 1;
    }
    hex_value_checked(digits.as_slice())
}

/// Decode hex as `hex::decode` does.
pub fn hex_decode(s: &[u8]) -> (r: Option<Vec<u8>>)
    ensures
        match r {
            Some(v) => spec_hex_decode(s@) == Some(v@),
            None => spec_hex_decode(s@) is None,
        },
{
    if s.len() % 2 != 0 {
        return None;
    }
    let mut out: Vec<u8> = Vec::new();
    let mut i: usize = 0;
    while i < s.len()
        invariant
            s@.len() % 2 == 0,
            i % 2 == 0,
            i <= s@.len(),
            out@.len() == i / 2,
            forall|j: int| 0 <= j < i ==> #[trigger] hex_digit_value(s@[j]) is Some,
            forall|j: int|
                0 <= j < i / 2 ==> #[trigger] out@[j] == (hex_digit_value(s@[2 * j]).unwrap() * 16
                    + hex_digit_value(s@[2 * j + 1]).unwrap()) as u8,
        decreases s@.len() - i,
    {
        let hi = match hex_digit(s[i]) {
            Some(d) => d,
            None => {
                return None;
            },
        };
        let lo = match hex_digit(s[i + 1]) {
            Some(d) => d,
            None => {
                return None;
            },
        };
        out.push(hi * 16 + lo);
        assert(2 * (i / 2) == i);
        i = i + 2;
    }
    proof {
        let spec = Seq::new(
            (s@.len() / 2) as nat,
            |j: int|
                (hex_digit_value(s@[2 * j]).unwrap() * 16 + hex_digit_value(s@[2 * j + 1]).unwrap()) as u8,
        );
        assert(out@ =~= spec);
    }
    Some(out)
}

/// Read a value back from its index-key form; `None` for no value (and for
/// the `9:` form of arrays and objects, which is not read back).
#[verifier::rlimit(40)]
pub fn decode_index_value(encoded: &str) -> (r: Option<ColumnValue>)
    ensures
        match r {
            Some(v) => spec_decode_value(encode_utf8(encoded@)) == Some(v@),
            None => spec_decode_value(encode_utf8(encoded@)) is None,
        },
{
    let b = encoded.as_bytes();
    let mut c: usize = 0;
    while c < b.len() && b[c] != COLON
        invariant
            c <= b@.len(),
            colon_from(b@, 0) == colon_from(b@, c as int),
        decreases b@.len() - c,
    {
        c = c + 1;
    }
    if c == b.len() {
        return None;
    }
    assert(colon_from(b@, 0) == Some(c as int));
    let ghost tag = b@.subrange(0, c as int);
    let rest = crate::bytes::tail(b, c + 1);
    if c != 1 {
        assert(tag.len() != 1);
        assert(tag != seq![48u8] && tag != seq![49u8] && tag != seq![50u8] && tag != seq![51u8]
            && tag != seq![52u8]);
        return None;
    }
    assert(tag =~= seq![b@[0]]);
    let t = b[0];
    assert(rest@ == b@.subrange(c + 1, b@.len() as int));
    assert(b@ == encode_utf8(encoded@));
    assert(tag[0] == t);
    assert(t != 48u8 ==> tag != seq![48u8]) by {
        if t != 48u8 {
            assert(seq![48u8][0] == 48u8);
        }
    }
    assert(t != 49u8 ==> tag != seq![49u8]) by {
        if t != 49u8 {
            assert(seq![49u8][0] == 49u8);
        }
    }
    assert(t != 50u8 ==> tag != seq![50u8]) by {
        if t != 50u8 {
            assert(seq![50u8][0] == 50u8);
        }
    }
    assert(t != 51u8 ==> tag != seq![51u8]) by {
        if t != 51u8 {
            assert(seq![51u8][0] == 51u8);
        }
    }
    assert(t != 52u8 ==> tag != seq![52u8]) by {
        if t != 52u8 {
            assert(seq![52u8][0] == 52u8);
        }
    }
    if t == 48u8 {
        assert(spec_decode_value(b@) == Some(ColumnValueView::Null));
        Some(ColumnValue::Null)
    } else if t == 49u8 {
        let one = rest.len() == 1 && rest[0] == 49u8;
        assert(one == (rest@ == seq![49u8])) by {
            if rest@ == seq![49u8] {
                assert(rest@[0] == 49u8);
            }
            if one {
                assert(rest@ =~= seq![49u8]);
            }
        }
        assert(spec_decode_value(b@) == Some(ColumnValueView::Bool(one)));
        Some(ColumnValue::Bool(one))
    } else if t == 50u8 {
        match parse_hex_u64(rest.as_slice()) {
            Some(u) => {
                let i: i64 = if u >= 0x8000_0000_0000_0000u64 {
                    (u - 0x8000_0000_0000_0000u64) as i64
                } else {
                    (u as i64) + i64::MIN
                };
                assert(i == (u - 0x8000_0000_0000_0000) as i64);
                assert(spec_decode_value(b@) == Some(ColumnValueView::Int(i)));
                Some(ColumnValue::Int(i))
            },
            None => None,
        }
    } else if t == 51u8 {
        match parse_hex_u64(rest.as_slice()) {
            Some(u) => {
                let bits: u64 = if u & 0x8000_0000_0000_0000u64 != 0 {
                    u ^ 0x8000_0000_0000_0000u64
                } else {
                    !u
                };
                if (bits >> 52u64) & 0x7ffu64 != 0x7ffu64 {
                    assert(spec_decode_value(b@) == Some(ColumnValueView::Float(bits)));
                    Some(ColumnValue::Float(bits))
                } else {
                    None
                }
            },
            None => None,
        }
    } else if t == 52u8 {
        match hex_decode(rest.as_slice()) {
            Some(bytes) => match utf8_text(bytes.as_slice()) {
                Some(s) => {
                    let owned = s.to_owned();
                    assert(owned@ == decode_utf8(bytes@));
                    assert(spec_decode_value(b@) == Some(ColumnValueView::Str(owned@)));
                    Some(ColumnValue::Str(owned))
                },
                None => None,
            },
            None => None,
        }
    } else {
        None
    }
}

/// Sorted/hash index key: `col_idx:<column>:<value key>`.
pub fn encode_index_key(column: &str, value: &ColumnValue) -> (r: Vec<u8>)
    ensures
        r@ == encode_utf8(COL_IDX_PREFIX@) + encode_utf8(column@) + seq![COLON] + spec_encode_value(
            value@,
        ),
{
    let enc = encode_value_for_key(value);
    let mut k: Vec<u8> = Vec::new();
    push_str(&mut k, COL_IDX_PREFIX);
    push_str(&mut k, column);
    k.push(COLON);
    push_str(&mut k, enc.as_str());
    k
}

/// Bitmap index key: `col_idx_bmp:<column>:<value key>`.
pub fn encode_bitmap_key(column: &str, value: &ColumnValue) -> (r: Vec<u8>)
    ensures
        r@ == encode_utf8(COL_IDX_BITMAP_PREFIX@) + encode_utf8(column@) + seq![COLON]
            + spec_encode_value(value@),
{
    let enc = encode_value_for_key(value);
    let mut k: Vec<u8> = Vec::new();
    push_str(&mut k, COL_IDX_BITMAP_PREFIX);
    push_str(&mut k, column);
    k.push(COLON);
    push_str(&mut k, enc.as_str());
    k
}

/// Min/max chunk key: `col_idx_mm:<column>:<chunk id>` (decimal).
pub fn encode_minmax_key(column: &str, chunk_id: u64) -> (r: Vec<u8>)
    ensures
        r@ == encode_utf8(COL_IDX_MINMAX_PREFIX@) + encode_utf8(column@) + seq![COLON] + dec_digits(
            chunk_id as nat,
        ),
{
    let mut k: Vec<u8> = Vec::new();
    push_str(&mut k, COL_IDX_MINMAX_PREFIX);
    push_str(&mut k, column);
    k.push(COLON);
    push_dec(&mut k, chunk_id);
    k
}

/// The column type a value suggests.
pub open spec fn spec_infer_type(v: ColumnValueView) -> ColumnType {
    match v {
        ColumnValueView::Bool(_) => ColumnType::Bool,
        ColumnValueView::Int(_) => ColumnType::Int64,
        ColumnValueView::Float(_) => ColumnType::Float64,
        ColumnValueView::Str(s) => if rfc3339_seconds(s) is Some {
            ColumnType::Timestamp
        } else {
            ColumnType::String
        },
        ColumnValueView::Other(_) => ColumnType::Json,
        ColumnValueView::Null => ColumnType::String,
    }
}

impl ColumnType {
    /// Infer a column type from a value: integers that fit an `i64` are
    /// `Int64`, other numbers `Float64`, RFC 3339 text `Timestamp`, arrays and
    /// objects `Json`, and null `String`.
    pub fn infer_from_value(value: &ColumnValue) -> (r: ColumnType)
        ensures
            r == spec_infer_type(value@),
    {
        match value {
            ColumnValue::Bool(_) => ColumnType::Bool,
            ColumnValue::Int(_) => ColumnType::Int64,
            ColumnValue::Float(_) => ColumnType::Float64,
            ColumnValue::Str(s) => if is_rfc3339(s.as_str()) {
                ColumnType::Timestamp
            } else {
                ColumnType::String
            },
            ColumnValue::Other(_) => ColumnType::Json,
            ColumnValue::Null => ColumnType::String,
        }
    }
}

} // verus!
