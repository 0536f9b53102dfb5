//! Columnar storage for analytics: column and index definitions, parsing of
//! aggregation names and time-bucket intervals, and value compression.
use vstd::prelude::*;
use vstd::string::StringSliceAdditionalSpecFns;
use vstd::utf8::{encode_utf8, is_char_boundary};
use crate::bytes::{str_equal, utf8_text};
use crate::json::{JsonNumber, JsonValue};
use crate::digits::{all_dec_digits, dec_value, is_dec_digit, parse_dec};

verus! {

broadcast use vstd::seq_lib::group_seq_properties;

/// Column data types supported in columnar storage.
#[derive(Debug, Clone, Copy, PartialEq, Eq)]
pub enum ColumnType {
    Int64,
    Float64,
    String,
    Bool,
    Timestamp,
    Json,
}

/// Index type for columnar collections.
#[derive(Debug, Clone, Copy, PartialEq, Eq)]
pub enum ColumnarIndexType {
    /// Equality and range queries over binary-comparable keys.
    Sorted,
    /// Equality only.
    Hash,
    /// Low cardinality.
    Bitmap,
    /// Range pruning for time series.
    MinMax,
}

impl Default for ColumnarIndexType {
    fn default() -> (r: Self)
        ensures
            r == ColumnarIndexType::Sorted,
    {
        ColumnarIndexType::Sorted
    }
}

/// Column definition for columnar collections.
pub struct ColumnDef {
    pub name: String,
    pub data_type: ColumnType,
    pub nullable: bool,
    pub indexed: bool,
    pub index_type: Option<ColumnarIndexType>,
}

/// Compression type for column data.
#[derive(Debug, Clone, Copy, PartialEq, Eq)]
pub enum CompressionType {
    /// Stored as is (`none` on the wire).
    Plain,
    Lz4,
}

impl Default for CompressionType {
    fn default() -> (r: Self)
        ensures
            r == CompressionType::Lz4,
    {
        CompressionType::Lz4
    }
}

/// Metadata for a columnar collection.
pub struct ColumnarCollectionMeta {
    pub name: String,
    pub columns: Vec<ColumnDef>,
    pub row_count: u64,
    pub compression: CompressionType,
    pub created_at: i64,
    pub last_updated_at: i64,
}

/// Metadata for a columnar index.
pub struct ColumnarIndexMeta {
    pub column: String,
    pub index_type: ColumnarIndexType,
    pub created_at: i64,
}

/// Aggregation operations supported on columnar data.
#[derive(Debug, Clone, Copy, PartialEq, Eq)]
pub enum AggregateOp {
    Sum,
    Avg,
    Count,
    Min,
    Max,
    CountDistinct,
}

/// What `str::to_uppercase` returns (Unicode upper-casing).
pub uninterp spec fn upper_case(s: Seq<char>) -> Seq<char>;

/// Calls `str::to_uppercase`. Unicode upper-casing takes tables to state;
/// its result is named `upper_case`.
#[verifier::external_body]
fn to_uppercase(s: &str) -> (r: String)
    ensures
        r@ == upper_case(s@),
{
    s.to_uppercase()
}

/// The aggregation named by an upper-case name.
pub open spec fn spec_aggregate_from_upper(u: Seq<char>) -> Option<AggregateOp> {
    if u == "SUM"@ {
        Some(AggregateOp::Sum)
    } else if u == "AVG"@ || u == "AVERAGE"@ {
        Some(AggregateOp::Avg)
    } else if u == "COUNT"@ {
        Some(AggregateOp::Count)
    } else if u == "MIN"@ {
        Some(AggregateOp::Min)
    } else if u == "MAX"@ {
        Some(AggregateOp::Max)
    } else if u == "COUNT_DISTINCT"@ {
        Some(AggregateOp::CountDistinct)
    } else {
        None
    }
}

impl AggregateOp {
    /// The aggregation named by `upper`, an already upper-cased name.
    pub fn from_upper(upper: &str) -> (r: Option<Self>)
        ensures
            r == spec_aggregate_from_upper(upper@),
    {
        if str_equal(upper, "SUM") {
            Some(AggregateOp::Sum)
        } else if str_equal(upper, "AVG") || str_equal(upper, "AVERAGE") {
            Some(AggregateOp::Avg)
        } else if str_equal(upper, "COUNT") {
            Some(AggregateOp::Count)
        } else if str_equal(upper, "MIN") {
            Some(AggregateOp::Min)
        } else if str_equal(upper, "MAX") {
            Some(AggregateOp::Max)
        } else if str_equal(upper, "COUNT_DISTINCT") {
            Some(AggregateOp::CountDistinct)
        } else {
            None
        }
    }

    /// Parse an aggregation name, in any case.
    pub fn from_str(s: &str) -> (r: Option<Self>)
        ensures
            r == spec_aggregate_from_upper(upper_case(s@)),
    {
        let upper = to_uppercase(s);
        Self::from_upper(upper.as_str())
    }
}

/// How many of `keys`, from the first, start with `prefix` before one does
/// not.
pub open spec fn leading_prefixed(keys: Seq<Seq<u8>>, prefix: Seq<u8>) -> nat
    decreases keys.len(),
{
    if keys.len() == 0 || !crate::bytes::has_prefix(keys[0], prefix) {
        0
    } else {
        1 + leading_prefixed(keys.drop_first(), prefix)
    }
}

/// The `Count` of a column, read off a prefix scan of its data entries:
/// `keys` are the keys the scan met, in order (ending where it failed to
/// read), and the count stops at the first key outside `prefix`.
pub fn count_column_entries(keys: &Vec<Vec<u8>>, prefix: &[u8]) -> (r: u64)
    ensures
        r == leading_prefixed(keys@.map_values(|k: Vec<u8>| k@), prefix@),
{
    let ghost ks = keys@.map_values(|k: Vec<u8>| k@);
    let mut i: usize = 0;
    while i < keys.len()
        invariant
            i <= keys@.len(),
            ks == keys@.map_values(|k: Vec<u8>| k@),
            leading_prefixed(ks, prefix@) == i + leading_prefixed(ks.skip(i as int), prefix@),
        decreases keys@.len() - i,
    {
        let ghost rest = ks.skip(i as int);
        assert(rest[0] == keys@[i as int]@);
        if !crate::bytes::starts_with(keys[i].as_slice(), prefix) {
            assert(leading_prefixed(rest, prefix@) == 0);
            return i as u64;
        }
        assert(rest.drop_first() =~= ks.skip(i + 1));
        i = i + 1;
    }
    assert(leading_prefixed(ks.skip(i as int), prefix@) == 0);
    i as u64
}

/// The `Count` aggregate of `n` values, as a JSON number.
pub fn count_value(n: usize) -> (r: JsonValue)
    ensures
        r == JsonValue::Number(JsonNumber::PosInt(n as u64)),
{
    JsonValue::Number(JsonNumber::PosInt(n as u64))
}

/// Column grouping definition.
pub enum GroupByColumn {
    /// Simple column grouping.
    Simple(String),
    /// Time bucket grouping: column and interval (`1h`, `5m`, `1d`).
    TimeBucket(String, String),
}

impl GroupByColumn {
    /// The grouped column.
    pub fn name(&self) -> (r: &str)
        ensures
            r@ == match self {
                GroupByColumn::Simple(n) => n@,
                GroupByColumn::TimeBucket(n, _) => n@,
            },
    {
        match self {
            GroupByColumn::Simple(name) => name.as_str(),
            GroupByColumn::TimeBucket(name, _) => name.as_str(),
        }
    }
}

/// What `str::parse::<i64>` reads: an optional sign, then one or more
/// decimal digits whose value fits.
pub open spec fn spec_parse_i64(b: Seq<u8>) -> Option<i64> {
    let neg = b.len() > 0 && b[0] == 45;
    let digits = if b.len() > 0 && (b[0] == 43 || b[0] == 45) {
        b.drop_first()
    } else {
        b
    };
    if digits.len() == 0 || !all_dec_digits(digits) {
        None
    } else if neg {
        if dec_value(digits) > 0x8000_0000_0000_0000 {
            None
        } else {
            Some((0 - dec_value(digits)) as i64)
        }
    } else if dec_value(digits) > i64::MAX {
        None
    } else {
        Some(dec_value(digits) as i64)
    }
}

/// Parse a signed integer as `str::parse::<i64>` does.
pub fn parse_i64(b: &[u8]) -> (r: Option<i64>)
    ensures
        r == spec_parse_i64(b@),
{
    let signed = b.len() > 0 && (b[0] == 43u8 || b[0] == 45u8);
    let neg = b.len() > 0 && b[0] == 45u8;
    let start: usize = if signed { 1 } else { 0 };
    if start == b.len() {
        return None;
    }
    let mut digits: Vec<u8> = Vec::new();
    let mut i: usize = start;
    while i < b.len()
        invariant
            start <= i <= b@.len(),
            start == (if b@.len() > 0 && (b@[0] == 43 || b@[0] == 45) { 1usize } else { 0usize }),
            digits@ == b@.subrange(start as int, i as int),
            all_dec_digits(digits@),
        decreases b@.len() - i,
    {
        if b[i] < 48u8 || b[i] > 57u8 {
            proof {
                let d = if b@.len() > 0 && (b@[0] == 43 || b@[0] == 45) {
                    b@.drop_first()
                } else {
                    b@
                };
                assert(d[i - start] == b@[i as int]);
                assert(!is_dec_digit(d[i - start]));
            }
            return None;
        }
        digits.push(b[i]);
        i = i + 1;
        assert(digits@ =~= b@.subrange(start as int, i as int));
    }
    proof {
        if signed {
            assert(b@.drop_first() =~= digits@);
        } else {
            assert(b@ =~= digits@);
        }
    }
    match parse_dec(digits.as_slice()) {
        Some(v) => {
            if neg {
                if v > 0x8000_0000_0000_0000u64 {
                    None
                } else if v == 0x8000_0000_0000_0000u64 {
                    Some(i64::MIN)
                } else {
                    Some(0i64 - (v as i64))
                }
            } else if v > 0x7fff_ffff_ffff_ffffu64 {
                None
            } else {
                Some(v as i64)
            }
        },
        None => None,
    }
}

/// What `parse_interval` reads: the last character is the unit, the rest
/// an `i64`.
pub open spec fn spec_parse_interval(b: Seq<u8>) -> Option<(i64, Seq<u8>)> {
    if b.len() < 2 {
        None
    } else {
        match spec_parse_i64(b.subrange(0, b.len() - 1)) {
            Some(n) => Some((n, b.subrange(b.len() - 1, b.len() as int))),
            None => None,
        }
    }
}

/// Split a time-bucket interval such as `5m` into its count and its unit
/// (the last byte). The last byte must start a character, as `str::split_at`
/// requires.
pub fn parse_interval(s: &str) -> (r: Option<(i64, &str)>)
    requires
        encode_utf8(s@).len() < 2 || is_char_boundary(encode_utf8(s@), encode_utf8(s@).len() - 1),
    ensures
        match r {
            Some((n, unit)) => spec_parse_interval(encode_utf8(s@)) == Some((n, encode_utf8(unit@))),
            None => spec_parse_interval(encode_utf8(s@)) is None,
        },
{
    let len = s.as_bytes().len();
    assert(s.spec_bytes() == encode_utf8(s@));
    if len < 2 {
        return None;
    }
    let (num_part, unit_part) = s.split_at(len - 1);
    assert(num_part.spec_bytes() == encode_utf8(num_part@));
    assert(unit_part.spec_bytes() == encode_utf8(unit_part@));
    match parse_i64(num_part.as_bytes()) {
        Some(num) => Some((num, unit_part)),
        None => None,
    }
}

/// Compressed form of `data` as `lz4_flex::compress_prepend_size` makes it.
pub uninterp spec fn lz4_compressed(data: Seq<u8>) -> Seq<u8>;

/// What `lz4_flex::decompress_size_prepended` gives back (`None` on error).
pub uninterp spec fn lz4_decompressed(data: Seq<u8>) -> Option<Seq<u8>>;

/// Calls `lz4_flex::compress_prepend_size`: LZ4 block compression with the
/// input length prepended as a little-endian `u32`. The output is named; as
/// the crate documents, `decompress_size_prepended` gives the input back
/// whenever its length fits that `u32`.
#[verifier::external_body]
fn lz4_compress(data: &[u8]) -> (r: Vec<u8>)
    ensures
        r@ == lz4_compressed(data@),
        data@.len() <= u32::MAX ==> lz4_decompressed(r@) == Some(data@),
{
    lz4_flex::compress_prepend_size(data)
}

/// Calls `lz4_flex::decompress_size_prepended`; its result is named. The
/// crate allocates the size that the first four bytes claim before it reads
/// the block, so a claim larger than the memory at hand ends the process
/// rather than returning an error; nothing here states that limit.
#[verifier::external_body]
fn lz4_decompress(data: &[u8]) -> (r: Option<Vec<u8>>)
    ensures
        r matches Some(v) ==> lz4_decompressed(data@) == Some(v@),
        r is None <==> lz4_decompressed(data@) is None,
{
    lz4_flex::decompress_size_prepended(data).ok()
}

/// Failure of columnar storage operations.
#[derive(Debug, Clone, PartialEq, Eq)]
pub enum ColumnarError {
    /// Stored column data did not decompress.
    Decompression,
}

/// The stored form of column data.
pub fn compress_data(data: &[u8], compression: CompressionType) -> (r: Vec<u8>)
    ensures
        r@ == match compression {
            CompressionType::Plain => data@,
            CompressionType::Lz4 => lz4_compressed(data@),
        },
        data@.len() <= u32::MAX ==> match compression {
            CompressionType::Plain => r@ == data@,
            CompressionType::Lz4 => lz4_decompressed(r@) == Some(data@),
        },
{
    match compression {
        CompressionType::Plain => {
            let mut v: Vec<u8> = Vec::new();
            crate::bytes::push_all(&mut v, data);
            v
        },
        CompressionType::Lz4 => lz4_compress(data),
    }
}

/// Column data back from its stored form.
pub fn decompress_data(data: &[u8], compression: CompressionType) -> (r: Result<
    Vec<u8>,
    ColumnarError,
>)
    ensures
        match compression {
            CompressionType::Plain => r matches Ok(v) && v@ == data@,
            CompressionType::Lz4 => match r {
                Ok(v) => lz4_decompressed(data@) == Some(v@),
                Err(e) => e == ColumnarError::Decompression && lz4_decompressed(data@) is None,
            },
        },
{
    match compression {
        CompressionType::Plain => {
            let mut v: Vec<u8> = Vec::new();
            crate::bytes::push_all(&mut v, data);
            Ok(v)
        },
        CompressionType::Lz4 => match lz4_decompress(data) {
            Some(v) => Ok(v),
            None => Err(ColumnarError::Decompression),
        },
    }
}

} // verus!
