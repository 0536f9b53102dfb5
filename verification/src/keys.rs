//! Key layouts of a collection's column family: documents, index entries,
//! index metadata, blob chunks, TTL expiry entries and document versions.
use vstd::prelude::*;
use vstd::utf8::{encode_utf8, encode_utf8_valid_utf8, valid_utf8, valid_utf8_concat};
use crate::bytes::{
    all_ascii, bytes_lt, lemma_ascii_valid_utf8, lossy_text, push_all, push_str, string_from_utf8,
    utf8_lossy,
};
use crate::codec::{encode_key, spec_encode_key, KeyValue, KeyValueView};
use crate::digits::{
    all_dec_digits, dec_digits, dec_value, fixed_digits, parse_dec, push_dec, push_fixed_digits,
};

verus! {

broadcast use vstd::seq_lib::group_seq_properties;

/// Key prefixes for the kinds of entries a collection holds.
pub const DOC_PREFIX: &'static str = "doc:";
pub const IDX_PREFIX: &'static str = "idx:";
pub const IDX_META_PREFIX: &'static str = "idx_meta:";
pub const GEO_PREFIX: &'static str = "geo:";
pub const GEO_META_PREFIX: &'static str = "geo_meta:";
pub const FT_PREFIX: &'static str = "ft:";
pub const FT_META_PREFIX: &'static str = "ft_meta:";
pub const FT_TERM_PREFIX: &'static str = "ft_term:";
pub const STATS_COUNT_KEY: &'static str = "_stats:count";
pub const SHARD_CONFIG_KEY: &'static str = "_stats:shard_config";
pub const SHARD_TABLE_KEY: &'static str = "_stats:shard_table";
pub const COLLECTION_TYPE_KEY: &'static str = "_stats:type";
pub const BLO_PREFIX: &'static str = "blo:";
pub const TTL_META_PREFIX: &'static str = "ttl_meta:";
pub const TTL_EXPIRY_PREFIX: &'static str = "ttl_exp:";
/// Expiry entries of older releases lived under `doc:ttl_exp::<index>:`.
pub const LEGACY_TTL_EXPIRY_PREFIX: &'static str = "doc:ttl_exp:";
pub const BLO_IDX_PREFIX: &'static str = "blo_idx:";
pub const CFO_IDX_PREFIX: &'static str = "cfo_idx:";
pub const SCHEMA_KEY: &'static str = "_stats:schema";
pub const VEC_META_PREFIX: &'static str = "vec_meta:";
pub const VEC_DATA_PREFIX: &'static str = "vec_data:";
pub const DOCV_PREFIX: &'static str = "docv:";
pub const NGRAM_SIZE: usize = 3;

/// The separator byte `:`.
pub const COLON: u8 = 0x3a;
/// The separator byte `_` between the values of a compound index entry.
pub const UNDERSCORE: u8 = 0x5f;

/// Width of the zero-padded expiry timestamp in TTL expiry keys.
pub const EXPIRY_TS_WIDTH: usize = 20;
/// Width of the hex version stamp in version keys.
pub const VERSION_STAMP_WIDTH: usize = 16;

/// A collection, as far as its key layout is concerned: its column family
/// name.
pub struct Collection {
    pub name: String,
}

/// `p` followed by `a`.
pub open spec fn key1(p: &str, a: Seq<u8>) -> Seq<u8> {
    encode_utf8(p@) + a
}

/// `p`, `a`, `:`, `b`.
pub open spec fn key2(p: &str, a: Seq<u8>, b: Seq<u8>) -> Seq<u8> {
    encode_utf8(p@) + a + seq![COLON] + b
}

/// `p`, `a`, `:`, `b`, `:`, `c`.
pub open spec fn key3(p: &str, a: Seq<u8>, b: Seq<u8>, c: Seq<u8>) -> Seq<u8> {
    encode_utf8(p@) + a + seq![COLON] + b + seq![COLON] + c
}

/// Lower-case hex of a byte string, two digits per byte.
pub open spec fn hex_lower(s: Seq<u8>) -> Seq<u8>
    decreases s.len(),
{
    if s.len() == 0 {
        seq![]
    } else {
        hex_lower(s.drop_last()) + fixed_digits(s.last() as nat, 2, 16)
    }
}

/// The value part of an index entry key: the hex of each value's encoded
/// key, joined with `_`.
pub open spec fn index_value_part(values: Seq<KeyValueView>) -> Seq<u8>
    decreases values.len(),
{
    if values.len() == 0 {
        seq![]
    } else if values.len() == 1 {
        hex_lower(spec_encode_key(values[0]))
    } else {
        index_value_part(values.drop_last()) + seq![UNDERSCORE] + hex_lower(
            spec_encode_key(values.last()),
        )
    }
}

/// `ttl_exp:<index>:<expiry, 20 digits>:<doc_key>`.
pub open spec fn spec_ttl_expiry_key(index: Seq<u8>, ts: u64, doc_key: Seq<u8>) -> Seq<u8> {
    key3(TTL_EXPIRY_PREFIX, index, fixed_digits(ts as nat, 20, 10), doc_key)
}

/// `ttl_exp:<index>:`.
pub open spec fn spec_ttl_expiry_prefix(index: Seq<u8>) -> Seq<u8> {
    encode_utf8(TTL_EXPIRY_PREFIX@) + index + seq![COLON]
}

/// `docv:<key>:<u64::MAX - ts, 16 hex digits>`.
pub open spec fn spec_version_key(key: Seq<u8>, ts: u64) -> Seq<u8> {
    key2(DOCV_PREFIX, key, fixed_digits((u64::MAX - ts) as nat, 16, 16))
}

/// What `parse_expiry_suffix` reads from the part of an expiry key after
/// `ttl_exp:<index>:`.
pub open spec fn spec_parse_expiry_suffix(rest: Seq<u8>) -> Option<(u64, Seq<char>)> {
    if rest.len() < 22 || rest[20] != COLON || !all_dec_digits(rest.subrange(0, 20)) {
        None
    } else if dec_value(rest.subrange(0, 20)) > u64::MAX {
        None
    } else {
        Some(
            (
                dec_value(rest.subrange(0, 20)) as u64,
                lossy_text(rest.subrange(21, rest.len() as int)),
            ),
        )
    }
}

/// Index of the first `b` in `s` at or after `i`.
pub open spec fn find_from(s: Seq<u8>, b: u8, i: int) -> Option<int>
    decreases s.len() - i,
{
    if i < 0 || i >= s.len() {
        None
    } else if s[i] == b {
        Some(i)
    } else {
        find_from(s, b, i + 1)
    }
}

/// The first `b` at or after `i`: every byte before it differs.
pub proof fn lemma_find_from(s: Seq<u8>, b: u8, i: int)
    requires
        0 <= i,
    ensures
        match find_from(s, b, i) {
            Some(c) => i <= c < s.len() && s[c] == b && forall|j: int| i <= j < c ==> s[j] != b,
            None => forall|j: int| i <= j < s.len() ==> s[j] != b,
        },
    decreases s.len() - i,
{
    if i < s.len() && s[i] != b {
        lemma_find_from(s, b, i + 1);
    }
}

/// The value part of an index entry key.
pub fn index_value_bytes(values: &[KeyValue]) -> (r: Vec<u8>)
    ensures
        r@ == index_value_part(values@.map_values(|v: KeyValue| v@)),
{
    let ghost views = values@.map_values(|v: KeyValue| v@);
    let mut part: Vec<u8> = Vec::new();
    let mut i: usize = 0;
    while i < values.len()
        invariant
            i <= values@.len(),
            views == values@.map_values(|v: KeyValue| v@),
            part@ == index_value_part(views.subrange(0, i as int)),
        decreases values@.len() - i,
    {
        if i > 0 {
            part.push(UNDERSCORE);
        }
        let enc = encode_key(&values[i]);
        push_hex(&mut part, enc.as_slice());
        i = i + 1;
        assert(views.subrange(0, i as int).drop_last() =~= views.subrange(0, i - 1 as int));
        assert(views.subrange(0, i as int).last() == values@[i - 1]@);
        assert(part@ =~= index_value_part(views.subrange(0, i as int)));
    }
    assert(views.subrange(0, values@.len() as int) =~= views);
    part
}

/// Position of the first `b` in `s`.
pub fn find_byte(s: &[u8], b: u8) -> (r: Option<usize>)
    ensures
        match r {
            Some(c) => find_from(s@, b, 0) == Some(c as int),
            None => find_from(s@, b, 0) is None,
        },
{
    let mut c: usize = 0;
    while c < s.len() && s[c] != b
        invariant
            c <= s@.len(),
            find_from(s@, b, 0) == find_from(s@, b, c as int),
        decreases s@.len() - c,
    {
        c = c + 1;
    }
    if c == s.len() {
        None
    } else {
        Some(c)
    }
}

/// What `parse_legacy_expiry_suffix` reads from `<ts>:<doc_key>`.
pub open spec fn spec_parse_legacy_expiry_suffix(rest: Seq<u8>) -> Option<(u64, Seq<char>)> {
    match find_from(rest, COLON, 0) {
        None => None,
        Some(c) => {
            if c == 0 || !all_dec_digits(rest.subrange(0, c)) || dec_value(rest.subrange(0, c))
                > u64::MAX {
                None
            } else {
                Some(
                    (
                        dec_value(rest.subrange(0, c)) as u64,
                        lossy_text(rest.subrange(c + 1, rest.len() as int)),
                    ),
                )
            }
        },
    }
}

fn build1(p: &str, a: &str) -> (r: Vec<u8>)
    ensures
        r@ == key1(p, encode_utf8(a@)),
{
    let mut k: Vec<u8> = Vec::new();
    push_str(&mut k, p);
    push_str(&mut k, a);
    k
}

fn build2(p: &str, a: &str, b: &str) -> (r: Vec<u8>)
    ensures
        r@ == key2(p, encode_utf8(a@), encode_utf8(b@)),
{
    let mut k: Vec<u8> = Vec::new();
    push_str(&mut k, p);
    push_str(&mut k, a);
    k.push(COLON);
    push_str(&mut k, b);
    k
}

fn build3(p: &str, a: &str, b: &str, c: &str) -> (r: Vec<u8>)
    ensures
        r@ == key3(p, encode_utf8(a@), encode_utf8(b@), encode_utf8(c@)),
{
    let mut k: Vec<u8> = Vec::new();
    push_str(&mut k, p);
    push_str(&mut k, a);
    k.push(COLON);
    push_str(&mut k, b);
    k.push(COLON);
    push_str(&mut k, c);
    k
}

/// Append the lower-case hex of `s`.
pub fn push_hex(dst: &mut Vec<u8>, s: &[u8])
    ensures
        final(dst)@ == old(dst)@ + hex_lower(s@),
{
    let mut i: usize = 0;
    while i < s.len()
        invariant
            i <= s@.len(),
            dst@ == old(dst)@ + hex_lower(s@.subrange(0, i as int)),
        decreases s@.len() - i,
    {
        push_fixed_digits(dst, s[i] as u64, 2, 16);
        i = i + 1;
        assert(s@.subrange(0, i as int).drop_last() =~= s@.subrange(0, i - 1 as int));
        assert(dst@ =~= old(dst)@ + hex_lower(s@.subrange(0, i as int)));
    }
    assert(s@.subrange(0, s@.len() as int) =~= s@);
}

impl Collection {
    /// Document key: `doc:<key>`.
    pub fn doc_key(key: &str) -> (r: Vec<u8>)
        ensures
            r@ == key1(DOC_PREFIX, encode_utf8(key@)),
    {
        build1(DOC_PREFIX, key)
    }

    /// Index metadata key: `idx_meta:<name>`.
    pub fn idx_meta_key(name: &str) -> (r: Vec<u8>)
        ensures
            r@ == key1(IDX_META_PREFIX, encode_utf8(name@)),
    {
        build1(IDX_META_PREFIX, name)
    }

    /// Index entry key: `idx:<name>:<values>:<doc_key>`, where the values part
    /// is the hex of each value's binary-comparable key, joined with `_`.
    pub fn idx_entry_key(index_name: &str, values: &[KeyValue], doc_key: &str) -> (r: Vec<u8>)
        ensures
            r@ == key3(
                IDX_PREFIX,
                encode_utf8(index_name@),
                index_value_part(values@.map_values(|v: KeyValue| v@)),
                encode_utf8(doc_key@),
            ),
    {
        let part = index_value_bytes(values);
        let mut k: Vec<u8> = Vec::new();
        push_str(&mut k, IDX_PREFIX);
        push_str(&mut k, index_name);
        k.push(COLON);
        push_all(&mut k, part.as_slice());
        k.push(COLON);
        push_str(&mut k, doc_key);
        k
    }

    /// Geo index metadata key: `geo_meta:<name>`.
    pub fn geo_meta_key(name: &str) -> (r: Vec<u8>)
        ensures
            r@ == key1(GEO_META_PREFIX, encode_utf8(name@)),
    {
        build1(GEO_META_PREFIX, name)
    }

    /// Geo entry key: `geo:<name>:<doc_key>`.
    pub fn geo_entry_key(index_name: &str, doc_key: &str) -> (r: Vec<u8>)
        ensures
            r@ == key2(GEO_PREFIX, encode_utf8(index_name@), encode_utf8(doc_key@)),
    {
        build2(GEO_PREFIX, index_name, doc_key)
    }

    /// Fulltext index metadata key: `ft_meta:<name>`.
    pub fn ft_meta_key(name: &str) -> (r: Vec<u8>)
        ensures
            r@ == key1(FT_META_PREFIX, encode_utf8(name@)),
    {
        build1(FT_META_PREFIX, name)
    }

    /// Fulltext term key: `ft_term:<index>:<term>:<doc_key>`.
    pub fn ft_term_key(index_name: &str, term: &str, doc_key: &str) -> (r: Vec<u8>)
        ensures
            r@ == key3(
                FT_TERM_PREFIX,
                encode_utf8(index_name@),
                encode_utf8(term@),
                encode_utf8(doc_key@),
            ),
    {
        build3(FT_TERM_PREFIX, index_name, term, doc_key)
    }

    /// Fulltext n-gram key: `ft:<index>:<ngram>:<doc_key>`.
    pub fn ft_ngram_key(index_name: &str, ngram: &str, doc_key: &str) -> (r: Vec<u8>)
        ensures
            r@ == key3(
                FT_PREFIX,
                encode_utf8(index_name@),
                encode_utf8(ngram@),
                encode_utf8(doc_key@),
            ),
    {
        build3(FT_PREFIX, index_name, ngram, doc_key)
    }

    /// Blob chunk key: `blo:<key>:<chunk_index>` (decimal, unpadded).
    pub fn blo_chunk_key(key: &str, chunk_index: usize) -> (r: Vec<u8>)
        ensures
            r@ == key2(BLO_PREFIX, encode_utf8(key@), dec_digits(chunk_index as nat)),
    {
        let mut k: Vec<u8> = Vec::new();
        push_str(&mut k, BLO_PREFIX);
        push_str(&mut k, key);
        k.push(COLON);
        push_dec(&mut k, chunk_index as u64);
        k
    }

    /// TTL index metadata key: `ttl_meta:<name>`.
    pub fn ttl_meta_key(name: &str) -> (r: Vec<u8>)
        ensures
            r@ == key1(TTL_META_PREFIX, encode_utf8(name@)),
    {
        build1(TTL_META_PREFIX, name)
    }

    /// TTL expiry key: `ttl_exp:<index>:<expiry>:<doc_key>`, the expiry
    /// zero-padded to 20 digits so that byte order is time order.
    pub fn ttl_expiry_key(ttl_index_name: &str, expiry_timestamp: u64, doc_key: &str) -> (r: Vec<
        u8,
    >)
        ensures
            r@ == spec_ttl_expiry_key(
                encode_utf8(ttl_index_name@),
                expiry_timestamp,
                encode_utf8(doc_key@),
            ),
    {
        let mut k: Vec<u8> = Vec::new();
        push_str(&mut k, TTL_EXPIRY_PREFIX);
        push_str(&mut k, ttl_index_name);
        k.push(COLON);
        push_fixed_digits(&mut k, expiry_timestamp, EXPIRY_TS_WIDTH, 10);
        k.push(COLON);
        push_str(&mut k, doc_key);
        k
    }

    /// Prefix of one TTL index's expiry entries: `ttl_exp:<index>:`.
    pub fn ttl_expiry_prefix(ttl_index_name: &str) -> (r: Vec<u8>)
        ensures
            r@ == spec_ttl_expiry_prefix(encode_utf8(ttl_index_name@)),
    {
        let mut k: Vec<u8> = Vec::new();
        push_str(&mut k, TTL_EXPIRY_PREFIX);
        push_str(&mut k, ttl_index_name);
        k.push(COLON);
        k
    }

    /// Prefix of one TTL index's legacy expiry entries: `doc:ttl_exp::<index>:`.
    pub fn legacy_ttl_expiry_prefix(ttl_index_name: &str) -> (r: Vec<u8>)
        ensures
            r@ == encode_utf8(LEGACY_TTL_EXPIRY_PREFIX@) + seq![COLON] + encode_utf8(
                ttl_index_name@,
            ) + seq![COLON],
    {
        let mut k: Vec<u8> = Vec::new();
        push_str(&mut k, LEGACY_TTL_EXPIRY_PREFIX);
        k.push(COLON);
        push_str(&mut k, ttl_index_name);
        k.push(COLON);
        k
    }

    /// Vector index metadata key: `vec_meta:<name>`.
    pub fn vec_meta_key(name: &str) -> (r: Vec<u8>)
        ensures
            r@ == key1(VEC_META_PREFIX, encode_utf8(name@)),
    {
        build1(VEC_META_PREFIX, name)
    }

    /// Vector index data key: `vec_data:<name>`.
    pub fn vec_data_key(name: &str) -> (r: Vec<u8>)
        ensures
            r@ == key1(VEC_DATA_PREFIX, encode_utf8(name@)),
    {
        build1(VEC_DATA_PREFIX, name)
    }

    /// Read `<20-digit ts>:<doc_key>`, the part of a current expiry entry
    /// after its index prefix.
    pub fn parse_expiry_suffix(rest: &[u8]) -> (r: Option<(u64, String)>)
        ensures
            match r {
                Some((ts, key)) => spec_parse_expiry_suffix(rest@) == Some((ts, key@)),
                None => spec_parse_expiry_suffix(rest@) is None,
            },
    {
        if rest.len() < 22 || rest[20] != COLON {
            return None;
        }
        let mut digits: Vec<u8> = Vec::new();
        let mut i: usize = 0;
        while i < 20
            invariant
                i <= 20,
                rest@.len() >= 22,
                digits@ == rest@.subrange(0, i as int),
                all_dec_digits(digits@),
            decreases 20 - i,
        {
            let b = rest[i];
            if b < 48u8 || b > 57u8 {
                assert(rest@.subrange(0, 20)[i as int] == b);
                return None;
            }
            digits.push(b);
            i = i + 1;
            assert(digits@ =~= rest@.subrange(0, i as int));
        }
        let ts = match parse_dec(digits.as_slice()) {
            Some(v) => v,
            None => {
                return None;
            },
        };
        let mut tail: Vec<u8> = Vec::new();
        let mut j: usize = 21;
        while j < rest.len()
            invariant
                21 <= j <= rest@.len(),
                tail@ == rest@.subrange(21, j as int),
            decreases rest@.len() - j,
        {
            tail.push(rest[j]);
            j = j + 1;
            assert(tail@ =~= rest@.subrange(21, j as int));
        }
        Some((ts, utf8_lossy(tail.as_slice())))
    }

    /// Read `<ts>:<doc_key>`, the part of a legacy (unpadded) expiry entry
    /// after its index prefix.
    pub fn parse_legacy_expiry_suffix(rest: &[u8]) -> (r: Option<(u64, String)>)
        ensures
            match r {
                Some((ts, key)) => spec_parse_legacy_expiry_suffix(rest@) == Some((ts, key@)),
                None => spec_parse_legacy_expiry_suffix(rest@) is None,
            },
    {
        let c: usize = match find_byte(rest, COLON) {
            Some(c) => c,
            None => {
                return None;
            },
        };
        proof {
            lemma_find_from(rest@, COLON, 0);
        }
        assert(c < rest.len());
        if c == 0 {
            return None;
        }
        let mut digits: Vec<u8> = Vec::new();
        let mut i: usize = 0;
        while i < c
            invariant
                i <= c < rest@.len(),
                find_from(rest@, COLON, 0) == Some(c as int),
                digits@ == rest@.subrange(0, i as int),
                all_dec_digits(digits@),
            decreases c - i,
        {
            let b = rest[i];
            if b < 48u8 || b > 57u8 {
                assert(rest@.subrange(0, c as int)[i as int] == b);
                return None;
            }
            digits.push(b);
            i = i + 1;
            assert(digits@ =~= rest@.subrange(0, i as int));
        }
        let ts = match parse_dec(digits.as_slice()) {
            Some(v) => v,
            None => {
                return None;
            },
        };
        let mut tail: Vec<u8> = Vec::new();
        let mut j: usize = c + 1;
        while j < rest.len()
            invariant
                c + 1 <= j <= rest@.len(),
                tail@ == rest@.subrange(c + 1, j as int),
            decreases rest@.len() - j,
        {
            tail.push(rest[j]);
            j = j + 1;
            assert(tail@ =~= rest@.subrange(c + 1, j as int));
        }
        Some((ts, utf8_lossy(tail.as_slice())))
    }

    /// Prefix of one document's versions: `docv:<key>:`.
    pub fn version_prefix(key: &str) -> (r: String)
        ensures
            encode_utf8(r@) == encode_utf8(DOCV_PREFIX@) + encode_utf8(key@) + seq![COLON],
    {
        let mut k: Vec<u8> = Vec::new();
        push_str(&mut k, DOCV_PREFIX);
        push_str(&mut k, key);
        k.push(COLON);
        proof {
            encode_utf8_valid_utf8(DOCV_PREFIX@);
            encode_utf8_valid_utf8(key@);
            lemma_ascii_valid_utf8(seq![COLON]);
            valid_utf8_concat(encode_utf8(DOCV_PREFIX@), encode_utf8(key@));
            valid_utf8_concat(encode_utf8(DOCV_PREFIX@) + encode_utf8(key@), seq![COLON]);
            assert(k@ =~= encode_utf8(DOCV_PREFIX@) + encode_utf8(key@) + seq![COLON]);
        }
        string_from_utf8(k.as_slice())
    }

    /// Version key: `docv:<key>:<u64::MAX - ts as 16 hex digits>`, so that
    /// the newest version of a document sorts first.
    pub fn version_key(key: &str, ts_micros: u64) -> (r: String)
        ensures
            encode_utf8(r@) == spec_version_key(encode_utf8(key@), ts_micros),
    {
        let mut k: Vec<u8> = Vec::new();
        push_str(&mut k, DOCV_PREFIX);
        push_str(&mut k, key);
        k.push(COLON);
        push_fixed_digits(&mut k, u64::MAX - ts_micros, VERSION_STAMP_WIDTH, 16);
        proof {
            let stamp = fixed_digits((u64::MAX - ts_micros) as nat, 16, 16);
            lemma_hex_digits_ascii((u64::MAX - ts_micros) as nat, 16);
            encode_utf8_valid_utf8(DOCV_PREFIX@);
            encode_utf8_valid_utf8(key@);
            lemma_ascii_valid_utf8(seq![COLON] + stamp);
            valid_utf8_concat(encode_utf8(DOCV_PREFIX@), encode_utf8(key@));
            valid_utf8_concat(encode_utf8(DOCV_PREFIX@) + encode_utf8(key@), seq![COLON] + stamp);
            assert(k@ =~= encode_utf8(DOCV_PREFIX@) + encode_utf8(key@) + (seq![COLON] + stamp));
        }
        string_from_utf8(k.as_slice())
    }
}

/// Digits in any base up to 16 are ASCII.
pub proof fn lemma_hex_digits_ascii(n: nat, width: nat)
    ensures
        all_ascii(fixed_digits(n, width, 16)),
    decreases width,
{
    if width > 0 {
        lemma_hex_digits_ascii(n / 16, (width - 1) as nat);
    }
}

} // verus!
