//! What the key layouts promise: expiry entries read back and sort by expiry
//! time, and the newest version of a document sorts first.
use vstd::prelude::*;
use vstd::utf8::{decode_utf8, encode_utf8, encode_utf8_decode_utf8, encode_utf8_valid_utf8};
use crate::bytes::{
    bytes_lt, has_prefix, lemma_bytes_lt_asymmetric, lemma_bytes_lt_common_prefix,
    lemma_bytes_lt_extend,
};
use crate::digits::{
    fixed_digits, lemma_fixed_digits_are_digits, lemma_fixed_digits_len, lemma_fixed_digits_order,
    lemma_fixed_digits_value, lemma_u64_fits_sixteen_hex_digits, lemma_u64_fits_twenty_digits,
};
use crate::keys::{
    key2, key3, spec_parse_expiry_suffix, spec_ttl_expiry_key, spec_ttl_expiry_prefix,
    spec_version_key, COLON, DOCV_PREFIX, TTL_EXPIRY_PREFIX,
};

verus! {

broadcast use vstd::seq_lib::group_seq_properties;

proof fn lemma_encode_nonempty(k: Seq<char>)
    requires
        k.len() > 0,
    ensures
        encode_utf8(k).len() > 0,
{
    assert(encode_utf8(k) == vstd::utf8::encode_scalar(k[0] as u32) + encode_utf8(k.drop_first()));
}

/// An expiry entry read after its index prefix gives back the expiry time and
/// the document key (for a non-empty key).
pub proof fn expiry_key_reads_back(index: Seq<u8>, ts: u64, doc_key: Seq<char>)
    requires
        doc_key.len() > 0,
    ensures
        ({
            let key = spec_ttl_expiry_key(index, ts, encode_utf8(doc_key));
            let prefix = spec_ttl_expiry_prefix(index);
            &&& has_prefix(key, prefix)
            &&& spec_parse_expiry_suffix(key.subrange(prefix.len() as int, key.len() as int))
                == Some((ts, doc_key))
        }),
{
    let d = encode_utf8(doc_key);
    let f = fixed_digits(ts as nat, 20, 10);
    let key = spec_ttl_expiry_key(index, ts, d);
    let prefix = spec_ttl_expiry_prefix(index);
    lemma_fixed_digits_len(ts as nat, 20, 10);
    lemma_fixed_digits_are_digits(ts as nat, 20);
    lemma_u64_fits_twenty_digits(ts);
    lemma_fixed_digits_value(ts as nat, 20);
    lemma_encode_nonempty(doc_key);
    encode_utf8_valid_utf8(doc_key);
    encode_utf8_decode_utf8(doc_key);
    assert(key =~= prefix + (f + seq![COLON] + d));
    let rest = key.subrange(prefix.len() as int, key.len() as int);
    assert(rest =~= f + seq![COLON] + d);
    assert(rest.subrange(0, 20) =~= f);
    assert(rest.subrange(21, rest.len() as int) =~= d);
    assert(key.subrange(0, prefix.len() as int) =~= prefix);
}

/// Within one TTL index, an earlier expiry sorts before a later one,
/// whatever the document keys.
pub proof fn expiry_keys_sort_by_time(index: Seq<u8>, t1: u64, t2: u64, d1: Seq<u8>, d2: Seq<u8>)
    requires
        t1 < t2,
    ensures
        bytes_lt(spec_ttl_expiry_key(index, t1, d1), spec_ttl_expiry_key(index, t2, d2)),
{
    let p = spec_ttl_expiry_prefix(index);
    let f1 = fixed_digits(t1 as nat, 20, 10);
    let f2 = fixed_digits(t2 as nat, 20, 10);
    lemma_fixed_digits_len(t1 as nat, 20, 10);
    lemma_fixed_digits_len(t2 as nat, 20, 10);
    lemma_u64_fits_twenty_digits(t2);
    lemma_fixed_digits_order(t1 as nat, t2 as nat, 20, 10);
    lemma_bytes_lt_extend(f1, f2, seq![COLON] + d1, seq![COLON] + d2);
    lemma_bytes_lt_common_prefix(p, f1 + (seq![COLON] + d1), f2 + (seq![COLON] + d2));
    assert(spec_ttl_expiry_key(index, t1, d1) =~= p + (f1 + (seq![COLON] + d1)));
    assert(spec_ttl_expiry_key(index, t2, d2) =~= p + (f2 + (seq![COLON] + d2)));
}

/// Of two versions of one document, the newer one's key sorts first.
pub proof fn newer_version_sorts_first(key: Seq<u8>, older: u64, newer: u64)
    requires
        older < newer,
    ensures
        bytes_lt(spec_version_key(key, newer), spec_version_key(key, older)),
{
    let p = encode_utf8(DOCV_PREFIX@) + key + seq![COLON];
    let a = (u64::MAX - newer) as nat;
    let b = (u64::MAX - older) as nat;
    lemma_u64_fits_sixteen_hex_digits((u64::MAX - older) as u64);
    lemma_fixed_digits_order(a, b, 16, 16);
    lemma_bytes_lt_common_prefix(p, fixed_digits(a, 16, 16), fixed_digits(b, 16, 16));
}

/// A version key lies under its document's version prefix `docv:<key>:`.
pub proof fn version_key_has_document_prefix(key: Seq<u8>, ts: u64)
    ensures
        has_prefix(spec_version_key(key, ts), encode_utf8(DOCV_PREFIX@) + key + seq![COLON]),
{
    let p = encode_utf8(DOCV_PREFIX@) + key + seq![COLON];
    assert(spec_version_key(key, ts).subrange(0, p.len() as int) =~= p);
}

/// A forward seek from the version key of time `as_of` meets exactly the
/// versions stamped at or before `as_of`: their keys do not sort before the
/// seek key, and those of later versions do.
pub proof fn as_of_seek_meets_earlier_versions(key: Seq<u8>, ts: u64, as_of: u64)
    ensures
        (ts <= as_of) == !bytes_lt(spec_version_key(key, ts), spec_version_key(key, as_of)),
{
    if ts > as_of {
        newer_version_sorts_first(key, as_of, ts);
    } else if ts < as_of {
        newer_version_sorts_first(key, ts, as_of);
        lemma_bytes_lt_asymmetric(spec_version_key(key, as_of), spec_version_key(key, ts));
    } else {
        lemma_bytes_lt_asymmetric(spec_version_key(key, ts), spec_version_key(key, ts));
    }
}

} // verus!
