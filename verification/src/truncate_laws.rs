//! Laws of truncation: it deletes every key under a data prefix, and no
//! index definition or collection setting.
use vstd::prelude::*;
use vstd::utf8::encode_utf8;
use crate::bytes::has_prefix;
use crate::keys::{key1, DOC_PREFIX};
use crate::truncate::{
    data_prefixes, definition_prefixes, in_range, lemma_data_prefix_bytes, lemma_definition_prefix_bytes,
    lemma_not_under, lemma_range_is_prefix, spec_truncate_ranges,
};

verus! {

proof fn lemma_data_prefix_ends_in_colon(i: int)
    requires
        0 <= i < data_prefixes().len(),
    ensures
        data_prefixes()[i].len() > 0,
        data_prefixes()[i].last() == crate::keys::COLON,
{
    lemma_data_prefix_bytes();
}

/// A truncate deletes every key under a data prefix: each such key lies in
/// that prefix's range.
pub proof fn truncate_deletes_all_data(k: Seq<u8>, i: int)
    requires
        0 <= i < data_prefixes().len(),
        has_prefix(k, data_prefixes()[i]),
    ensures
        in_range(k, spec_truncate_ranges()[i].0, spec_truncate_ranges()[i].1),
{
    lemma_data_prefix_ends_in_colon(i);
    lemma_range_is_prefix(k, data_prefixes()[i]);
}

/// In particular every document is deleted.
pub proof fn truncate_deletes_every_document(key: Seq<char>)
    ensures
        in_range(
            key1(DOC_PREFIX, encode_utf8(key)),
            spec_truncate_ranges()[0].0,
            spec_truncate_ranges()[0].1,
        ),
{
    let k = key1(DOC_PREFIX, encode_utf8(key));
    assert(k.subrange(0, data_prefixes()[0].len() as int) =~= data_prefixes()[0]);
    truncate_deletes_all_data(k, 0);
}

/// A truncate keeps index definitions, vector index data and collection
/// settings: no key under a definition prefix lies in any deleted range.
pub proof fn truncate_keeps_definitions(k: Seq<u8>, j: int, i: int)
    requires
        0 <= j < definition_prefixes().len(),
        has_prefix(k, definition_prefixes()[j]),
        0 <= i < spec_truncate_ranges().len(),
    ensures
        !in_range(k, spec_truncate_ranges()[i].0, spec_truncate_ranges()[i].1),
{
    lemma_data_prefix_bytes();
    lemma_definition_prefix_bytes();
    lemma_data_prefix_ends_in_colon(i);
    let d = definition_prefixes()[j];
    let p = data_prefixes()[i];
    let at: int = if d[0] != p[0] {
        0
    } else if d[1] != p[1] {
        1
    } else if d[2] != p[2] {
        2
    } else if d[3] != p[3] {
        3
    } else {
        4
    };
    assert(at < d.len() && at < p.len() && d[at] != p[at]);
    assert(k[at] == d[at]) by {
        assert(k.subrange(0, d.len() as int)[at] == d[at]);
    }
    lemma_not_under(k, p, at);
    lemma_range_is_prefix(k, p);
}

} // verus!
