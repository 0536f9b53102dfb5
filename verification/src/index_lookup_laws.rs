//! Laws of index lookups and prefix scans.
use vstd::prelude::*;
use vstd::utf8::encode_utf8;
use crate::bytes::{has_prefix, lossy_text};
use crate::codec::KeyValueView;
use crate::index_lookup::{first_n, named_doc_key, spec_index_prefix, spec_value_prefix};
use crate::keys::{
    index_value_part, key1, key2, key3, BLO_PREFIX, DOC_PREFIX, FT_PREFIX, FT_TERM_PREFIX, GEO_PREFIX,
    IDX_PREFIX,
};
use crate::digits::dec_digits;
use crate::scans::{live_count, prefix_run, spec_blob_prefix, spec_name_prefix};

verus! {

/// The entries of one value lie under the entries of its index.
pub proof fn value_prefix_lies_under_index_prefix(name: Seq<char>, value: KeyValueView)
    ensures
        has_prefix(spec_value_prefix(name, value), spec_index_prefix(name)),
{
    let p = spec_index_prefix(name);
    assert(spec_value_prefix(name, value).subrange(0, p.len() as int) =~= p);
}

/// An equality lookup names the document whose entry it reads: the entry a
/// single-field index holds for a document with that value lies under the
/// value's prefix, and its value gives back the document's key.
pub proof fn lookup_names_the_indexed_document(name: Seq<char>, value: KeyValueView, doc: Seq<char>)
    ensures
        first_n(
            prefix_run(
                seq![(key3(IDX_PREFIX, encode_utf8(name), index_value_part(seq![value]), encode_utf8(doc)), encode_utf8(doc))],
                spec_value_prefix(name, value),
            ).map_values(|e: (Seq<u8>, Seq<u8>)| named_doc_key(e.1)),
            None,
        ) == seq![key1(DOC_PREFIX, encode_utf8(doc))],
{
    let p = spec_value_prefix(name, value);
    let k = key3(IDX_PREFIX, encode_utf8(name), index_value_part(seq![value]), encode_utf8(doc));
    assert(index_value_part(seq![value]) == crate::keys::hex_lower(crate::codec::spec_encode_key(value)));
    assert(k =~= p + encode_utf8(doc));
    assert(k.subrange(0, p.len() as int) =~= p);
    let entries = seq![(k, encode_utf8(doc))];
    assert(entries.drop_first() =~= Seq::<(Seq<u8>, Seq<u8>)>::empty());
    assert(has_prefix(entries[0].0, p));
    assert(prefix_run(entries.drop_first(), p) == Seq::<(Seq<u8>, Seq<u8>)>::empty());
    assert(seq![entries[0]] + Seq::<(Seq<u8>, Seq<u8>)>::empty() =~= entries);
    assert(prefix_run(entries, p) =~= entries);
    vstd::utf8::encode_utf8_valid_utf8(doc);
    vstd::utf8::encode_utf8_decode_utf8(doc);
    assert(lossy_text(encode_utf8(doc)) == doc);
    assert(prefix_run(entries, p).map_values(|e: (Seq<u8>, Seq<u8>)| named_doc_key(e.1)) =~= seq![
        key1(DOC_PREFIX, encode_utf8(doc)),
    ]);
}

/// An entry of the old expiry layout, which sits under `doc:` with an empty
/// value, never counts as a document.
pub proof fn legacy_expiry_entries_are_not_counted(run: Seq<(Seq<u8>, Seq<u8>)>, key: Seq<u8>)
    ensures
        live_count(run.push((key, Seq::<u8>::empty()))) == live_count(run),
{
    assert(run.push((key, Seq::<u8>::empty())).drop_last() =~= run);
}

/// Every entry of a named index lies under that index's prefix, so clearing
/// what a scan from the prefix yields removes all of them: regular entries,
/// geo entries, fulltext terms and n-grams alike.
pub proof fn entries_lie_under_their_index_prefix(name: Seq<char>, part: Seq<u8>, doc: Seq<char>)
    ensures
        has_prefix(key3(IDX_PREFIX, encode_utf8(name), part, encode_utf8(doc)), spec_name_prefix(IDX_PREFIX, name)),
        has_prefix(key2(GEO_PREFIX, encode_utf8(name), encode_utf8(doc)), spec_name_prefix(GEO_PREFIX, name)),
        has_prefix(
            key3(FT_TERM_PREFIX, encode_utf8(name), part, encode_utf8(doc)),
            spec_name_prefix(FT_TERM_PREFIX, name),
        ),
        has_prefix(key3(FT_PREFIX, encode_utf8(name), part, encode_utf8(doc)), spec_name_prefix(FT_PREFIX, name)),
{
    let i = spec_name_prefix(IDX_PREFIX, name);
    assert(key3(IDX_PREFIX, encode_utf8(name), part, encode_utf8(doc)).subrange(0, i.len() as int) =~= i);
    let g = spec_name_prefix(GEO_PREFIX, name);
    assert(key2(GEO_PREFIX, encode_utf8(name), encode_utf8(doc)).subrange(0, g.len() as int) =~= g);
    let t = spec_name_prefix(FT_TERM_PREFIX, name);
    assert(key3(FT_TERM_PREFIX, encode_utf8(name), part, encode_utf8(doc)).subrange(0, t.len() as int) =~= t);
    let n = spec_name_prefix(FT_PREFIX, name);
    assert(key3(FT_PREFIX, encode_utf8(name), part, encode_utf8(doc)).subrange(0, n.len() as int) =~= n);
}

/// Every chunk of a blob lies under the blob's prefix, so deleting what a
/// scan from it yields removes them all.
pub proof fn chunks_lie_under_the_blob_prefix(key: Seq<char>, chunk: nat)
    ensures
        has_prefix(key2(BLO_PREFIX, encode_utf8(key), dec_digits(chunk)), spec_blob_prefix(key)),
{
    let p = spec_blob_prefix(key);
    assert(key2(BLO_PREFIX, encode_utf8(key), dec_digits(chunk)).subrange(0, p.len() as int) =~= p);
}

} // verus!
