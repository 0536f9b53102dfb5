//! What a truncate deletes: one range tombstone over each per-document data
//! prefix. A prefix ends in `:`, and its range ends at the same prefix with
//! that `:` raised to `;`, so a range holds exactly the keys under its
//! prefix; index definitions and collection settings lie under none of them.
use vstd::prelude::*;
use vstd::utf8::{encode_utf8, is_ascii_chars};
use crate::bytes::{bytes_lt, has_prefix, lemma_bytes_lt_first_difference, push_str};
use crate::keys::{
    BLO_IDX_PREFIX, BLO_PREFIX, CFO_IDX_PREFIX, COLON, DOC_PREFIX, FT_META_PREFIX, FT_PREFIX,
    FT_TERM_PREFIX, GEO_META_PREFIX, GEO_PREFIX, IDX_META_PREFIX, IDX_PREFIX, TTL_EXPIRY_PREFIX,
    TTL_META_PREFIX, VEC_DATA_PREFIX, VEC_META_PREFIX,
};

verus! {

/// Temporary chunks of a resumable blob upload.
pub const BLO_TMP_PREFIX: &'static str = "blo_tmp:";

/// Collection settings: the document count, shard configuration and table,
/// collection type and schema.
pub const STATS_PREFIX: &'static str = "_stats:";

/// The byte after `:`.
pub const SEMICOLON: u8 = 0x3b;

/// Whether a range tombstone over `[start, end)` covers `k`.
pub open spec fn in_range(k: Seq<u8>, start: Seq<u8>, end: Seq<u8>) -> bool {
    !bytes_lt(k, start) && bytes_lt(k, end)
}

/// Where the range of a data prefix ends: the prefix with its final `:`
/// raised to `;`.
pub open spec fn range_end(p: Seq<u8>) -> Seq<u8> {
    p.drop_last().push(SEMICOLON)
}

/// The per-document data prefixes: documents (with the old nested expiry
/// entries), expiry entries, index entries, geo entries, fulltext n-gram
/// and term entries, blob chunks, upload chunks, and the blob and cuckoo
/// filter indexes.
pub open spec fn data_prefixes() -> Seq<Seq<u8>> {
    seq![
        encode_utf8(DOC_PREFIX@),
        encode_utf8(TTL_EXPIRY_PREFIX@),
        encode_utf8(IDX_PREFIX@),
        encode_utf8(GEO_PREFIX@),
        encode_utf8(FT_PREFIX@),
        encode_utf8(FT_TERM_PREFIX@),
        encode_utf8(BLO_PREFIX@),
        encode_utf8(BLO_TMP_PREFIX@),
        encode_utf8(BLO_IDX_PREFIX@),
        encode_utf8(CFO_IDX_PREFIX@),
    ]
}

/// The prefixes of what a truncate keeps: index, geo, fulltext, TTL and
/// vector index definitions, vector index data (emptied separately) and the
/// collection's settings.
pub open spec fn definition_prefixes() -> Seq<Seq<u8>> {
    seq![
        encode_utf8(IDX_META_PREFIX@),
        encode_utf8(GEO_META_PREFIX@),
        encode_utf8(FT_META_PREFIX@),
        encode_utf8(TTL_META_PREFIX@),
        encode_utf8(VEC_META_PREFIX@),
        encode_utf8(VEC_DATA_PREFIX@),
        encode_utf8(STATS_PREFIX@),
    ]
}

/// The ranges a truncate deletes, one per data prefix.
pub open spec fn spec_truncate_ranges() -> Seq<(Seq<u8>, Seq<u8>)> {
    data_prefixes().map_values(|p: Seq<u8>| (p, range_end(p)))
}

pub open spec fn range_views(r: Seq<(Vec<u8>, Vec<u8>)>) -> Seq<(Seq<u8>, Seq<u8>)> {
    r.map_values(|e: (Vec<u8>, Vec<u8>)| (e.0@, e.1@))
}

proof fn lemma_ascii_bytes(s: Seq<char>)
    requires
        is_ascii_chars(s),
    ensures
        encode_utf8(s) =~= s.map_values(|c: char| c as u8),
{
    vstd::utf8::is_ascii_chars_encode_utf8(s);
}

/// The bytes of the data prefixes.
pub proof fn lemma_data_prefix_bytes()
    ensures
        data_prefixes()[0] == seq![0x64u8, 0x6f, 0x63, 0x3a],
        data_prefixes()[1] == seq![0x74u8, 0x74, 0x6c, 0x5f, 0x65, 0x78, 0x70, 0x3a],
        data_prefixes()[2] == seq![0x69u8, 0x64, 0x78, 0x3a],
        data_prefixes()[3] == seq![0x67u8, 0x65, 0x6f, 0x3a],
        data_prefixes()[4] == seq![0x66u8, 0x74, 0x3a],
        data_prefixes()[5] == seq![0x66u8, 0x74, 0x5f, 0x74, 0x65, 0x72, 0x6d, 0x3a],
        data_prefixes()[6] == seq![0x62u8, 0x6c, 0x6f, 0x3a],
        data_prefixes()[7] == seq![0x62u8, 0x6c, 0x6f, 0x5f, 0x74, 0x6d, 0x70, 0x3a],
        data_prefixes()[8] == seq![0x62u8, 0x6c, 0x6f, 0x5f, 0x69, 0x64, 0x78, 0x3a],
        data_prefixes()[9] == seq![0x63u8, 0x66, 0x6f, 0x5f, 0x69, 0x64, 0x78, 0x3a],
{
    reveal_strlit("doc:");
    reveal_strlit("ttl_exp:");
    reveal_strlit("idx:");
    reveal_strlit("geo:");
    reveal_strlit("ft:");
    reveal_strlit("ft_term:");
    reveal_strlit("blo:");
    reveal_strlit("blo_tmp:");
    reveal_strlit("blo_idx:");
    reveal_strlit("cfo_idx:");
    lemma_ascii_bytes(DOC_PREFIX@);
    lemma_ascii_bytes(TTL_EXPIRY_PREFIX@);
    lemma_ascii_bytes(IDX_PREFIX@);
    lemma_ascii_bytes(GEO_PREFIX@);
    lemma_ascii_bytes(FT_PREFIX@);
    lemma_ascii_bytes(FT_TERM_PREFIX@);
    lemma_ascii_bytes(BLO_PREFIX@);
    lemma_ascii_bytes(BLO_TMP_PREFIX@);
    lemma_ascii_bytes(BLO_IDX_PREFIX@);
    lemma_ascii_bytes(CFO_IDX_PREFIX@);
}

/// The bytes of the definition prefixes.
pub proof fn lemma_definition_prefix_bytes()
    ensures
        definition_prefixes()[0] == seq![0x69u8, 0x64, 0x78, 0x5f, 0x6d, 0x65, 0x74, 0x61, 0x3a],
        definition_prefixes()[1] == seq![0x67u8, 0x65, 0x6f, 0x5f, 0x6d, 0x65, 0x74, 0x61, 0x3a],
        definition_prefixes()[2] == seq![0x66u8, 0x74, 0x5f, 0x6d, 0x65, 0x74, 0x61, 0x3a],
        definition_prefixes()[3] == seq![0x74u8, 0x74, 0x6c, 0x5f, 0x6d, 0x65, 0x74, 0x61, 0x3a],
        definition_prefixes()[4] == seq![0x76u8, 0x65, 0x63, 0x5f, 0x6d, 0x65, 0x74, 0x61, 0x3a],
        definition_prefixes()[5] == seq![0x76u8, 0x65, 0x63, 0x5f, 0x64, 0x61, 0x74, 0x61, 0x3a],
        definition_prefixes()[6] == seq![0x5fu8, 0x73, 0x74, 0x61, 0x74, 0x73, 0x3a],
{
    reveal_strlit("idx_meta:");
    reveal_strlit("geo_meta:");
    reveal_strlit("ft_meta:");
    reveal_strlit("ttl_meta:");
    reveal_strlit("vec_meta:");
    reveal_strlit("vec_data:");
    reveal_strlit("_stats:");
    lemma_ascii_bytes(IDX_META_PREFIX@);
    lemma_ascii_bytes(GEO_META_PREFIX@);
    lemma_ascii_bytes(FT_META_PREFIX@);
    lemma_ascii_bytes(TTL_META_PREFIX@);
    lemma_ascii_bytes(VEC_META_PREFIX@);
    lemma_ascii_bytes(VEC_DATA_PREFIX@);
    lemma_ascii_bytes(STATS_PREFIX@);
}

/// Appends the range of one data prefix.
fn push_range(r: &mut Vec<(Vec<u8>, Vec<u8>)>, prefix: &str)
    requires
        encode_utf8(prefix@).len() > 0,
    ensures
        range_views(final(r)@) == range_views(old(r)@).push(
            (encode_utf8(prefix@), range_end(encode_utf8(prefix@))),
        ),
{
    let mut start: Vec<u8> = Vec::new();
    push_str(&mut start, prefix);
    let mut end: Vec<u8> = Vec::new();
    push_str(&mut end, prefix);
    let n = end.len();
    end.set(n - 1, SEMICOLON);
    assert(end@ =~= range_end(encode_utf8(prefix@)));
    let ghost before = r@;
    r.push((start, end));
    assert(range_views(r@) =~= range_views(before).push(
        (encode_utf8(prefix@), range_end(encode_utf8(prefix@))),
    ));
}

/// The ranges a truncate deletes.
pub fn truncate_ranges() -> (r: Vec<(Vec<u8>, Vec<u8>)>)
    ensures
        range_views(r@) == spec_truncate_ranges(),
{
    proof {
        lemma_data_prefix_bytes();
    }
    let mut r: Vec<(Vec<u8>, Vec<u8>)> = Vec::new();
    push_range(&mut r, DOC_PREFIX);
    push_range(&mut r, TTL_EXPIRY_PREFIX);
    push_range(&mut r, IDX_PREFIX);
    push_range(&mut r, GEO_PREFIX);
    push_range(&mut r, FT_PREFIX);
    push_range(&mut r, FT_TERM_PREFIX);
    push_range(&mut r, BLO_PREFIX);
    push_range(&mut r, BLO_TMP_PREFIX);
    push_range(&mut r, BLO_IDX_PREFIX);
    push_range(&mut r, CFO_IDX_PREFIX);
    assert(range_views(r@) =~= spec_truncate_ranges());
    r
}

proof fn lemma_not_below_prefix(k: Seq<u8>, p: Seq<u8>)
    requires
        has_prefix(k, p),
    ensures
        !bytes_lt(k, p),
    decreases p.len(),
{
    if p.len() > 0 {
        assert(k[0] == p[0]) by {
            assert(k.subrange(0, p.len() as int)[0] == p[0]);
        }
        assert(k.drop_first().subrange(0, p.len() - 1) =~= k.subrange(0, p.len() as int).drop_first());
        lemma_not_below_prefix(k.drop_first(), p.drop_first());
    }
}

/// A range of a prefix ending in `:` holds exactly the keys under the
/// prefix.
pub proof fn lemma_range_is_prefix(k: Seq<u8>, p: Seq<u8>)
    requires
        p.len() > 0,
        p.last() == COLON,
    ensures
        in_range(k, p, range_end(p)) <==> has_prefix(k, p),
    decreases p.len(),
{
    let n = p.len();
    let e = range_end(p);
    if has_prefix(k, p) {
        lemma_not_below_prefix(k, p);
        assert forall|i: int| 0 <= i < n - 1 implies k[i] == e[i] by {
            assert(k.subrange(0, n as int)[i] == p[i]);
        }
        assert(k[n - 1] == COLON) by {
            assert(k.subrange(0, n as int)[n - 1] == p[n - 1]);
        }
        lemma_bytes_lt_first_difference(k, e, n - 1);
    } else if in_range(k, p, e) {
        assert(k.len() > 0);
        if n == 1 {
            assert(p[0] == COLON);
            assert(e =~= seq![SEMICOLON]);
            assert(e.drop_first() =~= Seq::<u8>::empty());
            assert(!bytes_lt(k.drop_first(), e.drop_first()));
            assert(k[0] == COLON);
            assert(k.subrange(0, 1) =~= p);
        } else {
            assert(e[0] == p[0]);
            assert(k[0] == p[0]);
            assert(e.drop_first() =~= range_end(p.drop_first()));
            lemma_range_is_prefix(k.drop_first(), p.drop_first());
            assert(k.subrange(0, n as int) =~= seq![k[0]] + k.drop_first().subrange(0, n - 1));
            assert(p =~= seq![p[0]] + p.drop_first());
        }
    }
}

/// A key whose byte at `at` differs from the prefix's does not lie under
/// the prefix.
pub proof fn lemma_not_under(k: Seq<u8>, p: Seq<u8>, at: int)
    requires
        0 <= at < p.len(),
        at < k.len(),
        k[at] != p[at],
    ensures
        !has_prefix(k, p),
{
    if has_prefix(k, p) {
        assert(k.subrange(0, p.len() as int)[at] == p[at]);
    }
}

} // verus!
