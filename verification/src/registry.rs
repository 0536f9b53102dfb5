//! Collection registry: which collections exist, as `coll:{db}:{name}` keys
//! in the `_meta` column family. The scans and writes are the caller's; this
//! module lays out the keys and reads the scanned keys back.
use vstd::prelude::*;
use vstd::utf8::{decode_utf8, encode_utf8, encode_utf8_valid_utf8, valid_utf8, valid_utf8_concat};
use crate::bytes::{
    contains_byte, has_prefix, lemma_ascii_valid_utf8, push_str, starts_with, str_equal,
    string_from_utf8, tail, utf8_text,
};
use crate::keys::COLON;

verus! {

broadcast use vstd::seq_lib::group_seq_properties;

/// `_meta` key prefix of registry entries.
pub const ENTRY_PREFIX: &'static str = "coll:";
/// Name of the metadata column family.
pub const META_CF: &'static str = "_meta";
/// Name of RocksDB's default column family.
pub const DEFAULT_CF: &'static str = "default";

/// What the registry records about a collection.
pub struct CollectionRecord {
    /// "document", "edge" or "blob".
    pub type_: String,
    /// Milliseconds since the epoch; 0 when unknown.
    pub created_ms: u64,
}

/// The collection type assumed when none is recorded.
pub fn default_type() -> (r: String)
    ensures
        r@ == "document"@,
{
    "document".to_owned()
}

/// Whether the registry can be consulted: the instance has a `_meta`
/// column family among `cf_names`.
pub fn available(cf_names: &Vec<String>) -> (r: bool)
    ensures
        r == exists|i: int| 0 <= i < cf_names@.len() && #[trigger] cf_names@[i]@ == META_CF@,
{
    let mut i: usize = 0;
    while i < cf_names.len()
        invariant
            i <= cf_names@.len(),
            forall|j: int| 0 <= j < i ==> #[trigger] cf_names@[j]@ != META_CF@,
        decreases cf_names@.len() - i,
    {
        if str_equal(cf_names[i].as_str(), META_CF) {
            return true;
        }
        i = i + 1;
    }
    false
}

/// UTF-8 bytes of `coll:<cf_name>`.
pub open spec fn spec_entry_key(cf_name: Seq<char>) -> Seq<u8> {
    encode_utf8(ENTRY_PREFIX@) + encode_utf8(cf_name)
}

/// UTF-8 bytes of `coll:<db_name>:`.
pub open spec fn spec_database_prefix(db_name: Seq<char>) -> Seq<u8> {
    encode_utf8(ENTRY_PREFIX@) + encode_utf8(db_name) + seq![COLON]
}

/// The `_meta` key of one collection: `coll:<cf_name>`.
pub fn entry_key(cf_name: &str) -> (r: String)
    ensures
        encode_utf8(r@) == spec_entry_key(cf_name@),
{
    let mut k: Vec<u8> = Vec::new();
    push_str(&mut k, ENTRY_PREFIX);
    push_str(&mut k, cf_name);
    proof {
        encode_utf8_valid_utf8(ENTRY_PREFIX@);
        encode_utf8_valid_utf8(cf_name@);
        valid_utf8_concat(encode_utf8(ENTRY_PREFIX@), encode_utf8(cf_name@));
    }
    string_from_utf8(k.as_slice())
}

/// The prefix covering one database's collections: `coll:<db_name>:`.
pub fn database_prefix(db_name: &str) -> (r: String)
    ensures
        encode_utf8(r@) == spec_database_prefix(db_name@),
{
    let mut k: Vec<u8> = Vec::new();
    push_str(&mut k, ENTRY_PREFIX);
    push_str(&mut k, db_name);
    k.push(COLON);
    proof {
        encode_utf8_valid_utf8(ENTRY_PREFIX@);
        encode_utf8_valid_utf8(db_name@);
        lemma_ascii_valid_utf8(seq![COLON]);
        valid_utf8_concat(encode_utf8(ENTRY_PREFIX@), encode_utf8(db_name@));
        valid_utf8_concat(encode_utf8(ENTRY_PREFIX@) + encode_utf8(db_name@), seq![COLON]);
        assert(k@ =~= encode_utf8(ENTRY_PREFIX@) + encode_utf8(db_name@) + seq![COLON]);
    }
    string_from_utf8(k.as_slice())
}

/// The part of `key` after `prefix`, when `key` starts with it and the rest
/// is text.
pub open spec fn strip(key: Seq<char>, prefix: Seq<u8>) -> Option<Seq<char>> {
    let b = encode_utf8(key);
    let rest = b.subrange(prefix.len() as int, b.len() as int);
    if has_prefix(b, prefix) && valid_utf8(rest) {
        Some(decode_utf8(rest))
    } else {
        None
    }
}

/// In order, what is left of each key that starts with `prefix` once the
/// prefix is removed.
pub open spec fn stripped(keys: Seq<Seq<char>>, prefix: Seq<u8>) -> Seq<Seq<char>>
    decreases keys.len(),
{
    if keys.len() == 0 {
        seq![]
    } else {
        let rest = stripped(keys.drop_last(), prefix);
        match strip(keys.last(), prefix) {
            Some(s) => rest.push(s),
            None => rest,
        }
    }
}

pub open spec fn views(keys: Seq<String>) -> Seq<Seq<char>> {
    keys.map_values(|k: String| k@)
}

pub(crate) fn strip_all(keys: &Vec<String>, prefix: &str) -> (r: Vec<String>)
    ensures
        r@.map_values(|k: String| k@) == stripped(views(keys@), encode_utf8(prefix@)),
{
    let ghost ks = views(keys@);
    let ghost p = encode_utf8(prefix@);
    let pb = prefix.as_bytes();
    let mut r: Vec<String> = Vec::new();
    let mut i: usize = 0;
    while i < keys.len()
        invariant
            i <= keys@.len(),
            ks == views(keys@),
            pb@ == p,
            r@.map_values(|k: String| k@) == stripped(ks.subrange(0, i as int), p),
        decreases keys@.len() - i,
    {
        let kb = keys[i].as_str().as_bytes();
        assert(ks.subrange(0, i + 1).drop_last() =~= ks.subrange(0, i as int));
        assert(ks.subrange(0, i + 1).last() == keys@[i as int]@);
        if starts_with(kb, pb) {
            let rest = tail(kb, pb.len());
            match utf8_text(rest.as_slice()) {
                Some(s) => {
                    r.push(s.to_owned());
                    assert(r@.map_values(|k: String| k@) =~= stripped(
                        ks.subrange(0, i + 1),
                        p,
                    ));
                },
                None => {},
            }
        }
        i = i + 1;
    }
    assert(ks.subrange(0, keys@.len() as int) =~= ks);
    r
}

/// Collection names registered under `db_name`, read from the `_meta` keys
/// that a prefix scan of `coll:<db_name>:` returned (in scan order).
pub fn list(keys: &Vec<String>, db_name: &str) -> (r: Vec<String>)
    ensures
        r@.map_values(|k: String| k@) == stripped(views(keys@), spec_database_prefix(db_name@)),
{
    let prefix = database_prefix(db_name);
    strip_all(keys, prefix.as_str())
}

/// Every registered collection, as `{db}:{collection}` column-family names,
/// read from the `_meta` keys that a prefix scan of `coll:` returned.
pub fn list_all(keys: &Vec<String>) -> (r: Vec<String>)
    ensures
        r@.map_values(|k: String| k@) == stripped(views(keys@), encode_utf8(ENTRY_PREFIX@)),
{
    strip_all(keys, ENTRY_PREFIX)
}

/// Whether a column family should be adopted into the registry: a
/// collection column family (named `<database>:<collection>`, not `default`
/// nor `_meta`) that is neither registered nor scheduled for drop.
pub open spec fn adoptable(cf: Seq<char>, known: Seq<Seq<char>>, pending: Seq<Seq<char>>) -> bool {
    &&& cf != DEFAULT_CF@
    &&& cf != META_CF@
    &&& encode_utf8(cf).contains(COLON)
    &&& !known.contains(cf)
    &&& !pending.contains(cf)
}

/// In order, the column families that `adoptable` admits.
pub open spec fn adoptable_all(
    cfs: Seq<Seq<char>>,
    known: Seq<Seq<char>>,
    pending: Seq<Seq<char>>,
) -> Seq<Seq<char>>
    decreases cfs.len(),
{
    if cfs.len() == 0 {
        seq![]
    } else {
        let rest = adoptable_all(cfs.drop_last(), known, pending);
        if adoptable(cfs.last(), known, pending) {
            rest.push(cfs.last())
        } else {
            rest
        }
    }
}

pub(crate) fn contains_str(v: &Vec<String>, s: &str) -> (r: bool)
    ensures
        r == views(v@).contains(s@),
{
    let mut i: usize = 0;
    while i < v.len()
        invariant
            i <= v@.len(),
            forall|j: int| 0 <= j < i ==> #[trigger] v@[j]@ != s@,
        decreases v@.len() - i,
    {
        if str_equal(v[i].as_str(), s) {
            assert(views(v@)[i as int] == s@);
            return true;
        }
        i = i + 1;
    }
    assert forall|j: int| 0 <= j < views(v@).len() implies views(v@)[j] != s@ by {
        assert(views(v@)[j] == v@[j]@);
    }
    false
}

/// The column families a startup backfill adopts: every collection column
/// family among `cf_names` with no registry entry (`known`, as `list_all`
/// gives them) that is not scheduled for drop (`pending`). The caller writes
/// one entry per returned name, with the type read from the column family.
pub fn backfill_candidates(cf_names: &Vec<String>, known: &Vec<String>, pending: &Vec<String>) -> (r:
    Vec<String>)
    ensures
        views(r@) == adoptable_all(views(cf_names@), views(known@), views(pending@)),
{
    let ghost cfs = views(cf_names@);
    let mut r: Vec<String> = Vec::new();
    let mut i: usize = 0;
    while i < cf_names.len()
        invariant
            i <= cf_names@.len(),
            cfs == views(cf_names@),
            views(r@) == adoptable_all(cfs.subrange(0, i as int), views(known@), views(pending@)),
        decreases cf_names@.len() - i,
    {
        let cf = cf_names[i].as_str();
        assert(cfs.subrange(0, i + 1).drop_last() =~= cfs.subrange(0, i as int));
        assert(cfs.subrange(0, i + 1).last() == cf@);
        let adopt = !str_equal(cf, DEFAULT_CF) && !str_equal(cf, META_CF) && contains_byte(
            cf.as_bytes(),
            COLON,
        ) && !contains_str(known, cf) && !contains_str(pending, cf);
        if adopt {
            r.push(cf.to_owned());
            assert(views(r@) =~= adoptable_all(
                cfs.subrange(0, i + 1),
                views(known@),
                views(pending@),
            ));
        }
        i = i + 1;
    }
    assert(cfs.subrange(0, cf_names@.len() as int) =~= cfs);
    r
}

} // verus!
