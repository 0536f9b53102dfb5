//! Entries of regular (hash / persistent) indexes: which entry a document
//! has, what a write adds and removes, what a rebuild writes, and how a unique
//! index detects another document holding the same values.
//!
//! An entry is `idx:<index>:<value part>:<doc_key>` with the document key as
//! its value. A document whose indexed fields are all null has no entry.
use vstd::prelude::*;
use vstd::utf8::encode_utf8;
use crate::bytes::{has_prefix, lossy_text, push_all, push_str, starts_with, str_equal, utf8_lossy};
use crate::codec::{KeyValue, KeyValueView};
use crate::keys::{index_value_bytes, index_value_part, key2, key3, Collection, COLON, IDX_PREFIX};

verus! {

broadcast use vstd::seq_lib::group_seq_properties;

pub open spec fn values_view(values: Seq<KeyValue>) -> Seq<KeyValueView> {
    values.map_values(|v: KeyValue| v@)
}

/// Whether every indexed value is null (vacuously so for none).
pub open spec fn all_null(values: Seq<KeyValueView>) -> bool {
    forall|i: int| 0 <= i < values.len() ==> #[trigger] values[i] is Null
}

/// The entry key of a document under an index.
pub open spec fn spec_entry_key(name: Seq<char>, values: Seq<KeyValueView>, doc_key: Seq<char>) -> Seq<
    u8,
> {
    key3(IDX_PREFIX, encode_utf8(name), index_value_part(values), encode_utf8(doc_key))
}

/// The entry a document has under an index: none when its values are all
/// null.
pub open spec fn spec_regular_entry(
    name: Seq<char>,
    values: Seq<KeyValueView>,
    doc_key: Seq<char>,
) -> Option<Seq<u8>> {
    if all_null(values) {
        None
    } else {
        Some(spec_entry_key(name, values, doc_key))
    }
}

pub open spec fn opt_bytes(o: Option<Vec<u8>>) -> Option<Seq<u8>> {
    match o {
        Some(v) => Some(v@),
        None => None,
    }
}

/// Whether every value is null.
pub fn values_all_null(values: &[KeyValue]) -> (r: bool)
    ensures
        r == all_null(values_view(values@)),
{
    let mut i: usize = 0;
    while i < values.len()
        invariant
            i <= values@.len(),
            forall|j: int| 0 <= j < i ==> #[trigger] values_view(values@)[j] is Null,
        decreases values@.len() - i,
    {
        match &values[i] {
            KeyValue::Null => {},
            _ => {
                assert(!(values_view(values@)[i as int] is Null));
                return false;
            },
        }
        i = i + 1;
    }
    true
}

/// The entry a document with these indexed values has under `index_name`.
pub fn regular_entry(index_name: &str, values: &[KeyValue], doc_key: &str) -> (r: Option<Vec<u8>>)
    ensures
        opt_bytes(r) == spec_regular_entry(index_name@, values_view(values@), doc_key@),
{
    if values_all_null(values) {
        None
    } else {
        Some(Collection::idx_entry_key(index_name, values, doc_key))
    }
}

/// What an update of a document does to its entry under one index: the old
/// value's entry is removed, then the new value's is added, so an entry that
/// did not change stays.
pub struct EntryUpdate {
    pub remove: Option<Vec<u8>>,
    pub add: Option<Vec<u8>>,
}

/// The entry changes of a document update under `index_name`.
pub fn regular_update(
    index_name: &str,
    old_values: &[KeyValue],
    new_values: &[KeyValue],
    doc_key: &str,
) -> (r: EntryUpdate)
    ensures
        opt_bytes(r.remove) == spec_regular_entry(index_name@, values_view(old_values@), doc_key@),
        opt_bytes(r.add) == spec_regular_entry(index_name@, values_view(new_values@), doc_key@),
{
    EntryUpdate {
        remove: regular_entry(index_name, old_values, doc_key),
        add: regular_entry(index_name, new_values, doc_key),
    }
}

/// The entries a rebuild of an index writes for the first `n` documents
/// (document key, indexed values), in document order: an (entry key,
/// document key) pair for each document with a non-null value.
pub open spec fn spec_rebuild_entries(
    name: Seq<char>,
    docs: Seq<(String, Vec<KeyValue>)>,
    n: nat,
) -> Seq<(Seq<u8>, Seq<char>)>
    decreases n,
{
    if n == 0 {
        Seq::empty()
    } else {
        let before = spec_rebuild_entries(name, docs, (n - 1) as nat);
        let (key, values) = docs[n - 1];
        match spec_regular_entry(name, values_view(values@), key@) {
            Some(e) => before.push((e, key@)),
            None => before,
        }
    }
}

pub open spec fn entries_view(r: Seq<(Vec<u8>, String)>) -> Seq<(Seq<u8>, Seq<char>)> {
    r.map_values(|e: (Vec<u8>, String)| (e.0@, e.1@))
}

/// The entries a rebuild of `index_name` writes for these documents.
pub fn rebuild_entries(index_name: &str, docs: &Vec<(String, Vec<KeyValue>)>) -> (r: Vec<
    (Vec<u8>, String),
>)
    ensures
        entries_view(r@) == spec_rebuild_entries(index_name@, docs@, docs.len() as nat),
{
    let mut r: Vec<(Vec<u8>, String)> = Vec::new();
    let mut i: usize = 0;
    while i < docs.len()
        invariant
            i <= docs.len(),
            entries_view(r@) == spec_rebuild_entries(index_name@, docs@, i as nat),
        decreases docs.len() - i,
    {
        let (key, values) = (&docs[i].0, &docs[i].1);
        match regular_entry(index_name, values.as_slice(), key.as_str()) {
            Some(e) => {
                let ghost before = entries_view(r@);
                r.push((e, key.clone()));
                assert(entries_view(r@) =~= before.push((e@, key@)));
            },
            None => {},
        }
        i = i + 1;
    }
    r
}

/// The prefix under which a unique index holds entries for these values:
/// `idx:<index>:<value part>:`.
pub open spec fn spec_probe_prefix(name: Seq<char>, values: Seq<KeyValueView>) -> Seq<u8> {
    key2(IDX_PREFIX, encode_utf8(name), index_value_part(values)) + seq![COLON]
}

/// Where a unique index must look for another document holding these
/// values; `None` when they are all null, which a unique index allows any
/// number of times.
pub fn unique_probe_prefix(index_name: &str, values: &[KeyValue]) -> (r: Option<Vec<u8>>)
    ensures
        opt_bytes(r) == (if all_null(values_view(values@)) {
            None
        } else {
            Some(spec_probe_prefix(index_name@, values_view(values@)))
        }),
{
    if values_all_null(values) {
        return None;
    }
    let part = index_value_bytes(values);
    let mut k: Vec<u8> = Vec::new();
    push_str(&mut k, IDX_PREFIX);
    push_str(&mut k, index_name);
    k.push(COLON);
    push_all(&mut k, part.as_slice());
    k.push(COLON);
    Some(k)
}

/// Whether the first entry a probe from `prefix` returns (its key and its
/// value, the document key it names) shows another document holding the
/// same values: it lies under the prefix and names a document other than
/// `doc_key`, the one being written.
pub open spec fn spec_unique_violation(
    prefix: Seq<u8>,
    first: Option<(Seq<u8>, Seq<u8>)>,
    doc_key: Seq<char>,
) -> bool {
    match first {
        Some((k, v)) => has_prefix(k, prefix) && lossy_text(v) != doc_key,
        None => false,
    }
}

pub open spec fn opt_pair(o: Option<(Vec<u8>, Vec<u8>)>) -> Option<(Seq<u8>, Seq<u8>)> {
    match o {
        Some((k, v)) => Some((k@, v@)),
        None => None,
    }
}

/// The unique check on the first entry a probe returned.
pub fn unique_violation(prefix: &[u8], first: &Option<(Vec<u8>, Vec<u8>)>, doc_key: &str) -> (r:
    bool)
    ensures
        r == spec_unique_violation(prefix@, opt_pair(*first), doc_key@),
{
    match first {
        Some((k, v)) => {
            if !starts_with(k.as_slice(), prefix) {
                return false;
            }
            let existing = utf8_lossy(v.as_slice());
            !str_equal(existing.as_str(), doc_key)
        },
        None => false,
    }
}

} // verus!
