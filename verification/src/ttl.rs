//! TTL indexes: which expiry entries a document write adds and removes, and
//! which entries a reaper pass acts on.
//!
//! An expiry entry `ttl_exp:<index>:<expiry, 20 digits>:<doc_key>` is a hint
//! that a document may be due. The reaper reads entries in key order (that is,
//! by expiry time) and stops at the first one not yet due; before deleting a
//! document it recomputes the document's own expiry.
use vstd::prelude::*;
use vstd::hash_map::StringHashMap;
use vstd::utf8::encode_utf8;
use crate::bytes::{has_prefix, starts_with, tail};
use crate::keys::{
    spec_parse_expiry_suffix, spec_parse_legacy_expiry_suffix, spec_ttl_expiry_key, Collection,
};
use crate::timestamps::{parse_rfc3339_seconds, rfc3339_seconds};

verus! {

broadcast use vstd::seq_lib::group_seq_properties;

/// A TTL index: documents expire `expire_after_seconds` after the time in
/// their `field`.
pub struct TtlIndex {
    pub name: String,
    pub field: String,
    pub expire_after_seconds: u64,
}

/// The value of a document's TTL field, as far as expiry reads it: a JSON
/// number that is a non-negative integer, a JSON string, or anything else
/// (absent, null, negative, fractional, ...).
pub enum ExpiryField {
    Unsigned(u64),
    Text(String),
    Other,
}

/// The time a field gives, in Unix seconds: the integer itself, or the
/// instant of an RFC 3339 text (a time before 1970 wraps, as a cast of a
/// negative `i64` to `u64` does).
pub open spec fn spec_expiry_time(f: ExpiryField) -> Option<u64> {
    match f {
        ExpiryField::Unsigned(n) => Some(n),
        ExpiryField::Text(s) => match rfc3339_seconds(s@) {
            Some(t) => Some(t as u64),
            None => None,
        },
        ExpiryField::Other => None,
    }
}

/// When a document expires: the field's time plus the index's delay,
/// saturating at `u64::MAX`.
pub open spec fn expires_at(t: u64, after: u64) -> u64 {
    if t + after > u64::MAX {
        u64::MAX
    } else {
        (t + after) as u64
    }
}

/// The expiry time a TTL field holds.
pub fn expiry_time(f: &ExpiryField) -> (r: Option<u64>)
    ensures
        r == spec_expiry_time(*f),
{
    match f {
        ExpiryField::Unsigned(n) => Some(*n),
        ExpiryField::Text(s) => match parse_rfc3339_seconds(s.as_str()) {
            Some(t) => Some(t as u64),
            None => None,
        },
        ExpiryField::Other => None,
    }
}

/// The expiry entry of one document under one index, if its field gives a
/// time.
pub open spec fn spec_expiry_entry(index: TtlIndex, field: ExpiryField, doc_key: Seq<char>) -> Option<
    Seq<u8>,
> {
    match spec_expiry_time(field) {
        Some(t) => Some(
            spec_ttl_expiry_key(
                encode_utf8(index.name@),
                expires_at(t, index.expire_after_seconds),
                encode_utf8(doc_key),
            ),
        ),
        None => None,
    }
}

/// The expiry entries of a document under the first `n` indexes, in index
/// order; `fields[i]` is the document's value of `indexes[i].field`.
pub open spec fn spec_expiry_entries(
    indexes: Seq<TtlIndex>,
    fields: Seq<ExpiryField>,
    doc_key: Seq<char>,
    n: nat,
) -> Seq<Seq<u8>>
    decreases n,
{
    if n == 0 {
        Seq::empty()
    } else {
        let before = spec_expiry_entries(indexes, fields, doc_key, (n - 1) as nat);
        match spec_expiry_entry(indexes[n - 1], fields[n - 1], doc_key) {
            Some(e) => before.push(e),
            None => before,
        }
    }
}

/// The expiry entries that a document with these TTL field values has:
/// what an insert adds and a delete removes.
pub fn expiry_entries(doc_key: &str, indexes: &Vec<TtlIndex>, fields: &Vec<ExpiryField>) -> (r: Vec<
    Vec<u8>,
>)
    requires
        indexes.len() == fields.len(),
    ensures
        r@.map_values(|e: Vec<u8>| e@) == spec_expiry_entries(
            indexes@,
            fields@,
            doc_key@,
            indexes.len() as nat,
        ),
{
    let mut r: Vec<Vec<u8>> = Vec::new();
    let mut i: usize = 0;
    while i < indexes.len()
        invariant
            i <= indexes.len() == fields.len(),
            r@.map_values(|e: Vec<u8>| e@) == spec_expiry_entries(
                indexes@,
                fields@,
                doc_key@,
                i as nat,
            ),
        decreases indexes.len() - i,
    {
        let index = &indexes[i];
        match expiry_time(&fields[i]) {
            Some(t) => {
                let at = t.saturating_add(index.expire_after_seconds);
                let e = Collection::ttl_expiry_key(index.name.as_str(), at, doc_key);
                r.push(e);
                assert(r@.map_values(|e: Vec<u8>| e@) =~= spec_expiry_entries(
                    indexes@,
                    fields@,
                    doc_key@,
                    (i + 1) as nat,
                ));
            },
            None => {},
        }
        i = i + 1;
    }
    r
}

/// Entries to add for an insert.
pub fn compute_ttl_expiry_entries_for_insert(
    doc_key: &str,
    indexes: &Vec<TtlIndex>,
    fields: &Vec<ExpiryField>,
) -> (r: Vec<Vec<u8>>)
    requires
        indexes.len() == fields.len(),
    ensures
        r@.map_values(|e: Vec<u8>| e@) == spec_expiry_entries(
            indexes@,
            fields@,
            doc_key@,
            indexes.len() as nat,
        ),
{
    expiry_entries(doc_key, indexes, fields)
}

/// Entries to remove for a delete.
pub fn compute_ttl_expiry_entries_for_delete(
    doc_key: &str,
    indexes: &Vec<TtlIndex>,
    fields: &Vec<ExpiryField>,
) -> (r: Vec<Vec<u8>>)
    requires
        indexes.len() == fields.len(),
    ensures
        r@.map_values(|e: Vec<u8>| e@) == spec_expiry_entries(
            indexes@,
            fields@,
            doc_key@,
            indexes.len() as nat,
        ),
{
    expiry_entries(doc_key, indexes, fields)
}

/// Entries to add and to remove for an update: the new value's entries and
/// the old value's. The removals are applied first, so an entry in both
/// lists stays.
pub fn compute_ttl_expiry_entries_for_update(
    doc_key: &str,
    indexes: &Vec<TtlIndex>,
    old_fields: &Vec<ExpiryField>,
    new_fields: &Vec<ExpiryField>,
) -> (r: (Vec<Vec<u8>>, Vec<Vec<u8>>))
    requires
        indexes.len() == old_fields.len(),
        indexes.len() == new_fields.len(),
    ensures
        r.0@.map_values(|e: Vec<u8>| e@) == spec_expiry_entries(
            indexes@,
            new_fields@,
            doc_key@,
            indexes.len() as nat,
        ),
        r.1@.map_values(|e: Vec<u8>| e@) == spec_expiry_entries(
            indexes@,
            old_fields@,
            doc_key@,
            indexes.len() as nat,
        ),
{
    let add = expiry_entries(doc_key, indexes, new_fields);
    let remove = expiry_entries(doc_key, indexes, old_fields);
    (add, remove)
}

/// The rest of a key after `n` bytes.
pub open spec fn after(k: Seq<u8>, n: nat) -> Seq<u8> {
    k.subrange(n as int, k.len() as int)
}

/// What a scan of current expiry entries under `prefix` collects, given the
/// keys the scan meets in order: the due entries with the document each
/// names. It stops at the first key outside the prefix or the first entry
/// that is not yet due; keys that do not read as an entry (those of an index
/// whose name extends this one) are skipped.
pub open spec fn spec_due_entries(keys: Seq<Seq<u8>>, prefix: Seq<u8>, now: u64) -> Seq<
    (Seq<u8>, Seq<char>),
>
    decreases keys.len(),
{
    if keys.len() == 0 {
        Seq::empty()
    } else {
        let k = keys[0];
        if !has_prefix(k, prefix) {
            Seq::empty()
        } else {
            match spec_parse_expiry_suffix(after(k, prefix.len())) {
                None => spec_due_entries(keys.drop_first(), prefix, now),
                Some((ts, doc)) => if ts > now {
                    Seq::empty()
                } else {
                    seq![(k, doc)] + spec_due_entries(keys.drop_first(), prefix, now)
                },
            }
        }
    }
}

pub open spec fn due_view(r: Seq<(Vec<u8>, String)>) -> Seq<(Seq<u8>, Seq<char>)> {
    r.map_values(|e: (Vec<u8>, String)| (e.0@, e.1@))
}

pub open spec fn keys_view(keys: Seq<Vec<u8>>) -> Seq<Seq<u8>> {
    keys.map_values(|k: Vec<u8>| k@)
}

/// The due current expiry entries among the keys that a prefix scan from
/// `prefix` returns, in order, each with the document key it names.
pub fn due_entries(keys: &Vec<Vec<u8>>, prefix: &[u8], now: u64) -> (r: Vec<(Vec<u8>, String)>)
    ensures
        due_view(r@) == spec_due_entries(keys_view(keys@), prefix@, now),
{
    let mut r: Vec<(Vec<u8>, String)> = Vec::new();
    let mut i: usize = 0;
    assert(keys_view(keys@).subrange(0, keys.len() as int) =~= keys_view(keys@));
    assert(due_view(r@) + spec_due_entries(keys_view(keys@), prefix@, now) =~= spec_due_entries(
        keys_view(keys@),
        prefix@,
        now,
    ));
    while i < keys.len()
        invariant
            i <= keys.len(),
            spec_due_entries(keys_view(keys@), prefix@, now) == due_view(r@)
                + spec_due_entries(keys_view(keys@).subrange(i as int, keys.len() as int), prefix@, now),
        decreases keys.len() - i,
    {
        let ghost rest = keys_view(keys@).subrange(i as int, keys.len() as int);
        assert(rest[0] == keys@[i as int]@);
        assert(rest.drop_first() =~= keys_view(keys@).subrange(i + 1, keys.len() as int));
        let k = &keys[i];
        if !starts_with(k.as_slice(), prefix) {
            assert(spec_due_entries(rest, prefix@, now) =~= Seq::<(Seq<u8>, Seq<char>)>::empty());
            assert(due_view(r@) + Seq::<(Seq<u8>, Seq<char>)>::empty() =~= due_view(r@));
            return r;
        }
        let suffix = tail(k.as_slice(), prefix.len());
        match Collection::parse_expiry_suffix(suffix.as_slice()) {
            None => {},
            Some((ts, doc)) => {
                if ts > now {
                    assert(due_view(r@) + Seq::<(Seq<u8>, Seq<char>)>::empty() =~= due_view(r@));
                    return r;
                }
                let ghost before = due_view(r@);
                r.push((k.clone(), doc));
                assert(due_view(r@) =~= before.push((k@, doc@)));
                assert(before + (seq![(k@, doc@)] + spec_due_entries(rest.drop_first(), prefix@, now))
                    =~= due_view(r@) + spec_due_entries(rest.drop_first(), prefix@, now));
            },
        }
        i = i + 1;
    }
    assert(keys_view(keys@).subrange(i as int, keys.len() as int) =~= Seq::<Seq<u8>>::empty());
    assert(due_view(r@) + Seq::<(Seq<u8>, Seq<char>)>::empty() =~= due_view(r@));
    r
}

/// What a pass over legacy expiry entries `doc:ttl_exp::<index>:<ts>:<doc_key>`
/// decides, given the (key, value) pairs a prefix scan meets in order: due
/// entries (with the document each names) and entries to move under the
/// current layout (new key, old key). The scan stops at the first key outside
/// the prefix or once `limit` entries were read; a non-empty value is a
/// document, never an entry, and is passed over, as is a key that does not
/// read as an entry.
pub open spec fn spec_legacy_pass(
    entries: Seq<(Seq<u8>, Seq<u8>)>,
    prefix: Seq<u8>,
    index: Seq<u8>,
    now: u64,
    limit: nat,
) -> (Seq<(Seq<u8>, Seq<char>)>, Seq<(Seq<u8>, Seq<u8>)>)
    decreases entries.len(),
{
    if entries.len() == 0 || !has_prefix(entries[0].0, prefix) || limit == 0 {
        (Seq::empty(), Seq::empty())
    } else {
        let (k, v) = entries[0];
        if v.len() > 0 {
            spec_legacy_pass(entries.drop_first(), prefix, index, now, limit)
        } else {
            match spec_parse_legacy_expiry_suffix(after(k, prefix.len())) {
                None => spec_legacy_pass(entries.drop_first(), prefix, index, now, limit),
                Some((ts, doc)) => {
                    let (due, moved) = spec_legacy_pass(
                        entries.drop_first(),
                        prefix,
                        index,
                        now,
                        (limit - 1) as nat,
                    );
                    if ts <= now {
                        (seq![(k, doc)] + due, moved)
                    } else {
                        (due, seq![(spec_ttl_expiry_key(index, ts, encode_utf8(doc)), k)] + moved)
                    }
                },
            }
        }
    }
}

/// The decisions of one pass over legacy expiry entries.
pub struct LegacyPass {
    /// Due entries, each with the document it names.
    pub due: Vec<(Vec<u8>, String)>,
    /// Entries to rewrite under the current layout: (new key, old key).
    pub moved: Vec<(Vec<u8>, Vec<u8>)>,
}

pub open spec fn pairs_view(r: Seq<(Vec<u8>, Vec<u8>)>) -> Seq<(Seq<u8>, Seq<u8>)> {
    r.map_values(|e: (Vec<u8>, Vec<u8>)| (e.0@, e.1@))
}

/// One pass over the legacy expiry entries of TTL index `index_name`, given
/// the (key, value) pairs a scan from `prefix` returns in order, reading at
/// most `limit` entries.
pub fn legacy_pass(
    entries: &Vec<(Vec<u8>, Vec<u8>)>,
    prefix: &[u8],
    index_name: &str,
    now: u64,
    limit: usize,
) -> (r: LegacyPass)
    ensures
        (due_view(r.due@), pairs_view(r.moved@)) == spec_legacy_pass(
            pairs_view(entries@),
            prefix@,
            encode_utf8(index_name@),
            now,
            limit as nat,
        ),
{
    let ghost ev = pairs_view(entries@);
    let ghost index = encode_utf8(index_name@);
    let mut due: Vec<(Vec<u8>, String)> = Vec::new();
    let mut moved: Vec<(Vec<u8>, Vec<u8>)> = Vec::new();
    let mut seen: usize = 0;
    let mut i: usize = 0;
    assert(ev.subrange(0, ev.len() as int) =~= ev);
    assert(due_view(due@) + spec_legacy_pass(ev, prefix@, index, now, limit as nat).0
        =~= spec_legacy_pass(ev, prefix@, index, now, limit as nat).0);
    assert(pairs_view(moved@) + spec_legacy_pass(ev, prefix@, index, now, limit as nat).1
        =~= spec_legacy_pass(ev, prefix@, index, now, limit as nat).1);
    while i < entries.len()
        invariant
            i <= entries.len(),
            seen <= limit,
            ev == pairs_view(entries@),
            index == encode_utf8(index_name@),
            ({
                let (d, m) = spec_legacy_pass(
                    ev.subrange(i as int, ev.len() as int),
                    prefix@,
                    index,
                    now,
                    (limit - seen) as nat,
                );
                spec_legacy_pass(ev, prefix@, index, now, limit as nat) == (
                    due_view(due@) + d,
                    pairs_view(moved@) + m,
                )
            }),
        decreases entries.len() - i,
    {
        let ghost rest = ev.subrange(i as int, ev.len() as int);
        assert(rest[0] == (entries@[i as int].0@, entries@[i as int].1@));
        assert(rest.drop_first() =~= ev.subrange(i + 1, ev.len() as int));
        let (k, v) = (&entries[i].0, &entries[i].1);
        if !starts_with(k.as_slice(), prefix) || seen >= limit {
            assert(due_view(due@) + Seq::<(Seq<u8>, Seq<char>)>::empty() =~= due_view(due@));
            assert(pairs_view(moved@) + Seq::<(Seq<u8>, Seq<u8>)>::empty() =~= pairs_view(moved@));
            return LegacyPass { due, moved };
        }
        if v.len() == 0 {
            let suffix = tail(k.as_slice(), prefix.len());
            match Collection::parse_legacy_expiry_suffix(suffix.as_slice()) {
                None => {},
                Some((ts, doc)) => {
                    let ghost (d1, m1) = spec_legacy_pass(
                        rest.drop_first(),
                        prefix@,
                        index,
                        now,
                        (limit - seen - 1) as nat,
                    );
                    seen = seen + 1;
                    if ts <= now {
                        let ghost before = due_view(due@);
                        due.push((k.clone(), doc));
                        assert(due_view(due@) =~= before.push((k@, doc@)));
                        assert(before + (seq![(k@, doc@)] + d1) =~= due_view(due@) + d1);
                    } else {
                        let ghost before = pairs_view(moved@);
                        let nk = Collection::ttl_expiry_key(index_name, ts, doc.as_str());
                        moved.push((nk, k.clone()));
                        assert(pairs_view(moved@) =~= before.push((nk@, k@)));
                        assert(before + (seq![(nk@, k@)] + m1) =~= pairs_view(moved@) + m1);
                    }
                },
            }
        }
        i = i + 1;
    }
    assert(ev.subrange(i as int, ev.len() as int) =~= Seq::<(Seq<u8>, Seq<u8>)>::empty());
    assert(due_view(due@) + Seq::<(Seq<u8>, Seq<char>)>::empty() =~= due_view(due@));
    assert(pairs_view(moved@) + Seq::<(Seq<u8>, Seq<u8>)>::empty() =~= pairs_view(moved@));
    LegacyPass { due, moved }
}

/// Whether a document is still due when the reaper re-reads it: its field
/// gives a time, and that time plus the index's delay has passed.
pub open spec fn spec_still_expired(field: ExpiryField, expire_after: u64, now: u64) -> bool {
    match spec_expiry_time(field) {
        Some(t) => expires_at(t, expire_after) <= now,
        None => false,
    }
}

/// The reaper's check of a document it re-read, before deleting it.
pub fn still_expired(field: &ExpiryField, expire_after: u64, now: u64) -> (r: bool)
    ensures
        r == spec_still_expired(*field, expire_after, now),
{
    match expiry_time(field) {
        Some(t) => t.saturating_add(expire_after) <= now,
        None => false,
    }
}

pub open spec fn texts(r: Seq<String>) -> Seq<Seq<char>> {
    r.map_values(|t: String| t@)
}

pub open spec fn entry_docs(entries: Seq<(Vec<u8>, String)>) -> Seq<Seq<char>> {
    entries.map_values(|e: (Vec<u8>, String)| e.1@)
}

/// The document keys of a batch of entries, each once, in the order of
/// their first entry: the documents the reaper re-reads.
pub fn distinct_doc_keys(entries: &Vec<(Vec<u8>, String)>) -> (r: Vec<String>)
    ensures
        texts(r@).no_duplicates(),
        texts(r@).to_set() == entry_docs(entries@).to_set(),
{
    let ghost docs = entry_docs(entries@);
    let mut seen: StringHashMap<()> = StringHashMap::new();
    let mut r: Vec<String> = Vec::new();
    let mut j: usize = 0;
    assert(texts(r@).to_set() =~= docs.take(0).to_set());
    while j < entries.len()
        invariant
            j <= entries.len(),
            docs == entry_docs(entries@),
            texts(r@).no_duplicates(),
            seen@.dom() == texts(r@).to_set(),
            texts(r@).to_set() == docs.take(j as int).to_set(),
        decreases entries.len() - j,
    {
        let key = &entries[j].1;
        let ghost old_t = texts(r@);
        assert(docs.take(j + 1) =~= docs.take(j as int).push(key@));
        if !seen.contains_key(key.as_str()) {
            seen.insert(key.clone(), ());
            r.push(key.clone());
            assert(texts(r@) =~= old_t.push(key@));
            assert(!old_t.contains(key@));
            assert(texts(r@).to_set() =~= old_t.to_set().insert(key@));
            assert(docs.take(j + 1).to_set() =~= docs.take(j as int).to_set().insert(key@));
            assert(seen@.dom() =~= texts(r@).to_set());
        } else {
            assert(docs.take(j + 1).to_set() =~= docs.take(j as int).to_set().insert(key@));
            assert(docs.take(j + 1).to_set() =~= texts(r@).to_set());
        }
        j = j + 1;
    }
    assert(docs.take(entries.len() as int) =~= docs);
    r
}

} // verus!
