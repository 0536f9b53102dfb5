//! What a prefix scan's entries amount to: the run of entries under the
//! prefix, the documents and blob chunks it counts, and the documents a
//! time-series prune deletes.
//!
//! The caller reads the entries from the store in scan order and hands them
//! over as `(key, value)` pairs; a scan stops at its first key outside the
//! prefix, so the entries after it never count.
use vstd::prelude::*;
use vstd::utf8::encode_utf8;
use crate::bytes::{has_prefix, lossy_text, push_str, starts_with, tail, utf8_lossy};
use crate::fulltext::texts;
use crate::keys::{key1, BLO_PREFIX, COLON, DOC_PREFIX};

verus! {

broadcast use vstd::seq_lib::group_seq_properties;

/// The keys and values of scanned entries.
pub open spec fn entry_views(entries: Seq<(Vec<u8>, Vec<u8>)>) -> Seq<(Seq<u8>, Seq<u8>)> {
    entries.map_values(|e: (Vec<u8>, Vec<u8>)| (e.0@, e.1@))
}

/// The entries a prefix scan yields: those before the first key outside the
/// prefix.
pub open spec fn prefix_run(entries: Seq<(Seq<u8>, Seq<u8>)>, prefix: Seq<u8>) -> Seq<(Seq<u8>, Seq<u8>)>
    decreases entries.len(),
{
    if entries.len() == 0 || !has_prefix(entries[0].0, prefix) {
        Seq::empty()
    } else {
        seq![entries[0]] + prefix_run(entries.drop_first(), prefix)
    }
}

proof fn lemma_prefix_run_is_take(entries: Seq<(Seq<u8>, Seq<u8>)>, prefix: Seq<u8>, n: int)
    requires
        0 <= n <= entries.len(),
        forall|j: int| 0 <= j < n ==> has_prefix(#[trigger] entries[j].0, prefix),
        n == entries.len() || !has_prefix(entries[n].0, prefix),
    ensures
        prefix_run(entries, prefix) == entries.take(n),
    decreases n,
{
    if n == 0 {
        assert(entries.take(0) =~= Seq::<(Seq<u8>, Seq<u8>)>::empty());
    } else {
        let rest = entries.drop_first();
        assert forall|j: int| 0 <= j < n - 1 implies has_prefix(#[trigger] rest[j].0, prefix) by {
            assert(rest[j] == entries[j + 1]);
        }
        if n < entries.len() {
            assert(rest[n - 1] == entries[n]);
        }
        lemma_prefix_run_is_take(rest, prefix, n - 1);
        assert(entries.take(n) =~= seq![entries[0]] + rest.take(n - 1));
    }
}

/// How many entries a prefix scan yields.
pub fn run_length(entries: &Vec<(Vec<u8>, Vec<u8>)>, prefix: &[u8]) -> (n: usize)
    ensures
        n <= entries.len(),
        prefix_run(entry_views(entries@), prefix@) == entry_views(entries@).take(n as int),
{
    let ghost ev = entry_views(entries@);
    let mut n: usize = 0;
    while n < entries.len()
        invariant
            n <= entries.len(),
            ev == entry_views(entries@),
            forall|j: int| 0 <= j < n ==> has_prefix(#[trigger] ev[j].0, prefix@),
        ensures
            n == entries.len() || !has_prefix(ev[n as int].0, prefix@),
        decreases entries.len() - n,
    {
        assert(ev[n as int].0 == entries@[n as int].0@);
        if !starts_with(entries[n].0.as_slice(), prefix) {
            break;
        }
        n = n + 1;
    }
    proof {
        lemma_prefix_run_is_take(ev, prefix@, n as int);
    }
    n
}

/// The keys of the entries a prefix scan yields: what a delete of
/// everything under the prefix removes.
pub fn run_keys(entries: &Vec<(Vec<u8>, Vec<u8>)>, prefix: &[u8]) -> (r: Vec<Vec<u8>>)
    ensures
        r@.map_values(|k: Vec<u8>| k@) == prefix_run(entry_views(entries@), prefix@).map_values(
            |e: (Seq<u8>, Seq<u8>)| e.0,
        ),
{
    let n = run_length(entries, prefix);
    let ghost run = entry_views(entries@).take(n as int);
    let mut r: Vec<Vec<u8>> = Vec::new();
    let mut i: usize = 0;
    while i < n
        invariant
            i <= n <= entries.len(),
            run == entry_views(entries@).take(n as int),
            r@.map_values(|k: Vec<u8>| k@) == run.take(i as int).map_values(|e: (Seq<u8>, Seq<u8>)| e.0),
        decreases n - i,
    {
        let ghost before = r@;
        assert(run[i as int] == (entries@[i as int].0@, entries@[i as int].1@));
        let k = entries[i].0.clone();
        assert(k@ == entries@[i as int].0@);
        r.push(k);
        assert(run.take(i + 1) =~= run.take(i as int).push(run[i as int]));
        assert(r@.map_values(|k: Vec<u8>| k@) =~= before.map_values(|k: Vec<u8>| k@).push(k@));
        assert(run.take(i + 1).map_values(|e: (Seq<u8>, Seq<u8>)| e.0) =~= run.take(i as int).map_values(
            |e: (Seq<u8>, Seq<u8>)| e.0,
        ).push(run[i as int].0));
        assert(r@.map_values(|k: Vec<u8>| k@) =~= run.take(i + 1).map_values(|e: (Seq<u8>, Seq<u8>)| e.0));
        i = i + 1;
    }
    assert(run.take(n as int) =~= run);
    r
}

/// How many scanned entries hold a document: those with a value. Entries
/// of the old expiry layout (`doc:ttl_exp:…`) sit under the same prefix with
/// an empty value, and a stored document is never empty.
pub open spec fn live_count(run: Seq<(Seq<u8>, Seq<u8>)>) -> nat
    decreases run.len(),
{
    if run.len() == 0 {
        0
    } else {
        live_count(run.drop_last()) + if run.last().1.len() > 0 { 1nat } else { 0nat }
    }
}

proof fn lemma_live_count_bound(run: Seq<(Seq<u8>, Seq<u8>)>)
    ensures
        live_count(run) <= run.len(),
    decreases run.len(),
{
    if run.len() > 0 {
        lemma_live_count_bound(run.drop_last());
    }
}

/// How many documents a collection holds, given a scan from `doc:`.
pub fn count_live_documents(entries: &Vec<(Vec<u8>, Vec<u8>)>) -> (r: usize)
    ensures
        r == live_count(prefix_run(entry_views(entries@), encode_utf8(DOC_PREFIX@))),
{
    let prefix = DOC_PREFIX.as_bytes();
    let n = run_length(entries, prefix);
    let ghost run = entry_views(entries@).take(n as int);
    let mut count: usize = 0;
    let mut i: usize = 0;
    while i < n
        invariant
            i <= n <= entries.len(),
            run == entry_views(entries@).take(n as int),
            count == live_count(run.take(i as int)),
        decreases n - i,
    {
        assert(run.take(i + 1).drop_last() =~= run.take(i as int));
        proof {
            lemma_live_count_bound(run.take(i as int));
        }
        if entries[i].1.len() > 0 {
            count = count + 1;
        }
        i = i + 1;
    }
    assert(run.take(n as int) =~= run);
    count
}

/// How many blob chunks a collection holds, given a scan from `blo:`.
pub fn count_chunks(entries: &Vec<(Vec<u8>, Vec<u8>)>) -> (r: usize)
    ensures
        r == prefix_run(entry_views(entries@), encode_utf8(BLO_PREFIX@)).len(),
{
    run_length(entries, BLO_PREFIX.as_bytes())
}

/// The prefix of the entries of one named index: `<kind><name>:`.
pub open spec fn spec_name_prefix(kind: &str, name: Seq<char>) -> Seq<u8> {
    key1(kind, encode_utf8(name)) + seq![COLON]
}

/// The prefix of the entries of one named index, such as `idx:<name>:` or
/// `ft_term:<name>:`: what a rebuild or a drop of the index clears.
pub fn name_prefix(kind: &str, name: &str) -> (r: Vec<u8>)
    ensures
        r@ == spec_name_prefix(kind, name@),
{
    let mut k: Vec<u8> = Vec::new();
    push_str(&mut k, kind);
    push_str(&mut k, name);
    k.push(COLON);
    k
}

/// The prefix of a blob's chunks: `blo:<key>:`.
pub open spec fn spec_blob_prefix(key: Seq<char>) -> Seq<u8> {
    key1(BLO_PREFIX, encode_utf8(key)) + seq![COLON]
}

/// The prefix of a blob's chunks: a delete of the blob removes the entries
/// a scan from it yields.
pub fn blob_prefix(key: &str) -> (r: Vec<u8>)
    ensures
        r@ == spec_blob_prefix(key@),
{
    let mut k: Vec<u8> = Vec::new();
    push_str(&mut k, BLO_PREFIX);
    push_str(&mut k, key);
    k.push(COLON);
    k
}

/// The blob data entries among scanned entries (a key longer than the bare
/// `blo:` prefix), and their total size in bytes.
pub open spec fn blob_totals_of(run: Seq<(Seq<u8>, Seq<u8>)>) -> (nat, nat)
    decreases run.len(),
{
    if run.len() == 0 {
        (0, 0)
    } else {
        let rest = blob_totals_of(run.drop_last());
        if run.last().0.len() > 4 {
            (rest.0 + 1, rest.1 + run.last().1.len())
        } else {
            rest
        }
    }
}

proof fn lemma_blob_totals_monotone(run: Seq<(Seq<u8>, Seq<u8>)>, i: int)
    requires
        0 <= i <= run.len(),
    ensures
        blob_totals_of(run.take(i)).0 <= blob_totals_of(run).0,
        blob_totals_of(run.take(i)).1 <= blob_totals_of(run).1,
        blob_totals_of(run).0 <= run.len(),
    decreases run.len(),
{
    if run.len() > 0 {
        if i == run.len() {
            assert(run.take(i) =~= run);
            lemma_blob_totals_monotone(run.drop_last(), i - 1);
        } else {
            assert(run.take(i) =~= run.drop_last().take(i));
            lemma_blob_totals_monotone(run.drop_last(), i);
        }
    }
}

/// Blob statistics of a collection, given a scan from `blo:`: how many
/// chunks it holds and their total size. The total fits in a `u64`.
pub fn blob_totals(entries: &Vec<(Vec<u8>, Vec<u8>)>) -> (r: (usize, u64))
    requires
        blob_totals_of(prefix_run(entry_views(entries@), encode_utf8(BLO_PREFIX@))).1 <= u64::MAX,
    ensures
        r.0 == blob_totals_of(prefix_run(entry_views(entries@), encode_utf8(BLO_PREFIX@))).0,
        r.1 == blob_totals_of(prefix_run(entry_views(entries@), encode_utf8(BLO_PREFIX@))).1,
{
    let n = run_length(entries, BLO_PREFIX.as_bytes());
    let ghost run = entry_views(entries@).take(n as int);
    let mut chunks: usize = 0;
    let mut bytes: u64 = 0;
    let mut i: usize = 0;
    while i < n
        invariant
            i <= n <= entries.len(),
            run == entry_views(entries@).take(n as int),
            blob_totals_of(run).1 <= u64::MAX,
            chunks == blob_totals_of(run.take(i as int)).0,
            bytes == blob_totals_of(run.take(i as int)).1,
        decreases n - i,
    {
        assert(run.take(i + 1).drop_last() =~= run.take(i as int));
        proof {
            lemma_blob_totals_monotone(run, i + 1);
            lemma_blob_totals_monotone(run.take(i + 1), i + 1);
        }
        if entries[i].0.len() > 4 {
            chunks = chunks + 1;
            bytes = bytes + entries[i].1.len() as u64;
        }
        i = i + 1;
    }
    assert(run.take(n as int) =~= run);
    (chunks, bytes)
}

/// The 128-bit value of the UUID a text spells, in any of the forms the
/// `uuid` crate reads; `None` for any other text.
pub uninterp spec fn uuid_value(text: Seq<char>) -> Option<u128>;

/// Calls `uuid::Uuid::parse_str` and, when it succeeds, `Uuid::as_u128`:
/// the UUID the text spells (hyphenated, simple, URN or braced) as one
/// number, big-endian. Which texts parse, and to what, is named by
/// `uuid_value` and not stated here.
#[verifier::external_body]
pub(crate) fn parse_uuid_value(text: &str) -> (r: Option<u128>)
    ensures
        r == uuid_value(text@),
{
    match uuid::Uuid::parse_str(text) {
        Ok(u) => Some(u.as_u128()),
        Err(_) => None,
    }
}

/// The millisecond timestamp a version-7 UUID carries in its top 48 bits.
pub fn uuid_timestamp_ms(value: u128) -> (r: u64)
    ensures
        r as u128 == value >> 80u128,
{
    let t: u128 = value >> 80u128;
    assert(value >> 80u128 <= 0xffff_ffff_ffff_ffffu128) by (bit_vector);
    t as u64
}

/// Whether a document is older than `timestamp_ms`, given the UUID its key
/// spells: a key that is no UUID never is.
pub open spec fn spec_created_before(value: Option<u128>, timestamp_ms: u64) -> bool {
    value matches Some(v) && (v >> 80u128) < timestamp_ms
}

/// Whether a document is older than `timestamp_ms`, given the UUID its key
/// spells.
pub fn created_before(value: Option<u128>, timestamp_ms: u64) -> (r: bool)
    ensures
        r == spec_created_before(value, timestamp_ms),
{
    match value {
        Some(v) => (uuid_timestamp_ms(v) as u128) < (timestamp_ms as u128),
        None => false,
    }
}

/// The document key of a scanned `doc:` entry, read leniently as text.
pub open spec fn scanned_doc_key(k: Seq<u8>) -> Seq<char> {
    lossy_text(k.subrange(encode_utf8(DOC_PREFIX@).len() as int, k.len() as int))
}

/// The documents older than `timestamp_ms` among scanned `doc:` entries,
/// in scan order.
pub open spec fn spec_prune_keys(run: Seq<(Seq<u8>, Seq<u8>)>, timestamp_ms: u64) -> Seq<Seq<char>>
    decreases run.len(),
{
    if run.len() == 0 {
        Seq::empty()
    } else {
        let rest = spec_prune_keys(run.drop_last(), timestamp_ms);
        let key = scanned_doc_key(run.last().0);
        if spec_created_before(uuid_value(key), timestamp_ms) {
            rest.push(key)
        } else {
            rest
        }
    }
}

/// The documents a time-series prune deletes, given a scan from `doc:`:
/// those whose key is a UUID with a timestamp before `timestamp_ms`.
pub fn prune_candidates(entries: &Vec<(Vec<u8>, Vec<u8>)>, timestamp_ms: u64) -> (r: Vec<String>)
    ensures
        texts(r@) == spec_prune_keys(
            prefix_run(entry_views(entries@), encode_utf8(DOC_PREFIX@)),
            timestamp_ms,
        ),
{
    let prefix = DOC_PREFIX.as_bytes();
    let n = run_length(entries, prefix);
    let ghost run = entry_views(entries@).take(n as int);
    let mut r: Vec<String> = Vec::new();
    let mut i: usize = 0;
    while i < n
        invariant
            i <= n <= entries.len(),
            prefix@ == encode_utf8(DOC_PREFIX@),
            run == entry_views(entries@).take(n as int),
            prefix_run(entry_views(entries@), prefix@) == run,
            texts(r@) == spec_prune_keys(run.take(i as int), timestamp_ms),
        decreases n - i,
    {
        assert(run[i as int] == (entries@[i as int].0@, entries@[i as int].1@));
        assert(run.take(i + 1).drop_last() =~= run.take(i as int));
        assert(has_prefix(run[i as int].0, prefix@)) by {
            lemma_run_has_prefix(entry_views(entries@), prefix@, i as int);
        }
        let k = entries[i].0.as_slice();
        let key = utf8_lossy(tail(k, prefix.len()).as_slice());
        let value = parse_uuid_value(key.as_str());
        if created_before(value, timestamp_ms) {
            let ghost before = r@;
            r.push(key);
            assert(texts(r@) =~= texts(before).push(r@[r@.len() - 1]@));
        }
        i = i + 1;
    }
    assert(run.take(n as int) =~= run);
    r
}

pub proof fn lemma_run_has_prefix(entries: Seq<(Seq<u8>, Seq<u8>)>, prefix: Seq<u8>, i: int)
    requires
        0 <= i < prefix_run(entries, prefix).len(),
    ensures
        i < entries.len(),
        has_prefix(prefix_run(entries, prefix)[i].0, prefix),
        prefix_run(entries, prefix)[i] == entries[i],
    decreases entries.len(),
{
    if i > 0 {
        lemma_run_has_prefix(entries.drop_first(), prefix, i - 1);
        assert(entries.drop_first()[i - 1] == entries[i]);
    }
}

} // verus!
