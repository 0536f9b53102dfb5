//! Index lookups: the keys a lookup scans from, and which documents the
//! scanned entries name, in scan order.
//!
//! An entry's key is `idx:<index>:<value part>:<doc_key>` and its value is
//! the document's key; the caller scans the store and hands the entries over
//! as `(key, value)` pairs in the order the scan yields them.
use vstd::prelude::*;
use vstd::hash_map::StringHashMap;
use vstd::utf8::encode_utf8;
use crate::bytes::{has_prefix, lossy_text, push_all, push_str, starts_with, str_equal, utf8_lossy};
use crate::codec::{encode_key, spec_encode_key, KeyValue, KeyValueView};
use crate::fulltext::{bytes_of, texts};
use crate::keys::{hex_lower, key1, push_hex, Collection, COLON, DOC_PREFIX, IDX_PREFIX};
use crate::scans::{entry_views, prefix_run, run_length};

verus! {

broadcast use vstd::seq_lib::group_seq_properties;

/// Entries a range lookup returns at most.
pub const RANGE_SCAN_LIMIT: usize = 1000;

/// The prefix of every entry of an index: `idx:<index>:`.
pub open spec fn spec_index_prefix(name: Seq<char>) -> Seq<u8> {
    encode_utf8(IDX_PREFIX@) + encode_utf8(name) + seq![COLON]
}

/// The prefix of every entry of an index.
pub fn index_prefix(index_name: &str) -> (r: Vec<u8>)
    ensures
        r@ == spec_index_prefix(index_name@),
{
    let mut k: Vec<u8> = Vec::new();
    push_str(&mut k, IDX_PREFIX);
    push_str(&mut k, index_name);
    k.push(COLON);
    k
}

/// The prefix of the entries of one indexed value:
/// `idx:<index>:<hex of the value's key>:`.
pub open spec fn spec_value_prefix(name: Seq<char>, value: KeyValueView) -> Seq<u8> {
    spec_index_prefix(name) + hex_lower(spec_encode_key(value)) + seq![COLON]
}

/// The prefix of the entries of one indexed value: where an equality lookup
/// scans, and where a range lookup seeks to.
pub fn value_prefix(index_name: &str, value: &KeyValue) -> (r: Vec<u8>)
    ensures
        r@ == spec_value_prefix(index_name@, value@),
{
    let mut k = index_prefix(index_name);
    let enc = encode_key(value);
    push_hex(&mut k, enc.as_slice());
    k.push(COLON);
    k
}

/// Where a descending scan of a prefix starts: the prefix followed by
/// `0xFF`, past every key under the prefix that holds text.
pub fn descending_seek_key(prefix: &[u8]) -> (r: Vec<u8>)
    ensures
        r@ == prefix@.push(0xFF),
{
    let mut k: Vec<u8> = Vec::new();
    push_all(&mut k, prefix);
    k.push(0xFF);
    assert(k@ =~= prefix@.push(0xFF));
    k
}

/// The document key an entry's value names: `doc:` and the value, read
/// leniently as text.
pub open spec fn named_doc_key(value: Seq<u8>) -> Seq<u8> {
    key1(DOC_PREFIX, encode_utf8(lossy_text(value)))
}

/// The first `limit` items of `s`, or all of them when there is no limit.
pub open spec fn first_n<A>(s: Seq<A>, limit: Option<usize>) -> Seq<A> {
    if limit is Some && (limit->0 as int) < s.len() {
        s.take(limit->0 as int)
    } else {
        s
    }
}

/// The document keys named by the entries of an equality lookup: the
/// entries under the value's prefix, at most `limit` of them.
pub fn lookup_doc_keys(entries: &Vec<(Vec<u8>, Vec<u8>)>, prefix: &[u8], limit: Option<usize>) -> (r: Vec<
    Vec<u8>,
>)
    ensures
        bytes_of(r@) == first_n(
            prefix_run(entry_views(entries@), prefix@).map_values(
                |e: (Seq<u8>, Seq<u8>)| named_doc_key(e.1),
            ),
            limit,
        ),
{
    let n = run_length(entries, prefix);
    let ghost run = entry_views(entries@).take(n as int);
    let ghost named = run.map_values(|e: (Seq<u8>, Seq<u8>)| named_doc_key(e.1));
    let m: usize = match limit {
        Some(l) => if l < n { l } else { n },
        None => n,
    };
    let mut r: Vec<Vec<u8>> = Vec::new();
    let mut i: usize = 0;
    while i < m
        invariant
            i <= m <= n <= entries.len(),
            run == entry_views(entries@).take(n as int),
            named == run.map_values(|e: (Seq<u8>, Seq<u8>)| named_doc_key(e.1)),
            bytes_of(r@) == named.take(i as int),
        decreases m - i,
    {
        assert(run[i as int] == (entries@[i as int].0@, entries@[i as int].1@));
        let text = utf8_lossy(entries[i].1.as_slice());
        let k = Collection::doc_key(text.as_str());
        let ghost before = r@;
        r.push(k);
        assert(bytes_of(r@) =~= bytes_of(before).push(k@));
        assert(named.take(i + 1) =~= named.take(i as int).push(named[i as int]));
        i = i + 1;
    }
    assert(named.take(m as int) =~= first_n(named, limit));
    r
}

/// The document keys an ordered read of an index yields: the entries' values
/// read leniently as text, at most `limit` of them.
pub fn sorted_doc_names(entries: &Vec<(Vec<u8>, Vec<u8>)>, prefix: &[u8], limit: Option<usize>) -> (r: Vec<
    String,
>)
    ensures
        texts(r@) == first_n(
            prefix_run(entry_views(entries@), prefix@).map_values(|e: (Seq<u8>, Seq<u8>)| lossy_text(e.1)),
            limit,
        ),
{
    let n = run_length(entries, prefix);
    let ghost run = entry_views(entries@).take(n as int);
    let ghost names = run.map_values(|e: (Seq<u8>, Seq<u8>)| lossy_text(e.1));
    let m: usize = match limit {
        Some(l) => if l < n { l } else { n },
        None => n,
    };
    let mut r: Vec<String> = Vec::new();
    let mut i: usize = 0;
    while i < m
        invariant
            i <= m <= n <= entries.len(),
            run == entry_views(entries@).take(n as int),
            names == run.map_values(|e: (Seq<u8>, Seq<u8>)| lossy_text(e.1)),
            texts(r@) == names.take(i as int),
        decreases m - i,
    {
        assert(run[i as int] == (entries@[i as int].0@, entries@[i as int].1@));
        let text = utf8_lossy(entries[i].1.as_slice());
        let ghost before = r@;
        r.push(text);
        assert(texts(r@) =~= texts(before).push(text@));
        assert(names.take(i + 1) =~= names.take(i as int).push(names[i as int]));
        i = i + 1;
    }
    assert(names.take(m as int) =~= first_n(names, limit));
    r
}

/// The values of the entries a range lookup keeps: all of them when the
/// bound is inclusive, else those outside the bound value's own prefix.
pub open spec fn range_kept(run: Seq<(Seq<u8>, Seq<u8>)>, bound: Seq<u8>, inclusive: bool) -> Seq<Seq<u8>>
    decreases run.len(),
{
    if run.len() == 0 {
        Seq::empty()
    } else {
        let rest = range_kept(run.drop_last(), bound, inclusive);
        if inclusive || !has_prefix(run.last().0, bound) {
            rest.push(run.last().1)
        } else {
            rest
        }
    }
}

proof fn lemma_range_kept_prefix(run: Seq<(Seq<u8>, Seq<u8>)>, bound: Seq<u8>, inclusive: bool, j: int)
    requires
        0 <= j <= run.len(),
    ensures
        range_kept(run.take(j), bound, inclusive).len() <= range_kept(run, bound, inclusive).len(),
        range_kept(run, bound, inclusive).take(range_kept(run.take(j), bound, inclusive).len() as int)
            == range_kept(run.take(j), bound, inclusive),
    decreases run.len(),
{
    let all = range_kept(run, bound, inclusive);
    if j == run.len() {
        assert(run.take(j) =~= run);
        assert(all.take(all.len() as int) =~= all);
    } else {
        assert(run.take(j) =~= run.drop_last().take(j));
        lemma_range_kept_prefix(run.drop_last(), bound, inclusive, j);
        let part = range_kept(run.take(j), bound, inclusive);
        let rest = range_kept(run.drop_last(), bound, inclusive);
        assert(rest.take(part.len() as int) == part);
        if inclusive || !has_prefix(run.last().0, bound) {
            assert(rest.push(run.last().1).take(part.len() as int) =~= rest.take(part.len() as int));
        }
    }
}

/// The document keys a range lookup returns, given the entries a scan from
/// the bound value's prefix yields (forward for a lower bound, backward for
/// an upper one): the kept entries under the index's prefix, at most
/// `RANGE_SCAN_LIMIT` of them.
pub fn range_doc_keys(
    entries: &Vec<(Vec<u8>, Vec<u8>)>,
    index_prefix: &[u8],
    bound: &[u8],
    inclusive: bool,
) -> (r: Vec<Vec<u8>>)
    ensures
        bytes_of(r@) == first_n(
            range_kept(prefix_run(entry_views(entries@), index_prefix@), bound@, inclusive).map_values(
                |v: Seq<u8>| named_doc_key(v),
            ),
            Some(RANGE_SCAN_LIMIT),
        ),
{
    let n = run_length(entries, index_prefix);
    let ghost run = entry_views(entries@).take(n as int);
    let ghost all = range_kept(run, bound@, inclusive).map_values(|v: Seq<u8>| named_doc_key(v));
    let mut r: Vec<Vec<u8>> = Vec::new();
    let mut i: usize = 0;
    while i < n
        invariant_except_break
            r@.len() < RANGE_SCAN_LIMIT,
        invariant
            i <= n <= entries.len(),
            run == entry_views(entries@).take(n as int),
            all == range_kept(run, bound@, inclusive).map_values(|v: Seq<u8>| named_doc_key(v)),
            bytes_of(r@) == range_kept(run.take(i as int), bound@, inclusive).map_values(
                |v: Seq<u8>| named_doc_key(v),
            ),
        ensures
            bytes_of(r@) == first_n(all, Some(RANGE_SCAN_LIMIT)),
        decreases n - i,
    {
        assert(run[i as int] == (entries@[i as int].0@, entries@[i as int].1@));
        assert(run.take(i + 1).drop_last() =~= run.take(i as int));
        let ghost before = r@;
        if inclusive || !starts_with(entries[i].0.as_slice(), bound) {
            let text = utf8_lossy(entries[i].1.as_slice());
            let k = Collection::doc_key(text.as_str());
            r.push(k);
            assert(bytes_of(r@) =~= bytes_of(before).push(k@));
        }
        assert(bytes_of(r@) =~= range_kept(run.take(i + 1), bound@, inclusive).map_values(
            |v: Seq<u8>| named_doc_key(v),
        ));
        i = i + 1;
        if r.len() >= RANGE_SCAN_LIMIT {
            proof {
                lemma_range_kept_prefix(run, bound@, inclusive, i as int);
                let part = range_kept(run.take(i as int), bound@, inclusive);
                let kept = range_kept(run, bound@, inclusive);
                assert(kept.take(part.len() as int) == part);
                assert(all.take(RANGE_SCAN_LIMIT as int) =~= part.map_values(|v: Seq<u8>| named_doc_key(v)));
            }
            break;
        }
        proof {
            if i == n {
                assert(run.take(i as int) =~= run);
            }
        }
    }
    proof {
        if n == 0 {
            assert(run.take(0) =~= run);
        }
    }
    r
}

/// Whether an index's first field is `field`.
pub open spec fn leads_with(fields: Seq<String>, field: Seq<char>) -> bool {
    fields.len() > 0 && fields[0]@ == field
}

/// Which index serves lookups on a field, given the indexes' fields in the
/// order their definitions are listed: the first whose first field it is.
pub fn index_for_field(index_fields: &Vec<Vec<String>>, field: &str) -> (r: Option<usize>)
    ensures
        match r {
            Some(i) => i < index_fields.len() && leads_with(index_fields@[i as int]@, field@) && forall|j: int|
                0 <= j < i ==> !leads_with(#[trigger] index_fields@[j]@, field@),
            None => forall|j: int|
                0 <= j < index_fields.len() ==> !leads_with(#[trigger] index_fields@[j]@, field@),
        },
{
    let mut i: usize = 0;
    while i < index_fields.len()
        invariant
            i <= index_fields.len(),
            forall|j: int| 0 <= j < i ==> !leads_with(#[trigger] index_fields@[j]@, field@),
        decreases index_fields.len() - i,
    {
        let fields = &index_fields[i];
        if fields.len() > 0 && str_equal(fields[0].as_str(), field) {
            return Some(i);
        }
        i = i + 1;
    }
    None
}

/// Where the last of `found` equal to `k` stands.
pub open spec fn last_index(found: Seq<Seq<char>>, k: Seq<char>) -> Option<int>
    decreases found.len(),
{
    if found.len() == 0 {
        None
    } else if found.last() == k {
        Some(found.len() - 1)
    } else {
        last_index(found.drop_last(), k)
    }
}

/// For each of `keys` in turn that `found` holds, where the last of `found`
/// equal to it stands.
pub open spec fn in_key_order(keys: Seq<Seq<char>>, found: Seq<Seq<char>>) -> Seq<int>
    decreases keys.len(),
{
    if keys.len() == 0 {
        Seq::empty()
    } else {
        let rest = in_key_order(keys.drop_last(), found);
        match last_index(found, keys.last()) {
            Some(j) => rest.push(j),
            None => rest,
        }
    }
}

proof fn lemma_last_index_bound(found: Seq<Seq<char>>, k: Seq<char>)
    ensures
        last_index(found, k) matches Some(j) ==> 0 <= j < found.len() && found[j] == k,
    decreases found.len(),
{
    if found.len() > 0 {
        lemma_last_index_bound(found.drop_last(), k);
    }
}

/// The order in which documents fetched by key are returned: for each of
/// `keys` that was found, the position in `found` of the last document with
/// that key; keys not found are skipped.
pub fn order_by_keys(keys: &Vec<String>, found: &Vec<String>) -> (r: Vec<usize>)
    ensures
        r@.map_values(|j: usize| j as int) == in_key_order(texts(keys@), texts(found@)),
{
    let ghost fs = texts(found@);
    let ghost ks = texts(keys@);
    let mut at: StringHashMap<usize> = StringHashMap::new();
    let mut j: usize = 0;
    while j < found.len()
        invariant
            j <= found.len(),
            fs == texts(found@),
            forall|k: Seq<char>|
                #[trigger] at@.contains_key(k) <==> last_index(fs.take(j as int), k) is Some,
            forall|k: Seq<char>|
                #[trigger] at@.contains_key(k) ==> last_index(fs.take(j as int), k) == Some(
                    at@[k] as int,
                ),
        decreases found.len() - j,
    {
        assert(fs.take(j + 1).drop_last() =~= fs.take(j as int));
        assert(fs.take(j + 1).last() == found@[j as int]@);
        at.insert(found[j].clone(), j);
        j = j + 1;
    }
    assert(fs.take(found.len() as int) =~= fs);
    let mut r: Vec<usize> = Vec::new();
    let mut i: usize = 0;
    while i < keys.len()
        invariant
            i <= keys.len(),
            fs == texts(found@),
            ks == texts(keys@),
            forall|k: Seq<char>| #[trigger] at@.contains_key(k) <==> last_index(fs, k) is Some,
            forall|k: Seq<char>| #[trigger] at@.contains_key(k) ==> last_index(fs, k) == Some(at@[k] as int),
            r@.map_values(|j: usize| j as int) == in_key_order(ks.take(i as int), fs),
        decreases keys.len() - i,
    {
        assert(ks.take(i + 1).drop_last() =~= ks.take(i as int));
        assert(ks.take(i + 1).last() == keys@[i as int]@);
        let ghost before = r@;
        match at.get(keys[i].as_str()) {
            Some(p) => {
                r.push(*p);
                assert(r@.map_values(|j: usize| j as int) =~= before.map_values(|j: usize| j as int).push(
                    *p as int,
                ));
            },
            None => {},
        }
        i = i + 1;
    }
    assert(ks.take(keys.len() as int) =~= ks);
    r
}

} // verus!
