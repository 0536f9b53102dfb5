//! What the TTL reaper promises: it acts only on due entries, an entry
//! written for a document is reaped once due and not before, and a pass over
//! legacy entries does bounded work.
use vstd::prelude::*;
use vstd::utf8::encode_utf8;
use crate::bytes::has_prefix;
use crate::keys::{
    spec_parse_expiry_suffix, spec_parse_legacy_expiry_suffix, spec_ttl_expiry_key,
    spec_ttl_expiry_prefix,
};
use crate::keys_laws::expiry_key_reads_back;
use crate::timestamps::rfc3339_instant;
use crate::ttl::{
    after, expires_at, spec_due_entries, spec_expiry_entry, spec_expiry_time, spec_legacy_pass,
    spec_still_expired, ExpiryField, TtlIndex,
};

verus! {

broadcast use vstd::seq_lib::group_seq_properties;

/// `k` reads, after `prefix`, as a current entry for `doc` that is due.
pub open spec fn reads_as_due(k: Seq<u8>, doc: Seq<char>, prefix: Seq<u8>, now: u64) -> bool {
    match spec_parse_expiry_suffix(after(k, prefix.len())) {
        Some((ts, d)) => d == doc && ts <= now,
        None => false,
    }
}

/// `k` reads, after `prefix`, as a legacy entry for `doc` that is due.
pub open spec fn reads_as_due_legacy(k: Seq<u8>, doc: Seq<char>, prefix: Seq<u8>, now: u64) -> bool {
    match spec_parse_legacy_expiry_suffix(after(k, prefix.len())) {
        Some((ts, d)) => d == doc && ts <= now,
        None => false,
    }
}

/// `old` reads, after `prefix`, as a legacy entry that is not yet due, and
/// `new` is the current layout's key for the same time and document.
pub open spec fn moves_to(new: Seq<u8>, old: Seq<u8>, prefix: Seq<u8>, index: Seq<u8>, now: u64) -> bool {
    match spec_parse_legacy_expiry_suffix(after(old, prefix.len())) {
        Some((ts, d)) => ts > now && new == spec_ttl_expiry_key(index, ts, encode_utf8(d)),
        None => false,
    }
}

/// Every entry a scan reports due is one of the scanned keys, lies under
/// the prefix, and reads as an entry for the document it is reported with,
/// with an expiry time that has passed.
pub proof fn reaper_acts_only_on_due_entries(keys: Seq<Seq<u8>>, prefix: Seq<u8>, now: u64)
    ensures
        forall|i: int|
            0 <= i < spec_due_entries(keys, prefix, now).len() ==> {
                let (k, doc) = #[trigger] spec_due_entries(keys, prefix, now)[i];
                &&& keys.contains(k)
                &&& has_prefix(k, prefix)
                &&& reads_as_due(k, doc, prefix, now)
            },
    decreases keys.len(),
{
    if keys.len() > 0 {
        reaper_acts_only_on_due_entries(keys.drop_first(), prefix, now);
        let d = spec_due_entries(keys, prefix, now);
        let rest = spec_due_entries(keys.drop_first(), prefix, now);
        assert forall|i: int| 0 <= i < d.len() implies {
            let (k, doc) = #[trigger] d[i];
            &&& keys.contains(k)
            &&& has_prefix(k, prefix)
            &&& reads_as_due(k, doc, prefix, now)
        } by {
            let k0 = keys[0];
            if has_prefix(k0, prefix) {
                match spec_parse_expiry_suffix(after(k0, prefix.len())) {
                    None => {
                        assert(d[i] == rest[i]);
                        assert(keys.drop_first().contains(d[i].0));
                    },
                    Some((ts, doc)) => {
                        if ts <= now {
                            if i == 0 {
                                assert(d[0] == (k0, doc));
                                assert(keys[0] == k0);
                            } else {
                                assert(d[i] == rest[i - 1]);
                                assert(keys.drop_first().contains(d[i].0));
                            }
                        }
                    },
                }
            }
        }
    }
}

/// The expiry entry that a write makes for a document (with a non-empty
/// key) is reported by a scan of its index once its time has come, and not
/// before.
pub proof fn entry_is_reaped_once_due(index: Seq<u8>, ts: u64, doc_key: Seq<char>, now: u64)
    requires
        doc_key.len() > 0,
    ensures
        ({
            let key = spec_ttl_expiry_key(index, ts, encode_utf8(doc_key));
            let due = spec_due_entries(seq![key], spec_ttl_expiry_prefix(index), now);
            &&& ts <= now ==> due == seq![(key, doc_key)]
            &&& ts > now ==> due.len() == 0
        }),
{
    expiry_key_reads_back(index, ts, doc_key);
    let key = spec_ttl_expiry_key(index, ts, encode_utf8(doc_key));
    let prefix = spec_ttl_expiry_prefix(index);
    assert(seq![key].drop_first() =~= Seq::<Seq<u8>>::empty());
    assert(spec_due_entries(Seq::<Seq<u8>>::empty(), prefix, now) =~= Seq::<
        (Seq<u8>, Seq<char>),
    >::empty());
    assert(seq![(key, doc_key)] + Seq::<(Seq<u8>, Seq<char>)>::empty() =~= seq![(key, doc_key)]);
}

/// A pass over legacy entries acts on at most `limit` of them; the entries
/// it reports due have passed their time, and those it moves have not and
/// move to the current layout's key for the same time and document.
pub proof fn legacy_pass_is_bounded_and_sorted_by_time(
    entries: Seq<(Seq<u8>, Seq<u8>)>,
    prefix: Seq<u8>,
    index: Seq<u8>,
    now: u64,
    limit: nat,
)
    ensures
        ({
            let (due, moved) = spec_legacy_pass(entries, prefix, index, now, limit);
            &&& due.len() + moved.len() <= limit
            &&& forall|i: int|
                0 <= i < due.len() ==> reads_as_due_legacy(
                    (#[trigger] due[i]).0,
                    due[i].1,
                    prefix,
                    now,
                )
            &&& forall|i: int|
                0 <= i < moved.len() ==> moves_to(
                    (#[trigger] moved[i]).0,
                    moved[i].1,
                    prefix,
                    index,
                    now,
                )
        }),
    decreases entries.len(),
{
    if entries.len() == 0 || !has_prefix(entries[0].0, prefix) || limit == 0 {
    } else {
        let (k, v) = entries[0];
        if v.len() > 0 {
            legacy_pass_is_bounded_and_sorted_by_time(entries.drop_first(), prefix, index, now, limit);
        } else {
            match spec_parse_legacy_expiry_suffix(after(k, prefix.len())) {
                None => {
                    legacy_pass_is_bounded_and_sorted_by_time(
                        entries.drop_first(),
                        prefix,
                        index,
                        now,
                        limit,
                    );
                },
                Some((ts, doc)) => {
                    let l1 = (limit - 1) as nat;
                    legacy_pass_is_bounded_and_sorted_by_time(
                        entries.drop_first(),
                        prefix,
                        index,
                        now,
                        l1,
                    );
                    let (d1, m1) = spec_legacy_pass(entries.drop_first(), prefix, index, now, l1);
                    let (due, moved) = spec_legacy_pass(entries, prefix, index, now, limit);
                    if ts <= now {
                        assert(due == seq![(k, doc)] + d1);
                        assert(moved == m1);
                        assert forall|i: int| 0 <= i < due.len() implies reads_as_due_legacy(
                            (#[trigger] due[i]).0,
                            due[i].1,
                            prefix,
                            now,
                        ) by {
                            if i == 0 {
                                assert(due[0] == (k, doc));
                            } else {
                                assert(due[i] == d1[i - 1]);
                            }
                        }
                    } else {
                        let nk = spec_ttl_expiry_key(index, ts, encode_utf8(doc));
                        assert(due == d1);
                        assert(moved == seq![(nk, k)] + m1);
                        assert forall|i: int| 0 <= i < moved.len() implies moves_to(
                            (#[trigger] moved[i]).0,
                            moved[i].1,
                            prefix,
                            index,
                            now,
                        ) by {
                            if i == 0 {
                                assert(moved[0] == (nk, k));
                            } else {
                                assert(moved[i] == m1[i - 1]);
                            }
                        }
                    }
                },
            }
        }
    }
}

/// The reaper's re-check of each kind of TTL field: an integer field is
/// due once the integer plus the delay (saturating) has come, a text field
/// once the instant its RFC 3339 text names plus the delay has come, and any
/// other field never.
pub proof fn recheck_of_each_field_kind(n: u64, text: String, delay: u64, now: u64)
    ensures
        spec_still_expired(ExpiryField::Unsigned(n), delay, now) <==> (if n + delay > u64::MAX {
            u64::MAX as int
        } else {
            n + delay
        }) <= now,
        spec_still_expired(ExpiryField::Text(text), delay, now) <==> (rfc3339_instant(text@) matches Some(
            (t, _),
        ) && (if (t as u64) + delay > u64::MAX {
            u64::MAX as int
        } else {
            (t as u64) + delay
        }) <= now),
        !spec_still_expired(ExpiryField::Other, delay, now),
{
}

/// The reaper's re-check of a document reads the same time from its TTL
/// field as its expiry entry does, whatever the field holds: the document is
/// still expired exactly when the field gives a time `t` and `t` plus the
/// delay (saturating) has come.
pub proof fn recheck_reads_the_field_time(f: ExpiryField, delay: u64, now: u64)
    ensures
        spec_still_expired(f, delay, now) <==> exists|t: u64|
            spec_expiry_time(f) == Some(t) && #[trigger] expires_at(t, delay) <= now,
        spec_still_expired(f, delay, now) ==> spec_expiry_time(f) is Some,
{
    match spec_expiry_time(f) {
        Some(t) => {
            assert(expires_at(t, delay) <= now ==> spec_still_expired(f, delay, now));
        },
        None => {},
    }
}

/// The reaper's re-check agrees with the entry the document's write added:
/// a document whose TTL field gives an expiry entry is still expired exactly
/// when a scan of its index reports that entry due, and a document whose
/// field gives no entry is never expired.
pub proof fn recheck_agrees_with_written_entry(
    index: TtlIndex,
    f: ExpiryField,
    doc_key: Seq<char>,
    now: u64,
)
    requires
        doc_key.len() > 0,
    ensures
        match spec_expiry_entry(index, f, doc_key) {
            Some(key) => spec_still_expired(f, index.expire_after_seconds, now) <==> spec_due_entries(
                seq![key],
                spec_ttl_expiry_prefix(encode_utf8(index.name@)),
                now,
            ).len() == 1,
            None => !spec_still_expired(f, index.expire_after_seconds, now),
        },
{
    match spec_expiry_time(f) {
        Some(t) => {
            entry_is_reaped_once_due(
                encode_utf8(index.name@),
                expires_at(t, index.expire_after_seconds),
                doc_key,
                now,
            );
        },
        None => {},
    }
}

} // verus!
