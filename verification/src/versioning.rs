//! Document versioning: the monotonic version clock and the history cap.
use vstd::prelude::*;
use vstd::utf8::encode_utf8;
use vstd::hash_map::StringHashMap;
use crate::bytes::{has_prefix, starts_with};
use crate::digits::{all_dec_digits, dec_value, is_dec_digit, parse_dec};

verus! {

broadcast use vstd::seq_lib::group_seq_properties;

/// History kept per document when no cap is configured.
pub const DEFAULT_MAX_VERSIONS: usize = 100;

/// The stamp the clock hands out at wall-clock time `now`: `now`, or one
/// past the previous stamp when the clock has not moved past it.
pub open spec fn next_stamp(last: u64, now: u64) -> u64 {
    if now > last {
        now
    } else {
        (last + 1) as u64
    }
}

/// Monotonic microsecond clock: rapid writes still get distinct, ordered
/// version timestamps.
pub struct VersionClock {
    pub last: u64,
}

impl VersionClock {
    pub fn new() -> (r: Self)
        ensures
            r.last == 0,
    {
        VersionClock { last: 0 }
    }

    /// The next version timestamp, given the wall clock `now` (epoch
    /// microseconds).
    pub fn next_version_micros(&mut self, now: u64) -> (ts: u64)
        requires
            old(self).last < u64::MAX,
        ensures
            ts == next_stamp(old(self).last, now),
            ts > old(self).last,
            ts >= now,
            final(self).last == ts,
    {
        let ts = if now > self.last {
            now
        } else {
            self.last + 1
        };
        self.last = ts;
        ts
    }
}

/// Successive stamps strictly increase, whatever the wall clock does.
pub proof fn stamps_strictly_increase(last: u64, now1: u64, now2: u64)
    requires
        last < u64::MAX,
        next_stamp(last, now1) < u64::MAX,
    ensures
        next_stamp(last, now1) < next_stamp(next_stamp(last, now1), now2),
{
}

/// Unicode `White_Space`, the characters `str::trim` removes.
pub open spec fn is_white_space(c: char) -> bool {
    let u = c as u32;
    ||| 9 <= u <= 13
    ||| u == 32
    ||| u == 0x85
    ||| u == 0xA0
    ||| u == 0x1680
    ||| 0x2000 <= u <= 0x200A
    ||| u == 0x2028
    ||| u == 0x2029
    ||| u == 0x202F
    ||| u == 0x205F
    ||| u == 0x3000
}

pub open spec fn trim_start(s: Seq<char>) -> Seq<char>
    decreases s.len(),
{
    if s.len() > 0 && is_white_space(s[0]) {
        trim_start(s.drop_first())
    } else {
        s
    }
}

pub open spec fn trim_end(s: Seq<char>) -> Seq<char>
    decreases s.len(),
{
    if s.len() > 0 && is_white_space(s.last()) {
        trim_end(s.drop_last())
    } else {
        s
    }
}

/// `s` without leading and trailing white space.
pub open spec fn trimmed(s: Seq<char>) -> Seq<char> {
    trim_end(trim_start(s))
}

/// Calls `str::trim`, which removes leading and trailing `White_Space`
/// characters.
#[verifier::external_body]
pub(crate) fn trim(s: &str) -> (r: &str)
    ensures
        r@ == trimmed(s@),
{
    s.trim()
}

/// What `str::parse::<usize>` reads: an optional `+`, then one or more
/// decimal digits whose value fits.
pub open spec fn spec_parse_usize(b: Seq<u8>) -> Option<usize> {
    let digits = if b.len() > 0 && b[0] == 43 {
        b.drop_first()
    } else {
        b
    };
    if digits.len() == 0 || !all_dec_digits(digits) || dec_value(digits) > usize::MAX {
        None
    } else {
        Some(dec_value(digits) as usize)
    }
}

/// Parse an unsigned integer as `str::parse::<usize>` does.
pub fn parse_usize(b: &[u8]) -> (r: Option<usize>)
    ensures
        r == spec_parse_usize(b@),
{
    let start: usize = if b.len() > 0 && b[0] == 43u8 { 1 } else { 0 };
    if start == b.len() {
        return None;
    }
    let mut digits: Vec<u8> = Vec::new();
    let mut i: usize = start;
    while i < b.len()
        invariant
            start <= i <= b@.len(),
            start == (if b@.len() > 0 && b@[0] == 43 { 1usize } else { 0usize }),
            digits@ == b@.subrange(start as int, i as int),
            all_dec_digits(digits@),
        decreases b@.len() - i,
    {
        if b[i] < 48u8 || b[i] > 57u8 {
            proof {
                let d = if b@.len() > 0 && b@[0] == 43 {
                    b@.drop_first()
                } else {
                    b@
                };
                assert(d[i - start] == b@[i as int]);
                assert(!is_dec_digit(d[i - start]));
            }
            return None;
        }
        digits.push(b[i]);
        i = i + 1;
        assert(digits@ =~= b@.subrange(start as int, i as int));
    }
    proof {
        if start == 1 {
            assert(b@.drop_first() =~= digits@);
        } else {
            assert(b@ =~= digits@);
        }
    }
    match parse_dec(digits.as_slice()) {
        Some(v) => {
            if v > usize::MAX as u64 {
                None
            } else {
                Some(v as usize)
            }
        },
        None => None,
    }
}

/// The history cap, given the `SOLIDB_MAX_VERSIONS` setting (`None` when
/// unset): the setting read as a positive integer, surrounding white space
/// ignored, else `DEFAULT_MAX_VERSIONS`.
pub fn max_versions(setting: Option<&str>) -> (r: usize)
    ensures
        r == match setting {
            Some(s) => match spec_parse_usize(encode_utf8(trimmed(s@))) {
                Some(n) => if n > 0 {
                    n
                } else {
                    DEFAULT_MAX_VERSIONS
                },
                None => DEFAULT_MAX_VERSIONS,
            },
            None => DEFAULT_MAX_VERSIONS,
        },
{
    match setting {
        Some(s) => {
            let t = trim(s);
            match parse_usize(t.as_bytes()) {
                Some(n) => if n > 0 {
                    n
                } else {
                    DEFAULT_MAX_VERSIONS
                },
                None => DEFAULT_MAX_VERSIONS,
            }
        },
        None => DEFAULT_MAX_VERSIONS,
    }
}

/// Which versions of a document a prune removes, given the keys that a
/// scan of its version prefix returned (newest first): every key under the
/// prefix after the first `max`, stopping at the first key outside it.
pub open spec fn spec_versions_to_prune(keys: Seq<Seq<u8>>, prefix: Seq<u8>, max: nat, idx: nat) -> Seq<
    Seq<u8>,
>
    decreases keys.len(),
{
    if keys.len() == 0 || !has_prefix(keys[0], prefix) {
        Seq::empty()
    } else {
        let rest = spec_versions_to_prune(keys.drop_first(), prefix, max, idx + 1);
        if idx >= max {
            seq![keys[0]] + rest
        } else {
            rest
        }
    }
}

pub open spec fn key_views(keys: Seq<Vec<u8>>) -> Seq<Seq<u8>> {
    keys.map_values(|k: Vec<u8>| k@)
}

/// The version keys of one document to delete so that at most `max`
/// versions remain: the scan returns the newest first, so these are the
/// oldest.
pub fn versions_to_prune(keys: &Vec<Vec<u8>>, prefix: &[u8], max: usize) -> (r: Vec<Vec<u8>>)
    ensures
        key_views(r@) == spec_versions_to_prune(key_views(keys@), prefix@, max as nat, 0),
{
    let ghost ks = key_views(keys@);
    let mut r: Vec<Vec<u8>> = Vec::new();
    let mut i: usize = 0;
    assert(ks.subrange(0, ks.len() as int) =~= ks);
    assert(key_views(r@) + spec_versions_to_prune(ks, prefix@, max as nat, 0) =~= spec_versions_to_prune(
        ks,
        prefix@,
        max as nat,
        0,
    ));
    while i < keys.len()
        invariant
            i <= keys.len(),
            ks == key_views(keys@),
            spec_versions_to_prune(ks, prefix@, max as nat, 0) == key_views(r@)
                + spec_versions_to_prune(ks.subrange(i as int, ks.len() as int), prefix@, max as nat, i as nat),
        decreases keys.len() - i,
    {
        let ghost rest = ks.subrange(i as int, ks.len() as int);
        assert(rest[0] == keys@[i as int]@);
        assert(rest.drop_first() =~= ks.subrange(i + 1, ks.len() as int));
        let k = &keys[i];
        if !starts_with(k.as_slice(), prefix) {
            assert(key_views(r@) + Seq::<Seq<u8>>::empty() =~= key_views(r@));
            return r;
        }
        if i >= max {
            let ghost before = key_views(r@);
            r.push(k.clone());
            assert(key_views(r@) =~= before.push(k@));
            assert(before + (seq![k@] + spec_versions_to_prune(rest.drop_first(), prefix@, max as nat, (i + 1) as nat))
                =~= key_views(r@) + spec_versions_to_prune(rest.drop_first(), prefix@, max as nat, (i + 1) as nat));
        }
        i = i + 1;
    }
    assert(ks.subrange(i as int, ks.len() as int) =~= Seq::<Seq<u8>>::empty());
    assert(key_views(r@) + Seq::<Seq<u8>>::empty() =~= key_views(r@));
    r
}

/// What `scan_as_of` keeps of one document: among the versions with a
/// time at or before `as_of`, the newest (the first seen among equal
/// times), unless it is a tombstone.
pub open spec fn is_chosen(records: Seq<(String, u64, bool)>, as_of: u64, i: int) -> bool {
    let (key, ts, deleted) = records[i];
    &&& ts <= as_of
    &&& !deleted
    &&& forall|j: int|
        0 <= j < records.len() && j != i && #[trigger] records[j].0@ == key@ && records[j].1 <= as_of
            ==> (records[j].1 < ts || (records[j].1 == ts && i < j))
}

/// Whether version `i` is the newest of its document at or before
/// `as_of`, tombstone or not.
pub open spec fn is_latest(records: Seq<(String, u64, bool)>, as_of: u64, i: int) -> bool {
    let (key, ts, _) = records[i];
    &&& ts <= as_of
    &&& forall|j: int|
        0 <= j < records.len() && j != i && #[trigger] records[j].0@ == key@ && records[j].1 <= as_of
            ==> (records[j].1 < ts || (records[j].1 == ts && i < j))
}

/// The newest record of document `key` among the first `n` at or before
/// `as_of` sits at `b` (the first of them among equal times).
pub open spec fn best_so_far(records: Seq<(String, u64, bool)>, as_of: u64, n: int, key: Seq<char>, b: int) -> bool {
    &&& 0 <= b < n
    &&& records[b].0@ == key
    &&& records[b].1 <= as_of
    &&& forall|j: int|
        0 <= j < n && j != b && #[trigger] records[j].0@ == key && records[j].1 <= as_of ==> (
        records[j].1 < records[b].1 || (records[j].1 == records[b].1 && b < j))
}

/// The versions an `AS OF` scan returns, given every version record
/// (document key, time, tombstone) in scan order: for each document, its
/// newest version at or before `as_of`, left out when that is a tombstone.
/// Positions are returned in increasing order.
pub fn latest_versions(records: &Vec<(String, u64, bool)>, as_of: u64) -> (r: Vec<usize>)
    ensures
        forall|a: int, b: int| 0 <= a < b < r.len() ==> r@[a] < r@[b],
        forall|k: int| 0 <= k < r.len() ==> (#[trigger] r@[k]) < records.len(),
        forall|i: int|
            0 <= i < records.len() ==> (r@.contains(i as usize) <==> #[trigger] is_chosen(records@, as_of, i)),
{
    let mut best: StringHashMap<usize> = StringHashMap::new();
    let mut i: usize = 0;
    while i < records.len()
        invariant
            i <= records.len(),
            forall|k: Seq<char>|
                #[trigger] best@.contains_key(k) ==> best_so_far(records@, as_of, i as int, k, best@[k] as int),
            forall|j: int|
                0 <= j < i && records@[j].1 <= as_of ==> #[trigger] best@.contains_key(records@[j].0@),
        decreases records.len() - i,
    {
        let (key, ts) = (&records[i].0, records[i].1);
        if ts <= as_of {
            let replace = match best.get(key.as_str()) {
                Some(b) => ts > records[*b].1,
                None => true,
            };
            let ghost old_best = best@;
            if replace {
                best.insert(key.clone(), i);
            }
            proof {
                assert forall|k: Seq<char>| #[trigger] best@.contains_key(k) implies best_so_far(
                    records@,
                    as_of,
                    i + 1,
                    k,
                    best@[k] as int,
                ) by {
                    if k == key@ {
                        if old_best.contains_key(k) {
                            let b = old_best[k] as int;
                            assert(best_so_far(records@, as_of, i as int, k, b));
                        }
                    } else {
                        assert(old_best.contains_key(k));
                        assert(best_so_far(records@, as_of, i as int, k, old_best[k] as int));
                    }
                }
            }
        } else {
            proof {
                assert forall|k: Seq<char>| #[trigger] best@.contains_key(k) implies best_so_far(
                    records@,
                    as_of,
                    i + 1,
                    k,
                    best@[k] as int,
                ) by {
                    assert(best_so_far(records@, as_of, i as int, k, best@[k] as int));
                }
            }
        }
        i = i + 1;
    }
    let mut r: Vec<usize> = Vec::new();
    let mut i: usize = 0;
    while i < records.len()
        invariant
            i <= records.len(),
            forall|k: Seq<char>|
                #[trigger] best@.contains_key(k) ==> best_so_far(records@, as_of, records.len() as int, k, best@[k] as int),
            forall|j: int|
                0 <= j < records.len() && records@[j].1 <= as_of ==> #[trigger] best@.contains_key(records@[j].0@),
            forall|a: int, b: int| 0 <= a < b < r.len() ==> r@[a] < r@[b],
            forall|k: int| 0 <= k < r.len() ==> (#[trigger] r@[k]) < i,
            forall|x: int|
                0 <= x < i ==> (r@.contains(x as usize) <==> #[trigger] is_chosen(records@, as_of, x)),
        decreases records.len() - i,
    {
        let (key, ts, deleted) = (&records[i].0, records[i].1, records[i].2);
        let chosen = ts <= as_of && !deleted && match best.get(key.as_str()) {
            Some(b) => *b == i,
            None => false,
        };
        proof {
            if ts <= as_of {
                assert(best@.contains_key(key@));
                let b = best@[key@] as int;
                assert(best_so_far(records@, as_of, records.len() as int, key@, b));
                if b == i {
                    assert(is_latest(records@, as_of, i as int));
                } else {
                    assert(records@[b].0@ == key@);
                    assert(!is_latest(records@, as_of, i as int));
                }
            }
            assert(chosen == is_chosen(records@, as_of, i as int));
        }
        let ghost old_r = r@;
        if chosen {
            r.push(i);
        }
        proof {
            assert forall|x: int| 0 <= x < i + 1 implies (r@.contains(x as usize) <==> #[trigger] is_chosen(
                records@,
                as_of,
                x,
            )) by {
                if x < i {
                    if r@.contains(x as usize) {
                        let k = choose|k: int| 0 <= k < r@.len() && r@[k] == x as usize;
                        if k < old_r.len() {
                            assert(old_r[k] == x as usize);
                        } else {
                            assert(r@[k] == i);
                        }
                    }
                    if old_r.contains(x as usize) {
                        let k = choose|k: int| 0 <= k < old_r.len() && old_r[k] == x as usize;
                        assert(r@[k] == x as usize);
                    }
                } else {
                    if r@.contains(x as usize) {
                        let k = choose|k: int| 0 <= k < r@.len() && r@[k] == x as usize;
                        if k < old_r.len() {
                            assert(old_r[k] < i);
                        }
                    }
                    if chosen {
                        assert(r@[r@.len() - 1] == i);
                    }
                }
            }
        }
        i = i + 1;
    }
    r
}

} // verus!
