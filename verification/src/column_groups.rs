//! Grouping the rows of a columnar collection: the seconds of a time-bucket
//! interval, the bucket a timestamp falls in and how it is written, the key
//! a row's group values make, and the rows each group key gathers.
use vstd::prelude::*;
use vstd::hash_map::StringHashMap;
use vstd::utf8::{encode_utf8, is_char_boundary};
use crate::columnar::{parse_interval, spec_parse_interval};
use crate::fulltext::texts;
use crate::timestamps::{format_rfc3339_offset, rfc3339_offset_text};

verus! {

broadcast use vstd::seq_lib::group_seq_properties;

/// Seconds in one unit of a bucket interval, given the unit's bytes: `m`
/// minutes, `h` hours, `d` days; `s` and any other unit count seconds.
pub open spec fn unit_seconds(unit: Seq<u8>) -> int {
    if unit == seq![0x6du8] {
        60
    } else if unit == seq![0x68u8] {
        3600
    } else if unit == seq![0x64u8] {
        86400
    } else {
        1
    }
}

/// The length in seconds of a bucket of `num` units. The product must fit
/// in an `i64`.
pub fn bucket_size(num: i64, unit: &str) -> (r: i64)
    requires
        i64::MIN <= num * unit_seconds(encode_utf8(unit@)) <= i64::MAX,
    ensures
        r == num * unit_seconds(encode_utf8(unit@)),
{
    let u = unit.as_bytes();
    assert(u@ == encode_utf8(unit@));
    if u.len() == 1 && u[0] == 0x6d {
        assert(u@ =~= seq![0x6du8]);
        num * 60
    } else if u.len() == 1 && u[0] == 0x68 {
        assert(u@ =~= seq![0x68u8]);
        num * 3600
    } else if u.len() == 1 && u[0] == 0x64 {
        assert(u@ =~= seq![0x64u8]);
        num * 86400
    } else {
        num
    }
}

pub open spec fn abs(a: int) -> int {
    if a < 0 {
        -a
    } else {
        a
    }
}

/// Integer division rounding toward zero, as Rust's `/` on integers does.
pub open spec fn div_toward_zero(a: int, b: int) -> int {
    let q = abs(a) / abs(b);
    if (a < 0) != (b < 0) {
        -q
    } else {
        q
    }
}

/// The start of the bucket of `size` seconds that `timestamp` falls in:
/// the timestamp divided by the size, rounding toward zero, times the size.
/// The size must not be zero, and `i64::MIN` cannot be divided by `-1`.
pub fn time_bucket(timestamp: i64, size: i64) -> (r: i64)
    requires
        size != 0,
        !(timestamp == i64::MIN && size == -1),
    ensures
        r == div_toward_zero(timestamp as int, size as int) * size,
{
    let t: i128 = timestamp as i128;
    let s: i128 = size as i128;
    let ta: i128 = if t < 0 { -t } else { t };
    let sa: i128 = if s < 0 { -s } else { s };
    let q: i128 = ta / sa;
    proof {
        assert(0 <= q * sa <= ta) by (nonlinear_arith)
            requires
                0 <= ta,
                0 < sa,
                q == ta / sa,
        ;
        assert(q <= ta) by (nonlinear_arith)
            requires
                0 <= ta,
                1 <= sa,
                q == ta / sa,
        ;
    }
    let signed: i128 = if (t < 0) != (s < 0) { -q } else { q };
    proof {
        if t < 0 {
            assert(signed * s == -(q * sa)) by (nonlinear_arith)
                requires
                    (s < 0 && signed == q && s == -sa) || (s >= 0 && signed == -q && s == sa),
            ;
        } else {
            assert(signed * s == q * sa) by (nonlinear_arith)
                requires
                    (s < 0 && signed == -q && s == -sa) || (s >= 0 && signed == q && s == sa),
            ;
        }
    }
    (signed * s) as i64
}

/// Whether an interval can be split before its last byte, as reading it
/// does (`str::split_at` refuses to split inside a character).
pub open spec fn interval_splits(interval: Seq<char>) -> bool {
    encode_utf8(interval).len() < 2 || is_char_boundary(encode_utf8(interval), encode_utf8(interval).len() - 1)
}

/// The count and unit of a bucket interval; one hour when it does not read.
pub open spec fn spec_interval(interval: Seq<char>) -> (i64, Seq<u8>) {
    match spec_parse_interval(encode_utf8(interval)) {
        Some(p) => p,
        None => (1, seq![0x68u8]),
    }
}

/// The length in seconds of an interval's buckets.
pub open spec fn bucket_len(interval: Seq<char>) -> int {
    spec_interval(interval).0 * unit_seconds(spec_interval(interval).1)
}

/// Whether the bucket of `secs` under `interval` can be computed: the
/// interval splits, its length fits in an `i64` and is not zero, and the
/// division does not overflow.
pub open spec fn bucket_defined(secs: i64, interval: Seq<char>) -> bool {
    &&& interval_splits(interval)
    &&& i64::MIN <= bucket_len(interval) <= i64::MAX
    &&& bucket_len(interval) != 0
    &&& !(secs == i64::MIN && bucket_len(interval) == -1)
}

/// The group-key part of a time-bucket column: for a value whose text read
/// as an instant (`instant`, its Unix seconds), the start of its bucket
/// written as RFC 3339; otherwise, and where that start cannot be written,
/// the value's JSON text.
pub open spec fn spec_bucket_part(instant: Option<i64>, value_text: Seq<char>, interval: Seq<char>) -> Seq<
    char,
> {
    match instant {
        None => value_text,
        Some(secs) => match rfc3339_offset_text(
            (div_toward_zero(secs as int, bucket_len(interval)) * bucket_len(interval)) as i64,
        ) {
            Some(t) => t,
            None => value_text,
        },
    }
}

/// Whether `bucket_part` may be called: an instant's bucket is defined.
pub fn bucket_part_defined(instant: Option<i64>, interval: &str) -> (r: bool)
    ensures
        r == (instant matches Some(secs) ==> bucket_defined(secs, interval@)),
{
    let secs = match instant {
        Some(s) => s,
        None => return true,
    };
    let b = interval.as_bytes();
    assert(b@ == encode_utf8(interval@));
    if b.len() >= 2 && !interval.is_char_boundary(b.len() - 1) {
        return false;
    }
    let (num, unit): (i64, &str) = match parse_interval(interval) {
        Some(p) => p,
        None => (1, "h"),
    };
    proof {
        lemma_hour_unit();
    }
    let u = unit.as_bytes();
    assert(u@ == encode_utf8(unit@));
    let factor: i64 = if u.len() == 1 && u[0] == 0x6d {
        assert(u@ =~= seq![0x6du8]);
        60
    } else if u.len() == 1 && u[0] == 0x68 {
        assert(u@ =~= seq![0x68u8]);
        3600
    } else if u.len() == 1 && u[0] == 0x64 {
        assert(u@ =~= seq![0x64u8]);
        86400
    } else {
        1
    };
    match num.checked_mul(factor) {
        Some(size) => size != 0 && !(secs == i64::MIN && size == -1),
        None => false,
    }
}

proof fn lemma_hour_unit()
    ensures
        encode_utf8("h"@) == seq![0x68u8],
{
    reveal_strlit("h");
    assert("h"@ =~= seq!['h']);
    vstd::utf8::is_ascii_chars_encode_utf8("h"@);
    assert(encode_utf8("h"@) =~= seq![0x68u8]);
}

/// The group-key part of a time-bucket column, given the Unix seconds its
/// value's text reads as (`None` when it does not read as an instant) and
/// the value's JSON text.
pub fn bucket_part(instant: Option<i64>, value_text: &str, interval: &str) -> (r: String)
    requires
        instant matches Some(secs) ==> bucket_defined(secs, interval@),
    ensures
        r@ == spec_bucket_part(instant, value_text@, interval@),
{
    match instant {
        None => String::from_str(value_text),
        Some(secs) => {
            let (num, unit): (i64, &str) = match parse_interval(interval) {
                Some(p) => p,
                None => (1, "h"),
            };
            proof {
                lemma_hour_unit();
            }
            let size = bucket_size(num, unit);
            let start = time_bucket(secs, size);
            match format_rfc3339_offset(start) {
                Some(t) => t,
                None => String::from_str(value_text),
            }
        },
    }
}

/// The texts of a row's group values joined with `|`.
pub open spec fn joined(parts: Seq<Seq<char>>) -> Seq<char>
    decreases parts.len(),
{
    if parts.len() == 0 {
        Seq::empty()
    } else if parts.len() == 1 {
        parts[0]
    } else {
        joined(parts.drop_last()) + seq!['|'] + parts.last()
    }
}

/// The group key of a row: its group values' texts joined with `|`.
pub fn group_key(parts: &Vec<String>) -> (r: String)
    ensures
        r@ == joined(texts(parts@)),
{
    let ghost ps = texts(parts@);
    let mut key = String::from_str("");
    proof {
        reveal_strlit("");
        reveal_strlit("|");
    }
    let mut i: usize = 0;
    while i < parts.len()
        invariant
            i <= parts.len(),
            ps == texts(parts@),
            key@ == joined(ps.take(i as int)),
        decreases parts.len() - i,
    {
        assert(ps.take(i + 1).drop_last() =~= ps.take(i as int));
        if i > 0 {
            key.append("|");
        }
        key.append(parts[i].as_str());
        proof {
            reveal_strlit("");
            reveal_strlit("|");
            assert(""@ =~= Seq::<char>::empty());
            assert("|"@ =~= seq!['|']);
            if i == 0 {
                assert(ps.take(1) =~= seq![parts@[0]@]);
                assert(key@ =~= parts@[0]@);
            } else {
                assert(ps.take(i + 1).last() == parts@[i as int]@);
            }
        }
        i = i + 1;
    }
    assert(ps.take(parts.len() as int) =~= ps);
    key
}

/// Whether `rows` lists exactly the rows whose key is `key`, in order.
pub open spec fn rows_of(keys: Seq<Seq<char>>, key: Seq<char>, rows: Seq<usize>) -> bool {
    &&& forall|a: int, b: int| 0 <= a < b < rows.len() ==> rows[a] < rows[b]
    &&& forall|j: int| 0 <= j < rows.len() ==> rows[j] < keys.len() && keys[rows[j] as int] == key
    &&& forall|i: int|
        0 <= i < keys.len() && keys[i] == key ==> exists|j: int| 0 <= j < rows.len() && rows[j] == i
}

proof fn lemma_rows_of_other_key(pre: Seq<Seq<char>>, k: Seq<char>, key: Seq<char>, rows: Seq<usize>)
    requires
        rows_of(pre, key, rows),
        key != k,
    ensures
        rows_of(pre.push(k), key, rows),
{
    let next = pre.push(k);
    assert forall|j: int| 0 <= j < rows.len() implies rows[j] < next.len() && next[rows[j] as int] == key by {
        assert(next[rows[j] as int] == pre[rows[j] as int]);
    }
    assert forall|x: int| 0 <= x < next.len() && next[x] == key implies exists|j: int|
        0 <= j < rows.len() && rows[j] == x by {
        assert(x < pre.len());
        assert(pre[x] == key);
    }
}

proof fn lemma_rows_of_same_key(pre: Seq<Seq<char>>, key: Seq<char>, rows: Seq<usize>)
    requires
        rows_of(pre, key, rows),
        rows.len() > 0 ==> rows.last() < pre.len(),
        pre.len() <= usize::MAX,
    ensures
        rows_of(pre.push(key), key, rows.push(pre.len() as usize)),
{
    let next = pre.push(key);
    let r2 = rows.push(pre.len() as usize);
    assert forall|a: int, b: int| 0 <= a < b < r2.len() implies r2[a] < r2[b] by {
        if b == rows.len() {
            if a < rows.len() - 1 {
                assert(rows[a] < rows[rows.len() - 1]);
            }
        }
    }
    assert forall|j: int| 0 <= j < r2.len() implies r2[j] < next.len() && next[r2[j] as int] == key by {
        if j < rows.len() {
            assert(next[rows[j] as int] == pre[rows[j] as int]);
        }
    }
    assert forall|x: int| 0 <= x < next.len() && next[x] == key implies exists|j: int|
        0 <= j < r2.len() && r2[j] == x by {
        if x < pre.len() {
            assert(pre[x] == key);
            let j = choose|j: int| 0 <= j < rows.len() && rows[j] == x;
            assert(r2[j] == x);
        } else {
            assert(r2[rows.len() as int] == x);
        }
    }
}

proof fn lemma_rows_of_new_key(pre: Seq<Seq<char>>, key: Seq<char>)
    requires
        forall|x: int| 0 <= x < pre.len() ==> pre[x] != key,
        pre.len() <= usize::MAX,
    ensures
        rows_of(pre.push(key), key, seq![pre.len() as usize]),
{
    let next = pre.push(key);
    let r2 = seq![pre.len() as usize];
    assert forall|x: int| 0 <= x < next.len() && next[x] == key implies exists|j: int|
        0 <= j < r2.len() && r2[j] == x by {
        if x < pre.len() {
            assert(next[x] == pre[x]);
        }
        assert(r2[0] == x);
    }
}

/// The keys of the groups.
pub open spec fn group_keys(r: Seq<(String, Vec<usize>)>) -> Seq<Seq<char>> {
    r.map_values(|g: (String, Vec<usize>)| g.0@)
}

/// The groups of rows by key: one group per distinct key, in the order of
/// each key's first row, with the rows that have that key.
pub fn group_rows(keys: &Vec<String>) -> (r: Vec<(String, Vec<usize>)>)
    ensures
        forall|a: int, b: int| 0 <= a < b < r.len() ==> r@[a].0@ != r@[b].0@,
        forall|g: int| 0 <= g < r.len() ==> rows_of(texts(keys@), (#[trigger] r@[g]).0@, r@[g].1@),
        forall|g: int| 0 <= g < r.len() ==> (#[trigger] r@[g]).1@.len() > 0,
        forall|a: int, b: int| 0 <= a < b < r.len() ==> r@[a].1@[0] < r@[b].1@[0],
        forall|i: int| 0 <= i < keys.len() ==> group_keys(r@).contains(#[trigger] keys@[i]@),
{
    let ghost ks = texts(keys@);
    let mut at: StringHashMap<usize> = StringHashMap::new();
    let mut names: Vec<String> = Vec::new();
    let mut rows: Vec<Vec<usize>> = Vec::new();
    let mut i: usize = 0;
    while i < keys.len()
        invariant
            i <= keys.len(),
            ks == texts(keys@),
            names.len() == rows.len(),
            forall|a: int, b: int| 0 <= a < b < names.len() ==> names@[a]@ != names@[b]@,
            forall|k: Seq<char>|
                #[trigger] at@.contains_key(k) ==> at@[k] < names.len() && names@[at@[k] as int]@ == k,
            forall|g: int| 0 <= g < names.len() ==> #[trigger] at@.contains_key(names@[g]@),
            forall|g: int| 0 <= g < names.len() ==> rows_of(ks.take(i as int), names@[g]@, #[trigger] rows@[g]@),
            forall|g: int| 0 <= g < names.len() ==> (#[trigger] rows@[g])@.len() > 0,
            forall|g: int| 0 <= g < names.len() ==> (#[trigger] rows@[g])@.last() < i,
            forall|a: int, b: int| 0 <= a < b < names.len() ==> rows@[a]@[0] < rows@[b]@[0],
            forall|j: int| 0 <= j < i ==> #[trigger] at@.contains_key(ks[j]),
        decreases keys.len() - i,
    {
        let ghost pre = ks.take(i as int);
        let ghost next = ks.take(i + 1);
        let ghost old_names = names@;
        let ghost old_rows = rows@;
        assert(next =~= pre.push(keys@[i as int]@));
        let key = &keys[i];
        match at.get(key.as_str()) {
            Some(p) => {
                let p = *p;
                let mut g = rows[p].clone();
                assert(g@ =~= old_rows[p as int]@);
                g.push(i);
                rows.set(p, g);
                proof {
                    assert forall|h: int| 0 <= h < names.len() implies rows_of(
                        next,
                        names@[h]@,
                        #[trigger] rows@[h]@,
                    ) by {
                        if h == p {
                            lemma_rows_of_same_key(pre, key@, old_rows[h]@);
                        } else {
                            assert(names@[h]@ != key@);
                            lemma_rows_of_other_key(pre, key@, names@[h]@, old_rows[h]@);
                        }
                    }
                    assert forall|a: int, b: int| 0 <= a < b < names.len() implies rows@[a]@[0]
                        < rows@[b]@[0] by {
                        assert(rows@[a]@[0] == old_rows[a]@[0]);
                        assert(rows@[b]@[0] == old_rows[b]@[0]);
                    }
                    assert(ks[i as int] == key@);
                }
            },
            None => {
                let n = names.len();
                proof {
                    assert forall|x: int| 0 <= x < pre.len() implies pre[x] != key@ by {
                        assert(at@.contains_key(ks[x]));
                    }
                    lemma_rows_of_new_key(pre, key@);
                    assert forall|h: int| 0 <= h < n implies names@[h]@ != key@ by {
                        assert(at@.contains_key(names@[h]@));
                    }
                }
                at.insert(key.clone(), n);
                let name = key.clone();
                names.push(name);
                let mut g: Vec<usize> = Vec::new();
                g.push(i);
                assert(g@ =~= seq![i]);
                rows.push(g);
                proof {
                    assert forall|h: int| 0 <= h < names.len() implies rows_of(
                        next,
                        names@[h]@,
                        #[trigger] rows@[h]@,
                    ) by {
                        if h < n {
                            assert(names@[h] == old_names[h]);
                            assert(rows@[h] == old_rows[h]);
                            lemma_rows_of_other_key(pre, key@, names@[h]@, old_rows[h]@);
                        }
                    }
                    assert forall|k: Seq<char>| #[trigger] at@.contains_key(k) implies at@[k] < names.len()
                        && names@[at@[k] as int]@ == k by {
                        if k != key@ {
                            assert(names@[at@[k] as int] == old_names[at@[k] as int]);
                        }
                    }
                    assert forall|h: int| 0 <= h < names.len() implies #[trigger] at@.contains_key(
                        names@[h]@,
                    ) by {
                        if h < n {
                            assert(names@[h] == old_names[h]);
                        }
                    }
                    assert forall|a: int, b: int| 0 <= a < b < names.len() implies names@[a]@
                        != names@[b]@ by {
                        if b == n {
                            assert(names@[a] == old_names[a]);
                        }
                    }
                    assert forall|a: int, b: int| 0 <= a < b < names.len() implies rows@[a]@[0]
                        < rows@[b]@[0] by {
                        assert(rows@[a] == old_rows[a]);
                        if b < n {
                            assert(rows@[b] == old_rows[b]);
                        } else {
                            assert(old_rows[a]@[0] <= old_rows[a]@.last()) by {
                                let rs = old_rows[a]@;
                                if rs.len() > 1 {
                                    assert(rs[0] < rs[rs.len() - 1]);
                                }
                            }
                        }
                    }
                    assert(ks[i as int] == key@);
                }
            },
        }
        i = i + 1;
    }
    assert(ks.take(keys.len() as int) =~= ks);
    let mut r: Vec<(String, Vec<usize>)> = Vec::new();
    let mut g: usize = 0;
    while g < names.len()
        invariant
            g <= names.len() == rows.len(),
            r.len() == g,
            ks == texts(keys@),
            forall|a: int, b: int| 0 <= a < b < names.len() ==> names@[a]@ != names@[b]@,
            forall|h: int| 0 <= h < names.len() ==> rows_of(ks, names@[h]@, #[trigger] rows@[h]@),
            forall|h: int| 0 <= h < names.len() ==> (#[trigger] rows@[h])@.len() > 0,
            forall|a: int, b: int| 0 <= a < b < names.len() ==> rows@[a]@[0] < rows@[b]@[0],
            forall|j: int| 0 <= j < keys.len() ==> #[trigger] at@.contains_key(ks[j]),
            forall|k: Seq<char>|
                #[trigger] at@.contains_key(k) ==> at@[k] < names.len() && names@[at@[k] as int]@ == k,
            forall|h: int| 0 <= h < g ==> (#[trigger] r@[h]).0@ == names@[h]@ && r@[h].1@ == rows@[h]@,
        decreases names.len() - g,
    {
        let rs = rows[g].clone();
        assert(rs@ =~= rows@[g as int]@);
        r.push((names[g].clone(), rs));
        g = g + 1;
    }
    proof {
        assert forall|h: int| 0 <= h < keys.len() implies group_keys(r@).contains(#[trigger] keys@[h]@) by {
            assert(ks[h] == keys@[h]@);
            assert(at@.contains_key(ks[h]));
            let x = at@[ks[h]] as int;
            assert(r@[x].0@ == names@[x]@);
            assert(group_keys(r@)[x] == keys@[h]@);
        }
        assert forall|a: int, b: int| 0 <= a < b < r.len() implies r@[a].1@[0] < r@[b].1@[0] by {
            assert(r@[a].1@ == rows@[a]@);
            assert(r@[b].1@ == rows@[b]@);
        }
        assert forall|a: int, b: int| 0 <= a < b < r.len() implies r@[a].0@ != r@[b].0@ by {
            assert(r@[a].0@ == names@[a]@);
            assert(r@[b].0@ == names@[b]@);
        }
        assert forall|h: int| 0 <= h < r.len() implies rows_of(ks, (#[trigger] r@[h]).0@, r@[h].1@) by {
            assert(r@[h].1@ == rows@[h]@);
        }
        assert forall|h: int| 0 <= h < r.len() implies (#[trigger] r@[h]).1@.len() > 0 by {
            assert(r@[h].1@ == rows@[h]@);
        }
    }
    r
}

} // verus!
