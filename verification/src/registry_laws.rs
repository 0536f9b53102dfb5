//! What the registry promises: a collection is listed under its database
//! exactly when its entry was recorded, and one database's prefix never
//! catches another database's collections.
use vstd::prelude::*;
use vstd::utf8::{
    decode_utf8, decode_utf8_encode_utf8, encode_scalar, encode_utf8, encode_utf8_decode_utf8,
    encode_utf8_valid_utf8, valid_utf8, valid_utf8_concat,
};
use crate::bytes::{has_prefix, lemma_ascii_valid_utf8};
use crate::keys::COLON;
use crate::registry::{spec_database_prefix, spec_entry_key, strip, stripped, ENTRY_PREFIX};

verus! {

broadcast use vstd::seq_lib::group_seq_properties;

/// UTF-8 encoding distributes over concatenation.
pub proof fn lemma_encode_utf8_concat(a: Seq<char>, b: Seq<char>)
    ensures
        encode_utf8(a + b) == encode_utf8(a) + encode_utf8(b),
    decreases a.len(),
{
    if a.len() == 0 {
        assert(a + b =~= b);
    } else {
        assert((a + b).drop_first() =~= a.drop_first() + b);
        lemma_encode_utf8_concat(a.drop_first(), b);
        assert(encode_utf8(a + b) =~= encode_scalar(a[0] as u32) + encode_utf8(a.drop_first() + b));
    }
}

pub proof fn lemma_encode_colon()
    ensures
        encode_utf8(seq![':']) == seq![COLON],
{
    assert(encode_utf8(seq![':']) =~= encode_scalar(':' as u32) + encode_utf8(
        seq![':'].drop_first(),
    ));
    assert((':' as u32) == 58);
    assert((58u32 & 0x7Fu32) as u8 == 58u8) by (bit_vector);
    assert(encode_utf8(seq![':']) =~= seq![COLON]);
}

/// The registry entry of `<db>:<name>` is the database prefix followed by
/// the name.
pub proof fn entry_key_extends_database_prefix(db: Seq<char>, name: Seq<char>)
    ensures
        spec_entry_key(db + seq![':'] + name) == spec_database_prefix(db) + encode_utf8(name),
{
    lemma_encode_utf8_concat(db + seq![':'], name);
    lemma_encode_utf8_concat(db, seq![':']);
    lemma_encode_colon();
    assert(spec_entry_key(db + seq![':'] + name) =~= spec_database_prefix(db) + encode_utf8(name));
}

proof fn lemma_strip_is_name(k: Seq<char>, p: Seq<u8>, name: Seq<char>)
    requires
        valid_utf8(p),
    ensures
        (strip(k, p) == Some(name)) == (k == decode_utf8(p + encode_utf8(name))),
{
    let e = encode_utf8(name);
    encode_utf8_valid_utf8(name);
    valid_utf8_concat(p, e);
    encode_utf8_valid_utf8(k);
    encode_utf8_decode_utf8(k);
    decode_utf8_encode_utf8(p + e);
    let b = encode_utf8(k);
    let rest = b.subrange(p.len() as int, b.len() as int);
    if strip(k, p) == Some(name) {
        decode_utf8_encode_utf8(rest);
        encode_utf8_decode_utf8(name);
        assert(b =~= p + rest);
    }
    if k == decode_utf8(p + e) {
        assert(b == p + e);
        assert(rest =~= e);
        assert(b.subrange(0, p.len() as int) =~= p);
        encode_utf8_decode_utf8(name);
    }
}

/// A name is listed under `prefix` exactly when some key is the prefix
/// followed by that name.
pub proof fn listed_iff_key_present(keys: Seq<Seq<char>>, p: Seq<u8>, name: Seq<char>)
    requires
        valid_utf8(p),
    ensures
        stripped(keys, p).contains(name) == keys.contains(decode_utf8(p + encode_utf8(name))),
    decreases keys.len(),
{
    let e = decode_utf8(p + encode_utf8(name));
    if keys.len() > 0 {
        let init = keys.drop_last();
        listed_iff_key_present(init, p, name);
        lemma_strip_is_name(keys.last(), p, name);
        assert(keys =~= init.push(keys.last()));
        if keys.contains(e) {
            let i = choose|i: int| 0 <= i < keys.len() && keys[i] == e;
            if i < keys.len() - 1 {
                assert(init[i] == e);
            }
        }
        if init.contains(e) {
            let i = choose|i: int| 0 <= i < init.len() && init[i] == e;
            assert(keys[i] == e);
        }
        let r0 = stripped(init, p);
        match strip(keys.last(), p) {
            Some(s) => {
                assert(stripped(keys, p) == r0.push(s));
                if r0.contains(name) {
                    let j = choose|j: int| 0 <= j < r0.len() && r0[j] == name;
                    assert(r0.push(s)[j] == name);
                }
                if r0.push(s).contains(name) {
                    let j = choose|j: int| 0 <= j < r0.push(s).len() && r0.push(s)[j] == name;
                    if j < r0.len() {
                        assert(r0[j] == name);
                    }
                }
            },
            None => {},
        }
    }
}

/// Recording `<db>:<name>` makes `name` listed under `db`, and a name is
/// listed under `db` only while the entry of `<db>:<name>` is among the keys.
pub proof fn listed_iff_recorded(keys: Seq<Seq<char>>, db: Seq<char>, name: Seq<char>)
    ensures
        stripped(keys, spec_database_prefix(db)).contains(name) == keys.contains(
            decode_utf8(spec_entry_key(db + seq![':'] + name)),
        ),
{
    let p = spec_database_prefix(db);
    encode_utf8_valid_utf8(ENTRY_PREFIX@);
    encode_utf8_valid_utf8(db);
    lemma_ascii_valid_utf8(seq![COLON]);
    valid_utf8_concat(encode_utf8(ENTRY_PREFIX@), encode_utf8(db));
    valid_utf8_concat(encode_utf8(ENTRY_PREFIX@) + encode_utf8(db), seq![COLON]);
    entry_key_extends_database_prefix(db, name);
    listed_iff_key_present(keys, p, name);
}

/// Column families of two different databases never share a name, when the
/// database names hold no `:`: so the entries of `app_test` are never listed
/// under `app`.
pub proof fn databases_do_not_share_collections(
    db1: Seq<char>,
    db2: Seq<char>,
    n1: Seq<char>,
    n2: Seq<char>,
)
    requires
        db1 != db2,
        !db1.contains(':'),
        !db2.contains(':'),
    ensures
        db1 + seq![':'] + n1 != db2 + seq![':'] + n2,
{
    let a = db1 + seq![':'] + n1;
    let b = db2 + seq![':'] + n2;
    if a == b {
        if db1.len() < db2.len() {
            assert(a[db1.len() as int] == ':');
            assert(b[db1.len() as int] == db2[db1.len() as int]);
            assert(db2.contains(db2[db1.len() as int]));
        } else if db2.len() < db1.len() {
            assert(b[db2.len() as int] == ':');
            assert(a[db2.len() as int] == db1[db2.len() as int]);
            assert(db1.contains(db1[db2.len() as int]));
        } else {
            assert(db1 =~= a.subrange(0, db1.len() as int));
            assert(db2 =~= b.subrange(0, db2.len() as int));
        }
    }
}

proof fn lemma_strip_twice(k: Seq<char>, p: Seq<u8>, q: Seq<u8>)
    requires
        valid_utf8(q),
    ensures
        strip(k, p + q) == match strip(k, p) {
            Some(s) => strip(s, q),
            None => None,
        },
{
    let b = encode_utf8(k);
    let pq = p + q;
    let rest1 = b.subrange(p.len() as int, b.len() as int);
    let rest2 = b.subrange(pq.len() as int, b.len() as int);
    if has_prefix(b, pq) {
        assert(b.subrange(0, p.len() as int) =~= pq.subrange(0, p.len() as int));
        assert(pq.subrange(0, p.len() as int) =~= p);
        assert(rest1 =~= q + rest2) by {
            assert forall|i: int| 0 <= i < q.len() implies rest1[i] == q[i] by {
                assert(b.subrange(0, pq.len() as int)[p.len() + i] == pq[p.len() + i]);
            }
        }
    }
    if has_prefix(b, pq) && valid_utf8(rest2) {
        valid_utf8_concat(q, rest2);
        assert(has_prefix(b, p));
        let s = decode_utf8(rest1);
        assert(strip(k, p) == Some(s));
        decode_utf8_encode_utf8(rest1);
        let e = encode_utf8(s);
        assert(e.subrange(0, q.len() as int) =~= q);
        assert(e.subrange(q.len() as int, e.len() as int) =~= rest2);
        assert(strip(s, q) == Some(decode_utf8(rest2)));
    } else {
        match strip(k, p) {
            Some(s) => {
                decode_utf8_encode_utf8(rest1);
                let e = encode_utf8(s);
                assert(e == rest1);
                if has_prefix(e, q) {
                    assert(e.subrange(q.len() as int, e.len() as int) =~= rest2);
                    assert(b.subrange(0, pq.len() as int) =~= pq) by {
                        assert forall|i: int| 0 <= i < pq.len() implies b[i] == pq[i] by {
                            if i >= p.len() {
                                assert(e.subrange(0, q.len() as int)[i - p.len()] == q[i - p.len()]);
                            } else {
                                assert(b.subrange(0, p.len() as int)[i] == p[i]);
                            }
                        }
                    }
                }
            },
            None => {},
        }
    }
}

/// Listing one database's collections gives what listing every collection
/// gives, narrowed to the names that start with `<db>:` and with that part
/// removed, in the same order.
pub proof fn list_is_list_all_narrowed(keys: Seq<Seq<char>>, db: Seq<char>)
    ensures
        stripped(keys, spec_database_prefix(db)) == stripped(
            stripped(keys, encode_utf8(ENTRY_PREFIX@)),
            encode_utf8(db) + seq![COLON],
        ),
    decreases keys.len(),
{
    let p = encode_utf8(ENTRY_PREFIX@);
    let q = encode_utf8(db) + seq![COLON];
    encode_utf8_valid_utf8(db);
    lemma_ascii_valid_utf8(seq![COLON]);
    valid_utf8_concat(encode_utf8(db), seq![COLON]);
    assert(spec_database_prefix(db) =~= p + q);
    if keys.len() > 0 {
        let init = keys.drop_last();
        list_is_list_all_narrowed(init, db);
        lemma_strip_twice(keys.last(), p, q);
        let mid = stripped(init, p);
        match strip(keys.last(), p) {
            Some(s) => {
                assert(stripped(keys, p) == mid.push(s));
                assert(mid.push(s).drop_last() =~= mid);
                assert(mid.push(s).last() == s);
            },
            None => {},
        }
    }
}

/// When the scanned keys are distinct, as the keys of a store are, every
/// name is listed at most once.
pub proof fn listed_once(keys: Seq<Seq<char>>, p: Seq<u8>)
    requires
        valid_utf8(p),
        forall|a: int, b: int| 0 <= a < b < keys.len() ==> keys[a] != keys[b],
    ensures
        forall|a: int, b: int|
            0 <= a < b < stripped(keys, p).len() ==> stripped(keys, p)[a] != stripped(keys, p)[b],
    decreases keys.len(),
{
    if keys.len() > 0 {
        let init = keys.drop_last();
        listed_once(init, p);
        let r0 = stripped(init, p);
        match strip(keys.last(), p) {
            Some(s) => {
                lemma_strip_is_name(keys.last(), p, s);
                listed_iff_key_present(init, p, s);
                if r0.contains(s) {
                    let i = choose|i: int| 0 <= i < init.len() && init[i] == keys.last();
                    assert(keys[i] == keys[keys.len() - 1]);
                }
                let r = r0.push(s);
                assert forall|a: int, b: int| 0 <= a < b < r.len() implies r[a] != r[b] by {
                    if b == r0.len() {
                        assert(r0.contains(r0[a]));
                    }
                }
            },
            None => {},
        }
    }
}

} // verus!
