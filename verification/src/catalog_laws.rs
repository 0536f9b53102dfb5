//! What the catalog promises: a collection is listed exactly while its
//! column family exists, so a created collection is listed and a dropped one
//! is not.
use vstd::prelude::*;
use vstd::utf8::{
    decode_utf8, encode_utf8, encode_utf8_decode_utf8, encode_utf8_valid_utf8, valid_utf8_concat,
};
use crate::bytes::{has_prefix, lemma_ascii_valid_utf8};
use crate::catalog::{spec_cf_name, spec_doomed, without};
use crate::keys::COLON;
use crate::registry::stripped;
use crate::registry_laws::{lemma_encode_colon, lemma_encode_utf8_concat, listed_iff_key_present};

verus! {

broadcast use vstd::seq_lib::group_seq_properties;

/// A database lists a collection exactly when the collection's column
/// family `<db>:<collection>` exists.
pub proof fn listed_iff_column_family_exists(names: Seq<Seq<char>>, db: Seq<char>, coll: Seq<char>)
    ensures
        stripped(names, encode_utf8(db + seq![':'])).contains(coll) == names.contains(
            spec_cf_name(db, coll),
        ),
{
    let p = encode_utf8(db + seq![':']);
    lemma_encode_utf8_concat(db, seq![':']);
    lemma_encode_colon();
    encode_utf8_valid_utf8(db);
    lemma_ascii_valid_utf8(seq![COLON]);
    valid_utf8_concat(encode_utf8(db), seq![COLON]);
    lemma_encode_utf8_concat(db + seq![':'], coll);
    encode_utf8_decode_utf8(spec_cf_name(db, coll));
    assert(p + encode_utf8(coll) == encode_utf8(spec_cf_name(db, coll)));
    listed_iff_key_present(names, p, coll);
}

/// Dropping a column family from names that are all distinct removes that
/// name and keeps every other.
pub proof fn drop_removes_only_that_name(names: Seq<Seq<char>>, x: Seq<char>, y: Seq<char>)
    requires
        names.no_duplicates(),
    ensures
        without(names, x).contains(y) == (names.contains(y) && y != x),
{
    names.index_of_first_ensures(x);
    match names.index_of_first(x) {
        None => {},
        Some(i) => {
            let w = names.remove(i);
            if w.contains(y) {
                let k = choose|k: int| 0 <= k < w.len() && w[k] == y;
                let a = if k < i { k } else { k + 1 };
                assert(names[a] == y);
                if y == x {
                    assert(names[i] == x);
                    assert(a != i);
                }
            }
            if names.contains(y) && y != x {
                let k = choose|k: int| 0 <= k < names.len() && names[k] == y;
                assert(k != i);
                let b = if k < i { k } else { k - 1 };
                assert(w[b] == y);
            }
        },
    }
}

/// After a database creates a collection, it lists it; after it drops a
/// collection (its column-family names being distinct), it no longer does.
pub proof fn created_is_listed_and_dropped_is_not(names: Seq<Seq<char>>, db: Seq<char>, coll: Seq<char>)
    requires
        names.no_duplicates(),
    ensures
        stripped(names.push(spec_cf_name(db, coll)), encode_utf8(db + seq![':'])).contains(coll),
        !stripped(without(names, spec_cf_name(db, coll)), encode_utf8(db + seq![':'])).contains(coll),
{
    let cf = spec_cf_name(db, coll);
    listed_iff_column_family_exists(names.push(cf), db, coll);
    assert(names.push(cf)[names.len() as int] == cf);
    listed_iff_column_family_exists(without(names, cf), db, coll);
    drop_removes_only_that_name(names, cf, cf);
}

/// Dropping database `db` dooms every one of its column families: each
/// column family named `<db>:...` that is not already scheduled is in the
/// list, and the list holds nothing else (only existing, unscheduled column
/// families whose name starts with `<db>:`).
pub proof fn every_column_family_of_a_dropped_database_is_doomed(
    cfs: Seq<Seq<char>>,
    db: Seq<char>,
    pending: Seq<Seq<char>>,
)
    ensures
        forall|cf: Seq<char>|
            cfs.contains(cf) && !pending.contains(cf) && cf.len() > db.len() && cf.subrange(
                0,
                (db.len() + 1) as int,
            ) == db + seq![':'] ==> #[trigger] spec_doomed(cfs, db, pending).contains(cf),
        forall|cf: Seq<char>|
            #[trigger] spec_doomed(cfs, db, pending).contains(cf) ==> cfs.contains(cf) && !pending.contains(
                cf,
            ) && has_prefix(encode_utf8(cf), encode_utf8(db + seq![':'])),
    decreases cfs.len(),
{
    let p = db + seq![':'];
    if cfs.len() > 0 {
        let init = cfs.drop_last();
        every_column_family_of_a_dropped_database_is_doomed(init, db, pending);
        let d0 = spec_doomed(init, db, pending);
        let d = spec_doomed(cfs, db, pending);
        let last = cfs.last();
        assert forall|cf: Seq<char>|
            cfs.contains(cf) && !pending.contains(cf) && cf.len() > db.len() && cf.subrange(
                0,
                (db.len() + 1) as int,
            ) == p implies #[trigger] spec_doomed(cfs, db, pending).contains(cf) by {
            if cf == last {
                let rest = cf.subrange((db.len() + 1) as int, cf.len() as int);
                assert(cf =~= p + rest);
                lemma_encode_utf8_concat(p, rest);
                assert(encode_utf8(cf).subrange(0, encode_utf8(p).len() as int) =~= encode_utf8(p));
                assert(d == d0.push(cf));
                assert(d[d0.len() as int] == cf);
            } else {
                let j = choose|j: int| 0 <= j < cfs.len() && cfs[j] == cf;
                assert(init[j] == cf);
                assert(d0.contains(cf));
                let x = choose|x: int| 0 <= x < d0.len() && d0[x] == cf;
                if d != d0 {
                    assert(d == d0.push(last));
                }
                assert(d[x] == cf);
            }
        }
        assert forall|cf: Seq<char>| #[trigger] spec_doomed(cfs, db, pending).contains(cf) implies cfs.contains(cf)
            && !pending.contains(cf) && has_prefix(encode_utf8(cf), encode_utf8(p)) by {
            let x = choose|x: int| 0 <= x < d.len() && d[x] == cf;
            if x < d0.len() && (d == d0 || d == d0.push(last)) {
                assert(d0[x] == cf);
                assert(d0.contains(cf));
                let j = choose|j: int| 0 <= j < init.len() && init[j] == cf;
                assert(cfs[j] == cf);
            } else {
                assert(cfs[cfs.len() - 1] == last);
            }
        }
    }
}

/// The column families a dropped database dooms are those of the
/// instance, in the instance's order, that start with `<db>:` (in UTF-8)
/// and are not already scheduled for drop.
pub proof fn doomed_is_the_database_filter(cfs: Seq<Seq<char>>, db: Seq<char>, pending: Seq<Seq<char>>)
    ensures
        spec_doomed(cfs, db, pending) == cfs.filter(
            |cf: Seq<char>| has_prefix(encode_utf8(cf), encode_utf8(db + seq![':'])) && !pending.contains(cf),
        ),
    decreases cfs.len(),
{
    reveal(Seq::filter);
    if cfs.len() > 0 {
        doomed_is_the_database_filter(cfs.drop_last(), db, pending);
    }
}

} // verus!
