//! What documents promise: an update sets the fields it is given and keeps
//! the others, never touching a reserved field; a new document carries no
//! system field in its data.
use vstd::prelude::*;
use crate::document::{is_reserved, merged_fields, stripped_fields};
use crate::json::{
    keys_distinct, lemma_find_key_from, lemma_obj_get_insert, lemma_obj_get_prefix, obj_get,
    obj_remove, spec_find_key, JsonValue,
};

verus! {

broadcast use vstd::seq_lib::group_seq_properties;

/// Removing a field from fields with distinct names: that name is gone,
/// every other name gives what it gave, and names stay distinct.
pub proof fn lemma_obj_get_remove(e: Seq<(String, JsonValue)>, r: Seq<char>, k: Seq<char>)
    requires
        keys_distinct(e),
    ensures
        obj_get(obj_remove(e, r), k) == if k == r {
            None
        } else {
            obj_get(e, k)
        },
        keys_distinct(obj_remove(e, r)),
{
    lemma_find_key_from(e, r, 0);
    lemma_find_key_from(e, k, 0);
    let f = obj_remove(e, r);
    lemma_find_key_from(f, k, 0);
    match spec_find_key(e, r) {
        None => {},
        Some(p) => {
            assert forall|i: int, j: int| 0 <= i < j < f.len() implies f[i].0@ != f[j].0@ by {
                let a = if i < p { i } else { i + 1 };
                let b = if j < p { j } else { j + 1 };
                assert(f[i] == e[a]);
                assert(f[j] == e[b]);
            }
            if k == r {
                if spec_find_key(f, k) is Some {
                    let q = spec_find_key(f, k)->0;
                    let a = if q < p { q } else { q + 1 };
                    assert(f[q] == e[a]);
                }
            } else {
                match spec_find_key(e, k) {
                    Some(q) => {
                        let qq = if q < p { q } else { q - 1 };
                        assert(f[qq] == e[q]);
                        if spec_find_key(f, k) != Some(qq) {
                            let x = spec_find_key(f, k)->0;
                            let a = if x < p { x } else { x + 1 };
                            assert(f[x] == e[a]);
                        }
                    },
                    None => {
                        if spec_find_key(f, k) is Some {
                            let x = spec_find_key(f, k)->0;
                            let a = if x < p { x } else { x + 1 };
                            assert(f[x] == e[a]);
                        }
                    },
                }
            }
        },
    }
}

proof fn lemma_merged_prefix(e: Seq<(String, JsonValue)>, n: Seq<(String, JsonValue)>, m: nat, k: Seq<char>)
    requires
        keys_distinct(n),
        m <= n.len(),
    ensures
        obj_get(merged_fields(e, n, m), k) == if !is_reserved(k) && obj_get(n.subrange(0, m as int), k) is Some {
            obj_get(n.subrange(0, m as int), k)
        } else {
            obj_get(e, k)
        },
    decreases m,
{
    if m == 0 {
        lemma_find_key_from(n.subrange(0, 0), k, 0);
    } else {
        lemma_merged_prefix(e, n, (m - 1) as nat, k);
        lemma_obj_get_prefix(n, m - 1, k);
        let prev = merged_fields(e, n, (m - 1) as nat);
        if !is_reserved(n[m - 1].0@) {
            lemma_obj_get_insert(prev, n[m - 1].0, n[m - 1].1, k);
        }
    }
}

/// An update sets every field it is given whose name is not reserved and
/// keeps every other field as it was.
pub proof fn update_sets_given_fields_and_keeps_others(
    existing: Seq<(String, JsonValue)>,
    given: Seq<(String, JsonValue)>,
    k: Seq<char>,
)
    requires
        keys_distinct(given),
    ensures
        obj_get(merged_fields(existing, given, given.len()), k) == if !is_reserved(k) && obj_get(
            given,
            k,
        ) is Some {
            obj_get(given, k)
        } else {
            obj_get(existing, k)
        },
{
    lemma_merged_prefix(existing, given, given.len(), k);
    assert(given.subrange(0, given.len() as int) =~= given);
}

/// An update never changes a reserved field of the data.
pub proof fn update_keeps_reserved_fields(
    existing: Seq<(String, JsonValue)>,
    given: Seq<(String, JsonValue)>,
    k: Seq<char>,
)
    requires
        keys_distinct(given),
        is_reserved(k),
    ensures
        obj_get(merged_fields(existing, given, given.len()), k) == obj_get(existing, k),
{
    update_sets_given_fields_and_keeps_others(existing, given, k);
}

/// The data of a new document holds none of the five system fields, and
/// every other field of the given data.
pub proof fn creation_strips_system_fields(e: Seq<(String, JsonValue)>, k: Seq<char>)
    requires
        keys_distinct(e),
    ensures
        obj_get(stripped_fields(e), k) == if k == "_key"@ || k == "_id"@ || k == "_rev"@ || k
            == "_created_at"@ || k == "_updated_at"@ {
            None
        } else {
            obj_get(e, k)
        },
{
    let e1 = obj_remove(e, "_key"@);
    let e2 = obj_remove(e1, "_id"@);
    let e3 = obj_remove(e2, "_rev"@);
    let e4 = obj_remove(e3, "_created_at"@);
    lemma_obj_get_remove(e, "_key"@, k);
    lemma_obj_get_remove(e1, "_id"@, k);
    lemma_obj_get_remove(e2, "_rev"@, k);
    lemma_obj_get_remove(e3, "_created_at"@, k);
    lemma_obj_get_remove(e4, "_updated_at"@, k);
}

} // verus!
