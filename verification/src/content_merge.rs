//! What an update makes of a document's data, stated over the content of
//! JSON values (`JsonTree`), so that it holds of copies as well as of the
//! value that was updated.
use vstd::prelude::*;
use crate::document::{is_reserved, is_stripped, merged_fields, stripped_fields};
use crate::json::{
    deep, deep_fields, find_key_from, keys_distinct, obj_insert, obj_remove, spec_find_key,
    JsonTree, JsonValue,
};

verus! {

/// The content of an object's fields.
pub open spec fn fields_of(e: Seq<(String, JsonValue)>) -> Seq<(Seq<char>, JsonTree)> {
    deep_fields(e, e.len())
}

/// Position of the first field named `k` at or after `i`.
pub open spec fn tree_find_from(f: Seq<(Seq<char>, JsonTree)>, k: Seq<char>, i: int) -> Option<int>
    decreases f.len() - i,
{
    if i < 0 || i >= f.len() {
        None
    } else if f[i].0 == k {
        Some(i)
    } else {
        tree_find_from(f, k, i + 1)
    }
}

/// The value of the first field named `k`.
pub open spec fn tree_get(f: Seq<(Seq<char>, JsonTree)>, k: Seq<char>) -> Option<JsonTree> {
    match tree_find_from(f, k, 0) {
        Some(i) => Some(f[i].1),
        None => None,
    }
}

/// The fields with `k` set to `v`: an existing field keeps its place,
/// otherwise the field is appended.
pub open spec fn tree_insert(f: Seq<(Seq<char>, JsonTree)>, k: Seq<char>, v: JsonTree) -> Seq<
    (Seq<char>, JsonTree),
> {
    match tree_find_from(f, k, 0) {
        Some(i) => f.update(i, (f[i].0, v)),
        None => f.push((k, v)),
    }
}

/// The fields without the first one named `k`.
pub open spec fn tree_remove(f: Seq<(Seq<char>, JsonTree)>, k: Seq<char>) -> Seq<
    (Seq<char>, JsonTree),
> {
    match tree_find_from(f, k, 0) {
        Some(i) => f.remove(i),
        None => f,
    }
}

/// The content with the five system fields removed, where it is an object.
pub open spec fn tree_strip(t: JsonTree) -> JsonTree {
    match t {
        JsonTree::Object(f) => JsonTree::Object(
            tree_remove(
                tree_remove(
                    tree_remove(tree_remove(tree_remove(f, "_key"@), "_id"@), "_rev"@),
                    "_created_at"@,
                ),
                "_updated_at"@,
            ),
        ),
        other => other,
    }
}

/// The fields after setting the first `n` fields of `new` whose names do
/// not start with `_`, in order.
pub open spec fn tree_merge_fields(
    f: Seq<(Seq<char>, JsonTree)>,
    new: Seq<(Seq<char>, JsonTree)>,
    n: nat,
) -> Seq<(Seq<char>, JsonTree)>
    decreases n,
{
    if n == 0 || n > new.len() {
        f
    } else {
        let m = tree_merge_fields(f, new, (n - 1) as nat);
        if is_reserved(new[n - 1].0) {
            m
        } else {
            tree_insert(m, new[n - 1].0, new[n - 1].1)
        }
    }
}

/// The data that merging `change` into a document's `data` leaves: where
/// both are objects, every field of `change` whose name does not start with
/// `_` is set; otherwise `change` without its system fields.
pub open spec fn merged_tree(data: JsonTree, change: JsonTree) -> JsonTree {
    match (data, change) {
        (JsonTree::Object(f), JsonTree::Object(n)) => JsonTree::Object(
            tree_merge_fields(f, n, n.len()),
        ),
        _ => tree_strip(change),
    }
}

/// No two fields share a name.
pub open spec fn names_distinct(f: Seq<(Seq<char>, JsonTree)>) -> bool {
    forall|i: int, j: int| 0 <= i < j < f.len() ==> #[trigger] f[i].0 != #[trigger] f[j].0
}

/// No two fields of an object share a name (anything else qualifies).
pub open spec fn tree_names_distinct(t: JsonTree) -> bool {
    match t {
        JsonTree::Object(f) => names_distinct(f),
        _ => true,
    }
}

/// The content of the first `n` fields, one by one.
pub proof fn lemma_deep_fields_index(s: Seq<(String, JsonValue)>, n: nat)
    requires
        n <= s.len(),
    ensures
        deep_fields(s, n).len() == n,
        forall|i: int| 0 <= i < n ==> #[trigger] deep_fields(s, n)[i] == (s[i].0@, deep(s[i].1)),
    decreases n,
{
    if n > 0 {
        lemma_deep_fields_index(s, (n - 1) as nat);
    }
}

proof fn lemma_fields_of(s: Seq<(String, JsonValue)>)
    ensures
        fields_of(s).len() == s.len(),
        forall|i: int| 0 <= i < s.len() ==> #[trigger] fields_of(s)[i] == (s[i].0@, deep(s[i].1)),
{
    lemma_deep_fields_index(s, s.len());
}

proof fn lemma_find_matches(s: Seq<(String, JsonValue)>, k: Seq<char>, i: int)
    ensures
        find_key_from(s, k, i) == tree_find_from(fields_of(s), k, i),
    decreases s.len() - i,
{
    lemma_fields_of(s);
    if 0 <= i < s.len() && s[i].0@ != k {
        lemma_find_matches(s, k, i + 1);
    }
}

pub proof fn lemma_insert_matches(s: Seq<(String, JsonValue)>, k: String, v: JsonValue)
    ensures
        fields_of(obj_insert(s, k, v)) == tree_insert(fields_of(s), k@, deep(v)),
{
    lemma_fields_of(s);
    lemma_find_matches(s, k@, 0);
    crate::json::lemma_find_key_from(s, k@, 0);
    let r = obj_insert(s, k, v);
    lemma_fields_of(r);
    let t = tree_insert(fields_of(s), k@, deep(v));
    match find_key_from(s, k@, 0) {
        Some(p) => {
            assert forall|i: int| 0 <= i < r.len() implies fields_of(r)[i] == t[i] by {
                if i == p {
                    assert(r[i] == (s[p].0, v));
                } else {
                    assert(r[i] == s[i]);
                }
            }
        },
        None => {
            assert forall|i: int| 0 <= i < r.len() implies fields_of(r)[i] == t[i] by {
                if i < s.len() {
                    assert(r[i] == s[i]);
                }
            }
        },
    }
    assert(fields_of(r) =~= t);
}

proof fn lemma_remove_matches(s: Seq<(String, JsonValue)>, k: Seq<char>)
    ensures
        fields_of(obj_remove(s, k)) == tree_remove(fields_of(s), k),
{
    lemma_fields_of(s);
    lemma_find_matches(s, k, 0);
    crate::json::lemma_find_key_from(s, k, 0);
    let r = obj_remove(s, k);
    lemma_fields_of(r);
    let t = tree_remove(fields_of(s), k);
    match find_key_from(s, k, 0) {
        Some(p) => {
            assert forall|i: int| 0 <= i < r.len() implies fields_of(r)[i] == t[i] by {
                if i < p {
                    assert(r[i] == s[i]);
                } else {
                    assert(r[i] == s[i + 1]);
                }
            }
        },
        None => {},
    }
    assert(fields_of(r) =~= t);
}

proof fn lemma_merge_matches(e: Seq<(String, JsonValue)>, n: Seq<(String, JsonValue)>, k: nat)
    requires
        k <= n.len(),
    ensures
        fields_of(merged_fields(e, n, k)) == tree_merge_fields(fields_of(e), fields_of(n), k),
    decreases k,
{
    lemma_fields_of(n);
    if k > 0 {
        lemma_merge_matches(e, n, (k - 1) as nat);
        assert(fields_of(n)[k - 1] == (n[k - 1].0@, deep(n[k - 1].1)));
        if !is_reserved(n[k - 1].0@) {
            lemma_insert_matches(merged_fields(e, n, (k - 1) as nat), n[k - 1].0, n[k - 1].1);
        }
    }
}

/// Removing the system fields, as content.
pub proof fn lemma_stripped_content(before: JsonValue, after: JsonValue)
    requires
        is_stripped(before, after),
    ensures
        deep(after) == tree_strip(deep(before)),
{
    match before {
        JsonValue::Object(e) => {
            let s0 = e@;
            let s1 = obj_remove(s0, "_key"@);
            let s2 = obj_remove(s1, "_id"@);
            let s3 = obj_remove(s2, "_rev"@);
            let s4 = obj_remove(s3, "_created_at"@);
            lemma_remove_matches(s0, "_key"@);
            lemma_remove_matches(s1, "_id"@);
            lemma_remove_matches(s2, "_rev"@);
            lemma_remove_matches(s3, "_created_at"@);
            lemma_remove_matches(s4, "_updated_at"@);
            assert(stripped_fields(s0) == obj_remove(s4, "_updated_at"@));
        },
        _ => {},
    }
}

/// What `Document::update` states of the data, as content: the new data is
/// `merged_tree` of the old data and the change.
pub proof fn lemma_update_content(old_data: JsonValue, change: JsonValue, new_data: JsonValue)
    requires
        match (old_data, change) {
            (JsonValue::Object(e), JsonValue::Object(n)) => new_data matches JsonValue::Object(f)
                && f@ == merged_fields(e@, n@, n@.len()),
            _ => is_stripped(change, new_data),
        },
    ensures
        deep(new_data) == merged_tree(deep(old_data), deep(change)),
{
    match (old_data, change) {
        (JsonValue::Object(e), JsonValue::Object(n)) => {
            lemma_merge_matches(e@, n@, n@.len());
            lemma_fields_of(n@);
        },
        _ => {
            lemma_stripped_content(change, new_data);
        },
    }
}

/// The field `k` of an object, as content.
pub proof fn lemma_get_content(e: Seq<(String, JsonValue)>, k: Seq<char>)
    ensures
        match spec_find_key(e, k) {
            Some(i) => tree_get(fields_of(e), k) == Some(deep(e[i].1)),
            None => tree_get(fields_of(e), k) is None,
        },
{
    lemma_fields_of(e);
    lemma_find_matches(e, k, 0);
    crate::json::lemma_find_key_from(e, k, 0);
}

/// Distinct names, as content.
pub proof fn lemma_distinct_content(e: Seq<(String, JsonValue)>)
    ensures
        keys_distinct(e) == tree_names_distinct(JsonTree::Object(fields_of(e))),
{
    lemma_fields_of(e);
    if tree_names_distinct(JsonTree::Object(fields_of(e))) {
        assert forall|i: int, j: int| 0 <= i < j < e.len() implies e[i].0@ != e[j].0@ by {
            let f = fields_of(e);
            assert(names_distinct(f));
            assert(f[i].0 == e[i].0@);
            assert(f[j].0 == e[j].0@);
            assert(f[i].0 != f[j].0);
        }
    }
    if keys_distinct(e) {
        assert forall|i: int, j: int| 0 <= i < j < fields_of(e).len() implies #[trigger] fields_of(
            e,
        )[i].0 != #[trigger] fields_of(e)[j].0 by {
            assert(e[i].0@ != e[j].0@);
        }
    }
}

} // verus!
