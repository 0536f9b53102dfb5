//! A batch of updates, planned before anything is written: each update is
//! merged into the pending version of its document (the stored one the first
//! time a key comes up), an edge collection refuses an update that leaves no
//! valid edge, and the documents that will be written share no unique value.
//! Reading the stored documents, the checks against the disk, the locks and
//! the write are the caller's.
use vstd::prelude::*;
use vstd::hash_map::StringHashMap;
use crate::content_merge::{
    fields_of, lemma_distinct_content, lemma_get_content, lemma_insert_matches,
    lemma_stripped_content, lemma_update_content, merged_tree, tree_get, tree_insert,
    tree_names_distinct, tree_strip,
};
use crate::crud::{endpoint_error, shared_unique_value_error, spec_edge_error, DocumentError};
use crate::document::{has_value, is_uuid_text, system_text, value_field, Document};
use crate::json::{copy_value, deep, deep_opt, object_insert, JsonTree, JsonValue};
use crate::keys::Collection;
use crate::timestamps::rfc3339_text;

verus! {

/// What an edge check says of an endpoint, as content.
pub open spec fn tree_endpoint_error(
    v: Option<JsonTree>,
    missing: Seq<char>,
    not_text: Seq<char>,
    empty: Seq<char>,
) -> Option<Seq<char>> {
    match v {
        Some(JsonTree::String(s)) => if s.len() > 0 {
            None
        } else {
            Some(empty)
        },
        Some(_) => Some(not_text),
        None => Some(missing),
    }
}

/// Why a document whose data has this content is not an edge, if it is
/// not: its value must hold non-empty `_from` and `_to` strings (`_from` is
/// checked first), and data that is neither an object nor null gives no
/// object at all.
pub open spec fn tree_edge_error(data: JsonTree) -> Option<Seq<char>> {
    let (from, to) = match data {
        JsonTree::Object(f) => (tree_get(f, "_from"@), tree_get(f, "_to"@)),
        _ => (None, None),
    };
    if data is Object || data is Null {
        match tree_endpoint_error(
            from,
            "Edge document must have a _from field"@,
            "Edge document _from field must be a string"@,
            "Edge document _from field must be a non-empty string"@,
        ) {
            Some(m) => Some(m),
            None => tree_endpoint_error(
                to,
                "Edge document must have a _to field"@,
                "Edge document _to field must be a string"@,
                "Edge document _to field must be a non-empty string"@,
            ),
        }
    } else {
        Some("Edge document must be a JSON object"@)
    }
}

proof fn lemma_endpoint_content(v: Option<JsonValue>, m: Seq<char>, t: Seq<char>, e: Seq<char>)
    ensures
        endpoint_error(v, m, t, e) == tree_endpoint_error(deep_opt(v), m, t, e),
{
}

proof fn lemma_value_field_content(d: Document, k: Seq<char>)
    requires
        system_text(d, k) is None,
    ensures
        value_field(d, k) == match deep(d.data) {
            JsonTree::Object(f) => tree_get(f, k),
            _ => None,
        },
{
    match d.data {
        JsonValue::Object(e) => {
            lemma_get_content(e@, k);
            crate::json::lemma_find_key_from(e@, k, 0);
        },
        _ => {},
    }
}

proof fn lemma_endpoints_not_system(d: Document)
    ensures
        system_text(d, "_from"@) is None,
        system_text(d, "_to"@) is None,
{
    reveal_strlit("_from");
    reveal_strlit("_to");
    reveal_strlit("_key");
    reveal_strlit("_id");
    reveal_strlit("_rev");
    reveal_strlit("_created_at");
    reveal_strlit("_updated_at");
    assert("_to"@[1] != "_id"@[1]);
    assert("_from"@.len() == 5);
    assert("_from"@ != "_key"@);
    assert("_from"@ != "_id"@);
    assert("_from"@ != "_rev"@);
    assert("_from"@ != "_created_at"@);
    assert("_from"@ != "_updated_at"@);
}

/// The edge check of a document's value, as content of its data: where the
/// value can be written and the data's names are distinct, the check gives
/// `tree_edge_error`; where it cannot be written, the check fails.
proof fn lemma_edge_content(d: Document, v: JsonValue)
    requires
        !has_value(d) ==> v == JsonValue::Null,
        has_value(d) ==> v is Object,
        has_value(d) && (d.data matches JsonValue::Object(e) ==> crate::json::keys_distinct(e@))
            ==> forall|k: Seq<char>| #[trigger] deep_opt(v.field(k)) == value_field(d, k),
    ensures
        !has_value(d) ==> spec_edge_error(v) is Some,
        (d.data is Object || d.data is Null) && rfc3339_text(d.created_at.secs, d.created_at.nanos) is Some
            && rfc3339_text(d.updated_at.secs, d.updated_at.nanos) is Some ==> has_value(d),
        has_value(d) && tree_names_distinct(deep(d.data)) ==> spec_edge_error(v) == tree_edge_error(
            deep(d.data),
        ),
{
    if has_value(d) && tree_names_distinct(deep(d.data)) {
        match d.data {
            JsonValue::Object(e) => {
                lemma_distinct_content(e@);
            },
            _ => {},
        }
        assert(deep_opt(v.field("_from"@)) == value_field(d, "_from"@));
        assert(deep_opt(v.field("_to"@)) == value_field(d, "_to"@));
        lemma_endpoints_not_system(d);
        lemma_value_field_content(d, "_from"@);
        lemma_value_field_content(d, "_to"@);
        match v {
            JsonValue::Object(e2) => {
                lemma_endpoint_content(
                    v.field("_from"@),
                    "Edge document must have a _from field"@,
                    "Edge document _from field must be a string"@,
                    "Edge document _from field must be a non-empty string"@,
                );
                lemma_endpoint_content(
                    v.field("_to"@),
                    "Edge document must have a _to field"@,
                    "Edge document _to field must be a string"@,
                    "Edge document _to field must be a non-empty string"@,
                );
            },
            _ => {},
        }
    }
}

/// The names of a batch's updates.
pub open spec fn update_keys(u: Seq<(String, JsonValue)>) -> Seq<Seq<char>> {
    u.map_values(|x: (String, JsonValue)| x.0@)
}

/// The changes of a batch's updates, as content.
pub open spec fn update_changes(u: Seq<(String, JsonValue)>) -> Seq<JsonTree> {
    u.map_values(|x: (String, JsonValue)| deep(x.1))
}

/// The content of each stored document's data, where there is one.
pub open spec fn stored_data(s: Seq<Option<Document>>) -> Seq<Option<JsonTree>> {
    s.map_values(
        |d: Option<Document>|
            match d {
                Some(x) => Some(deep(x.data)),
                None => None,
            },
    )
}

/// What an update builds on: the pending version where there is one, else
/// the stored document.
pub open spec fn base_of(pending: Option<JsonTree>, stored: Option<JsonTree>) -> Option<JsonTree> {
    match pending {
        Some(t) => Some(t),
        None => stored,
    }
}

/// The content of the pending version of key `k` once the first
/// `applied.len()` updates have run, `applied[i]` telling whether update `i`
/// was applied.
pub open spec fn pending_tree(
    keys: Seq<Seq<char>>,
    changes: Seq<JsonTree>,
    stored: Seq<Option<JsonTree>>,
    applied: Seq<bool>,
    k: Seq<char>,
) -> Option<JsonTree>
    decreases applied.len(),
{
    if applied.len() == 0 {
        None
    } else {
        let i = applied.len() - 1;
        let prev = pending_tree(keys, changes, stored, applied.drop_last(), k);
        if applied[i] && keys[i] == k {
            match base_of(prev, stored[i]) {
                Some(b) => Some(merged_tree(b, changes[i])),
                None => prev,
            }
        } else {
            prev
        }
    }
}

/// What update `i` makes of its document, if there is one to update.
pub open spec fn update_outcome(
    keys: Seq<Seq<char>>,
    changes: Seq<JsonTree>,
    stored: Seq<Option<JsonTree>>,
    applied: Seq<bool>,
    i: int,
) -> Option<JsonTree> {
    match base_of(pending_tree(keys, changes, stored, applied.take(i), keys[i]), stored[i]) {
        Some(b) => Some(merged_tree(b, changes[i])),
        None => None,
    }
}

/// The keys with a pending version, in the order of their first applied
/// update.
pub open spec fn pending_keys(keys: Seq<Seq<char>>, applied: Seq<bool>) -> Seq<Seq<char>>
    decreases applied.len(),
{
    if applied.len() == 0 {
        seq![]
    } else {
        let i = applied.len() - 1;
        let prev = pending_keys(keys, applied.drop_last());
        if applied[i] && !prev.contains(keys[i]) {
            prev.push(keys[i])
        } else {
            prev
        }
    }
}

/// The first applied update of key `k`.
pub open spec fn origin(keys: Seq<Seq<char>>, applied: Seq<bool>, k: Seq<char>) -> Option<int>
    decreases applied.len(),
{
    if applied.len() == 0 {
        None
    } else {
        let i = applied.len() - 1;
        let prev = origin(keys, applied.drop_last(), k);
        if prev is None && applied[i] && keys[i] == k {
            Some(i)
        } else {
            prev
        }
    }
}

/// A copy of a document.
fn copy_document(d: &Document) -> (r: Document)
    ensures
        r.key == d.key,
        r.id == d.id,
        r.rev == d.rev,
        r.created_at == d.created_at,
        r.updated_at == d.updated_at,
        deep(r.data) == deep(d.data),
{
    Document {
        key: d.key.clone(),
        id: d.id.clone(),
        rev: d.rev.clone(),
        created_at: d.created_at,
        updated_at: d.updated_at,
        data: copy_value(&d.data),
    }
}

/// The creation time of the document that update `j` builds on can be
/// written.
pub open spec fn base_created_ok(
    keys: Seq<Seq<char>>,
    applied: Seq<bool>,
    docs: Seq<Option<Document>>,
    j: int,
) -> bool {
    let d = match origin(keys, applied.take(j), keys[j]) {
        Some(o) => docs[o],
        None => docs[j],
    };
    match d {
        Some(x) => rfc3339_text(x.created_at.secs, x.created_at.nanos) is Some,
        None => false,
    }
}

/// What is promised of update `j`: it is applied only where there is a
/// document to update; outside an edge collection every such update is
/// applied; in an edge collection, where the updated data's names are
/// distinct (as a JSON object's are), an update is applied exactly when it
/// leaves a valid edge and the document's creation time can be written.
pub open spec fn outcome_ok(
    keys: Seq<Seq<char>>,
    changes: Seq<JsonTree>,
    stored: Seq<Option<JsonTree>>,
    docs: Seq<Option<Document>>,
    applied: Seq<bool>,
    is_edge: bool,
    j: int,
) -> bool {
    let o = update_outcome(keys, changes, stored, applied, j);
    &&& applied[j] ==> o is Some
    &&& !is_edge ==> (applied[j] <==> o is Some)
    &&& is_edge && applied[j] && tree_names_distinct(o.unwrap()) ==> tree_edge_error(o.unwrap()) is None
    &&& is_edge && o is Some && tree_names_distinct(o.unwrap()) && tree_edge_error(o.unwrap()) is Some
        ==> !applied[j]
    &&& is_edge && o is Some && tree_names_distinct(o.unwrap()) && tree_edge_error(o.unwrap()) is None
        && base_created_ok(keys, applied, docs, j) ==> applied[j]
}

/// `doc` keeps the key, id and creation time of the stored document that
/// the first applied update of `k` built on.
pub open spec fn from_origin(
    keys: Seq<Seq<char>>,
    applied: Seq<bool>,
    docs: Seq<Option<Document>>,
    k: Seq<char>,
    doc: Document,
) -> bool {
    match origin(keys, applied, k) {
        Some(o) => 0 <= o < applied.len() && match docs[o] {
            Some(d) => doc.key == d.key && doc.id == d.id && doc.created_at == d.created_at,
            None => false,
        },
        None => false,
    }
}

/// The pending documents after `applied` and the map of their positions
/// agree with the specification.
pub open spec fn pending_agrees(
    keys: Seq<Seq<char>>,
    changes: Seq<JsonTree>,
    stored: Seq<Option<JsonTree>>,
    docs: Seq<Option<Document>>,
    applied: Seq<bool>,
    pending: Seq<(String, Document)>,
) -> bool {
    let pk = pending_keys(keys, applied);
    &&& pending.len() == pk.len()
    &&& forall|a: int, b: int| 0 <= a < b < pk.len() ==> #[trigger] pk[a] != #[trigger] pk[b]
    &&& forall|j: int| 0 <= j < pending.len() ==> (#[trigger] pending[j]).0@ == pk[j]
    &&& forall|j: int|
        0 <= j < pending.len() ==> pending_tree(keys, changes, stored, applied, (#[trigger] pending[j]).0@)
            == Some(deep(pending[j].1.data))
    &&& forall|j: int|
        0 <= j < pending.len() ==> is_uuid_text((#[trigger] pending[j]).1.rev@)
    &&& forall|j: int|
        0 <= j < pending.len() ==> from_origin(keys, applied, docs, (#[trigger] pending[j]).0@, pending[j].1)
    &&& forall|k: Seq<char>|
        #[trigger] pk.contains(k) <==> pending_tree(keys, changes, stored, applied, k) is Some
    &&& forall|k: Seq<char>| #[trigger] pk.contains(k) <==> origin(keys, applied, k) is Some
}

proof fn lemma_step(
    keys: Seq<Seq<char>>,
    changes: Seq<JsonTree>,
    stored: Seq<Option<JsonTree>>,
    a0: Seq<bool>,
    b: bool,
)
    requires
        a0.len() < keys.len(),
    ensures
        ({
            let a1 = a0.push(b);
            let i = a0.len() as int;
            let pk = pending_keys(keys, a0);
            &&& pending_keys(keys, a1) == if b && !pk.contains(keys[i]) {
                pk.push(keys[i])
            } else {
                pk
            }
            &&& forall|k: Seq<char>|
                #[trigger] pending_tree(keys, changes, stored, a1, k) == if b && keys[i] == k {
                    match base_of(pending_tree(keys, changes, stored, a0, k), stored[i]) {
                        Some(t) => Some(merged_tree(t, changes[i])),
                        None => pending_tree(keys, changes, stored, a0, k),
                    }
                } else {
                    pending_tree(keys, changes, stored, a0, k)
                }
            &&& forall|k: Seq<char>|
                #[trigger] origin(keys, a1, k) == if origin(keys, a0, k) is None && b && keys[i] == k {
                    Some(i)
                } else {
                    origin(keys, a0, k)
                }
        }),
{
    let a1 = a0.push(b);
    assert(a1.drop_last() =~= a0);
}

proof fn lemma_skip(
    keys: Seq<Seq<char>>,
    changes: Seq<JsonTree>,
    stored: Seq<Option<JsonTree>>,
    docs: Seq<Option<Document>>,
    a0: Seq<bool>,
    pending: Seq<(String, Document)>,
)
    requires
        a0.len() < keys.len(),
        pending_agrees(keys, changes, stored, docs, a0, pending),
    ensures
        pending_agrees(keys, changes, stored, docs, a0.push(false), pending),
        pending_keys(keys, a0.push(false)) == pending_keys(keys, a0),
{
    lemma_step(keys, changes, stored, a0, false);
    let a1 = a0.push(false);
    let pk = pending_keys(keys, a0);
    assert forall|k: Seq<char>| #[trigger] pk.contains(k) <==> pending_tree(keys, changes, stored, a1, k) is Some by {
        assert(pending_tree(keys, changes, stored, a1, k) == pending_tree(keys, changes, stored, a0, k));
    }
    assert forall|k: Seq<char>| #[trigger] pk.contains(k) <==> origin(keys, a1, k) is Some by {
        assert(origin(keys, a1, k) == origin(keys, a0, k));
    }
    assert forall|j: int| 0 <= j < pending.len() implies from_origin(keys, a1, docs, (#[trigger] pending[j]).0@, pending[j].1) by {
        assert(from_origin(keys, a0, docs, pending[j].0@, pending[j].1));
        assert(origin(keys, a1, pending[j].0@) == origin(keys, a0, pending[j].0@));
    }
    assert forall|j: int| 0 <= j < pending.len() implies pending_tree(keys, changes, stored, a1, (#[trigger] pending[j]).0@) == Some(deep(pending[j].1.data)) by {
        assert(pending_tree(keys, changes, stored, a1, pending[j].0@) == pending_tree(keys, changes, stored, a0, pending[j].0@));
    }
}

proof fn lemma_replace(
    keys: Seq<Seq<char>>,
    changes: Seq<JsonTree>,
    stored: Seq<Option<JsonTree>>,
    docs: Seq<Option<Document>>,
    a0: Seq<bool>,
    pending: Seq<(String, Document)>,
    p: int,
    entry: (String, Document),
)
    requires
        a0.len() < keys.len(),
        pending_agrees(keys, changes, stored, docs, a0, pending),
        0 <= p < pending.len(),
        pending[p].0@ == keys[a0.len() as int],
        entry.0@ == keys[a0.len() as int],
        deep(entry.1.data) == merged_tree(deep(pending[p].1.data), changes[a0.len() as int]),
        is_uuid_text(entry.1.rev@),
        entry.1.key == pending[p].1.key,
        entry.1.id == pending[p].1.id,
        entry.1.created_at == pending[p].1.created_at,
    ensures
        pending_agrees(keys, changes, stored, docs, a0.push(true), pending.update(p, entry)),
        pending_keys(keys, a0.push(true)) == pending_keys(keys, a0),
{
    lemma_step(keys, changes, stored, a0, true);
    let a1 = a0.push(true);
    let i = a0.len() as int;
    let ki = keys[i];
    let pk = pending_keys(keys, a0);
    let p1 = pending.update(p, entry);
    assert(pk[p] == ki);
    assert(pk.contains(ki));
    assert forall|k: Seq<char>| #[trigger] pk.contains(k) <==> pending_tree(keys, changes, stored, a1, k) is Some by {
        if k != ki {
            assert(pending_tree(keys, changes, stored, a1, k) == pending_tree(keys, changes, stored, a0, k));
        }
    }
    assert forall|k: Seq<char>| #[trigger] pk.contains(k) <==> origin(keys, a1, k) is Some by {
        assert(origin(keys, a0, ki) is Some);
        assert(origin(keys, a1, k) == origin(keys, a0, k));
    }
    assert forall|j: int| 0 <= j < p1.len() implies (#[trigger] p1[j]).0@ == pk[j] by {
        assert(pending[j].0@ == pk[j]);
    }
    assert forall|j: int| 0 <= j < p1.len() implies is_uuid_text((#[trigger] p1[j]).1.rev@) by {
        assert(is_uuid_text(pending[j].1.rev@));
    }
    assert forall|j: int| 0 <= j < p1.len() implies from_origin(keys, a1, docs, (#[trigger] p1[j]).0@, p1[j].1) by {
        assert(from_origin(keys, a0, docs, pending[j].0@, pending[j].1));
        assert(origin(keys, a0, ki) is Some);
        assert(origin(keys, a1, pending[j].0@) == origin(keys, a0, pending[j].0@));
    }
    assert forall|j: int| 0 <= j < p1.len() implies pending_tree(keys, changes, stored, a1, (#[trigger] p1[j]).0@) == Some(deep(p1[j].1.data)) by {
        assert(pending_tree(keys, changes, stored, a0, pending[j].0@) == Some(deep(pending[j].1.data)));
        if j != p {
            assert(pending[j].0@ == pk[j]);
            assert(pk[j] != pk[p]);
        }
    }
}

proof fn lemma_append(
    keys: Seq<Seq<char>>,
    changes: Seq<JsonTree>,
    stored: Seq<Option<JsonTree>>,
    docs: Seq<Option<Document>>,
    a0: Seq<bool>,
    pending: Seq<(String, Document)>,
    d: Document,
    entry: (String, Document),
)
    requires
        a0.len() < keys.len(),
        a0.len() < docs.len(),
        stored == stored_data(docs),
        pending_agrees(keys, changes, stored, docs, a0, pending),
        !pending_keys(keys, a0).contains(keys[a0.len() as int]),
        docs[a0.len() as int] == Some(d),
        entry.0@ == keys[a0.len() as int],
        deep(entry.1.data) == merged_tree(deep(d.data), changes[a0.len() as int]),
        is_uuid_text(entry.1.rev@),
        entry.1.key == d.key,
        entry.1.id == d.id,
        entry.1.created_at == d.created_at,
    ensures
        pending_agrees(keys, changes, stored, docs, a0.push(true), pending.push(entry)),
        pending_keys(keys, a0.push(true)) == pending_keys(keys, a0).push(keys[a0.len() as int]),
{
    lemma_step(keys, changes, stored, a0, true);
    let a1 = a0.push(true);
    let i = a0.len() as int;
    let ki = keys[i];
    let pk = pending_keys(keys, a0);
    let pk1 = pk.push(ki);
    let p1 = pending.push(entry);
    assert(stored[i] == Some(deep(d.data)));
    assert(pending_tree(keys, changes, stored, a0, ki) is None);
    assert(origin(keys, a0, ki) is None);
    assert forall|a: int, b: int| 0 <= a < b < pk1.len() implies #[trigger] pk1[a] != #[trigger] pk1[b] by {
        if b == pk.len() {
            assert(pk.contains(pk[a]));
        } else {
            assert(pk[a] != pk[b]);
        }
    }
    assert forall|k: Seq<char>| #[trigger] pk1.contains(k) <==> pending_tree(keys, changes, stored, a1, k) is Some by {
        if k != ki {
            assert(pending_tree(keys, changes, stored, a1, k) == pending_tree(keys, changes, stored, a0, k));
            if pk1.contains(k) {
                let x = choose|x: int| 0 <= x < pk1.len() && pk1[x] == k;
                assert(pk[x] == k);
            }
            if pk.contains(k) {
                let x = choose|x: int| 0 <= x < pk.len() && pk[x] == k;
                assert(pk1[x] == k);
            }
        } else {
            assert(pk1[pk.len() as int] == ki);
        }
    }
    assert forall|k: Seq<char>| #[trigger] pk1.contains(k) <==> origin(keys, a1, k) is Some by {
        if k != ki {
            assert(origin(keys, a1, k) == origin(keys, a0, k));
            if pk1.contains(k) {
                let x = choose|x: int| 0 <= x < pk1.len() && pk1[x] == k;
                assert(pk[x] == k);
            }
            if pk.contains(k) {
                let x = choose|x: int| 0 <= x < pk.len() && pk[x] == k;
                assert(pk1[x] == k);
            }
        } else {
            assert(pk1[pk.len() as int] == ki);
        }
    }
    assert forall|j: int| 0 <= j < p1.len() implies (#[trigger] p1[j]).0@ == pk1[j] by {
        if j < pending.len() {
            assert(pending[j].0@ == pk[j]);
        }
    }
    assert forall|j: int| 0 <= j < p1.len() implies is_uuid_text((#[trigger] p1[j]).1.rev@) by {
        if j < pending.len() {
            assert(is_uuid_text(pending[j].1.rev@));
        }
    }
    assert forall|j: int| 0 <= j < p1.len() implies from_origin(keys, a1, docs, (#[trigger] p1[j]).0@, p1[j].1) by {
        if j < pending.len() {
            assert(from_origin(keys, a0, docs, pending[j].0@, pending[j].1));
            assert(pending[j].0@ == pk[j]);
            assert(pk.contains(pk[j]));
            assert(origin(keys, a1, pending[j].0@) == origin(keys, a0, pending[j].0@));
        }
    }
    assert forall|j: int| 0 <= j < p1.len() implies pending_tree(keys, changes, stored, a1, (#[trigger] p1[j]).0@) == Some(deep(p1[j].1.data)) by {
        if j < pending.len() {
            assert(pending[j].0@ == pk[j]);
            assert(pk.contains(pk[j]));
            assert(pending_tree(keys, changes, stored, a0, pending[j].0@) == Some(deep(pending[j].1.data)));
            assert(pending_tree(keys, changes, stored, a1, pending[j].0@) == pending_tree(keys, changes, stored, a0, pending[j].0@));
        }
    }
}

/// Plans a batch of updates. `updates` holds (key, changes) in order;
/// `stored[i]` is the document stored under the key of update `i`, if any,
/// as read before the batch. Each update builds on the pending version of
/// its key, or on the stored document the first time the key comes up (a
/// key with neither is skipped); in an edge collection an update whose
/// result is not a valid edge is skipped. The result holds one entry per
/// key that some update reached, in the order of the first update applied
/// to it, and whether each update was applied; the stored version that an
/// entry replaces is the one read for the first applied update of its key.
pub fn plan_update_batch(
    collection: &Collection,
    updates: &Vec<(String, JsonValue)>,
    stored: Vec<Option<Document>>,
    is_edge: bool,
) -> (r: (Vec<(String, Document)>, Vec<bool>))
    requires
        updates.len() == stored.len(),
    ensures
        r.1.len() == updates.len(),
        pending_agrees(
            update_keys(updates@),
            update_changes(updates@),
            stored_data(stored@),
            stored@,
            r.1@,
            r.0@,
        ),
        forall|j: int|
            0 <= j < updates.len() ==> #[trigger] outcome_ok(
                update_keys(updates@),
                update_changes(updates@),
                stored_data(stored@),
                stored@,
                r.1@,
                is_edge,
                j,
            ),
{
    let ghost keys = update_keys(updates@);
    let ghost changes = update_changes(updates@);
    let ghost sd = stored_data(stored@);
    let ghost docs = stored@;
    let mut stored = stored;
    let mut pending: Vec<(String, Document)> = Vec::new();
    let mut applied: Vec<bool> = Vec::new();
    let mut positions: StringHashMap<usize> = StringHashMap::new();
    let mut i: usize = 0;
    while i < updates.len()
        invariant
            i <= updates.len(),
            updates.len() == docs.len(),
            stored@.len() == docs.len(),
            forall|j: int| i <= j < docs.len() ==> #[trigger] stored@[j] == docs[j],
            keys == update_keys(updates@),
            changes == update_changes(updates@),
            sd == stored_data(docs),
            applied@.len() == i,
            pending_agrees(keys, changes, sd, docs, applied@, pending@),
            forall|k: Seq<char>|
                #[trigger] positions@.contains_key(k) <==> pending_keys(keys, applied@).contains(k),
            forall|k: Seq<char>|
                #[trigger] positions@.contains_key(k) ==> positions@[k] < pending@.len()
                    && pending@[positions@[k] as int].0@ == k,
            forall|j: int| 0 <= j < i ==> #[trigger] outcome_ok(keys, changes, sd, docs, applied@, is_edge, j),
        decreases updates.len() - i,
    {
        let ghost a0 = applied@;
        let ghost pk0 = pending_keys(keys, a0);
        let ghost ki = keys[i as int];
        assert(updates@[i as int].0@ == ki);
        assert(deep(updates@[i as int].1) == changes[i as int]);
        assert(a0.take(i as int) =~= a0);
        let mut slot: Option<Document> = None;
        std::mem::swap(&mut slot, &mut stored[i]);
        let existing: Option<usize> = match positions.get(updates[i].0.as_str()) {
            Some(p) => Some(*p),
            None => None,
        };
        let candidate: Option<Document> = match existing {
            Some(p) => Some(copy_document(&pending[p].1)),
            None => slot,
        };
        proof {
            if existing is Some {
                assert(pk0.contains(ki));
            } else {
                assert(!pk0.contains(ki));
            }
        }
        proof {
            lemma_step(keys, changes, sd, a0, false);
            lemma_step(keys, changes, sd, a0, true);
        }
        match candidate {
            None => {
                proof {
                    lemma_skip(keys, changes, sd, docs, a0, pending@);
                }
                applied.push(false);
            },
            Some(mut doc) => {
                let ghost before = doc;
                let change = copy_value(&updates[i].1);
                doc.update(change);
                proof {
                    lemma_update_content(before.data, change, doc.data);
                }
                let accept = if is_edge {
                    let v = doc.to_value();
                    let res = collection.validate_edge_document(&v);
                    proof {
                        lemma_edge_content(doc, v);
                    }
                    res.is_ok()
                } else {
                    true
                };
                if accept {
                    match existing {
                        Some(p) => {
                            let entry = (updates[i].0.clone(), doc);
                            proof {
                                lemma_replace(keys, changes, sd, docs, a0, pending@, p as int, entry);
                            }
                            pending.set(p, entry);
                        },
                        None => {
                            let entry = (updates[i].0.clone(), doc);
                            proof {
                                lemma_append(keys, changes, sd, docs, a0, pending@, before, entry);
                            }
                            positions.insert(updates[i].0.clone(), pending.len());
                            pending.push(entry);
                        },
                    }
                } else {
                    proof {
                        lemma_skip(keys, changes, sd, docs, a0, pending@);
                    }
                }
                applied.push(accept);
            },
        }
        proof {
            let a1 = applied@;
            assert(a1.take(i as int) =~= a0);
            assert forall|j: int| 0 <= j < i implies #[trigger] outcome_ok(
                keys,
                changes,
                sd,
                docs,
                a1,
                is_edge,
                j,
            ) by {
                assert(a1.take(j) =~= a0.take(j));
                assert(a1[j] == a0[j]);
                assert(outcome_ok(keys, changes, sd, docs, a0, is_edge, j));
            }
        }
        i = i + 1;
    }
    (pending, applied)
}

/// The unique tokens of a batch's documents, one after another, each with
/// the position of its document.
pub open spec fn flat_tokens(t: Seq<Seq<Seq<char>>>) -> Seq<(int, Seq<char>)>
    decreases t.len(),
{
    if t.len() == 0 {
        seq![]
    } else {
        flat_tokens(t.drop_last()) + doc_tokens(t.last(), t.len() - 1)
    }
}

/// The tokens of document `d`, each with `d`.
pub open spec fn doc_tokens(s: Seq<Seq<char>>, d: int) -> Seq<(int, Seq<char>)> {
    s.map_values(|x: Seq<char>| (d, x))
}

/// No token occurs twice.
pub open spec fn tokens_distinct(f: Seq<(int, Seq<char>)>) -> bool {
    forall|a: int, b: int| 0 <= a < b < f.len() ==> #[trigger] f[a].1 != #[trigger] f[b].1
}

/// An earlier token than the one at `q` is the same, and belongs to
/// document `a`.
pub open spec fn claimed_by(f: Seq<(int, Seq<char>)>, q: int, a: int) -> bool {
    exists|p: int| 0 <= p < q && #[trigger] f[p] == (a, f[q].1)
}

/// The token at `q` is the first to repeat an earlier one; it belongs to
/// document `b`, and the earlier one to document `a`.
pub open spec fn clash_at(f: Seq<(int, Seq<char>)>, q: int, a: int, b: int) -> bool {
    &&& 0 <= q < f.len()
    &&& tokens_distinct(f.take(q))
    &&& f[q].0 == b
    &&& claimed_by(f, q, a)
}

/// Some token is the first to repeat an earlier one, of document `a`, in
/// document `b`.
pub open spec fn first_clash(f: Seq<(int, Seq<char>)>, a: int, b: int) -> bool {
    exists|q: int| #[trigger] clash_at(f, q, a, b)
}

/// Token `k` of document `d` is among `f`.
pub open spec fn holds_at(f: Seq<(int, Seq<char>)>, k: Seq<char>, d: int) -> bool {
    exists|p: int| 0 <= p < f.len() && #[trigger] f[p] == (d, k)
}

pub open spec fn token_views(t: Seq<Vec<String>>) -> Seq<Seq<Seq<char>>> {
    t.map_values(|v: Vec<String>| v@.map_values(|x: String| x@))
}

proof fn lemma_flat_prefix(t: Seq<Seq<Seq<char>>>, i: int)
    requires
        0 <= i <= t.len(),
    ensures
        flat_tokens(t.take(i)).len() <= flat_tokens(t).len(),
        flat_tokens(t).take(flat_tokens(t.take(i)).len() as int) == flat_tokens(t.take(i)),
    decreases t.len() - i,
{
    if i < t.len() {
        lemma_flat_prefix(t, i + 1);
        let t1 = t.take(i + 1);
        assert(t1.drop_last() =~= t.take(i));
        let f0 = flat_tokens(t.take(i));
        let f1 = flat_tokens(t1);
        assert(f1.take(f0.len() as int) =~= f0);
        assert(flat_tokens(t).take(f0.len() as int) =~= f1.take(f0.len() as int));
    } else {
        assert(t.take(i) =~= t);
    }
}

proof fn lemma_flat_docs(t: Seq<Seq<Seq<char>>>)
    ensures
        forall|p: int| 0 <= p < flat_tokens(t).len() ==> 0 <= #[trigger] flat_tokens(t)[p].0 < t.len(),
    decreases t.len(),
{
    if t.len() > 0 {
        lemma_flat_docs(t.drop_last());
        let f0 = flat_tokens(t.drop_last());
        assert forall|p: int| 0 <= p < flat_tokens(t).len() implies 0 <= #[trigger] flat_tokens(t)[p].0 < t.len() by {
            if p < f0.len() {
                assert(flat_tokens(t)[p] == f0[p]);
            } else {
                assert(flat_tokens(t)[p] == doc_tokens(t.last(), t.len() - 1)[p - f0.len()]);
            }
        }
    }
}

/// The first two documents of a batch that share a unique value, given
/// each document's unique tokens in order: walking the documents and their
/// tokens in order, the first token that an earlier one already claimed
/// gives (the document that claimed it, the document that repeats it).
/// `None` when no token occurs twice.
pub fn first_shared_unique(tokens: &Vec<Vec<String>>) -> (r: Option<(usize, usize)>)
    ensures
        match r {
            None => tokens_distinct(flat_tokens(token_views(tokens@))),
            Some((a, b)) => first_clash(flat_tokens(token_views(tokens@)), a as int, b as int),
        },
{
    let ghost tv = token_views(tokens@);
    let ghost full = flat_tokens(tv);
    let mut claimed: StringHashMap<usize> = StringHashMap::new();
    let mut i: usize = 0;
    while i < tokens.len()
        invariant
            i <= tokens.len(),
            tv == token_views(tokens@),
            full == flat_tokens(tv),
            tokens_distinct(flat_tokens(tv.take(i as int))),
            forall|k: Seq<char>|
                #[trigger] claimed@.contains_key(k) ==> holds_at(
                    flat_tokens(tv.take(i as int)),
                    k,
                    claimed@[k] as int,
                ),
            forall|p: int|
                0 <= p < flat_tokens(tv.take(i as int)).len() ==> #[trigger] claimed@.contains_key(
                    flat_tokens(tv.take(i as int))[p].1,
                ),
        decreases tokens.len() - i,
    {
        let ghost f0 = flat_tokens(tv.take(i as int));
        let row = &tokens[i];
        let ghost row_v = tv[i as int];
        assert(row_v == row@.map_values(|x: String| x@));
        let mut t: usize = 0;
        while t < row.len()
            invariant
                i < tokens.len(),
                tv == token_views(tokens@),
                full == flat_tokens(tv),
                *row == tokens@[i as int],
                row_v == tv[i as int],
                row_v == row@.map_values(|x: String| x@),
                f0 == flat_tokens(tv.take(i as int)),
                t <= row.len(),
                tokens_distinct(f0 + doc_tokens(row_v.take(t as int), i as int)),
                forall|k: Seq<char>|
                    #[trigger] claimed@.contains_key(k) ==> holds_at(
                        f0 + doc_tokens(row_v.take(t as int), i as int),
                        k,
                        claimed@[k] as int,
                    ),
                forall|p: int|
                    0 <= p < (f0 + doc_tokens(row_v.take(t as int), i as int)).len()
                        ==> #[trigger] claimed@.contains_key(
                        (f0 + doc_tokens(row_v.take(t as int), i as int))[p].1,
                    ),
            decreases row.len() - t,
        {
            let ghost seen = f0 + doc_tokens(row_v.take(t as int), i as int);
            let ghost seen1 = f0 + doc_tokens(row_v.take(t + 1), i as int);
            assert(seen1 =~= seen.push((i as int, row_v[t as int])));
            assert(row_v[t as int] == row@[t as int]@);
            match claimed.get(row[t].as_str()) {
                Some(d) => {
                    let d = *d;
                    proof {
                        let q = seen.len() as int;
                        assert(holds_at(seen, row_v[t as int], d as int));
                        let p = choose|p: int| 0 <= p < seen.len() && #[trigger] seen[p] == (d as int, row_v[t as int]);
                        lemma_flat_prefix(tv, i + 1);
                        let t1 = tv.take(i + 1);
                        assert(t1.drop_last() =~= tv.take(i as int));
                        assert(flat_tokens(t1) == f0 + doc_tokens(row_v, i as int));
                        assert(full.take(flat_tokens(t1).len() as int) == flat_tokens(t1));
                        let big = flat_tokens(t1);
                        let l = big.len() as int;
                        assert(doc_tokens(row_v, i as int)[t as int] == (i as int, row_v[t as int]));
                        assert(big[q] == (i as int, row_v[t as int]));
                        assert(full.take(l)[q] == full[q]);
                        assert(full[q] == (i as int, row_v[t as int]));
                        assert(big[p] == f0[p] || p >= f0.len());
                        if p >= f0.len() {
                            assert(seen[p] == doc_tokens(row_v.take(t as int), i as int)[p - f0.len()]);
                            assert(big[p] == doc_tokens(row_v, i as int)[p - f0.len()]);
                        }
                        assert(big[p] == seen[p]);
                        assert(full.take(l)[p] == full[p]);
                        assert(full[p] == seen[p]);
                        assert(full.take(q) =~= seen);
                        assert(claimed_by(full, q, d as int));
                        assert(clash_at(full, q, d as int, i as int));
                    }
                    return Some((d, i));
                },
                None => {
                    proof {
                        assert forall|p: int| 0 <= p < seen.len() implies seen[p].1 != row_v[t as int] by {
                            assert(claimed@.contains_key(seen[p].1));
                        }
                    }
                    claimed.insert(row[t].clone(), i);
                    proof {
                        assert forall|a: int, b: int| 0 <= a < b < seen1.len() implies #[trigger] seen1[a].1 != #[trigger] seen1[b].1 by {
                            if b < seen.len() {
                                assert(seen[a].1 != seen[b].1);
                            } else {
                                assert(seen[a].1 != row_v[t as int]);
                            }
                        }
                        assert forall|k: Seq<char>| #[trigger] claimed@.contains_key(k) implies holds_at(seen1, k, claimed@[k] as int) by {
                            if k == row_v[t as int] {
                                assert(seen1[seen.len() as int] == (i as int, k));
                            } else {
                                assert(holds_at(seen, k, claimed@[k] as int));
                                let p = choose|p: int| 0 <= p < seen.len() && #[trigger] seen[p] == (claimed@[k] as int, k);
                                assert(seen1[p] == seen[p]);
                            }
                        }
                        assert forall|p: int| 0 <= p < seen1.len() implies #[trigger] claimed@.contains_key(seen1[p].1) by {
                            if p < seen.len() {
                                assert(claimed@.contains_key(seen[p].1));
                            }
                        }
                    }
                },
            }
            t = t + 1;
        }
        proof {
            let t1 = tv.take(i + 1);
            assert(t1.drop_last() =~= tv.take(i as int));
            assert(row_v.take(row.len() as int) =~= row_v);
            assert(flat_tokens(t1) == f0 + doc_tokens(row_v, i as int));
        }
        i = i + 1;
    }
    proof {
        assert(tv.take(tokens.len() as int) =~= tv);
    }
    None
}

/// `e` refuses a batch because documents `other` and `key` share a unique
/// value.
pub open spec fn shared_error(e: DocumentError, other: Seq<char>, key: Seq<char>) -> bool {
    e matches DocumentError::InvalidDocument(m) && m@ == "Unique constraint violated: documents '"@
        + other + "' and '"@ + key + "' in the same batch share a unique value"@
}

/// Refuses a batch whose documents (keys `keys`, unique tokens `tokens`,
/// in the order they will be written) share a unique value, naming the
/// first two that do as `first_shared_unique` finds them.
pub fn check_batch_unique(keys: &Vec<String>, tokens: &Vec<Vec<String>>) -> (r: Result<(), DocumentError>)
    requires
        keys.len() == tokens.len(),
    ensures
        r is Ok <==> tokens_distinct(flat_tokens(token_views(tokens@))),
        r matches Err(e) ==> exists|a: int, b: int|
            #![trigger first_clash(flat_tokens(token_views(tokens@)), a, b)]
            {
                &&& 0 <= a < keys.len()
                &&& 0 <= b < keys.len()
                &&& first_clash(flat_tokens(token_views(tokens@)), a, b)
                &&& shared_error(e, keys@[a]@, keys@[b]@)
            },
{
    match first_shared_unique(tokens) {
        None => Ok(()),
        Some((a, b)) => {
            proof {
                let f = flat_tokens(token_views(tokens@));
                let q = choose|q: int| #[trigger] clash_at(f, q, a as int, b as int);
                lemma_flat_docs(token_views(tokens@));
                assert(f[q].0 == b);
                let p = choose|p: int| 0 <= p < q && #[trigger] f[p] == (a as int, f[q].1);
                assert(f[p].0 == a);
                assert(!tokens_distinct(f)) by {
                    assert(f[p].1 == f[q].1);
                }
            }
            Err(shared_unique_value_error(keys[a].as_str(), keys[b].as_str()))
        },
    }
}

/// A document's data with its `_key` set to `k`, as content (only an
/// object takes it).
pub open spec fn with_key_tree(c: JsonTree, k: Seq<char>) -> JsonTree {
    match c {
        JsonTree::Object(f) => JsonTree::Object(tree_insert(f, "_key"@, JsonTree::String(k))),
        other => other,
    }
}

/// The content of the pending version of key `k` after the first `n`
/// documents of an upsert batch: each builds on the pending version, or on
/// the stored document the first time its key comes up, or else makes a new
/// document of its data.
pub open spec fn upsert_tree(
    batch: Seq<(String, JsonValue)>,
    stored: Seq<(bool, Option<Document>)>,
    n: nat,
    k: Seq<char>,
) -> Option<JsonTree>
    decreases n,
{
    if n == 0 {
        None
    } else {
        let prev = upsert_tree(batch, stored, (n - 1) as nat, k);
        let i = n - 1;
        if batch[i].0@ == k {
            let c = with_key_tree(deep(batch[i].1), k);
            Some(
                match prev {
                    Some(t) => merged_tree(t, c),
                    None => match stored[i].1 {
                        Some(d) => merged_tree(deep(d.data), c),
                        None => tree_strip(c),
                    },
                },
            )
        } else {
            prev
        }
    }
}

/// The keys of the first `n` documents of a batch, each once, in the order
/// of its first document.
pub open spec fn upsert_keys(batch: Seq<(String, JsonValue)>, n: nat) -> Seq<Seq<char>>
    decreases n,
{
    if n == 0 {
        seq![]
    } else {
        let prev = upsert_keys(batch, (n - 1) as nat);
        if prev.contains(batch[n - 1].0@) {
            prev
        } else {
            prev.push(batch[n - 1].0@)
        }
    }
}

/// The first of the first `n` documents with key `k`.
pub open spec fn first_index(batch: Seq<(String, JsonValue)>, n: nat, k: Seq<char>) -> Option<int>
    decreases n,
{
    if n == 0 {
        None
    } else {
        let prev = first_index(batch, (n - 1) as nat, k);
        if prev is None && batch[n - 1].0@ == k {
            Some(n - 1)
        } else {
            prev
        }
    }
}

/// The pending entry of key `k` keeps what the first document of `k` found
/// stored: whether the key existed, and the stored document's key, id and
/// creation time, or else a new document's key and id.
pub open spec fn upsert_entry_ok(
    batch: Seq<(String, JsonValue)>,
    stored: Seq<(bool, Option<Document>)>,
    name: Seq<char>,
    n: nat,
    k: Seq<char>,
    existed: bool,
    doc: Document,
) -> bool {
    match first_index(batch, n, k) {
        Some(o) => 0 <= o < n && existed == stored[o].0 && match stored[o].1 {
            Some(d) => doc.key == d.key && doc.id == d.id && doc.created_at == d.created_at,
            None => doc.key@ == k && doc.id@ == name + "/"@ + k,
        },
        None => false,
    }
}

/// The pending entries after the first `n` documents agree with the
/// specification.
pub open spec fn upsert_agrees(
    batch: Seq<(String, JsonValue)>,
    stored: Seq<(bool, Option<Document>)>,
    name: Seq<char>,
    n: nat,
    pending: Seq<(String, Document, bool)>,
) -> bool {
    let pk = upsert_keys(batch, n);
    &&& pending.len() == pk.len()
    &&& forall|a: int, b: int| 0 <= a < b < pk.len() ==> #[trigger] pk[a] != #[trigger] pk[b]
    &&& forall|j: int| 0 <= j < pending.len() ==> (#[trigger] pending[j]).0@ == pk[j]
    &&& forall|j: int|
        0 <= j < pending.len() ==> upsert_tree(batch, stored, n, (#[trigger] pending[j]).0@) == Some(
            deep(pending[j].1.data),
        )
    &&& forall|j: int| 0 <= j < pending.len() ==> is_uuid_text((#[trigger] pending[j]).1.rev@)
    &&& forall|j: int|
        0 <= j < pending.len() ==> upsert_entry_ok(
            batch,
            stored,
            name,
            n,
            (#[trigger] pending[j]).0@,
            pending[j].2,
            pending[j].1,
        )
    &&& forall|k: Seq<char>| #[trigger] pk.contains(k) <==> upsert_tree(batch, stored, n, k) is Some
    &&& forall|k: Seq<char>| #[trigger] pk.contains(k) <==> first_index(batch, n, k) is Some
}

/// A document's data with `_key` set to `key` where it is an object.
fn set_key(data: JsonValue, key: &String) -> (r: JsonValue)
    ensures
        deep(r) == with_key_tree(deep(data), key@),
{
    match data {
        JsonValue::Object(mut e) => {
            let ghost e0 = e@;
            let name = String::from_str("_key");
            let v = JsonValue::String(key.clone());
            proof {
                lemma_insert_matches(e0, name, v);
                reveal_strlit("_key");
            }
            object_insert(&mut e, name, v);
            JsonValue::Object(e)
        },
        other => other,
    }
}

proof fn lemma_upsert_step(
    batch: Seq<(String, JsonValue)>,
    stored: Seq<(bool, Option<Document>)>,
    n: nat,
)
    requires
        n < batch.len(),
    ensures
        ({
            let ki = batch[n as int].0@;
            let pk = upsert_keys(batch, n);
            &&& upsert_keys(batch, n + 1) == if pk.contains(ki) {
                pk
            } else {
                pk.push(ki)
            }
            &&& forall|k: Seq<char>|
                k != ki ==> #[trigger] upsert_tree(batch, stored, n + 1, k) == upsert_tree(
                    batch,
                    stored,
                    n,
                    k,
                )
            &&& forall|k: Seq<char>|
                k != ki ==> #[trigger] first_index(batch, n + 1, k) == first_index(batch, n, k)
            &&& first_index(batch, n + 1, ki) == if first_index(batch, n, ki) is None {
                Some(n as int)
            } else {
                first_index(batch, n, ki)
            }
        }),
{
}

/// Plans an upsert batch: `batch` holds (key, data) in order, and
/// `stored[i]` tells whether a document was stored under the key of entry
/// `i` and, where it could be read, that document. Each entry's data gets
/// its `_key` set (where it is an object); a key that comes up again builds
/// on its pending version; otherwise the stored document is updated, or a
/// new document is made of the data. The result holds one entry per key,
/// in the order of its first document, with whether the key existed.
pub fn plan_upsert_batch(
    collection_name: &str,
    batch: Vec<(String, JsonValue)>,
    stored: Vec<(bool, Option<Document>)>,
) -> (r: Vec<(String, Document, bool)>)
    requires
        batch.len() == stored.len(),
    ensures
        upsert_agrees(batch@, stored@, collection_name@, batch@.len() as nat, r@),
{
    let ghost b0 = batch@;
    let ghost s0 = stored@;
    let mut batch = batch;
    let mut stored = stored;
    let mut pending: Vec<(String, Document, bool)> = Vec::new();
    let mut positions: StringHashMap<usize> = StringHashMap::new();
    let mut i: usize = 0;
    while i < batch.len()
        invariant
            i <= b0.len(),
            b0.len() == s0.len(),
            batch@.len() == b0.len(),
            stored@.len() == s0.len(),
            forall|j: int| i <= j < b0.len() ==> #[trigger] batch@[j] == b0[j],
            forall|j: int| i <= j < s0.len() ==> #[trigger] stored@[j] == s0[j],
            upsert_agrees(b0, s0, collection_name@, i as nat, pending@),
            forall|k: Seq<char>|
                #[trigger] positions@.contains_key(k) <==> upsert_keys(b0, i as nat).contains(k),
            forall|k: Seq<char>|
                #[trigger] positions@.contains_key(k) ==> positions@[k] < pending@.len()
                    && pending@[positions@[k] as int].0@ == k,
        decreases b0.len() - i,
    {
        let ghost n = i as nat;
        let ghost pk = upsert_keys(b0, n);
        let mut entry: (String, JsonValue) = (String::new(), JsonValue::Null);
        std::mem::swap(&mut entry, &mut batch[i]);
        let mut slot: (bool, Option<Document>) = (false, None);
        std::mem::swap(&mut slot, &mut stored[i]);
        let (key, raw) = entry;
        let ghost ki = key@;
        assert(b0[i as int].0@ == ki);
        let data = set_key(raw, &key);
        proof {
            lemma_upsert_step(b0, s0, n);
        }
        let existing: Option<usize> = match positions.get(key.as_str()) {
            Some(p) => Some(*p),
            None => None,
        };
        match existing {
            Some(p) => {
                let mut taken: (String, Document, bool) = (
                    String::new(),
                    Document {
                        key: String::new(),
                        id: String::new(),
                        rev: String::new(),
                        created_at: crate::timestamps::Timestamp { secs: 0, nanos: 0 },
                        updated_at: crate::timestamps::Timestamp { secs: 0, nanos: 0 },
                        data: JsonValue::Null,
                    },
                    false,
                );
                let ghost pre = pending@;
                std::mem::swap(&mut taken, &mut pending[p]);
                let ghost before = taken.1;
                let (k, mut doc, existed) = taken;
                doc.update(data);
                proof {
                    lemma_update_content(before.data, data, doc.data);
                }
                let ghost p0 = pre;
                pending.set(p, (k, doc, existed));
                proof {
                    let p1 = pending@;
                    assert(pk.contains(ki));
                    assert(pk[p as int] == ki);
                    assert forall|j: int| 0 <= j < p1.len() implies (#[trigger] p1[j]).0@ == pk[j] by {
                        if j != p {
                            assert(p1[j] == p0[j]);
                        }
                    }
                    assert forall|j: int| 0 <= j < p1.len() implies upsert_tree(b0, s0, n + 1, (#[trigger] p1[j]).0@) == Some(deep(p1[j].1.data)) by {
                        if j != p {
                            assert(p1[j] == p0[j]);
                            assert(p0[j].0@ == pk[j]);
                            assert(pk[j] != pk[p as int]);
                        }
                    }
                    assert forall|j: int| 0 <= j < p1.len() implies is_uuid_text((#[trigger] p1[j]).1.rev@) by {
                        if j != p {
                            assert(p1[j] == p0[j]);
                        }
                    }
                    assert forall|j: int| 0 <= j < p1.len() implies upsert_entry_ok(b0, s0, collection_name@, n + 1, (#[trigger] p1[j]).0@, p1[j].2, p1[j].1) by {
                        assert(upsert_entry_ok(b0, s0, collection_name@, n, p0[j].0@, p0[j].2, p0[j].1));
                        assert(first_index(b0, n, ki) is Some);
                        if j != p {
                            assert(p1[j] == p0[j]);
                        }
                    }
                    assert forall|k: Seq<char>| #[trigger] pk.contains(k) <==> upsert_tree(b0, s0, n + 1, k) is Some by {
                        if k != ki {
                            assert(upsert_tree(b0, s0, n + 1, k) == upsert_tree(b0, s0, n, k));
                        }
                    }
                    assert forall|k: Seq<char>| #[trigger] pk.contains(k) <==> first_index(b0, n + 1, k) is Some by {
                        if k != ki {
                            assert(first_index(b0, n + 1, k) == first_index(b0, n, k));
                        }
                    }
                }
            },
            None => {
                let (existed, found) = slot;
                let doc = match found {
                    Some(mut d) => {
                        let ghost before = d;
                        d.update(data);
                        proof {
                            lemma_update_content(before.data, data, d.data);
                        }
                        d
                    },
                    None => {
                        let d = Document::with_key(collection_name, key.clone(), data);
                        proof {
                            lemma_stripped_content(data, d.data);
                        }
                        d
                    },
                };
                let ghost p0 = pending@;
                positions.insert(key.clone(), pending.len());
                pending.push((key, doc, existed));
                proof {
                    let p1 = pending@;
                    let pk1 = pk.push(ki);
                    assert(!pk.contains(ki));
                    assert(upsert_tree(b0, s0, n, ki) is None);
                    assert(first_index(b0, n, ki) is None);
                    assert forall|a: int, b: int| 0 <= a < b < pk1.len() implies #[trigger] pk1[a] != #[trigger] pk1[b] by {
                        if b == pk.len() {
                            assert(pk.contains(pk[a]));
                        } else {
                            assert(pk[a] != pk[b]);
                        }
                    }
                    assert forall|j: int| 0 <= j < p1.len() implies (#[trigger] p1[j]).0@ == pk1[j] by {
                        if j < p0.len() {
                            assert(p1[j] == p0[j]);
                        }
                    }
                    assert forall|j: int| 0 <= j < p1.len() implies upsert_tree(b0, s0, n + 1, (#[trigger] p1[j]).0@) == Some(deep(p1[j].1.data)) by {
                        if j < p0.len() {
                            assert(p1[j] == p0[j]);
                            assert(p0[j].0@ == pk[j]);
                            assert(pk.contains(pk[j]));
                        }
                    }
                    assert forall|j: int| 0 <= j < p1.len() implies is_uuid_text((#[trigger] p1[j]).1.rev@) by {
                        if j < p0.len() {
                            assert(p1[j] == p0[j]);
                        }
                    }
                    assert forall|j: int| 0 <= j < p1.len() implies upsert_entry_ok(b0, s0, collection_name@, n + 1, (#[trigger] p1[j]).0@, p1[j].2, p1[j].1) by {
                        if j < p0.len() {
                            assert(p1[j] == p0[j]);
                            assert(upsert_entry_ok(b0, s0, collection_name@, n, p0[j].0@, p0[j].2, p0[j].1));
                            assert(p0[j].0@ == pk[j]);
                            assert(pk.contains(pk[j]));
                        }
                    }
                    assert forall|k: Seq<char>| #[trigger] pk1.contains(k) <==> upsert_tree(b0, s0, n + 1, k) is Some by {
                        if k != ki {
                            assert(upsert_tree(b0, s0, n + 1, k) == upsert_tree(b0, s0, n, k));
                            if pk1.contains(k) {
                                let x = choose|x: int| 0 <= x < pk1.len() && pk1[x] == k;
                                assert(pk[x] == k);
                            }
                            if pk.contains(k) {
                                let x = choose|x: int| 0 <= x < pk.len() && pk[x] == k;
                                assert(pk1[x] == k);
                            }
                        } else {
                            assert(pk1[pk.len() as int] == ki);
                        }
                    }
                    assert forall|k: Seq<char>| #[trigger] pk1.contains(k) <==> first_index(b0, n + 1, k) is Some by {
                        if k != ki {
                            assert(first_index(b0, n + 1, k) == first_index(b0, n, k));
                            if pk1.contains(k) {
                                let x = choose|x: int| 0 <= x < pk1.len() && pk1[x] == k;
                                assert(pk[x] == k);
                            }
                            if pk.contains(k) {
                                let x = choose|x: int| 0 <= x < pk.len() && pk[x] == k;
                                assert(pk1[x] == k);
                            }
                        } else {
                            assert(pk1[pk.len() as int] == ki);
                        }
                    }
                }
            },
        }
        i = i + 1;
    }
    pending
}

} // verus!
