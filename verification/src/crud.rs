//! Checks and preparation of documents before they are written: taking the
//! key out of the data, the shape of edge documents, the conflicts of an
//! insert over an existing key and of an update over a newer revision,
//! which collections take updates, repeats within a batch, the document a
//! transaction commits, and how far a document scan reads ahead.
use vstd::prelude::*;
use vstd::hash_map::StringHashMap;
use crate::document::{is_stripped, is_uuid_text, new_v7_text, Document};
use crate::json::{copy_value, deep, obj_get, obj_remove, object_take, JsonValue};
use crate::keys::Collection;
use crate::timestamps::{parse_rfc3339, rfc3339_instant, Timestamp};

verus! {

/// Why a document is refused.
#[derive(Debug, PartialEq, Eq)]
pub enum DocumentError {
    /// The document does not have the required shape; the text says how.
    InvalidDocument(String),
    /// The document clashes with one that exists; the text says how.
    Conflict(String),
    /// The collection does not allow the operation; the text says which.
    NotSupported(String),
}

/// The conflict of an insert whose `_key` is already taken:
/// `Document with _key '<key>' already exists`.
pub fn key_exists_error(key: &str) -> (r: DocumentError)
    ensures
        r matches DocumentError::Conflict(m) && m@ == "Document with _key '"@ + key@
            + "' already exists"@,
{
    let mut m = String::from_str("Document with _key '");
    m.append(key);
    m.append("' already exists");
    DocumentError::Conflict(m)
}

/// The conflict of an update recorded against revision `expected` of a
/// document whose revision is now `current`; none when they are the same.
pub fn revision_conflict(key: &str, expected: &str, current: &str) -> (r: Option<DocumentError>)
    ensures
        expected@ == current@ <==> r is None,
        r matches Some(e) ==> e matches DocumentError::Conflict(m) && m@ == "Document '"@ + key@
            + "' has been modified. Expected revision '"@ + expected@ + "', but current is '"@
            + current@ + "'"@,
{
    if crate::bytes::str_equal(expected, current) {
        return None;
    }
    let mut m = String::from_str("Document '");
    m.append(key);
    m.append("' has been modified. Expected revision '");
    m.append(expected);
    m.append("', but current is '");
    m.append(current);
    m.append("'");
    Some(DocumentError::Conflict(m))
}

/// Whether a collection of the given type takes updates: a time-series
/// collection takes none.
pub fn update_allowed(collection_type: &str) -> (r: Result<(), DocumentError>)
    ensures
        collection_type@ == "timeseries"@ <==> r is Err,
        r matches Err(e) ==> e matches DocumentError::NotSupported(m) && m@
            == "Update operations are not allowed on timeseries collections"@,
{
    if crate::bytes::str_equal(collection_type, "timeseries") {
        Err(
            DocumentError::NotSupported(
                String::from_str("Update operations are not allowed on timeseries collections"),
            ),
        )
    } else {
        Ok(())
    }
}

/// Whether a collection of the given type takes upserts: a time-series
/// collection takes none (its documents go in by insert).
pub fn upsert_allowed(collection_type: &str) -> (r: Result<(), DocumentError>)
    ensures
        collection_type@ == "timeseries"@ <==> r is Err,
        r matches Err(e) ==> e matches DocumentError::NotSupported(m) && m@
            == "Upsert (update) operations are not allowed on timeseries collections. Use insert_batch instead."@,
{
    if crate::bytes::str_equal(collection_type, "timeseries") {
        Err(
            DocumentError::NotSupported(
                String::from_str(
                    "Upsert (update) operations are not allowed on timeseries collections. Use insert_batch instead.",
                ),
            ),
        )
    } else {
        Ok(())
    }
}

/// How many bytes a scan of `limit` documents after `offset` reads ahead:
/// none for up to ten, 16 KiB for up to a hundred, else (and without a
/// limit) 256 KiB.
pub open spec fn spec_readahead(offset: usize, limit: Option<usize>) -> nat {
    match limit {
        Some(n) => {
            let requested: int = if n + offset > usize::MAX { usize::MAX as int } else { n + offset };
            if requested <= 10 {
                0
            } else if requested <= 100 {
                16 * 1024
            } else {
                256 * 1024
            }
        },
        None => 256 * 1024,
    }
}

/// How many bytes a scan of `limit` documents after `offset` reads ahead.
pub fn readahead_size(offset: usize, limit: Option<usize>) -> (r: usize)
    ensures
        r == spec_readahead(offset, limit),
{
    match limit {
        Some(n) => {
            let requested: usize = if n > usize::MAX - offset { usize::MAX } else { n + offset };
            if requested <= 10 {
                0
            } else if requested <= 100 {
                16 * 1024
            } else {
                256 * 1024
            }
        },
        None => 256 * 1024,
    }
}

/// The positions, from `i` on, of the documents a scan reads out of the
/// entries it met (`e[j]` telling whether entry `j`'s key lies under the
/// document prefix, and whether its value could be read): the scan stops at
/// the first key outside the prefix and passes over values it cannot read.
pub open spec fn readable_from(e: Seq<(bool, bool)>, i: int) -> Seq<usize>
    decreases e.len() - i,
{
    if i < 0 || i >= e.len() || !e[i].0 {
        Seq::empty()
    } else if e[i].1 {
        seq![i as usize] + readable_from(e, i + 1)
    } else {
        readable_from(e, i + 1)
    }
}

/// The documents a scan with `offset` and `limit` returns: the readable
/// ones after the first `offset`, at most `limit` of them.
pub open spec fn spec_scan_window(e: Seq<(bool, bool)>, offset: usize, limit: Option<usize>) -> Seq<
    usize,
> {
    let g = readable_from(e, 0);
    let s = if offset <= g.len() {
        g.skip(offset as int)
    } else {
        Seq::empty()
    };
    match limit {
        Some(n) => if n < s.len() {
            s.take(n as int)
        } else {
            s
        },
        None => s,
    }
}

/// Which of the entries a document scan met it returns, in order: `e[j]`
/// tells whether entry `j`'s key lies under the document prefix and whether
/// its value could be read. The scan stops at the first key outside the
/// prefix, passes over values it cannot read, skips the first `offset`
/// documents and stops once it holds `limit` of them.
pub fn scan_window(e: &Vec<(bool, bool)>, offset: usize, limit: Option<usize>) -> (r: Vec<usize>)
    ensures
        r@ == spec_scan_window(e@, offset, limit),
{
    let mut results: Vec<usize> = Vec::new();
    match limit {
        Some(n) => {
            if n == 0 {
                return results;
            }
        },
        None => {},
    }
    let ghost g = readable_from(e@, 0);
    let ghost mut p: Seq<usize> = Seq::empty();
    let mut skipped: usize = 0;
    let mut i: usize = 0;
    while i < e.len()
        invariant_except_break
            limit matches Some(n) ==> results@.len() < n,
            g == p + readable_from(e@, i as int),
            skipped as int == if p.len() < offset { p.len() as int } else { offset as int },
            results@ == if p.len() > offset { p.skip(offset as int) } else { Seq::empty() },
        invariant
            i <= e@.len(),
            g == readable_from(e@, 0),
            limit matches Some(n) ==> n > 0,
        ensures
            results@ == spec_scan_window(e@, offset, limit),
        decreases e@.len() - i,
    {
        if !e[i].0 {
            assert(readable_from(e@, i as int) =~= Seq::<usize>::empty());
            assert(g =~= p);
            proof {
                if p.len() == offset {
                    assert(g.skip(offset as int) =~= Seq::<usize>::empty());
                }
            }
            break;
        }
        if e[i].1 {
            assert(readable_from(e@, i as int) == seq![i as usize] + readable_from(e@, i + 1));
            let ghost p1 = p.push(i as usize);
            assert(g =~= p1 + readable_from(e@, i + 1));
            if skipped < offset {
                skipped = skipped + 1;
                proof {
                    p = p1;
                }
            } else {
                results.push(i);
                proof {
                    assert(p1.skip(offset as int) =~= p.skip(offset as int).push(i as usize)) by {
                        if p.len() == offset {
                            assert(p.skip(offset as int) =~= Seq::<usize>::empty());
                        }
                    }
                    p = p1;
                }
                match limit {
                    Some(n) => {
                        if results.len() >= n {
                            proof {
                                let s = g.skip(offset as int);
                                assert(s =~= results@ + readable_from(e@, i + 1));
                                assert(s.take(n as int) =~= results@);
                            }
                            break;
                        }
                    },
                    None => {},
                }
            }
        } else {
            assert(readable_from(e@, i as int) == readable_from(e@, i + 1));
        }
        i = i + 1;
    }
    results
}

/// What taking the key out of a document's data gives: the text of a
/// string `_key`, an error for any other `_key`, and a fresh key where there
/// is none (or the data is not an object).
pub open spec fn key_outcome(data: JsonValue, r: Result<String, DocumentError>) -> bool {
    match data {
        JsonValue::Object(e) => match obj_get(e@, "_key"@) {
            Some(JsonValue::String(s)) => r matches Ok(k) && k@ == s@,
            Some(_) => r matches Err(DocumentError::InvalidDocument(m)) && m@
                == "_key must be a string"@,
            None => r matches Ok(k) && is_uuid_text(k@) && k@[14] == '7',
        },
        _ => r matches Ok(k) && is_uuid_text(k@) && k@[14] == '7',
    }
}

/// Removes `_key` from the data and returns it, or makes a time-ordered
/// key (a version 7 UUID) where the data has none. A `_key` that is not a
/// string is an error; it is removed all the same.
pub fn take_key(data: &mut JsonValue) -> (r: Result<String, DocumentError>)
    ensures
        key_outcome(*old(data), r),
        match *old(data) {
            JsonValue::Object(e) => *final(data) matches JsonValue::Object(f) && f@ == obj_remove(
                e@,
                "_key"@,
            ),
            _ => *final(data) == *old(data),
        },
{
    let mut current = JsonValue::Null;
    std::mem::swap(&mut current, data);
    match current {
        JsonValue::Object(mut fields) => {
            let taken = object_take(&mut fields, "_key");
            *data = JsonValue::Object(fields);
            match taken {
                Some(JsonValue::String(s)) => Ok(s),
                Some(_) => Err(DocumentError::InvalidDocument(String::from_str("_key must be a string"))),
                None => Ok(new_v7_text()),
            }
        },
        other => {
            *data = other;
            Ok(new_v7_text())
        },
    }
}

/// What an edge document's `_from` or `_to` field must be: a non-empty
/// string.
pub open spec fn endpoint_error(v: Option<JsonValue>, missing: Seq<char>, not_text: Seq<char>, empty: Seq<char>) -> Option<Seq<char>> {
    match v {
        Some(JsonValue::String(s)) => if s@.len() > 0 { None } else { Some(empty) },
        Some(_) => Some(not_text),
        None => Some(missing),
    }
}

/// Why a value is not an edge document, if it is not one: it must be an
/// object whose `_from` and `_to` are non-empty strings (`_from` is checked
/// first).
pub open spec fn spec_edge_error(data: JsonValue) -> Option<Seq<char>> {
    match data {
        JsonValue::Object(e) => match endpoint_error(
            obj_get(e@, "_from"@),
            "Edge document must have a _from field"@,
            "Edge document _from field must be a string"@,
            "Edge document _from field must be a non-empty string"@,
        ) {
            Some(m) => Some(m),
            None => endpoint_error(
                obj_get(e@, "_to"@),
                "Edge document must have a _to field"@,
                "Edge document _to field must be a string"@,
                "Edge document _to field must be a non-empty string"@,
            ),
        },
        _ => Some("Edge document must be a JSON object"@),
    }
}

fn check_endpoint(
    v: Option<&JsonValue>,
    missing: &str,
    not_text: &str,
    empty: &str,
) -> (r: Option<String>)
    ensures
        match r {
            Some(m) => endpoint_error(
                match v {
                    Some(x) => Some(*x),
                    None => None,
                },
                missing@,
                not_text@,
                empty@,
            ) == Some(m@),
            None => endpoint_error(
                match v {
                    Some(x) => Some(*x),
                    None => None,
                },
                missing@,
                not_text@,
                empty@,
            ) is None,
        },
{
    match v {
        Some(JsonValue::String(s)) => if !s.as_str().is_empty() {
            None
        } else {
            Some(String::from_str(empty))
        },
        Some(_) => Some(String::from_str(not_text)),
        None => Some(String::from_str(missing)),
    }
}

impl Collection {
    /// Checks that a value can be stored in an edge collection.
    pub fn validate_edge_document(&self, data: &JsonValue) -> (r: Result<(), DocumentError>)
        ensures
            match spec_edge_error(*data) {
                None => r is Ok,
                Some(m) => r matches Err(DocumentError::InvalidDocument(t)) && t@ == m,
            },
    {
        match data {
            JsonValue::Object(_) => {
                match check_endpoint(
                    data.get("_from"),
                    "Edge document must have a _from field",
                    "Edge document _from field must be a string",
                    "Edge document _from field must be a non-empty string",
                ) {
                    Some(m) => {
                        return Err(DocumentError::InvalidDocument(m));
                    },
                    None => {},
                }
                match check_endpoint(
                    data.get("_to"),
                    "Edge document must have a _to field",
                    "Edge document _to field must be a string",
                    "Edge document _to field must be a non-empty string",
                ) {
                    Some(m) => Err(DocumentError::InvalidDocument(m)),
                    None => Ok(()),
                }
            },
            _ => Err(DocumentError::InvalidDocument(String::from_str("Edge document must be a JSON object"))),
        }
    }
}

/// The instant a field of a value gives, where it is an RFC 3339 string.
pub open spec fn field_instant(value: JsonValue, k: Seq<char>) -> Option<(i64, u32)> {
    match value.field(k) {
        Some(JsonValue::String(s)) => rfc3339_instant(s@),
        _ => None,
    }
}

fn instant_field(value: &JsonValue, k: &str) -> (r: Option<Timestamp>)
    ensures
        match r {
            Some(t) => field_instant(*value, k@) == Some((t.secs, t.nanos)),
            None => field_instant(*value, k@) is None,
        },
{
    match value.get(k) {
        Some(JsonValue::String(s)) => parse_rfc3339(s.as_str()),
        _ => None,
    }
}

/// The document a transaction commits from the value it recorded: the
/// value's content without its system fields, under `key`, keeping the
/// `_rev` and times the client was handed where the value carries them.
pub fn txn_document(collection: &str, key: &str, value: &JsonValue) -> (r: Document)
    ensures
        r.key@ == key@,
        r.id@ == collection@ + "/"@ + key@,
        exists|c: JsonValue| deep(c) == deep(*value) && is_stripped(c, r.data),
        match value.field("_rev"@) {
            Some(JsonValue::String(s)) => r.rev@ == s@,
            _ => is_uuid_text(r.rev@),
        },
        match field_instant(*value, "_created_at"@) {
            Some((secs, nanos)) => r.created_at == Timestamp { secs, nanos },
            None => true,
        },
        match field_instant(*value, "_updated_at"@) {
            Some((secs, nanos)) => r.updated_at == Timestamp { secs, nanos },
            None => r.created_at == r.updated_at || field_instant(*value, "_created_at"@) is Some,
        },
{
    let copy = copy_value(value);
    let ghost c = copy;
    let mut doc = Document::with_key(collection, String::from_str(key), copy);
    match value.get("_rev") {
        Some(JsonValue::String(rev)) => {
            doc.rev = rev.clone();
        },
        _ => {},
    }
    match instant_field(value, "_created_at") {
        Some(t) => {
            doc.created_at = t;
        },
        None => {},
    }
    match instant_field(value, "_updated_at") {
        Some(t) => {
            doc.updated_at = t;
        },
        None => {},
    }
    assert(deep(c) == deep(*value) && is_stripped(c, doc.data));
    doc
}

/// The position of the first item that repeats an earlier one, if any.
pub fn first_repeated(items: &Vec<String>) -> (r: Option<usize>)
    ensures
        match r {
            Some(i) => {
                &&& i < items.len()
                &&& exists|j: int| 0 <= j < i && #[trigger] items@[j]@ == items@[i as int]@
                &&& forall|a: int, b: int| 0 <= a < b < i ==> items@[a]@ != items@[b]@
            },
            None => forall|a: int, b: int| 0 <= a < b < items.len() ==> items@[a]@ != items@[b]@,
        },
{
    let mut seen: StringHashMap<usize> = StringHashMap::new();
    let mut i: usize = 0;
    while i < items.len()
        invariant
            i <= items.len(),
            forall|a: int, b: int| 0 <= a < b < i ==> items@[a]@ != items@[b]@,
            forall|k: Seq<char>| #[trigger] seen@.contains_key(k) ==> seen@[k] < i && items@[seen@[k] as int]@ == k,
            forall|a: int| 0 <= a < i ==> #[trigger] seen@.contains_key(items@[a]@),
        decreases items.len() - i,
    {
        let item = &items[i];
        match seen.get(item.as_str()) {
            Some(j) => {
                assert(items@[*j as int]@ == items@[i as int]@);
                return Some(i);
            },
            None => {
                seen.insert(item.clone(), i);
                proof {
                    assert forall|a: int, b: int| 0 <= a < b < i + 1 implies items@[a]@ != items@[b]@ by {
                        if b == i {
                            assert(seen@.contains_key(items@[a]@) || a == i);
                        }
                    }
                }
            },
        }
        i = i + 1;
    }
    None
}

/// The refusal of a batch insert that names key `key` twice:
/// `Duplicate _key '<key>' within batch`.
pub fn duplicate_key_error(key: &str) -> (r: DocumentError)
    ensures
        r matches DocumentError::InvalidDocument(m) && m@ == "Duplicate _key '"@ + key@
            + "' within batch"@,
{
    let mut m = String::from_str("Duplicate _key '");
    m.append(key);
    m.append("' within batch");
    DocumentError::InvalidDocument(m)
}

/// The refusal of a batch in which document `key` repeats a unique value
/// that an earlier document of the batch holds.
pub fn repeated_unique_value_error(key: &str) -> (r: DocumentError)
    ensures
        r matches DocumentError::InvalidDocument(m) && m@ == "Unique constraint violated: document '"@
            + key@ + "' repeats a unique value used earlier in the same batch"@,
{
    let mut m = String::from_str("Unique constraint violated: document '");
    m.append(key);
    m.append("' repeats a unique value used earlier in the same batch");
    DocumentError::InvalidDocument(m)
}

/// The refusal of a batch in which documents `other` and `key` hold the
/// same unique value.
pub fn shared_unique_value_error(other: &str, key: &str) -> (r: DocumentError)
    ensures
        r matches DocumentError::InvalidDocument(m) && m@ == "Unique constraint violated: documents '"@
            + other@ + "' and '"@ + key@ + "' in the same batch share a unique value"@,
{
    let mut m = String::from_str("Unique constraint violated: documents '");
    m.append(other);
    m.append("' and '");
    m.append(key);
    m.append("' in the same batch share a unique value");
    DocumentError::InvalidDocument(m)
}

} // verus!
