//! Documents: a JSON value with its key, id, revision and timestamps.
//!
//! The system fields `_key`, `_id`, `_rev`, `_created_at` and `_updated_at`
//! live beside the data, never in it: creating a document strips them from
//! the data, and an update never writes a field whose name starts with `_`.
use vstd::prelude::*;
use crate::bytes::str_equal;
use crate::json::{
    lemma_find_key_from, obj_get, obj_insert, obj_remove, object_insert, object_remove, text_of,
    copy_value, deep, deep_opt, keys_distinct, lemma_obj_get_insert, lemma_obj_get_prefix,
    JsonNumber, JsonTree, JsonValue,
};
use crate::timestamps::{format_rfc3339, rfc3339_text, utc_now, Timestamp};

verus! {

broadcast use vstd::string::axiom_spec_iter, vstd::string::next_postcondition;

/// A lower-case hex digit.
pub open spec fn is_hex_lower_char(c: char) -> bool {
    (48 <= c as u32 <= 57) || (97 <= c as u32 <= 102)
}

/// The hyphenated lower-case text of a UUID: 8-4-4-4-12 hex digits.
pub open spec fn is_uuid_text(s: Seq<char>) -> bool {
    &&& s.len() == 36
    &&& forall|i: int|
        0 <= i < 36 ==> if i == 8 || i == 13 || i == 18 || i == 23 {
            #[trigger] s[i] == '-'
        } else {
            is_hex_lower_char(s[i])
        }
}

/// Calls `uuid::Uuid::new_v4` and writes it with `to_string`: random, so
/// only its shape is stated, the hyphenated lower-case form that the crate's
/// `Display` writes, with the version digit `4`.
#[verifier::external_body]
pub(crate) fn new_v4_text() -> (r: String)
    ensures
        is_uuid_text(r@),
        r@[14] == '4',
{
    uuid::Uuid::new_v4().to_string()
}

/// Calls `uuid::Uuid::new_v7` on `uuid::Timestamp::now(uuid::NoContext)`
/// and writes it with `to_string`: time-ordered and random, so only its shape
/// is stated, with the version digit `7`.
#[verifier::external_body]
pub(crate) fn new_v7_text() -> (r: String)
    ensures
        is_uuid_text(r@),
        r@[14] == '7',
{
    uuid::Uuid::new_v7(uuid::Timestamp::now(uuid::NoContext)).to_string()
}

/// A stored document.
pub struct Document {
    /// Unique key within the collection.
    pub key: String,
    /// `<collection>/<key>`.
    pub id: String,
    /// Revision, renewed on every update.
    pub rev: String,
    pub created_at: Timestamp,
    pub updated_at: Timestamp,
    /// The document's own fields.
    pub data: JsonValue,
}

/// Whether a field name is reserved for the system: it starts with `_`.
pub open spec fn is_reserved(k: Seq<char>) -> bool {
    k.len() > 0 && k[0] == '_'
}

/// The fields without the five system fields.
pub open spec fn stripped_fields(e: Seq<(String, JsonValue)>) -> Seq<(String, JsonValue)> {
    obj_remove(
        obj_remove(
            obj_remove(obj_remove(obj_remove(e, "_key"@), "_id"@), "_rev"@),
            "_created_at"@,
        ),
        "_updated_at"@,
    )
}

/// `after` is `before` with the system fields removed, where it is an
/// object; any other value is kept as it is.
pub open spec fn is_stripped(before: JsonValue, after: JsonValue) -> bool {
    match before {
        JsonValue::Object(e) => after matches JsonValue::Object(f) && f@ == stripped_fields(e@),
        _ => after == before,
    }
}

/// Removes the system fields from an object.
fn strip_system_fields(data: JsonValue) -> (r: JsonValue)
    ensures
        is_stripped(data, r),
{
    match data {
        JsonValue::Object(mut e) => {
            object_remove(&mut e, "_key");
            object_remove(&mut e, "_id");
            object_remove(&mut e, "_rev");
            object_remove(&mut e, "_created_at");
            object_remove(&mut e, "_updated_at");
            JsonValue::Object(e)
        },
        other => other,
    }
}

/// The fields after setting the first `n` fields of `new` whose names are
/// not reserved, in order.
pub open spec fn merged_fields(
    e: Seq<(String, JsonValue)>,
    new: Seq<(String, JsonValue)>,
    n: nat,
) -> Seq<(String, JsonValue)>
    decreases n,
{
    if n == 0 || n > new.len() {
        e
    } else {
        let m = merged_fields(e, new, (n - 1) as nat);
        if is_reserved(new[n - 1].0@) {
            m
        } else {
            obj_insert(m, new[n - 1].0, new[n - 1].1)
        }
    }
}

/// Whether a name is reserved: its first character is `_`.
fn reserved_name(k: &str) -> (r: bool)
    ensures
        r == is_reserved(k@),
{
    let mut chars = k.chars();
    match chars.next() {
        Some(c) => c == '_',
        None => false,
    }
}

/// Sets each field of `new` whose name is not reserved.
fn merge_public_fields(existing: &mut Vec<(String, JsonValue)>, new: Vec<(String, JsonValue)>)
    ensures
        final(existing)@ == merged_fields(old(existing)@, new@, new@.len()),
{
    let ghost start = existing@;
    let ghost fields = new@;
    for field in it: new.into_iter()
        invariant
            it.seq() == fields,
            existing@ == merged_fields(start, fields, it.index() as nat),
    {
        let (k, v) = field;
        if !reserved_name(k.as_str()) {
            object_insert(existing, k, v);
        }
    }
}

/// What a system field of a document holds, as text: the key, id and
/// revision, and the creation and update times as RFC 3339 text.
pub open spec fn system_text(d: Document, k: Seq<char>) -> Option<Seq<char>> {
    if k == "_key"@ {
        Some(d.key@)
    } else if k == "_id"@ {
        Some(d.id@)
    } else if k == "_rev"@ {
        Some(d.rev@)
    } else if k == "_created_at"@ {
        rfc3339_text(d.created_at.secs, d.created_at.nanos)
    } else if k == "_updated_at"@ {
        rfc3339_text(d.updated_at.secs, d.updated_at.nanos)
    } else {
        None
    }
}

/// What the value of a document gives for name `k`: the data's field where
/// it has one, else the system field.
pub open spec fn value_field(d: Document, k: Seq<char>) -> Option<JsonTree> {
    match d.data.field(k) {
        Some(v) => Some(deep(v)),
        None => match system_text(d, k) {
            Some(t) => Some(JsonTree::String(t)),
            None => None,
        },
    }
}

/// Whether a document can be written as one JSON object: its data is an
/// object (or null) and both times can be written.
pub open spec fn has_value(d: Document) -> bool {
    &&& (d.data is Object || d.data is Null)
    &&& rfc3339_text(d.created_at.secs, d.created_at.nanos) is Some
    &&& rfc3339_text(d.updated_at.secs, d.updated_at.nanos) is Some
}

/// `<collection>/<key>`.
fn document_id(collection_name: &str, key: &str) -> (r: String)
    ensures
        r@ == collection_name@ + "/"@ + key@,
{
    let mut id = String::from_str(collection_name);
    id.append("/");
    id.append(key);
    id
}

impl Document {
    /// A document with the given key. The data loses its system fields; the
    /// revision is fresh and both timestamps are the current time.
    pub fn with_key(collection_name: &str, key: String, data: JsonValue) -> (r: Self)
        ensures
            r.key@ == key@,
            r.id@ == collection_name@ + "/"@ + key@,
            is_uuid_text(r.rev@),
            r.created_at == r.updated_at,
            rfc3339_text(r.created_at.secs, r.created_at.nanos) is Some,
            is_stripped(data, r.data),
    {
        let id = document_id(collection_name, key.as_str());
        let now = utc_now();
        Document {
            key,
            id,
            rev: new_v4_text(),
            created_at: now,
            updated_at: now,
            data: strip_system_fields(data),
        }
    }

    /// A document with a fresh time-ordered key (a version 7 UUID).
    pub fn new(collection_name: &str, data: JsonValue) -> (r: Self)
        ensures
            is_uuid_text(r.key@),
            r.key@[14] == '7',
            r.id@ == collection_name@ + "/"@ + r.key@,
            is_uuid_text(r.rev@),
            r.created_at == r.updated_at,
            is_stripped(data, r.data),
    {
        let key = new_v7_text();
        Self::with_key(collection_name, key, data)
    }

    /// Merges `data` into the document: where both are objects, every
    /// field of `data` whose name does not start with `_` is set; otherwise
    /// `data` (without its system fields) replaces the data. The revision is
    /// renewed and the update time is the current time; key, id and creation
    /// time stay.
    pub fn update(&mut self, data: JsonValue)
        ensures
            final(self).key == old(self).key,
            final(self).id == old(self).id,
            final(self).created_at == old(self).created_at,
            is_uuid_text(final(self).rev@),
            rfc3339_text(final(self).updated_at.secs, final(self).updated_at.nanos) is Some,
            match (old(self).data, data) {
                (JsonValue::Object(e), JsonValue::Object(n)) => final(self).data matches JsonValue::Object(
                    f,
                ) && f@ == merged_fields(e@, n@, n@.len()),
                _ => is_stripped(data, final(self).data),
            },
    {
        let mut current = JsonValue::Null;
        std::mem::swap(&mut current, &mut self.data);
        let next = match current {
            JsonValue::Object(mut existing) => match data {
                JsonValue::Object(new) => {
                    merge_public_fields(&mut existing, new);
                    JsonValue::Object(existing)
                },
                other => strip_system_fields(other),
            },
            _ => strip_system_fields(data),
        };
        self.data = next;
        self.rev = new_v4_text();
        self.updated_at = utc_now();
    }

    /// The document as one JSON object: the system fields beside the data's
    /// fields (a data field of the same name wins). Where the data is
    /// neither an object nor null, or a time cannot be written, the result is
    /// null. For data whose field names are distinct, as a JSON object's are,
    /// every name gives what `value_field` says.
    pub fn to_value(&self) -> (r: JsonValue)
        ensures
            !has_value(*self) ==> r == JsonValue::Null,
            has_value(*self) ==> r is Object,
            has_value(*self) && (self.data matches JsonValue::Object(e) ==> keys_distinct(e@))
                ==> forall|k: Seq<char>| #[trigger] deep_opt(r.field(k)) == value_field(*self, k),
    {
        let created = match format_rfc3339(self.created_at) {
            Some(t) => t,
            None => {
                return JsonValue::Null;
            },
        };
        let updated = match format_rfc3339(self.updated_at) {
            Some(t) => t,
            None => {
                return JsonValue::Null;
            },
        };
        let empty: Vec<(String, JsonValue)> = Vec::new();
        let fields: &Vec<(String, JsonValue)> = match &self.data {
            JsonValue::Object(e) => e,
            JsonValue::Null => &empty,
            _ => {
                return JsonValue::Null;
            },
        };
        proof {
            reveal_strlit("_key");
            reveal_strlit("_id");
            reveal_strlit("_rev");
            reveal_strlit("_created_at");
            reveal_strlit("_updated_at");
            assert("_key"@.len() == 4 && "_id"@.len() == 3 && "_rev"@.len() == 4);
            assert("_created_at"@.len() == 11 && "_updated_at"@.len() == 11);
            assert("_key"@[1] == 'k' && "_rev"@[1] == 'r');
            assert("_created_at"@[1] == 'c' && "_updated_at"@[1] == 'u');
        }
        let ghost d = *self;
        let mut out: Vec<(String, JsonValue)> = Vec::new();
        let ghost o0 = out@;
        let n1 = String::from_str("_key");
        let v1 = JsonValue::String(self.key.clone());
        let ghost (g1, w1) = (n1, v1);
        object_insert(&mut out, n1, v1);
        let ghost o1 = out@;
        let n2 = String::from_str("_id");
        let v2 = JsonValue::String(self.id.clone());
        let ghost (g2, w2) = (n2, v2);
        object_insert(&mut out, n2, v2);
        let ghost o2 = out@;
        let n3 = String::from_str("_rev");
        let v3 = JsonValue::String(self.rev.clone());
        let ghost (g3, w3) = (n3, v3);
        object_insert(&mut out, n3, v3);
        let ghost o3 = out@;
        let n4 = String::from_str("_created_at");
        let v4 = JsonValue::String(created);
        let ghost (g4, w4) = (n4, v4);
        object_insert(&mut out, n4, v4);
        let ghost o4 = out@;
        let n5 = String::from_str("_updated_at");
        let v5 = JsonValue::String(updated);
        let ghost (g5, w5) = (n5, v5);
        object_insert(&mut out, n5, v5);
        proof {
            assert forall|k: Seq<char>| #[trigger] deep_opt(obj_get(out@, k)) == match system_text(d, k) {
                Some(t) => Some(JsonTree::String(t)),
                None => None,
            } by {
                lemma_obj_get_insert(o0, g1, w1, k);
                lemma_obj_get_insert(o1, g2, w2, k);
                lemma_obj_get_insert(o2, g3, w3, k);
                lemma_obj_get_insert(o3, g4, w4, k);
                lemma_obj_get_insert(o4, g5, w5, k);
                lemma_find_key_from(o0, k, 0);
            }
            assert(fields@.subrange(0, 0) =~= Seq::<(String, JsonValue)>::empty());
            lemma_find_key_from(Seq::<(String, JsonValue)>::empty(), "_key"@, 0);
        }
        let mut i: usize = 0;
        while i < fields.len()
            invariant
                i <= fields@.len(),
                d == *self,
                has_value(d),
                d.data matches JsonValue::Object(e) ==> e@ == fields@,
                d.data is Null ==> fields@.len() == 0,
                keys_distinct(fields@) ==> forall|k: Seq<char>|
                    #[trigger] deep_opt(obj_get(out@, k)) == match obj_get(
                        fields@.subrange(0, i as int),
                        k,
                    ) {
                        Some(v) => Some(deep(v)),
                        None => match system_text(d, k) {
                            Some(t) => Some(JsonTree::String(t)),
                            None => None,
                        },
                    },
            decreases fields@.len() - i,
        {
            let ghost before = out@;
            let v = copy_value(&fields[i].1);
            let name = fields[i].0.clone();
            let ghost (gn, gv) = (name, v);
            object_insert(&mut out, name, v);
            proof {
                if keys_distinct(fields@) {
                    assert forall|k: Seq<char>|
                        #[trigger] deep_opt(obj_get(out@, k)) == match obj_get(
                            fields@.subrange(0, i + 1),
                            k,
                        ) {
                            Some(v) => Some(deep(v)),
                            None => match system_text(d, k) {
                                Some(t) => Some(JsonTree::String(t)),
                                None => None,
                            },
                        } by {
                        lemma_obj_get_insert(before, gn, gv, k);
                        lemma_obj_get_prefix(fields@, i as int, k);
                        assert(deep_opt(obj_get(before, k)) == match obj_get(
                            fields@.subrange(0, i as int),
                            k,
                        ) {
                            Some(v) => Some(deep(v)),
                            None => match system_text(d, k) {
                                Some(t) => Some(JsonTree::String(t)),
                                None => None,
                            },
                        });
                    }
                }
            }
            i = i + 1;
        }
        proof {
            assert(fields@.subrange(0, fields@.len() as int) =~= fields@);
            if d.data is Null {
                assert forall|k: Seq<char>| obj_get(fields@, k) is None by {
                    lemma_find_key_from(fields@, k, 0);
                }
            }
        }
        JsonValue::Object(out)
    }

    /// The current revision.
    pub fn revision(&self) -> (r: &str)
        ensures
            r@ == self.rev@,
    {
        self.rev.as_str()
    }

    /// A field of the document. `_key`, `_id` and `_rev` give the document's
    /// key, id and revision as strings; any other name is looked up in the
    /// data.
    pub fn get(&self, field: &str) -> (r: Option<JsonValue>)
        ensures
            field@ == "_key"@ ==> text_of(r) == Some(self.key@),
            field@ == "_id"@ ==> text_of(r) == Some(self.id@),
            field@ == "_rev"@ ==> text_of(r) == Some(self.rev@),
            !(field@ == "_key"@ || field@ == "_id"@ || field@ == "_rev"@) ==> deep_opt(r) == deep_opt(
                self.data.field(field@),
            ),
    {
        proof {
            reveal_strlit("_key");
            reveal_strlit("_id");
            reveal_strlit("_rev");
            assert("_key"@.len() == 4 && "_id"@.len() == 3 && "_rev"@.len() == 4);
            assert("_key"@[1] == 'k' && "_rev"@[1] == 'r');
        }
        if str_equal(field, "_key") {
            Some(JsonValue::String(self.key.clone()))
        } else if str_equal(field, "_id") {
            Some(JsonValue::String(self.id.clone()))
        } else if str_equal(field, "_rev") {
            Some(JsonValue::String(self.rev.clone()))
        } else {
            match self.data.get(field) {
                Some(v) => Some(copy_value(v)),
                None => None,
            }
        }
    }
}

} // verus!
