//! JSON values as documents hold them, with the object operations that
//! documents use: looking a field up, setting one, and removing one.
//!
//! An object is a list of (name, value) fields; the operations below keep at
//! most one field per name, so a list built by them reads as a map.
use vstd::prelude::*;
use crate::bytes::str_equal;

verus! {

/// A JSON number: a non-negative integer, a negative integer, or a float
/// (its IEEE-754 bits).
#[derive(Clone, Debug, PartialEq)]
pub enum JsonNumber {
    PosInt(u64),
    NegInt(i64),
    Float(u64),
}

/// A JSON value.
#[derive(Debug, PartialEq)]
pub enum JsonValue {
    Null,
    Bool(bool),
    Number(JsonNumber),
    String(String),
    Array(Vec<JsonValue>),
    Object(Vec<(String, JsonValue)>),
}

/// The mathematical content of a JSON value: texts as character
/// sequences, arrays and objects as sequences.
pub enum JsonTree {
    Null,
    Bool(bool),
    Number(JsonNumber),
    String(Seq<char>),
    Array(Seq<JsonTree>),
    Object(Seq<(Seq<char>, JsonTree)>),
}

/// The content of a JSON value.
pub open spec fn deep(v: JsonValue) -> JsonTree
    decreases v, 0nat,
{
    match v {
        JsonValue::Null => JsonTree::Null,
        JsonValue::Bool(b) => JsonTree::Bool(b),
        JsonValue::Number(n) => JsonTree::Number(n),
        JsonValue::String(s) => JsonTree::String(s@),
        JsonValue::Array(items) => JsonTree::Array(deep_items(items@, items@.len())),
        JsonValue::Object(fields) => JsonTree::Object(deep_fields(fields@, fields@.len())),
    }
}

/// The content of the first `n` items.
pub open spec fn deep_items(s: Seq<JsonValue>, n: nat) -> Seq<JsonTree>
    decreases s, n,
{
    if n == 0 || n > s.len() {
        Seq::empty()
    } else {
        deep_items(s, (n - 1) as nat).push(deep(s[n - 1]))
    }
}

/// The content of the first `n` fields.
pub open spec fn deep_fields(s: Seq<(String, JsonValue)>, n: nat) -> Seq<(Seq<char>, JsonTree)>
    decreases s, n,
{
    if n == 0 || n > s.len() {
        Seq::empty()
    } else {
        deep_fields(s, (n - 1) as nat).push((s[n - 1].0@, deep(s[n - 1].1)))
    }
}

pub open spec fn deep_opt(v: Option<JsonValue>) -> Option<JsonTree> {
    match v {
        Some(x) => Some(deep(x)),
        None => None,
    }
}

/// The content of a prefix does not depend on what follows it.
pub proof fn lemma_deep_items_push(s: Seq<JsonValue>, x: JsonValue, n: nat)
    requires
        n <= s.len(),
    ensures
        deep_items(s.push(x), n) == deep_items(s, n),
    decreases n,
{
    if n > 0 {
        lemma_deep_items_push(s, x, (n - 1) as nat);
        assert(s.push(x)[n - 1] == s[n - 1]);
    }
}

/// The content of a prefix does not depend on what follows it.
pub proof fn lemma_deep_fields_push(s: Seq<(String, JsonValue)>, x: (String, JsonValue), n: nat)
    requires
        n <= s.len(),
    ensures
        deep_fields(s.push(x), n) == deep_fields(s, n),
    decreases n,
{
    if n > 0 {
        lemma_deep_fields_push(s, x, (n - 1) as nat);
        assert(s.push(x)[n - 1] == s[n - 1]);
    }
}

/// A copy of a JSON value.
pub fn copy_value(v: &JsonValue) -> (r: JsonValue)
    ensures
        deep(r) == deep(*v),
    decreases v,
{
    match v {
        JsonValue::Null => JsonValue::Null,
        JsonValue::Bool(b) => JsonValue::Bool(*b),
        JsonValue::Number(n) => JsonValue::Number(
            match n {
                JsonNumber::PosInt(x) => JsonNumber::PosInt(*x),
                JsonNumber::NegInt(x) => JsonNumber::NegInt(*x),
                JsonNumber::Float(x) => JsonNumber::Float(*x),
            },
        ),
        JsonValue::String(s) => JsonValue::String(s.clone()),
        JsonValue::Array(items) => {
            let mut out: Vec<JsonValue> = Vec::new();
            let mut i: usize = 0;
            while i < items.len()
                invariant
                    *v == JsonValue::Array(*items),
                    i <= items@.len(),
                    out@.len() == i,
                    deep_items(out@, i as nat) == deep_items(items@, i as nat),
                decreases items@.len() - i,
            {
                proof {
                    assert(decreases_to!(*v => (*v)->Array_0));
                    assert((*v)->Array_0 == *items);
                    assert(decreases_to!(*items => items[i as int]));
                }
                let c = copy_value(&items[i]);
                proof {
                    lemma_deep_items_push(out@, c, i as nat);
                }
                out.push(c);
                i = i + 1;
            }
            JsonValue::Array(out)
        },
        JsonValue::Object(fields) => {
            let mut out: Vec<(String, JsonValue)> = Vec::new();
            let mut i: usize = 0;
            while i < fields.len()
                invariant
                    *v == JsonValue::Object(*fields),
                    i <= fields@.len(),
                    out@.len() == i,
                    deep_fields(out@, i as nat) == deep_fields(fields@, i as nat),
                decreases fields@.len() - i,
            {
                proof {
                    assert(decreases_to!(*v => (*v)->Object_0));
                    assert((*v)->Object_0 == *fields);
                    assert(decreases_to!(*fields => fields[i as int]));
                    assert(decreases_to!(fields[i as int] => fields[i as int].1));
                }
                let c = copy_value(&fields[i].1);
                let name = fields[i].0.clone();
                proof {
                    lemma_deep_fields_push(out@, (name, c), i as nat);
                }
                out.push((name, c));
                i = i + 1;
            }
            JsonValue::Object(out)
        },
    }
}

/// Position of the first field named `k` at or after `i`.
pub open spec fn find_key_from(e: Seq<(String, JsonValue)>, k: Seq<char>, i: int) -> Option<int>
    decreases e.len() - i,
{
    if i < 0 || i >= e.len() {
        None
    } else if e[i].0@ == k {
        Some(i)
    } else {
        find_key_from(e, k, i + 1)
    }
}

/// Position of the field named `k`.
pub open spec fn spec_find_key(e: Seq<(String, JsonValue)>, k: Seq<char>) -> Option<int> {
    find_key_from(e, k, 0)
}

/// The value of the field named `k`.
pub open spec fn obj_get(e: Seq<(String, JsonValue)>, k: Seq<char>) -> Option<JsonValue> {
    match spec_find_key(e, k) {
        Some(i) => Some(e[i].1),
        None => None,
    }
}

/// The fields with `k` set to `v`: an existing field keeps its place and
/// takes the new value, otherwise the field is appended.
pub open spec fn obj_insert(e: Seq<(String, JsonValue)>, k: String, v: JsonValue) -> Seq<
    (String, JsonValue),
> {
    match spec_find_key(e, k@) {
        Some(i) => e.update(i, (e[i].0, v)),
        None => e.push((k, v)),
    }
}

/// The fields without the one named `k`.
pub open spec fn obj_remove(e: Seq<(String, JsonValue)>, k: Seq<char>) -> Seq<(String, JsonValue)> {
    match spec_find_key(e, k) {
        Some(i) => e.remove(i),
        None => e,
    }
}

/// No two fields share a name.
pub open spec fn keys_distinct(e: Seq<(String, JsonValue)>) -> bool {
    forall|i: int, j: int| 0 <= i < j < e.len() ==> e[i].0@ != e[j].0@
}

/// The first field named `k` lies at or after `i`; before it no field has
/// that name.
pub proof fn lemma_find_key_from(e: Seq<(String, JsonValue)>, k: Seq<char>, i: int)
    requires
        0 <= i,
    ensures
        match find_key_from(e, k, i) {
            Some(p) => i <= p < e.len() && e[p].0@ == k && forall|j: int|
                i <= j < p ==> #[trigger] e[j].0@ != k,
            None => forall|j: int| i <= j < e.len() ==> #[trigger] e[j].0@ != k,
        },
    decreases e.len() - i,
{
    if i < e.len() && e[i].0@ != k {
        lemma_find_key_from(e, k, i + 1);
    }
}

proof fn lemma_find_same_names(e: Seq<(String, JsonValue)>, f: Seq<(String, JsonValue)>, j: Seq<char>, i: int)
    requires
        e.len() == f.len(),
        forall|x: int| 0 <= x < e.len() ==> #[trigger] e[x].0@ == f[x].0@,
    ensures
        find_key_from(e, j, i) == find_key_from(f, j, i),
    decreases e.len() - i,
{
    if 0 <= i < e.len() {
        lemma_find_same_names(e, f, j, i + 1);
    }
}

proof fn lemma_find_push(e: Seq<(String, JsonValue)>, x: (String, JsonValue), j: Seq<char>, i: int)
    requires
        0 <= i <= e.len(),
    ensures
        find_key_from(e.push(x), j, i) == match find_key_from(e, j, i) {
            Some(q) => Some(q),
            None => if x.0@ == j {
                Some(e.len() as int)
            } else {
                None
            },
        },
    decreases e.len() - i,
{
    let f = e.push(x);
    if i < e.len() {
        assert(f[i] == e[i]);
        lemma_find_push(e, x, j, i + 1);
    } else {
        assert(f[i] == x);
        assert(find_key_from(f, j, i + 1) is None);
    }
}

/// Looking a name up after setting a field.
pub proof fn lemma_obj_get_insert(e: Seq<(String, JsonValue)>, k: String, v: JsonValue, j: Seq<char>)
    ensures
        obj_get(obj_insert(e, k, v), j) == if j == k@ {
            Some(v)
        } else {
            obj_get(e, j)
        },
{
    lemma_find_key_from(e, k@, 0);
    lemma_find_key_from(e, j, 0);
    let f = obj_insert(e, k, v);
    match spec_find_key(e, k@) {
        Some(p) => {
            assert forall|x: int| 0 <= x < e.len() implies #[trigger] e[x].0@ == f[x].0@ by {
                if x == p {
                    assert(f[x].0 == e[p].0);
                } else {
                    assert(f[x] == e[x]);
                }
            }
            lemma_find_same_names(e, f, j, 0);
            match spec_find_key(e, j) {
                Some(q) => {
                    if q != p {
                        assert(f[q] == e[q]);
                    }
                },
                None => {},
            }
        },
        None => {
            lemma_find_push(e, (k, v), j, 0);
            match spec_find_key(e, j) {
                Some(q) => {
                    assert(f[q] == e[q]);
                },
                None => {
                    assert(f[e.len() as int] == (k, v));
                },
            }
        },
    }
}

/// With distinct names, the fields up to `i + 1` give field `i` its own
/// name and otherwise what the fields up to `i` give.
pub proof fn lemma_obj_get_prefix(e: Seq<(String, JsonValue)>, i: int, j: Seq<char>)
    requires
        keys_distinct(e),
        0 <= i < e.len(),
    ensures
        obj_get(e.subrange(0, i + 1), j) == if j == e[i].0@ {
            Some(e[i].1)
        } else {
            obj_get(e.subrange(0, i), j)
        },
{
    let a = e.subrange(0, i);
    let b = e.subrange(0, i + 1);
    assert(b =~= a.push(e[i]));
    lemma_find_push(a, e[i], j, 0);
    lemma_find_key_from(a, j, 0);
    match spec_find_key(a, j) {
        Some(q) => {
            assert(a[q] == e[q]);
            assert(b[q] == e[q]);
            if j == e[i].0@ {
                assert(e[q].0@ == e[i].0@);
            }
        },
        None => {
            assert(b[i] == e[i]);
        },
    }
}

/// Position of the field named `k`.
pub fn find_key(entries: &Vec<(String, JsonValue)>, k: &str) -> (r: Option<usize>)
    ensures
        match r {
            Some(i) => spec_find_key(entries@, k@) == Some(i as int),
            None => spec_find_key(entries@, k@) is None,
        },
{
    let mut i: usize = 0;
    while i < entries.len()
        invariant
            i <= entries@.len(),
            spec_find_key(entries@, k@) == find_key_from(entries@, k@, i as int),
        decreases entries@.len() - i,
    {
        if str_equal(entries[i].0.as_str(), k) {
            return Some(i);
        }
        i = i + 1;
    }
    None
}

/// Sets field `k` to `v`.
pub fn object_insert(entries: &mut Vec<(String, JsonValue)>, k: String, v: JsonValue)
    ensures
        final(entries)@ == obj_insert(old(entries)@, k, v),
{
    match find_key(entries, k.as_str()) {
        Some(i) => {
            proof {
                lemma_find_key_from(entries@, k@, 0);
            }
            let name = entries[i].0.clone();
            entries.set(i, (name, v));
        },
        None => {
            entries.push((k, v));
        },
    }
}

/// Removes field `k`, if there is one.
pub fn object_remove(entries: &mut Vec<(String, JsonValue)>, k: &str)
    ensures
        final(entries)@ == obj_remove(old(entries)@, k@),
{
    match find_key(entries, k) {
        Some(i) => {
            proof {
                lemma_find_key_from(entries@, k@, 0);
            }
            let _ = entries.remove(i);
        },
        None => {},
    }
}

/// The text of a string value.
pub open spec fn text_of(v: Option<JsonValue>) -> Option<Seq<char>> {
    match v {
        Some(JsonValue::String(s)) => Some(s@),
        _ => None,
    }
}

/// Removes field `k` and returns its value, if there is one.
pub fn object_take(entries: &mut Vec<(String, JsonValue)>, k: &str) -> (r: Option<JsonValue>)
    ensures
        r == obj_get(old(entries)@, k@),
        final(entries)@ == obj_remove(old(entries)@, k@),
{
    match find_key(entries, k) {
        Some(i) => {
            proof {
                lemma_find_key_from(entries@, k@, 0);
            }
            let (_, v) = entries.remove(i);
            Some(v)
        },
        None => None,
    }
}

impl JsonValue {
    /// The field `k` of an object; `None` for any other value.
    pub open spec fn field(self, k: Seq<char>) -> Option<JsonValue> {
        match self {
            JsonValue::Object(e) => obj_get(e@, k),
            _ => None,
        }
    }

    /// The field `k` of an object; `None` for any other value (as
    /// `serde_json::Value::get` with a text index).
    pub fn get(&self, k: &str) -> (r: Option<&JsonValue>)
        ensures
            match r {
                Some(v) => self.field(k@) == Some(*v),
                None => self.field(k@) is None,
            },
    {
        match self {
            JsonValue::Object(entries) => match find_key(entries, k) {
                Some(i) => {
                    proof {
                        lemma_find_key_from(entries@, k@, 0);
                    }
                    Some(&entries[i].1)
                },
                None => None,
            },
            _ => None,
        }
    }

    /// The text of a string value.
    pub fn as_str(&self) -> (r: Option<&str>)
        ensures
            match r {
                Some(s) => *self matches JsonValue::String(t) && t@ == s@,
                None => !(*self is String),
            },
    {
        match self {
            JsonValue::String(s) => Some(s.as_str()),
            _ => None,
        }
    }
}

} // verus!
