//! Equality of JSON values as serde_json's `Value` defines it: numbers of
//! the same kind with equal values (floats as `f64` compares them), equal
//! texts, arrays equal item by item, and objects as maps: the same number
//! of fields, and each field of one found, equal, in the other.
use vstd::prelude::*;
use crate::codec::f64_bits_nan;
use crate::content_merge::{fields_of, lemma_deep_fields_index, lemma_get_content, tree_get};
use crate::json::{deep, deep_items, find_key, JsonNumber, JsonTree, JsonValue};

verus! {

/// `f64` equality, read off the bits: the same bits and not NaN, or both
/// zero (of either sign).
pub open spec fn float_bits_eq(x: u64, y: u64) -> bool {
    (x == y && !f64_bits_nan(x)) || (x & 0x7fff_ffff_ffff_ffffu64 == 0 && y
        & 0x7fff_ffff_ffff_ffffu64 == 0)
}

/// Equal numbers: the same kind and equal values.
pub open spec fn number_eq(a: JsonNumber, b: JsonNumber) -> bool {
    match (a, b) {
        (JsonNumber::PosInt(x), JsonNumber::PosInt(y)) => x == y,
        (JsonNumber::NegInt(x), JsonNumber::NegInt(y)) => x == y,
        (JsonNumber::Float(x), JsonNumber::Float(y)) => float_bits_eq(x, y),
        _ => false,
    }
}

/// Equal JSON content.
pub open spec fn tree_eq(a: JsonTree, b: JsonTree) -> bool
    decreases a, 0nat,
{
    match a {
        JsonTree::Null => b is Null,
        JsonTree::Bool(x) => match b {
            JsonTree::Bool(y) => x == y,
            _ => false,
        },
        JsonTree::Number(x) => match b {
            JsonTree::Number(y) => number_eq(x, y),
            _ => false,
        },
        JsonTree::String(x) => match b {
            JsonTree::String(y) => x == y,
            _ => false,
        },
        JsonTree::Array(x) => match b {
            JsonTree::Array(y) => x.len() == y.len() && items_eq(x, y, x.len()),
            _ => false,
        },
        JsonTree::Object(x) => match b {
            JsonTree::Object(y) => x.len() == y.len() && fields_in(x, y, x.len()),
            _ => false,
        },
    }
}

/// The first `n` items are pairwise equal.
pub open spec fn items_eq(x: Seq<JsonTree>, y: Seq<JsonTree>, n: nat) -> bool
    decreases x, n,
{
    if n == 0 || n > x.len() || n > y.len() {
        true
    } else {
        items_eq(x, y, (n - 1) as nat) && tree_eq(x[n - 1], y[n - 1])
    }
}

/// Each of the first `n` fields of `x` is found, equal, in `y`.
pub open spec fn fields_in(x: Seq<(Seq<char>, JsonTree)>, y: Seq<(Seq<char>, JsonTree)>, n: nat) -> bool
    decreases x, n,
{
    if n == 0 || n > x.len() {
        true
    } else {
        fields_in(x, y, (n - 1) as nat) && match tree_get(y, x[n - 1].0) {
            Some(w) => tree_eq(x[n - 1].1, w),
            None => false,
        }
    }
}

proof fn lemma_items_eq_prefix(x: Seq<JsonTree>, y: Seq<JsonTree>, n: nat, m: nat)
    requires
        items_eq(x, y, n),
        m <= n <= x.len(),
        n <= y.len(),
    ensures
        items_eq(x, y, m),
    decreases n,
{
    if m < n {
        lemma_items_eq_prefix(x, y, (n - 1) as nat, m);
    }
}

proof fn lemma_fields_in_prefix(x: Seq<(Seq<char>, JsonTree)>, y: Seq<(Seq<char>, JsonTree)>, n: nat, m: nat)
    requires
        fields_in(x, y, n),
        m <= n <= x.len(),
    ensures
        fields_in(x, y, m),
    decreases n,
{
    if m < n {
        lemma_fields_in_prefix(x, y, (n - 1) as nat, m);
    }
}

proof fn lemma_deep_items_index(s: Seq<JsonValue>, n: nat)
    requires
        n <= s.len(),
    ensures
        deep_items(s, n).len() == n,
        forall|i: int| 0 <= i < n ==> #[trigger] deep_items(s, n)[i] == deep(s[i]),
    decreases n,
{
    if n > 0 {
        lemma_deep_items_index(s, (n - 1) as nat);
    }
}

fn float_equal(x: u64, y: u64) -> (r: bool)
    ensures
        r == float_bits_eq(x, y),
{
    let nan = (x >> 52u64) & 0x7ffu64 == 0x7ffu64 && x & 0xf_ffff_ffff_ffffu64 != 0;
    (x == y && !nan) || (x & 0x7fff_ffff_ffff_ffffu64 == 0 && y & 0x7fff_ffff_ffff_ffffu64 == 0)
}

fn number_equal(a: &JsonNumber, b: &JsonNumber) -> (r: bool)
    ensures
        r == number_eq(*a, *b),
{
    match (a, b) {
        (JsonNumber::PosInt(x), JsonNumber::PosInt(y)) => *x == *y,
        (JsonNumber::NegInt(x), JsonNumber::NegInt(y)) => *x == *y,
        (JsonNumber::Float(x), JsonNumber::Float(y)) => float_equal(*x, *y),
        _ => false,
    }
}

/// Whether two JSON values are equal, as `==` on `serde_json::Value` says.
pub fn json_equal(a: &JsonValue, b: &JsonValue) -> (r: bool)
    ensures
        r == tree_eq(deep(*a), deep(*b)),
    decreases a,
{
    match a {
        JsonValue::Null => match b {
            JsonValue::Null => true,
            _ => false,
        },
        JsonValue::Bool(x) => match b {
            JsonValue::Bool(y) => *x == *y,
            _ => false,
        },
        JsonValue::Number(x) => match b {
            JsonValue::Number(y) => number_equal(x, y),
            _ => false,
        },
        JsonValue::String(x) => match b {
            JsonValue::String(y) => crate::bytes::str_equal(x.as_str(), y.as_str()),
            _ => false,
        },
        JsonValue::Array(x) => match b {
            JsonValue::Array(y) => {
                proof {
                    lemma_deep_items_index(x@, x@.len());
                    lemma_deep_items_index(y@, y@.len());
                }
                let ghost dx = deep_items(x@, x@.len());
                let ghost dy = deep_items(y@, y@.len());
                if x.len() != y.len() {
                    return false;
                }
                let mut i: usize = 0;
                while i < x.len()
                    invariant
                        *a == JsonValue::Array(*x),
                        *b == JsonValue::Array(*y),
                        x@.len() == y@.len(),
                        i <= x@.len(),
                        dx == deep_items(x@, x@.len()),
                        dy == deep_items(y@, y@.len()),
                        dx.len() == x@.len(),
                        dy.len() == y@.len(),
                        forall|j: int| 0 <= j < x@.len() ==> #[trigger] dx[j] == deep(x@[j]),
                        forall|j: int| 0 <= j < y@.len() ==> #[trigger] dy[j] == deep(y@[j]),
                        items_eq(dx, dy, i as nat),
                    decreases x@.len() - i,
                {
                    proof {
                        assert(decreases_to!(*a => (*a)->Array_0));
                        assert((*a)->Array_0 == *x);
                        assert(decreases_to!(*x => x[i as int]));
                    }
                    if !json_equal(&x[i], &y[i]) {
                        proof {
                            assert(!items_eq(dx, dy, (i + 1) as nat));
                            if items_eq(dx, dy, dx.len()) {
                                lemma_items_eq_prefix(dx, dy, dx.len(), (i + 1) as nat);
                            }
                        }
                        return false;
                    }
                    i = i + 1;
                }
                true
            },
            _ => false,
        },
        JsonValue::Object(x) => match b {
            JsonValue::Object(y) => {
                proof {
                    lemma_deep_fields_index(x@, x@.len());
                    lemma_deep_fields_index(y@, y@.len());
                }
                let ghost fx = fields_of(x@);
                let ghost fy = fields_of(y@);
                if x.len() != y.len() {
                    return false;
                }
                let mut i: usize = 0;
                while i < x.len()
                    invariant
                        *a == JsonValue::Object(*x),
                        *b == JsonValue::Object(*y),
                        x@.len() == y@.len(),
                        i <= x@.len(),
                        fx == fields_of(x@),
                        fy == fields_of(y@),
                        fx.len() == x@.len(),
                        forall|j: int| 0 <= j < x@.len() ==> #[trigger] fx[j] == (x@[j].0@, deep(x@[j].1)),
                        fields_in(fx, fy, i as nat),
                    decreases x@.len() - i,
                {
                    proof {
                        assert(decreases_to!(*a => (*a)->Object_0));
                        assert((*a)->Object_0 == *x);
                        assert(decreases_to!(*x => x[i as int]));
                        assert(decreases_to!(x[i as int] => x[i as int].1));
                        lemma_get_content(y@, x@[i as int].0@);
                        crate::json::lemma_find_key_from(y@, x@[i as int].0@, 0);
                    }
                    let found = match find_key(y, x[i].0.as_str()) {
                        Some(p) => json_equal(&x[i].1, &y[p].1),
                        None => false,
                    };
                    if !found {
                        proof {
                            assert(!fields_in(fx, fy, (i + 1) as nat));
                            if fields_in(fx, fy, fx.len()) {
                                lemma_fields_in_prefix(fx, fy, fx.len(), (i + 1) as nat);
                            }
                        }
                        return false;
                    }
                    i = i + 1;
                }
                true
            },
            _ => false,
        },
    }
}

} // verus!
