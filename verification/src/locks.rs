//! Per-key write serialisation: which lock stripes a write takes.
//!
//! Locks are striped per collection. Two stripe families with a fixed
//! acquisition order prevent deadlock: document-key stripes before
//! unique-value stripes, and each family in ascending stripe order, each
//! stripe once.
use vstd::prelude::*;
use std::hash::{Hash, Hasher};

verus! {

/// Stripes per family.
pub const STRIPES: usize = 256;

/// What `hash_of(seed, value)` returns: `std`'s `DefaultHasher` (created by
/// `new`, so with fixed keys) fed the seed and then the text.
pub uninterp spec fn default_hash(seed: u64, value: Seq<char>) -> u64;

/// Hashes `seed` and then `value` with a fresh `DefaultHasher`. Nothing is
/// claimed of the hash function: its value is named `default_hash`.
#[verifier::external_body]
fn hash_of(seed: u64, value: &str) -> (h: u64)
    ensures
        h == default_hash(seed, value@),
{
    let mut h = std::collections::hash_map::DefaultHasher::new();
    seed.hash(&mut h);
    value.hash(&mut h);
    h.finish()
}

/// The stripe of a hash.
pub open spec fn stripe_of(h: u64) -> usize {
    (h % 256) as usize
}

/// Strictly ascending: the order in which stripes are taken, each once.
pub open spec fn strictly_ascending(s: Seq<usize>) -> bool {
    forall|i: int, j: int| 0 <= i < j < s.len() ==> s[i] < s[j]
}

/// Insert `x` into a strictly ascending vector unless it is there.
fn insert_sorted(v: &mut Vec<usize>, x: usize)
    requires
        strictly_ascending(old(v)@),
    ensures
        strictly_ascending(final(v)@),
        final(v)@.to_set() == old(v)@.to_set().insert(x),
{
    let ghost s = v@;
    let mut j: usize = 0;
    while j < v.len() && v[j] < x
        invariant
            j <= v@.len(),
            v@ == s,
            forall|k: int| 0 <= k < j ==> v@[k] < x,
        decreases v@.len() - j,
    {
        j = j + 1;
    }
    if j < v.len() && v[j] == x {
        assert(s.to_set().insert(x) =~= s.to_set()) by {
            assert(s.to_set().contains(s[j as int]));
        }
        return;
    }
    v.insert(j, x);
    proof {
        let t = v@;
        assert(t =~= s.insert(j as int, x));
        assert forall|a: int, b: int| 0 <= a < b < t.len() implies t[a] < t[b] by {
            if b < j {
                assert(t[a] == s[a] && t[b] == s[b]);
            } else if b == j {
                assert(t[a] == s[a]);
            } else if a < j {
                assert(t[b] == s[b - 1]);
                assert(t[a] == s[a]);
                assert(s[j as int] > x);
                if b - 1 > j {
                    assert(s[j as int] < s[b - 1]);
                }
            } else if a == j {
                assert(t[b] == s[b - 1]);
                assert(s[j as int] >= x);
                if b - 1 > j {
                    assert(s[j as int] < s[b - 1]);
                }
            } else {
                assert(t[a] == s[a - 1] && t[b] == s[b - 1]);
            }
        }
        assert(t.to_set() =~= s.to_set().insert(x)) by {
            assert forall|y: usize| t.to_set().contains(y) implies s.to_set().insert(x).contains(y) by {
                let k = choose|k: int| 0 <= k < t.len() && t[k] == y;
                if k < j {
                    assert(s[k] == y);
                } else if k > j {
                    assert(s[k - 1] == y);
                }
            }
            assert forall|y: usize| s.to_set().insert(x).contains(y) implies t.to_set().contains(y) by {
                if y == x {
                    assert(t[j as int] == x);
                } else {
                    let k = choose|k: int| 0 <= k < s.len() && s[k] == y;
                    if k < j {
                        assert(t[k] == y);
                    } else {
                        assert(t[k + 1] == y);
                    }
                }
            }
        }
    }
}

/// The stripes of `values` under `seed`, ascending and each once.
fn stripes(values: &Vec<String>, seed: u64) -> (r: Vec<usize>)
    ensures
        strictly_ascending(r@),
        forall|x: usize|
            r@.contains(x) <==> exists|i: int|
                0 <= i < values@.len() && x == stripe_of(default_hash(seed, #[trigger] values@[i]@)),
{
    let mut r: Vec<usize> = Vec::new();
    let mut i: usize = 0;
    while i < values.len()
        invariant
            i <= values@.len(),
            strictly_ascending(r@),
            forall|x: usize|
                r@.contains(x) <==> exists|k: int|
                    0 <= k < i && x == stripe_of(default_hash(seed, #[trigger] values@[k]@)),
        decreases values@.len() - i,
    {
        let h = hash_of(seed, values[i].as_str());
        let x = (h % 256) as usize;
        let ghost before = r@;
        insert_sorted(&mut r, x);
        proof {
            assert forall|y: usize| r@.contains(y) <==> exists|k: int|
                0 <= k < i + 1 && y == stripe_of(default_hash(seed, #[trigger] values@[k]@)) by {
                assert(r@.contains(y) == r@.to_set().contains(y));
                assert(before.contains(y) == before.to_set().contains(y));
                if y == x {
                    assert(values@[i as int]@ == values[i as int]@);
                }
                if exists|k: int| 0 <= k < i + 1 && y == stripe_of(default_hash(seed, #[trigger] values@[k]@)) {
                    let k = choose|k: int| 0 <= k < i + 1 && y == stripe_of(default_hash(seed, #[trigger] values@[k]@));
                    if k < i {
                        assert(before.contains(y));
                    }
                }
            }
        }
        i = i + 1;
    }
    r
}

/// The key stripes a write to `keys` takes, in acquisition order.
pub fn key_stripes(keys: &Vec<String>) -> (r: Vec<usize>)
    ensures
        strictly_ascending(r@),
        forall|x: usize|
            r@.contains(x) <==> exists|i: int|
                0 <= i < keys@.len() && x == stripe_of(default_hash(0, #[trigger] keys@[i]@)),
{
    stripes(keys, 0)
}

/// The unique-value stripes a write of `tokens` takes, in acquisition order.
pub fn unique_token_stripes(tokens: &Vec<String>) -> (r: Vec<usize>)
    ensures
        strictly_ascending(r@),
        forall|x: usize|
            r@.contains(x) <==> exists|i: int|
                0 <= i < tokens@.len() && x == stripe_of(default_hash(1, #[trigger] tokens@[i]@)),
{
    stripes(tokens, 1)
}

} // verus!
