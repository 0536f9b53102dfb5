//! What the document cache promises across calls: a document just written is
//! read back, and an invalidated one is gone.
use vstd::prelude::*;
use crate::document_cache::{
    after_put, key_pos, key_pos_from, keys_distinct, lemma_key_pos_absent, lemma_key_pos_found,
    lookup, touched, without_key, CacheEntry,
};
use std::sync::Arc;

verus! {

broadcast use vstd::seq_lib::group_seq_properties;

proof fn lemma_key_pos_at<V>(s: Seq<CacheEntry<V>>, key: Seq<char>, from: int, i: int)
    requires
        0 <= from <= i < s.len(),
        s[i].0 == key,
        forall|j: int| from <= j < i ==> s[j].0 != key,
    ensures
        key_pos_from(s, key, from) == i,
    decreases i - from,
{
    if from < i {
        lemma_key_pos_at(s, key, from + 1, i);
    }
}

proof fn lemma_no_key<V>(s: Seq<CacheEntry<V>>, key: Seq<char>, from: int)
    requires
        0 <= from,
        forall|j: int| from <= j < s.len() ==> s[j].0 != key,
    ensures
        key_pos_from(s, key, from) == -1,
    decreases s.len() - from,
{
    if from < s.len() {
        lemma_no_key(s, key, from + 1);
    }
}

proof fn lemma_without_key_lacks_key<V>(s: Seq<CacheEntry<V>>, key: Seq<char>)
    requires
        keys_distinct(s),
    ensures
        forall|j: int| 0 <= j < without_key(s, key).len() ==> without_key(s, key)[j].0 != key,
{
    lemma_key_pos_found(s, key, 0);
    let w = without_key(s, key);
    let p = key_pos(s, key);
    assert forall|j: int| 0 <= j < w.len() implies w[j].0 != key by {
        if p >= 0 {
            if j < p {
                assert(w[j] == s[j]);
                crate::document_cache::lemma_key_pos_first(s, key, 0, j);
            } else {
                assert(w[j] == s[j + 1]);
            }
        } else {
            lemma_key_pos_absent(s, key, 0, j);
        }
    }
}

/// A document just put is read back, as long as the cache can hold one.
pub proof fn get_after_put<V>(s: Seq<CacheEntry<V>>, key: Seq<char>, value: Arc<V>, max: nat)
    requires
        keys_distinct(s),
        max >= 1,
    ensures
        lookup(after_put(s, key, value, max), key) == Some(value),
{
    lemma_without_key_lacks_key(s, key);
    let w = without_key(s, key);
    let t = w.push((key, value));
    let f = after_put(s, key, value, max);
    let d = t.len() - f.len();
    assert(f.len() >= 1);
    assert(forall|j: int| 0 <= j < f.len() ==> f[j] == t[j + d]);
    assert(f[f.len() - 1] == (key, value));
    lemma_key_pos_at(f, key, 0, f.len() - 1);
}

/// An invalidated document is no longer cached.
pub proof fn get_after_invalidate<V>(s: Seq<CacheEntry<V>>, key: Seq<char>)
    requires
        keys_distinct(s),
    ensures
        lookup(without_key(s, key), key) is None,
{
    lemma_without_key_lacks_key(s, key);
    lemma_no_key(without_key(s, key), key, 0);
}

/// Reading a document does not change what any key maps to.
pub proof fn get_keeps_contents<V>(s: Seq<CacheEntry<V>>, key: Seq<char>, other: Seq<char>)
    requires
        keys_distinct(s),
    ensures
        lookup(touched(s, key), other) == lookup(s, other),
{
    lemma_key_pos_found(s, key, 0);
    lemma_key_pos_found(s, other, 0);
    let p = key_pos(s, key);
    let q = key_pos(s, other);
    let t = touched(s, key);
    if p >= 0 {
        if q >= 0 {
            // The entry for `other` sits at q (moved to the end when it is `key`'s).
            let nq = if q == p { t.len() - 1 } else if q < p { q } else { q - 1 };
            assert(t[nq] == s[q]);
            assert forall|j: int| 0 <= j < nq implies t[j].0 != other by {
                if j < p {
                    assert(t[j] == s[j]);
                    if j < q {
                        crate::document_cache::lemma_key_pos_first(s, other, 0, j);
                    }
                } else if j < t.len() - 1 {
                    assert(t[j] == s[j + 1]);
                    if j + 1 < q {
                        crate::document_cache::lemma_key_pos_first(s, other, 0, j + 1);
                    }
                }
            }
            lemma_key_pos_at(t, other, 0, nq);
        } else {
            assert forall|j: int| 0 <= j < t.len() implies t[j].0 != other by {
                if j < p {
                    assert(t[j] == s[j]);
                    lemma_key_pos_absent(s, other, 0, j);
                } else if j < t.len() - 1 {
                    assert(t[j] == s[j + 1]);
                    lemma_key_pos_absent(s, other, 0, j + 1);
                } else {
                    lemma_key_pos_absent(s, other, 0, p);
                }
            }
            lemma_no_key(t, other, 0);
        }
    }
}

} // verus!
