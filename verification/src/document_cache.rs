//! Document cache: a bounded map from document keys to shared values with
//! least-recently-used eviction.
//!
//! The entries are kept in access order, oldest first, so the order is the
//! eviction order.
use vstd::prelude::*;
use vstd::utf8::encode_utf8;
use crate::bytes::{has_prefix, starts_with, str_equal};
use std::sync::Arc;

verus! {

broadcast use vstd::seq_lib::group_seq_properties;

/// Configuration for document caching.
pub struct DocumentCacheConfig {
    /// Maximum number of documents to cache.
    pub max_entries: usize,
}

impl Default for DocumentCacheConfig {
    fn default() -> (r: Self)
        ensures
            r.max_entries == 10_000,
    {
        DocumentCacheConfig { max_entries: 10_000 }
    }
}

/// Cache statistics.
pub struct DocumentCacheStats {
    pub entries: usize,
    pub max_entries: usize,
}

/// One cached document.
pub type CacheEntry<V> = (Seq<char>, Arc<V>);

/// Position of the entry for `key` at or after `i`, or `-1`.
pub open spec fn key_pos_from<V>(s: Seq<CacheEntry<V>>, key: Seq<char>, i: int) -> int
    decreases s.len() - i,
{
    if i < 0 || i >= s.len() {
        -1
    } else if s[i].0 == key {
        i
    } else {
        key_pos_from(s, key, i + 1)
    }
}

/// Position of the entry for `key`, or `-1`.
pub open spec fn key_pos<V>(s: Seq<CacheEntry<V>>, key: Seq<char>) -> int {
    key_pos_from(s, key, 0)
}

/// The value cached for `key`.
pub open spec fn lookup<V>(s: Seq<CacheEntry<V>>, key: Seq<char>) -> Option<Arc<V>> {
    if key_pos(s, key) >= 0 {
        Some(s[key_pos(s, key)].1)
    } else {
        None
    }
}

/// The entries without the one for `key`.
pub open spec fn without_key<V>(s: Seq<CacheEntry<V>>, key: Seq<char>) -> Seq<CacheEntry<V>> {
    if key_pos(s, key) >= 0 {
        s.remove(key_pos(s, key))
    } else {
        s
    }
}

/// A read of `key`: its entry, if any, becomes the most recently used.
pub open spec fn touched<V>(s: Seq<CacheEntry<V>>, key: Seq<char>) -> Seq<CacheEntry<V>> {
    if key_pos(s, key) >= 0 {
        s.remove(key_pos(s, key)).push(s[key_pos(s, key)])
    } else {
        s
    }
}

/// A write of `key`: the entry is replaced and becomes the most recently
/// used, then the least recently used entries go until at most `max` are
/// left.
pub open spec fn after_put<V>(s: Seq<CacheEntry<V>>, key: Seq<char>, value: Arc<V>, max: nat) -> Seq<
    CacheEntry<V>,
> {
    let t = without_key(s, key).push((key, value));
    if t.len() > max {
        t.subrange(t.len() - max, t.len() as int)
    } else {
        t
    }
}

/// The entries whose key does not start with `prefix` (in UTF-8 bytes).
pub open spec fn without_prefixed<V>(s: Seq<CacheEntry<V>>, prefix: Seq<u8>) -> Seq<CacheEntry<V>>
    decreases s.len(),
{
    if s.len() == 0 {
        s
    } else {
        let rest = without_prefixed(s.drop_last(), prefix);
        if has_prefix(encode_utf8(s.last().0), prefix) {
            rest
        } else {
            rest.push(s.last())
        }
    }
}

/// No key is cached twice.
pub open spec fn keys_distinct<V>(s: Seq<CacheEntry<V>>) -> bool {
    forall|i: int, j: int| 0 <= i < j < s.len() ==> s[i].0 != s[j].0
}

/// Calls `Arc::clone`, which returns another pointer to the same value.
#[verifier::external_body]
fn share<V>(a: &Arc<V>) -> (r: Arc<V>)
    ensures
        r == *a,
{
    Arc::clone(a)
}

/// A bounded document cache with least-recently-used eviction.
pub struct DocumentCache<V> {
    entries: Vec<(String, Arc<V>)>,
    max_entries: usize,
}

impl<V> DocumentCache<V> {
    /// The cached entries, least recently used first.
    pub closed spec fn view_entries(&self) -> Seq<CacheEntry<V>> {
        self.entries@.map_values(|e: (String, Arc<V>)| (e.0@, e.1))
    }

    /// The capacity.
    pub closed spec fn capacity(&self) -> nat {
        self.max_entries as nat
    }

    /// The cache holds at most its capacity, and no key twice.
    pub open spec fn wf(&self) -> bool {
        &&& self.view_entries().len() <= self.capacity()
        &&& keys_distinct(self.view_entries())
    }

    /// An empty cache holding at most `max_entries` documents.
    pub fn new(max_entries: usize) -> (r: Self)
        ensures
            r.wf(),
            r.view_entries() == Seq::<CacheEntry<V>>::empty(),
            r.capacity() == max_entries,
    {
        let r = DocumentCache { entries: Vec::new(), max_entries };
        assert(r.view_entries() =~= Seq::<CacheEntry<V>>::empty());
        r
    }

    /// An empty cache sized by `config`.
    pub fn with_config(config: &DocumentCacheConfig) -> (r: Self)
        ensures
            r.wf(),
            r.view_entries() == Seq::<CacheEntry<V>>::empty(),
            r.capacity() == config.max_entries,
    {
        Self::new(config.max_entries)
    }

    /// Position of `key`, or `len` when absent.
    fn find(&self, key: &str) -> (r: usize)
        ensures
            r <= self.view_entries().len(),
            r < self.view_entries().len() ==> key_pos(self.view_entries(), key@) == r,
            r == self.view_entries().len() ==> key_pos(self.view_entries(), key@) == -1,
    {
        let ghost s = self.view_entries();
        let mut i: usize = 0;
        while i < self.entries.len()
            invariant
                i <= self.entries@.len(),
                s == self.view_entries(),
                s.len() == self.entries@.len(),
                key_pos_from(s, key@, 0) == key_pos_from(s, key@, i as int),
            decreases self.entries@.len() - i,
        {
            assert(s[i as int].0 == self.entries@[i as int].0@);
            if str_equal(self.entries[i].0.as_str(), key) {
                return i;
            }
            i = i + 1;
        }
        i
    }

    /// Look a document up; a hit becomes the most recently used entry.
    pub fn get(&mut self, key: &str) -> (r: Option<Arc<V>>)
        requires
            old(self).wf(),
        ensures
            final(self).wf(),
            r == lookup(old(self).view_entries(), key@),
            final(self).view_entries() == touched(old(self).view_entries(), key@),
            final(self).capacity() == old(self).capacity(),
    {
        let ghost s = self.view_entries();
        let pos = self.find(key);
        if pos == self.entries.len() {
            return None;
        }
        let entry = self.entries.remove(pos);
        let value = share(&entry.1);
        self.entries.push(entry);
        proof {
            assert(self.view_entries() =~= s.remove(pos as int).push(s[pos as int]));
            assert forall|i: int, j: int|
                0 <= i < j < self.view_entries().len() implies self.view_entries()[i].0
                != self.view_entries()[j].0 by {
                let t = self.view_entries();
                if j == t.len() - 1 {
                    if i < pos {
                        assert(t[i] == s[i]);
                    } else {
                        assert(t[i] == s[i + 1]);
                    }
                } else {
                    if i < pos {
                        assert(t[i] == s[i]);
                    } else {
                        assert(t[i] == s[i + 1]);
                    }
                    if j < pos {
                        assert(t[j] == s[j]);
                    } else {
                        assert(t[j] == s[j + 1]);
                    }
                }
            }
        }
        Some(value)
    }

    /// Cache a document as the most recently used entry, replacing any entry
    /// for the same key, then evict the least recently used entries until
    /// the cache is within its capacity.
    pub fn put(&mut self, key: String, value: V)
        requires
            old(self).wf(),
        ensures
            final(self).wf(),
            final(self).view_entries() == after_put(
                old(self).view_entries(),
                key@,
                Arc::new(value),
                old(self).capacity(),
            ),
            final(self).capacity() == old(self).capacity(),
    {
        let ghost s = self.view_entries();
        let ghost cap = self.max_entries;
        let pos = self.find(key.as_str());
        proof {
            lemma_key_pos_found(s, key@, 0);
        }
        if pos < self.entries.len() {
            self.entries.remove(pos);
            assert(self.view_entries() =~= s.remove(pos as int));
        }
        let ghost w = self.view_entries();
        assert(w == without_key(s, key@));
        assert(keys_distinct(w)) by {
            assert forall|i: int, j: int| 0 <= i < j < w.len() implies w[i].0 != w[j].0 by {
                if pos < s.len() {
                    if i < pos {
                        assert(w[i] == s[i]);
                    } else {
                        assert(w[i] == s[i + 1]);
                    }
                    if j < pos {
                        assert(w[j] == s[j]);
                    } else {
                        assert(w[j] == s[j + 1]);
                    }
                }
            }
        }
        assert(forall|i: int| 0 <= i < w.len() ==> w[i].0 != key@) by {
            assert forall|i: int| 0 <= i < w.len() implies w[i].0 != key@ by {
                if pos < s.len() {
                    if i < pos {
                        assert(w[i] == s[i]);
                        assert(key_pos_from(s, key@, 0) == pos);
                        lemma_key_pos_first(s, key@, 0, i);
                    } else {
                        assert(w[i] == s[i + 1]);
                    }
                } else {
                    lemma_key_pos_absent(s, key@, 0, i);
                }
            }
        }
        let arc = Arc::new(value);
        self.entries.push((key, arc));
        let ghost t = self.view_entries();
        assert(t =~= w.push((key@, arc)));
        while self.entries.len() > self.max_entries
            invariant
                self.max_entries == cap,
                t.len() >= self.view_entries().len(),
                self.view_entries() == t.subrange(
                    t.len() - self.view_entries().len(),
                    t.len() as int,
                ),
                self.view_entries().len() >= self.max_entries || self.view_entries() == t,
                t.len() <= self.max_entries ==> self.view_entries() == t,
            decreases self.entries@.len(),
        {
            let ghost before = self.view_entries();
            self.entries.remove(0);
            assert(self.view_entries() =~= before.remove(0));
            assert(self.view_entries() =~= t.subrange(
                t.len() - self.view_entries().len(),
                t.len() as int,
            ));
        }
        proof {
            let f = self.view_entries();
            assert(keys_distinct(t)) by {
                assert forall|i: int, j: int| 0 <= i < j < t.len() implies t[i].0 != t[j].0 by {
                    if j < t.len() - 1 {
                        assert(t[i] == w[i]);
                        assert(t[j] == w[j]);
                    } else {
                        assert(t[i] == w[i]);
                    }
                }
            }
            assert forall|i: int, j: int| 0 <= i < j < f.len() implies f[i].0 != f[j].0 by {
                let d = t.len() - f.len();
                assert(f[i] == t[i + d]);
                assert(f[j] == t[j + d]);
            }
            if t.len() > self.max_entries {
                assert(f.len() == self.max_entries);
            } else {
                assert(f == t);
            }
        }
    }

    /// Drop the entry for `key`, if any.
    pub fn invalidate(&mut self, key: &str)
        requires
            old(self).wf(),
        ensures
            final(self).wf(),
            final(self).view_entries() == without_key(old(self).view_entries(), key@),
            final(self).capacity() == old(self).capacity(),
    {
        let ghost s = self.view_entries();
        let pos = self.find(key);
        if pos < self.entries.len() {
            self.entries.remove(pos);
            assert(self.view_entries() =~= s.remove(pos as int));
            let ghost w = self.view_entries();
            assert forall|i: int, j: int| 0 <= i < j < w.len() implies w[i].0 != w[j].0 by {
                if i < pos {
                    assert(w[i] == s[i]);
                } else {
                    assert(w[i] == s[i + 1]);
                }
                if j < pos {
                    assert(w[j] == s[j]);
                } else {
                    assert(w[j] == s[j + 1]);
                }
            }
        }
    }

    /// Drop every entry whose key starts with `collection_prefix`.
    pub fn invalidate_collection(&mut self, collection_prefix: &str)
        requires
            old(self).wf(),
        ensures
            final(self).wf(),
            final(self).view_entries() == without_prefixed(
                old(self).view_entries(),
                encode_utf8(collection_prefix@),
            ),
            final(self).capacity() == old(self).capacity(),
    {
        let ghost s = self.view_entries();
        let ghost p = encode_utf8(collection_prefix@);
        let pb = collection_prefix.as_bytes();
        let mut kept: Vec<(String, Arc<V>)> = Vec::new();
        let mut old_entries: Vec<(String, Arc<V>)> = Vec::new();
        std::mem::swap(&mut old_entries, &mut self.entries);
        assert(old_entries@.map_values(|e: (String, Arc<V>)| (e.0@, e.1)) == s);
        let mut i: usize = 0;
        while i < old_entries.len()
            invariant
                i <= old_entries@.len(),
                pb@ == p,
                old_entries@.map_values(|e: (String, Arc<V>)| (e.0@, e.1)) == s,
                kept@.map_values(|e: (String, Arc<V>)| (e.0@, e.1)) == without_prefixed(
                    s.subrange(0, i as int),
                    p,
                ),
            decreases old_entries@.len() - i,
        {
            let ghost before = kept@.map_values(|e: (String, Arc<V>)| (e.0@, e.1));
            assert(s.subrange(0, i + 1).drop_last() =~= s.subrange(0, i as int));
            assert(s.subrange(0, i + 1).last() == s[i as int]);
            assert(s[i as int].0 == old_entries@[i as int].0@);
            if !starts_with(old_entries[i].0.as_str().as_bytes(), pb) {
                let e = (old_entries[i].0.clone(), share(&old_entries[i].1));
                kept.push(e);
                assert(kept@.map_values(|e: (String, Arc<V>)| (e.0@, e.1)) =~= before.push(
                    s[i as int],
                ));
            }
            i = i + 1;
        }
        assert(s.subrange(0, s.len() as int) =~= s);
        self.entries = kept;
        proof {
            lemma_without_prefixed_sub(s, p);
        }
    }

    /// Drop every entry.
    pub fn clear(&mut self)
        requires
            old(self).wf(),
        ensures
            final(self).wf(),
            final(self).view_entries() == Seq::<CacheEntry<V>>::empty(),
            final(self).capacity() == old(self).capacity(),
    {
        self.entries.clear();
        assert(self.view_entries() =~= Seq::<CacheEntry<V>>::empty());
    }

    /// The number of cached documents and the capacity.
    pub fn stats(&self) -> (r: DocumentCacheStats)
        ensures
            r.entries == self.view_entries().len(),
            r.max_entries == self.capacity(),
    {
        DocumentCacheStats { entries: self.entries.len(), max_entries: self.max_entries }
    }
}

/// No entry before the first one for `key` has that key.
pub proof fn lemma_key_pos_first<V>(s: Seq<CacheEntry<V>>, key: Seq<char>, from: int, i: int)
    requires
        0 <= from <= i,
        i < key_pos_from(s, key, from),
    ensures
        s[i].0 != key,
    decreases i - from,
{
    if from < i {
        lemma_key_pos_first(s, key, from + 1, i);
    }
}

/// When `key` has no position, no entry from `from` on has it.
pub proof fn lemma_key_pos_absent<V>(s: Seq<CacheEntry<V>>, key: Seq<char>, from: int, i: int)
    requires
        0 <= from <= i < s.len(),
        key_pos_from(s, key, from) == -1,
    ensures
        s[i].0 != key,
    decreases i - from,
{
    if from < i {
        lemma_key_pos_absent(s, key, from + 1, i);
    }
}

/// A found position holds the key.
pub proof fn lemma_key_pos_found<V>(s: Seq<CacheEntry<V>>, key: Seq<char>, from: int)
    requires
        0 <= from,
    ensures
        key_pos_from(s, key, from) >= 0 ==> from <= key_pos_from(s, key, from) < s.len() && s[key_pos_from(s, key, from)].0 == key,
        key_pos_from(s, key, from) >= -1,
    decreases s.len() - from,
{
    if from < s.len() && s[from].0 != key {
        lemma_key_pos_found(s, key, from + 1);
    }
}

/// Filtering keeps a subsequence: at most as many entries, keys still distinct.
pub proof fn lemma_without_prefixed_sub<V>(s: Seq<CacheEntry<V>>, p: Seq<u8>)
    ensures
        without_prefixed(s, p).len() <= s.len(),
        forall|i: int|
            0 <= i < without_prefixed(s, p).len() ==> exists|j: int|
                0 <= j < s.len() && #[trigger] without_prefixed(s, p)[i] == s[j],
        keys_distinct(s) ==> keys_distinct(without_prefixed(s, p)),
    decreases s.len(),
{
    if s.len() > 0 {
        let init = s.drop_last();
        lemma_without_prefixed_sub(init, p);
        let r = without_prefixed(init, p);
        assert forall|i: int| 0 <= i < without_prefixed(s, p).len() implies exists|j: int|
            0 <= j < s.len() && #[trigger] without_prefixed(s, p)[i] == s[j] by {
            if i < r.len() {
                let j = choose|j: int| 0 <= j < init.len() && r[i] == init[j];
                assert(s[j] == init[j]);
            } else {
                assert(without_prefixed(s, p)[i] == s[s.len() - 1]);
            }
        }
        if keys_distinct(s) {
            assert(keys_distinct(init));
            let w = without_prefixed(s, p);
            assert forall|i: int, j: int| 0 <= i < j < w.len() implies w[i].0 != w[j].0 by {
                if j < r.len() {
                    assert(w[i] == r[i]);
                    assert(w[j] == r[j]);
                } else {
                    assert(w[j] == s.last());
                    assert(w[i] == r[i]);
                    let k = choose|k: int| 0 <= k < init.len() && r[i] == init[k];
                    assert(s[k] == init[k]);
                }
            }
        }
    }
}

} // verus!
