//! Fulltext indexes: which term entries a write adds and removes, and how a
//! search gathers, bounds, scores and ranks its candidates.
//!
//! A term entry is `ft_term:<index>:<term>:<doc_key>`. Tokenizing text and
//! the edit distance between terms are the caller's; the decisions around
//! them are made here.
use vstd::prelude::*;
use vstd::hash_map::StringHashMap;
use vstd::utf8::encode_utf8;
use crate::bytes::{has_prefix, lossy_text, push_str, starts_with, tail, utf8_lossy};
use crate::keys::{key3, Collection, COLON, FT_TERM_PREFIX};

verus! {

broadcast use vstd::seq_lib::group_seq_properties;

/// Postings read per query term at most.
pub const MAX_POSTINGS_PER_TERM: usize = 50_000;
/// Least number of candidates scored per search.
pub const MIN_SCORED_CANDIDATES: usize = 100;
/// Greatest number of candidates scored per search.
pub const MAX_SCORED_CANDIDATES: usize = 5_000;

pub open spec fn texts(s: Seq<String>) -> Seq<Seq<char>> {
    s.map_values(|t: String| t@)
}

/// The terms of `a` that `b` does not hold, in `a`'s order.
pub open spec fn spec_difference(a: Seq<Seq<char>>, b: Seq<Seq<char>>) -> Seq<Seq<char>>
    decreases a.len(),
{
    if a.len() == 0 {
        Seq::empty()
    } else {
        let rest = spec_difference(a.drop_last(), b);
        if b.contains(a.last()) {
            rest
        } else {
            rest.push(a.last())
        }
    }
}

/// The terms of `a` that `b` does not hold, in `a`'s order.
pub fn difference(a: &Vec<String>, b: &Vec<String>) -> (r: Vec<String>)
    ensures
        texts(r@) == spec_difference(texts(a@), texts(b@)),
{
    let mut set: StringHashMap<()> = StringHashMap::new();
    let mut j: usize = 0;
    while j < b.len()
        invariant
            j <= b.len(),
            forall|k: Seq<char>| #[trigger] set@.contains_key(k) <==> texts(b@).subrange(0, j as int).contains(k),
        decreases b.len() - j,
    {
        let ghost prefix = texts(b@).subrange(0, j as int);
        assert(texts(b@).subrange(0, j + 1) =~= prefix.push(b@[j as int]@));
        set.insert(b[j].clone(), ());
        j = j + 1;
    }
    assert(texts(b@).subrange(0, b.len() as int) =~= texts(b@));
    let ghost ta = texts(a@);
    let mut r: Vec<String> = Vec::new();
    let mut i: usize = 0;
    while i < a.len()
        invariant
            i <= a.len(),
            ta == texts(a@),
            forall|k: Seq<char>| #[trigger] set@.contains_key(k) <==> texts(b@).contains(k),
            texts(r@) == spec_difference(ta.subrange(0, i as int), texts(b@)),
        decreases a.len() - i,
    {
        assert(ta.subrange(0, i + 1).drop_last() =~= ta.subrange(0, i as int));
        assert(ta.subrange(0, i + 1).last() == a@[i as int]@);
        if !set.contains_key(a[i].as_str()) {
            r.push(a[i].clone());
            assert(texts(r@) =~= spec_difference(ta.subrange(0, i + 1), texts(b@)));
        }
        i = i + 1;
    }
    assert(ta.subrange(0, a.len() as int) =~= ta);
    r
}

/// The term keys of a document under one fulltext index, one per term.
pub open spec fn spec_term_keys(index: Seq<char>, doc_key: Seq<char>, terms: Seq<Seq<char>>) -> Seq<
    Seq<u8>,
> {
    terms.map_values(|t: Seq<char>| key3(FT_TERM_PREFIX, encode_utf8(index), encode_utf8(t), encode_utf8(doc_key)))
}

pub open spec fn bytes_of(v: Seq<Vec<u8>>) -> Seq<Seq<u8>> {
    v.map_values(|k: Vec<u8>| k@)
}

/// The term entries of a document for these terms (what an insert adds and
/// a delete removes).
pub fn term_keys(index_name: &str, doc_key: &str, terms: &Vec<String>) -> (r: Vec<Vec<u8>>)
    ensures
        bytes_of(r@) == spec_term_keys(index_name@, doc_key@, texts(terms@)),
{
    let mut r: Vec<Vec<u8>> = Vec::new();
    let mut i: usize = 0;
    while i < terms.len()
        invariant
            i <= terms.len(),
            bytes_of(r@) == spec_term_keys(index_name@, doc_key@, texts(terms@).subrange(0, i as int)),
        decreases terms.len() - i,
    {
        let k = Collection::ft_term_key(index_name, terms[i].as_str(), doc_key);
        let ghost before = r@;
        r.push(k);
        assert(texts(terms@).subrange(0, i + 1) =~= texts(terms@).subrange(0, i as int).push(terms@[i as int]@));
        assert(bytes_of(r@) =~= bytes_of(before).push(k@));
        assert(bytes_of(r@) =~= spec_term_keys(
            index_name@,
            doc_key@,
            texts(terms@).subrange(0, i + 1),
        ));
        i = i + 1;
    }
    assert(texts(terms@).subrange(0, terms.len() as int) =~= texts(terms@));
    r
}

/// The term entries an update adds and removes when a field's terms change
/// from `old_terms` to `new_terms`: entries for the terms only the new text
/// has are added, entries for the terms only the old text had are removed;
/// terms in both keep their entry.
pub fn term_entry_changes(
    index_name: &str,
    doc_key: &str,
    old_terms: &Vec<String>,
    new_terms: &Vec<String>,
) -> (r: (Vec<Vec<u8>>, Vec<Vec<u8>>))
    ensures
        bytes_of(r.0@) == spec_term_keys(
            index_name@,
            doc_key@,
            spec_difference(texts(new_terms@), texts(old_terms@)),
        ),
        bytes_of(r.1@) == spec_term_keys(
            index_name@,
            doc_key@,
            spec_difference(texts(old_terms@), texts(new_terms@)),
        ),
{
    let added = difference(new_terms, old_terms);
    let removed = difference(old_terms, new_terms);
    (term_keys(index_name, doc_key, &added), term_keys(index_name, doc_key, &removed))
}

/// The tokens long enough to index: at least `min_length` bytes.
pub open spec fn spec_long_enough(tokens: Seq<Seq<char>>, min_length: usize) -> Seq<Seq<char>>
    decreases tokens.len(),
{
    if tokens.len() == 0 {
        Seq::empty()
    } else {
        let rest = spec_long_enough(tokens.drop_last(), min_length);
        if encode_utf8(tokens.last()).len() >= min_length {
            rest.push(tokens.last())
        } else {
            rest
        }
    }
}

/// The tokens of at least `min_length` bytes, in order.
pub fn long_enough(tokens: &Vec<String>, min_length: usize) -> (r: Vec<String>)
    ensures
        texts(r@) == spec_long_enough(texts(tokens@), min_length),
{
    let ghost ts = texts(tokens@);
    let mut r: Vec<String> = Vec::new();
    let mut i: usize = 0;
    while i < tokens.len()
        invariant
            i <= tokens.len(),
            ts == texts(tokens@),
            texts(r@) == spec_long_enough(ts.subrange(0, i as int), min_length),
        decreases tokens.len() - i,
    {
        assert(ts.subrange(0, i + 1).drop_last() =~= ts.subrange(0, i as int));
        assert(ts.subrange(0, i + 1).last() == tokens@[i as int]@);
        if tokens[i].as_str().as_bytes().len() >= min_length {
            r.push(tokens[i].clone());
            assert(texts(r@) =~= spec_long_enough(ts.subrange(0, i + 1), min_length));
        } else {
            assert(texts(r@) =~= spec_long_enough(ts.subrange(0, i + 1), min_length));
        }
        i = i + 1;
    }
    assert(ts.subrange(0, tokens.len() as int) =~= ts);
    r
}

proof fn lemma_long_enough_members(tokens: Seq<Seq<char>>, min_length: usize, t: Seq<char>)
    ensures
        spec_long_enough(tokens, min_length).contains(t) <==> (tokens.contains(t) && encode_utf8(t).len()
            >= min_length),
    decreases tokens.len(),
{
    if tokens.len() > 0 {
        let init = tokens.drop_last();
        let rest = spec_long_enough(init, min_length);
        lemma_long_enough_members(init, min_length, t);
        if tokens.contains(t) && t != tokens.last() {
            let j = choose|j: int| 0 <= j < tokens.len() && tokens[j] == t;
            assert(init[j] == t);
        }
        if init.contains(t) {
            let j = choose|j: int| 0 <= j < init.len() && init[j] == t;
            assert(tokens[j] == t);
        }
        if t == tokens.last() {
            assert(tokens[tokens.len() - 1] == t);
        }
        if encode_utf8(tokens.last()).len() >= min_length {
            let r = rest.push(tokens.last());
            assert(r[rest.len() as int] == tokens.last());
            if r.contains(t) && t != tokens.last() {
                let j = choose|j: int| 0 <= j < r.len() && r[j] == t;
                assert(rest[j] == t);
            }
            if rest.contains(t) {
                let j = choose|j: int| 0 <= j < rest.len() && rest[j] == t;
                assert(r[j] == t);
            }
        }
    }
}

/// The indexed terms of a field's tokens: those of at least `min_length`
/// bytes, each once.
pub fn index_terms(tokens: &Vec<String>, min_length: usize) -> (r: Vec<String>)
    ensures
        texts(r@).no_duplicates(),
        forall|t: Seq<char>|
            #[trigger] texts(r@).contains(t) <==> (texts(tokens@).contains(t) && encode_utf8(t).len()
                >= min_length),
{
    let kept = long_enough(tokens, min_length);
    let ghost ks = texts(kept@);
    let mut seen: StringHashMap<()> = StringHashMap::new();
    let mut r: Vec<String> = Vec::new();
    let mut j: usize = 0;
    assert(texts(r@).to_set() =~= ks.take(0).to_set());
    while j < kept.len()
        invariant
            j <= kept.len(),
            ks == texts(kept@),
            texts(r@).no_duplicates(),
            seen@.dom() == texts(r@).to_set(),
            texts(r@).to_set() == ks.take(j as int).to_set(),
        decreases kept.len() - j,
    {
        let term = &kept[j];
        let ghost old_t = texts(r@);
        assert(ks.take(j + 1) =~= ks.take(j as int).push(term@));
        if !seen.contains_key(term.as_str()) {
            seen.insert(term.clone(), ());
            r.push(term.clone());
            assert(texts(r@) =~= old_t.push(term@));
            assert(!old_t.contains(term@));
            assert(texts(r@).to_set() =~= old_t.to_set().insert(term@));
            assert(ks.take(j + 1).to_set() =~= ks.take(j as int).to_set().insert(term@));
            assert(seen@.dom() =~= texts(r@).to_set());
        } else {
            assert(ks.take(j + 1).to_set() =~= ks.take(j as int).to_set().insert(term@));
            assert(ks.take(j + 1).to_set() =~= texts(r@).to_set());
        }
        j = j + 1;
    }
    assert(ks.take(kept.len() as int) =~= ks);
    proof {
        assert forall|t: Seq<char>|
            #[trigger] texts(r@).contains(t) <==> (texts(tokens@).contains(t) && encode_utf8(t).len()
                >= min_length) by {
            lemma_long_enough_members(texts(tokens@), min_length, t);
            assert(texts(r@).to_set().contains(t) == texts(r@).contains(t));
            assert(ks.to_set().contains(t) == ks.contains(t));
        }
    }
    r
}

/// The scan prefix of a term's postings: `ft_term:<index>:<term>:`.
pub open spec fn spec_term_prefix(index: Seq<char>, term: Seq<char>) -> Seq<u8> {
    encode_utf8(FT_TERM_PREFIX@) + encode_utf8(index) + seq![COLON] + encode_utf8(term) + seq![COLON]
}

/// The scan prefix of a term's postings under one index.
pub fn term_prefix(index_name: &str, term: &str) -> (r: Vec<u8>)
    ensures
        r@ == spec_term_prefix(index_name@, term@),
{
    let mut k: Vec<u8> = Vec::new();
    push_str(&mut k, FT_TERM_PREFIX);
    push_str(&mut k, index_name);
    k.push(COLON);
    push_str(&mut k, term);
    k.push(COLON);
    k
}

/// The documents a term's postings name, given the keys a scan from the
/// term's prefix returned: the part of each key after the prefix (read
/// leniently as text), stopping at the first key outside the prefix or after
/// `MAX_POSTINGS_PER_TERM` postings.
pub open spec fn spec_posting_docs(keys: Seq<Seq<u8>>, prefix: Seq<u8>, scanned: nat) -> Seq<Seq<char>>
    decreases keys.len(),
{
    if keys.len() == 0 || !has_prefix(keys[0], prefix) || scanned >= MAX_POSTINGS_PER_TERM {
        Seq::empty()
    } else {
        seq![lossy_text(keys[0].subrange(prefix.len() as int, keys[0].len() as int))]
            + spec_posting_docs(keys.drop_first(), prefix, scanned + 1)
    }
}

/// The documents a term's postings name.
pub fn posting_doc_keys(keys: &Vec<Vec<u8>>, prefix: &[u8]) -> (r: Vec<String>)
    ensures
        texts(r@) == spec_posting_docs(bytes_of(keys@), prefix@, 0),
{
    let ghost ks = bytes_of(keys@);
    let mut r: Vec<String> = Vec::new();
    let mut i: usize = 0;
    assert(ks.subrange(0, ks.len() as int) =~= ks);
    assert(texts(r@) + spec_posting_docs(ks, prefix@, 0) =~= spec_posting_docs(ks, prefix@, 0));
    while i < keys.len()
        invariant
            i <= keys.len(),
            ks == bytes_of(keys@),
            spec_posting_docs(ks, prefix@, 0) == texts(r@) + spec_posting_docs(
                ks.subrange(i as int, ks.len() as int),
                prefix@,
                i as nat,
            ),
        decreases keys.len() - i,
    {
        let ghost rest = ks.subrange(i as int, ks.len() as int);
        assert(rest[0] == keys@[i as int]@);
        assert(rest.drop_first() =~= ks.subrange(i + 1, ks.len() as int));
        let k = &keys[i];
        if !starts_with(k.as_slice(), prefix) || i >= MAX_POSTINGS_PER_TERM {
            assert(texts(r@) + Seq::<Seq<char>>::empty() =~= texts(r@));
            return r;
        }
        let doc = utf8_lossy(tail(k.as_slice(), prefix.len()).as_slice());
        let ghost before = texts(r@);
        r.push(doc);
        assert(texts(r@) =~= before.push(doc@));
        assert(before + (seq![doc@] + spec_posting_docs(rest.drop_first(), prefix@, (i + 1) as nat))
            =~= texts(r@) + spec_posting_docs(rest.drop_first(), prefix@, (i + 1) as nat));
        i = i + 1;
    }
    assert(ks.subrange(i as int, ks.len() as int) =~= Seq::<Seq<u8>>::empty());
    assert(texts(r@) + Seq::<Seq<char>>::empty() =~= texts(r@));
    r
}

/// How many times `k` occurs in `s`.
pub open spec fn occurrences(s: Seq<Seq<char>>, k: Seq<char>) -> nat
    decreases s.len(),
{
    if s.len() == 0 {
        0
    } else {
        occurrences(s.drop_last(), k) + if s.last() == k { 1nat } else { 0nat }
    }
}

pub open spec fn counted(r: Seq<(String, usize)>) -> Seq<Seq<char>> {
    r.map_values(|c: (String, usize)| c.0@)
}

/// How many postings name each document: one entry per document, with the
/// number of its postings.
pub fn count_candidates(doc_keys: &Vec<String>) -> (r: Vec<(String, usize)>)
    ensures
        forall|a: int, b: int| 0 <= a < b < r.len() ==> r@[a].0@ != r@[b].0@,
        forall|a: int| 0 <= a < r.len() ==> (#[trigger] r@[a]).1 == occurrences(texts(doc_keys@), r@[a].0@),
        forall|k: Seq<char>| texts(doc_keys@).contains(k) <==> #[trigger] counted(r@).contains(k),
{
    let ghost ks = texts(doc_keys@);
    let mut pos: StringHashMap<usize> = StringHashMap::new();
    let mut r: Vec<(String, usize)> = Vec::new();
    let mut i: usize = 0;
    while i < doc_keys.len()
        invariant
            i <= doc_keys.len(),
            ks == texts(doc_keys@),
            forall|a: int, b: int| 0 <= a < b < r.len() ==> r@[a].0@ != r@[b].0@,
            forall|k: Seq<char>|
                #[trigger] pos@.contains_key(k) ==> pos@[k] < r.len() && r@[pos@[k] as int].0@ == k,
            forall|a: int| 0 <= a < r.len() ==> #[trigger] pos@.contains_key(r@[a].0@),
            forall|a: int|
                0 <= a < r.len() ==> (#[trigger] r@[a]).1 == occurrences(ks.subrange(0, i as int), r@[a].0@),
            forall|k: Seq<char>| ks.subrange(0, i as int).contains(k) <==> #[trigger] counted(r@).contains(k),
            r.len() <= i,
        decreases doc_keys.len() - i,
    {
        let key = &doc_keys[i];
        let ghost old_r = r@;
        let ghost pre = ks.subrange(0, i as int);
        let ghost next = ks.subrange(0, i + 1);
        assert(next.drop_last() =~= pre);
        assert(next.last() == key@);
        match pos.get(key.as_str()) {
            Some(p) => {
                let p = *p;
                let c = r[p].1;
                proof {
                    assert(r@[p as int].0@ == key@);
                    assert(c == occurrences(pre, key@));
                    assert(occurrences(pre, key@) <= pre.len()) by {
                        lemma_occurrences_bound(pre, key@);
                    }
                }
                let name = r[p].0.clone();
                r.set(p, (name, c + 1));
                proof {
                    assert forall|a: int| 0 <= a < r.len() implies (#[trigger] r@[a]).1 == occurrences(
                        next,
                        r@[a].0@,
                    ) by {
                        if a != p {
                            assert(r@[a] == old_r[a]);
                            assert(old_r[a].0@ != key@);
                        }
                    }
                    assert forall|k: Seq<char>| next.contains(k) <==> #[trigger] counted(r@).contains(k) by {
                        assert(counted(r@) =~= counted(old_r));
                        if next.contains(k) && k != key@ {
                            let j = choose|j: int| 0 <= j < next.len() && next[j] == k;
                            assert(pre[j] == k);
                        }
                        if pre.contains(k) {
                            let j = choose|j: int| 0 <= j < pre.len() && pre[j] == k;
                            assert(next[j] == k);
                        }
                        if k == key@ {
                            assert(next[i as int] == k);
                            assert(counted(old_r)[p as int] == k);
                        }
                    }
                }
            },
            None => {
                proof {
                    assert(!counted(old_r).contains(key@)) by {
                        if counted(old_r).contains(key@) {
                            let a = choose|a: int| 0 <= a < counted(old_r).len() && counted(old_r)[a] == key@;
                            assert(pos@.contains_key(old_r[a].0@));
                        }
                    }
                    assert(!pre.contains(key@));
                    lemma_occurrences_absent(pre, key@);
                }
                let n = r.len();
                pos.insert(key.clone(), n);
                r.push((key.clone(), 1));
                proof {
                    assert forall|a: int, b: int| 0 <= a < b < r.len() implies r@[a].0@ != r@[b].0@ by {
                        if b == n {
                            assert(r@[a] == old_r[a]);
                            assert(counted(old_r)[a] == old_r[a].0@);
                        }
                    }
                    assert forall|k: Seq<char>|
                        #[trigger] pos@.contains_key(k) implies pos@[k] < r.len() && r@[pos@[k] as int].0@ == k by {
                        if k != key@ {
                            assert(r@[pos@[k] as int] == old_r[pos@[k] as int]);
                        }
                    }
                    assert forall|a: int| 0 <= a < r.len() implies #[trigger] pos@.contains_key(r@[a].0@) by {
                        if a < n {
                            assert(r@[a] == old_r[a]);
                        }
                    }
                    assert forall|a: int| 0 <= a < r.len() implies (#[trigger] r@[a]).1 == occurrences(
                        next,
                        r@[a].0@,
                    ) by {
                        if a < n {
                            assert(r@[a] == old_r[a]);
                            assert(old_r[a].0@ != key@);
                        }
                    }
                    assert forall|k: Seq<char>| next.contains(k) <==> #[trigger] counted(r@).contains(k) by {
                        assert(counted(r@) =~= counted(old_r).push(key@));
                        if next.contains(k) && k != key@ {
                            let j = choose|j: int| 0 <= j < next.len() && next[j] == k;
                            assert(pre[j] == k);
                        }
                        if pre.contains(k) {
                            let j = choose|j: int| 0 <= j < pre.len() && pre[j] == k;
                            assert(next[j] == k);
                        }
                        if counted(r@).contains(k) && k != key@ {
                            let a = choose|a: int| 0 <= a < counted(r@).len() && counted(r@)[a] == k;
                            assert(counted(old_r)[a] == k);
                        }
                        if k == key@ {
                            assert(next[i as int] == k);
                            assert(counted(r@)[n as int] == k);
                        }
                    }
                }
            },
        }
        i = i + 1;
    }
    assert(ks.subrange(0, doc_keys.len() as int) =~= ks);
    r
}

proof fn lemma_occurrences_bound(s: Seq<Seq<char>>, k: Seq<char>)
    ensures
        occurrences(s, k) <= s.len(),
    decreases s.len(),
{
    if s.len() > 0 {
        lemma_occurrences_bound(s.drop_last(), k);
    }
}

proof fn lemma_occurrences_absent(s: Seq<Seq<char>>, k: Seq<char>)
    requires
        !s.contains(k),
    ensures
        occurrences(s, k) == 0,
    decreases s.len(),
{
    if s.len() > 0 {
        assert(!s.drop_last().contains(k)) by {
            if s.drop_last().contains(k) {
                let j = choose|j: int| 0 <= j < s.drop_last().len() && s.drop_last()[j] == k;
                assert(s[j] == k);
            }
        }
        lemma_occurrences_absent(s.drop_last(), k);
        assert(s[s.len() - 1] != k);
    }
}

/// How many candidates a search scores: four per result asked for, within
/// `MIN_SCORED_CANDIDATES..=MAX_SCORED_CANDIDATES`.
pub open spec fn spec_max_scored(limit: usize) -> usize {
    let four = if limit * 4 > usize::MAX { usize::MAX } else { (limit * 4) as usize };
    if four < MIN_SCORED_CANDIDATES {
        MIN_SCORED_CANDIDATES
    } else if four > MAX_SCORED_CANDIDATES {
        MAX_SCORED_CANDIDATES
    } else {
        four
    }
}

/// How many candidates a search scores.
pub fn max_scored(limit: usize) -> (r: usize)
    ensures
        r == spec_max_scored(limit),
{
    let four: usize = if limit > usize::MAX / 4 { usize::MAX } else { limit * 4 };
    if four < MIN_SCORED_CANDIDATES {
        MIN_SCORED_CANDIDATES
    } else if four > MAX_SCORED_CANDIDATES {
        MAX_SCORED_CANDIDATES
    } else {
        four
    }
}

/// (document, count or score) pairs, highest first.
pub open spec fn descending(s: Seq<(String, usize)>) -> bool {
    forall|i: int, j: int| 0 <= i <= j < s.len() ==> s[i].1 >= s[j].1
}

/// Orders two candidates so that the one with the higher count comes first.
pub fn higher_count_first(a: &(String, usize), b: &(String, usize)) -> (o: std::cmp::Ordering)
    ensures
        (o == std::cmp::Ordering::Less) <==> a.1 > b.1,
        (o == std::cmp::Ordering::Equal) <==> a.1 == b.1,
        (o == std::cmp::Ordering::Greater) <==> a.1 < b.1,
{
    if a.1 > b.1 {
        std::cmp::Ordering::Less
    } else if a.1 == b.1 {
        std::cmp::Ordering::Equal
    } else {
        std::cmp::Ordering::Greater
    }
}

/// Calls `slice::sort_by` with `higher_count_first`: as its documentation
/// states, the result holds the same pairs, ordered by that comparison
/// (highest count first).
#[verifier::external_body]
fn sort_descending(v: &mut Vec<(String, usize)>)
    ensures
        descending(final(v)@),
        final(v)@.to_multiset() == old(v)@.to_multiset(),
{
    v.sort_by(|a, b| higher_count_first(a, b));
}

/// Calls `slice::select_nth_unstable_by` with `higher_count_first`: as its
/// documentation states, the result holds the same pairs, none up to `index` has a
/// lower count than any from `index` on. It panics when `index` is out of bounds.
#[verifier::external_body]
fn select_highest(v: &mut Vec<(String, usize)>, index: usize)
    requires
        index < old(v)@.len(),
    ensures
        final(v)@.to_multiset() == old(v)@.to_multiset(),
        forall|i: int, j: int|
            0 <= i <= index <= j < final(v)@.len() ==> #[trigger] final(v)@[i].1 >= #[trigger] final(v)@[j].1,
{
    v.select_nth_unstable_by(index, |a, b| higher_count_first(a, b));
}

proof fn lemma_multiset_take_skip(s: Seq<(String, usize)>, n: int)
    requires
        0 <= n <= s.len(),
    ensures
        s.to_multiset() == s.take(n).to_multiset().add(s.skip(n).to_multiset()),
    decreases s.len() - n,
{
    broadcast use vstd::seq_lib::group_to_multiset_ensures;

    if n == s.len() {
        assert(s.take(n) =~= s);
        assert(s.skip(n) =~= Seq::<(String, usize)>::empty());
        assert(s.to_multiset().add(Seq::<(String, usize)>::empty().to_multiset()) =~= s.to_multiset());
    } else {
        lemma_multiset_take_skip(s, n + 1);
        assert(s.take(n + 1) =~= s.take(n).push(s[n]));
        assert(s.skip(n) =~= seq![s[n]] + s.skip(n + 1));
        assert(s.skip(n) =~= s.skip(n + 1).insert(0, s[n]));
        let t = s.skip(n);
        assert(t.remove(0) =~= s.skip(n + 1));
        assert(t.remove(0).to_multiset() =~= t.to_multiset().remove(t[0]));
        assert(t.to_multiset().count(s[n]) > 0) by {
            assert(t[0] == s[n]);
        }
        assert(s.to_multiset() =~= s.take(n).to_multiset().add(s.skip(n).to_multiset()));
    }
}

/// The candidates a search goes on to score: all of them when there are at
/// most `n`, else `n` with the highest counts (every candidate left out has
/// a count no higher than any kept).
pub fn top_candidates(ranked: Vec<(String, usize)>, n: usize) -> (r: Vec<(String, usize)>)
    ensures
        ranked@.len() <= n ==> r@ == ranked@,
        ranked@.len() > n ==> {
            &&& r@.len() == n
            &&& forall|x: (String, usize)| r@.to_multiset().count(x) <= ranked@.to_multiset().count(x)
            &&& forall|y: (String, usize), i: int|
                #![trigger ranked@.to_multiset().count(y), r@[i]]
                ranked@.to_multiset().count(y) > r@.to_multiset().count(y) && 0 <= i < r@.len()
                    ==> r@[i].1 >= y.1
        },
{
    if ranked.len() <= n {
        return ranked;
    }
    if n == 0 {
        return Vec::new();
    }
    let ghost given = ranked@;
    let mut v = ranked;
    select_highest(&mut v, n - 1);
    let ghost sorted = v@;
    proof {
        broadcast use vstd::seq_lib::group_to_multiset_ensures;

        assert(sorted.to_multiset().len() == sorted.len());
        assert(given.to_multiset().len() == given.len());
    }
    v.truncate(n);
    proof {
        broadcast use vstd::seq_lib::group_to_multiset_ensures;

        assert(v@ =~= sorted.take(n as int));
        lemma_multiset_take_skip(sorted, n as int);
        assert forall|y: (String, usize), i: int|
            #![trigger given.to_multiset().count(y), v@[i]]
            given.to_multiset().count(y) > v@.to_multiset().count(y) && 0 <= i < v@.len()
                implies v@[i].1 >= y.1 by {
            assert(sorted.skip(n as int).to_multiset().count(y) > 0);
            assert(sorted.skip(n as int).contains(y));
            let j = choose|j: int| 0 <= j < sorted.skip(n as int).len() && sorted.skip(n as int)[j] == y;
            assert(sorted[n + j] == y);
            assert(v@[i] == sorted[i]);
        }
    }
    v
}

/// The score of one field: 10 for each pair of a query term and a field
/// term at edit distance 0, and 5 for each pair at distance 1 or 2, given the
/// distances of all pairs.
pub open spec fn spec_field_score(distances: Seq<usize>) -> nat
    decreases distances.len(),
{
    if distances.len() == 0 {
        0
    } else {
        spec_field_score(distances.drop_last()) + if distances.last() == 0 {
            10nat
        } else if distances.last() <= 2 {
            5nat
        } else {
            0nat
        }
    }
}

proof fn lemma_field_score_bound(d: Seq<usize>)
    ensures
        spec_field_score(d) <= 10 * d.len(),
    decreases d.len(),
{
    if d.len() > 0 {
        lemma_field_score_bound(d.drop_last());
    }
}

/// The score of one field.
pub fn field_score(distances: &Vec<usize>) -> (r: usize)
    requires
        distances.len() * 10 <= usize::MAX,
    ensures
        r == spec_field_score(distances@),
{
    let mut score: usize = 0;
    let mut i: usize = 0;
    while i < distances.len()
        invariant
            i <= distances.len(),
            distances.len() * 10 <= usize::MAX,
            score == spec_field_score(distances@.subrange(0, i as int)),
        decreases distances.len() - i,
    {
        proof {
            assert(distances@.subrange(0, i + 1).drop_last() =~= distances@.subrange(0, i as int));
            lemma_field_score_bound(distances@.subrange(0, i as int));
        }
        let d = distances[i];
        if d == 0 {
            score = score + 10;
        } else if d <= 2 {
            score = score + 5;
        }
        i = i + 1;
    }
    assert(distances@.subrange(0, distances.len() as int) =~= distances@);
    score
}

/// The results of a search: the scored documents, highest score first, at
/// most `limit` of them.
pub fn rank_matches(matches: Vec<(String, usize)>, limit: usize) -> (r: Vec<(String, usize)>)
    ensures
        descending(r@),
        r@.len() == if matches@.len() < limit { matches@.len() } else { limit as nat },
        forall|x: (String, usize)| r@.to_multiset().count(x) <= matches@.to_multiset().count(x),
        forall|y: (String, usize), i: int|
            #![trigger matches@.to_multiset().count(y), r@[i]]
            matches@.to_multiset().count(y) > r@.to_multiset().count(y) && 0 <= i < r@.len()
                ==> r@[i].1 >= y.1,
{
    let ghost given = matches@;
    let mut v = matches;
    sort_descending(&mut v);
    let ghost sorted = v@;
    proof {
        broadcast use vstd::seq_lib::group_to_multiset_ensures;

        assert(sorted.to_multiset().len() == sorted.len());
        assert(given.to_multiset().len() == given.len());
    }
    if v.len() > limit {
        v.truncate(limit);
    }
    proof {
        broadcast use vstd::seq_lib::group_to_multiset_ensures;

        let n = v@.len() as int;
        assert(v@ =~= sorted.take(n));
        lemma_multiset_take_skip(sorted, n);
        assert forall|y: (String, usize), i: int|
            #![trigger given.to_multiset().count(y), v@[i]]
            given.to_multiset().count(y) > v@.to_multiset().count(y) && 0 <= i < v@.len()
                implies v@[i].1 >= y.1 by {
            assert(sorted.skip(n).to_multiset().count(y) > 0);
            assert(sorted.skip(n).contains(y));
            let j = choose|j: int| 0 <= j < sorted.skip(n).len() && sorted.skip(n)[j] == y;
            assert(sorted[n + j] == y);
            assert(v@[i] == sorted[i]);
        }
        assert forall|i: int, j: int| 0 <= i <= j < v@.len() implies v@[i].1 >= v@[j].1 by {
            assert(v@[i] == sorted[i] && v@[j] == sorted[j]);
        }
    }
    v
}

} // verus!
