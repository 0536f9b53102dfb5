//! Laws of the fulltext index: an update's entry changes turn the old
//! entries into the new ones, and a posting names its document whole.
use vstd::prelude::*;
use vstd::utf8::encode_utf8;
use crate::bytes::{has_prefix, lemma_encode_utf8_injective, lossy_text};
use crate::fulltext::{
    spec_difference, spec_field_score, spec_posting_docs, spec_term_keys, spec_term_prefix,
};
use crate::keys::{key3, COLON, FT_TERM_PREFIX};

verus! {

proof fn lemma_difference_members(a: Seq<Seq<char>>, b: Seq<Seq<char>>, t: Seq<char>)
    ensures
        spec_difference(a, b).contains(t) <==> (a.contains(t) && !b.contains(t)),
    decreases a.len(),
{
    if a.len() > 0 {
        lemma_difference_members(a.drop_last(), b, t);
        if a.contains(t) && t != a.last() {
            let j = choose|j: int| 0 <= j < a.len() && a[j] == t;
            assert(a.drop_last()[j] == t);
        }
        if a.drop_last().contains(t) {
            let j = choose|j: int| 0 <= j < a.drop_last().len() && a.drop_last()[j] == t;
            assert(a[j] == t);
        }
        if t == a.last() {
            assert(a[a.len() - 1] == t);
        }
        let rest = spec_difference(a.drop_last(), b);
        if !b.contains(a.last()) {
            assert(rest.push(a.last())[rest.len() as int] == a.last());
            if rest.push(a.last()).contains(t) && t != a.last() {
                let j = choose|j: int| 0 <= j < rest.push(a.last()).len() && rest.push(a.last())[j] == t;
                assert(rest[j] == t);
            }
            if rest.contains(t) {
                let j = choose|j: int| 0 <= j < rest.len() && rest[j] == t;
                assert(rest.push(a.last())[j] == t);
            }
        }
    }
}

proof fn lemma_term_key_injective(index: Seq<char>, doc: Seq<char>, s: Seq<char>, t: Seq<char>)
    ensures
        (key3(FT_TERM_PREFIX, encode_utf8(index), encode_utf8(s), encode_utf8(doc)) == key3(
            FT_TERM_PREFIX,
            encode_utf8(index),
            encode_utf8(t),
            encode_utf8(doc),
        )) <==> s == t,
{
    let head = encode_utf8(FT_TERM_PREFIX@) + encode_utf8(index) + seq![COLON];
    let tail = seq![COLON] + encode_utf8(doc);
    let ks = key3(FT_TERM_PREFIX, encode_utf8(index), encode_utf8(s), encode_utf8(doc));
    let kt = key3(FT_TERM_PREFIX, encode_utf8(index), encode_utf8(t), encode_utf8(doc));
    assert(ks =~= head + encode_utf8(s) + tail);
    assert(kt =~= head + encode_utf8(t) + tail);
    if ks == kt {
        assert(encode_utf8(s).len() == encode_utf8(t).len());
        assert(encode_utf8(s) =~= ks.subrange(head.len() as int, (head.len() + encode_utf8(s).len()) as int));
        assert(encode_utf8(t) =~= kt.subrange(head.len() as int, (head.len() + encode_utf8(t).len()) as int));
    }
    lemma_encode_utf8_injective(s, t);
}

proof fn lemma_term_keys_members(index: Seq<char>, doc: Seq<char>, terms: Seq<Seq<char>>, t: Seq<char>)
    ensures
        spec_term_keys(index, doc, terms).contains(
            key3(FT_TERM_PREFIX, encode_utf8(index), encode_utf8(t), encode_utf8(doc)),
        ) <==> terms.contains(t),
{
    let k = key3(FT_TERM_PREFIX, encode_utf8(index), encode_utf8(t), encode_utf8(doc));
    let keys = spec_term_keys(index, doc, terms);
    if terms.contains(t) {
        let j = choose|j: int| 0 <= j < terms.len() && terms[j] == t;
        assert(keys[j] == k);
    }
    if keys.contains(k) {
        let j = choose|j: int| 0 <= j < keys.len() && keys[j] == k;
        lemma_term_key_injective(index, doc, terms[j], t);
        assert(terms[j] == t);
    }
}

proof fn lemma_term_keys_shape(index: Seq<char>, doc: Seq<char>, terms: Seq<Seq<char>>, k: Seq<u8>)
    requires
        spec_term_keys(index, doc, terms).contains(k),
    ensures
        exists|t: Seq<char>|
            terms.contains(t) && k == key3(
                FT_TERM_PREFIX,
                encode_utf8(index),
                encode_utf8(t),
                encode_utf8(doc),
            ),
{
    let keys = spec_term_keys(index, doc, terms);
    let j = choose|j: int| 0 <= j < keys.len() && keys[j] == k;
    assert(terms.contains(terms[j]));
}

/// The entries an update adds and removes turn a document's old term entries
/// into exactly its new ones: an entry stands after the update if and only
/// if it is an entry of one of the new terms.
pub proof fn entry_changes_give_the_new_entries(
    index: Seq<char>,
    doc: Seq<char>,
    old_terms: Seq<Seq<char>>,
    new_terms: Seq<Seq<char>>,
    k: Seq<u8>,
)
    ensures
        ((spec_term_keys(index, doc, old_terms).contains(k) && !spec_term_keys(
            index,
            doc,
            spec_difference(old_terms, new_terms),
        ).contains(k)) || spec_term_keys(index, doc, spec_difference(new_terms, old_terms)).contains(
            k,
        )) <==> spec_term_keys(index, doc, new_terms).contains(k),
{
    let all = old_terms + new_terms;
    if spec_term_keys(index, doc, all).contains(k) || spec_term_keys(index, doc, old_terms).contains(k)
        || spec_term_keys(index, doc, new_terms).contains(k) || spec_term_keys(
        index,
        doc,
        spec_difference(new_terms, old_terms),
    ).contains(k) {
        let t = if spec_term_keys(index, doc, old_terms).contains(k) {
            lemma_term_keys_shape(index, doc, old_terms, k);
            choose|t: Seq<char>|
                old_terms.contains(t) && k == key3(
                    FT_TERM_PREFIX,
                    encode_utf8(index),
                    encode_utf8(t),
                    encode_utf8(doc),
                )
        } else if spec_term_keys(index, doc, new_terms).contains(k) {
            lemma_term_keys_shape(index, doc, new_terms, k);
            choose|t: Seq<char>|
                new_terms.contains(t) && k == key3(
                    FT_TERM_PREFIX,
                    encode_utf8(index),
                    encode_utf8(t),
                    encode_utf8(doc),
                )
        } else {
            let d = spec_difference(new_terms, old_terms);
            if spec_term_keys(index, doc, d).contains(k) {
                lemma_term_keys_shape(index, doc, d, k);
                choose|t: Seq<char>|
                    d.contains(t) && k == key3(
                        FT_TERM_PREFIX,
                        encode_utf8(index),
                        encode_utf8(t),
                        encode_utf8(doc),
                    )
            } else {
                lemma_term_keys_shape(index, doc, all, k);
                choose|t: Seq<char>|
                    all.contains(t) && k == key3(
                        FT_TERM_PREFIX,
                        encode_utf8(index),
                        encode_utf8(t),
                        encode_utf8(doc),
                    )
            }
        };
        assert(k == key3(FT_TERM_PREFIX, encode_utf8(index), encode_utf8(t), encode_utf8(doc)));
        lemma_term_keys_members(index, doc, old_terms, t);
        lemma_term_keys_members(index, doc, new_terms, t);
        lemma_term_keys_members(index, doc, spec_difference(old_terms, new_terms), t);
        lemma_term_keys_members(index, doc, spec_difference(new_terms, old_terms), t);
        lemma_difference_members(old_terms, new_terms, t);
        lemma_difference_members(new_terms, old_terms, t);
    }
}

/// An update that leaves a field's terms as they were adds and removes no
/// term entry.
pub proof fn unchanged_terms_change_no_entries(index: Seq<char>, doc: Seq<char>, terms: Seq<Seq<char>>)
    ensures
        spec_term_keys(index, doc, spec_difference(terms, terms)).len() == 0,
{
    let d = spec_difference(terms, terms);
    if d.len() > 0 {
        lemma_difference_members(terms, terms, d[0]);
        assert(d.contains(d[0]));
    }
}

/// A term entry names its document whole: scanning from the term's prefix,
/// the entry of a document gives back that document's key, though the key
/// may hold `:` itself.
pub proof fn posting_names_the_document_whole(index: Seq<char>, term: Seq<char>, doc: Seq<char>)
    ensures
        spec_posting_docs(
            seq![key3(FT_TERM_PREFIX, encode_utf8(index), encode_utf8(term), encode_utf8(doc))],
            spec_term_prefix(index, term),
            0,
        ) == seq![doc],
{
    let p = spec_term_prefix(index, term);
    let k = key3(FT_TERM_PREFIX, encode_utf8(index), encode_utf8(term), encode_utf8(doc));
    assert(k =~= p + encode_utf8(doc));
    assert(k.subrange(0, p.len() as int) =~= p);
    assert(has_prefix(k, p));
    assert(k.subrange(p.len() as int, k.len() as int) =~= encode_utf8(doc));
    vstd::utf8::encode_utf8_valid_utf8(doc);
    vstd::utf8::encode_utf8_decode_utf8(doc);
    assert(lossy_text(encode_utf8(doc)) == doc);
    let ks = seq![k];
    assert(ks.drop_first() =~= Seq::<Seq<u8>>::empty());
    assert(spec_posting_docs(ks.drop_first(), p, 1) == Seq::<Seq<char>>::empty());
    assert(seq![doc] + Seq::<Seq<char>>::empty() =~= seq![doc]);
}

/// A field's score counts its pairs of a query term and a field term: 10
/// for each exact pair (edit distance 0), 5 for each pair at distance 1 or
/// 2, nothing for the others. So an exact pair always outscores a fuzzy one.
pub proof fn field_score_counts_exact_and_fuzzy_pairs(distances: Seq<usize>)
    ensures
        spec_field_score(distances) == 10 * distances.filter(|d: usize| d == 0).len() + 5
            * distances.filter(|d: usize| 1 <= d && d <= 2).len(),
    decreases distances.len(),
{
    reveal(Seq::filter);
    if distances.len() > 0 {
        field_score_counts_exact_and_fuzzy_pairs(distances.drop_last());
    }
}

/// One pair alone: an exact pair scores 10, a pair at distance 1 or 2
/// scores 5, any other pair nothing; and appending a pair raises a score by
/// that pair's own score.
pub proof fn field_score_of_one_more_pair(distances: Seq<usize>, d: usize)
    ensures
        spec_field_score(distances.push(d)) == spec_field_score(distances) + if d == 0 {
            10int
        } else if d <= 2 {
            5int
        } else {
            0int
        },
        spec_field_score(seq![d]) == if d == 0 {
            10int
        } else if d <= 2 {
            5int
        } else {
            0int
        },
{
    field_score_counts_exact_and_fuzzy_pairs(distances);
    field_score_counts_exact_and_fuzzy_pairs(distances.push(d));
    field_score_counts_exact_and_fuzzy_pairs(seq![d]);
    reveal(Seq::filter);
    assert(distances.push(d).drop_last() =~= distances);
    assert(seq![d].drop_last() =~= Seq::<usize>::empty());
    let e = Seq::<usize>::empty();
    assert(e.filter(|x: usize| x == 0) =~= e);
    assert(e.filter(|x: usize| 1 <= x && x <= 2) =~= e);
    assert(seq![d].last() == d);
}

} // verus!
