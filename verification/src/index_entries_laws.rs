//! What regular index entries promise: an entry names exactly one document
//! and value, a unique probe finds exactly the entries holding the same
//! values, a document never conflicts with its own entry, and an update keeps
//! an entry that did not change.
use vstd::prelude::*;
use vstd::utf8::{encode_utf8, encode_utf8_decode_utf8, encode_utf8_valid_utf8};
use crate::bytes::{has_prefix, lemma_encode_utf8_injective, lossy_text};
use crate::codec::KeyValueView;
use crate::digits::{digit_byte, fixed_digits};
use crate::index_entries::{spec_entry_key, spec_probe_prefix, spec_unique_violation};
use crate::keys::{hex_lower, index_value_part, COLON, IDX_PREFIX, UNDERSCORE};

verus! {

broadcast use vstd::seq_lib::group_seq_properties;

proof fn lemma_hex_digits_no_colon(n: nat, width: nat)
    ensures
        forall|i: int| 0 <= i < width ==> #[trigger] fixed_digits(n, width, 16)[i] != COLON,
    decreases width,
{
    if width > 0 {
        lemma_hex_digits_no_colon(n / 16, (width - 1) as nat);
        let d = n % 16;
        assert(digit_byte(d) != COLON);
        let f = fixed_digits(n, width, 16);
        let g = fixed_digits(n / 16, (width - 1) as nat, 16);
        crate::digits::lemma_fixed_digits_len(n, width, 16);
        crate::digits::lemma_fixed_digits_len(n / 16, (width - 1) as nat, 16);
        assert(f == g.push(digit_byte(d)));
        assert forall|i: int| 0 <= i < width implies #[trigger] f[i] != COLON by {
            if i < width - 1 {
                assert(f[i] == g[i]);
            }
        }
    }
}

proof fn lemma_hex_lower_no_colon(s: Seq<u8>)
    ensures
        forall|i: int| 0 <= i < hex_lower(s).len() ==> #[trigger] hex_lower(s)[i] != COLON,
    decreases s.len(),
{
    if s.len() > 0 {
        lemma_hex_lower_no_colon(s.drop_last());
        lemma_hex_digits_no_colon(s.last() as nat, 2);
        crate::digits::lemma_fixed_digits_len(s.last() as nat, 2, 16);
        let a = hex_lower(s.drop_last());
        let b = fixed_digits(s.last() as nat, 2, 16);
        assert forall|i: int| 0 <= i < (a + b).len() implies #[trigger] (a + b)[i] != COLON by {
            if i < a.len() {
                assert((a + b)[i] == a[i]);
            } else {
                assert((a + b)[i] == b[i - a.len()]);
            }
        }
    }
}

/// The value part of an entry holds no `:`.
pub proof fn lemma_value_part_has_no_colon(values: Seq<KeyValueView>)
    ensures
        forall|i: int|
            0 <= i < index_value_part(values).len() ==> #[trigger] index_value_part(values)[i]
                != COLON,
    decreases values.len(),
{
    if values.len() == 1 {
        lemma_hex_lower_no_colon(crate::codec::spec_encode_key(values[0]));
    } else if values.len() > 1 {
        lemma_value_part_has_no_colon(values.drop_last());
        lemma_hex_lower_no_colon(crate::codec::spec_encode_key(values.last()));
        let a = index_value_part(values.drop_last()) + seq![UNDERSCORE];
        let b = hex_lower(crate::codec::spec_encode_key(values.last()));
        assert(index_value_part(values) == a + b);
        assert forall|i: int| 0 <= i < (a + b).len() implies #[trigger] (a + b)[i] != COLON by {
            if i < a.len() - 1 {
                assert((a + b)[i] == index_value_part(values.drop_last())[i]);
            } else if i == a.len() - 1 {
                assert((a + b)[i] == UNDERSCORE);
            } else {
                assert((a + b)[i] == b[i - a.len()]);
            }
        }
    }
}

proof fn lemma_split_at_first_colon(p1: Seq<u8>, d1: Seq<u8>, p2: Seq<u8>, d2: Seq<u8>)
    requires
        forall|i: int| 0 <= i < p1.len() ==> #[trigger] p1[i] != COLON,
        forall|i: int| 0 <= i < p2.len() ==> #[trigger] p2[i] != COLON,
        p1 + seq![COLON] + d1 == p2 + seq![COLON] + d2,
    ensures
        p1 == p2,
        d1 == d2,
{
    let x = p1 + seq![COLON] + d1;
    let y = p2 + seq![COLON] + d2;
    if p1.len() < p2.len() {
        assert(x[p1.len() as int] == COLON);
        assert(y[p1.len() as int] == p2[p1.len() as int]);
    } else if p2.len() < p1.len() {
        assert(y[p2.len() as int] == COLON);
        assert(x[p2.len() as int] == p1[p2.len() as int]);
    } else {
        assert(p1 =~= x.subrange(0, p1.len() as int));
        assert(p2 =~= y.subrange(0, p2.len() as int));
        assert(d1 =~= x.subrange(p1.len() as int + 1, x.len() as int));
        assert(d2 =~= y.subrange(p2.len() as int + 1, y.len() as int));
    }
}

/// Within one index, an entry key names exactly one document and one value
/// part: deleting one document's entry never deletes another's.
pub proof fn entry_names_one_document(
    name: Seq<char>,
    v1: Seq<KeyValueView>,
    d1: Seq<char>,
    v2: Seq<KeyValueView>,
    d2: Seq<char>,
)
    requires
        spec_entry_key(name, v1, d1) == spec_entry_key(name, v2, d2),
    ensures
        d1 == d2,
        index_value_part(v1) == index_value_part(v2),
{
    let p = encode_utf8(IDX_PREFIX@) + encode_utf8(name) + seq![COLON];
    let a = index_value_part(v1) + seq![COLON] + encode_utf8(d1);
    let b = index_value_part(v2) + seq![COLON] + encode_utf8(d2);
    assert(spec_entry_key(name, v1, d1) =~= p + a);
    assert(spec_entry_key(name, v2, d2) =~= p + b);
    assert(a =~= (p + a).subrange(p.len() as int, (p + a).len() as int));
    assert(b =~= (p + b).subrange(p.len() as int, (p + b).len() as int));
    lemma_value_part_has_no_colon(v1);
    lemma_value_part_has_no_colon(v2);
    lemma_split_at_first_colon(index_value_part(v1), encode_utf8(d1), index_value_part(v2), encode_utf8(d2));
    lemma_encode_utf8_injective(d1, d2);
}

/// A unique probe for some values finds exactly the entries of the index
/// that hold the same value part.
pub proof fn probe_finds_entries_with_equal_values(
    name: Seq<char>,
    probe: Seq<KeyValueView>,
    values: Seq<KeyValueView>,
    doc_key: Seq<char>,
)
    ensures
        has_prefix(spec_entry_key(name, values, doc_key), spec_probe_prefix(name, probe))
            <==> index_value_part(values) == index_value_part(probe),
{
    let p = encode_utf8(IDX_PREFIX@) + encode_utf8(name) + seq![COLON];
    let key = spec_entry_key(name, values, doc_key);
    let pre = spec_probe_prefix(name, probe);
    let pv = index_value_part(values);
    let pp = index_value_part(probe);
    assert(key =~= p + (pv + seq![COLON] + encode_utf8(doc_key)));
    assert(pre =~= p + (pp + seq![COLON]));
    lemma_value_part_has_no_colon(values);
    lemma_value_part_has_no_colon(probe);
    if pv == pp {
        assert(key.subrange(0, pre.len() as int) =~= pre);
    }
    if has_prefix(key, pre) {
        let k2 = pv + seq![COLON] + encode_utf8(doc_key);
        assert(k2 =~= key.subrange(p.len() as int, key.len() as int));
        assert(pre.subrange(p.len() as int, pre.len() as int) =~= pp + seq![COLON]);
        assert(k2.subrange(0, pp.len() as int + 1) =~= pp + seq![COLON]);
        let q = pp + seq![COLON];
        let ks = k2.subrange(0, pp.len() as int + 1);
        assert(ks =~= q);
        if pv.len() < pp.len() {
            assert(k2[pv.len() as int] == COLON);
            assert(ks[pv.len() as int] == k2[pv.len() as int]);
            assert(q[pv.len() as int] == pp[pv.len() as int]);
        } else if pp.len() < pv.len() {
            assert(q[pp.len() as int] == COLON);
            assert(ks[pp.len() as int] == k2[pp.len() as int]);
            assert(k2[pp.len() as int] == pv[pp.len() as int]);
        } else {
            assert forall|i: int| 0 <= i < pv.len() implies pv[i] == pp[i] by {
                assert(k2[i] == pv[i]);
                assert(ks[i] == k2[i]);
                assert(q[i] == pp[i]);
            }
            assert(pv =~= pp);
        }
    }
}

/// A document being written never conflicts with its own entry: a probe
/// that meets the entry naming the same document reports no violation.
pub proof fn own_entry_is_no_violation(name: Seq<char>, values: Seq<KeyValueView>, doc_key: Seq<char>)
    ensures
        !spec_unique_violation(
            spec_probe_prefix(name, values),
            Some((spec_entry_key(name, values, doc_key), encode_utf8(doc_key))),
            doc_key,
        ),
{
    encode_utf8_valid_utf8(doc_key);
    encode_utf8_decode_utf8(doc_key);
    assert(lossy_text(encode_utf8(doc_key)) == doc_key);
}

/// Applying an entry change to the set of stored keys: removal first, then
/// addition.
pub open spec fn apply_entry_update(
    stored: Set<Seq<u8>>,
    remove: Option<Seq<u8>>,
    add: Option<Seq<u8>>,
) -> Set<Seq<u8>> {
    let kept = match remove {
        Some(r) => stored.remove(r),
        None => stored,
    };
    match add {
        Some(a) => kept.insert(a),
        None => kept,
    }
}

/// Because removals come before additions, an update leaves the new entry
/// stored even when it equals the old one, drops the old entry otherwise,
/// and touches no other key.
pub proof fn update_keeps_the_new_entry(
    stored: Set<Seq<u8>>,
    remove: Option<Seq<u8>>,
    add: Option<Seq<u8>>,
    other: Seq<u8>,
)
    ensures
        add matches Some(a) ==> apply_entry_update(stored, remove, add).contains(a),
        (remove matches Some(r) && add != Some(r)) ==> !apply_entry_update(stored, remove, add).contains(
            remove->0,
        ),
        remove != Some(other) && add != Some(other) ==> (apply_entry_update(stored, remove, add).contains(
            other,
        ) == stored.contains(other)),
{
}

} // verus!
