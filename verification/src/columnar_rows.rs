//! Row selection in columnar collections: bitmap indexes, min/max chunk
//! pruning, the set operations that combine filters, and which access path a
//! filter takes.
//!
//! Rows are named by their position (a `u64`). A bitmap index holds, per
//! value, one bit per row: bit `p % 8` of byte `p / 8`. A min/max index
//! holds, per chunk of `MINMAX_CHUNK_SIZE` consecutive rows, the least and
//! greatest value.
use vstd::prelude::*;
use vstd::hash_set::HashSetWithView;
use crate::column_keys::MINMAX_CHUNK_SIZE;
use crate::columnar::ColumnarIndexType;
use crate::json::{deep, JsonValue};
use crate::json_equality::{json_equal, tree_eq};

verus! {

broadcast use vstd::std_specs::hash::axiom_u64_obeys_hash_table_key_model;

/// Whether row `p` is set in a bitmap.
pub open spec fn bit_of(bm: Seq<u8>, p: nat) -> bool {
    p / 8 < bm.len() && ((bm[(p / 8) as int] >> ((p % 8) as u8)) & 1u8) == 1u8
}

/// Row positions in strictly increasing order.
pub open spec fn strictly_increasing(s: Seq<u64>) -> bool {
    forall|i: int, j: int| 0 <= i < j < s.len() ==> s[i] < s[j]
}

proof fn lemma_set_bit(b: u8, bit: u8, k: u8)
    requires
        bit < 8,
        k < 8,
    ensures
        (((b | (1u8 << bit)) >> k) & 1u8 == 1u8) <==> (((b >> k) & 1u8 == 1u8) || k == bit),
{
    assert((((b | (1u8 << bit)) >> k) & 1u8 == 1u8) <==> (((b >> k) & 1u8 == 1u8) || k == bit))
        by (bit_vector)
        requires
            bit < 8,
            k < 8,
    ;
}

proof fn lemma_zero_byte(k: u8)
    requires
        k < 8,
    ensures
        ((0u8 >> k) & 1u8) != 1u8,
{
    assert(((0u8 >> k) & 1u8) != 1u8) by (bit_vector);
}

proof fn lemma_mask_test(b: u8, k: u8)
    requires
        k < 8,
    ensures
        ((b & (1u8 << k)) != 0u8) <==> (((b >> k) & 1u8) == 1u8),
{
    assert(((b & (1u8 << k)) != 0u8) <==> (((b >> k) & 1u8) == 1u8)) by (bit_vector)
        requires
            k < 8,
    ;
}

/// Sets row `row_id` in a bitmap, growing it with zero bytes as needed.
pub fn bitmap_set(bitmap: &mut Vec<u8>, row_id: u64)
    requires
        row_id / 8 < usize::MAX,
    ensures
        final(bitmap)@.len() == if (row_id / 8) < old(bitmap)@.len() {
            old(bitmap)@.len()
        } else {
            (row_id / 8 + 1) as nat
        },
        forall|q: nat| #[trigger] bit_of(final(bitmap)@, q) <==> (bit_of(old(bitmap)@, q) || q == row_id),
{
    let ghost before = bitmap@;
    let byte_idx = (row_id / 8) as usize;
    while bitmap.len() <= byte_idx
        invariant
            byte_idx == row_id / 8,
            byte_idx < usize::MAX,
            bitmap@.len() >= before.len(),
            bitmap@.len() <= if byte_idx < before.len() { before.len() } else { byte_idx as nat + 1 },
            bitmap@.subrange(0, before.len() as int) == before,
            forall|j: int| before.len() <= j < bitmap@.len() ==> bitmap@[j] == 0u8,
        decreases byte_idx + 1 - bitmap.len(),
    {
        bitmap.push(0u8);
    }
    let bit = (row_id % 8) as u8;
    let old_byte = bitmap[byte_idx];
    let ghost mid = bitmap@;
    bitmap.set(byte_idx, old_byte | (1u8 << bit));
    proof {
        assert forall|q: nat| #[trigger] bit_of(bitmap@, q) <==> (bit_of(before, q) || q == row_id) by {
            let j = q / 8;
            let k = (q % 8) as u8;
            if j < bitmap@.len() {
                if j == byte_idx {
                    lemma_set_bit(old_byte, bit, k);
                    if j < before.len() {
                        assert(mid[j as int] == before[j as int]);
                    } else {
                        lemma_zero_byte(k);
                    }
                    if q == row_id {
                        assert(k == bit);
                    }
                } else {
                    assert(bitmap@[j as int] == mid[j as int]);
                    if j < before.len() {
                        assert(mid[j as int] == before[j as int]);
                    } else {
                        lemma_zero_byte(k);
                    }
                }
            }
        }
    }
}

/// The rows set in a bitmap, in increasing order.
pub fn bitmap_rows(bitmap: &[u8]) -> (r: Vec<u64>)
    requires
        bitmap@.len() * 8 <= usize::MAX,
    ensures
        strictly_increasing(r@),
        forall|i: int| 0 <= i < r.len() ==> bit_of(bitmap@, #[trigger] r@[i] as nat),
        forall|p: nat| bit_of(bitmap@, p) ==> #[trigger] r@.contains(p as u64),
{
    let mut r: Vec<u64> = Vec::new();
    let mut byte_idx: usize = 0;
    while byte_idx < bitmap.len()
        invariant
            byte_idx <= bitmap@.len(),
            bitmap@.len() * 8 <= usize::MAX,
            strictly_increasing(r@),
            forall|i: int| 0 <= i < r.len() ==> bit_of(bitmap@, #[trigger] r@[i] as nat),
            forall|i: int| 0 <= i < r.len() ==> (#[trigger] r@[i]) < byte_idx * 8,
            forall|p: nat| p < byte_idx * 8 && bit_of(bitmap@, p) ==> #[trigger] r@.contains(p as u64),
        decreases bitmap@.len() - byte_idx,
    {
        let byte = bitmap[byte_idx];
        let mut bit: usize = 0;
        while bit < 8
            invariant
                byte_idx < bitmap@.len(),
                bitmap@.len() * 8 <= usize::MAX,
                byte == bitmap@[byte_idx as int],
                bit <= 8,
                strictly_increasing(r@),
                forall|i: int| 0 <= i < r.len() ==> bit_of(bitmap@, #[trigger] r@[i] as nat),
                forall|i: int| 0 <= i < r.len() ==> (#[trigger] r@[i]) < byte_idx * 8 + bit,
                forall|p: nat|
                    p < byte_idx * 8 + bit && bit_of(bitmap@, p) ==> #[trigger] r@.contains(p as u64),
            decreases 8 - bit,
        {
            let pos = byte_idx * 8 + bit;
            proof {
                lemma_mask_test(byte, bit as u8);
                assert(pos / 8 == byte_idx && pos % 8 == bit) by (nonlinear_arith)
                    requires
                        pos == byte_idx * 8 + bit,
                        bit < 8,
                ;
            }
            if (byte & (1u8 << (bit as u8))) != 0 {
                let ghost old_r = r@;
                r.push(pos as u64);
                proof {
                    assert(r@[r.len() - 1] == pos as u64);
                    assert forall|p: nat|
                        p < byte_idx * 8 + bit + 1 && bit_of(bitmap@, p) implies #[trigger] r@.contains(
                        p as u64,
                    ) by {
                        if p < byte_idx * 8 + bit {
                            assert(old_r.contains(p as u64));
                            let i = choose|i: int| 0 <= i < old_r.len() && old_r[i] == p as u64;
                            assert(r@[i] == old_r[i]);
                        } else {
                            assert(r@[r.len() - 1] == p as u64);
                        }
                    }
                }
            } else {
                proof {
                    assert forall|p: nat|
                        p < byte_idx * 8 + bit + 1 && bit_of(bitmap@, p) implies #[trigger] r@.contains(
                        p as u64,
                    ) by {
                        if p == byte_idx * 8 + bit {
                            assert(!bit_of(bitmap@, p));
                        }
                    }
                }
            }
            bit = bit + 1;
        }
        byte_idx = byte_idx + 1;
    }
    proof {
        assert forall|p: nat| bit_of(bitmap@, p) implies #[trigger] r@.contains(p as u64) by {
            assert(p / 8 < bitmap@.len());
            assert(p < bitmap@.len() * 8);
        }
    }
    r
}

/// How many min/max chunks cover `row_count` rows.
pub open spec fn spec_chunk_count(row_count: u64) -> nat {
    ((row_count + MINMAX_CHUNK_SIZE - 1) / MINMAX_CHUNK_SIZE as int) as nat
}

/// How many min/max chunks cover `row_count` rows.
pub fn chunk_count(row_count: u64) -> (r: u64)
    requires
        row_count <= u64::MAX - MINMAX_CHUNK_SIZE,
    ensures
        r == spec_chunk_count(row_count),
{
    (row_count + MINMAX_CHUNK_SIZE - 1) / MINMAX_CHUNK_SIZE
}

/// The rows that min/max pruning leaves: every row below `row_count` whose
/// chunk may hold a match (`chunk_matches[c]` for chunk `c`), in order.
pub fn candidate_rows(row_count: u64, chunk_matches: &Vec<bool>) -> (r: Vec<u64>)
    requires
        row_count <= u64::MAX - MINMAX_CHUNK_SIZE,
        chunk_matches.len() == spec_chunk_count(row_count),
    ensures
        strictly_increasing(r@),
        forall|i: int|
            0 <= i < r.len() ==> (#[trigger] r@[i]) < row_count && chunk_matches@[(r@[i]
                / MINMAX_CHUNK_SIZE) as int],
        forall|p: u64|
            p < row_count && chunk_matches@[(p / MINMAX_CHUNK_SIZE) as int] ==> #[trigger] r@.contains(
                p,
            ),
{
    let mut r: Vec<u64> = Vec::new();
    let n = chunk_count(row_count);
    let mut c: u64 = 0;
    while c < n
        invariant
            n == spec_chunk_count(row_count),
            chunk_matches.len() == n,
            row_count <= u64::MAX - MINMAX_CHUNK_SIZE,
            c <= n,
            strictly_increasing(r@),
            forall|i: int|
                0 <= i < r.len() ==> (#[trigger] r@[i]) < row_count && r@[i] < c * MINMAX_CHUNK_SIZE
                    && chunk_matches@[(r@[i] / MINMAX_CHUNK_SIZE) as int],
            forall|p: u64|
                p < row_count && p < c * MINMAX_CHUNK_SIZE && chunk_matches@[(p / MINMAX_CHUNK_SIZE) as int]
                    ==> #[trigger] r@.contains(p),
        decreases n - c,
    {
        proof {
            assert(c * MINMAX_CHUNK_SIZE < row_count) by (nonlinear_arith)
                requires
                    c < n,
                    n == (row_count + 999) / 1000,
                    MINMAX_CHUNK_SIZE == 1000,
            ;
        }
        let start = c * MINMAX_CHUNK_SIZE;
        let end = if row_count - start < MINMAX_CHUNK_SIZE {
            row_count
        } else {
            start + MINMAX_CHUNK_SIZE
        };
        if chunk_matches[c as usize] {
            let mut id = start;
            while id < end
                invariant
                    start == c * MINMAX_CHUNK_SIZE,
                    start < row_count,
                    end <= row_count,
                    end <= start + MINMAX_CHUNK_SIZE,
                    end == row_count || end == start + MINMAX_CHUNK_SIZE,
                    start <= id <= end,
                    chunk_matches@[c as int],
                    chunk_matches.len() == n,
                    c < n,
                    strictly_increasing(r@),
                    forall|i: int|
                        0 <= i < r.len() ==> (#[trigger] r@[i]) < row_count && r@[i] < id
                            && chunk_matches@[(r@[i] / MINMAX_CHUNK_SIZE) as int],
                    forall|p: u64|
                        p < row_count && p < id && chunk_matches@[(p / MINMAX_CHUNK_SIZE) as int]
                            ==> #[trigger] r@.contains(p),
                decreases end - id,
            {
                proof {
                    assert(id / MINMAX_CHUNK_SIZE == c) by (nonlinear_arith)
                        requires
                            start == c * 1000,
                            start <= id < start + 1000,
                            MINMAX_CHUNK_SIZE == 1000,
                    ;
                }
                let ghost old_r = r@;
                r.push(id);
                proof {
                    assert forall|p: u64|
                        p < row_count && p < id + 1 && chunk_matches@[(p / MINMAX_CHUNK_SIZE) as int]
                            implies #[trigger] r@.contains(p) by {
                        if p < id {
                            assert(old_r.contains(p));
                            let i = choose|i: int| 0 <= i < old_r.len() && old_r[i] == p;
                            assert(r@[i] == old_r[i]);
                        } else {
                            assert(r@[r.len() - 1] == p);
                        }
                    }
                }
                id = id + 1;
            }
            proof {
                assert forall|p: u64|
                    p < row_count && p < (c + 1) * MINMAX_CHUNK_SIZE && chunk_matches@[(p
                        / MINMAX_CHUNK_SIZE) as int] implies #[trigger] r@.contains(p) by {
                    if p >= end {
                        assert(end == row_count);
                    }
                }
            }
        } else {
            proof {
                assert forall|p: u64|
                    p < row_count && p < (c + 1) * MINMAX_CHUNK_SIZE && chunk_matches@[(p
                        / MINMAX_CHUNK_SIZE) as int] implies #[trigger] r@.contains(p) by {
                    if p >= c * MINMAX_CHUNK_SIZE {
                        assert(p / MINMAX_CHUNK_SIZE == c) by (nonlinear_arith)
                            requires
                                c * 1000 <= p < (c + 1) * 1000,
                                MINMAX_CHUNK_SIZE == 1000,
                        ;
                    }
                }
            }
        }
        c = c + 1;
    }
    proof {
        assert forall|p: u64|
            p < row_count && chunk_matches@[(p / MINMAX_CHUNK_SIZE) as int] implies #[trigger] r@.contains(
            p,
        ) by {
            assert(p < n * MINMAX_CHUNK_SIZE) by (nonlinear_arith)
                requires
                    p < row_count,
                    n == (row_count + 999) / 1000,
                    MINMAX_CHUNK_SIZE == 1000,
            ;
        }
    }
    r
}

/// Row positions in non-decreasing order.
pub open spec fn sorted(s: Seq<u64>) -> bool {
    forall|i: int, j: int| 0 <= i <= j < s.len() ==> s[i] <= s[j]
}

/// Calls `slice::sort` on the row positions: as its documentation states,
/// the result is the same positions in non-decreasing order.
#[verifier::external_body]
fn sort_row_ids(v: &mut Vec<u64>)
    ensures
        sorted(final(v)@),
        final(v)@.to_multiset() == old(v)@.to_multiset(),
{
    v.sort();
}

/// The distinct positions of a list, in increasing order (a sort followed
/// by removing repeats).
pub fn sorted_distinct(v: Vec<u64>) -> (r: Vec<u64>)
    ensures
        strictly_increasing(r@),
        forall|x: u64| #[trigger] r@.contains(x) <==> v@.contains(x),
{
    let ghost given = v@;
    let mut v = v;
    sort_row_ids(&mut v);
    proof {
        broadcast use vstd::seq_lib::group_to_multiset_ensures;
        assert forall|x: u64| #[trigger] v@.contains(x) <==> given.contains(x) by {
            assert(v@.to_multiset().count(x) == given.to_multiset().count(x));
        }
    }
    let mut r: Vec<u64> = Vec::new();
    let mut i: usize = 0;
    while i < v.len()
        invariant
            i <= v@.len(),
            sorted(v@),
            strictly_increasing(r@),
            r@.len() > 0 ==> r@[r@.len() - 1] <= (if i > 0 { v@[i - 1] } else { 0 }),
            i > 0 ==> r@.len() > 0 && r@[r@.len() - 1] == v@[i - 1],
            forall|x: u64| #[trigger] r@.contains(x) <==> v@.subrange(0, i as int).contains(x),
        decreases v@.len() - i,
    {
        let x = v[i];
        let ghost old_r = r@;
        let ghost prefix = v@.subrange(0, i as int);
        assert(v@.subrange(0, i + 1) =~= prefix.push(x));
        if r.len() == 0 || r[r.len() - 1] != x {
            proof {
                if i > 0 {
                    assert(v@[i - 1] <= x);
                }
            }
            r.push(x);
            proof {
                assert forall|y: u64| #[trigger] r@.contains(y) <==> v@.subrange(0, i + 1).contains(y) by {
                    if y == x {
                        assert(r@[r.len() - 1] == x);
                        assert(prefix.push(x)[i as int] == x);
                    } else {
                        if r@.contains(y) {
                            let j = choose|j: int| 0 <= j < r@.len() && r@[j] == y;
                            assert(old_r[j] == y);
                            assert(old_r.contains(y));
                            let k = choose|k: int| 0 <= k < prefix.len() && prefix[k] == y;
                            assert(prefix.push(x)[k] == y);
                        }
                        if prefix.push(x).contains(y) {
                            let k = choose|k: int| 0 <= k < prefix.push(x).len() && prefix.push(x)[k] == y;
                            assert(prefix[k] == y);
                            assert(prefix.contains(y));
                            assert(old_r.contains(y));
                            let j = choose|j: int| 0 <= j < old_r.len() && old_r[j] == y;
                            assert(r@[j] == y);
                        }
                    }
                }
            }
        } else {
            proof {
                assert forall|y: u64| #[trigger] r@.contains(y) <==> v@.subrange(0, i + 1).contains(y) by {
                    if y == x {
                        assert(r@[r.len() - 1] == x);
                    } else {
                        if prefix.push(x).contains(y) {
                            let k = choose|k: int| 0 <= k < prefix.push(x).len() && prefix.push(x)[k] == y;
                            assert(prefix[k] == y);
                        }
                        if r@.contains(y) {
                            let k = choose|k: int| 0 <= k < prefix.len() && prefix[k] == y;
                            assert(prefix.push(x)[k] == y);
                        }
                    }
                }
            }
        }
        i = i + 1;
    }
    assert(v@.subrange(0, v@.len() as int) =~= v@);
    r
}

/// What an `And` keeps of `result`: the positions that `matching` also
/// holds, in `result`'s order.
pub open spec fn spec_keep_matching(result: Seq<u64>, matching: Seq<u64>, n: nat) -> Seq<u64>
    decreases n,
{
    if n == 0 || n > result.len() {
        Seq::empty()
    } else {
        let before = spec_keep_matching(result, matching, (n - 1) as nat);
        if matching.contains(result[n - 1]) {
            before.push(result[n - 1])
        } else {
            before
        }
    }
}

/// Keeps the positions of `result` that `matching` holds.
pub fn keep_matching(result: &Vec<u64>, matching: &Vec<u64>) -> (r: Vec<u64>)
    ensures
        r@ == spec_keep_matching(result@, matching@, result@.len()),
{
    let mut set: HashSetWithView<u64> = HashSetWithView::new();
    let mut j: usize = 0;
    while j < matching.len()
        invariant
            j <= matching@.len(),
            forall|x: u64| #[trigger] set@.contains(x) <==> matching@.subrange(0, j as int).contains(x),
        decreases matching@.len() - j,
    {
        let ghost prefix = matching@.subrange(0, j as int);
        assert(matching@.subrange(0, j + 1) =~= prefix.push(matching@[j as int]));
        set.insert(matching[j]);
        proof {
            assert forall|x: u64| #[trigger] set@.contains(x) <==> matching@.subrange(0, j + 1).contains(x) by {
                if prefix.push(matching@[j as int]).contains(x) && x != matching@[j as int] {
                    let k = choose|k: int| 0 <= k < prefix.push(matching@[j as int]).len()
                        && prefix.push(matching@[j as int])[k] == x;
                    assert(prefix[k] == x);
                }
                if prefix.contains(x) {
                    let k = choose|k: int| 0 <= k < prefix.len() && prefix[k] == x;
                    assert(prefix.push(matching@[j as int])[k] == x);
                }
                if x == matching@[j as int] {
                    assert(prefix.push(matching@[j as int])[j as int] == x);
                }
            }
        }
        j = j + 1;
    }
    assert(matching@.subrange(0, matching@.len() as int) =~= matching@);
    let mut r: Vec<u64> = Vec::new();
    let mut i: usize = 0;
    while i < result.len()
        invariant
            i <= result@.len(),
            forall|x: u64| #[trigger] set@.contains(x) <==> matching@.contains(x),
            r@ == spec_keep_matching(result@, matching@, i as nat),
        decreases result@.len() - i,
    {
        if set.contains(&result[i]) {
            r.push(result[i]);
        }
        i = i + 1;
    }
    r
}

/// The distinct positions that any of the lists holds, in increasing order:
/// how an `Or`, and an `In` answered from an index, combine their parts.
pub fn union_rows(lists: &Vec<Vec<u64>>) -> (r: Vec<u64>)
    ensures
        strictly_increasing(r@),
        forall|x: u64| #[trigger] r@.contains(x) <==> exists|i: int|
            0 <= i < lists.len() && #[trigger] lists@[i]@.contains(x),
{
    let mut all: Vec<u64> = Vec::new();
    let mut i: usize = 0;
    while i < lists.len()
        invariant
            i <= lists@.len(),
            forall|x: u64| #[trigger] all@.contains(x) <==> exists|k: int|
                0 <= k < i && #[trigger] lists@[k]@.contains(x),
        decreases lists@.len() - i,
    {
        let list = &lists[i];
        let ghost before = all@;
        let mut j: usize = 0;
        while j < list.len()
            invariant
                j <= list@.len(),
                list@ == lists@[i as int]@,
                forall|x: u64| #[trigger] all@.contains(x) <==> (before.contains(x) || list@.subrange(0, j as int).contains(x)),
            decreases list@.len() - j,
        {
            let ghost prev = all@;
            all.push(list[j]);
            proof {
                let sub = list@.subrange(0, j as int);
                assert(list@.subrange(0, j + 1) =~= sub.push(list@[j as int]));
                assert forall|x: u64| #[trigger] all@.contains(x) <==> (before.contains(x) || list@.subrange(0, j + 1).contains(x)) by {
                    if all@.contains(x) {
                        let k = choose|k: int| 0 <= k < all@.len() && all@[k] == x;
                        if k < prev.len() {
                            assert(prev[k] == x);
                            assert(prev.contains(x));
                            if sub.contains(x) {
                                let m = choose|m: int| 0 <= m < sub.len() && sub[m] == x;
                                assert(sub.push(list@[j as int])[m] == x);
                            }
                        } else {
                            assert(sub.push(list@[j as int])[j as int] == x);
                        }
                    }
                    if sub.push(list@[j as int]).contains(x) {
                        let m = choose|m: int| 0 <= m < sub.push(list@[j as int]).len() && sub.push(list@[j as int])[m] == x;
                        if m < j {
                            assert(sub[m] == x);
                            assert(sub.contains(x));
                            assert(prev.contains(x));
                            let k = choose|k: int| 0 <= k < prev.len() && prev[k] == x;
                            assert(all@[k] == x);
                        } else {
                            assert(all@[all@.len() - 1] == x);
                        }
                    }
                    if before.contains(x) {
                        assert(prev.contains(x));
                        let k = choose|k: int| 0 <= k < prev.len() && prev[k] == x;
                        assert(all@[k] == x);
                    }
                }
            }
            j = j + 1;
        }
        proof {
            assert(list@.subrange(0, list@.len() as int) =~= list@);
            assert forall|x: u64| #[trigger] all@.contains(x) <==> exists|k: int|
                0 <= k < i + 1 && #[trigger] lists@[k]@.contains(x) by {
                if all@.contains(x) && !before.contains(x) {
                    assert(lists@[i as int]@.contains(x));
                }
                if exists|k: int| 0 <= k < i + 1 && #[trigger] lists@[k]@.contains(x) {
                    let k = choose|k: int| 0 <= k < i + 1 && #[trigger] lists@[k]@.contains(x);
                    if k < i {
                        assert(before.contains(x));
                    }
                }
            }
        }
        i = i + 1;
    }
    sorted_distinct(all)
}

/// The kind of a column filter.
#[derive(Clone, Copy, Debug, PartialEq, Eq, Structural)]
pub enum FilterKind {
    Eq,
    Ne,
    Gt,
    Gte,
    Lt,
    Lte,
    In,
    And,
    Or,
}

/// How a column filter finds its rows.
#[derive(Clone, Copy, Debug, PartialEq, Eq, Structural)]
pub enum FilterPlan {
    /// Read the rows of each value from the column's bitmap index.
    BitmapLookup,
    /// Read the rows of each value from the column's sorted or hash index.
    IndexLookup,
    /// Scan the column's sorted index for the values in range.
    RangeScan,
    /// Read only the rows of the min/max chunks that may match, then test
    /// each.
    MinMaxCandidates,
    /// Read the whole column and test each row.
    FullScan,
    /// Combine the rows of the sub-filters.
    Combine,
}

/// Which access path a filter takes, given the column's index (if any) and
/// whether it has a sorted index: equality and membership use a bitmap,
/// sorted or hash index; a range comparison scans a sorted index, else
/// prunes by min/max chunks; everything else reads the column.
pub open spec fn spec_filter_plan(
    kind: FilterKind,
    index: Option<ColumnarIndexType>,
    has_sorted: bool,
) -> FilterPlan {
    match kind {
        FilterKind::Eq | FilterKind::In => match index {
            Some(ColumnarIndexType::Bitmap) => FilterPlan::BitmapLookup,
            Some(ColumnarIndexType::Sorted) | Some(ColumnarIndexType::Hash) => FilterPlan::IndexLookup,
            _ => FilterPlan::FullScan,
        },
        FilterKind::Ne => FilterPlan::FullScan,
        FilterKind::Gt | FilterKind::Gte | FilterKind::Lt | FilterKind::Lte => if has_sorted {
            FilterPlan::RangeScan
        } else if index == Some(ColumnarIndexType::MinMax) {
            FilterPlan::MinMaxCandidates
        } else {
            FilterPlan::FullScan
        },
        FilterKind::And | FilterKind::Or => FilterPlan::Combine,
    }
}

/// The access path of a filter.
pub fn filter_plan(kind: FilterKind, index: Option<ColumnarIndexType>, has_sorted: bool) -> (r:
    FilterPlan)
    ensures
        r == spec_filter_plan(kind, index, has_sorted),
{
    match kind {
        FilterKind::Eq | FilterKind::In => match index {
            Some(ColumnarIndexType::Bitmap) => FilterPlan::BitmapLookup,
            Some(ColumnarIndexType::Sorted) | Some(ColumnarIndexType::Hash) => FilterPlan::IndexLookup,
            _ => FilterPlan::FullScan,
        },
        FilterKind::Ne => FilterPlan::FullScan,
        FilterKind::Gt | FilterKind::Gte | FilterKind::Lt | FilterKind::Lte => if has_sorted {
            FilterPlan::RangeScan
        } else {
            match index {
                Some(ColumnarIndexType::MinMax) => FilterPlan::MinMaxCandidates,
                _ => FilterPlan::FullScan,
            }
        },
        FilterKind::And | FilterKind::Or => FilterPlan::Combine,
    }
}

/// How a scan of a whole column tests the value of each row.
pub enum ScanTest {
    /// The value equals this one.
    Eq(JsonValue),
    /// The value differs from this one.
    Ne(JsonValue),
    /// The value equals one of these.
    In(Vec<JsonValue>),
}

/// One of `vs` equals `v`.
pub open spec fn listed(vs: Seq<JsonValue>, v: JsonValue) -> bool {
    exists|j: int| 0 <= j < vs.len() && tree_eq(deep(#[trigger] vs[j]), deep(v))
}

/// Whether a value passes the test.
pub open spec fn passes(test: ScanTest, v: JsonValue) -> bool {
    match test {
        ScanTest::Eq(w) => tree_eq(deep(v), deep(w)),
        ScanTest::Ne(w) => !tree_eq(deep(v), deep(w)),
        ScanTest::In(ws) => listed(ws@, v),
    }
}

/// The rows from `start` up to (not including) `end` that have a value
/// passing the test, in order.
pub open spec fn scan_rows(values: Seq<JsonValue>, start: int, end: int, test: ScanTest) -> Seq<u64>
    decreases end - start,
{
    if end <= start {
        Seq::empty()
    } else {
        let before = scan_rows(values, start, end - 1, test);
        if end - 1 < values.len() && passes(test, values[end - 1]) {
            before.push((end - 1) as u64)
        } else {
            before
        }
    }
}

fn value_passes(test: &ScanTest, v: &JsonValue) -> (r: bool)
    ensures
        r == passes(*test, *v),
{
    match test {
        ScanTest::Eq(w) => json_equal(v, w),
        ScanTest::Ne(w) => !json_equal(v, w),
        ScanTest::In(ws) => {
            let mut j: usize = 0;
            while j < ws.len()
                invariant
                    *test == ScanTest::In(*ws),
                    j <= ws@.len(),
                    forall|k: int| 0 <= k < j ==> !tree_eq(deep(#[trigger] ws@[k]), deep(*v)),
                decreases ws@.len() - j,
            {
                if json_equal(&ws[j], v) {
                    assert(tree_eq(deep(ws@[j as int]), deep(*v)));
                    return true;
                }
                j = j + 1;
            }
            false
        },
    }
}

/// The rows of `start..end` whose value in the column (`values`, indexed
/// by row) passes the test, in order: the full-column scan of an `Eq`, `Ne`
/// or `In` filter. Rows past the column's end have no value and never pass.
pub fn scan_matching(values: &Vec<JsonValue>, start: u64, end: u64, test: &ScanTest) -> (r: Vec<u64>)
    ensures
        r@ == scan_rows(values@, start as int, end as int, *test),
{
    let mut r: Vec<u64> = Vec::new();
    if end <= start {
        return r;
    }
    let mut row: u64 = start;
    while row < end
        invariant
            start <= row <= end,
            r@ == scan_rows(values@, start as int, row as int, *test),
        decreases end - row,
    {
        if row < values.len() as u64 {
            if value_passes(test, &values[row as usize]) {
                r.push(row);
            }
        }
        row = row + 1;
    }
    r
}

/// The rows `start..end`, in order.
pub open spec fn row_range(start: u64, end: u64) -> Seq<u64> {
    Seq::new(if end > start { (end - start) as nat } else { 0 }, |i: int| (start + i) as u64)
}

/// What an `And` keeps: the rows of the range, narrowed by each
/// sub-filter's rows in turn.
pub open spec fn spec_and_rows(start: u64, end: u64, matchings: Seq<Seq<u64>>) -> Seq<u64>
    decreases matchings.len(),
{
    if matchings.len() == 0 {
        row_range(start, end)
    } else {
        let before = spec_and_rows(start, end, matchings.drop_last());
        spec_keep_matching(before, matchings.last(), before.len())
    }
}

/// The rows an `And` filter keeps over `start..end`: every row of the
/// range that every sub-filter also matched (`matchings[k]` being the rows
/// that sub-filter `k` matched over the same range), in increasing order.
pub fn and_rows(start: u64, end: u64, matchings: &Vec<Vec<u64>>) -> (r: Vec<u64>)
    ensures
        r@ == spec_and_rows(start, end, matchings@.map_values(|m: Vec<u64>| m@)),
{
    let ghost ms = matchings@.map_values(|m: Vec<u64>| m@);
    let mut result: Vec<u64> = Vec::new();
    if start < end {
        let mut row: u64 = start;
        while row < end
            invariant
                start <= row <= end,
                result@ =~= Seq::new((row - start) as nat, |i: int| (start + i) as u64),
            decreases end - row,
        {
            result.push(row);
            row = row + 1;
        }
    }
    assert(result@ =~= row_range(start, end));
    let mut k: usize = 0;
    while k < matchings.len()
        invariant
            k <= matchings@.len(),
            ms == matchings@.map_values(|m: Vec<u64>| m@),
            result@ == spec_and_rows(start, end, ms.take(k as int)),
        decreases matchings@.len() - k,
    {
        assert(ms.take(k + 1).drop_last() =~= ms.take(k as int));
        assert(ms.take(k + 1).last() == matchings@[k as int]@);
        result = keep_matching(&result, &matchings[k]);
        k = k + 1;
    }
    assert(ms.take(matchings@.len() as int) =~= ms);
    result
}

} // verus!
