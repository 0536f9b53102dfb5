//! Where a columnar collection keeps its rows: the keys of column values,
//! rows and metadata, the row identifiers a scan of the rows yields, and the
//! checks a read or an index creation makes of the column definitions.
use vstd::prelude::*;
use vstd::utf8::encode_utf8;
use crate::bytes::{lossy_text, push_str, str_equal, tail, utf8_lossy};
use crate::column_keys::{COL_DATA_PREFIX, COL_IDX_META_PREFIX, COL_META_PREFIX, COL_ROW_PREFIX};
use crate::columnar::ColumnDef;
use crate::fulltext::texts;
use crate::keys::COLON;
use crate::scans::{entry_views, prefix_run, run_length};

verus! {

broadcast use vstd::seq_lib::group_seq_properties;

/// The key of one column value of a row: `col:<column>:<row id>`.
pub fn column_value_key(column: &str, row_id: &str) -> (r: Vec<u8>)
    ensures
        r@ == encode_utf8(COL_DATA_PREFIX@) + encode_utf8(column@) + seq![COLON] + encode_utf8(row_id@),
{
    let mut k: Vec<u8> = Vec::new();
    push_str(&mut k, COL_DATA_PREFIX);
    push_str(&mut k, column);
    k.push(COLON);
    push_str(&mut k, row_id);
    k
}

/// The key of a whole row, kept for reconstruction: `col_row:<row id>`.
pub fn row_key(row_id: &str) -> (r: Vec<u8>)
    ensures
        r@ == encode_utf8(COL_ROW_PREFIX@) + encode_utf8(row_id@),
{
    let mut k: Vec<u8> = Vec::new();
    push_str(&mut k, COL_ROW_PREFIX);
    push_str(&mut k, row_id);
    k
}

/// The key of a collection's metadata: `col_meta:<name>`.
pub fn meta_key(name: &str) -> (r: Vec<u8>)
    ensures
        r@ == encode_utf8(COL_META_PREFIX@) + encode_utf8(name@),
{
    let mut k: Vec<u8> = Vec::new();
    push_str(&mut k, COL_META_PREFIX);
    push_str(&mut k, name);
    k
}

/// The key of a column index's metadata: `col_idx_meta:<column>`.
pub fn index_meta_key(column: &str) -> (r: Vec<u8>)
    ensures
        r@ == encode_utf8(COL_IDX_META_PREFIX@) + encode_utf8(column@),
{
    let mut k: Vec<u8> = Vec::new();
    push_str(&mut k, COL_IDX_META_PREFIX);
    push_str(&mut k, column);
    k
}

/// The row identifiers of scanned `col_row:` entries: what follows the
/// prefix, read leniently as text.
pub open spec fn spec_row_ids(run: Seq<(Seq<u8>, Seq<u8>)>) -> Seq<Seq<char>> {
    run.map_values(
        |e: (Seq<u8>, Seq<u8>)| lossy_text(e.0.subrange(encode_utf8(COL_ROW_PREFIX@).len() as int, e.0.len() as int)),
    )
}

/// The row identifiers of a collection, in key order, given a scan from
/// `col_row:`.
pub fn row_ids(entries: &Vec<(Vec<u8>, Vec<u8>)>) -> (r: Vec<String>)
    ensures
        texts(r@) == spec_row_ids(prefix_run(entry_views(entries@), encode_utf8(COL_ROW_PREFIX@))),
{
    let prefix = COL_ROW_PREFIX.as_bytes();
    let n = run_length(entries, prefix);
    let ghost run = entry_views(entries@).take(n as int);
    let mut r: Vec<String> = Vec::new();
    let mut i: usize = 0;
    while i < n
        invariant
            i <= n <= entries.len(),
            prefix@ == encode_utf8(COL_ROW_PREFIX@),
            run == entry_views(entries@).take(n as int),
            prefix_run(entry_views(entries@), prefix@) == run,
            texts(r@) == spec_row_ids(run.take(i as int)),
        decreases n - i,
    {
        assert(run[i as int] == (entries@[i as int].0@, entries@[i as int].1@));
        assert(prefix@.len() <= run[i as int].0.len()) by {
            crate::scans::lemma_run_has_prefix(entry_views(entries@), prefix@, i as int);
        }
        let k = entries[i].0.as_slice();
        let id = utf8_lossy(tail(k, prefix.len()).as_slice());
        let ghost before = r@;
        r.push(id);
        assert(texts(r@) =~= texts(before).push(id@));
        assert(spec_row_ids(run.take(i + 1)) =~= spec_row_ids(run.take(i as int)).push(id@));
        i = i + 1;
    }
    assert(run.take(n as int) =~= run);
    r
}

/// The identifiers at the given positions of all row identifiers; positions
/// past the end name no row and are skipped.
pub open spec fn spec_ids_at(all: Seq<Seq<char>>, positions: Seq<u64>) -> Seq<Seq<char>>
    decreases positions.len(),
{
    if positions.len() == 0 {
        Seq::empty()
    } else {
        let rest = spec_ids_at(all, positions.drop_last());
        let p = positions.last();
        if p < all.len() {
            rest.push(all[p as int])
        } else {
            rest
        }
    }
}

/// The row identifiers of row positions.
pub fn ids_at(all: &Vec<String>, positions: &Vec<u64>) -> (r: Vec<String>)
    ensures
        texts(r@) == spec_ids_at(texts(all@), positions@),
{
    let mut r: Vec<String> = Vec::new();
    let mut i: usize = 0;
    while i < positions.len()
        invariant
            i <= positions.len(),
            texts(r@) == spec_ids_at(texts(all@), positions@.take(i as int)),
        decreases positions.len() - i,
    {
        assert(positions@.take(i + 1).drop_last() =~= positions@.take(i as int));
        let p = positions[i];
        if p < all.len() as u64 {
            let ghost before = r@;
            let id = all[p as usize].clone();
            r.push(id);
            assert(texts(r@) =~= texts(before).push(all@[p as int]@));
        }
        i = i + 1;
    }
    assert(positions@.take(positions.len() as int) =~= positions@);
    r
}

/// Where the definition of column `name` stands.
pub fn column_position(columns: &Vec<ColumnDef>, name: &str) -> (r: Option<usize>)
    ensures
        match r {
            Some(i) => i < columns.len() && columns@[i as int].name@ == name@ && forall|j: int|
                0 <= j < i ==> columns@[j].name@ != name@,
            None => forall|j: int| 0 <= j < columns.len() ==> columns@[j].name@ != name@,
        },
{
    let mut i: usize = 0;
    while i < columns.len()
        invariant
            i <= columns.len(),
            forall|j: int| 0 <= j < i ==> columns@[j].name@ != name@,
        decreases columns.len() - i,
    {
        if str_equal(columns[i].name.as_str(), name) {
            return Some(i);
        }
        i = i + 1;
    }
    None
}

/// Whether some column is defined as `name`.
pub open spec fn is_defined(columns: Seq<ColumnDef>, name: Seq<char>) -> bool {
    exists|c: int| 0 <= c < columns.len() && columns[c].name@ == name
}

/// The message a request naming an undefined column gets.
pub open spec fn not_found_message(column: Seq<char>) -> Seq<char> {
    "Column '"@ + column + "' not found"@
}

/// The first of `requested` that no column is defined as, with the
/// message a read of it gets; `None` when every one is defined.
pub fn missing_column(columns: &Vec<ColumnDef>, requested: &Vec<String>) -> (r: Option<(usize, String)>)
    ensures
        match r {
            Some((i, m)) => {
                &&& i < requested.len()
                &&& forall|c: int| 0 <= c < columns.len() ==> columns@[c].name@ != requested@[i as int]@
                &&& forall|j: int| 0 <= j < i ==> is_defined(columns@, #[trigger] requested@[j]@)
                &&& m@ == not_found_message(requested@[i as int]@)
            },
            None => forall|j: int| 0 <= j < requested.len() ==> is_defined(columns@, #[trigger] requested@[j]@),
        },
{
    let mut i: usize = 0;
    while i < requested.len()
        invariant
            i <= requested.len(),
            forall|j: int| 0 <= j < i ==> is_defined(columns@, #[trigger] requested@[j]@),
        decreases requested.len() - i,
    {
        match column_position(columns, requested[i].as_str()) {
            Some(c) => {
                assert(columns@[c as int].name@ == requested@[i as int]@);
            },
            None => {
                let mut m = String::from_str("Column '");
                m.append(requested[i].as_str());
                m.append("' not found");
                proof {
                    reveal_strlit("Column '");
                    reveal_strlit("' not found");
                }
                return Some((i, m));
            },
        }
        i = i + 1;
    }
    None
}

/// Why a column cannot get a new index: it is not defined, or it already
/// has an index. `Ok` holds where its definition stands.
pub fn new_index_position(columns: &Vec<ColumnDef>, column: &str) -> (r: Result<usize, String>)
    ensures
        match r {
            Ok(i) => i < columns.len() && columns@[i as int].name@ == column@ && !columns@[i as int].indexed
                && forall|j: int| 0 <= j < i ==> columns@[j].name@ != column@,
            Err(m) => {
                ||| (forall|j: int| 0 <= j < columns.len() ==> columns@[j].name@ != column@) && m@
                    == not_found_message(column@)
                ||| exists|i: int|
                    0 <= i < columns.len() && columns@[i].name@ == column@ && (forall|j: int|
                        0 <= j < i ==> columns@[j].name@ != column@) && columns@[i].indexed && m@
                        == "Column '"@ + column@ + "' already has an index"@
            },
        },
{
    match column_position(columns, column) {
        None => {
            let mut m = String::from_str("Column '");
            m.append(column);
            m.append("' not found");
            proof {
                reveal_strlit("Column '");
                reveal_strlit("' not found");
            }
            Err(m)
        },
        Some(i) => {
            if columns[i].indexed {
                let mut m = String::from_str("Column '");
                m.append(column);
                m.append("' already has an index");
                proof {
                    reveal_strlit("Column '");
                    reveal_strlit("' already has an index");
                }
                Err(m)
            } else {
                Ok(i)
            }
        },
    }
}

} // verus!
