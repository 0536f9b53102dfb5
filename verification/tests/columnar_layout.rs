use solidb_storage::columnar::{ColumnDef, ColumnType};
use solidb_storage::columnar_layout::{
    column_position, column_value_key, ids_at, index_meta_key, meta_key, missing_column,
    new_index_position, row_ids, row_key,
};

fn column(name: &str, indexed: bool) -> ColumnDef {
    ColumnDef { name: name.to_string(), data_type: ColumnType::Int64, nullable: true, indexed, index_type: None }
}

fn strings(v: &[&str]) -> Vec<String> {
    v.iter().map(|s| s.to_string()).collect()
}

#[test]
fn columnar_keys_have_their_layout() {
    assert_eq!(column_value_key("price", "r1"), b"col:price:r1".to_vec());
    assert_eq!(row_key("r1"), b"col_row:r1".to_vec());
    assert_eq!(meta_key("sales"), b"col_meta:sales".to_vec());
    assert_eq!(index_meta_key("price"), b"col_idx_meta:price".to_vec());
}

#[test]
fn row_ids_come_from_the_row_keys() {
    let entries = vec![
        (b"col_row:a1".to_vec(), b"{}".to_vec()),
        (b"col_row:b2".to_vec(), b"{}".to_vec()),
        (b"col_rox".to_vec(), b"{}".to_vec()),
    ];
    assert_eq!(row_ids(&entries), strings(&["a1", "b2"]));
    assert!(row_ids(&Vec::new()).is_empty());
}

#[test]
fn positions_past_the_end_are_skipped() {
    let all = strings(&["a", "b", "c"]);
    assert_eq!(ids_at(&all, &vec![2, 0, 7, 1]), strings(&["c", "a", "b"]));
    assert!(ids_at(&all, &Vec::new()).is_empty());
}

#[test]
fn column_checks_name_the_first_problem() {
    let columns = vec![column("id", true), column("price", false)];
    assert_eq!(column_position(&columns, "price"), Some(1));
    assert_eq!(column_position(&columns, "qty"), None);
    assert_eq!(missing_column(&columns, &strings(&["id", "price"])), None);
    assert_eq!(
        missing_column(&columns, &strings(&["id", "qty", "other"])),
        Some((1, "Column 'qty' not found".to_string()))
    );
    assert_eq!(new_index_position(&columns, "price"), Ok(1));
    assert_eq!(new_index_position(&columns, "id"), Err("Column 'id' already has an index".to_string()));
    assert_eq!(new_index_position(&columns, "qty"), Err("Column 'qty' not found".to_string()));
}
