use tabletrace::diff::{calculate_all_diffs, get_pk_value};
use tabletrace::row::Row;

fn create_row(data: &[(&str, &str)]) -> Row {
    let mut row = Row::new();
    for (k, v) in data {
        row.insert(k.to_string(), v.to_string());
    }
    row
}

#[test]
fn test_detect_insert() {
    let old_rows = vec![create_row(&[("id", "1"), ("name", "Alice")])];
    let new_rows = vec![
        create_row(&[("id", "1"), ("name", "Alice")]),
        create_row(&[("id", "2"), ("name", "Bob")]),
    ];

    let diffs = calculate_all_diffs(&old_rows, &new_rows, "id");
    assert_eq!(diffs.len(), 1);
    assert_eq!(diffs[0].change_type, "added");
    assert_eq!(diffs[0].pk_value, "2");
}

#[test]
fn test_detect_delete() {
    let old_rows = vec![
        create_row(&[("id", "1"), ("name", "Alice")]),
        create_row(&[("id", "2"), ("name", "Bob")]),
    ];
    let new_rows = vec![create_row(&[("id", "1"), ("name", "Alice")])];

    let diffs = calculate_all_diffs(&old_rows, &new_rows, "id");
    assert_eq!(diffs.len(), 1);
    assert_eq!(diffs[0].change_type, "removed");
    assert_eq!(diffs[0].pk_value, "2");
}

#[test]
fn test_detect_update() {
    let old_rows = vec![create_row(&[("id", "1"), ("name", "Alice")])];
    let new_rows = vec![create_row(&[("id", "1"), ("name", "Alicia")])];

    let diffs = calculate_all_diffs(&old_rows, &new_rows, "id");
    assert_eq!(diffs.len(), 1);
    assert_eq!(diffs[0].change_type, "modified");
    assert!(diffs[0].changed_columns.contains(&"name".to_string()));
}

#[test]
fn added_row_lists_all_columns() {
    let old_rows = vec![create_row(&[("id", "1"), ("name", "Alice")])];
    let new_rows = vec![
        create_row(&[("id", "1"), ("name", "Alice")]),
        create_row(&[("id", "2"), ("name", "Bob"), ("age", "30")]),
    ];
    let diffs = calculate_all_diffs(&old_rows, &new_rows, "id");
    assert_eq!(diffs.len(), 1);
    assert_eq!(diffs[0].pk_column, "id");
    assert_eq!(diffs[0].changed_columns, vec!["id", "name", "age"]);
    assert!(diffs[0].old_values.is_none());
    assert_eq!(diffs[0].new_values.as_ref().unwrap().get("age").unwrap(), "30");
}

#[test]
fn removed_row_keeps_old_values() {
    let old_rows = vec![create_row(&[("id", "7"), ("name", "Eve")])];
    let new_rows: Vec<Row> = vec![];
    let diffs = calculate_all_diffs(&old_rows, &new_rows, "id");
    assert_eq!(diffs.len(), 1);
    assert_eq!(diffs[0].change_type, "removed");
    assert_eq!(diffs[0].pk_value, "7");
    assert_eq!(diffs[0].changed_columns, vec!["id", "name"]);
    assert!(diffs[0].new_values.is_none());
}

#[test]
fn identical_rows_give_no_diff() {
    let old_rows = vec![
        create_row(&[("id", "1"), ("name", "Alice")]),
        create_row(&[("id", "2"), ("name", "Bob")]),
    ];
    let new_rows = vec![
        create_row(&[("id", "2"), ("name", "Bob")]),
        create_row(&[("id", "1"), ("name", "Alice")]),
    ];
    assert!(calculate_all_diffs(&old_rows, &new_rows, "id").is_empty());
}

#[test]
fn modified_row_lists_exactly_the_differing_columns() {
    let old_rows = vec![create_row(&[("id", "1"), ("name", "Alice"), ("age", "30"), ("city", "Oslo")])];
    let new_rows = vec![create_row(&[("id", "1"), ("name", "Alicia"), ("age", "30"), ("city", "Rome")])];
    let diffs = calculate_all_diffs(&old_rows, &new_rows, "id");
    assert_eq!(diffs.len(), 1);
    assert_eq!(diffs[0].change_type, "modified");
    let mut cols = diffs[0].changed_columns.clone();
    cols.sort();
    assert_eq!(cols, vec!["city", "name"]);
}

#[test]
fn column_missing_on_old_side_counts_as_changed() {
    let old_rows = vec![create_row(&[("id", "1")])];
    let new_rows = vec![create_row(&[("id", "1"), ("note", "x")])];
    let diffs = calculate_all_diffs(&old_rows, &new_rows, "id");
    assert_eq!(diffs.len(), 1);
    assert_eq!(diffs[0].changed_columns, vec!["note"]);
}

#[test]
fn mixed_changes_give_one_diff_per_key() {
    let old_rows = vec![
        create_row(&[("id", "1"), ("v", "a")]),
        create_row(&[("id", "2"), ("v", "b")]),
        create_row(&[("id", "3"), ("v", "c")]),
    ];
    let new_rows = vec![
        create_row(&[("id", "2"), ("v", "B")]),
        create_row(&[("id", "3"), ("v", "c")]),
        create_row(&[("id", "4"), ("v", "d")]),
    ];
    let diffs = calculate_all_diffs(&old_rows, &new_rows, "id");
    let mut got: Vec<(String, String)> =
        diffs.iter().map(|d| (d.pk_value.clone(), d.change_type.clone())).collect();
    got.sort();
    assert_eq!(
        got,
        vec![
            ("1".to_string(), "removed".to_string()),
            ("2".to_string(), "modified".to_string()),
            ("4".to_string(), "added".to_string()),
        ]
    );
}

#[test]
fn key_uses_nominal_column() {
    let row = create_row(&[("code", "X1"), ("id", "5")]);
    assert_eq!(get_pk_value(&row, "code"), "X1");
}

#[test]
fn key_falls_back_to_id_uuid_pk() {
    assert_eq!(get_pk_value(&create_row(&[("code", "NULL"), ("id", "5")]), "code"), "5");
    assert_eq!(get_pk_value(&create_row(&[("code", ""), ("uuid", "u-1"), ("pk", "9")]), "code"), "u-1");
    assert_eq!(get_pk_value(&create_row(&[("pk", "9"), ("name", "n")]), "code"), "9");
}

#[test]
fn key_falls_back_to_first_usable_column() {
    let row = create_row(&[("a", "NULL"), ("b", ""), ("c", "val"), ("d", "other")]);
    assert_eq!(get_pk_value(&row, "id"), "c:val");
}

#[test]
fn key_of_all_null_row_is_synthesized() {
    let row = create_row(&[("a", "NULL"), ("b", ""), ("c", "NULL"), ("d", "NULL")]);
    assert_eq!(get_pk_value(&row, "id"), "row_NULL__NULL");
    let long = create_row(&[("a", "NULL"), ("b", "NULL"), ("c", "NULL")]);
    assert_eq!(get_pk_value(&long, "id"), "row_NULL_NULL_NULL");
    let empty = Row::new();
    assert_eq!(get_pk_value(&empty, "id"), "row_");
}

#[test]
fn duplicate_keys_use_the_last_row() {
    let old_rows = vec![create_row(&[("id", "1"), ("v", "a")])];
    let new_rows = vec![
        create_row(&[("id", "1"), ("v", "b")]),
        create_row(&[("id", "1"), ("v", "a")]),
    ];
    assert!(calculate_all_diffs(&old_rows, &new_rows, "id").is_empty());
}

#[test]
fn row_insert_replaces_existing_column() {
    let mut row = create_row(&[("id", "1"), ("name", "A")]);
    row.insert("name".to_string(), "B".to_string());
    assert_eq!(row.len(), 2);
    assert_eq!(row.get("name").unwrap(), "B");
    assert!(row.get("missing").is_none());
}

#[test]
fn scenario_new_row_is_added() {
    let old_rows = vec![create_row(&[("id", "1"), ("name", "Alice")])];
    let new_rows = vec![
        create_row(&[("id", "1"), ("name", "Alice")]),
        create_row(&[("id", "2"), ("name", "Bob")]),
    ];
    let diffs = calculate_all_diffs(&old_rows, &new_rows, "id");
    assert_eq!(diffs.len(), 1);
    assert_eq!(diffs[0].change_type, "added");
    assert_eq!(diffs[0].pk_value, "2");
    assert_eq!(diffs[0].changed_columns, vec!["id", "name"]);
}

#[test]
fn scenario_renamed_row_is_modified() {
    let old_rows = vec![create_row(&[("id", "1"), ("name", "Alice")])];
    let new_rows = vec![create_row(&[("id", "1"), ("name", "Alicia")])];
    let diffs = calculate_all_diffs(&old_rows, &new_rows, "id");
    assert_eq!(diffs.len(), 1);
    assert_eq!(diffs[0].change_type, "modified");
    assert_eq!(diffs[0].pk_value, "1");
    assert_eq!(diffs[0].changed_columns, vec!["name"]);
    assert_eq!(diffs[0].old_values.as_ref().unwrap().get("name").unwrap(), "Alice");
    assert_eq!(diffs[0].new_values.as_ref().unwrap().get("name").unwrap(), "Alicia");
}

#[test]
fn column_missing_on_new_side_counts_as_changed() {
    let old_rows = vec![create_row(&[("id", "1"), ("a", "x")])];
    let new_rows = vec![create_row(&[("id", "1")])];
    let diffs = calculate_all_diffs(&old_rows, &new_rows, "id");
    assert_eq!(diffs.len(), 1);
    assert_eq!(diffs[0].change_type, "modified");
    assert_eq!(diffs[0].pk_value, "1");
    assert_eq!(diffs[0].changed_columns, vec!["a"]);
}

#[test]
fn changed_columns_are_the_symmetric_set() {
    let old_rows = vec![create_row(&[("id", "1"), ("gone", "g"), ("same", "s"), ("v", "1")])];
    let new_rows = vec![create_row(&[("id", "1"), ("same", "s"), ("v", "2"), ("fresh", "f")])];
    let diffs = calculate_all_diffs(&old_rows, &new_rows, "id");
    assert_eq!(diffs.len(), 1);
    assert_eq!(diffs[0].changed_columns, vec!["v", "fresh", "gone"]);
}
