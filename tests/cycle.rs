use tabletrace::cycle::{
    build_change_event, calculate_table_diffs, changed_tables, create_change_event, extract_table_and_column,
    full_table_name, ChangeKinds, CycleResult, Session, SnapshotStore,
};
use tabletrace::diff::RowDiff;
use tabletrace::row::Row;
use tabletrace::stats::{StatsSnapshot, TableStats};

fn row(data: &[(&str, &str)]) -> Row {
    let mut r = Row::new();
    for (k, v) in data {
        r.insert(k.to_string(), v.to_string());
    }
    r
}

fn stats(ins: i64, upd: i64, del: i64) -> TableStats {
    TableStats { n_tup_ins: ins, n_tup_upd: upd, n_tup_del: del }
}

#[test]
fn table_diffs_are_tagged_and_stored() {
    let mut store = SnapshotStore::new();
    let key = "public.users".to_string();
    store.insert(key.clone(), vec![row(&[("id", "1"), ("name", "Alice")])]);
    let new_rows = vec![row(&[("id", "1"), ("name", "Alicia")])];
    let diffs = calculate_table_diffs(&key, new_rows, None, &mut store);
    assert_eq!(diffs.len(), 1);
    assert_eq!(diffs[0].pk_column, "public.users.id");
    assert_eq!(diffs[0].change_type, "modified");
    let stored = store.get(&key).unwrap();
    assert_eq!(stored.len(), 1);
    assert_eq!(stored[0].get("name").unwrap(), "Alicia");
}

#[test]
fn table_diffs_without_snapshot_are_all_added() {
    let mut store = SnapshotStore::new();
    let key = "public.items".to_string();
    let new_rows = vec![row(&[("sku", "a1")]), row(&[("sku", "b2")])];
    let diffs = calculate_table_diffs(&key, new_rows, Some("sku".to_string()), &mut store);
    assert_eq!(diffs.len(), 2);
    assert!(diffs.iter().all(|d| d.change_type == "added" && d.pk_column == "public.items.sku"));
    assert_eq!(store.get(&key).unwrap().len(), 2);
}

#[test]
fn changed_tables_need_a_baseline_and_a_rise() {
    let mut prev = StatsSnapshot::new();
    prev.insert("public".to_string(), "a".to_string(), stats(1, 1, 1));
    prev.insert("public".to_string(), "b".to_string(), stats(1, 1, 1));
    let mut now = StatsSnapshot::new();
    now.insert("public".to_string(), "a".to_string(), stats(1, 1, 1));
    now.insert("public".to_string(), "b".to_string(), stats(3, 1, 2));
    now.insert("public".to_string(), "c".to_string(), stats(5, 5, 5));
    let acts = changed_tables(&now, &prev);
    assert_eq!(acts.len(), 1);
    assert_eq!(acts[0].full_key, "public.b");
    assert_eq!(acts[0].detected, vec![("INSERT", 2), ("DELETE", 1)]);
}

fn diff(key: &str) -> RowDiff {
    RowDiff {
        pk_column: "t.id".to_string(),
        pk_value: key.to_string(),
        change_type: "added".to_string(),
        old_values: None,
        new_values: None,
        changed_columns: vec![],
    }
}

#[test]
fn cycle_result_accumulates() {
    let mut result = CycleResult::new();
    result.record_table("public.a".to_string(), &vec![("INSERT", 2), ("UPDATE", 1)], vec![diff("1")]);
    result.record_table("public.b".to_string(), &vec![("DELETE", 4)], vec![diff("2"), diff("3")]);
    result.record_table("public.a".to_string(), &vec![("INSERT", 1)], vec![]);
    assert_eq!(result.diffs.len(), 3);
    assert_eq!(result.tables, vec!["public.a", "public.b"]);
    assert_eq!(result.total_rows, 8);
    assert_eq!(result.change_types, ChangeKinds { insert: true, update: true, delete: true });
    assert_eq!(result.change_types.label(), "DELETE+INSERT+UPDATE");
}

#[test]
fn cycle_total_is_held_at_the_largest_value() {
    let mut result = CycleResult::new();
    result.record_table("t".to_string(), &vec![("INSERT", i64::MAX), ("UPDATE", 5)], vec![]);
    assert_eq!(result.total_rows, i64::MAX);
}

#[test]
fn event_labels() {
    let one = vec!["public.users".to_string()];
    let kinds = ChangeKinds { insert: true, update: false, delete: true };
    let e = build_change_event(4, &one, &kinds, 6, "10:11:12".to_string());
    assert_eq!(e.id, 4);
    assert_eq!(e.table, "public.users");
    assert_eq!(e.change_type, "DELETE+INSERT");
    assert_eq!(e.row_count, 6);
    assert_eq!(e.timestamp, "10:11:12");
    assert_eq!(e.schema, "");
    let many: Vec<String> = (0..12).map(|i| format!("public.t{}", i)).collect();
    let e = build_change_event(1, &many, &ChangeKinds { insert: false, update: true, delete: false }, 1, String::new());
    assert_eq!(e.table, "12 tables");
    assert_eq!(e.change_type, "UPDATE");
}

#[test]
fn event_is_stamped_with_clock_time() {
    let one = vec!["public.users".to_string()];
    let e = create_change_event(1, &one, &ChangeKinds::new(), 0);
    let t: Vec<char> = e.timestamp.chars().collect();
    assert_eq!(t.len(), 8);
    assert_eq!(t[2], ':');
    assert_eq!(t[5], ':');
    assert!(t.iter().enumerate().all(|(i, c)| i == 2 || i == 5 || c.is_ascii_digit()));
}

#[test]
fn session_publishes_only_cycles_with_diffs() {
    let mut session = Session::new();
    assert!(!session.publish(CycleResult::new()));
    assert_eq!(session.change_count, 0);
    assert!(session.history.is_empty());
    let mut result = CycleResult::new();
    result.record_table("public.a".to_string(), &vec![("INSERT", 1)], vec![diff("1")]);
    assert!(session.publish(result));
    assert_eq!(session.change_count, 1);
    assert_eq!(session.history.len(), 1);
    assert_eq!(session.history[0].change.id, 1);
    assert_eq!(session.history[0].change.change_type, "INSERT");
    assert_eq!(session.history[0].change.table, "public.a");
    session.clear_history();
    assert_eq!(session.change_count, 0);
    assert!(session.history.is_empty());
}

#[test]
fn session_reset_clears_everything() {
    let mut session = Session::new();
    session.snapshots.insert("public.a".to_string(), vec![row(&[("id", "1")])]);
    let mut result = CycleResult::new();
    result.record_table("public.a".to_string(), &vec![("UPDATE", 1)], vec![diff("1")]);
    session.publish(result);
    session.reset();
    assert_eq!(session.change_count, 0);
    assert!(session.history.is_empty());
    assert!(session.snapshots.get(&"public.a".to_string()).is_none());
}

#[test]
fn table_and_column_split() {
    assert_eq!(extract_table_and_column("public.users.id"), ("public.users".to_string(), "id".to_string()));
    assert_eq!(extract_table_and_column("id"), (String::new(), "id".to_string()));
    assert_eq!(full_table_name(&"sales".to_string(), &"items".to_string()), "sales.items");
}
