use tabletrace::history::{add_to_history, find_change, ChangeRecord, TableChange, MAX_HISTORY_SIZE};

fn change(id: usize) -> TableChange {
    TableChange {
        id,
        timestamp: "12:00:00".to_string(),
        table: "public.users".to_string(),
        schema: String::new(),
        change_type: "INSERT".to_string(),
        row_count: 1,
    }
}

#[test]
fn history_evicts_oldest_first() {
    let mut history: Vec<ChangeRecord> = Vec::new();
    for id in 1..=(MAX_HISTORY_SIZE + 5) {
        add_to_history(&mut history, change(id), Vec::new());
        assert!(history.len() <= MAX_HISTORY_SIZE);
    }
    assert_eq!(MAX_HISTORY_SIZE, 100);
    assert_eq!(history.len(), 100);
    let ids: Vec<usize> = history.iter().map(|r| r.change.id).collect();
    let expected: Vec<usize> = (6..=105).collect();
    assert_eq!(ids, expected);
}

#[test]
fn history_below_bound_keeps_everything() {
    let mut history: Vec<ChangeRecord> = Vec::new();
    add_to_history(&mut history, change(1), Vec::new());
    add_to_history(&mut history, change(2), Vec::new());
    assert_eq!(history.len(), 2);
    assert_eq!(history[0].change.id, 1);
    assert_eq!(history[1].change.id, 2);
}

#[test]
fn find_change_by_id() {
    let mut history: Vec<ChangeRecord> = Vec::new();
    for id in [3, 4, 7] {
        add_to_history(&mut history, change(id), Vec::new());
    }
    assert_eq!(find_change(&history, 4), Some(1));
    assert_eq!(find_change(&history, 5), None);
}
