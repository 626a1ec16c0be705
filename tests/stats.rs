use tabletrace::stats::{detect_changes, has_stats_changes, DebounceStep, Debouncer, StatsSnapshot, TableStats, DEBOUNCE_MAX_ITERATIONS};

fn stats(ins: i64, upd: i64, del: i64) -> TableStats {
    TableStats { n_tup_ins: ins, n_tup_upd: upd, n_tup_del: del }
}

fn snapshot(entries: &[(&str, &str, TableStats)]) -> StatsSnapshot {
    let mut s = StatsSnapshot::new();
    for (schema, table, st) in entries {
        s.insert(schema.to_string(), table.to_string(), *st);
    }
    s
}

#[test]
fn detect_reports_positive_deltas_in_order() {
    assert_eq!(
        detect_changes(&stats(10, 5, 3), &stats(7, 5, 1)),
        vec![("INSERT", 3), ("DELETE", 2)]
    );
    assert_eq!(detect_changes(&stats(1, 2, 3), &stats(1, 2, 3)), Vec::<(&str, i64)>::new());
    assert_eq!(detect_changes(&stats(1, 9, 3), &stats(2, 2, 3)), vec![("UPDATE", 7)]);
}

#[test]
fn changes_need_a_previous_entry() {
    let prev = snapshot(&[("public", "a", stats(1, 1, 1))]);
    let same = snapshot(&[("public", "a", stats(1, 1, 1)), ("public", "b", stats(9, 9, 9))]);
    let more = snapshot(&[("public", "a", stats(1, 2, 1))]);
    let lower = snapshot(&[("public", "a", stats(0, 0, 0))]);
    assert!(!has_stats_changes(&same, &prev));
    assert!(has_stats_changes(&more, &prev));
    assert!(!has_stats_changes(&lower, &prev));
    assert!(!has_stats_changes(&prev, &StatsSnapshot::new()));
}

#[test]
fn snapshot_insert_replaces() {
    let mut s = snapshot(&[("public", "a", stats(1, 1, 1))]);
    s.insert("public".to_string(), "a".to_string(), stats(2, 2, 2));
    assert_eq!(s.len(), 1);
    assert_eq!(s.get(&"public".to_string(), &"a".to_string()), Some(stats(2, 2, 2)));
    assert_eq!(s.get(&"public".to_string(), &"b".to_string()), None);
}

fn run(first: StatsSnapshot, polls: Vec<StatsSnapshot>) -> (usize, StatsSnapshot) {
    let mut d = Debouncer::new(first);
    let mut fetches = 0;
    let mut polls = polls.into_iter();
    loop {
        let next = polls.next();
        fetches += 1;
        match d.step(next) {
            DebounceStep::Poll(n) => d = n,
            DebounceStep::Settled(s) => return (fetches, s),
        }
    }
}

#[test]
fn debounce_settles_after_k_repolls() {
    let first = snapshot(&[("public", "a", stats(1, 0, 0))]);
    let polls = vec![
        snapshot(&[("public", "a", stats(2, 0, 0))]),
        snapshot(&[("public", "a", stats(3, 0, 0))]),
        snapshot(&[("public", "a", stats(3, 0, 0))]),
        snapshot(&[("public", "a", stats(4, 0, 0))]),
    ];
    let (n, settled) = run(first, polls);
    assert_eq!(n, 3);
    assert_eq!(settled.get(&"public".to_string(), &"a".to_string()), Some(stats(3, 0, 0)));
}

#[test]
fn debounce_stops_at_budget() {
    let first = snapshot(&[("public", "a", stats(0, 0, 0))]);
    let polls: Vec<StatsSnapshot> = (1..=10).map(|i| snapshot(&[("public", "a", stats(i, 0, 0))])).collect();
    let (n, settled) = run(first, polls);
    assert_eq!(n, DEBOUNCE_MAX_ITERATIONS);
    assert_eq!(settled.get(&"public".to_string(), &"a".to_string()), Some(stats(5, 0, 0)));
}

#[test]
fn debounce_keeps_last_snapshot_on_failure() {
    let first = snapshot(&[("public", "a", stats(0, 0, 0))]);
    let d = Debouncer::new(first);
    let d = match d.step(Some(snapshot(&[("public", "a", stats(1, 0, 0))]))) {
        DebounceStep::Poll(d) => d,
        DebounceStep::Settled(_) => panic!("settled too early"),
    };
    match d.step(None) {
        DebounceStep::Settled(s) => {
            assert_eq!(s.get(&"public".to_string(), &"a".to_string()), Some(stats(1, 0, 0)))
        }
        DebounceStep::Poll(_) => panic!("kept polling after a failure"),
    }
}
