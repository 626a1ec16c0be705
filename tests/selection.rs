use tabletrace::selection::{
    parse_command, parse_selection_input, rejected_selection_numbers, select_tables, unique_tables, Command,
};

#[test]
fn test_parse_single_numbers() {
    assert_eq!(parse_selection_input("1", 5), vec![0]);
    assert_eq!(parse_selection_input("1,3", 5), vec![0, 2]);
    assert_eq!(parse_selection_input("1, 3, 5", 5), vec![0, 2, 4]);
}

#[test]
fn test_parse_range() {
    assert_eq!(parse_selection_input("1-3", 5), vec![0, 1, 2]);
    assert_eq!(parse_selection_input("2-4", 5), vec![1, 2, 3]);
}

#[test]
fn test_parse_mixed() {
    assert_eq!(parse_selection_input("1,3-5", 5), vec![0, 2, 3, 4]);
    assert_eq!(parse_selection_input("1-2,4", 5), vec![0, 1, 3]);
}

#[test]
fn test_parse_out_of_bounds() {
    assert_eq!(parse_selection_input("1,10", 5), vec![0]);
    assert_eq!(parse_selection_input("0,1", 5), vec![0]);
}

#[test]
fn test_parse_duplicates() {
    assert_eq!(parse_selection_input("1,1,2", 5), vec![0, 1]);
}

#[test]
fn selection_examples() {
    assert_eq!(parse_selection_input("1,3,5", 5), vec![0, 2, 4]);
    assert_eq!(parse_selection_input("1,4-6,9", 6), vec![0, 3, 4, 5]);
    assert_eq!(parse_selection_input("2-4,3,1-2", 5), vec![1, 2, 3, 0]);
}

#[test]
fn selection_ranges_are_clamped() {
    assert_eq!(parse_selection_input("0-2", 5), vec![0, 1]);
    assert_eq!(parse_selection_input("4-99", 5), vec![3, 4]);
    assert_eq!(parse_selection_input("4-2", 5), Vec::<usize>::new());
    assert_eq!(parse_selection_input(" 2 - 3 ", 5), vec![1, 2]);
}

#[test]
fn selection_skips_malformed_parts() {
    assert_eq!(parse_selection_input("x,2,1-2-3,-1,,+3", 5), vec![1, 2]);
    assert_eq!(parse_selection_input("99999999999999999999999,1", 5), vec![0]);
    assert_eq!(parse_selection_input("", 5), Vec::<usize>::new());
}

#[test]
fn rejected_numbers_are_reported() {
    assert_eq!(rejected_selection_numbers("0,1,10,2-9", 5), vec![0, 10]);
    assert_eq!(rejected_selection_numbers("1,2", 5), Vec::<usize>::new());
}

#[test]
fn commands_are_recognized() {
    assert!(matches!(parse_command("  "), Command::Empty));
    assert!(matches!(parse_command("q"), Command::Quit));
    assert!(matches!(parse_command(" exit\n"), Command::Quit));
    assert!(matches!(parse_command("help"), Command::Help));
    assert!(matches!(parse_command("l"), Command::List));
    assert!(matches!(parse_command("clear"), Command::Clear));
    assert!(matches!(parse_command("reselect"), Command::Reselect));
    assert!(matches!(parse_command("w"), Command::Watching));
    assert!(matches!(parse_command(" 12 "), Command::Detail(12)));
    assert!(matches!(parse_command("Quit"), Command::Unknown(ref s) if s == "Quit"));
    assert!(matches!(parse_command(" what? "), Command::Unknown(ref s) if s == "what?"));
}

fn tables() -> Vec<(String, String)> {
    vec![
        ("public".to_string(), "users".to_string()),
        ("public".to_string(), "orders".to_string()),
        ("sales".to_string(), "items".to_string()),
    ]
}

#[test]
fn table_selection_by_numbers() {
    let picked = select_tables("3,1", &tables()).unwrap();
    assert_eq!(
        picked,
        vec![
            ("sales".to_string(), "items".to_string()),
            ("public".to_string(), "users".to_string()),
        ]
    );
}

#[test]
fn table_selection_all_and_cancel() {
    assert_eq!(select_tables(" ALL ", &tables()).unwrap(), tables());
    assert_eq!(select_tables("all", &tables()).unwrap(), tables());
    assert!(select_tables("   ", &tables()).is_none());
    assert_eq!(select_tables("7", &tables()).unwrap(), Vec::<(String, String)>::new());
}

#[test]
fn repeated_tables_are_kept_once() {
    let mut list = tables();
    list.push(("public".to_string(), "users".to_string()));
    list.insert(1, ("sales".to_string(), "items".to_string()));
    assert_eq!(
        unique_tables(list),
        vec![
            ("public".to_string(), "users".to_string()),
            ("sales".to_string(), "items".to_string()),
            ("public".to_string(), "orders".to_string()),
        ]
    );
}
