use tabletrace::config::{resolve_password, Commands, ConnectionConfig, TableTraceError, WatchConfig};
use tabletrace::text::decimal_string;

#[test]
fn connection_string_lists_all_fields() {
    let c = ConnectionConfig::new(
        "db.local".to_string(),
        6543,
        "shop".to_string(),
        "alice".to_string(),
        "pw".to_string(),
    );
    assert_eq!(c.to_connection_string(), "host=db.local port=6543 user=alice password=pw dbname=shop");
}

#[test]
fn presets() {
    let s = ConnectionConfig::from_preset("supabase").ok().unwrap();
    assert_eq!((s.host.as_str(), s.port, s.database.as_str(), s.user.as_str()), ("localhost", 54322, "postgres", "postgres"));
    let s = ConnectionConfig::from_preset("supabase-local").ok().unwrap();
    assert_eq!(s.port, 54322);
    let p = ConnectionConfig::from_preset("pg").ok().unwrap();
    assert_eq!(p.port, 5432);
    assert!(matches!(ConnectionConfig::from_preset("mysql"), Err(TableTraceError::UnknownPreset(ref n)) if n == "mysql"));
}

#[test]
fn connection_validation_order() {
    let mut c = ConnectionConfig::default();
    assert!(matches!(c.validate(), Err(TableTraceError::DatabaseRequired)));
    c.host = String::new();
    assert!(matches!(c.validate(), Err(TableTraceError::ConfigError(ref m)) if m == "Host cannot be empty"));
    c.host = "h".to_string();
    c.database = "d".to_string();
    c.user = String::new();
    assert!(matches!(c.validate(), Err(TableTraceError::ConfigError(ref m)) if m == "User cannot be empty"));
    c.user = "u".to_string();
    assert!(c.validate().is_ok());
}

#[test]
fn watch_config_builders_and_validation() {
    let d = WatchConfig::default();
    assert_eq!(d.schema, "public");
    assert_eq!(d.interval, 1000);
    assert!(d.interactive);
    let c = ConnectionConfig::from_preset("postgres").ok().unwrap();
    let w = WatchConfig::new(c, "all".to_string()).with_interval(0).with_interactive(false);
    assert!(!w.interactive);
    assert!(matches!(w.validate(), Err(TableTraceError::ConfigError(ref m)) if m == "Polling interval must be greater than 0"));
    let w = w.with_interval(250);
    assert!(w.validate().is_ok());
}

fn watch(preset: Option<&str>, database: Option<&str>, password: Option<&str>) -> Commands {
    Commands::Watch {
        preset: preset.map(|s| s.to_string()),
        host: "localhost".to_string(),
        port: 5432,
        database: database.map(|s| s.to_string()),
        user: "postgres".to_string(),
        password: password.map(|s| s.to_string()),
        schema: "public".to_string(),
        interval: 500,
        interactive: false,
    }
}

#[test]
fn command_to_watch_config() {
    assert!(matches!(watch(None, None, None).into_watch_config(None), Err(TableTraceError::DatabaseRequired)));
    assert!(matches!(watch(Some("nope"), None, None).into_watch_config(None), Err(TableTraceError::UnknownPreset(_))));
    let c = watch(Some("supabase"), None, None).into_watch_config(None).ok().unwrap();
    assert_eq!(c.connection.port, 54322);
    assert_eq!(c.interval, 500);
    let c = watch(None, Some("shop"), None).into_watch_config(Some("fromenv".to_string())).ok().unwrap();
    assert_eq!(c.connection.password, "fromenv");
    assert_eq!(c.connection.database, "shop");
    let c = watch(None, Some("shop"), Some("given")).into_watch_config(Some("fromenv".to_string())).ok().unwrap();
    assert_eq!(c.connection.password, "given");
    assert!(watch(None, Some(""), None).into_watch_config(None).is_err());
}

#[test]
fn password_resolution() {
    assert_eq!(resolve_password(None, None), "");
    assert_eq!(resolve_password(None, Some("e".to_string())), "e");
    assert_eq!(resolve_password(Some("p".to_string()), Some("e".to_string())), "p");
}

#[test]
fn decimal_numerals() {
    assert_eq!(decimal_string(0), "0");
    assert_eq!(decimal_string(7), "7");
    assert_eq!(decimal_string(54322), "54322");
    assert_eq!(decimal_string(usize::MAX), usize::MAX.to_string());
}

#[test]
fn zero_interval_is_a_config_error() {
    let mut cmd = watch(Some("pg"), None, None);
    if let Commands::Watch { interval, .. } = &mut cmd {
        *interval = 0;
    }
    assert!(matches!(cmd.into_watch_config(None),
        Err(TableTraceError::ConfigError(ref m)) if m == "Polling interval must be greater than 0"));
    let mut cmd = watch(None, Some("shop"), None);
    if let Commands::Watch { interval, .. } = &mut cmd {
        *interval = 0;
    }
    assert!(matches!(cmd.into_watch_config(None),
        Err(TableTraceError::ConfigError(ref m)) if m == "Polling interval must be greater than 0"));
}

#[test]
fn watch_validation_passes_connection_errors_through() {
    let w = WatchConfig::default();
    assert!(matches!(w.validate(), Err(TableTraceError::DatabaseRequired)));
    let mut w = WatchConfig::default().with_interval(0);
    w.connection.host = String::new();
    assert!(matches!(w.validate(), Err(TableTraceError::ConfigError(ref m)) if m == "Host cannot be empty"));
}
