//! Connection and watch configuration, presets, and their checks.

use vstd::prelude::*;
use vstd::string::StrSliceExecFns;
use vstd::string::StringExecFns;

use crate::text::{decimal, decimal_string};

verus! {

/// Default polling interval, in milliseconds.
pub const POLLING_INTERVAL_MS: u64 = 1000;

/// Default database port.
pub const DEFAULT_PORT: u16 = 5432;

/// Port of a local Supabase database.
pub const SUPABASE_PORT: u16 = 54322;

/// An error of configuration.
#[derive(Debug)]
pub enum TableTraceError {
    /// A setting is invalid; the message says which.
    ConfigError(String),
    /// The named preset does not exist.
    UnknownPreset(String),
    /// No database name was given.
    DatabaseRequired,
}

impl TableTraceError {
    /// A configuration error with message `msg`.
    pub fn config(msg: &str) -> (r: TableTraceError)
        ensures
            r matches TableTraceError::ConfigError(m) && m@ == msg@,
    {
        TableTraceError::ConfigError(String::from_str(msg))
    }
}

/// Where and as whom to connect.
#[derive(Clone)]
pub struct ConnectionConfig {
    pub host: String,
    pub port: u16,
    pub database: String,
    pub user: String,
    pub password: String,
}

/// The connection string of a configuration.
pub open spec fn connection_string(host: Seq<char>, port: u16, user: Seq<char>, password: Seq<char>, database: Seq<char>) -> Seq<char> {
    "host="@ + host + " port="@ + decimal(port as nat) + " user="@ + user + " password="@ + password
        + " dbname="@ + database
}

/// Holds the values of a preset connection.
pub open spec fn is_preset(c: ConnectionConfig, port: u16, user: Seq<char>) -> bool {
    c.host@ == "localhost"@ && c.port == port && c.database@ == "postgres"@ && c.user@ == user
        && c.password@ == "postgres"@
}

impl ConnectionConfig {
    /// A configuration of the given values.
    pub fn new(host: String, port: u16, database: String, user: String, password: String) -> (r: ConnectionConfig)
        ensures
            r.host == host && r.port == port && r.database == database && r.user == user && r.password
                == password,
    {
        ConnectionConfig { host, port, database, user, password }
    }

    /// `host=.. port=.. user=.. password=.. dbname=..`
    pub fn to_connection_string(&self) -> (r: String)
        ensures
            r@ == connection_string(self.host@, self.port, self.user@, self.password@, self.database@),
    {
        let mut s = String::from_str("host=");
        s.append(self.host.as_str());
        s.append(" port=");
        let port = decimal_string(self.port as usize);
        s.append(port.as_str());
        s.append(" user=");
        s.append(self.user.as_str());
        s.append(" password=");
        s.append(self.password.as_str());
        s.append(" dbname=");
        s.append(self.database.as_str());
        s
    }

    /// The configuration of a named preset: `supabase` (or `supabase-local`)
    /// for a local Supabase database, `postgres` (or `pg`) for a local
    /// default server.
    pub fn from_preset(preset: &str) -> (r: Result<ConnectionConfig, TableTraceError>)
        ensures
            (preset@ == "supabase"@ || preset@ == "supabase-local"@) ==> (r matches Ok(c) && is_preset(
                c,
                SUPABASE_PORT,
                "postgres"@,
            )),
            (preset@ == "postgres"@ || preset@ == "pg"@) ==> (r matches Ok(c) && is_preset(c, DEFAULT_PORT, "postgres"@)),
            !(preset@ == "supabase"@ || preset@ == "supabase-local"@ || preset@ == "postgres"@ || preset@
                == "pg"@) ==> (r matches Err(TableTraceError::UnknownPreset(p)) && p@ == preset@),
    {
        proof {
            lemma_presets_distinct();
        }
        let p = String::from_str(preset);
        if p == String::from_str("supabase") || p == String::from_str("supabase-local") {
            Ok(ConnectionConfig {
                host: String::from_str("localhost"),
                port: SUPABASE_PORT,
                database: String::from_str("postgres"),
                user: String::from_str("postgres"),
                password: String::from_str("postgres"),
            })
        } else if p == String::from_str("postgres") || p == String::from_str("pg") {
            let c = ConnectionConfig {
                host: String::from_str("localhost"),
                port: DEFAULT_PORT,
                database: String::from_str("postgres"),
                user: String::from_str("postgres"),
                password: String::from_str("postgres"),
            };
            Ok(c)
        } else {
            Err(TableTraceError::UnknownPreset(p))
        }
    }

    /// Checks that host, database and user are given, in that order.
    pub fn validate(&self) -> (r: Result<(), TableTraceError>)
        ensures
            self.host@.len() == 0 ==> (r matches Err(TableTraceError::ConfigError(m)) && m@
                == "Host cannot be empty"@),
            self.host@.len() > 0 && self.database@.len() == 0 ==> (r matches Err(
                TableTraceError::DatabaseRequired,
            )),
            self.host@.len() > 0 && self.database@.len() > 0 && self.user@.len() == 0 ==> (r matches Err(
                TableTraceError::ConfigError(m),
            ) && m@ == "User cannot be empty"@),
            r is Ok <==> (self.host@.len() > 0 && self.database@.len() > 0 && self.user@.len() > 0),
    {
        if self.host.as_str().unicode_len() == 0 {
            return Err(TableTraceError::config("Host cannot be empty"));
        }
        if self.database.as_str().unicode_len() == 0 {
            return Err(TableTraceError::DatabaseRequired);
        }
        if self.user.as_str().unicode_len() == 0 {
            return Err(TableTraceError::config("User cannot be empty"));
        }
        Ok(())
    }
}

impl Default for ConnectionConfig {
    fn default() -> (r: ConnectionConfig)
        ensures
            r.host@ == "localhost"@ && r.port == DEFAULT_PORT && r.database@.len() == 0 && r.user@
                == "postgres"@ && r.password@.len() == 0,
    {
        ConnectionConfig {
            host: String::from_str("localhost"),
            port: DEFAULT_PORT,
            database: String::new(),
            user: String::from_str("postgres"),
            password: String::new(),
        }
    }
}

/// What to watch and how.
#[derive(Clone)]
pub struct WatchConfig {
    pub connection: ConnectionConfig,
    pub schema: String,
    pub interval: u64,
    pub interactive: bool,
}

impl WatchConfig {
    /// Watches `schema` over `connection`, interactively, at the default interval.
    pub fn new(connection: ConnectionConfig, schema: String) -> (r: WatchConfig)
        ensures
            r.connection == connection && r.schema == schema && r.interval == POLLING_INTERVAL_MS
                && r.interactive,
    {
        WatchConfig { connection, schema, interval: POLLING_INTERVAL_MS, interactive: true }
    }

    /// Sets the polling interval.
    pub fn with_interval(self, interval: u64) -> (r: WatchConfig)
        ensures
            r == (WatchConfig { interval, ..self }),
    {
        let mut c = self;
        c.interval = interval;
        c
    }

    /// Sets interactive mode.
    pub fn with_interactive(self, interactive: bool) -> (r: WatchConfig)
        ensures
            r == (WatchConfig { interactive, ..self }),
    {
        let mut c = self;
        c.interactive = interactive;
        c
    }

    /// Checks the connection, then that the interval is positive.
    pub fn validate(&self) -> (r: Result<(), TableTraceError>)
        ensures
            self.connection.host@.len() == 0 ==> (r matches Err(TableTraceError::ConfigError(m)) && m@
                == "Host cannot be empty"@),
            self.connection.host@.len() > 0 && self.connection.database@.len() == 0 ==> (r matches Err(
                TableTraceError::DatabaseRequired,
            )),
            self.connection.host@.len() > 0 && self.connection.database@.len() > 0
                && self.connection.user@.len() == 0 ==> (r matches Err(TableTraceError::ConfigError(m))
                && m@ == "User cannot be empty"@),
            (self.connection.host@.len() > 0 && self.connection.database@.len() > 0
                && self.connection.user@.len() > 0 && self.interval == 0) ==> (r matches Err(
                TableTraceError::ConfigError(m),
            ) && m@ == "Polling interval must be greater than 0"@),
            r is Ok <==> (self.connection.host@.len() > 0 && self.connection.database@.len() > 0
                && self.connection.user@.len() > 0 && self.interval > 0),
    {
        match self.connection.validate() {
            Err(e) => {
                return Err(e);
            },
            Ok(()) => {},
        }
        if self.interval == 0 {
            return Err(TableTraceError::config("Polling interval must be greater than 0"));
        }
        Ok(())
    }
}

impl Default for WatchConfig {
    fn default() -> (r: WatchConfig)
        ensures
            r.connection.host@ == "localhost"@ && r.connection.port == DEFAULT_PORT
                && r.connection.database@.len() == 0 && r.connection.user@ == "postgres"@
                && r.connection.password@.len() == 0 && r.schema@ == "public"@ && r.interval
                == POLLING_INTERVAL_MS && r.interactive,
    {
        WatchConfig {
            connection: ConnectionConfig::default(),
            schema: String::from_str("public"),
            interval: POLLING_INTERVAL_MS,
            interactive: true,
        }
    }
}

/// The command line.
pub struct Cli {
    pub command: Commands,
}

/// The subcommands of the command line.
pub enum Commands {
    /// Watch tables for changes.
    Watch {
        preset: Option<String>,
        host: String,
        port: u16,
        database: Option<String>,
        user: String,
        password: Option<String>,
        schema: String,
        interval: u64,
        interactive: bool,
    },
}

proof fn lemma_presets_distinct()
    ensures
        "supabase"@ != "supabase-local"@,
        "supabase"@ != "postgres"@,
        "supabase"@ != "pg"@,
        "supabase-local"@ != "postgres"@,
        "supabase-local"@ != "pg"@,
        "postgres"@ != "pg"@,
        "localhost"@.len() > 0,
        "postgres"@.len() > 0,
{
    reveal_strlit("localhost");
    reveal_strlit("supabase");
    reveal_strlit("supabase-local");
    reveal_strlit("postgres");
    reveal_strlit("pg");
    assert("postgres"@[0] != "supabase"@[0]);
    assert("supabase-local"@.len() == 14);
    assert("supabase"@.len() == 8);
    assert("pg"@.len() == 2);
}

/// The names of the presets.
pub open spec fn known_preset(p: Seq<char>) -> bool {
    p == "supabase"@ || p == "supabase-local"@ || p == "postgres"@ || p == "pg"@
}

/// The port of a preset.
pub open spec fn preset_port(p: Seq<char>) -> u16 {
    if p == "supabase"@ || p == "supabase-local"@ {
        SUPABASE_PORT
    } else {
        DEFAULT_PORT
    }
}

/// The password given on the command line, else the one from the
/// environment, else none.
pub fn resolve_password(password: Option<String>, from_env: Option<String>) -> (r: String)
    ensures
        r@ == match password {
            Some(p) => p@,
            None => match from_env {
                Some(e) => e@,
                None => Seq::empty(),
            },
        },
{
    match password {
        Some(p) => p,
        None => match from_env {
            Some(e) => e,
            None => String::new(),
        },
    }
}

impl Commands {
    /// The watch configuration that the command asks for: a preset's
    /// connection where one is named, else the given connection values, which
    /// then need a database name. `env_password` is the password that the
    /// environment offers where none was given. The result is validated.
    pub fn into_watch_config(self, env_password: Option<String>) -> (r: Result<WatchConfig, TableTraceError>)
        ensures
            match self {
                Commands::Watch { preset, host, port, database, user, password, schema, interval, interactive } => {
                    &&& (preset is None && database is None) ==> (r matches Err(TableTraceError::DatabaseRequired))
                    &&& (preset is Some && !known_preset(preset->0@))
                        ==> (r matches Err(TableTraceError::UnknownPreset(q)) && q@ == preset->0@)
                    &&& (preset is None && database is Some) ==> (
                        (database->0@.len() > 0 && host@.len() > 0 && user@.len() > 0 && interval > 0) <==> r is Ok)
                    &&& (preset is Some && known_preset(preset->0@)) ==> (interval > 0 <==> r is Ok)
                    &&& (preset is Some && known_preset(preset->0@) && interval == 0) ==> (r matches Err(
                        TableTraceError::ConfigError(m)) && m@ == "Polling interval must be greater than 0"@)
                    &&& (preset is None && database is Some && host@.len() == 0) ==> (r matches Err(
                        TableTraceError::ConfigError(m)) && m@ == "Host cannot be empty"@)
                    &&& (preset is None && database is Some && host@.len() > 0 && database->0@.len() == 0)
                        ==> (r matches Err(TableTraceError::DatabaseRequired))
                    &&& (preset is None && database is Some && host@.len() > 0 && database->0@.len() > 0
                        && user@.len() == 0) ==> (r matches Err(TableTraceError::ConfigError(m)) && m@
                        == "User cannot be empty"@)
                    &&& (preset is None && database is Some && host@.len() > 0 && database->0@.len() > 0
                        && user@.len() > 0 && interval == 0) ==> (r matches Err(TableTraceError::ConfigError(m))
                        && m@ == "Polling interval must be greater than 0"@)
                    &&& r matches Ok(c) ==> {
                        &&& c.schema == schema
                        &&& c.interval == interval
                        &&& c.interactive == interactive
                        &&& preset is Some ==> is_preset(c.connection, preset_port(preset->0@), "postgres"@)
                        &&& preset is None ==> {
                            &&& c.connection.host == host
                            &&& c.connection.port == port
                            &&& database matches Some(d) && c.connection.database == d
                            &&& c.connection.user == user
                            &&& c.connection.password@ == match password {
                                Some(p) => p@,
                                None => match env_password {
                                    Some(e) => e@,
                                    None => Seq::empty(),
                                },
                            }
                        }
                    }
                },
            },
    {
        proof {
            lemma_presets_distinct();
        }
        match self {
            Commands::Watch { preset, host, port, database, user, password, schema, interval, interactive } => {
                let connection = match preset {
                    Some(p) => match ConnectionConfig::from_preset(p.as_str()) {
                        Ok(c) => c,
                        Err(e) => {
                            return Err(e);
                        },
                    },
                    None => match database {
                        Some(db) => {
                            let pass = resolve_password(password, env_password);
                            ConnectionConfig::new(host, port, db, user, pass)
                        },
                        None => {
                            return Err(TableTraceError::DatabaseRequired);
                        },
                    },
                };
                let config = WatchConfig::new(connection, schema).with_interval(interval).with_interactive(
                    interactive,
                );
                match config.validate() {
                    Ok(()) => Ok(config),
                    Err(e) => Err(e),
                }
            },
        }
    }
}

} // verus!
