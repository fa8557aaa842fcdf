//! Connection configuration and the precedence rules that build it.
//!
//! Configuration is assembled from ordered [`ConnectionSource`] layers and
//! resolved once into a [`ConnectionConfig`], which exposes its values
//! through accessors and offers no way to change them afterwards. The layers
//! are consulted in this order: command line options, Docker Compose
//! discovery, `.dbctx.toml`, `.env`, the process environment, and last an
//! interactive prompt.
use vstd::prelude::*;

use crate::text::{
    chars_of, decimal, decimal_string, owned, push_char, push_str, string_from_chars, str_eq,
    trim, trim_chars,
};

verus! {

/// The host to connect to when no source names one: the loopback address
/// rather than `localhost`, which some MySQL clients resolve to a socket.
pub const DEFAULT_HOST: &'static str = "127.0.0.1";

/// The database driver to connect with.
///
/// These are the names the `--driver` option and the `DB_CONNECTION`
/// variable accept. They are not the engine names written into documents:
/// `sqlsrv` here is `sqlserver` in [`crate::model::Engine`].
#[derive(Debug, Clone, Copy, PartialEq, Eq, Structural)]
pub enum Driver {
    /// MySQL.
    Mysql,
    /// MariaDB.
    Mariadb,
    /// Microsoft SQL Server.
    Sqlsrv,
    /// PostgreSQL.
    Postgres,
    /// SQLite.
    Sqlite,
}

/// The name a driver is selected by.
pub open spec fn driver_name(d: Driver) -> Seq<char> {
    match d {
        Driver::Mysql => "mysql"@,
        Driver::Mariadb => "mariadb"@,
        Driver::Sqlsrv => "sqlsrv"@,
        Driver::Postgres => "postgres"@,
        Driver::Sqlite => "sqlite"@,
    }
}

/// The port a driver connects on when none was configured; SQLite has none.
pub open spec fn driver_default_port(d: Driver) -> u16 {
    match d {
        Driver::Mysql | Driver::Mariadb => 3306,
        Driver::Sqlsrv => 1433,
        Driver::Postgres => 5432,
        Driver::Sqlite => 0,
    }
}

/// The driver selected by `name`, if any.
pub open spec fn driver_named(name: Seq<char>) -> Option<Driver> {
    if name == "mysql"@ {
        Some(Driver::Mysql)
    } else if name == "mariadb"@ {
        Some(Driver::Mariadb)
    } else if name == "sqlsrv"@ {
        Some(Driver::Sqlsrv)
    } else if name == "postgres"@ {
        Some(Driver::Postgres)
    } else if name == "sqlite"@ {
        Some(Driver::Sqlite)
    } else {
        None
    }
}

/// Every driver is selected by the name it reports: reading a driver's
/// name back gives that driver.
pub proof fn law_driver_names_round_trip(d: Driver)
    ensures
        driver_named(driver_name(d)) == Some(d),
{
    reveal_strlit("mysql");
    reveal_strlit("mariadb");
    reveal_strlit("sqlsrv");
    reveal_strlit("postgres");
    reveal_strlit("sqlite");
    assert("mysql"@.len() == 5 && "mariadb"@.len() == 7 && "postgres"@.len() == 8);
    assert("sqlsrv"@.len() == 6 && "sqlite"@.len() == 6);
    assert("sqlsrv"@[3] != "sqlite"@[3]);
}

impl Driver {
    /// The port to connect on when none was configured.
    ///
    /// SQLite has no default port: resolution never needs one for it, since
    /// host and port are meaningless for a file.
    pub fn default_port(self) -> (r: u16)
        ensures
            r == driver_default_port(self),
    {
        match self {
            Driver::Mysql | Driver::Mariadb => 3306,
            Driver::Sqlsrv => 1433,
            Driver::Postgres => 5432,
            Driver::Sqlite => 0,
        }
    }

    /// The name this driver is selected by.
    pub fn as_str(self) -> (r: &'static str)
        ensures
            r@ == driver_name(self),
    {
        match self {
            Driver::Mysql => "mysql",
            Driver::Mariadb => "mariadb",
            Driver::Sqlsrv => "sqlsrv",
            Driver::Postgres => "postgres",
            Driver::Sqlite => "sqlite",
        }
    }

    /// Whether this driver connects to a file rather than a host and port.
    pub fn is_file_based(self) -> (r: bool)
        ensures
            r == (self == Driver::Sqlite),
    {
        match self {
            Driver::Sqlite => true,
            _ => false,
        }
    }

    /// The driver named `value`, or an error that names it.
    pub fn from_name(value: &str) -> (r: Result<Driver, ConfigError>)
        ensures
            match r {
                Ok(d) => driver_named(value@) == Some(d),
                Err(e) => driver_named(value@) is None && e@ == ConfigErrorSpec::UnknownDriver(
                    value@,
                ),
            },
    {
        if str_eq(value, "mysql") {
            Ok(Driver::Mysql)
        } else if str_eq(value, "mariadb") {
            Ok(Driver::Mariadb)
        } else if str_eq(value, "sqlsrv") {
            Ok(Driver::Sqlsrv)
        } else if str_eq(value, "postgres") {
            Ok(Driver::Postgres)
        } else if str_eq(value, "sqlite") {
            Ok(Driver::Sqlite)
        } else {
            Err(ConfigError::UnknownDriver { value: owned(value) })
        }
    }
}

impl std::str::FromStr for Driver {
    type Err = ConfigError;

    fn from_str(value: &str) -> (r: Result<Driver, ConfigError>)
        ensures
            match r {
                Ok(d) => driver_named(value@) == Some(d),
                Err(e) => driver_named(value@) is None && e@ == ConfigErrorSpec::UnknownDriver(
                    value@,
                ),
            },
    {
        Driver::from_name(value)
    }
}

/// A required setting that no configuration source supplied.
#[derive(Debug, Clone, Copy, PartialEq, Eq, Structural)]
pub enum MissingSetting {
    /// Which database to inspect.
    Database,
    /// Which engine to speak.
    Driver,
}

/// What the user is asked for a missing setting.
pub open spec fn prompt_of(m: MissingSetting) -> Seq<char> {
    match m {
        MissingSetting::Database => "Database"@,
        MissingSetting::Driver => "Driver (mysql, mariadb, sqlsrv, postgres or sqlite)"@,
    }
}

impl MissingSetting {
    /// What to ask the user for this setting.
    pub fn prompt(self) -> (r: &'static str)
        ensures
            r@ == prompt_of(self),
    {
        match self {
            MissingSetting::Database => "Database",
            MissingSetting::Driver => "Driver (mysql, mariadb, sqlsrv, postgres or sqlite)",
        }
    }
}

/// Why a configuration could not be resolved.
#[derive(Debug)]
pub enum ConfigError {
    /// No layer named a database.
    MissingDatabase,
    /// No source named an engine and nothing discovered one.
    UnknownEngine,
    /// A driver name nothing recognises.
    UnknownDriver {
        /// The name that was supplied.
        value: String,
    },
    /// A port that is not a number in range.
    InvalidPort {
        /// The value that was supplied.
        value: String,
    },
    /// More than one database was given to a driver other than SQLite.
    MultipleDatabasesRequireSqlite {
        /// The driver that was configured.
        driver: Driver,
        /// How many databases were given.
        count: usize,
    },
    /// An environment file that could not be read.
    EnvFile {
        /// The file that was being read.
        path: String,
        /// What went wrong.
        detail: String,
    },
    /// A project configuration file that could not be read.
    ConfigFileUnreadable {
        /// The file that was being read.
        path: String,
        /// What went wrong.
        detail: String,
    },
    /// A project configuration file that is not valid.
    ConfigFile {
        /// The file that was being read.
        path: String,
        /// What went wrong.
        detail: String,
    },
    /// A password written into the project configuration file.
    PasswordInConfigFile {
        /// The file that was being read.
        path: String,
        /// Where the key is.
        line: usize,
    },
    /// The prompt could not be read or written.
    Prompt {
        /// What went wrong.
        detail: String,
    },
}

pub enum ConfigErrorSpec {
    MissingDatabase,
    UnknownEngine,
    UnknownDriver(Seq<char>),
    InvalidPort(Seq<char>),
    MultipleDatabasesRequireSqlite(Driver, usize),
    EnvFile(Seq<char>, Seq<char>),
    ConfigFileUnreadable(Seq<char>, Seq<char>),
    ConfigFile(Seq<char>, Seq<char>),
    PasswordInConfigFile(Seq<char>, usize),
    Prompt(Seq<char>),
}

impl vstd::view::View for ConfigError {
    type V = ConfigErrorSpec;

    open spec fn view(&self) -> ConfigErrorSpec {
        match self {
            ConfigError::MissingDatabase => ConfigErrorSpec::MissingDatabase,
            ConfigError::UnknownEngine => ConfigErrorSpec::UnknownEngine,
            ConfigError::UnknownDriver { value } => ConfigErrorSpec::UnknownDriver(value@),
            ConfigError::InvalidPort { value } => ConfigErrorSpec::InvalidPort(value@),
            ConfigError::MultipleDatabasesRequireSqlite { driver, count } => {
                ConfigErrorSpec::MultipleDatabasesRequireSqlite(*driver, *count)
            },
            ConfigError::EnvFile { path, detail } => ConfigErrorSpec::EnvFile(path@, detail@),
            ConfigError::ConfigFileUnreadable { path, detail } => {
                ConfigErrorSpec::ConfigFileUnreadable(path@, detail@)
            },
            ConfigError::ConfigFile { path, detail } => ConfigErrorSpec::ConfigFile(
                path@,
                detail@,
            ),
            ConfigError::PasswordInConfigFile { path, line } => {
                ConfigErrorSpec::PasswordInConfigFile(path@, *line)
            },
            ConfigError::Prompt { detail } => ConfigErrorSpec::Prompt(detail@),
        }
    }
}

/// The message an error is reported with: what went wrong, why it matters,
/// and what to try.
pub open spec fn config_error_text(e: ConfigErrorSpec) -> Seq<char> {
    match e {
        ConfigErrorSpec::MissingDatabase => "no database was configured\ndbctx needs to know which database to inspect, and neither --database, a .env file nor DB_DATABASE supplied one\ntry: dbctx inspect --database <NAME>"@,
        ConfigErrorSpec::UnknownEngine => "could not determine the database engine\ndbctx detects the engine from the image of a discovered container; nothing was discovered and no source named one\ntry: --driver mysql|mariadb|sqlsrv|postgres|sqlite, or set DB_CONNECTION"@,
        ConfigErrorSpec::UnknownDriver(v) => "unknown driver `"@ + v
            + "`\n--driver and DB_CONNECTION select the database engine to connect with\ntry one of: mysql, mariadb, sqlsrv, postgres, sqlite"@,
        ConfigErrorSpec::InvalidPort(v) => "invalid port `"@ + v
            + "`\na port must be a whole number between 0 and 65535\ntry: --port 3306 for MySQL or MariaDB, --port 1433 for SQL Server, --port 5432 for PostgreSQL"@,
        ConfigErrorSpec::MultipleDatabasesRequireSqlite(d, n) => decimal(n as nat)
            + " --database values were given, but "@ + driver_name(d)
            + " connects to a single database\nmultiple databases are only meaningful for --driver sqlite, where the first is the main file and the rest are attached\ntry: a single --database value, or --driver sqlite"@,
        ConfigErrorSpec::EnvFile(p, d) => "could not read the environment file `"@ + p + "`: "@ + d
            + "\ndbctx reads connection settings from this file\ncheck that the path is correct and the file is readable"@,
        ConfigErrorSpec::ConfigFileUnreadable(p, d) => "could not read `"@ + p + "`: "@ + d
            + "\ndbctx reads project settings from this file\ncheck that it is readable, or remove it"@,
        ConfigErrorSpec::ConfigFile(p, d) => "could not parse `"@ + p + "`: "@ + d
            + "\nsettings belong under a [dbctx] table and are named after the long command line options\ntry: dbctx init --force to write a fresh file"@,
        ConfigErrorSpec::PasswordInConfigFile(p, l) => "`"@ + p + "` line "@ + decimal(l as nat)
            + " sets a password\ndbctx never persists credentials, so this file has no password key\ntry: --password, DB_PASSWORD, or a .env file that is not committed"@,
        ConfigErrorSpec::Prompt(d) => "could not read the answer: "@ + d
            + "\ndbctx asks for settings nothing else supplied\ntry: supplying them with --database and --driver instead"@,
    }
}

fn cat3(a: &str, b: &str, c: &str) -> (r: String)
    ensures
        r@ == a@ + b@ + c@,
{
    let mut out = owned(a);
    push_str(&mut out, b);
    push_str(&mut out, c);
    out
}

fn cat5(a: &str, b: &str, c: &str, d: &str, e: &str) -> (r: String)
    ensures
        r@ == a@ + b@ + c@ + d@ + e@,
{
    let mut out = owned(a);
    push_str(&mut out, b);
    push_str(&mut out, c);
    push_str(&mut out, d);
    push_str(&mut out, e);
    out
}

impl ConfigError {
    /// The message this error is reported with.
    pub fn to_string(&self) -> (r: String)
        ensures
            r@ == config_error_text(self@),
    {
        match self {
            ConfigError::MissingDatabase => owned(
                "no database was configured\ndbctx needs to know which database to inspect, and neither --database, a .env file nor DB_DATABASE supplied one\ntry: dbctx inspect --database <NAME>",
            ),
            ConfigError::UnknownEngine => owned(
                "could not determine the database engine\ndbctx detects the engine from the image of a discovered container; nothing was discovered and no source named one\ntry: --driver mysql|mariadb|sqlsrv|postgres|sqlite, or set DB_CONNECTION",
            ),
            ConfigError::UnknownDriver { value } => cat3(
                "unknown driver `",
                value.as_str(),
                "`\n--driver and DB_CONNECTION select the database engine to connect with\ntry one of: mysql, mariadb, sqlsrv, postgres, sqlite",
            ),
            ConfigError::InvalidPort { value } => cat3(
                "invalid port `",
                value.as_str(),
                "`\na port must be a whole number between 0 and 65535\ntry: --port 3306 for MySQL or MariaDB, --port 1433 for SQL Server, --port 5432 for PostgreSQL",
            ),
            ConfigError::MultipleDatabasesRequireSqlite { driver, count } => {
                let mut out = decimal_string(*count);
                push_str(&mut out, " --database values were given, but ");
                push_str(&mut out, driver.as_str());
                push_str(
                    &mut out,
                    " connects to a single database\nmultiple databases are only meaningful for --driver sqlite, where the first is the main file and the rest are attached\ntry: a single --database value, or --driver sqlite",
                );
                out
            },
            ConfigError::EnvFile { path, detail } => cat5(
                "could not read the environment file `",
                path.as_str(),
                "`: ",
                detail.as_str(),
                "\ndbctx reads connection settings from this file\ncheck that the path is correct and the file is readable",
            ),
            ConfigError::ConfigFileUnreadable { path, detail } => cat5(
                "could not read `",
                path.as_str(),
                "`: ",
                detail.as_str(),
                "\ndbctx reads project settings from this file\ncheck that it is readable, or remove it",
            ),
            ConfigError::ConfigFile { path, detail } => cat5(
                "could not parse `",
                path.as_str(),
                "`: ",
                detail.as_str(),
                "\nsettings belong under a [dbctx] table and are named after the long command line options\ntry: dbctx init --force to write a fresh file",
            ),
            ConfigError::PasswordInConfigFile { path, line } => {
                let n = decimal_string(*line);
                cat5(
                    "`",
                    path.as_str(),
                    "` line ",
                    n.as_str(),
                    " sets a password\ndbctx never persists credentials, so this file has no password key\ntry: --password, DB_PASSWORD, or a .env file that is not committed",
                )
            },
            ConfigError::Prompt { detail } => cat3(
                "could not read the answer: ",
                detail.as_str(),
                "\ndbctx asks for settings nothing else supplied\ntry: supplying them with --database and --driver instead",
            ),
        }
    }
}

// ---------------------------------------------------------------------------
// Sources
// ---------------------------------------------------------------------------

/// One layer of connection settings, with every value optional.
///
/// A layer says only what it knows. Resolution takes the first layer that
/// supplies each field, so a layer never has to be aware of the ones around
/// it.
#[derive(Debug, PartialEq, Eq)]
pub struct ConnectionSource {
    /// Driver to connect with.
    pub driver: Option<Driver>,
    /// Host to connect to.
    pub host: Option<String>,
    /// Port to connect on.
    pub port: Option<u16>,
    /// Database(s) to inspect. Empty means this layer supplies nothing. More
    /// than one entry is only meaningful for SQLite, where the first is the
    /// main database and the rest are attached in order.
    pub database: Vec<String>,
    /// User to connect as.
    pub user: Option<String>,
    /// Password to connect with.
    pub password: Option<String>,
    /// Unix socket to connect through, MySQL and MariaDB only.
    pub socket: Option<String>,
}

pub struct ConnectionSourceSpec {
    pub driver: Option<Driver>,
    pub host: Option<Seq<char>>,
    pub port: Option<u16>,
    pub database: Seq<Seq<char>>,
    pub user: Option<Seq<char>>,
    pub password: Option<Seq<char>>,
    pub socket: Option<Seq<char>>,
}

impl vstd::view::View for ConnectionSource {
    type V = ConnectionSourceSpec;

    open spec fn view(&self) -> ConnectionSourceSpec {
        ConnectionSourceSpec {
            driver: self.driver,
            host: self.host.deep_view(),
            port: self.port,
            database: self.database.deep_view(),
            user: self.user.deep_view(),
            password: self.password.deep_view(),
            socket: self.socket.deep_view(),
        }
    }
}

impl DeepView for ConnectionSource {
    type V = ConnectionSourceSpec;

    open spec fn deep_view(&self) -> ConnectionSourceSpec {
        self@
    }
}

impl Clone for ConnectionSource {
    fn clone(&self) -> (r: Self)
        ensures
            r@ == self@,
    {
        ConnectionSource {
            driver: self.driver,
            host: crate::model::clone_opt(&self.host),
            port: self.port,
            database: crate::model::clone_strings(&self.database),
            user: crate::model::clone_opt(&self.user),
            password: crate::model::clone_opt(&self.password),
            socket: crate::model::clone_opt(&self.socket),
        }
    }
}

/// The layer that supplies nothing.
pub open spec fn empty_source() -> ConnectionSourceSpec {
    ConnectionSourceSpec {
        driver: None,
        host: None,
        port: None,
        database: Seq::empty(),
        user: None,
        password: None,
        socket: None,
    }
}

impl Default for ConnectionSource {
    /// The layer that supplies nothing.
    fn default() -> (r: ConnectionSource)
        ensures
            r@ == empty_source(),
    {
        let database: Vec<String> = Vec::new();
        assert(database.deep_view() =~= Seq::<Seq<char>>::empty());
        ConnectionSource {
            driver: None,
            host: None,
            port: None,
            database,
            user: None,
            password: None,
            socket: None,
        }
    }
}

/// Whether every character of `s` is an ASCII digit.
pub open spec fn all_digits(s: Seq<char>) -> bool {
    forall|i: int| 0 <= i < s.len() ==> crate::text::is_ascii_digit(#[trigger] s[i])
}

/// The number the ASCII digits of `s` spell.
pub open spec fn digits_value(s: Seq<char>) -> nat
    decreases s.len(),
{
    if s.len() == 0 {
        0
    } else {
        digits_value(s.drop_last()) * 10 + (s.last() as nat - '0' as nat) as nat
    }
}

/// The port `s` spells, as `u16`'s parser reads it: an optional `+`, then
/// one or more ASCII digits, with a value no greater than 65535.
pub open spec fn parsed_port(s: Seq<char>) -> Option<u16> {
    let d = if s.len() > 0 && s[0] == '+' {
        s.drop_first()
    } else {
        s
    };
    if d.len() > 0 && all_digits(d) && digits_value(d) <= 65535 {
        Some(digits_value(d) as u16)
    } else {
        None
    }
}

proof fn lemma_digits_value_grows(s: Seq<char>, i: int)
    requires
        0 <= i <= s.len(),
        all_digits(s),
    ensures
        digits_value(s.take(i)) <= digits_value(s),
    decreases s.len() - i,
{
    if i < s.len() {
        lemma_digits_value_grows(s, i + 1);
        assert(s.take(i + 1).drop_last() =~= s.take(i));
        assert(crate::text::is_ascii_digit(s[i]));
        let v = digits_value(s.take(i));
        assert(v * 10 >= v) by (nonlinear_arith)
            requires
                v >= 0,
        ;
    } else {
        assert(s.take(i) =~= s);
    }
}

/// `u16`'s parser on `s`.
pub fn parse_port(s: &str) -> (r: Option<u16>)
    ensures
        r == parsed_port(s@),
{
    let chars = chars_of(s);
    let start: usize = if chars.len() > 0 && chars[0] == '+' {
        1
    } else {
        0
    };
    let ghost d = if s@.len() > 0 && s@[0] == '+' {
        s@.drop_first()
    } else {
        s@
    };
    assert(d =~= s@.skip(start as int));
    assert(parsed_port(s@) == (if d.len() > 0 && all_digits(d) && digits_value(d) <= 65535 {
        Some(digits_value(d) as u16)
    } else {
        None
    }));
    if start >= chars.len() {
        return None;
    }
    let mut value: u32 = 0;
    let mut i: usize = start;
    while i < chars.len()
        invariant
            chars@ == s@,
            d == s@.skip(start as int),
            parsed_port(s@) == (if d.len() > 0 && all_digits(d) && digits_value(d) <= 65535 {
                Some(digits_value(d) as u16)
            } else {
                None
            }),
            start <= i <= chars.len(),
            start < chars.len(),
            all_digits(d.take(i - start)),
            value as nat == digits_value(d.take(i - start)),
            value <= 65535,
        decreases chars.len() - i,
    {
        let c = chars[i];
        proof {
            assert(d.take(i - start + 1).drop_last() =~= d.take(i - start));
            assert(d.take(i - start + 1).last() == c);
        }
        assert(d[i - start] == c);
        if !('0' <= c && c <= '9') {
            assert(!crate::text::is_ascii_digit(d[i - start]));
            assert(!all_digits(d));
            return None;
        }
        let digit = (c as u32) - ('0' as u32);
        let next = value * 10 + digit;
        assert(next as nat == digits_value(d.take(i - start + 1)));
        i = i + 1;
        assert(all_digits(d.take(i - start)));
        if next > 65535 {
            proof {
                if all_digits(d) {
                    lemma_digits_value_grows(d, i - start);
                    assert(digits_value(d) > 65535);
                }
            }
            return None;
        }
        value = next;
    }
    assert(d.take(i - start) =~= d);
    Some(value as u16)
}

/// The layer with the `DB_*` variable `key` set to `value`, or the error
/// that value causes.
pub open spec fn with_var(src: ConnectionSourceSpec, key: Seq<char>, value: Seq<char>) -> Result<
    ConnectionSourceSpec,
    ConfigErrorSpec,
> {
    if key == "DB_CONNECTION"@ {
        match driver_named(value) {
            Some(d) => Ok(ConnectionSourceSpec { driver: Some(d), ..src }),
            None => Err(ConfigErrorSpec::UnknownDriver(value)),
        }
    } else if key == "DB_HOST"@ {
        Ok(ConnectionSourceSpec { host: Some(value), ..src })
    } else if key == "DB_PORT"@ {
        match parsed_port(value) {
            Some(p) => Ok(ConnectionSourceSpec { port: Some(p), ..src }),
            None => Err(ConfigErrorSpec::InvalidPort(value)),
        }
    } else if key == "DB_DATABASE"@ {
        Ok(ConnectionSourceSpec { database: seq![value], ..src })
    } else if key == "DB_USERNAME"@ {
        Ok(ConnectionSourceSpec { user: Some(value), ..src })
    } else if key == "DB_PASSWORD"@ {
        Ok(ConnectionSourceSpec { password: Some(value), ..src })
    } else {
        Ok(src)
    }
}

/// The layer the first `n` variables of `vars` describe, read in order, or
/// the first error one of them causes.
pub open spec fn vars_source(vars: Seq<(Seq<char>, Seq<char>)>, n: int) -> Result<
    ConnectionSourceSpec,
    ConfigErrorSpec,
>
    decreases n,
{
    if n <= 0 {
        Ok(empty_source())
    } else {
        match vars_source(vars, n - 1) {
            Ok(src) => with_var(src, vars[n - 1].0, vars[n - 1].1),
            Err(e) => Err(e),
        }
    }
}

proof fn lemma_vars_source_err(vars: Seq<(Seq<char>, Seq<char>)>, m: int, n: int)
    requires
        0 <= m <= n,
        vars_source(vars, m) is Err,
    ensures
        vars_source(vars, n) == vars_source(vars, m),
    decreases n - m,
{
    if m < n {
        lemma_vars_source_err(vars, m, n - 1);
    }
}

proof fn lemma_vars_source_prefix(
    vars: Seq<(Seq<char>, Seq<char>)>,
    other: Seq<(Seq<char>, Seq<char>)>,
    m: int,
)
    requires
        0 <= m <= vars.len(),
        m <= other.len(),
        forall|i: int| 0 <= i < m ==> vars[i] == other[i],
    ensures
        vars_source(vars, m) == vars_source(other, m),
    decreases m,
{
    if m > 0 {
        lemma_vars_source_prefix(vars, other, m - 1);
        assert(vars[m - 1] == other[m - 1]);
    }
}

/// Reading variables stops at the first one refused: when the variables
/// before position `k` are accepted and the one at `k` is not, its error
/// is the result, whatever variables follow it.
pub proof fn law_the_first_refused_variable_decides(
    vars: Seq<(Seq<char>, Seq<char>)>,
    k: int,
    rest: Seq<(Seq<char>, Seq<char>)>,
)
    requires
        0 <= k < vars.len(),
        vars_source(vars, k) is Ok,
        with_var(vars_source(vars, k)->Ok_0, vars[k].0, vars[k].1) is Err,
    ensures
        vars_source(vars, vars.len() as int) == with_var(vars_source(vars, k)->Ok_0, vars[k].0, vars[k].1),
        vars_source(vars.take(k + 1) + rest, k + 1 + rest.len()) == with_var(
            vars_source(vars, k)->Ok_0,
            vars[k].0,
            vars[k].1,
        ),
{
    let w = vars.take(k + 1) + rest;
    lemma_vars_source_err(vars, k + 1, vars.len() as int);
    assert forall|i: int| 0 <= i < k + 1 implies vars[i] == w[i] by {}
    lemma_vars_source_prefix(vars, w, k + 1);
    lemma_vars_source_err(w, k + 1, k + 1 + rest.len());
}

impl ConnectionSource {
    fn set_var(&mut self, key: &String, value: &String) -> (r: Result<(), ConfigError>)
        ensures
            match with_var(old(self)@, key@, value@) {
                Ok(src) => r is Ok && final(self)@ == src,
                Err(e) => r matches Err(x) && x@ == e,
            },
    {
        if str_eq(key.as_str(), "DB_CONNECTION") {
            match Driver::from_name(value.as_str()) {
                Ok(d) => {
                    self.driver = Some(d);
                },
                Err(e) => {
                    return Err(e);
                },
            }
        } else if str_eq(key.as_str(), "DB_HOST") {
            self.host = Some(value.clone());
        } else if str_eq(key.as_str(), "DB_PORT") {
            match parse_port(value.as_str()) {
                Some(p) => {
                    self.port = Some(p);
                },
                None => {
                    return Err(ConfigError::InvalidPort { value: value.clone() });
                },
            }
        } else if str_eq(key.as_str(), "DB_DATABASE") {
            let database = vec![value.clone()];
            assert(database.deep_view() =~= seq![value@]);
            self.database = database;
        } else if str_eq(key.as_str(), "DB_USERNAME") {
            self.user = Some(value.clone());
        } else if str_eq(key.as_str(), "DB_PASSWORD") {
            self.password = Some(value.clone());
        }
        Ok(())
    }

    /// The layer described by the `DB_*` variables among `vars`, read in
    /// order, so a later value of a variable replaces an earlier one.
    ///
    /// Shared by the process environment and `.env`, which use the same
    /// variable names at different priorities.
    pub fn from_vars(vars: &Vec<(String, String)>) -> (r: Result<ConnectionSource, ConfigError>)
        ensures
            match vars_source(vars.deep_view(), vars.len() as int) {
                Ok(src) => r matches Ok(s) && s@ == src,
                Err(e) => r matches Err(x) && x@ == e,
            },
    {
        let ghost vs = vars.deep_view();
        let mut source = ConnectionSource::default();
        let mut i: usize = 0;
        while i < vars.len()
            invariant
                vs == vars.deep_view(),
                vs.len() == vars.len(),
                i <= vars.len(),
                vars_source(vs, i as int) == Ok::<ConnectionSourceSpec, ConfigErrorSpec>(source@),
            decreases vars.len() - i,
        {
            let (key, value) = &vars[i];
            assert(vs[i as int] == (key@, value@));
            match source.set_var(key, value) {
                Ok(()) => {},
                Err(e) => {
                    proof {
                        lemma_vars_source_err(vs, i + 1, vs.len() as int);
                    }
                    return Err(e);
                },
            }
            i = i + 1;
        }
        Ok(source)
    }
}

// ---------------------------------------------------------------------------
// Lines of text
// ---------------------------------------------------------------------------

/// The pieces of `s` between line feeds; there is always at least one.
pub open spec fn pieces(s: Seq<char>) -> Seq<Seq<char>>
    decreases s.len(),
{
    if s.len() == 0 {
        seq![Seq::empty()]
    } else {
        let p = pieces(s.drop_last());
        if s.last() == '\n' {
            p.push(Seq::empty())
        } else {
            p.update(p.len() - 1, p.last().push(s.last()))
        }
    }
}

proof fn lemma_pieces_nonempty(s: Seq<char>)
    ensures
        pieces(s).len() >= 1,
    decreases s.len(),
{
    if s.len() > 0 {
        lemma_pieces_nonempty(s.drop_last());
    }
}

/// The lines of `s` as `str::lines` yields them, up to a carriage return
/// before a line feed, which every caller here trims away: the pieces
/// between line feeds, without the empty piece after a final line feed.
pub open spec fn input_lines(s: Seq<char>) -> Seq<Seq<char>> {
    let p = pieces(s);
    if p.last().len() == 0 {
        p.drop_last()
    } else {
        p
    }
}

/// The lines of `text`.
pub fn lines_of(text: &str) -> (r: Vec<String>)
    ensures
        r.deep_view() == input_lines(text@),
{
    let chars = chars_of(text);
    let mut done: Vec<String> = Vec::new();
    let mut current: Vec<char> = Vec::new();
    let mut i: usize = 0;
    assert(done.deep_view().push(current@) =~= pieces(text@.take(0)));
    while i < chars.len()
        invariant
            chars@ == text@,
            i <= chars.len(),
            done.deep_view().push(current@) == pieces(text@.take(i as int)),
        decreases chars.len() - i,
    {
        let c = chars[i];
        proof {
            assert(text@.take(i + 1).drop_last() =~= text@.take(i as int));
            assert(text@.take(i + 1).last() == c);
        }
        let ghost before = done.deep_view().push(current@);
        if c == '\n' {
            let line = string_from_chars(&current);
            let ghost b = done;
            let ghost g = line;
            done.push(line);
            proof {
                crate::model::lemma_push_deep_view(b, done, g);
            }
            current = Vec::new();
            assert(done.deep_view().push(current@) =~= before.push(Seq::empty()));
        } else {
            current.push(c);
            assert(done.deep_view().push(current@) =~= before.update(
                before.len() - 1,
                before.last().push(c),
            ));
        }
        i = i + 1;
    }
    assert(text@.take(i as int) =~= text@);
    if current.len() > 0 {
        let line = string_from_chars(&current);
        let ghost b = done;
        let ghost g = line;
        done.push(line);
        proof {
            crate::model::lemma_push_deep_view(b, done, g);
        }
    } else {
        assert(done.deep_view() =~= input_lines(text@));
    }
    done
}

// ---------------------------------------------------------------------------
// The prompt
// ---------------------------------------------------------------------------

/// The layer after answering `answer` to the question for `setting`: an
/// empty answer supplies nothing rather than an empty name.
pub open spec fn with_answer(src: ConnectionSourceSpec, setting: MissingSetting, answer: Seq<char>) -> Result<
    ConnectionSourceSpec,
    ConfigErrorSpec,
> {
    let a = trim(answer);
    if a.len() == 0 {
        Ok(src)
    } else {
        match setting {
            MissingSetting::Database => Ok(ConnectionSourceSpec { database: seq![a], ..src }),
            MissingSetting::Driver => match driver_named(a) {
                Some(d) => Ok(ConnectionSourceSpec { driver: Some(d), ..src }),
                None => Err(ConfigErrorSpec::UnknownDriver(a)),
            },
        }
    }
}

/// The state of a prompt after asking about the first `n` of `missing`
/// with `lines` as the answers: the layer so far (or the error that ended
/// it), what was written, and whether the answers ran out.
pub open spec fn exchange(missing: Seq<MissingSetting>, lines: Seq<Seq<char>>, n: int) -> (
    Result<ConnectionSourceSpec, ConfigErrorSpec>,
    Seq<char>,
    bool,
)
    decreases n,
{
    if n <= 0 {
        (Ok(empty_source()), Seq::empty(), false)
    } else {
        let (r, t, closed) = exchange(missing, lines, n - 1);
        match r {
            Err(e) => (Err(e), t, closed),
            Ok(src) => if closed {
                (Ok(src), t, true)
            } else {
                let t2 = t + prompt_of(missing[n - 1]) + ": "@;
                if n - 1 >= lines.len() {
                    (Ok(src), t2, true)
                } else {
                    (with_answer(src, missing[n - 1], lines[n - 1]), t2, false)
                }
            },
        }
    }
}

impl ConnectionSource {
    /// Take `answer` as the reply to the question for `setting`.
    pub fn answer(&mut self, setting: MissingSetting, answer: &str) -> (r: Result<(), ConfigError>)
        ensures
            match with_answer(old(self)@, setting, answer@) {
                Ok(src) => r is Ok && final(self)@ == src,
                Err(e) => r matches Err(x) && x@ == e,
            },
    {
        let chars = chars_of(answer);
        let t = trim_chars(&chars);
        if t.len() == 0 {
            return Ok(());
        }
        let a = string_from_chars(&t);
        match setting {
            MissingSetting::Database => {
                let database = vec![a];
                assert(database.deep_view() =~= seq![trim(answer@)]);
                self.database = database;
                Ok(())
            },
            MissingSetting::Driver => match Driver::from_name(a.as_str()) {
                Ok(d) => {
                    self.driver = Some(d);
                    Ok(())
                },
                Err(e) => Err(e),
            },
        }
    }

    /// Ask for each of `missing` in turn, with the lines of `input` as the
    /// answers, and return the layer the answers describe together with
    /// everything that was written.
    ///
    /// Only settings that are still missing are asked for; the password is
    /// never among them. The exchange ends when the answers run out or an
    /// answer cannot be used.
    pub fn from_prompt(missing: &Vec<MissingSetting>, input: &str) -> (r: (
        Result<ConnectionSource, ConfigError>,
        String,
    ))
        ensures
            ({
                let (res, transcript, _closed) = exchange(
                    missing@,
                    input_lines(input@),
                    missing.len() as int,
                );
                &&& r.1@ == transcript
                &&& match res {
                    Ok(src) => r.0 matches Ok(s) && s@ == src,
                    Err(e) => r.0 matches Err(x) && x@ == e,
                }
            }),
    {
        let lines = lines_of(input);
        let ghost ls = lines.deep_view();
        let mut source = ConnectionSource::default();
        let mut transcript = String::new();
        let mut i: usize = 0;
        while i < missing.len()
            invariant
                ls == lines.deep_view(),
                ls == input_lines(input@),
                ls.len() == lines.len(),
                i <= missing.len(),
                exchange(missing@, ls, i as int) == (
                    Ok::<ConnectionSourceSpec, ConfigErrorSpec>(source@),
                    transcript@,
                    false,
                ),
            decreases missing.len() - i,
        {
            push_str(&mut transcript, missing[i].prompt());
            push_str(&mut transcript, ": ");
            if i >= lines.len() {
                proof {
                    lemma_exchange_stops(missing@, ls, i as int + 1, missing.len() as int);
                }
                return (Ok(source), transcript);
            }
            match source.answer(missing[i], lines[i].as_str()) {
                Ok(()) => {},
                Err(e) => {
                    proof {
                        lemma_exchange_stops(missing@, ls, i as int + 1, missing.len() as int);
                    }
                    return (Err(e), transcript);
                },
            }
            i = i + 1;
        }
        (Ok(source), transcript)
    }
}

proof fn lemma_exchange_stops(missing: Seq<MissingSetting>, lines: Seq<Seq<char>>, m: int, n: int)
    requires
        0 <= m <= n,
        exchange(missing, lines, m).0 is Err || exchange(missing, lines, m).2,
    ensures
        exchange(missing, lines, n) == exchange(missing, lines, m),
    decreases n - m,
{
    if m < n {
        lemma_exchange_stops(missing, lines, m, n - 1);
    }
}

// ---------------------------------------------------------------------------
// Resolution
// ---------------------------------------------------------------------------

/// The first value `s` holds, if any.
pub open spec fn first_some<T>(s: Seq<Option<T>>) -> Option<T>
    decreases s.len(),
{
    if s.len() == 0 {
        None
    } else if s[0] is Some {
        s[0]
    } else {
        first_some(s.drop_first())
    }
}

/// The databases of the first layer that names any.
pub open spec fn first_database(v: Seq<ConnectionSourceSpec>) -> Option<Seq<Seq<char>>>
    decreases v.len(),
{
    if v.len() == 0 {
        None
    } else if v[0].database.len() > 0 {
        Some(v[0].database)
    } else {
        first_database(v.drop_first())
    }
}

/// The first driver any layer names.
pub open spec fn first_driver(v: Seq<ConnectionSourceSpec>) -> Option<Driver> {
    first_some(v.map_values(|s: ConnectionSourceSpec| s.driver))
}

/// The first port any layer names.
pub open spec fn first_port(v: Seq<ConnectionSourceSpec>) -> Option<u16> {
    first_some(v.map_values(|s: ConnectionSourceSpec| s.port))
}

/// Which optional text setting of a layer.
#[derive(Clone, Copy, PartialEq, Eq, Structural)]
pub enum TextSetting {
    /// The host.
    Host,
    /// The user.
    User,
    /// The password.
    Password,
    /// The socket.
    Socket,
}

/// The text setting `which` of layer `s`.
pub open spec fn text_setting(s: ConnectionSourceSpec, which: TextSetting) -> Option<Seq<char>> {
    match which {
        TextSetting::Host => s.host,
        TextSetting::User => s.user,
        TextSetting::Password => s.password,
        TextSetting::Socket => s.socket,
    }
}

/// The first value of text setting `which` any layer names.
pub open spec fn first_text(v: Seq<ConnectionSourceSpec>, which: TextSetting) -> Option<Seq<char>> {
    first_some(v.map_values(|s: ConnectionSourceSpec| text_setting(s, which)))
}

/// Resolved connection settings.
///
/// Built once by [`ConnectionConfig::resolve`] and read-only from then on.
pub struct ConnectionConfig {
    driver: Driver,
    host: String,
    port: u16,
    database: Vec<String>,
    user: Option<String>,
    password: Option<String>,
    socket: Option<String>,
}

pub struct ConnectionConfigSpec {
    pub driver: Driver,
    pub host: Seq<char>,
    pub port: u16,
    pub database: Seq<Seq<char>>,
    pub user: Option<Seq<char>>,
    pub password: Option<Seq<char>>,
    pub socket: Option<Seq<char>>,
}

impl vstd::view::View for ConnectionConfig {
    type V = ConnectionConfigSpec;

    closed spec fn view(&self) -> ConnectionConfigSpec {
        ConnectionConfigSpec {
            driver: self.driver,
            host: self.host@,
            port: self.port,
            database: self.database.deep_view(),
            user: self.user.deep_view(),
            password: self.password.deep_view(),
            socket: self.socket.deep_view(),
        }
    }
}

/// What resolving `v` gives: each field from the earliest layer that
/// supplies it, the port defaulted from the driver and the host to the
/// loopback address, or the error that prevents it.
pub open spec fn resolution(v: Seq<ConnectionSourceSpec>) -> Result<
    ConnectionConfigSpec,
    ConfigErrorSpec,
> {
    match first_database(v) {
        None => Err(ConfigErrorSpec::MissingDatabase),
        Some(db) => match first_driver(v) {
            None => Err(ConfigErrorSpec::UnknownEngine),
            Some(d) => if d != Driver::Sqlite && db.len() > 1 {
                Err(ConfigErrorSpec::MultipleDatabasesRequireSqlite(d, db.len() as usize))
            } else {
                Ok(
                    ConnectionConfigSpec {
                        driver: d,
                        host: match first_text(v, TextSetting::Host) {
                            Some(h) => h,
                            None => DEFAULT_HOST@,
                        },
                        port: match first_port(v) {
                            Some(p) => p,
                            None => driver_default_port(d),
                        },
                        database: db,
                        user: first_text(v, TextSetting::User),
                        password: first_text(v, TextSetting::Password),
                        socket: first_text(v, TextSetting::Socket),
                    },
                )
            },
        },
    }
}

/// The required settings no layer of `v` supplies, in the order they are
/// asked about.
pub open spec fn missing_settings(v: Seq<ConnectionSourceSpec>) -> Seq<MissingSetting> {
    (if first_database(v) is None {
        seq![MissingSetting::Database]
    } else {
        Seq::empty()
    }) + (if first_driver(v) is None {
        seq![MissingSetting::Driver]
    } else {
        Seq::empty()
    })
}

/// A layer placed in front of the others wins: each setting it supplies is
/// the one resolution takes, whatever the layers behind it say.
pub proof fn law_an_earlier_layer_wins(front: ConnectionSourceSpec, rest: Seq<ConnectionSourceSpec>)
    requires
        front.database.len() > 0,
        front.driver is Some,
        front.driver == Some(Driver::Sqlite) || front.database.len() <= 1,
    ensures
        resolution(seq![front] + rest) matches Ok(c) && {
            &&& c.database == front.database
            &&& Some(c.driver) == front.driver
            &&& front.host matches Some(h) ==> c.host == h
            &&& front.port matches Some(p) ==> c.port == p
            &&& front.user is Some ==> c.user == front.user
            &&& front.password is Some ==> c.password == front.password
            &&& front.socket is Some ==> c.socket == front.socket
        },
{
    let v = seq![front] + rest;
    assert(v[0] == front);
    assert(v.drop_first() =~= rest);
    let driver_of = |s: ConnectionSourceSpec| s.driver;
    let port_of = |s: ConnectionSourceSpec| s.port;
    assert(v.map_values(driver_of)[0] == front.driver);
    assert(v.map_values(port_of)[0] == front.port);
    assert(first_driver(v) == front.driver);
    assert(first_port(v) == (if front.port is Some { front.port } else { first_some(v.map_values(port_of).drop_first()) }));
    assert forall|which: TextSetting| #[trigger] text_setting(front, which) is Some implies first_text(v, which) == text_setting(front, which) by {
        let f = |s: ConnectionSourceSpec| text_setting(s, which);
        assert(v.map_values(f)[0] == text_setting(front, which));
    }
    assert(text_setting(front, TextSetting::Host) == front.host);
    assert(text_setting(front, TextSetting::User) == front.user);
    assert(text_setting(front, TextSetting::Password) == front.password);
    assert(text_setting(front, TextSetting::Socket) == front.socket);
}

proof fn lemma_first_some_step<T>(s: Seq<Option<T>>, i: int)
    requires
        0 <= i < s.len(),
        forall|j: int| 0 <= j < i ==> s[j] is None,
    ensures
        first_some(s) == first_some(s.skip(i)),
    decreases i,
{
    if i > 0 {
        lemma_first_some_step(s.drop_first(), i - 1);
        assert(s.drop_first().skip(i - 1) =~= s.skip(i));
    } else {
        assert(s.skip(0) =~= s);
    }
}

fn find_database(sources: &Vec<ConnectionSource>) -> (r: Option<usize>)
    ensures
        match r {
            Some(i) => i < sources.len() && sources.deep_view()[i as int].database.len() > 0
                && first_database(sources.deep_view()) == Some(
                sources.deep_view()[i as int].database,
            ),
            None => first_database(sources.deep_view()) is None,
        },
{
    let ghost v = sources.deep_view();
    let mut i: usize = 0;
    assert(v.skip(0) =~= v);
    while i < sources.len()
        invariant
            v == sources.deep_view(),
            v.len() == sources.len(),
            i <= sources.len(),
            first_database(v) == first_database(v.skip(i as int)),
        decreases sources.len() - i,
    {
        assert(v.skip(i as int)[0] == v[i as int]);
        if sources[i].database.len() > 0 {
            return Some(i);
        }
        assert(v.skip(i as int).drop_first() =~= v.skip(i + 1));
        i = i + 1;
    }
    None
}

fn find_driver(sources: &Vec<ConnectionSource>) -> (r: Option<Driver>)
    ensures
        r == first_driver(sources.deep_view()),
{
    let ghost v = sources.deep_view();
    let ghost s = v.map_values(|x: ConnectionSourceSpec| x.driver);
    let mut i: usize = 0;
    assert(s.skip(0) =~= s);
    while i < sources.len()
        invariant
            v == sources.deep_view(),
            s == v.map_values(|x: ConnectionSourceSpec| x.driver),
            s.len() == sources.len(),
            i <= sources.len(),
            first_some(s) == first_some(s.skip(i as int)),
        decreases sources.len() - i,
    {
        assert(s.skip(i as int)[0] == sources[i as int].driver);
        if sources[i].driver.is_some() {
            return sources[i].driver;
        }
        assert(s.skip(i as int).drop_first() =~= s.skip(i + 1));
        i = i + 1;
    }
    None
}

fn find_port(sources: &Vec<ConnectionSource>) -> (r: Option<u16>)
    ensures
        r == first_port(sources.deep_view()),
{
    let ghost v = sources.deep_view();
    let ghost s = v.map_values(|x: ConnectionSourceSpec| x.port);
    let mut i: usize = 0;
    assert(s.skip(0) =~= s);
    while i < sources.len()
        invariant
            v == sources.deep_view(),
            s == v.map_values(|x: ConnectionSourceSpec| x.port),
            s.len() == sources.len(),
            i <= sources.len(),
            first_some(s) == first_some(s.skip(i as int)),
        decreases sources.len() - i,
    {
        assert(s.skip(i as int)[0] == sources[i as int].port);
        if sources[i].port.is_some() {
            return sources[i].port;
        }
        assert(s.skip(i as int).drop_first() =~= s.skip(i + 1));
        i = i + 1;
    }
    None
}

fn text_of(src: &ConnectionSource, which: TextSetting) -> (r: &Option<String>)
    ensures
        r.deep_view() == text_setting(src@, which),
{
    match which {
        TextSetting::Host => &src.host,
        TextSetting::User => &src.user,
        TextSetting::Password => &src.password,
        TextSetting::Socket => &src.socket,
    }
}

fn find_text(sources: &Vec<ConnectionSource>, which: TextSetting) -> (r: Option<String>)
    ensures
        r.deep_view() == first_text(sources.deep_view(), which),
{
    let ghost v = sources.deep_view();
    let ghost s = v.map_values(|x: ConnectionSourceSpec| text_setting(x, which));
    let mut i: usize = 0;
    assert(s.skip(0) =~= s);
    while i < sources.len()
        invariant
            v == sources.deep_view(),
            s == v.map_values(|x: ConnectionSourceSpec| text_setting(x, which)),
            s.len() == sources.len(),
            i <= sources.len(),
            first_some(s) == first_some(s.skip(i as int)),
        decreases sources.len() - i,
    {
        let t = text_of(&sources[i], which);
        assert(s.skip(i as int)[0] == t.deep_view());
        match t {
            Some(x) => {
                return Some(x.clone());
            },
            None => {},
        }
        assert(s.skip(i as int).drop_first() =~= s.skip(i + 1));
        i = i + 1;
    }
    None
}

impl ConnectionConfig {
    #[verifier::type_invariant]
    spec fn well_formed(self) -> bool {
        self.database.len() > 0
    }

    /// The required settings no source in `sources` supplies.
    ///
    /// Callers use this to decide what to ask for before resolving, so the
    /// prompt asks only for what is genuinely absent. The order matches the
    /// order the settings are asked about.
    pub fn missing(sources: &Vec<ConnectionSource>) -> (r: Vec<MissingSetting>)
        ensures
            r@ == missing_settings(sources.deep_view()),
    {
        let mut missing: Vec<MissingSetting> = Vec::new();
        if find_database(sources).is_none() {
            missing.push(MissingSetting::Database);
        }
        if find_driver(sources).is_none() {
            missing.push(MissingSetting::Driver);
        }
        assert(missing@ =~= missing_settings(sources.deep_view()));
        missing
    }

    /// Resolve `sources` into one configuration, taking each field from the
    /// earliest source that supplies it.
    ///
    /// The driver is required: when nothing discovered one and nobody named
    /// one, this fails rather than guessing at an engine. The port falls
    /// back to the driver's default once the driver is known, and the host
    /// to [`DEFAULT_HOST`]. More than one database is only meaningful for
    /// SQLite, where the first is the main file and the rest are attached in
    /// order.
    pub fn resolve(sources: &Vec<ConnectionSource>) -> (r: Result<ConnectionConfig, ConfigError>)
        ensures
            match resolution(sources.deep_view()) {
                Ok(c) => r matches Ok(x) && x@ == c,
                Err(e) => r matches Err(x) && x@ == e,
            },
    {
        let database = match find_database(sources) {
            Some(i) => crate::model::clone_strings(&sources[i].database),
            None => {
                return Err(ConfigError::MissingDatabase);
            },
        };
        let driver = match find_driver(sources) {
            Some(d) => d,
            None => {
                return Err(ConfigError::UnknownEngine);
            },
        };
        assert(database.len() > 0);
        if driver != Driver::Sqlite && database.len() > 1 {
            return Err(
                ConfigError::MultipleDatabasesRequireSqlite { driver, count: database.len() },
            );
        }
        let port = match find_port(sources) {
            Some(p) => p,
            None => driver.default_port(),
        };
        let host = match find_text(sources, TextSetting::Host) {
            Some(h) => h,
            None => owned(DEFAULT_HOST),
        };
        let config = ConnectionConfig {
            driver,
            host,
            port,
            database,
            user: find_text(sources, TextSetting::User),
            password: find_text(sources, TextSetting::Password),
            socket: find_text(sources, TextSetting::Socket),
        };
        Ok(config)
    }

    /// Driver to connect with.
    pub fn driver(&self) -> (r: Driver)
        ensures
            r == self@.driver,
    {
        self.driver
    }

    /// Host to connect to, defaulted to the loopback address when none was
    /// named. A configured socket takes precedence over it; the host is
    /// still populated.
    pub fn host(&self) -> (r: &str)
        ensures
            r@ == self@.host,
    {
        self.host.as_str()
    }

    /// Port to connect on, defaulted from the driver when none was named.
    pub fn port(&self) -> (r: u16)
        ensures
            r == self@.port,
    {
        self.port
    }

    /// The main database to inspect: the only database for every driver
    /// except SQLite, where it is the first of [`Self::databases`].
    pub fn database(&self) -> (r: &str)
        ensures
            self@.database.len() > 0,
            r@ == self@.database[0],
    {
        proof {
            use_type_invariant(self);
        }
        self.database[0].as_str()
    }

    /// Every configured database, main first, in the order supplied.
    pub fn databases(&self) -> (r: &Vec<String>)
        ensures
            r.deep_view() == self@.database,
    {
        &self.database
    }

    /// User to connect as, if one was configured.
    pub fn user(&self) -> (r: Option<&str>)
        ensures
            match r {
                Some(u) => self@.user == Some(u@),
                None => self@.user is None,
            },
    {
        match &self.user {
            Some(u) => Some(u.as_str()),
            None => None,
        }
    }

    /// Password to connect with, if one was configured.
    pub fn password(&self) -> (r: Option<&str>)
        ensures
            match r {
                Some(p) => self@.password == Some(p@),
                None => self@.password is None,
            },
    {
        match &self.password {
            Some(p) => Some(p.as_str()),
            None => None,
        }
    }

    /// Unix socket to connect through, if one was configured.
    pub fn socket(&self) -> (r: Option<&str>)
        ensures
            match r {
                Some(p) => self@.socket == Some(p@),
                None => self@.socket is None,
            },
    {
        match &self.socket {
            Some(p) => Some(p.as_str()),
            None => None,
        }
    }
}

// ---------------------------------------------------------------------------
// Debug output
// ---------------------------------------------------------------------------

/// The text `{:?}` writes for the string `s`: quoted, with Rust's escapes.
/// It depends on `s` alone.
pub uninterp spec fn debug_quoted(s: Seq<char>) -> Seq<char>;

/// Whether every character of `s` is printable ASCII other than a double
/// quote or a backslash: the characters `{:?}` writes as they are.
pub open spec fn plain_ascii(s: Seq<char>) -> bool {
    forall|i: int|
        0 <= i < s.len() ==> 0x20 <= (#[trigger] s[i]) as u32 <= 0x7e && s[i] != '"' && s[i]
            != '\\'
}

/// `format!("{:?}", s)` for a string: its result is named by
/// [`debug_quoted`]. The one fact claimed beyond the name is that a string
/// of plain printable ASCII comes out as itself between double quotes;
/// nothing more about Rust's escaping is claimed.
#[verifier::external_body]
fn debug_str(s: &str) -> (r: String)
    ensures
        r@ == debug_quoted(s@),
        plain_ascii(s@) ==> r@ == "\""@ + s@ + "\""@,
{
    format!("{:?}", s)
}

/// The text `{:?}` writes for the string `s`: a string of plain printable
/// ASCII as itself between double quotes, any other as [`debug_quoted`]
/// names it.
pub open spec fn debug_text(s: Seq<char>) -> Seq<char> {
    if plain_ascii(s) {
        "\""@ + s + "\""@
    } else {
        debug_quoted(s)
    }
}

/// The name `{:?}` gives a driver: its variant name.
pub open spec fn driver_debug(d: Driver) -> Seq<char> {
    match d {
        Driver::Mysql => "Mysql"@,
        Driver::Mariadb => "Mariadb"@,
        Driver::Sqlsrv => "Sqlsrv"@,
        Driver::Postgres => "Postgres"@,
        Driver::Sqlite => "Sqlite"@,
    }
}

/// An optional string as `{:?}` writes it.
pub open spec fn optional_debug(o: Option<Seq<char>>) -> Seq<char> {
    match o {
        Some(s) => "Some("@ + debug_text(s) + ")"@,
        None => "None"@,
    }
}

/// A list of strings as `{:?}` writes it.
pub open spec fn list_debug(s: Seq<Seq<char>>) -> Seq<char> {
    "["@ + crate::text::join(s.map_values(|x: Seq<char>| debug_text(x)), ", "@) + "]"@
}

/// The debug form of a configuration, with the password redacted so a
/// configuration can be logged without leaking the credential.
pub open spec fn config_debug_text(c: ConnectionConfigSpec) -> Seq<char> {
    "ConnectionConfig { driver: "@ + driver_debug(c.driver) + ", host: "@ + debug_text(c.host)
        + ", port: "@ + decimal(c.port as nat) + ", database: "@ + list_debug(c.database)
        + ", user: "@ + optional_debug(c.user) + ", password: "@ + (if c.password is Some {
        "Some(\"<redacted>\")"@
    } else {
        "None"@
    }) + ", socket: "@ + optional_debug(c.socket) + " }"@
}

/// Logging a configuration never reveals its password: the debug text of
/// two configurations that differ only in their password is the same.
pub proof fn law_debug_text_hides_the_password(c: ConnectionConfigSpec, other: Option<Seq<char>>)
    requires
        c.password is Some <==> other is Some,
    ensures
        config_debug_text(c) == config_debug_text(ConnectionConfigSpec { password: other, ..c }),
{
}

fn push_optional_debug(out: &mut String, o: &Option<String>)
    ensures
        final(out)@ == old(out)@ + optional_debug(o.deep_view()),
{
    match o {
        Some(s) => {
            push_str(out, "Some(");
            let q = debug_str(s.as_str());
            push_str(out, q.as_str());
            push_str(out, ")");
        },
        None => {
            push_str(out, "None");
        },
    }
}

impl ConnectionConfig {
    /// The configuration as `{:?}` would write it, with the password
    /// redacted.
    pub fn to_debug_string(&self) -> (r: String)
        ensures
            r@ == config_debug_text(self@),
            self@.user matches Some(u) ==> (plain_ascii(u) ==> crate::text::contains(
                r@,
                "user: Some(\""@ + u + "\")"@,
            )),
            self@.password is Some ==> crate::text::contains(r@, "password: Some(\"<redacted>\")"@),
    {
        let mut out = owned("ConnectionConfig { driver: ");
        match self.driver {
            Driver::Mysql => push_str(&mut out, "Mysql"),
            Driver::Mariadb => push_str(&mut out, "Mariadb"),
            Driver::Sqlsrv => push_str(&mut out, "Sqlsrv"),
            Driver::Postgres => push_str(&mut out, "Postgres"),
            Driver::Sqlite => push_str(&mut out, "Sqlite"),
        }
        assert(out@ =~= "ConnectionConfig { driver: "@ + driver_debug(self@.driver));
        let ghost a = out@;
        push_str(&mut out, ", host: ");
        let h = debug_str(self.host.as_str());
        push_str(&mut out, h.as_str());
        push_str(&mut out, ", port: ");
        let p = decimal_string(self.port as usize);
        push_str(&mut out, p.as_str());
        push_str(&mut out, ", database: ");
        push_str(&mut out, "[");
        let mut quoted: Vec<String> = Vec::new();
        let ghost ds = self.database.deep_view();
        let mut i: usize = 0;
        assert(quoted.deep_view() =~= ds.take(0).map_values(|x: Seq<char>| debug_text(x)));
        while i < self.database.len()
            invariant
                ds == self.database.deep_view(),
                ds.len() == self.database.len(),
                i <= self.database.len(),
                quoted.deep_view() == ds.take(i as int).map_values(|x: Seq<char>| debug_text(x)),
            decreases self.database.len() - i,
        {
            let q = debug_str(self.database[i].as_str());
            let ghost before = quoted;
            let ghost g = q;
            quoted.push(q);
            proof {
                crate::model::lemma_push_deep_view(before, quoted, g);
            }
            i = i + 1;
            assert(quoted.deep_view() =~= ds.take(i as int).map_values(
                |x: Seq<char>| debug_text(x),
            ));
        }
        assert(ds.take(i as int) =~= ds);
        let joined = crate::text::join_strings(&quoted, ", ");
        push_str(&mut out, joined.as_str());
        push_str(&mut out, "]");
        assert(out@ =~= a + ", host: "@ + debug_text(self@.host) + ", port: "@ + decimal(
            self@.port as nat,
        ) + ", database: "@ + list_debug(self@.database));
        let ghost b = out@;
        push_str(&mut out, ", user: ");
        push_optional_debug(&mut out, &self.user);
        let ghost c = out@;
        push_str(&mut out, ", password: ");
        if self.password.is_some() {
            push_str(&mut out, "Some(\"<redacted>\")");
        } else {
            push_str(&mut out, "None");
        }
        let ghost d = out@;
        push_str(&mut out, ", socket: ");
        push_optional_debug(&mut out, &self.socket);
        push_str(&mut out, " }");
        assert(out@ =~= config_debug_text(self@));
        proof {
            if self@.password is Some {
                reveal_strlit(", password: ");
                reveal_strlit("Some(\"<redacted>\")");
                reveal_strlit("password: Some(\"<redacted>\")");
                let needle = "password: Some(\"<redacted>\")"@;
                let at: int = c.len() as int + 2;
                assert(d =~= c + ", "@ + needle) by {
                    reveal_strlit(", ");
                }
                assert(out@.subrange(at, at + needle.len()) =~= needle);
                assert(crate::text::occurs_at(out@, needle, at));
            }
        }
        proof {
            if self@.user is Some && plain_ascii(self@.user->Some_0) {
                let u = self@.user->Some_0;
                reveal_strlit(", user: ");
                reveal_strlit(", ");
                assert(self.user.deep_view() == self@.user);
                assert(debug_text(u) == "\""@ + u + "\""@);
                assert(c == b + ", user: "@ + optional_debug(self@.user));
                reveal_strlit("user: Some(\"");
                reveal_strlit("Some(");
                reveal_strlit("\"");
                reveal_strlit(")");
                reveal_strlit("\")");
                let needle = "user: Some(\""@ + u + "\")"@;
                let at: int = b.len() as int + 2;
                assert(c =~= b + ", "@ + needle);
                assert(out@.subrange(at, at + needle.len()) =~= needle);
                assert(crate::text::occurs_at(out@, needle, at));
            }
        }
        out
    }
}

// ---------------------------------------------------------------------------
// The project file
// ---------------------------------------------------------------------------

/// The position of the first `c` in `s`, or -1.
pub open spec fn first_index_of(s: Seq<char>, c: char) -> int
    decreases s.len(),
{
    if s.len() == 0 {
        -1
    } else if s[0] == c {
        0
    } else {
        let r = first_index_of(s.drop_first(), c);
        if r < 0 {
            -1
        } else {
            r + 1
        }
    }
}

/// The key a line of the project file sets: the trimmed text before its
/// first `=`.
pub open spec fn line_key(line: Seq<char>) -> Seq<char> {
    let t = trim(line);
    let i = first_index_of(t, '=');
    trim(if i < 0 {
        t
    } else {
        t.take(i)
    })
}

/// The 1-based number of the first of `lines` that sets `password`,
/// counting from line `from`.
pub open spec fn password_line_from(lines: Seq<Seq<char>>, from: int) -> Option<nat>
    decreases lines.len() - from,
{
    if from < 0 || from >= lines.len() {
        None
    } else if line_key(lines[from]) == "password"@ {
        Some((from + 1) as nat)
    } else {
        password_line_from(lines, from + 1)
    }
}

/// The 1-based number of the first line of `text` that sets a `password`
/// key, if any.
pub open spec fn password_line_of(text: Seq<char>) -> Option<nat> {
    password_line_from(input_lines(text), 0)
}

fn key_of_line(line: &str) -> (r: String)
    ensures
        r@ == line_key(line@),
{
    let chars = chars_of(line);
    let t = trim_chars(&chars);
    let mut i: usize = 0;
    assert(t@.skip(0) =~= t@);
    while i < t.len() && t[i] != '='
        invariant
            i <= t.len(),
            first_index_of(t@, '=') == if first_index_of(t@.skip(i as int), '=') < 0 {
                -1
            } else {
                first_index_of(t@.skip(i as int), '=') + i
            },
        decreases t.len() - i,
    {
        proof {
            assert(t@.skip(i as int)[0] == t@[i as int]);
            assert(t@.skip(i as int).drop_first() =~= t@.skip(i + 1));
        }
        i = i + 1;
    }
    proof {
        if i < t.len() {
            assert(t@.skip(i as int)[0] == t@[i as int]);
        } else {
            assert(t@.skip(i as int).len() == 0);
        }
    }
    let mut head: Vec<char> = Vec::new();
    let mut j: usize = 0;
    while j < i
        invariant
            i <= t.len(),
            j <= i,
            head@ == t@.take(j as int),
        decreases i - j,
    {
        head.push(t[j]);
        j = j + 1;
        assert(head@ =~= t@.take(j as int));
    }
    if i == t.len() {
        assert(t@.take(i as int) =~= t@);
    }
    let key = trim_chars(&head);
    string_from_chars(&key)
}

/// The line number of a `password` key in the project file `text`, so the
/// refusal can point at it.
pub fn password_line(text: &str) -> (r: Option<usize>)
    ensures
        match r {
            Some(n) => password_line_of(text@) == Some(n as nat),
            None => password_line_of(text@) is None,
        },
{
    let lines = lines_of(text);
    let ghost ls = lines.deep_view();
    let mut i: usize = 0;
    while i < lines.len()
        invariant
            ls == lines.deep_view(),
            ls == input_lines(text@),
            ls.len() == lines.len(),
            i <= lines.len(),
            password_line_from(ls, 0) == password_line_from(ls, i as int),
        decreases lines.len() - i,
    {
        let key = key_of_line(lines[i].as_str());
        if str_eq(key.as_str(), "password") {
            return Some(i + 1);
        }
        i = i + 1;
    }
    None
}

/// SQLite-specific project settings.
#[derive(Debug, Clone, PartialEq)]
pub struct SqliteSection {
    /// Named attachments: attachment name to file path, in name order,
    /// mirroring `ATTACH DATABASE 'path' AS name`.
    pub attach: Vec<(String, String)>,
}

/// The `.dbctx.toml` project configuration: every key is a long command
/// line option, so the file reads as a saved command line. There is no
/// password key: credentials are never persisted.
#[derive(Debug, Clone, PartialEq)]
pub struct ProjectConfig {
    /// Engine to connect with.
    pub driver: Option<Driver>,
    /// Host to connect to.
    pub host: Option<String>,
    /// Port to connect on.
    pub port: Option<u16>,
    /// Database to inspect.
    pub database: Option<String>,
    /// User to connect as.
    pub user: Option<String>,
    /// Unix socket to connect through.
    pub socket: Option<String>,
    /// Directory to write artifacts to.
    pub output: Option<String>,
    /// Which documents to write.
    pub format: Option<String>,
    /// Add deterministic analysis.
    pub analyze: Option<bool>,
    /// Add AI-generated context.
    pub llm: Option<bool>,
    /// Replace artifacts that are already there.
    pub overwrite: Option<bool>,
    /// Skip the Markdown document.
    pub no_markdown: Option<bool>,
    /// Skip the JSON documents.
    pub no_json: Option<bool>,
    /// Skip the Mermaid diagram.
    pub no_mermaid: Option<bool>,
    /// Diagnostic verbosity.
    pub verbose: Option<u8>,
    /// Report errors only.
    pub quiet: Option<bool>,
    /// When to colour output.
    pub color: Option<String>,
    /// How to format log output.
    pub log_format: Option<String>,
    /// SQLite-specific settings.
    pub sqlite: SqliteSection,
}

impl Default for SqliteSection {
    /// No attachments.
    fn default() -> (r: Self)
        ensures
            r.attach@.len() == 0,
    {
        SqliteSection { attach: Vec::new() }
    }
}

impl Default for ProjectConfig {
    /// A file that sets nothing.
    fn default() -> (r: Self)
        ensures
            r.driver is None && r.host is None && r.port is None && r.database is None,
            r.user is None && r.socket is None && r.output is None && r.format is None,
            r.analyze is None && r.llm is None && r.overwrite is None,
            r.no_markdown is None && r.no_json is None && r.no_mermaid is None,
            r.verbose is None && r.quiet is None && r.color is None && r.log_format is None,
            r.sqlite.attach@.len() == 0,
    {
        ProjectConfig {
            driver: None,
            host: None,
            port: None,
            database: None,
            user: None,
            socket: None,
            output: None,
            format: None,
            analyze: None,
            llm: None,
            overwrite: None,
            no_markdown: None,
            no_json: None,
            no_mermaid: None,
            verbose: None,
            quiet: None,
            color: None,
            log_format: None,
            sqlite: SqliteSection::default(),
        }
    }
}

impl ProjectConfig {
    /// The connection settings this file states; never a password.
    pub fn connection(&self) -> (r: ConnectionSource)
        ensures
            r@ == (ConnectionSourceSpec {
                driver: self.driver,
                host: self.host.deep_view(),
                port: self.port,
                database: match self.database.deep_view() {
                    Some(d) => seq![d],
                    None => Seq::empty(),
                },
                user: self.user.deep_view(),
                password: None,
                socket: self.socket.deep_view(),
            }),
    {
        let mut database: Vec<String> = Vec::new();
        match &self.database {
            Some(d) => {
                database.push(d.clone());
            },
            None => {},
        }
        assert(database.deep_view() =~= match self.database.deep_view() {
            Some(d) => seq![d],
            None => Seq::<Seq<char>>::empty(),
        });
        ConnectionSource {
            driver: self.driver,
            host: crate::model::clone_opt(&self.host),
            port: self.port,
            database,
            user: crate::model::clone_opt(&self.user),
            password: None,
            socket: crate::model::clone_opt(&self.socket),
        }
    }
}

/// Each `DB_*` variable sets its own setting and nothing else:
/// `DB_HOST` the host, `DB_DATABASE` the one database, `DB_USERNAME` the
/// user, `DB_PASSWORD` the password; `DB_CONNECTION` the driver named
/// `mysql`, `mariadb`, `sqlsrv`, `postgres` or `sqlite`, any other name
/// being refused; `DB_PORT` the port its value spells, any other value
/// being refused. Any other variable changes nothing.
pub proof fn law_each_variable_sets_its_setting(src: ConnectionSourceSpec, key: Seq<char>, value: Seq<char>)
    ensures
        with_var(src, "DB_HOST"@, value) == Ok::<ConnectionSourceSpec, ConfigErrorSpec>(
            ConnectionSourceSpec { host: Some(value), ..src },
        ),
        with_var(src, "DB_DATABASE"@, value) == Ok::<ConnectionSourceSpec, ConfigErrorSpec>(
            ConnectionSourceSpec { database: seq![value], ..src },
        ),
        with_var(src, "DB_USERNAME"@, value) == Ok::<ConnectionSourceSpec, ConfigErrorSpec>(
            ConnectionSourceSpec { user: Some(value), ..src },
        ),
        with_var(src, "DB_PASSWORD"@, value) == Ok::<ConnectionSourceSpec, ConfigErrorSpec>(
            ConnectionSourceSpec { password: Some(value), ..src },
        ),
        with_var(src, "DB_CONNECTION"@, "mysql"@) == Ok::<ConnectionSourceSpec, ConfigErrorSpec>(
            ConnectionSourceSpec { driver: Some(Driver::Mysql), ..src },
        ),
        with_var(src, "DB_CONNECTION"@, "mariadb"@) == Ok::<ConnectionSourceSpec, ConfigErrorSpec>(
            ConnectionSourceSpec { driver: Some(Driver::Mariadb), ..src },
        ),
        with_var(src, "DB_CONNECTION"@, "sqlsrv"@) == Ok::<ConnectionSourceSpec, ConfigErrorSpec>(
            ConnectionSourceSpec { driver: Some(Driver::Sqlsrv), ..src },
        ),
        with_var(src, "DB_CONNECTION"@, "postgres"@) == Ok::<ConnectionSourceSpec, ConfigErrorSpec>(
            ConnectionSourceSpec { driver: Some(Driver::Postgres), ..src },
        ),
        with_var(src, "DB_CONNECTION"@, "sqlite"@) == Ok::<ConnectionSourceSpec, ConfigErrorSpec>(
            ConnectionSourceSpec { driver: Some(Driver::Sqlite), ..src },
        ),
        value != "mysql"@ && value != "mariadb"@ && value != "sqlsrv"@ && value != "postgres"@ && value
            != "sqlite"@ ==> with_var(src, "DB_CONNECTION"@, value) == Err::<
            ConnectionSourceSpec,
            ConfigErrorSpec,
        >(ConfigErrorSpec::UnknownDriver(value)),
        with_var(src, "DB_PORT"@, value) == match parsed_port(value) {
            Some(p) => Ok::<ConnectionSourceSpec, ConfigErrorSpec>(
                ConnectionSourceSpec { port: Some(p), ..src },
            ),
            None => Err(ConfigErrorSpec::InvalidPort(value)),
        },
        key != "DB_HOST"@ && key != "DB_DATABASE"@ && key != "DB_USERNAME"@ && key != "DB_PASSWORD"@
            && key != "DB_CONNECTION"@ && key != "DB_PORT"@ ==> with_var(src, key, value) == Ok::<
            ConnectionSourceSpec,
            ConfigErrorSpec,
        >(src),
{
    reveal_strlit("DB_HOST");
    reveal_strlit("DB_DATABASE");
    reveal_strlit("DB_USERNAME");
    reveal_strlit("DB_PASSWORD");
    reveal_strlit("DB_CONNECTION");
    reveal_strlit("DB_PORT");
    reveal_strlit("mysql");
    reveal_strlit("mariadb");
    reveal_strlit("sqlsrv");
    reveal_strlit("postgres");
    reveal_strlit("sqlite");
    assert("DB_HOST"@ != "DB_CONNECTION"@ && "DB_HOST"@ != "DB_PORT"@) by {
        assert("DB_HOST"@.len() != "DB_CONNECTION"@.len());
        assert("DB_HOST"@[3] != "DB_PORT"@[3]);
    }
    assert("DB_DATABASE"@ != "DB_CONNECTION"@ && "DB_DATABASE"@ != "DB_HOST"@ && "DB_DATABASE"@
        != "DB_PORT"@) by {
        assert("DB_DATABASE"@.len() != "DB_CONNECTION"@.len());
        assert("DB_DATABASE"@.len() != "DB_HOST"@.len());
        assert("DB_DATABASE"@.len() != "DB_PORT"@.len());
    }
    assert("DB_USERNAME"@ != "DB_CONNECTION"@ && "DB_USERNAME"@ != "DB_HOST"@ && "DB_USERNAME"@
        != "DB_PORT"@ && "DB_USERNAME"@ != "DB_DATABASE"@) by {
        assert("DB_USERNAME"@.len() != "DB_CONNECTION"@.len());
        assert("DB_USERNAME"@.len() != "DB_HOST"@.len());
        assert("DB_USERNAME"@.len() != "DB_PORT"@.len());
        assert("DB_USERNAME"@[3] != "DB_DATABASE"@[3]);
    }
    assert("DB_PASSWORD"@ != "DB_CONNECTION"@ && "DB_PASSWORD"@ != "DB_HOST"@ && "DB_PASSWORD"@
        != "DB_PORT"@ && "DB_PASSWORD"@ != "DB_DATABASE"@ && "DB_PASSWORD"@ != "DB_USERNAME"@) by {
        assert("DB_PASSWORD"@.len() != "DB_CONNECTION"@.len());
        assert("DB_PASSWORD"@.len() != "DB_HOST"@.len());
        assert("DB_PASSWORD"@.len() != "DB_PORT"@.len());
        assert("DB_PASSWORD"@[3] != "DB_DATABASE"@[3]);
        assert("DB_PASSWORD"@[3] != "DB_USERNAME"@[3]);
    }
    assert("DB_PORT"@ != "DB_CONNECTION"@) by {
        assert("DB_PORT"@.len() != "DB_CONNECTION"@.len());
    }
    assert("mariadb"@ != "mysql"@) by {
        assert("mariadb"@.len() != "mysql"@.len());
    }
    assert("sqlsrv"@ != "mysql"@ && "sqlsrv"@ != "mariadb"@) by {
        assert("sqlsrv"@.len() != "mysql"@.len());
        assert("sqlsrv"@.len() != "mariadb"@.len());
    }
    assert("postgres"@ != "mysql"@ && "postgres"@ != "mariadb"@ && "postgres"@ != "sqlsrv"@) by {
        assert("postgres"@.len() != "mysql"@.len());
        assert("postgres"@.len() != "mariadb"@.len());
        assert("postgres"@.len() != "sqlsrv"@.len());
    }
    assert("sqlite"@ != "mysql"@ && "sqlite"@ != "mariadb"@ && "sqlite"@ != "sqlsrv"@ && "sqlite"@
        != "postgres"@) by {
        assert("sqlite"@.len() != "mysql"@.len());
        assert("sqlite"@.len() != "mariadb"@.len());
        assert("sqlite"@[3] != "sqlsrv"@[3]);
        assert("sqlite"@.len() != "postgres"@.len());
    }
}

proof fn lemma_first_some<T>(s: Seq<Option<T>>)
    ensures
        first_some(s) is None <==> forall|i: int| 0 <= i < s.len() ==> (#[trigger] s[i]) is None,
        first_some(s) is Some ==> exists|i: int|
            0 <= i < s.len() && first_some(s) == s[i] && forall|j: int| 0 <= j < i ==> (#[trigger] s[j]) is None,
    decreases s.len(),
{
    if s.len() > 0 {
        lemma_first_some(s.drop_first());
        assert forall|i: int| 0 < i < s.len() implies s[i] == s.drop_first()[i - 1] by {}
        if s[0] is None {
            if first_some(s.drop_first()) is Some {
                let k = choose|k: int|
                    0 <= k < s.drop_first().len() && first_some(s.drop_first()) == s.drop_first()[k]
                        && forall|j: int| 0 <= j < k ==> (#[trigger] s.drop_first()[j]) is None;
                assert forall|j: int| 0 <= j < k + 1 implies (#[trigger] s[j]) is None by {
                    if j > 0 {
                        assert(s[j] == s.drop_first()[j - 1]);
                    }
                }
            }
            if forall|i: int| 0 <= i < s.len() ==> (#[trigger] s[i]) is None {
                assert forall|i: int| 0 <= i < s.drop_first().len() implies (#[trigger] s.drop_first()[i]) is None by {
                    assert(s.drop_first()[i] == s[i + 1]);
                }
            }
        }
    }
}

proof fn lemma_first_database(v: Seq<ConnectionSourceSpec>)
    ensures
        first_database(v) is None <==> forall|i: int| 0 <= i < v.len() ==> (#[trigger] v[i]).database.len() == 0,
    decreases v.len(),
{
    if v.len() > 0 {
        lemma_first_database(v.drop_first());
        assert forall|i: int| 0 < i < v.len() implies v[i] == v.drop_first()[i - 1] by {}
        if v[0].database.len() == 0 && forall|i: int| 0 <= i < v.len() ==> (#[trigger] v[i]).database.len() == 0 {
            assert forall|i: int| 0 <= i < v.drop_first().len() implies (#[trigger] v.drop_first()[i]).database.len()
                == 0 by {
                assert(v.drop_first()[i] == v[i + 1]);
            }
        }
    }
}

/// What resolving layers gives when they leave things out: no database in
/// any layer is refused as a missing database; a database but no driver in
/// any layer, as an unknown engine; more than one database for any driver
/// but SQLite is refused. Otherwise, with no layer naming a port, the port
/// is the driver's usual one (3306 for MySQL and MariaDB, 1433 for SQL
/// Server, 5432 for PostgreSQL, none for SQLite), and with no layer naming
/// a host, the host is the loopback address `127.0.0.1`.
pub proof fn law_resolution_fills_in_and_refuses(v: Seq<ConnectionSourceSpec>)
    ensures
        (forall|i: int| 0 <= i < v.len() ==> (#[trigger] v[i]).database.len() == 0) ==> resolution(v)
            == Err::<ConnectionConfigSpec, ConfigErrorSpec>(ConfigErrorSpec::MissingDatabase),
        (exists|i: int| 0 <= i < v.len() && (#[trigger] v[i]).database.len() > 0) && (forall|i: int|
            0 <= i < v.len() ==> (#[trigger] v[i]).driver is None) ==> resolution(v) == Err::<
            ConnectionConfigSpec,
            ConfigErrorSpec,
        >(ConfigErrorSpec::UnknownEngine),
        resolution(v) matches Ok(c) ==> {
            &&& (forall|i: int| 0 <= i < v.len() ==> (#[trigger] v[i]).port is None) ==> c.port == match c.driver {
                Driver::Mysql | Driver::Mariadb => 3306u16,
                Driver::Sqlsrv => 1433u16,
                Driver::Postgres => 5432u16,
                Driver::Sqlite => 0u16,
            }
            &&& (forall|i: int| 0 <= i < v.len() ==> (#[trigger] v[i]).host is None) ==> c.host == "127.0.0.1"@
            &&& (c.driver != Driver::Sqlite ==> c.database.len() <= 1)
            &&& c.database.len() > 0
        },
{
    lemma_first_database(v);
    let drivers = v.map_values(|s: ConnectionSourceSpec| s.driver);
    let ports = v.map_values(|s: ConnectionSourceSpec| s.port);
    let hosts = v.map_values(|s: ConnectionSourceSpec| text_setting(s, TextSetting::Host));
    lemma_first_some(drivers);
    lemma_first_some(ports);
    lemma_first_some(hosts);
    if forall|i: int| 0 <= i < v.len() ==> (#[trigger] v[i]).driver is None {
        assert forall|i: int| 0 <= i < drivers.len() implies (#[trigger] drivers[i]) is None by {
            assert(drivers[i] == v[i].driver);
        }
    }
    if forall|i: int| 0 <= i < v.len() ==> (#[trigger] v[i]).port is None {
        assert forall|i: int| 0 <= i < ports.len() implies (#[trigger] ports[i]) is None by {
            assert(ports[i] == v[i].port);
        }
    }
    if forall|i: int| 0 <= i < v.len() ==> (#[trigger] v[i]).host is None {
        assert forall|i: int| 0 <= i < hosts.len() implies (#[trigger] hosts[i]) is None by {
            assert(hosts[i] == v[i].host);
        }
    }
    if first_database(v) is Some {
        lemma_first_database_nonempty(v);
    }
}

proof fn lemma_first_database_nonempty(v: Seq<ConnectionSourceSpec>)
    requires
        first_database(v) is Some,
    ensures
        first_database(v)->Some_0.len() > 0,
    decreases v.len(),
{
    if v.len() > 0 && v[0].database.len() == 0 {
        lemma_first_database_nonempty(v.drop_first());
    }
}

/// Reading back a number written in decimal gives the number: its digits
/// are all ASCII digits, there is at least one, the first is `0` only for
/// zero, and they spell exactly `n`.
pub proof fn law_decimal_reads_back(n: nat)
    ensures
        decimal(n).len() > 0,
        all_digits(decimal(n)),
        digits_value(decimal(n)) == n,
        decimal(n)[0] == '0' ==> n == 0,
    decreases n,
{
    if n >= 10 {
        law_decimal_reads_back(n / 10);
        let d = decimal(n / 10);
        let e = d.push(crate::text::digit(n % 10));
        assert(e.drop_last() =~= d);
        assert(e[0] == d[0]);
        vstd::arithmetic::div_mod::lemma_fundamental_div_mod(n as int, 10);
        assert(digits_value(e) == digits_value(d) * 10 + (n % 10));
        assert forall|i: int| 0 <= i < e.len() implies crate::text::is_ascii_digit(#[trigger] e[i]) by {
            if i < d.len() {
                assert(e[i] == d[i]);
            }
        }
        if d[0] == '0' {
            assert(n / 10 == 0);
        }
    } else {
        assert(digits_value(decimal(n)) == digits_value(decimal(n).drop_last()) * 10 + n);
        assert(decimal(n).drop_last() =~= Seq::<char>::empty());
    }
}

proof fn lemma_zeros_value(z: Seq<char>, d: Seq<char>)
    requires
        forall|i: int| 0 <= i < z.len() ==> z[i] == '0',
    ensures
        digits_value(z + d) == digits_value(z) * crate::execution::pow10(d.len()) + digits_value(d),
        digits_value(z) == 0,
    decreases z.len() + d.len(),
{
    if d.len() > 0 {
        lemma_zeros_value(z, d.drop_last());
        assert((z + d).drop_last() =~= z + d.drop_last());
        assert((z + d).last() == d.last());
        assert(digits_value(z) * crate::execution::pow10(d.len()) == 0);
    } else {
        assert(z + d =~= z);
        if z.len() > 0 {
            lemma_zeros_value(z.drop_last(), d);
            assert(z.last() == '0');
        }
    }
}

/// Padding a number with leading zeros keeps its value: the result is at
/// least `width` long, all ASCII digits, and spells `n`.
pub proof fn law_padding_keeps_the_number(n: nat, width: nat)
    ensures
        crate::execution::padded(n, width).len() >= width,
        all_digits(crate::execution::padded(n, width)),
        digits_value(crate::execution::padded(n, width)) == n,
{
    law_decimal_reads_back(n);
    let d = decimal(n);
    if d.len() < width {
        let z = Seq::new((width - d.len()) as nat, |i: int| '0');
        lemma_zeros_value(z, d);
        assert(crate::execution::padded(n, width) == z + d);
        assert forall|i: int| 0 <= i < (z + d).len() implies crate::text::is_ascii_digit(#[trigger] (z + d)[i]) by {
            if i >= z.len() {
                assert((z + d)[i] == d[i - z.len()]);
            }
        }
    }
}

} // verus!
