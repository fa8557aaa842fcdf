//! Connection discovery: work out where the database is and what engine it
//! speaks, without connecting to it.
//!
//! The Docker layer is read from a running container: its image names the
//! engine, its environment the credentials, and its published ports where
//! it listens. Asking docker is the caller's part; what the answers mean is
//! decided here. The engine is read from the image, never guessed from a
//! port or a handshake.
use vstd::prelude::*;

use crate::config::{
    config_error_text, driver_default_port, input_lines, lines_of, parse_port, parsed_port,
    ConfigError, ConfigErrorSpec, ConnectionConfig, ConnectionConfigSpec, ConnectionSource,
    ConnectionSourceSpec, Driver, MissingSetting,
};
use crate::text::{
    ascii_lowercase, contains, decimal, is_blank, join, join_strings, owned, push_str, str_contains,
    str_eq, str_is_blank, to_ascii_lowercase, trim_start, trimmed_starts_with,
};

verus! {

// ---------------------------------------------------------------------------
// Images and credentials
// ---------------------------------------------------------------------------

/// The engine an image name names, checked most specific first: a SQL
/// Server image mentions `mssql`, and a MariaDB image never mentions
/// `mysql`, but the reverse is not guaranteed. Case does not matter.
pub open spec fn image_driver(image: Seq<char>) -> Option<Driver> {
    let i = ascii_lowercase(image);
    if contains(i, "mssql"@) || contains(i, "sqlserver"@) || contains(i, "sql-server"@) {
        Some(Driver::Sqlsrv)
    } else if contains(i, "mariadb"@) {
        Some(Driver::Mariadb)
    } else if contains(i, "mysql"@) || contains(i, "percona"@) {
        Some(Driver::Mysql)
    } else {
        None
    }
}

/// The engine an image name names.
pub fn driver_from_image(image: &str) -> (r: Option<Driver>)
    ensures
        r == image_driver(image@),
{
    let lower = to_ascii_lowercase(image);
    let i = lower.as_str();
    if str_contains(i, "mssql") || str_contains(i, "sqlserver") || str_contains(i, "sql-server") {
        Some(Driver::Sqlsrv)
    } else if str_contains(i, "mariadb") {
        Some(Driver::Mariadb)
    } else if str_contains(i, "mysql") || str_contains(i, "percona") {
        Some(Driver::Mysql)
    } else {
        None
    }
}

/// The value a container environment gives `key`: the last entry for it,
/// as a map built from the entries in order holds.
pub open spec fn env_value(env: Seq<(Seq<char>, Seq<char>)>, key: Seq<char>) -> Option<Seq<char>>
    decreases env.len(),
{
    if env.len() == 0 {
        None
    } else if env.last().0 == key {
        Some(env.last().1)
    } else {
        env_value(env.drop_last(), key)
    }
}

/// The value of the first of two keys the environment has.
pub open spec fn either(env: Seq<(Seq<char>, Seq<char>)>, a: Seq<char>, b: Seq<char>) -> Option<
    Seq<char>,
> {
    match env_value(env, a) {
        Some(v) => Some(v),
        None => env_value(env, b),
    }
}

/// The database, user and password a container's environment implies.
///
/// The official images take the database and an optional unprivileged user
/// from the environment. Where no user was configured, the superuser the
/// image always creates is the only one that exists. No credentials are
/// implied for engines no image is recognised as.
pub open spec fn implied_credentials(driver: Driver, env: Seq<(Seq<char>, Seq<char>)>) -> (
    Option<Seq<char>>,
    Option<Seq<char>>,
    Option<Seq<char>>,
) {
    match driver {
        Driver::Mysql | Driver::Mariadb => {
            let database = either(env, "MYSQL_DATABASE"@, "MARIADB_DATABASE"@);
            match either(env, "MYSQL_USER"@, "MARIADB_USER"@) {
                Some(user) => (database, Some(user), either(env, "MYSQL_PASSWORD"@, "MARIADB_PASSWORD"@)),
                None => (
                    database,
                    Some("root"@),
                    either(env, "MYSQL_ROOT_PASSWORD"@, "MARIADB_ROOT_PASSWORD"@),
                ),
            }
        },
        Driver::Sqlsrv => (None, Some("sa"@), either(env, "MSSQL_SA_PASSWORD"@, "SA_PASSWORD"@)),
        Driver::Postgres | Driver::Sqlite => (None, None, None),
    }
}

fn lookup(env: &Vec<(String, String)>, key: &str) -> (r: Option<String>)
    ensures
        r.deep_view() == env_value(env.deep_view(), key@),
{
    let ghost all = env.deep_view();
    let mut found: Option<String> = None;
    let mut i: usize = 0;
    while i < env.len()
        invariant
            all == env.deep_view(),
            all.len() == env.len(),
            i <= env.len(),
            found.deep_view() == env_value(all.take(i as int), key@),
        decreases env.len() - i,
    {
        proof {
            assert(all.take(i + 1).drop_last() =~= all.take(i as int));
            assert(all.take(i + 1).last() == all[i as int]);
        }
        if str_eq(env[i].0.as_str(), key) {
            found = Some(env[i].1.clone());
        }
        i = i + 1;
    }
    assert(all.take(i as int) =~= all);
    found
}

fn lookup_either(env: &Vec<(String, String)>, a: &str, b: &str) -> (r: Option<String>)
    ensures
        r.deep_view() == either(env.deep_view(), a@, b@),
{
    match lookup(env, a) {
        Some(v) => Some(v),
        None => lookup(env, b),
    }
}

/// The database, user and password a container's environment implies.
pub fn credentials(driver: Driver, environment: &Vec<(String, String)>) -> (r: (
    Option<String>,
    Option<String>,
    Option<String>,
))
    ensures
        (r.0.deep_view(), r.1.deep_view(), r.2.deep_view()) == implied_credentials(
            driver,
            environment.deep_view(),
        ),
{
    match driver {
        Driver::Mysql | Driver::Mariadb => {
            let database = lookup_either(environment, "MYSQL_DATABASE", "MARIADB_DATABASE");
            match lookup_either(environment, "MYSQL_USER", "MARIADB_USER") {
                Some(user) => (
                    database,
                    Some(user),
                    lookup_either(environment, "MYSQL_PASSWORD", "MARIADB_PASSWORD"),
                ),
                None => (
                    database,
                    Some(owned("root")),
                    lookup_either(environment, "MYSQL_ROOT_PASSWORD", "MARIADB_ROOT_PASSWORD"),
                ),
            }
        },
        Driver::Sqlsrv => (
            None,
            Some(owned("sa")),
            lookup_either(environment, "MSSQL_SA_PASSWORD", "SA_PASSWORD"),
        ),
        Driver::Postgres | Driver::Sqlite => (None, None, None),
    }
}

/// The position of the first `=` in `s`, or -1.
pub open spec fn equals_at(s: Seq<char>) -> int {
    crate::config::first_index_of(s, '=')
}

/// The environment a container's `KEY=value` list describes: each entry
/// split at its first `=`, entries without one left out, in order.
pub open spec fn list_environment(entries: Seq<Seq<char>>) -> Seq<(Seq<char>, Seq<char>)>
    decreases entries.len(),
{
    if entries.len() == 0 {
        Seq::empty()
    } else {
        let rest = list_environment(entries.drop_last());
        let e = entries.last();
        let i = equals_at(e);
        if i < 0 {
            rest
        } else {
            rest.push((e.take(i), e.skip(i + 1)))
        }
    }
}

fn split_at_equals(entry: &str) -> (r: Option<(String, String)>)
    ensures
        match r {
            Some(kv) => equals_at(entry@) >= 0 && kv.0@ == entry@.take(equals_at(entry@)) && kv.1@
                == entry@.skip(equals_at(entry@) + 1),
            None => equals_at(entry@) < 0,
        },
{
    let chars = crate::text::chars_of(entry);
    let mut i: usize = 0;
    assert(entry@.skip(0) =~= entry@);
    while i < chars.len() && chars[i] != '='
        invariant
            chars@ == entry@,
            i <= chars.len(),
            equals_at(entry@) == if crate::config::first_index_of(entry@.skip(i as int), '=') < 0 {
                -1
            } else {
                crate::config::first_index_of(entry@.skip(i as int), '=') + i
            },
        decreases chars.len() - i,
    {
        proof {
            assert(entry@.skip(i as int)[0] == chars@[i as int]);
            assert(entry@.skip(i as int).drop_first() =~= entry@.skip(i + 1));
        }
        i = i + 1;
    }
    if i == chars.len() {
        assert(entry@.skip(i as int).len() == 0);
        return None;
    }
    assert(entry@.skip(i as int)[0] == chars@[i as int]);
    let mut key: Vec<char> = Vec::new();
    let mut j: usize = 0;
    while j < i
        invariant
            i < chars.len(),
            j <= i,
            key@ == chars@.take(j as int),
        decreases i - j,
    {
        key.push(chars[j]);
        j = j + 1;
        assert(key@ =~= chars@.take(j as int));
    }
    let mut value: Vec<char> = Vec::new();
    let mut k: usize = i + 1;
    while k < chars.len()
        invariant
            i < chars.len(),
            i + 1 <= k <= chars.len(),
            value@ == chars@.subrange(i + 1, k as int),
        decreases chars.len() - k,
    {
        value.push(chars[k]);
        k = k + 1;
        assert(value@ =~= chars@.subrange(i + 1, k as int));
    }
    assert(chars@.subrange(i + 1, k as int) =~= entry@.skip(i + 1));
    Some((crate::text::string_from_chars(&key), crate::text::string_from_chars(&value)))
}

/// The environment a container's `KEY=value` list describes.
pub fn environment_from_list(entries: &Vec<String>) -> (r: Vec<(String, String)>)
    ensures
        r.deep_view() == list_environment(entries.deep_view()),
{
    let ghost all = entries.deep_view();
    let mut out: Vec<(String, String)> = Vec::new();
    assert(out.deep_view() =~= list_environment(all.take(0)));
    let mut i: usize = 0;
    while i < entries.len()
        invariant
            all == entries.deep_view(),
            all.len() == entries.len(),
            i <= entries.len(),
            out.deep_view() == list_environment(all.take(i as int)),
        decreases entries.len() - i,
    {
        proof {
            assert(all.take(i + 1).drop_last() =~= all.take(i as int));
            assert(all.take(i + 1).last() == entries[i as int]@);
        }
        match split_at_equals(entries[i].as_str()) {
            Some(kv) => {
                let ghost before = out;
                let ghost g = kv;
                out.push(kv);
                proof {
                    crate::model::lemma_push_deep_view(before, out, g);
                }
            },
            None => {},
        }
        i = i + 1;
    }
    assert(all.take(i as int) =~= all);
    out
}

/// The name docker publishes an engine's port under.
pub open spec fn port_key(driver: Driver) -> Seq<char> {
    decimal(driver_default_port(driver) as nat) + "/tcp"@
}

/// The first binding among `host_ports` whose host port reads as a port.
pub open spec fn first_host_port(host_ports: Seq<Option<Seq<char>>>) -> Option<u16>
    decreases host_ports.len(),
{
    if host_ports.len() == 0 {
        None
    } else {
        match host_ports[0] {
            Some(p) => match parsed_port(p) {
                Some(n) => Some(n),
                None => first_host_port(host_ports.drop_first()),
            },
            None => first_host_port(host_ports.drop_first()),
        }
    }
}

/// The host port a container publishes for `driver`, from its published
/// ports: each entry a port name with the host port of each of its
/// bindings. The first entry with the engine's port name is read.
pub open spec fn published_port(ports: Seq<(Seq<char>, Seq<Option<Seq<char>>>)>, driver: Driver) -> Option<
    u16,
>
    decreases ports.len(),
{
    if ports.len() == 0 {
        None
    } else if ports[0].0 == port_key(driver) {
        first_host_port(ports[0].1)
    } else {
        published_port(ports.drop_first(), driver)
    }
}

fn first_binding(bindings: &Vec<Option<String>>) -> (r: Option<u16>)
    ensures
        r == first_host_port(bindings.deep_view()),
{
    let ghost bs = bindings.deep_view();
    let mut j: usize = 0;
    assert(bs.skip(0) =~= bs);
    while j < bindings.len()
        invariant
            bs == bindings.deep_view(),
            bs.len() == bindings.len(),
            j <= bindings.len(),
            first_host_port(bs) == first_host_port(bs.skip(j as int)),
        decreases bindings.len() - j,
    {
        assert(bs.skip(j as int)[0] == bs[j as int]);
        assert(bs.skip(j as int).drop_first() =~= bs.skip(j + 1));
        match &bindings[j] {
            Some(p) => {
                assert(bs[j as int] == Some(p@));
                match parse_port(p.as_str()) {
                    Some(n) => {
                        return Some(n);
                    },
                    None => {},
                }
            },
            None => {},
        }
        j = j + 1;
    }
    None
}

/// The host port a container publishes for `driver`.
pub fn published_host_port(ports: &Vec<(String, Vec<Option<String>>)>, driver: Driver) -> (r: Option<
    u16,
>)
    ensures
        r == published_port(ports.deep_view(), driver),
{
    let mut wanted = crate::text::decimal_string(driver.default_port() as usize);
    push_str(&mut wanted, "/tcp");
    let ghost all = ports.deep_view();
    let mut i: usize = 0;
    assert(all.skip(0) =~= all);
    while i < ports.len()
        invariant
            all == ports.deep_view(),
            all.len() == ports.len(),
            wanted@ == port_key(driver),
            i <= ports.len(),
            published_port(all, driver) == published_port(all.skip(i as int), driver),
        decreases ports.len() - i,
    {
        assert(all.skip(i as int)[0] == all[i as int]);
        if ports[i].0 == wanted {
            return first_binding(&ports[i].1);
        }
        assert(all.skip(i as int).drop_first() =~= all.skip(i + 1));
        i = i + 1;
    }
    None
}

// ---------------------------------------------------------------------------
// Errors
// ---------------------------------------------------------------------------

/// Why a connection could not be discovered.
#[derive(Debug)]
pub enum DiscoveryError {
    /// Configuration could not be resolved from what was discovered.
    Config(ConfigError),
    /// Both selectors were given.
    ConflictingSelectors,
    /// The docker command is not installed.
    DockerMissing,
    /// The docker command could not be run.
    DockerFailed {
        /// The arguments docker was given.
        command: String,
        /// What went wrong.
        detail: String,
    },
    /// The docker command reported a failure.
    DockerRefused {
        /// The arguments docker was given.
        command: String,
        /// What docker said.
        message: String,
    },
    /// The docker command produced something other than JSON.
    Unreadable {
        /// The command that was run.
        command: String,
        /// What went wrong.
        detail: String,
    },
    /// The compose project has no container for that service.
    ServiceNotFound {
        /// The name that was asked for.
        service: String,
        /// The services that have containers.
        known: Vec<String>,
    },
    /// The compose service is not up.
    ServiceNotRunning {
        /// The service that was asked for.
        service: String,
        /// What state its container is in.
        state: String,
    },
    /// There is no compose project here.
    NoComposeProject,
    /// No such container is running.
    ContainerNotFound {
        /// The name that was asked for.
        container: String,
    },
    /// The image is not one of the supported engines.
    UnrecognisedImage {
        /// The service or container that was inspected.
        subject: String,
        /// The image it runs.
        image: String,
    },
    /// The container does not publish its database port.
    NoPublishedPort {
        /// The service or container that was inspected.
        subject: String,
        /// The port that was looked for.
        port: u16,
    },
}

/// The message a discovery error is reported with.
pub open spec fn discovery_error_text(e: DiscoveryError) -> Seq<char> {
    match e {
        DiscoveryError::Config(c) => config_error_text(c@),
        DiscoveryError::ConflictingSelectors => "--compose-service and --docker-container cannot both be given\neach names a different way to find the same connection\ntry: whichever one matches how the database is running"@,
        DiscoveryError::DockerMissing => "docker is not installed, or is not on PATH\ndbctx asks docker where a discovered database is listening\ntry: naming the connection directly with --host and --port"@,
        DiscoveryError::DockerFailed { command, detail } => "could not run `docker "@ + command@
            + "`: "@ + detail@
            + "\ndbctx asks docker where a discovered database is listening\ntry: naming the connection directly with --host and --port"@,
        DiscoveryError::DockerRefused { command, message } => "`docker "@ + command@
            + "` failed: "@ + message@
            + "\ndbctx asks docker where a discovered database is listening\ncheck that the daemon is running and the project is the right one"@,
        DiscoveryError::Unreadable { command, detail } => "could not read the output of `"@
            + command@ + "`: "@ + detail@
            + "\ndbctx expects JSON from this command\ncheck that the installed docker supports it"@,
        DiscoveryError::ServiceNotFound { service, known } => "no container for compose service `"@
            + service@
            + "`\n--compose-service names a service the compose project here has started at least once\nknown services: "@
            + if known.len() == 0 {
            "none; try docker compose up -d"@
        } else {
            join(known.deep_view(), ", "@)
        },
        DiscoveryError::ServiceNotRunning { service, state } => "compose service `"@ + service@
            + "` is not running: "@ + state@
            + "\ndbctx reads the port from the container actually listening, so the service has to be up\ntry: docker compose up -d "@
            + service@,
        DiscoveryError::NoComposeProject => "no compose project in this directory\n--compose-service reads the compose project where dbctx was run\ntry: running from the directory holding compose.yaml"@,
        DiscoveryError::ContainerNotFound { container } => "no container named `"@ + container@
            + "`\n--docker-container names a container docker knows about\ntry: docker ps to see what is running"@,
        DiscoveryError::UnrecognisedImage { subject, image } => "`"@ + subject@ + "` runs `"@
            + image@
            + "`, which is not a database dbctx supports\ndbctx reads the engine from the image name\ntry: --driver mysql|mariadb|sqlsrv to say which it speaks"@,
        DiscoveryError::NoPublishedPort { subject, port } => "`"@ + subject@
            + "` does not publish port "@ + decimal(port as nat)
            + " to this machine\ndbctx connects over a published port, not from inside the network\ntry: adding a ports entry, or --host and --port for how you reach it"@,
    }
}

fn cat4(a: &str, b: &str, c: &str, d: &str) -> (r: String)
    ensures
        r@ == a@ + b@ + c@ + d@,
{
    let mut out = owned(a);
    push_str(&mut out, b);
    push_str(&mut out, c);
    push_str(&mut out, d);
    out
}

fn cat5(a: &str, b: &str, c: &str, d: &str, e: &str) -> (r: String)
    ensures
        r@ == a@ + b@ + c@ + d@ + e@,
{
    let mut out = cat4(a, b, c, d);
    push_str(&mut out, e);
    out
}

impl DiscoveryError {
    /// The message this error is reported with.
    pub fn to_string(&self) -> (r: String)
        ensures
            r@ == discovery_error_text(*self),
    {
        match self {
            DiscoveryError::Config(c) => c.to_string(),
            DiscoveryError::ConflictingSelectors => owned(
                "--compose-service and --docker-container cannot both be given\neach names a different way to find the same connection\ntry: whichever one matches how the database is running",
            ),
            DiscoveryError::DockerMissing => owned(
                "docker is not installed, or is not on PATH\ndbctx asks docker where a discovered database is listening\ntry: naming the connection directly with --host and --port",
            ),
            DiscoveryError::DockerFailed { command, detail } => cat5(
                "could not run `docker ",
                command.as_str(),
                "`: ",
                detail.as_str(),
                "\ndbctx asks docker where a discovered database is listening\ntry: naming the connection directly with --host and --port",
            ),
            DiscoveryError::DockerRefused { command, message } => cat5(
                "`docker ",
                command.as_str(),
                "` failed: ",
                message.as_str(),
                "\ndbctx asks docker where a discovered database is listening\ncheck that the daemon is running and the project is the right one",
            ),
            DiscoveryError::Unreadable { command, detail } => cat5(
                "could not read the output of `",
                command.as_str(),
                "`: ",
                detail.as_str(),
                "\ndbctx expects JSON from this command\ncheck that the installed docker supports it",
            ),
            DiscoveryError::ServiceNotFound { service, known } => {
                let mut out = owned("no container for compose service `");
                push_str(&mut out, service.as_str());
                push_str(
                    &mut out,
                    "`\n--compose-service names a service the compose project here has started at least once\nknown services: ",
                );
                if known.len() == 0 {
                    push_str(&mut out, "none; try docker compose up -d");
                } else {
                    let listed = join_strings(known, ", ");
                    push_str(&mut out, listed.as_str());
                }
                out
            },
            DiscoveryError::ServiceNotRunning { service, state } => {
                let mut out = cat4(
                    "compose service `",
                    service.as_str(),
                    "` is not running: ",
                    state.as_str(),
                );
                push_str(
                    &mut out,
                    "\ndbctx reads the port from the container actually listening, so the service has to be up\ntry: docker compose up -d ",
                );
                push_str(&mut out, service.as_str());
                out
            },
            DiscoveryError::NoComposeProject => owned(
                "no compose project in this directory\n--compose-service reads the compose project where dbctx was run\ntry: running from the directory holding compose.yaml",
            ),
            DiscoveryError::ContainerNotFound { container } => {
                let mut out = owned("no container named `");
                push_str(&mut out, container.as_str());
                push_str(
                    &mut out,
                    "`\n--docker-container names a container docker knows about\ntry: docker ps to see what is running",
                );
                out
            },
            DiscoveryError::UnrecognisedImage { subject, image } => cat5(
                "`",
                subject.as_str(),
                "` runs `",
                image.as_str(),
                "`, which is not a database dbctx supports\ndbctx reads the engine from the image name\ntry: --driver mysql|mariadb|sqlsrv to say which it speaks",
            ),
            DiscoveryError::NoPublishedPort { subject, port } => {
                let digits = crate::text::decimal_string(*port as usize);
                cat5(
                    "`",
                    subject.as_str(),
                    "` does not publish port ",
                    digits.as_str(),
                    " to this machine\ndbctx connects over a published port, not from inside the network\ntry: adding a ports entry, or --host and --port for how you reach it",
                )
            },
        }
    }
}

/// Whether docker refused with a message that, in lower case, contains
/// `needle`.
pub open spec fn mentions(e: DiscoveryError, needle: Seq<char>) -> bool {
    match e {
        DiscoveryError::DockerRefused { message, .. } => contains(ascii_lowercase(message@), needle),
        _ => false,
    }
}

/// Whether docker refused with a message containing `needle`, so a refusal
/// can be read to tell a missing object from a broken daemon.
pub fn refusal_mentions(error: &DiscoveryError, needle: &str) -> (r: bool)
    ensures
        r == mentions(*error, needle@),
{
    match error {
        DiscoveryError::DockerRefused { message, .. } => {
            let lower = to_ascii_lowercase(message.as_str());
            str_contains(lower.as_str(), needle)
        },
        _ => false,
    }
}

// ---------------------------------------------------------------------------
// Compose services and containers
// ---------------------------------------------------------------------------

/// One container in `docker compose ps` output.
#[derive(Debug, PartialEq, Eq)]
pub struct ComposeContainer {
    /// The compose service it runs.
    pub service: String,
    /// The container name, which is what `docker inspect` takes.
    pub name: String,
    /// Whether it is up.
    pub state: String,
}

impl DeepView for ComposeContainer {
    type V = (Seq<char>, Seq<char>, Seq<char>);

    open spec fn deep_view(&self) -> (Seq<char>, Seq<char>, Seq<char>) {
        (self.service@, self.name@, self.state@)
    }
}

/// How `docker compose ps --format json` wrote its containers.
#[derive(Debug)]
pub enum ComposeListing {
    /// One JSON array holding every container.
    Array(String),
    /// One JSON object per line.
    Lines(Vec<String>),
}

/// Whether `output` is written as one JSON array: its first character that
/// is not whitespace opens one.
pub open spec fn opens_array(output: Seq<char>) -> bool {
    trim_start(output).len() > 0 && trim_start(output)[0] == '['
}

/// The lines of `lines` that hold more than whitespace, in order.
pub open spec fn nonblank(lines: Seq<Seq<char>>) -> Seq<Seq<char>>
    decreases lines.len(),
{
    if lines.len() == 0 {
        Seq::empty()
    } else if is_blank(lines.last()) {
        nonblank(lines.drop_last())
    } else {
        nonblank(lines.drop_last()).push(lines.last())
    }
}

/// How `output` lists the containers: as a whole, when it is one array,
/// and otherwise as its lines that hold more than whitespace.
pub fn compose_listing(output: &str) -> (r: ComposeListing)
    ensures
        match r {
            ComposeListing::Array(a) => opens_array(output@) && a@ == output@,
            ComposeListing::Lines(ls) => !opens_array(output@) && ls.deep_view() == nonblank(
                input_lines(output@),
            ),
        },
{
    if trimmed_starts_with(output, '[') {
        return ComposeListing::Array(owned(output));
    }
    let lines = lines_of(output);
    let ghost all = lines.deep_view();
    let mut kept: Vec<String> = Vec::new();
    let mut i: usize = 0;
    while i < lines.len()
        invariant
            all == lines.deep_view(),
            i <= lines.len(),
            kept.deep_view() == nonblank(all.take(i as int)),
        decreases lines.len() - i,
    {
        assert(all.take(i + 1).drop_last() =~= all.take(i as int));
        assert(all.take(i + 1).last() == lines[i as int]@);
        if !str_is_blank(lines[i].as_str()) {
            kept.push(lines[i].clone());
        }
        i = i + 1;
        assert(kept.deep_view() =~= nonblank(all.take(i as int)));
    }
    assert(all.take(i as int) =~= all);
    ComposeListing::Lines(kept)
}

/// One entry of `docker compose ps` output, with each field it gave as
/// text.
pub struct ComposeEntry {
    /// The `Service` field.
    pub service: Option<String>,
    /// The `Name` field.
    pub name: Option<String>,
    /// The `State` field.
    pub state: Option<String>,
}

impl DeepView for ComposeEntry {
    type V = (Option<Seq<char>>, Option<Seq<char>>, Option<Seq<char>>);

    open spec fn deep_view(&self) -> (Option<Seq<char>>, Option<Seq<char>>, Option<Seq<char>>) {
        (self.service.deep_view(), self.name.deep_view(), self.state.deep_view())
    }
}

/// The containers `entries` describe: those that give both a service and a
/// name, with no state read as an empty one.
pub open spec fn listed_containers(
    entries: Seq<(Option<Seq<char>>, Option<Seq<char>>, Option<Seq<char>>)>,
) -> Seq<(Seq<char>, Seq<char>, Seq<char>)>
    decreases entries.len(),
{
    if entries.len() == 0 {
        Seq::empty()
    } else {
        let rest = listed_containers(entries.drop_last());
        let e = entries.last();
        match (e.0, e.1) {
            (Some(service), Some(name)) => rest.push(
                (
                    service,
                    name,
                    match e.2 {
                        Some(state) => state,
                        None => Seq::empty(),
                    },
                ),
            ),
            _ => rest,
        }
    }
}

/// The containers `docker compose ps` listed, skipping any entry that does
/// not give both its service and its name.
pub fn compose_containers(entries: &Vec<ComposeEntry>) -> (r: Vec<ComposeContainer>)
    ensures
        r.deep_view() == listed_containers(entries.deep_view()),
{
    let ghost all = entries.deep_view();
    let mut out: Vec<ComposeContainer> = Vec::new();
    let mut i: usize = 0;
    while i < entries.len()
        invariant
            all == entries.deep_view(),
            i <= entries.len(),
            out.deep_view() == listed_containers(all.take(i as int)),
        decreases entries.len() - i,
    {
        assert(all.take(i + 1).drop_last() =~= all.take(i as int));
        assert(all.take(i + 1).last() == entries[i as int].deep_view());
        let e = &entries[i];
        match (&e.service, &e.name) {
            (Some(service), Some(name)) => {
                let state = match &e.state {
                    Some(s) => s.clone(),
                    None => String::new(),
                };
                out.push(ComposeContainer { service: service.clone(), name: name.clone(), state });
            },
            _ => {},
        }
        i = i + 1;
        assert(out.deep_view() =~= listed_containers(all.take(i as int)));
    }
    assert(all.take(i as int) =~= all);
    out
}

/// The position of the first container running `service`, or -1.
pub open spec fn service_index(containers: Seq<(Seq<char>, Seq<char>, Seq<char>)>, service: Seq<char>) -> int
    decreases containers.len(),
{
    if containers.len() == 0 {
        -1
    } else if containers[0].0 == service {
        0
    } else {
        let r = service_index(containers.drop_first(), service);
        if r < 0 {
            -1
        } else {
            r + 1
        }
    }
}

/// The name of the running container for `service`: the first container
/// of that service, which must be running. An unknown service lists the
/// services that have containers.
pub fn container_for_service(containers: &Vec<ComposeContainer>, service: &str) -> (r: Result<
    String,
    DiscoveryError,
>)
    ensures
        ({
            let cs = containers.deep_view();
            let i = service_index(cs, service@);
            if i < 0 {
                r matches Err(DiscoveryError::ServiceNotFound { service: s, known })
                    && s@ == service@ && known.deep_view() == cs.map_values(
                    |c: (Seq<char>, Seq<char>, Seq<char>)| c.0,
                )
            } else if cs[i].2 != "running"@ {
                r matches Err(DiscoveryError::ServiceNotRunning { service: s, state }) && s@
                    == service@ && state@ == cs[i].2
            } else {
                r matches Ok(name) && name@ == cs[i].1
            }
        }),
{
    let ghost cs = containers.deep_view();
    let mut i: usize = 0;
    assert(cs.skip(0) =~= cs);
    while i < containers.len()
        invariant
            cs == containers.deep_view(),
            cs.len() == containers.len(),
            i <= containers.len(),
            service_index(cs, service@) == if service_index(cs.skip(i as int), service@) < 0 {
                -1
            } else {
                service_index(cs.skip(i as int), service@) + i
            },
        decreases containers.len() - i,
    {
        assert(cs.skip(i as int)[0] == cs[i as int]);
        if str_eq(containers[i].service.as_str(), service) {
            let found = &containers[i];
            if !str_eq(found.state.as_str(), "running") {
                return Err(
                    DiscoveryError::ServiceNotRunning {
                        service: owned(service),
                        state: found.state.clone(),
                    },
                );
            }
            return Ok(found.name.clone());
        }
        assert(cs.skip(i as int).drop_first() =~= cs.skip(i + 1));
        i = i + 1;
    }
    let mut known: Vec<String> = Vec::new();
    let mut j: usize = 0;
    while j < containers.len()
        invariant
            cs == containers.deep_view(),
            cs.len() == containers.len(),
            j <= containers.len(),
            known.deep_view() == cs.take(j as int).map_values(
                |c: (Seq<char>, Seq<char>, Seq<char>)| c.0,
            ),
        decreases containers.len() - j,
    {
        let s = containers[j].service.clone();
        let ghost before = known;
        let ghost g = s;
        known.push(s);
        proof {
            crate::model::lemma_push_deep_view(before, known, g);
        }
        j = j + 1;
        assert(known.deep_view() =~= cs.take(j as int).map_values(
            |c: (Seq<char>, Seq<char>, Seq<char>)| c.0,
        ));
    }
    assert(cs.take(j as int) =~= cs);
    Err(DiscoveryError::ServiceNotFound { service: owned(service), known })
}

// ---------------------------------------------------------------------------
// The Docker layer
// ---------------------------------------------------------------------------

/// The layer a discovered container implies: its engine, the loopback
/// address (the port found is one published onto this machine), that port,
/// and the credentials its environment implies.
pub open spec fn discovered_layer(driver: Driver, port: u16, env: Seq<(Seq<char>, Seq<char>)>) -> ConnectionSourceSpec {
    let (database, user, password) = implied_credentials(driver, env);
    ConnectionSourceSpec {
        driver: Some(driver),
        host: Some("127.0.0.1"@),
        port: Some(port),
        database: match database {
            Some(d) => seq![d],
            None => Seq::empty(),
        },
        user,
        password,
        socket: None,
    }
}

/// Assemble the settings a discovered container implies.
pub fn settings(driver: Driver, port: u16, environment: &Vec<(String, String)>) -> (r: ConnectionSource)
    ensures
        r@ == discovered_layer(driver, port, environment.deep_view()),
{
    let (database, user, password) = credentials(driver, environment);
    let mut databases: Vec<String> = Vec::new();
    let ghost d = database.deep_view();
    match database {
        Some(db) => {
            databases.push(db);
        },
        None => {},
    }
    assert(databases.deep_view() =~= match d {
        Some(x) => seq![x],
        None => Seq::<Seq<char>>::empty(),
    });
    ConnectionSource {
        driver: Some(driver),
        host: Some(owned("127.0.0.1")),
        port: Some(port),
        database: databases,
        user,
        password,
        socket: None,
    }
}

/// What a described container means: its layer, or why it cannot be used.
/// `image` is the image it runs (empty when the description names none),
/// `environment` its environment, and `ports` its published ports.
pub fn source_from_description(
    container: &str,
    image: &str,
    environment: &Vec<(String, String)>,
    ports: &Vec<(String, Vec<Option<String>>)>,
) -> (r: Result<ConnectionSource, DiscoveryError>)
    ensures
        match image_driver(image@) {
            None => r matches Err(DiscoveryError::UnrecognisedImage { subject, image: i })
                && subject@ == container@ && i@ == image@,
            Some(d) => match published_port(ports.deep_view(), d) {
                None => r matches Err(DiscoveryError::NoPublishedPort { subject, port })
                    && subject@ == container@ && port == driver_default_port(d),
                Some(p) => r matches Ok(src) && src@ == discovered_layer(
                    d,
                    p,
                    environment.deep_view(),
                ),
            },
        },
{
    let driver = match driver_from_image(image) {
        Some(d) => d,
        None => {
            return Err(
                DiscoveryError::UnrecognisedImage { subject: owned(container), image: owned(image) },
            );
        },
    };
    let port = match published_host_port(ports, driver) {
        Some(p) => p,
        None => {
            return Err(
                DiscoveryError::NoPublishedPort {
                    subject: owned(container),
                    port: driver.default_port(),
                },
            );
        },
    };
    Ok(settings(driver, port, environment))
}

/// How the Docker layer is to be found.
#[derive(Debug)]
pub enum Selector {
    /// Through the container running a Compose service.
    Service(String),
    /// Through a named container.
    Container(String),
    /// There is no Docker layer.
    Nothing,
}

/// The layers and switches resolution needs. The four non-discovered
/// layers are read by the caller; discovery owns the order they are all
/// consulted in.
pub struct Options {
    /// Settings named on the command line.
    pub cli: ConnectionSource,
    /// Settings from `.dbctx.toml`.
    pub project: ConnectionSource,
    /// Settings from `.env`.
    pub dotenv: ConnectionSource,
    /// Settings from the process environment.
    pub environment: ConnectionSource,
    /// Compose service to discover.
    pub compose_service: Option<String>,
    /// Container to discover.
    pub docker_container: Option<String>,
    /// Whether a terminal is attached, so the prompt may be used.
    pub interactive: bool,
}

impl Default for Options {
    /// Options that supply nothing, discover nothing and ask nothing.
    fn default() -> (r: Options)
        ensures
            r.cli@ == crate::config::empty_source(),
            r.project@ == crate::config::empty_source(),
            r.dotenv@ == crate::config::empty_source(),
            r.environment@ == crate::config::empty_source(),
            r.compose_service is None,
            r.docker_container is None,
            !r.interactive,
    {
        Options {
            cli: ConnectionSource::default(),
            project: ConnectionSource::default(),
            dotenv: ConnectionSource::default(),
            environment: ConnectionSource::default(),
            compose_service: None,
            docker_container: None,
            interactive: false,
        }
    }
}

impl Options {
    /// How the Docker layer is to be found: at most one of the two
    /// selectors may be given.
    pub fn selector(&self) -> (r: Result<Selector, DiscoveryError>)
        ensures
            match (self.compose_service, self.docker_container) {
                (Some(s), None) => r matches Ok(Selector::Service(x)) && x@ == s@,
                (None, Some(c)) => r matches Ok(Selector::Container(x)) && x@ == c@,
                (Some(_), Some(_)) => r matches Err(DiscoveryError::ConflictingSelectors),
                (None, None) => r matches Ok(Selector::Nothing),
            },
    {
        match (&self.compose_service, &self.docker_container) {
            (Some(s), None) => Ok(Selector::Service(s.clone())),
            (None, Some(c)) => Ok(Selector::Container(c.clone())),
            (Some(_), Some(_)) => Err(DiscoveryError::ConflictingSelectors),
            (None, None) => Ok(Selector::Nothing),
        }
    }

    /// The layers in the order they are consulted, with `docker` as the
    /// discovered one: command line, Docker, project file, `.env`, process
    /// environment.
    pub fn layers(&self, docker: ConnectionSource) -> (r: Vec<ConnectionSource>)
        ensures
            r.deep_view() == seq![self.cli@, docker@, self.project@, self.dotenv@, self.environment@],
    {
        let r = vec![
            self.cli.clone(),
            docker,
            self.project.clone(),
            self.dotenv.clone(),
            self.environment.clone(),
        ];
        assert(r.deep_view() =~= seq![
            self.cli@,
            docker@,
            self.project@,
            self.dotenv@,
            self.environment@,
        ]);
        r
    }

    /// What to ask for after the other layers, with `docker` as the
    /// discovered one: the settings they leave missing, when a terminal is
    /// attached, and nothing otherwise.
    pub fn to_ask(&self, docker: &ConnectionSource) -> (r: Vec<MissingSetting>)
        ensures
            r@ == if self.interactive {
                crate::config::missing_settings(
                    seq![self.cli@, docker@, self.project@, self.dotenv@, self.environment@],
                )
            } else {
                Seq::empty()
            },
    {
        if !self.interactive {
            return Vec::new();
        }
        let layers = self.layers(docker.clone());
        ConnectionConfig::missing(&layers)
    }
}

/// Resolve a connection from every layer: the command line, `docker`, the
/// project file, `.env`, the process environment, and last the answers to
/// the prompt, when it was asked.
pub fn resolve(options: &Options, docker: ConnectionSource, prompted: Option<ConnectionSource>) -> (r: Result<
    ConnectionConfig,
    DiscoveryError,
>)
    ensures
        ({
            let base = seq![
                options.cli@,
                docker@,
                options.project@,
                options.dotenv@,
                options.environment@,
            ];
            let layers = match prompted {
                Some(p) => base.push(p@),
                None => base,
            };
            match crate::config::resolution(layers) {
                Ok(c) => r matches Ok(x) && x@ == c,
                Err(e) => r matches Err(DiscoveryError::Config(x)) && x@ == e,
            }
        }),
{
    let mut layers = options.layers(docker);
    match prompted {
        Some(p) => {
            let ghost before = layers;
            let ghost g = p;
            layers.push(p);
            proof {
                crate::model::lemma_push_deep_view(before, layers, g);
            }
        },
        None => {},
    }
    match ConnectionConfig::resolve(&layers) {
        Ok(c) => Ok(c),
        Err(e) => Err(DiscoveryError::Config(e)),
    }
}

/// What a MySQL or MariaDB container's environment implies: the database
/// named by `MYSQL_DATABASE`, else `MARIADB_DATABASE`. When it names an
/// unprivileged user (`MYSQL_USER`, else `MARIADB_USER`), that user with the
/// password of `MYSQL_PASSWORD`, else `MARIADB_PASSWORD`, and none when
/// neither is set, whatever the superuser's password is. Otherwise the
/// superuser `root` with `MYSQL_ROOT_PASSWORD`, else `MARIADB_ROOT_PASSWORD`.
pub proof fn law_the_named_user_gets_their_own_password(driver: Driver, env: Seq<(Seq<char>, Seq<char>)>)
    requires
        driver == Driver::Mysql || driver == Driver::Mariadb,
    ensures
        implied_credentials(driver, env).0 == (if env_value(env, "MYSQL_DATABASE"@) is Some {
            env_value(env, "MYSQL_DATABASE"@)
        } else {
            env_value(env, "MARIADB_DATABASE"@)
        }),
        env_value(env, "MYSQL_USER"@) is Some ==> implied_credentials(driver, env).1 == env_value(
            env,
            "MYSQL_USER"@,
        ),
        env_value(env, "MYSQL_USER"@) is None && env_value(env, "MARIADB_USER"@) is Some
            ==> implied_credentials(driver, env).1 == env_value(env, "MARIADB_USER"@),
        (env_value(env, "MYSQL_USER"@) is Some || env_value(env, "MARIADB_USER"@) is Some)
            ==> implied_credentials(driver, env).2 == (if env_value(env, "MYSQL_PASSWORD"@) is Some {
            env_value(env, "MYSQL_PASSWORD"@)
        } else {
            env_value(env, "MARIADB_PASSWORD"@)
        }),
        (env_value(env, "MYSQL_USER"@) is None && env_value(env, "MARIADB_USER"@) is None)
            ==> implied_credentials(driver, env).1 == Some("root"@) && implied_credentials(driver, env).2
            == (if env_value(env, "MYSQL_ROOT_PASSWORD"@) is Some {
            env_value(env, "MYSQL_ROOT_PASSWORD"@)
        } else {
            env_value(env, "MARIADB_ROOT_PASSWORD"@)
        }),
{
}

/// What other engines' containers imply: a SQL Server container the
/// superuser `sa` with the password of `MSSQL_SA_PASSWORD`, else
/// `SA_PASSWORD`, and no database; PostgreSQL and SQLite nothing at all.
pub proof fn law_other_engines_imply_their_superuser(env: Seq<(Seq<char>, Seq<char>)>)
    ensures
        implied_credentials(Driver::Sqlsrv, env) == (
            None::<Seq<char>>,
            Some("sa"@),
            if env_value(env, "MSSQL_SA_PASSWORD"@) is Some {
                env_value(env, "MSSQL_SA_PASSWORD"@)
            } else {
                env_value(env, "SA_PASSWORD"@)
            },
        ),
        implied_credentials(Driver::Postgres, env) == (None::<Seq<char>>, None::<Seq<char>>, None::<Seq<char>>),
        implied_credentials(Driver::Sqlite, env) == (None::<Seq<char>>, None::<Seq<char>>, None::<Seq<char>>),
{
}

/// Which engine an image names, whatever the case of its letters: an image
/// whose name mentions `mssql`, `sqlserver` or `sql-server` is SQL Server;
/// otherwise one mentioning `mariadb` is MariaDB; otherwise one mentioning
/// `mysql` or `percona` is MySQL; any other names no engine.
pub proof fn law_images_name_their_engine(image: Seq<char>)
    ensures
        ({
            let i = ascii_lowercase(image);
            &&& (contains(i, "mssql"@) || contains(i, "sqlserver"@) || contains(i, "sql-server"@))
                ==> image_driver(image) == Some(Driver::Sqlsrv)
            &&& !(contains(i, "mssql"@) || contains(i, "sqlserver"@) || contains(i, "sql-server"@))
                && contains(i, "mariadb"@) ==> image_driver(image) == Some(Driver::Mariadb)
            &&& !(contains(i, "mssql"@) || contains(i, "sqlserver"@) || contains(i, "sql-server"@))
                && !contains(i, "mariadb"@) && (contains(i, "mysql"@) || contains(i, "percona"@))
                ==> image_driver(image) == Some(Driver::Mysql)
            &&& !(contains(i, "mssql"@) || contains(i, "sqlserver"@) || contains(i, "sql-server"@))
                && !contains(i, "mariadb"@) && !contains(i, "mysql"@) && !contains(i, "percona"@)
                ==> image_driver(image) is None
        }),
{
}

proof fn lemma_first_index_of(s: Seq<char>, c: char)
    ensures
        -1 <= crate::config::first_index_of(s, c) < s.len(),
        crate::config::first_index_of(s, c) >= 0 ==> s[crate::config::first_index_of(s, c)] == c && forall|m: int|
            0 <= m < crate::config::first_index_of(s, c) ==> s[m] != c,
        crate::config::first_index_of(s, c) < 0 ==> forall|m: int| 0 <= m < s.len() ==> s[m] != c,
    decreases s.len(),
{
    if s.len() > 0 && s[0] != c {
        let r = s.drop_first();
        lemma_first_index_of(r, c);
        assert forall|m: int| 0 < m < s.len() implies s[m] == r[m - 1] by {}
    }
}

/// A container's `KEY=value` list gives exactly one variable per entry
/// holding an `=`: the text before its first `=` as the name and the text
/// after it as the value; entries without `=` give none.
pub proof fn law_environment_entries_split_at_the_first_equals(entries: Seq<Seq<char>>, kv: (Seq<char>, Seq<char>))
    ensures
        list_environment(entries).contains(kv) <==> exists|j: int, k: int|
            0 <= j < entries.len() && 0 <= k < entries[j].len() && #[trigger] entries[j][k] == '=' && (forall|m: int|
                0 <= m < k ==> entries[j][m] != '=') && kv == (entries[j].take(k), entries[j].skip(k + 1)),
    decreases entries.len(),
{
    if entries.len() > 0 {
        let r = entries.drop_last();
        law_environment_entries_split_at_the_first_equals(r, kv);
        let e = entries.last();
        let i = equals_at(e);
        lemma_first_index_of(e, '=');
        let rest = list_environment(r);
        assert forall|j: int| 0 <= j < r.len() implies r[j] == entries[j] by {}
        assert(entries[entries.len() - 1] == e);
        if list_environment(entries).contains(kv) {
            if i >= 0 && kv == (e.take(i), e.skip(i + 1)) {
                assert(entries[entries.len() - 1][i] == '=');
            } else {
                if i >= 0 {
                    let pushed = rest.push((e.take(i), e.skip(i + 1)));
                    let q = choose|q: int| 0 <= q < pushed.len() && #[trigger] pushed[q] == kv;
                    assert(rest[q] == kv);
                }
                assert(rest.contains(kv));
                let (j, k) = choose|j: int, k: int|
                    0 <= j < r.len() && 0 <= k < r[j].len() && #[trigger] r[j][k] == '=' && (forall|m: int|
                        0 <= m < k ==> r[j][m] != '=') && kv == (r[j].take(k), r[j].skip(k + 1));
                assert(entries[j] == r[j]);
                assert(entries[j][k] == '=');
            }
        }
        if exists|j: int, k: int|
            0 <= j < entries.len() && 0 <= k < entries[j].len() && #[trigger] entries[j][k] == '=' && (forall|m: int|
                0 <= m < k ==> entries[j][m] != '=') && kv == (entries[j].take(k), entries[j].skip(k + 1)) {
            let (j, k) = choose|j: int, k: int|
                0 <= j < entries.len() && 0 <= k < entries[j].len() && #[trigger] entries[j][k] == '=' && (forall|m: int|
                    0 <= m < k ==> entries[j][m] != '=') && kv == (entries[j].take(k), entries[j].skip(k + 1));
            if j == entries.len() - 1 {
                assert(i == k) by {
                    if i < 0 {
                        assert(e[k] != '=');
                    } else if i < k {
                        assert(e[i] != '=');
                    } else if k < i {
                        assert(e[k] != '=');
                    }
                }
                assert(rest.push((e.take(i), e.skip(i + 1)))[rest.len() as int] == kv);
            } else {
                assert(r[j] == entries[j]);
                assert(r[j][k] == '=');
                assert(rest.contains(kv));
                let q = choose|q: int| 0 <= q < rest.len() && rest[q] == kv;
                if i >= 0 {
                    assert(rest.push((e.take(i), e.skip(i + 1)))[q] == kv);
                }
            }
        }
    }
}

/// The container for a service is the first one running that service:
/// the position found holds the service, and no earlier one does; when
/// none does, none is found.
pub proof fn law_the_first_container_of_the_service(cs: Seq<(Seq<char>, Seq<char>, Seq<char>)>, service: Seq<char>)
    ensures
        -1 <= service_index(cs, service) < cs.len(),
        service_index(cs, service) >= 0 ==> cs[service_index(cs, service)].0 == service && forall|j: int|
            0 <= j < service_index(cs, service) ==> (#[trigger] cs[j]).0 != service,
        service_index(cs, service) < 0 <==> forall|j: int| 0 <= j < cs.len() ==> (#[trigger] cs[j]).0 != service,
    decreases cs.len(),
{
    if cs.len() > 0 {
        let r = cs.drop_first();
        law_the_first_container_of_the_service(r, service);
        assert forall|j: int| 0 < j < cs.len() implies cs[j] == r[j - 1] by {}
        if cs[0].0 != service {
            if service_index(r, service) < 0 {
                assert forall|j: int| 0 <= j < cs.len() implies (#[trigger] cs[j]).0 != service by {
                    if j > 0 {
                        assert(cs[j] == r[j - 1]);
                    }
                }
            } else {
                let x = service_index(r, service);
                assert forall|j: int| 0 <= j < x + 1 implies (#[trigger] cs[j]).0 != service by {
                    if j > 0 {
                        assert(cs[j] == r[j - 1]);
                    }
                }
                assert(!(forall|j: int| 0 <= j < cs.len() ==> (#[trigger] cs[j]).0 != service)) by {
                    assert(cs[x + 1].0 == service);
                }
            }
        }
    }
}

/// The port names docker publishes each engine under: `3306/tcp` for
/// MySQL and MariaDB, `1433/tcp` for SQL Server, `5432/tcp` for PostgreSQL.
pub proof fn law_engines_publish_their_usual_ports()
    ensures
        port_key(Driver::Mysql) == "3306/tcp"@,
        port_key(Driver::Mariadb) == "3306/tcp"@,
        port_key(Driver::Sqlsrv) == "1433/tcp"@,
        port_key(Driver::Postgres) == "5432/tcp"@,
{
    reveal_with_fuel(decimal, 5);
    reveal_strlit("3306/tcp");
    reveal_strlit("1433/tcp");
    reveal_strlit("5432/tcp");
    reveal_strlit("/tcp");
    assert(decimal(3306) =~= seq!['3', '3', '0', '6']);
    assert(decimal(1433) =~= seq!['1', '4', '3', '3']);
    assert(decimal(5432) =~= seq!['5', '4', '3', '2']);
    assert(port_key(Driver::Mysql) =~= "3306/tcp"@);
    assert(port_key(Driver::Sqlsrv) =~= "1433/tcp"@);
    assert(port_key(Driver::Postgres) =~= "5432/tcp"@);
}

} // verus!
