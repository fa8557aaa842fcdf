//! The command line interface: the commands and options a run is given.
//!
//! This module describes the interface as plain values; reading them from
//! the arguments of a process is the binary's part. The connection settings
//! gathered here become a [`crate::config::ConnectionConfig`] through
//! [`ConnectionArgs::source`]. Command names are stable within a major
//! version.
use vstd::prelude::*;

use crate::config::{ConnectionSource, ConnectionSourceSpec, Driver};
use crate::model::{clone_opt, clone_strings};

verus! {

/// Generate deterministic database context.
pub struct Cli {
    /// Options that apply to every command.
    pub global: GlobalArgs,
    /// The command to run.
    pub command: Command,
}

/// Options accepted alongside any command.
pub struct GlobalArgs {
    /// Show more detail; repeat for more still.
    pub verbose: u8,
    /// Suppress all output except errors.
    pub quiet: bool,
    /// When to colour output.
    pub color: ColorChoice,
    /// How to format log output.
    pub log_format: LogFormat,
}

/// When to colour output.
#[derive(Debug, Clone, Copy, PartialEq, Eq, Structural)]
pub enum ColorChoice {
    /// Colour when writing to a terminal.
    Auto,
    /// Always colour.
    Always,
    /// Never colour.
    Never,
}

/// How to format log output.
#[derive(Debug, Clone, Copy, PartialEq, Eq, Structural)]
pub enum LogFormat {
    /// Human-readable lines.
    Text,
    /// One JSON object per record.
    Json,
}

/// Which documents an inspection writes.
#[derive(Debug, Clone, Copy, PartialEq, Eq, Structural)]
pub enum Format {
    /// JSON only.
    Json,
    /// Markdown only.
    Markdown,
    /// Every format.
    All,
}

/// The commands a run can be asked for.
pub enum Command {
    /// Inspect a database and generate artifacts.
    Inspect(InspectArgs),
    /// Report validation findings for the inspected schema.
    Validate(ConnectionArgs),
    /// Generate a Mermaid ER diagram.
    Graph(GraphArgs),
    /// Compare two exported schemas.
    Diff(DiffArgs),
    /// Display schema statistics.
    Stats(ConnectionArgs),
    /// Initialize a project.
    Init(InitArgs),
    /// Run a single read-only SQL statement and print its rows as JSON.
    ExecuteStatement(ExecuteArgs),
    /// Serve the schema to MCP clients.
    Mcp(McpArgs),
}

/// The name a command is invoked by.
pub open spec fn command_name(c: Command) -> Seq<char> {
    match c {
        Command::Inspect(_) => "inspect"@,
        Command::Validate(_) => "validate"@,
        Command::Graph(_) => "graph"@,
        Command::Diff(_) => "diff"@,
        Command::Stats(_) => "stats"@,
        Command::Init(_) => "init"@,
        Command::ExecuteStatement(_) => "execute-statement"@,
        Command::Mcp(_) => "mcp"@,
    }
}

impl Command {
    /// The name this command is invoked by.
    pub fn name(&self) -> (r: &'static str)
        ensures
            r@ == command_name(*self),
    {
        match self {
            Command::Inspect(_) => "inspect",
            Command::Validate(_) => "validate",
            Command::Graph(_) => "graph",
            Command::Diff(_) => "diff",
            Command::Stats(_) => "stats",
            Command::Init(_) => "init",
            Command::ExecuteStatement(_) => "execute-statement",
            Command::Mcp(_) => "mcp",
        }
    }
}

/// How to reach the database.
pub struct ConnectionArgs {
    /// Host to connect to.
    pub host: Option<String>,
    /// Port to connect on.
    pub port: Option<u16>,
    /// Database(s) to inspect; for SQLite, the main database first and
    /// the attached ones after it.
    pub database: Vec<String>,
    /// User to connect as.
    pub user: Option<String>,
    /// Password to connect with.
    pub password: Option<String>,
    /// Database engine. Detected from the connection when omitted.
    pub driver: Option<Driver>,
    /// Unix socket to connect through. MySQL and MariaDB only.
    pub socket: Option<String>,
    /// Environment file to read connection settings from.
    pub env: Option<String>,
    /// Docker Compose service to discover the connection from.
    pub compose_service: Option<String>,
    /// Docker container to discover the connection from.
    pub docker_container: Option<String>,
}

impl ConnectionArgs {
    /// The connection settings these options state.
    ///
    /// This is the highest priority layer, so anything named here wins over
    /// every other source.
    pub fn source(&self) -> (r: ConnectionSource)
        ensures
            r@ == (ConnectionSourceSpec {
                driver: self.driver,
                host: self.host.deep_view(),
                port: self.port,
                database: self.database.deep_view(),
                user: self.user.deep_view(),
                password: self.password.deep_view(),
                socket: self.socket.deep_view(),
            }),
    {
        ConnectionSource {
            driver: self.driver,
            host: clone_opt(&self.host),
            port: self.port,
            database: clone_strings(&self.database),
            user: clone_opt(&self.user),
            password: clone_opt(&self.password),
            socket: clone_opt(&self.socket),
        }
    }
}

/// Options for `dbctx inspect`.
pub struct InspectArgs {
    /// How to reach the database.
    pub connection: ConnectionArgs,
    /// Directory to write artifacts to.
    pub output: String,
    /// Write to standard output instead of a directory.
    pub stdout: bool,
    /// Which documents to write.
    pub format: Format,
    /// Add deterministic analysis.
    pub analyze: bool,
    /// Add AI-generated context, clearly labelled.
    pub llm: bool,
    /// Replace artifacts that are already there.
    pub overwrite: bool,
    /// Skip the Markdown document.
    pub no_markdown: bool,
    /// Skip the JSON documents.
    pub no_json: bool,
    /// Skip the Mermaid diagram.
    pub no_mermaid: bool,
}

/// Options for `dbctx graph`.
pub struct GraphArgs {
    /// How to reach the database.
    pub connection: ConnectionArgs,
    /// File to write the diagram to.
    pub output: Option<String>,
}

/// Options for `dbctx diff`, which reads exported documents rather than
/// databases and so takes no connection options.
pub struct DiffArgs {
    /// The earlier schema document.
    pub old: String,
    /// The later schema document.
    pub new: String,
}

/// Options for `dbctx init`.
pub struct InitArgs {
    /// Overwrite a configuration file that is already there.
    pub force: bool,
}

/// Options for `dbctx execute-statement`.
pub struct ExecuteArgs {
    /// How to reach the database.
    pub connection: ConnectionArgs,
    /// The statement to run.
    pub sql: String,
    /// Seconds before the statement is cancelled.
    pub timeout: u64,
}

/// Options for `dbctx mcp`.
pub struct McpArgs {
    /// How to reach the database.
    pub connection: ConnectionArgs,
    /// Serve over HTTP on this port instead of stdio.
    pub sse_port: Option<u16>,
    /// Seconds reading the schema may take.
    pub introspection_timeout: u64,
}

} // verus!
