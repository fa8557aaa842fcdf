//! The error type the library returns.
//!
//! Each layer defines the failures it raises next to the code that raises
//! them; this enum unifies those so one call into the library has one error
//! type to match on.
use vstd::prelude::*;

use crate::config::{config_error_text, ConfigError};
use crate::database::{database_error_text, DatabaseError};
use crate::diff::{diff_error_text, DiffError};
use crate::discovery::{discovery_error_text, DiscoveryError};
use crate::execution::{execution_error_text, ExecutionError};
use crate::export::{export_error_text, ExportError};
use crate::mcp_server::McpServerError;
use crate::text::{decimal, decimal_string_u64, owned, push_str};

verus! {

/// Anything that can go wrong inside dbctx.
#[derive(Debug)]
pub enum Error {
    /// Configuration could not be resolved.
    Config(ConfigError),
    /// A schema diff could not be performed.
    Diff(DiffError),
    /// A connection could not be discovered.
    Discovery(DiscoveryError),
    /// The database could not be inspected.
    Database(DatabaseError),
    /// A read-only statement could not be executed.
    Execution(ExecutionError),
    /// Artifacts could not be written or validated.
    Export(ExportError),
    /// The MCP server could not start or keep running.
    Mcp(Box<McpServerError>),
}

/// The message an error is reported with: that of the failure it carries.
pub open spec fn error_text(e: Error) -> Seq<char>
    decreases e,
{
    match e {
        Error::Config(c) => config_error_text(c@),
        Error::Diff(d) => diff_error_text(d),
        Error::Discovery(d) => discovery_error_text(d),
        Error::Database(d) => database_error_text(d),
        Error::Execution(x) => execution_error_text(x),
        Error::Export(x) => export_error_text(x),
        Error::Mcp(m) => mcp_error_text(*m),
    }
}

/// The message an MCP server failure is reported with.
pub open spec fn mcp_error_text(m: McpServerError) -> Seq<char>
    decreases m,
{
    match m {
        McpServerError::InitialSchema(e) => "could not read the schema: "@ + error_text(e),
        McpServerError::IntrospectionTimeout(n) => "introspection timed out after "@ + decimal(
            n as nat,
        ) + " seconds"@,
        McpServerError::Initialize(d) => "could not start the MCP server: "@ + d@,
        McpServerError::Runtime(d) => "MCP server exited with an error: "@ + d@,
        McpServerError::Listen { address, source } => "could not listen on "@ + address@ + ": "@
            + source@,
    }
}

impl Error {
    /// The message this error is reported with.
    pub fn to_string(&self) -> (r: String)
        ensures
            r@ == error_text(*self),
        decreases self,
    {
        match self {
            Error::Config(c) => c.to_string(),
            Error::Diff(d) => d.to_string(),
            Error::Discovery(d) => d.to_string(),
            Error::Database(d) => d.to_string(),
            Error::Execution(x) => x.to_string(),
            Error::Export(x) => x.to_string(),
            Error::Mcp(m) => (**m).to_string(),
        }
    }
}

impl McpServerError {
    /// The message this failure is reported with.
    pub fn to_string(&self) -> (r: String)
        ensures
            r@ == mcp_error_text(*self),
        decreases self,
    {
        match self {
            McpServerError::InitialSchema(e) => {
                let mut out = owned("could not read the schema: ");
                let inner = e.to_string();
                push_str(&mut out, inner.as_str());
                out
            },
            McpServerError::IntrospectionTimeout(n) => {
                let mut out = owned("introspection timed out after ");
                let digits = decimal_string_u64(*n);
                push_str(&mut out, digits.as_str());
                push_str(&mut out, " seconds");
                out
            },
            McpServerError::Initialize(d) => {
                let mut out = owned("could not start the MCP server: ");
                push_str(&mut out, d.as_str());
                out
            },
            McpServerError::Runtime(d) => {
                let mut out = owned("MCP server exited with an error: ");
                push_str(&mut out, d.as_str());
                out
            },
            McpServerError::Listen { address, source } => {
                let mut out = owned("could not listen on ");
                push_str(&mut out, address.as_str());
                push_str(&mut out, ": ");
                push_str(&mut out, source.as_str());
                out
            },
        }
    }
}

impl From<ConfigError> for Error {
    fn from(e: ConfigError) -> (r: Self) {
        Error::Config(e)
    }
}

impl vstd::std_specs::convert::FromSpecImpl<ConfigError> for Error {
    open spec fn obeys_from_spec() -> bool {
        true
    }

    open spec fn from_spec(v: ConfigError) -> Self {
        Error::Config(v)
    }
}

impl From<DiffError> for Error {
    fn from(e: DiffError) -> (r: Self) {
        Error::Diff(e)
    }
}

impl vstd::std_specs::convert::FromSpecImpl<DiffError> for Error {
    open spec fn obeys_from_spec() -> bool {
        true
    }

    open spec fn from_spec(v: DiffError) -> Self {
        Error::Diff(v)
    }
}

impl From<DiscoveryError> for Error {
    fn from(e: DiscoveryError) -> (r: Self) {
        Error::Discovery(e)
    }
}

impl vstd::std_specs::convert::FromSpecImpl<DiscoveryError> for Error {
    open spec fn obeys_from_spec() -> bool {
        true
    }

    open spec fn from_spec(v: DiscoveryError) -> Self {
        Error::Discovery(v)
    }
}

impl From<DatabaseError> for Error {
    fn from(e: DatabaseError) -> (r: Self) {
        Error::Database(e)
    }
}

impl vstd::std_specs::convert::FromSpecImpl<DatabaseError> for Error {
    open spec fn obeys_from_spec() -> bool {
        true
    }

    open spec fn from_spec(v: DatabaseError) -> Self {
        Error::Database(v)
    }
}

impl From<ExecutionError> for Error {
    fn from(e: ExecutionError) -> (r: Self) {
        Error::Execution(e)
    }
}

impl vstd::std_specs::convert::FromSpecImpl<ExecutionError> for Error {
    open spec fn obeys_from_spec() -> bool {
        true
    }

    open spec fn from_spec(v: ExecutionError) -> Self {
        Error::Execution(v)
    }
}

impl From<ExportError> for Error {
    fn from(e: ExportError) -> (r: Self) {
        Error::Export(e)
    }
}

impl vstd::std_specs::convert::FromSpecImpl<ExportError> for Error {
    open spec fn obeys_from_spec() -> bool {
        true
    }

    open spec fn from_spec(v: ExportError) -> Self {
        Error::Export(v)
    }
}

impl From<McpServerError> for Error {
    /// Boxed, so that `Error` and `McpServerError`, which carries an
    /// `Error` of its own, do not hold each other directly.
    fn from(e: McpServerError) -> (r: Self) {
        Error::Mcp(Box::new(e))
    }
}

impl vstd::std_specs::convert::FromSpecImpl<McpServerError> for Error {
    open spec fn obeys_from_spec() -> bool {
        true
    }

    open spec fn from_spec(v: McpServerError) -> Self {
        Error::Mcp(Box::new(v))
    }
}

impl From<Error> for McpServerError {
    fn from(e: Error) -> (r: Self) {
        McpServerError::InitialSchema(e)
    }
}

impl vstd::std_specs::convert::FromSpecImpl<Error> for McpServerError {
    open spec fn obeys_from_spec() -> bool {
        true
    }

    open spec fn from_spec(v: Error) -> Self {
        McpServerError::InitialSchema(v)
    }
}

} // verus!
