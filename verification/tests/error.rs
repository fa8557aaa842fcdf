use dbctx::config::ConfigError;
use dbctx::database::DatabaseError;
use dbctx::diff::DiffError;
use dbctx::error::Error;
use dbctx::export::{ExportError, ExportOptions};
use dbctx::mcp_server::McpServerError;

#[test]
fn a_configuration_failure_converts_into_the_library_error() {
    let error: Error = ConfigError::MissingDatabase.into();

    assert!(matches!(error, Error::Config(_)));
    assert!(error.to_string().contains("no database was configured"));
}

#[test]
fn an_export_failure_converts_into_the_library_error() {
    let error: Error = ExportError::Io {
        path: "schema.json".to_string(),
        source: "fail".to_string(),
    }
    .into();

    assert!(matches!(error, Error::Export(_)));
    assert_eq!(error.to_string(), "could not write `schema.json`: fail");
}

#[test]
fn export_errors_say_what_to_do() {
    assert_eq!(
        ExportError::output_exists(".ai/dbctx/schema.json").to_string(),
        "`.ai/dbctx/schema.json` already exists; use --overwrite to replace it"
    );
    assert_eq!(
        ExportError::Serialization("key must be a string".to_string()).to_string(),
        "could not serialize JSON: key must be a string"
    );
    assert!(matches!(
        ExportError::io("graph.mmd", "denied"),
        ExportError::Io { ref path, ref source } if path == "graph.mmd" && source == "denied"
    ));
}

#[test]
fn diff_errors_name_the_file() {
    assert_eq!(
        DiffError::io("old.json", "No such file or directory").to_string(),
        "could not read `old.json`: No such file or directory"
    );
    assert_eq!(
        DiffError::parse("new.json", "expected value at line 1 column 1").to_string(),
        "could not parse `new.json` as a schema document: expected value at line 1 column 1"
    );
}

#[test]
fn an_mcp_failure_carries_the_library_error_it_wraps() {
    let inner: Error = DatabaseError::Catalog("TABLE_NAME missing".to_string()).into();
    let failure: McpServerError = inner.into();
    assert_eq!(
        failure.to_string(),
        "could not read the schema: could not read catalog metadata: TABLE_NAME missing"
    );

    let error: Error = McpServerError::IntrospectionTimeout(30).into();
    assert!(matches!(error, Error::Mcp(_)));
    assert_eq!(error.to_string(), "introspection timed out after 30 seconds");

    let listen = McpServerError::Listen {
        address: "127.0.0.1:8080".to_string(),
        source: "address in use".to_string(),
    };
    assert_eq!(listen.to_string(), "could not listen on 127.0.0.1:8080: address in use");
}

#[test]
fn export_options_default_to_every_artifact_under_the_documented_directory() {
    let options = ExportOptions::default();

    assert_eq!(options.output, ".ai/dbctx");
    assert!(!options.stdout);
    assert!(!options.overwrite);
    assert!(!options.no_json);
    assert!(!options.no_markdown);
    assert!(!options.no_tables);
    assert!(!options.no_mermaid);
}
