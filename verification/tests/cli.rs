use dbctx::cli::{
    Command, ConnectionArgs, DiffArgs, ExecuteArgs, Format, GraphArgs, InitArgs, InspectArgs,
    McpArgs,
};
use dbctx::config::{ConnectionSource, Driver};

fn no_connection() -> ConnectionArgs {
    ConnectionArgs {
        host: None,
        port: None,
        database: Vec::new(),
        user: None,
        password: None,
        driver: None,
        socket: None,
        env: None,
        compose_service: None,
        docker_container: None,
    }
}

fn inspect(connection: ConnectionArgs) -> InspectArgs {
    InspectArgs {
        connection,
        output: ".ai/dbctx".to_string(),
        stdout: false,
        format: Format::All,
        analyze: false,
        llm: false,
        overwrite: false,
        no_markdown: false,
        no_json: false,
        no_mermaid: false,
    }
}

#[test]
fn every_documented_command_is_accepted() {
    let commands = vec![
        (Command::Inspect(inspect(no_connection())), "inspect"),
        (Command::Validate(no_connection()), "validate"),
        (Command::Graph(GraphArgs { connection: no_connection(), output: None }), "graph"),
        (
            Command::Diff(DiffArgs { old: "old.json".to_string(), new: "new.json".to_string() }),
            "diff",
        ),
        (Command::Stats(no_connection()), "stats"),
        (Command::Init(InitArgs { force: false }), "init"),
    ];
    for (command, name) in commands {
        assert_eq!(command.name(), name);
    }
}

#[test]
fn connection_options_become_the_highest_priority_source() {
    let args = inspect(ConnectionArgs {
        host: Some("db.internal".to_string()),
        port: Some(3307),
        database: vec!["shop".to_string()],
        user: Some("reader".to_string()),
        password: Some("secret".to_string()),
        driver: Some(Driver::Mariadb),
        socket: Some("/tmp/mysql.sock".to_string()),
        env: None,
        compose_service: None,
        docker_container: None,
    });

    assert_eq!(
        args.connection.source(),
        ConnectionSource {
            driver: Some(Driver::Mariadb),
            host: Some("db.internal".to_string()),
            port: Some(3307),
            database: vec!["shop".to_string()],
            user: Some("reader".to_string()),
            password: Some("secret".to_string()),
            socket: Some("/tmp/mysql.sock".to_string()),
        }
    );
}

#[test]
fn omitted_connection_options_state_nothing() {
    let args = inspect(no_connection());

    assert_eq!(args.connection.source(), ConnectionSource::default());
}

#[test]
fn discovery_options_are_not_part_of_the_connection_source() {
    let mut connection = no_connection();
    connection.env = Some("ci.env".to_string());
    connection.compose_service = Some("mariadb".to_string());
    connection.docker_container = Some("shop-db".to_string());
    connection.database = vec!["main.db".to_string(), "archive.db".to_string()];

    let source = connection.source();

    assert_eq!(source.database, vec!["main.db".to_string(), "archive.db".to_string()]);
    assert_eq!(source.host, None);
    assert_eq!(source.driver, None);
}

#[test]
fn the_statement_and_server_commands_have_their_documented_names() {
    let execute = Command::ExecuteStatement(ExecuteArgs {
        connection: no_connection(),
        sql: "SELECT 1".to_string(),
        timeout: 30,
    });
    let mcp = Command::Mcp(McpArgs {
        connection: no_connection(),
        sse_port: Some(8080),
        introspection_timeout: 60,
    });
    assert_eq!(execute.name(), "execute-statement");
    assert_eq!(mcp.name(), "mcp");
}
