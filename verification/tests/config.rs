use dbctx::config::password_line;
use dbctx::config::ProjectConfig;
use dbctx::config::parse_port;
use dbctx::config::{
    ConfigError, ConnectionConfig, ConnectionSource, Driver, MissingSetting, DEFAULT_HOST,
};

fn vars(pairs: &[(&str, &str)]) -> Vec<(String, String)> {
    pairs
        .iter()
        .map(|(key, value)| (key.to_string(), value.to_string()))
        .collect()
}

/// The error resolving `sources` reports; it must report one.
fn resolve_err(sources: &Vec<ConnectionSource>) -> ConfigError {
    match ConnectionConfig::resolve(sources) {
        Err(error) => error,
        Ok(_) => panic!("resolution was expected to fail"),
    }
}

/// A source naming only the database, so the engine is still to be found.
fn named(database: &str) -> ConnectionSource {
    ConnectionSource {
        database: vec![database.to_string()],
        ..ConnectionSource::default()
    }
}

/// A source complete enough to resolve.
fn complete(database: &str) -> ConnectionSource {
    ConnectionSource {
        driver: Some(Driver::Mysql),
        ..named(database)
    }
}

#[test]
fn each_field_comes_from_the_highest_priority_source_that_supplies_it() {
    let cli = ConnectionSource {
        host: Some("cli-host".to_string()),
        ..ConnectionSource::default()
    };
    let dotenv = ConnectionSource {
        host: Some("dotenv-host".to_string()),
        user: Some("dotenv-user".to_string()),
        ..ConnectionSource::default()
    };
    let env = ConnectionSource {
        host: Some("env-host".to_string()),
        user: Some("env-user".to_string()),
        ..complete("env-database")
    };

    let config = ConnectionConfig::resolve(&vec![cli, dotenv, env]).unwrap();

    assert_eq!(config.host(), "cli-host");
    assert_eq!(config.user(), Some("dotenv-user"));
    assert_eq!(config.database(), "env-database");
}

#[test]
fn a_dotenv_file_outranks_the_process_environment() {
    let dotenv = ConnectionSource::from_vars(&vars(&[
        ("DB_DATABASE", "from-dotenv"),
        ("DB_CONNECTION", "mysql"),
    ]))
    .unwrap();
    let env = ConnectionSource::from_vars(&vars(&[("DB_DATABASE", "from-environment")])).unwrap();

    let config = ConnectionConfig::resolve(&vec![dotenv, env]).unwrap();

    assert_eq!(config.database(), "from-dotenv");
}

#[test]
fn the_port_falls_back_to_the_default_for_the_configured_driver() {
    for (driver, port) in [
        (Driver::Mysql, 3306),
        (Driver::Mariadb, 3306),
        (Driver::Sqlsrv, 1433),
    ] {
        let source = ConnectionSource {
            driver: Some(driver),
            ..named("shop")
        };

        let config = ConnectionConfig::resolve(&vec![source]).unwrap();

        assert_eq!(config.port(), port, "{driver:?}");
    }
}

#[test]
fn a_configured_port_beats_the_driver_default() {
    let source = ConnectionSource {
        driver: Some(Driver::Mysql),
        port: Some(3307),
        ..named("shop")
    };

    let config = ConnectionConfig::resolve(&vec![source]).unwrap();

    assert_eq!(config.port(), 3307);
}

#[test]
fn the_host_falls_back_to_the_loopback_address() {
    let config = ConnectionConfig::resolve(&vec![complete("shop")]).unwrap();

    assert_eq!(config.host(), DEFAULT_HOST);
    assert_eq!(config.host(), "127.0.0.1");
}

#[test]
fn a_configured_host_beats_the_default() {
    let source = ConnectionSource {
        host: Some("db.internal".to_string()),
        ..complete("shop")
    };

    let config = ConnectionConfig::resolve(&vec![source]).unwrap();

    assert_eq!(config.host(), "db.internal");
}

#[test]
fn a_socket_connection_still_carries_a_host() {
    let source = ConnectionSource {
        socket: Some("/tmp/mysql.sock".to_string()),
        ..complete("shop")
    };

    let config = ConnectionConfig::resolve(&vec![source]).unwrap();

    assert_eq!(config.socket(), Some("/tmp/mysql.sock"));
    assert_eq!(config.host(), DEFAULT_HOST);
}

#[test]
fn resolving_without_an_engine_reports_what_to_supply() {
    let error = resolve_err(&vec![named("shop")]);

    assert!(matches!(error, ConfigError::UnknownEngine));
    assert!(error.to_string().contains("--driver"));
}

#[test]
fn missing_settings_are_named_before_anything_is_asked() {
    assert_eq!(
        ConnectionConfig::missing(&vec![ConnectionSource::default()]),
        [MissingSetting::Database, MissingSetting::Driver]
    );
    assert_eq!(
        ConnectionConfig::missing(&vec![named("shop")]),
        [MissingSetting::Driver]
    );
    assert_eq!(
        ConnectionConfig::missing(&vec![ConnectionSource {
            driver: Some(Driver::Mysql),
            ..named("shop")
        }]),
        []
    );
}

#[test]
fn resolving_without_a_database_reports_what_to_supply() {
    let error = resolve_err(&vec![ConnectionSource::default()]);

    assert!(matches!(error, ConfigError::MissingDatabase));
    assert!(error.to_string().contains("--database"));
}

#[test]
fn environment_variables_map_onto_connection_settings() {
    let source = ConnectionSource::from_vars(&vars(&[
        ("DB_CONNECTION", "mariadb"),
        ("DB_HOST", "db.internal"),
        ("DB_PORT", "3307"),
        ("DB_DATABASE", "shop"),
        ("DB_USERNAME", "reader"),
        ("DB_PASSWORD", "secret"),
        ("UNRELATED", "ignored"),
    ]))
    .unwrap();

    assert_eq!(
        source,
        ConnectionSource {
            driver: Some(Driver::Mariadb),
            host: Some("db.internal".to_string()),
            port: Some(3307),
            database: vec!["shop".to_string()],
            user: Some("reader".to_string()),
            password: Some("secret".to_string()),
            socket: None,
        }
    );
}

#[test]
fn an_unparseable_port_names_the_offending_value() {
    let error = ConnectionSource::from_vars(&vars(&[("DB_PORT", "not-a-port")])).unwrap_err();

    assert!(matches!(error, ConfigError::InvalidPort { .. }));
    assert!(error.to_string().contains("not-a-port"));
}

#[test]
fn a_port_outside_the_range_is_rejected() {
    let error = ConnectionSource::from_vars(&vars(&[("DB_PORT", "65536")])).unwrap_err();

    assert!(matches!(error, ConfigError::InvalidPort { .. }));
}

#[test]
fn an_unknown_driver_lists_the_ones_that_work() {
    let error = ConnectionSource::from_vars(&vars(&[("DB_CONNECTION", "oracle")])).unwrap_err();

    assert!(matches!(error, ConfigError::UnknownDriver { .. }));
    let message = error.to_string();
    assert!(message.contains("oracle"));
    assert!(message.contains("mysql, mariadb, sqlsrv, postgres, sqlite"));
}

#[test]
fn drivers_round_trip_through_their_names() {
    for driver in [
        Driver::Mysql,
        Driver::Mariadb,
        Driver::Sqlsrv,
        Driver::Postgres,
        Driver::Sqlite,
    ] {
        assert_eq!(driver.as_str().parse::<Driver>().unwrap(), driver);
    }
}

#[test]
fn the_prompt_asks_only_for_what_is_missing() {
    let (result, asked) = ConnectionSource::from_prompt(&vec![MissingSetting::Database], "shop\n");
    let source = result.unwrap();

    assert_eq!(asked, "Database: ");
    assert_eq!(source.database, vec!["shop".to_string()]);
    assert_eq!(source.driver, None);
}

#[test]
fn the_prompt_asks_for_every_missing_setting_in_turn() {
    let (result, asked) = ConnectionSource::from_prompt(
        &vec![MissingSetting::Database, MissingSetting::Driver],
        "shop\nmariadb\n",
    );
    let source = result.unwrap();

    assert!(asked.contains("Database: "), "{asked}");
    assert!(
        asked.contains("Driver (mysql, mariadb, sqlsrv, postgres or sqlite): "),
        "{asked}"
    );
    assert_eq!(source.database, vec!["shop".to_string()]);
    assert_eq!(source.driver, Some(Driver::Mariadb));
}

#[test]
fn an_empty_answer_supplies_nothing_rather_than_an_empty_name() {
    let (result, _) = ConnectionSource::from_prompt(&vec![MissingSetting::Database], "\n");
    let source = result.unwrap();

    assert_eq!(source, ConnectionSource::default());
}

#[test]
fn a_closed_input_ends_the_prompt_rather_than_looping() {
    let (result, _) = ConnectionSource::from_prompt(
        &vec![MissingSetting::Database, MissingSetting::Driver],
        "",
    );
    let source = result.unwrap();

    assert_eq!(source, ConnectionSource::default());
}

#[test]
fn an_unusable_answer_to_the_driver_is_reported() {
    let (result, _) = ConnectionSource::from_prompt(&vec![MissingSetting::Driver], "oracle\n");
    let error = result.unwrap_err();

    assert!(matches!(error, ConfigError::UnknownDriver { .. }));
}

#[test]
fn debug_output_redacts_the_password() {
    let source = ConnectionSource {
        user: Some("reader".to_string()),
        password: Some("hunter2".to_string()),
        ..complete("shop")
    };

    let config = ConnectionConfig::resolve(&vec![source]).unwrap();
    let debug = config.to_debug_string();

    assert!(!debug.contains("hunter2"), "{debug}");
    assert!(debug.contains("<redacted>"), "{debug}");
    assert!(debug.contains("reader"), "{debug}");
    assert_eq!(config.password(), Some("hunter2"));
}

#[test]
fn the_debug_form_shows_every_other_field() {
    let config = ConnectionConfig::resolve(&vec![complete("shop")]).unwrap();

    assert_eq!(
        config.to_debug_string(),
        "ConnectionConfig { driver: Mysql, host: \"127.0.0.1\", port: 3306, database: [\"shop\"], user: None, password: None, socket: None }"
    );
}

#[test]
fn more_than_one_database_needs_sqlite() {
    let source = ConnectionSource {
        driver: Some(Driver::Postgres),
        database: vec!["a".to_string(), "b".to_string()],
        ..ConnectionSource::default()
    };
    let error = resolve_err(&vec![source]);
    assert!(matches!(
        error,
        ConfigError::MultipleDatabasesRequireSqlite {
            driver: Driver::Postgres,
            count: 2
        }
    ));
    assert!(error
        .to_string()
        .starts_with("2 --database values were given, but postgres connects to a single database"));

    let sqlite = ConnectionSource {
        driver: Some(Driver::Sqlite),
        database: vec!["main.db".to_string(), "archive.db".to_string()],
        ..ConnectionSource::default()
    };
    let config = ConnectionConfig::resolve(&vec![sqlite]).unwrap();
    assert_eq!(config.database(), "main.db");
    assert_eq!(config.databases().len(), 2);
    assert_eq!(config.port(), 0);
}

#[test]
fn ports_parse_as_u16_does() {
    assert_eq!(parse_port("0"), Some(0));
    assert_eq!(parse_port("+5432"), Some(5432));
    assert_eq!(parse_port("65535"), Some(65535));
    assert_eq!(parse_port("0003306"), Some(3306));
    assert_eq!(parse_port("65536"), None);
    assert_eq!(parse_port(""), None);
    assert_eq!(parse_port("+"), None);
    assert_eq!(parse_port("-1"), None);
    assert_eq!(parse_port(" 80"), None);
    assert_eq!(parse_port("99999999999999999999"), None);
}

#[test]
fn a_later_variable_replaces_an_earlier_one() {
    let source = ConnectionSource::from_vars(&vars(&[
        ("DB_HOST", "first"),
        ("DB_HOST", "second"),
    ]))
    .unwrap();
    assert_eq!(source.host.as_deref(), Some("second"));
}

#[test]
fn a_password_key_in_the_project_file_is_located() {
    assert_eq!(
        password_line("[dbctx]\ndatabase = \"shop\"\npassword = \"hunter2\"\n"),
        Some(3)
    );
    assert_eq!(password_line("[dbctx]\n  password=x"), Some(2));
    assert_eq!(password_line("[dbctx]\npassword_file = \"x\"\n"), None);
    assert_eq!(password_line(""), None);
}

#[test]
fn every_error_names_what_to_try() {
    let errors = [
        ConfigError::MissingDatabase,
        ConfigError::UnknownEngine,
        ConfigError::InvalidPort {
            value: "x".to_string(),
        },
        ConfigError::PasswordInConfigFile {
            path: ".dbctx.toml".to_string(),
            line: 3,
        },
    ];
    for error in &errors {
        assert!(error.to_string().contains("try"), "{}", error.to_string());
    }
    assert!(errors[3].to_string().starts_with("`.dbctx.toml` line 3 sets a password"));
}

#[test]
fn an_empty_project_file_states_no_connection_setting() {
    let project = ProjectConfig::default();
    assert_eq!(project.clone(), project);
    let layer = project.connection();
    assert!(layer.database.is_empty());
    assert!(layer.driver.is_none() && layer.host.is_none() && layer.password.is_none());
}

#[test]
fn the_first_refused_variable_decides_the_error() {
    let error = ConnectionSource::from_vars(&vars(&[
        ("DB_DATABASE", "shop"),
        ("DB_PORT", "not-a-port"),
        ("DB_CONNECTION", "oracle"),
    ]))
    .unwrap_err();

    assert!(matches!(error, ConfigError::InvalidPort { ref value } if value == "not-a-port"));

    let error = ConnectionSource::from_vars(&vars(&[
        ("DB_CONNECTION", "oracle"),
        ("DB_PORT", "not-a-port"),
    ]))
    .unwrap_err();

    assert!(matches!(error, ConfigError::UnknownDriver { ref value } if value == "oracle"));
}

#[test]
fn the_debug_form_quotes_plain_fields_and_hides_the_password() {
    let source = ConnectionSource {
        host: Some("db.internal".to_string()),
        user: Some("reader".to_string()),
        password: Some("hunter2".to_string()),
        socket: Some("/tmp/mysql.sock".to_string()),
        ..complete("shop")
    };

    let config = ConnectionConfig::resolve(&vec![source]).unwrap();

    assert_eq!(
        config.to_debug_string(),
        "ConnectionConfig { driver: Mysql, host: \"db.internal\", port: 3306, database: [\"shop\"], user: Some(\"reader\"), password: Some(\"<redacted>\"), socket: Some(\"/tmp/mysql.sock\") }"
    );
}
