use dbctx::config::{ConfigError, ConnectionSource, Driver};
use dbctx::discovery::{
    container_for_service, credentials, driver_from_image, environment_from_list,
    published_host_port, refusal_mentions, resolve, source_from_description, ComposeContainer,
    DiscoveryError, Options, Selector,
};
use dbctx::discovery::{compose_containers, compose_listing, ComposeEntry, ComposeListing};

fn container(service: &str, name: &str, state: &str) -> ComposeContainer {
    ComposeContainer {
        service: service.to_string(),
        name: name.to_string(),
        state: state.to_string(),
    }
}

/// What `docker compose ps` reports for the fixture project.
fn compose_ps() -> Vec<ComposeContainer> {
    vec![
        container("db", "shop-db-1", "running"),
        container("cache", "shop-cache-1", "running"),
        container("worker", "shop-worker-1", "exited (0)"),
    ]
}

fn pairs(entries: &[(&str, &str)]) -> Vec<(String, String)> {
    entries
        .iter()
        .map(|(k, v)| (k.to_string(), v.to_string()))
        .collect()
}

fn ports(entries: &[(&str, &[Option<&str>])]) -> Vec<(String, Vec<Option<String>>)> {
    entries
        .iter()
        .map(|(key, bindings)| {
            (
                key.to_string(),
                bindings.iter().map(|b| b.map(|p| p.to_string())).collect(),
            )
        })
        .collect()
}

#[test]
fn a_service_resolves_to_the_container_running_it() {
    let containers = compose_ps();

    assert_eq!(
        container_for_service(&containers, "db").unwrap(),
        "shop-db-1"
    );
}

#[test]
fn a_service_that_is_not_up_says_so_rather_than_reporting_a_dead_port() {
    let containers = compose_ps();

    let error = container_for_service(&containers, "worker").unwrap_err();

    assert!(matches!(error, DiscoveryError::ServiceNotRunning { .. }));
    let message = error.to_string();
    assert!(message.contains("exited (0)"), "{message}");
    assert!(message.contains("docker compose up -d worker"), "{message}");
}

#[test]
fn a_project_with_nothing_started_says_to_start_it() {
    let error = container_for_service(&Vec::new(), "db").unwrap_err();

    assert!(
        error.to_string().contains("docker compose up -d"),
        "{}",
        error.to_string()
    );
}

#[test]
fn a_running_container_supplies_the_whole_connection() {
    let environment = environment_from_list(&vec![
        "MARIADB_DATABASE=shop".to_string(),
        "MARIADB_ROOT_PASSWORD=root-secret".to_string(),
        "PATH=/usr/bin".to_string(),
    ]);
    let published = ports(&[("3306/tcp", &[Some("3308")])]);

    let source =
        source_from_description("shop-db-1", "mariadb:11", &environment, &published).unwrap();

    assert_eq!(
        source,
        ConnectionSource {
            driver: Some(Driver::Mariadb),
            host: Some("127.0.0.1".to_string()),
            port: Some(3308),
            database: vec!["shop".to_string()],
            user: Some("root".to_string()),
            password: Some("root-secret".to_string()),
            socket: None,
        }
    );
}

#[test]
fn an_unknown_service_lists_the_ones_that_have_containers() {
    let containers = compose_ps();

    let error = container_for_service(&containers, "database").unwrap_err();

    let message = error.to_string();
    assert!(message.contains("database"), "{message}");
    assert!(message.contains("db, cache, worker"), "{message}");
}

#[test]
fn a_container_running_something_else_is_reported_as_such() {
    let error =
        source_from_description("shop-cache-1", "redis:7", &Vec::new(), &Vec::new()).unwrap_err();

    assert!(matches!(error, DiscoveryError::UnrecognisedImage { .. }));
    assert!(error.to_string().contains("redis:7"), "{}", error.to_string());
}

#[test]
fn a_container_that_publishes_nothing_says_which_port_was_wanted() {
    let error =
        source_from_description("shop-db-1", "mysql:8.4", &Vec::new(), &Vec::new()).unwrap_err();

    assert!(matches!(error, DiscoveryError::NoPublishedPort { .. }));
    assert!(error.to_string().contains("3306"), "{}", error.to_string());
}

#[test]
fn images_name_the_engine_they_run() {
    for (image, driver) in [
        ("mysql:8.4", Some(Driver::Mysql)),
        ("mysql:8.0-debian", Some(Driver::Mysql)),
        ("percona:8.0", Some(Driver::Mysql)),
        ("mariadb:11", Some(Driver::Mariadb)),
        ("mariadb:10.11-jammy", Some(Driver::Mariadb)),
        (
            "mcr.microsoft.com/mssql/server:2022-latest",
            Some(Driver::Sqlsrv),
        ),
        (
            "mcr.microsoft.com/mssql/server:2019-latest",
            Some(Driver::Sqlsrv),
        ),
        ("redis:7", None),
        ("postgres:16", None),
        ("", None),
    ] {
        assert_eq!(driver_from_image(image), driver, "{image}");
    }
}

#[test]
fn a_mariadb_image_is_never_mistaken_for_mysql() {
    assert_eq!(driver_from_image("mariadb:11"), Some(Driver::Mariadb));
    assert_eq!(driver_from_image("MariaDB:11"), Some(Driver::Mariadb));
}

#[test]
fn only_the_binding_for_the_engines_own_port_is_taken() {
    let published = ports(&[("8080/tcp", &[Some("9090")]), ("3306/tcp", &[Some("3307")])]);

    assert_eq!(published_host_port(&published, Driver::Mysql), Some(3307));
    assert_eq!(published_host_port(&published, Driver::Sqlsrv), None);
}

#[test]
fn a_port_that_is_exposed_but_not_published_is_not_a_port() {
    let published = ports(&[("3306/tcp", &[])]);

    assert_eq!(published_host_port(&published, Driver::Mysql), None);
}

#[test]
fn an_environment_is_read_as_a_map_or_as_a_list() {
    let map = pairs(&[("MYSQL_DATABASE", "shop")]);
    let list = environment_from_list(&vec!["MYSQL_DATABASE=shop".to_string()]);

    assert_eq!(map, list);
    assert_eq!(list[0].1, "shop");
}

#[test]
fn an_environment_value_containing_an_equals_sign_survives() {
    let list = environment_from_list(&vec!["MYSQL_ROOT_PASSWORD=a=b=c".to_string()]);

    assert_eq!(list, pairs(&[("MYSQL_ROOT_PASSWORD", "a=b=c")]));
}

#[test]
fn sql_server_connects_as_sa_with_either_password_variable() {
    for key in ["MSSQL_SA_PASSWORD", "SA_PASSWORD"] {
        let environment = pairs(&[(key, "secret")]);

        let (database, user, password) = credentials(Driver::Sqlsrv, &environment);

        assert_eq!(database, None);
        assert_eq!(user.as_deref(), Some("sa"));
        assert_eq!(password.as_deref(), Some("secret"));
    }
}

#[test]
fn an_unprivileged_user_is_preferred_over_the_superuser() {
    let environment = pairs(&[
        ("MYSQL_USER", "reader"),
        ("MYSQL_PASSWORD", "secret"),
        ("MYSQL_ROOT_PASSWORD", "root-secret"),
    ]);

    let (_, user, password) = credentials(Driver::Mysql, &environment);

    assert_eq!(user.as_deref(), Some("reader"));
    assert_eq!(password.as_deref(), Some("secret"));
}

#[test]
fn a_refusal_is_read_to_tell_a_missing_object_from_a_broken_daemon() {
    let missing = DiscoveryError::DockerRefused {
        command: "inspect nonesuch".to_string(),
        message: "Error: No such object: nonesuch".to_string(),
    };
    let broken = DiscoveryError::DockerRefused {
        command: "inspect db".to_string(),
        message: "Cannot connect to the Docker daemon".to_string(),
    };

    assert!(refusal_mentions(&missing, "no such object"));
    assert!(!refusal_mentions(&broken, "no such object"));
    assert!(!refusal_mentions(
        &DiscoveryError::DockerMissing,
        "no such object"
    ));
}

#[test]
fn asking_for_both_selectors_is_refused_before_docker_runs() {
    let options = Options {
        compose_service: Some("db".to_string()),
        docker_container: Some("shop-db-1".to_string()),
        ..Options::default()
    };

    let error = options.selector().unwrap_err();

    assert!(matches!(error, DiscoveryError::ConflictingSelectors));
}

#[test]
fn resolving_without_docker_uses_the_layers_it_was_given() {
    let options = Options {
        cli: ConnectionSource {
            database: vec!["shop".to_string()],
            ..ConnectionSource::default()
        },
        environment: ConnectionSource {
            driver: Some(Driver::Mariadb),
            ..ConnectionSource::default()
        },
        ..Options::default()
    };

    assert!(matches!(options.selector(), Ok(Selector::Nothing)));
    let config = resolve(&options, ConnectionSource::default(), None).unwrap();

    assert_eq!(config.database(), "shop");
    assert_eq!(config.driver(), Driver::Mariadb);
    assert_eq!(config.port(), 3306);
}

#[test]
fn a_missing_engine_is_reported_rather_than_guessed() {
    let options = Options {
        cli: ConnectionSource {
            database: vec!["shop".to_string()],
            host: Some("db.internal".to_string()),
            ..ConnectionSource::default()
        },
        ..Options::default()
    };

    let error = match resolve(&options, ConnectionSource::default(), None) {
        Err(error) => error,
        Ok(_) => panic!("resolution was expected to fail"),
    };

    assert!(matches!(
        error,
        DiscoveryError::Config(ConfigError::UnknownEngine)
    ));
}

#[test]
fn the_discovered_layer_ranks_below_the_command_line() {
    let options = Options {
        cli: ConnectionSource {
            port: Some(4000),
            ..ConnectionSource::default()
        },
        interactive: true,
        ..Options::default()
    };
    let environment = pairs(&[("MYSQL_DATABASE", "shop")]);
    let docker = source_from_description(
        "db",
        "mysql:8",
        &environment,
        &ports(&[("3306/tcp", &[None, Some("x"), Some("3310")])]),
    )
    .unwrap();
    assert_eq!(docker.port, Some(3310));
    assert!(options.to_ask(&docker).is_empty());

    let config = resolve(&options, docker, None).unwrap();
    assert_eq!(config.port(), 4000);
    assert_eq!(config.database(), "shop");
    assert_eq!(config.user(), Some("root"));
}

#[test]
fn compose_output_is_split_into_lines_unless_it_is_one_array() {
    let lines = "{\"Service\":\"db\"}\n  \n{\"Service\":\"app\"}\n";
    match compose_listing(lines) {
        ComposeListing::Lines(found) => {
            assert_eq!(found, vec!["{\"Service\":\"db\"}", "{\"Service\":\"app\"}"]);
        }
        other => panic!("unexpected listing {other:?}"),
    }
    let array = "  [{\"Service\":\"db\"}]";
    match compose_listing(array) {
        ComposeListing::Array(text) => assert_eq!(text, array),
        other => panic!("unexpected listing {other:?}"),
    }
}

#[test]
fn compose_entries_without_a_service_or_name_are_skipped() {
    let text = |s: &str| Some(s.to_string());
    let entries = vec![
        ComposeEntry { service: text("db"), name: text("shop-db-1"), state: text("running") },
        ComposeEntry { service: None, name: text("orphan"), state: text("running") },
        ComposeEntry { service: text("worker"), name: None, state: None },
        ComposeEntry { service: text("cache"), name: text("shop-cache-1"), state: None },
    ];
    assert_eq!(
        compose_containers(&entries),
        vec![container("db", "shop-db-1", "running"), container("cache", "shop-cache-1", "")]
    );
}
