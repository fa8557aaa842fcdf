use dbctx::model::{Column, Database, DatabaseMetadata, DocumentHeader, Engine, SchemaView, Table};
use dbctx::stats::{counts_fit_in_usize, Statistics};
fn column(name: &str, ordinal: u32) -> Column {
    Column {
        name: name.to_string(),
        ordinal_position: ordinal,
        data_type: "int".to_string(),
        full_type: "int".to_string(),
        nullable: false,
        default: None,
        auto_increment: false,
        primary_key: false,
        unique: false,
        comment: None,
        generated: false,
        expression: None,
    }
}

#[test]
fn empty_database_has_zero_counts() {
    let db = Database {
        header: DocumentHeader::new(Database::FORMAT, "2026-01-01T00:00:00Z"),
        metadata: DatabaseMetadata {
            database: "empty".to_string(),
            engine: Engine::Mysql,
            engine_version: "8.0".to_string(),
            default_charset: None,
            default_collation: None,
        },
        tables: Vec::new(),
        views: Vec::new(),
    };

    let stats = Statistics::from(&db);

    assert_eq!(stats.tables, 0);
    assert_eq!(stats.views, 0);
    assert_eq!(stats.columns, 0);
    assert_eq!(stats.indexes, 0);
    assert_eq!(stats.foreign_keys, 0);
}

#[test]
fn counts_aggregate_tables_views_columns_indexes_and_foreign_keys() {
    let db = Database {
        header: DocumentHeader::new(Database::FORMAT, "2026-01-01T00:00:00Z"),
        metadata: DatabaseMetadata {
            database: "shop".to_string(),
            engine: Engine::Mysql,
            engine_version: "8.0".to_string(),
            default_charset: None,
            default_collation: None,
        },
        tables: vec![
            Table {
                schema: "shop".to_string(),
                name: "customers".to_string(),
                engine: None,
                charset: None,
                collation: None,
                comment: None,
                columns: vec![column("id", 1), column("email", 2)],
                indexes: Vec::new(),
                foreign_keys: Vec::new(),
                analysis: None,
                ai: None,
            },
            Table {
                schema: "shop".to_string(),
                name: "orders".to_string(),
                engine: None,
                charset: None,
                collation: None,
                comment: None,
                columns: vec![
                    column("id", 1),
                    column("customer_id", 2),
                    column("total", 3),
                ],
                indexes: vec![dbctx::model::Index {
                    name: "idx_total".to_string(),
                    unique: false,
                    columns: vec!["total".to_string()],
                    index_type: "BTREE".to_string(),
                }],
                foreign_keys: vec![dbctx::model::ForeignKey {
                    name: "fk_orders_customer".to_string(),
                    columns: vec!["customer_id".to_string()],
                    referenced_schema: "shop".to_string(),
                    referenced_table: "customers".to_string(),
                    referenced_columns: vec!["id".to_string()],
                    on_update: "NO ACTION".to_string(),
                    on_delete: "NO ACTION".to_string(),
                }],
                analysis: None,
                ai: None,
            },
        ],
        views: vec![SchemaView {
            schema: "shop".to_string(),
            name: "recent_orders".to_string(),
            columns: vec![column("id", 1), column("total", 2)],
        }],
    };

    let stats = Statistics::from(&db);

    assert_eq!(stats.tables, 2);
    assert_eq!(stats.views, 1);
    assert_eq!(stats.columns, 7); // 2 + 3 + 2
    assert_eq!(stats.indexes, 1);
    assert_eq!(stats.foreign_keys, 1);
}

#[test]
fn display_matches_cli_example() {
    let stats = Statistics {
        tables: 42,
        views: 3,
        columns: 615,
        indexes: 108,
        foreign_keys: 67,
    };

    let output = stats.to_string();
    let expected = "Tables:          42
Views:            3
Columns:        615
Indexes:        108
Foreign Keys:    67";

    assert_eq!(output, expected);
}

#[test]
fn an_ordinary_schema_can_be_counted() {
    let db = Database {
        header: DocumentHeader::new(Database::FORMAT, "2026-01-01T00:00:00Z"),
        metadata: DatabaseMetadata {
            database: "shop".to_string(),
            engine: Engine::Mysql,
            engine_version: "8.0".to_string(),
            default_charset: None,
            default_collation: None,
        },
        tables: Vec::new(),
        views: vec![SchemaView {
            schema: "shop".to_string(),
            name: "v".to_string(),
            columns: vec![column("id", 1)],
        }],
    };
    assert!(counts_fit_in_usize(&db));
}
