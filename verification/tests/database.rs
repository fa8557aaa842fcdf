use dbctx::database::mysql::{
    self, build_database, column_row, engine_from_version, foreign_key_row, index_row,
    version_from_row, Catalog, RawColumn, TableInfo,
};
use dbctx::database::sqlserver;
use dbctx::database::{postgres, sqlite};
use dbctx::database::{
    foreign_keys_for_table, indexes_for_table, is_primary_key, is_unique_column, DatabaseError,
    QualifiedName, RawForeignKey, RawIndex,
};
use dbctx::model::Engine;

fn raw_index(table: &str, name: &str, column: &str, sequence: u32, unique: bool) -> RawIndex {
    RawIndex {
        schema: "shop".to_string(),
        table: table.to_string(),
        name: name.to_string(),
        unique,
        primary: name == "PRIMARY",
        column: column.to_string(),
        sequence,
        index_type: "BTREE".to_string(),
    }
}

fn raw_foreign_key(table: &str, name: &str, column: &str, sequence: u32, target: &str) -> RawForeignKey {
    RawForeignKey {
        schema: "shop".to_string(),
        table: table.to_string(),
        name: name.to_string(),
        column: column.to_string(),
        sequence,
        referenced_schema: "shop".to_string(),
        referenced_table: "customers".to_string(),
        referenced_column: target.to_string(),
        on_update: "NO ACTION".to_string(),
        on_delete: "CASCADE".to_string(),
    }
}

fn catalog_error(e: DatabaseError) -> String {
    match e {
        DatabaseError::Catalog(m) => m,
        DatabaseError::Connection(m) => panic!("expected a catalog error, got connection: {m}"),
    }
}

#[test]
fn index_rows_group_into_indexes_in_name_order() {
    let raws = vec![
        raw_index("orders", "idx_customer", "customer_id", 1, false),
        raw_index("orders", "PRIMARY", "line", 2, true),
        raw_index("orders", "PRIMARY", "order_id", 1, true),
        raw_index("customers", "PRIMARY", "id", 1, true),
    ];

    let indexes = indexes_for_table("shop", "orders", &raws, true);

    assert_eq!(indexes.len(), 2);
    assert_eq!(indexes[0].name, "PRIMARY");
    assert!(indexes[0].unique);
    assert_eq!(indexes[0].columns, vec!["order_id".to_string(), "line".to_string()]);
    assert_eq!(indexes[1].name, "idx_customer");
    assert!(!indexes[1].unique);
    assert_eq!(indexes[1].columns, vec!["customer_id".to_string()]);
    assert_eq!(indexes[1].index_type, "BTREE");
}

#[test]
fn index_rows_of_another_schema_are_ignored() {
    let mut other = raw_index("orders", "PRIMARY", "id", 1, true);
    other.schema = "archive".to_string();

    assert!(indexes_for_table("shop", "orders", &vec![other], true).is_empty());
}

#[test]
fn primary_and_single_column_unique_indexes_mark_columns() {
    let raws = vec![
        raw_index("users", "PRIMARY", "id", 1, true),
        raw_index("users", "uq_email", "email", 1, true),
        raw_index("users", "uq_name", "first_name", 1, true),
        raw_index("users", "uq_name", "last_name", 2, true),
        raw_index("users", "idx_city", "city", 1, false),
    ];

    assert!(is_primary_key("shop", "users", "id", &raws));
    assert!(!is_primary_key("shop", "users", "email", &raws));
    assert!(is_unique_column("shop", "users", "email", &raws));
    assert!(!is_unique_column("shop", "users", "first_name", &raws));
    assert!(!is_unique_column("shop", "users", "city", &raws));
    assert!(!is_unique_column("shop", "accounts", "email", &raws));
}

#[test]
fn foreign_key_rows_pair_columns_in_position_order() {
    let raws = vec![
        raw_foreign_key("orders", "fk_z", "b", 2, "y"),
        raw_foreign_key("orders", "fk_z", "a", 1, "x"),
        raw_foreign_key("orders", "fk_a", "customer_id", 1, "id"),
        raw_foreign_key("invoices", "fk_b", "order_id", 1, "id"),
    ];

    let fks = foreign_keys_for_table("shop", "orders", &raws);

    assert_eq!(fks.len(), 2);
    assert_eq!(fks[0].name, "fk_a");
    assert_eq!(fks[1].name, "fk_z");
    assert_eq!(fks[1].columns, vec!["a".to_string(), "b".to_string()]);
    assert_eq!(fks[1].referenced_columns, vec!["x".to_string(), "y".to_string()]);
    assert_eq!(fks[1].referenced_table, "customers");
    assert_eq!(fks[1].on_delete, "CASCADE");
}

#[test]
fn a_mariadb_version_string_names_mariadb() {
    assert_eq!(engine_from_version("10.11.6-MariaDB-1:10.11.6+maria~ubu2204"), Engine::Mariadb);
    assert_eq!(engine_from_version("8.4.0"), Engine::Mysql);
    assert_eq!(engine_from_version("5.5.5-10.6.12-mariadb"), Engine::Mariadb);
}

#[test]
fn a_missing_version_row_is_a_catalog_error() {
    assert_eq!(version_from_row(Some("8.4.0".to_string())).unwrap(), "8.4.0");
    let e = version_from_row(None).unwrap_err();
    assert_eq!(catalog_error(e), "VERSION() returned no row");
}

fn mysql_raw_column(name: &str, extra: &str, generation: Option<&str>) -> RawColumn {
    RawColumn {
        table_name: "users".to_string(),
        name: name.to_string(),
        ordinal_position: 1,
        data_type: "int".to_string(),
        full_type: "int".to_string(),
        nullable: false,
        default: None,
        extra: extra.to_string(),
        comment: None,
        generation_expression: generation.map(|s| s.to_string()),
    }
}

#[test]
fn mysql_columns_read_their_flags_from_extra_and_indexes() {
    let indexes = vec![raw_index("users", "PRIMARY", "id", 1, true)];

    let id = mysql::to_column(&mysql_raw_column("id", "AUTO_INCREMENT", Some("")), "shop", &indexes);
    assert!(id.auto_increment);
    assert!(id.primary_key);
    assert!(id.unique);
    assert!(!id.generated);
    assert_eq!(id.expression, None);

    let total = mysql::to_column(
        &mysql_raw_column("total", "VIRTUAL GENERATED", Some("price * qty")),
        "shop",
        &indexes,
    );
    assert!(total.generated);
    assert_eq!(total.expression.as_deref(), Some("price * qty"));
    assert!(!total.primary_key);
    assert!(!total.unique);
}

#[test]
fn mysql_column_rows_report_the_first_missing_value() {
    let e = column_row(None, None, None, None, None, None, None, None, None, None).unwrap_err();
    assert_eq!(catalog_error(e), "TABLE_NAME missing");

    let e = column_row(
        Some("users".to_string()),
        Some("id".to_string()),
        Some(1),
        None,
        None,
        None,
        None,
        None,
        None,
        None,
    )
    .unwrap_err();
    assert_eq!(catalog_error(e), "DATA_TYPE missing");

    let c = column_row(
        Some("users".to_string()),
        Some("id".to_string()),
        Some(1),
        Some("int".to_string()),
        Some("int unsigned".to_string()),
        Some("YES".to_string()),
        Some("0".to_string()),
        None,
        None,
        None,
    )
    .unwrap();
    assert!(c.nullable);
    assert_eq!(c.extra, "");
    assert_eq!(c.full_type, "int unsigned");
    assert_eq!(c.default.as_deref(), Some("0"));
}

#[test]
fn mysql_index_rows_read_uniqueness_and_default_type() {
    let x = index_row(
        "shop",
        Some("users".to_string()),
        Some("PRIMARY".to_string()),
        Some(0),
        Some("id".to_string()),
        Some(1),
        None,
    )
    .unwrap();
    assert!(x.unique);
    assert!(x.primary);
    assert_eq!(x.index_type, "BTREE");
    assert_eq!(x.schema, "shop");

    let y = index_row(
        "shop",
        Some("users".to_string()),
        Some("idx_city".to_string()),
        Some(1),
        Some("city".to_string()),
        Some(1),
        Some("HASH".to_string()),
    )
    .unwrap();
    assert!(!y.unique);
    assert!(!y.primary);
    assert_eq!(y.index_type, "HASH");

    let e = index_row("shop", Some("users".to_string()), Some("i".to_string()), Some(0), None, None, None)
        .unwrap_err();
    assert_eq!(catalog_error(e), "COLUMN_NAME missing");
}

#[test]
fn mysql_foreign_key_rows_default_their_actions() {
    let fk = foreign_key_row(
        "shop",
        Some("orders".to_string()),
        Some("fk_customer".to_string()),
        Some("customer_id".to_string()),
        Some(1),
        Some("shop".to_string()),
        Some("customers".to_string()),
        Some("id".to_string()),
        None,
        Some("CASCADE".to_string()),
    )
    .unwrap();
    assert_eq!(fk.on_update, "NO ACTION");
    assert_eq!(fk.on_delete, "CASCADE");

    let e = foreign_key_row(
        "shop",
        Some("orders".to_string()),
        Some("fk_customer".to_string()),
        Some("customer_id".to_string()),
        Some(1),
        Some("shop".to_string()),
        None,
        None,
        None,
        None,
    )
    .unwrap_err();
    assert_eq!(catalog_error(e), "REFERENCED_TABLE_NAME missing");
}

#[test]
fn a_mysql_catalog_becomes_a_sorted_database() {
    let catalog = Catalog {
        database: "shop".to_string(),
        version: "10.11.6-MariaDB".to_string(),
        default_charset: Some("utf8mb4".to_string()),
        default_collation: None,
        tables: vec!["users".to_string(), "orders".to_string()],
        views: vec!["active_users".to_string()],
        columns: vec![
            mysql_raw_column("id", "auto_increment", None),
            RawColumn { table_name: "orders".to_string(), ordinal_position: 2, ..mysql_raw_column("total", "", None) },
            RawColumn { table_name: "orders".to_string(), ordinal_position: 1, ..mysql_raw_column("id", "", None) },
            RawColumn { table_name: "active_users".to_string(), ..mysql_raw_column("id", "", None) },
        ],
        indexes: vec![raw_index("users", "PRIMARY", "id", 1, true)],
        foreign_keys: vec![raw_foreign_key("orders", "fk_user", "user_id", 1, "id")],
        table_infos: vec![TableInfo {
            table: "users".to_string(),
            engine: Some("InnoDB".to_string()),
            collation: Some("utf8mb4_general_ci".to_string()),
            comment: Some("people".to_string()),
        }],
    };

    let db = build_database(&catalog, "2026-01-01T00:00:00Z");

    assert_eq!(db.metadata.engine, Engine::Mariadb);
    assert_eq!(db.metadata.database, "shop");
    assert_eq!(db.header.generated_at, "2026-01-01T00:00:00Z");
    assert_eq!(db.tables.len(), 2);
    assert_eq!(db.tables[0].name, "orders");
    assert_eq!(db.tables[0].columns[0].name, "id");
    assert_eq!(db.tables[0].columns[1].name, "total");
    assert_eq!(db.tables[0].foreign_keys.len(), 1);
    assert_eq!(db.tables[0].engine, None);
    assert_eq!(db.tables[1].name, "users");
    assert_eq!(db.tables[1].engine.as_deref(), Some("InnoDB"));
    assert_eq!(db.tables[1].comment.as_deref(), Some("people"));
    assert!(db.tables[1].columns[0].primary_key);
    assert!(db.tables[1].columns[0].auto_increment);
    assert_eq!(db.tables[1].indexes.len(), 1);
    assert_eq!(db.views.len(), 1);
    assert_eq!(db.views[0].columns.len(), 1);
}

#[test]
fn sqlserver_full_types_follow_length_then_precision() {
    assert_eq!(sqlserver::full_sql_type("varchar", Some(255), None, None, None), "varchar(255)");
    assert_eq!(sqlserver::full_sql_type("nvarchar", Some(-1), None, None, None), "nvarchar");
    assert_eq!(sqlserver::full_sql_type("decimal", None, Some(10), Some(2), None), "decimal(10,2)");
    assert_eq!(sqlserver::full_sql_type("decimal", None, Some(5), None, None), "decimal(5,0)");
    assert_eq!(sqlserver::full_sql_type("decimal", None, Some(5), Some(-3), None), "decimal(5,-3)");
    assert_eq!(sqlserver::full_sql_type("datetime2", None, None, None, Some(7)), "datetime2(7)");
    assert_eq!(sqlserver::full_sql_type("int", None, None, None, None), "int");
}

fn sqlserver_raw_column(name: &str) -> sqlserver::RawColumn {
    sqlserver::RawColumn {
        schema: "dbo".to_string(),
        table: "orders".to_string(),
        name: name.to_string(),
        ordinal_position: 1,
        data_type: "int".to_string(),
        full_type: "int".to_string(),
        nullable: false,
        default: None,
    }
}

fn note(column: &str, text: &str) -> sqlserver::ColumnText {
    sqlserver::ColumnText {
        schema: "dbo".to_string(),
        table: "orders".to_string(),
        column: column.to_string(),
        text: text.to_string(),
    }
}

#[test]
fn sqlserver_columns_read_identity_comments_and_computed_expressions() {
    let mut pk = raw_index("orders", "PK_orders", "id", 1, true);
    pk.schema = "dbo".to_string();
    pk.primary = true;
    let identities = vec![sqlserver::ColumnKey {
        schema: "dbo".to_string(),
        table: "orders".to_string(),
        column: "id".to_string(),
    }];
    let comments = vec![note("id", "first"), note("id", "the key")];
    let computed = vec![note("total", "([price]*[qty])")];

    let id = sqlserver::to_column(&sqlserver_raw_column("id"), &vec![pk], &identities, &comments, &computed);
    assert!(id.auto_increment);
    assert!(id.primary_key);
    assert!(id.unique);
    assert_eq!(id.comment.as_deref(), Some("the key"));
    assert!(!id.generated);

    let total = sqlserver::to_column(&sqlserver_raw_column("total"), &Vec::new(), &identities, &comments, &computed);
    assert!(!total.auto_increment);
    assert!(total.generated);
    assert_eq!(total.expression.as_deref(), Some("([price]*[qty])"));
    assert_eq!(total.comment, None);
}

#[test]
fn sqlserver_rows_report_the_first_missing_value() {
    let e = sqlserver::index_row(
        Some("dbo".to_string()),
        Some("orders".to_string()),
        Some("PK".to_string()),
        Some(true),
        None,
        None,
        None,
        None,
    )
    .unwrap_err();
    assert_eq!(catalog_error(e), "is_primary_key missing");

    let e = sqlserver::column_text_row(
        Some("dbo".to_string()),
        Some("orders".to_string()),
        Some("total".to_string()),
        None,
        "expression",
    )
    .unwrap_err();
    assert_eq!(catalog_error(e), "expression missing");

    let e = sqlserver::object_row(Some("dbo".to_string()), None).unwrap_err();
    assert_eq!(catalog_error(e), "TABLE_NAME missing");

    let c = sqlserver::column_row(
        Some("dbo".to_string()),
        Some("orders".to_string()),
        Some("decimal".to_string()),
        Some("total".to_string()),
        Some(3),
        None,
        Some(10),
        Some(2),
        None,
        Some("NO".to_string()),
        None,
    )
    .unwrap();
    assert_eq!(c.full_type, "decimal(10,2)");
    assert_eq!(c.ordinal_position, 3);
    assert!(!c.nullable);

    let e = sqlserver::database_name_from_row(None).unwrap_err();
    assert_eq!(catalog_error(e), "DB_NAME() returned no row");
}

#[test]
fn a_sqlserver_catalog_becomes_a_sorted_database() {
    let mut pk = raw_index("orders", "PK_orders", "id", 1, true);
    pk.schema = "dbo".to_string();
    pk.primary = true;
    let catalog = sqlserver::Catalog {
        database: "shop".to_string(),
        version: "Microsoft SQL Server 2022".to_string(),
        default_collation: Some("SQL_Latin1_General_CP1_CI_AS".to_string()),
        tables: vec![
            QualifiedName { schema: "sales".to_string(), name: "orders".to_string() },
            QualifiedName { schema: "dbo".to_string(), name: "orders".to_string() },
        ],
        views: Vec::new(),
        columns: vec![sqlserver_raw_column("id")],
        indexes: vec![pk],
        foreign_keys: Vec::new(),
        identities: Vec::new(),
        table_comments: vec![sqlserver::TableText {
            schema: "dbo".to_string(),
            table: "orders".to_string(),
            text: "Orders placed".to_string(),
        }],
        column_comments: Vec::new(),
        computed: Vec::new(),
    };

    let db = sqlserver::build_database(&catalog, "2026-01-01T00:00:00Z");

    assert_eq!(db.metadata.engine, Engine::Sqlserver);
    assert_eq!(db.metadata.default_charset, None);
    assert_eq!(db.tables[0].schema, "dbo");
    assert_eq!(db.tables[0].comment.as_deref(), Some("Orders placed"));
    assert_eq!(db.tables[0].columns.len(), 1);
    assert!(db.tables[0].columns[0].primary_key);
    assert_eq!(db.tables[0].indexes[0].name, "PK_orders");
    assert_eq!(db.tables[1].schema, "sales");
    assert!(db.tables[1].columns.is_empty());
}

#[test]
fn postgres_columns_count_sequences_and_identities_as_auto_increment() {
    let raw = |name: &str, default: Option<&str>, identity: bool| postgres::RawColumn {
        schema: "public".to_string(),
        table: "orders".to_string(),
        name: name.to_string(),
        ordinal_position: 1,
        data_type: "integer".to_string(),
        full_type: "integer".to_string(),
        nullable: false,
        default: default.map(|d| d.to_string()),
        is_identity: identity,
        is_generated: false,
        generation_expression: None,
        comment: Some("key".to_string()),
    };
    let mut pk = raw_index("orders", "orders_pkey", "id", 1, false);
    pk.schema = "public".to_string();
    pk.primary = true;
    let indexes = vec![pk];

    let id = postgres::to_column(&raw("id", Some("nextval('orders_id_seq'::regclass)"), false), &indexes);
    assert!(id.auto_increment);
    assert!(id.primary_key);
    assert!(id.unique);
    assert_eq!(id.comment.as_deref(), Some("key"));

    let n = postgres::to_column(&raw("n", Some("0"), true), &indexes);
    assert!(n.auto_increment);
    assert!(!n.primary_key);

    let m = postgres::to_column(&raw("m", Some("now()"), false), &indexes);
    assert!(!m.auto_increment);
}

#[test]
fn a_postgres_primary_key_index_keeps_its_own_uniqueness() {
    let mut pk = raw_index("orders", "orders_pkey", "id", 1, false);
    pk.primary = true;
    assert!(!indexes_for_table("shop", "orders", &vec![pk], false)[0].unique);
    let mut pk = raw_index("orders", "orders_pkey", "id", 1, false);
    pk.primary = true;
    assert!(indexes_for_table("shop", "orders", &vec![pk], true)[0].unique);
}

#[test]
fn a_postgres_catalog_becomes_a_sorted_database() {
    let catalog = postgres::Catalog {
        database: "shop".to_string(),
        version: "PostgreSQL 16.2".to_string(),
        default_charset: Some("UTF8".to_string()),
        default_collation: Some("en_US.UTF-8".to_string()),
        tables: vec![QualifiedName { schema: "public".to_string(), name: "orders".to_string() }],
        views: vec![QualifiedName { schema: "public".to_string(), name: "recent".to_string() }],
        table_infos: vec![postgres::TableInfo {
            schema: "public".to_string(),
            table: "orders".to_string(),
            comment: Some("Orders".to_string()),
        }],
        columns: Vec::new(),
        indexes: Vec::new(),
        foreign_keys: Vec::new(),
    };

    let db = postgres::build_database(&catalog, "2026-01-01T00:00:00Z");

    assert_eq!(db.metadata.engine, Engine::Postgres);
    assert_eq!(db.metadata.default_charset.as_deref(), Some("UTF8"));
    assert_eq!(db.tables[0].comment.as_deref(), Some("Orders"));
    assert_eq!(db.views[0].name, "recent");
}

#[test]
fn sqlite_schema_names_and_quoted_identifiers() {
    assert_eq!(sqlite::schema_name(0), "main");
    assert_eq!(sqlite::schema_name(1), "attach1");
    assert_eq!(sqlite::schema_name(12), "attach12");
    assert_eq!(sqlite::quote_ident("orders"), "\"orders\"");
    assert_eq!(sqlite::quote_ident("odd\"name"), "\"odd\"\"name\"");
}

#[test]
fn sqlite_columns_read_type_keys_and_generation() {
    let raw = |name: &str, decl: &str, pk: i64, hidden: i64, default: Option<&str>| sqlite::RawColumn {
        name: name.to_string(),
        ordinal_position: 1,
        decl_type: decl.to_string(),
        notnull: pk > 0,
        dflt_value: default.map(|d| d.to_string()),
        pk,
        hidden,
    };
    let indexes = vec![sqlite::RawIndex {
        name: "uq_email".to_string(),
        unique: true,
        origin: "u".to_string(),
        columns: vec!["email".to_string()],
    }];

    let id = sqlite::to_column(&raw("id", "INTEGER", 1, 0, None), &indexes);
    assert!(id.primary_key);
    assert!(id.auto_increment);
    assert!(id.unique);
    assert!(!id.nullable);

    let email = sqlite::to_column(&raw("email", " VARCHAR (255)", 0, 0, None), &indexes);
    assert_eq!(email.data_type, "VARCHAR");
    assert_eq!(email.full_type, " VARCHAR (255)");
    assert!(email.unique);
    assert!(!email.auto_increment);

    let total = sqlite::to_column(&raw("total", "REAL", 0, 3, None), &indexes);
    assert!(total.generated);
    assert!(!total.unique);

    let code = sqlite::to_column(&raw("code", "integer", 1, 0, Some("7")), &indexes);
    assert!(!code.auto_increment);
}

#[test]
fn sqlite_indexes_keep_named_columns_in_position_order() {
    let entry = sqlite::index_entry(
        "idx".to_string(),
        false,
        "c".to_string(),
        vec![
            sqlite::IndexColumn { seqno: 1, name: Some("b".to_string()) },
            sqlite::IndexColumn { seqno: 2, name: None },
            sqlite::IndexColumn { seqno: 0, name: Some("a".to_string()) },
        ],
    )
    .unwrap();
    assert_eq!(entry.columns, vec!["a".to_string(), "b".to_string()]);

    assert!(sqlite::index_entry("expr".to_string(), false, "c".to_string(), vec![sqlite::IndexColumn { seqno: 0, name: None }]).is_none());

    let indexes = sqlite::indexes_from_raw(&vec![entry]);
    assert_eq!(indexes[0].index_type, "BTREE");
    assert_eq!(indexes[0].name, "idx");
}

#[test]
fn sqlite_foreign_keys_are_named_after_their_target_and_number() {
    let fk = |id: i64, seq: i64, table: &str, column: &str, target: Option<&str>| sqlite::RawForeignKey {
        id,
        seq,
        referenced_table: table.to_string(),
        column: column.to_string(),
        referenced_column: target.map(|t| t.to_string()),
        on_update: "NO ACTION".to_string(),
        on_delete: "CASCADE".to_string(),
    };
    let fks = sqlite::foreign_keys_from_raw(
        "main",
        &vec![
            fk(1, 1, "customers", "b", Some("y")),
            fk(1, 0, "customers", "a", Some("x")),
            fk(0, 0, "products", "product_id", None),
        ],
    );
    assert_eq!(fks.len(), 2);
    assert_eq!(fks[0].name, "products_fk0");
    assert_eq!(fks[0].referenced_columns, vec!["".to_string()]);
    assert_eq!(fks[1].name, "customers_fk1");
    assert_eq!(fks[1].columns, vec!["a".to_string(), "b".to_string()]);
    assert_eq!(fks[1].referenced_columns, vec!["x".to_string(), "y".to_string()]);
    assert_eq!(fks[1].referenced_schema, "main");
}

#[test]
fn a_sqlite_catalog_becomes_a_sorted_database_across_attachments() {
    let entry = |name: &str| sqlite::TableEntry {
        name: name.to_string(),
        columns: Vec::new(),
        indexes: Vec::new(),
        foreign_keys: Vec::new(),
    };
    let catalog = sqlite::Catalog {
        database: "main.db".to_string(),
        version: "3.45.1".to_string(),
        schemas: vec![
            sqlite::SchemaEntries { tables: vec![entry("orders")], views: Vec::new() },
            sqlite::SchemaEntries {
                tables: vec![entry("archive")],
                views: vec![sqlite::ViewEntry { name: "old".to_string(), columns: Vec::new() }],
            },
        ],
    };

    let db = sqlite::build_database(&catalog, "2026-01-01T00:00:00Z");

    assert_eq!(db.metadata.engine, Engine::Sqlite);
    assert_eq!(db.metadata.database, "main.db");
    assert_eq!(db.tables.len(), 2);
    assert_eq!(db.tables[0].schema, "attach1");
    assert_eq!(db.tables[0].name, "archive");
    assert_eq!(db.tables[1].schema, "main");
    assert_eq!(db.views[0].schema, "attach1");
}
