use dbctx::model::{
    Column, Database, DatabaseMetadata, DocumentHeader, Engine, ForeignKey, Index, Relationship,
    SchemaView, Table,
};

fn column(name: &str, ordinal: u32) -> Column {
    Column {
        name: name.to_string(),
        ordinal_position: ordinal,
        data_type: "int".to_string(),
        full_type: "int(11)".to_string(),
        nullable: false,
        default: None,
        auto_increment: false,
        primary_key: false,
        unique: false,
        comment: None,
        generated: false,
        expression: None,
    }
}

fn foreign_key(name: &str, to_schema: &str, to_table: &str) -> ForeignKey {
    ForeignKey {
        name: name.to_string(),
        columns: vec!["b".to_string(), "a".to_string()],
        referenced_schema: to_schema.to_string(),
        referenced_table: to_table.to_string(),
        referenced_columns: vec!["y".to_string(), "x".to_string()],
        on_update: "NO ACTION".to_string(),
        on_delete: "CASCADE".to_string(),
    }
}

fn table(schema: &str, name: &str) -> Table {
    Table {
        schema: schema.to_string(),
        name: name.to_string(),
        engine: Some("InnoDB".to_string()),
        charset: Some("utf8mb4".to_string()),
        collation: Some("utf8mb4_0900_ai_ci".to_string()),
        comment: None,
        columns: Vec::new(),
        indexes: Vec::new(),
        foreign_keys: Vec::new(),
        analysis: None,
        ai: None,
    }
}

fn database(tables: Vec<Table>, views: Vec<SchemaView>) -> Database {
    Database {
        header: DocumentHeader::new(Database::FORMAT, "2026-01-01T00:00:00Z"),
        metadata: DatabaseMetadata {
            database: "shop".to_string(),
            engine: Engine::Mysql,
            engine_version: "8.4.0".to_string(),
            default_charset: Some("utf8mb4".to_string()),
            default_collation: Some("utf8mb4_0900_ai_ci".to_string()),
        },
        tables,
        views,
    }
}

#[test]
fn sorting_orders_tables_by_schema_then_name() {
    let mut db = database(
        vec![
            table("sales", "customers"),
            table("dbo", "orders"),
            table("dbo", "customers"),
        ],
        Vec::new(),
    );

    db.sort();

    let order: Vec<_> = db
        .tables
        .iter()
        .map(|t| (t.schema.as_str(), t.name.as_str()))
        .collect();
    assert_eq!(
        order,
        [
            ("dbo", "customers"),
            ("dbo", "orders"),
            ("sales", "customers")
        ]
    );
}

#[test]
fn sorting_orders_columns_by_ordinal_position_not_name() {
    let mut orders = table("dbo", "orders");
    orders.columns = vec![
        column("id", 3),
        column("total", 1),
        column("customer_id", 2),
    ];
    let mut db = database(vec![orders], Vec::new());

    db.sort();

    let order: Vec<_> = db.tables[0]
        .columns
        .iter()
        .map(|c| c.name.as_str())
        .collect();
    assert_eq!(order, ["total", "customer_id", "id"]);
}

#[test]
fn sorting_orders_indexes_and_foreign_keys_by_name() {
    let mut orders = table("dbo", "orders");
    orders.indexes = vec![
        Index {
            name: "idx_total".to_string(),
            unique: false,
            columns: vec!["total".to_string()],
            index_type: "BTREE".to_string(),
        },
        Index {
            name: "PRIMARY".to_string(),
            unique: true,
            columns: vec!["id".to_string()],
            index_type: "BTREE".to_string(),
        },
    ];
    orders.foreign_keys = vec![
        foreign_key("fk_orders_store", "dbo", "stores"),
        foreign_key("fk_orders_customer", "dbo", "customers"),
    ];
    let mut db = database(vec![orders], Vec::new());

    db.sort();

    let indexes: Vec<_> = db.tables[0]
        .indexes
        .iter()
        .map(|i| i.name.as_str())
        .collect();
    assert_eq!(indexes, ["PRIMARY", "idx_total"]);
    let keys: Vec<_> = db.tables[0]
        .foreign_keys
        .iter()
        .map(|f| f.name.as_str())
        .collect();
    assert_eq!(keys, ["fk_orders_customer", "fk_orders_store"]);
}

#[test]
fn sorting_orders_views_and_their_columns() {
    let mut db = database(
        Vec::new(),
        vec![
            SchemaView {
                schema: "dbo".to_string(),
                name: "recent_orders".to_string(),
                columns: vec![column("total", 2), column("id", 1)],
            },
            SchemaView {
                schema: "dbo".to_string(),
                name: "active_customers".to_string(),
                columns: Vec::new(),
            },
        ],
    );

    db.sort();

    let names: Vec<_> = db.views.iter().map(|v| v.name.as_str()).collect();
    assert_eq!(names, ["active_customers", "recent_orders"]);
    let columns: Vec<_> = db.views[1]
        .columns
        .iter()
        .map(|c| c.name.as_str())
        .collect();
    assert_eq!(columns, ["id", "total"]);
}

#[test]
fn relationships_derive_from_foreign_keys_in_declared_column_order() {
    let mut orders = table("dbo", "orders");
    orders.foreign_keys = vec![foreign_key("fk_orders_customer", "sales", "customers")];
    let db = database(vec![orders], Vec::new());

    let relationships = db.relationships();

    assert_eq!(
        relationships,
        [Relationship {
            from_schema: "dbo".to_string(),
            from_table: "orders".to_string(),
            from_columns: vec!["b".to_string(), "a".to_string()],
            to_schema: "sales".to_string(),
            to_table: "customers".to_string(),
            to_columns: vec!["y".to_string(), "x".to_string()],
            constraint: "fk_orders_customer".to_string(),
        }]
    );
}

#[test]
fn relationships_sort_by_source_then_target_then_constraint() {
    let mut orders = table("dbo", "orders");
    orders.foreign_keys = vec![
        foreign_key("fk_b", "dbo", "stores"),
        foreign_key("fk_a", "dbo", "stores"),
        foreign_key("fk_c", "dbo", "customers"),
    ];
    let mut shipments = table("dbo", "shipments");
    shipments.foreign_keys = vec![foreign_key("fk_d", "archive", "orders")];
    let db = database(vec![shipments, orders], Vec::new());

    let order: Vec<_> = db
        .relationships()
        .iter()
        .map(|r| {
            (
                r.from_table.clone(),
                r.to_table.clone(),
                r.constraint.clone(),
            )
        })
        .collect();

    assert_eq!(
        order,
        [
            (
                "orders".to_string(),
                "customers".to_string(),
                "fk_c".to_string()
            ),
            (
                "orders".to_string(),
                "stores".to_string(),
                "fk_a".to_string()
            ),
            (
                "orders".to_string(),
                "stores".to_string(),
                "fk_b".to_string()
            ),
            (
                "shipments".to_string(),
                "orders".to_string(),
                "fk_d".to_string()
            ),
        ]
    );
}

#[test]
fn sorting_twice_changes_nothing_more() {
    let mut orders = table("dbo", "orders");
    orders.columns = vec![column("b", 2), column("a", 1)];
    let mut db = database(vec![orders, table("dbo", "a")], Vec::new());
    db.sort();
    let names: Vec<String> = db.tables.iter().map(|t| t.name.clone()).collect();
    db.sort();
    let again: Vec<String> = db.tables.iter().map(|t| t.name.clone()).collect();
    assert_eq!(names, again);
    assert_eq!(names, ["a", "orders"]);
}

#[test]
fn a_header_carries_the_format_version_and_generator() {
    let header = DocumentHeader::new("dbctx.table", "2026-01-01T00:00:00Z");
    assert_eq!(header.format, "dbctx.table");
    assert_eq!(header.format_version, "1.0");
    assert_eq!(header.generator.name, "dbctx");
    assert_eq!(header.generator.version, dbctx::VERSION);
    assert_eq!(header.generated_at, "2026-01-01T00:00:00Z");
}

#[test]
fn engines_are_written_by_their_document_names() {
    assert_eq!(Engine::Mysql.name(), "mysql");
    assert_eq!(Engine::Mariadb.name(), "mariadb");
    assert_eq!(Engine::Sqlserver.name(), "sqlserver");
    assert_eq!(Engine::Postgres.name(), "postgres");
    assert_eq!(Engine::Sqlite.name(), "sqlite");
}

#[test]
fn sorting_does_not_depend_on_the_order_things_arrived_in() {
    let mut orders = table("dbo", "orders");
    orders.columns = vec![column("total", 3), column("id", 1), column("customer_id", 2)];
    orders.foreign_keys = vec![
        foreign_key("fk_orders_store", "dbo", "stores"),
        foreign_key("fk_orders_customer", "dbo", "customers"),
    ];
    let mut shuffled = table("dbo", "orders");
    shuffled.columns = vec![column("customer_id", 2), column("total", 3), column("id", 1)];
    shuffled.foreign_keys = vec![
        foreign_key("fk_orders_customer", "dbo", "customers"),
        foreign_key("fk_orders_store", "dbo", "stores"),
    ];

    let mut first = database(
        vec![table("sales", "customers"), orders, table("dbo", "customers")],
        Vec::new(),
    );
    let mut second = database(
        vec![table("dbo", "customers"), table("sales", "customers"), shuffled],
        Vec::new(),
    );
    first.sort();
    second.sort();

    assert_eq!(first, second);
}

#[test]
fn columns_sharing_a_position_keep_the_order_they_came_in() {
    let mut orders = table("dbo", "orders");
    orders.columns = vec![column("b", 2), column("z", 1), column("a", 2)];
    let mut db = database(vec![orders], Vec::new());
    db.sort();
    let names: Vec<&str> = db.tables[0].columns.iter().map(|c| c.name.as_str()).collect();
    assert_eq!(names, vec!["z", "b", "a"]);
    assert_eq!(db.metadata.database, "shop");
}
