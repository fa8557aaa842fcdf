use dbctx::mcp_server::{
    describe_tables, explain_relationships, prompt_text, resource_for, summarize_schema,
    ResourceRef,
};
use dbctx::model::{
    Column, Database, DatabaseMetadata, DocumentHeader, Engine, ForeignKey, Table,
};

fn column(name: &str, primary_key: bool) -> Column {
    Column {
        name: name.to_string(),
        ordinal_position: 1,
        data_type: "int".to_string(),
        full_type: "int".to_string(),
        nullable: false,
        default: None,
        auto_increment: false,
        primary_key,
        unique: primary_key,
        comment: None,
        generated: false,
        expression: None,
    }
}

fn table(schema: &str, name: &str, columns: Vec<Column>) -> Table {
    Table {
        schema: schema.to_string(),
        name: name.to_string(),
        engine: None,
        charset: None,
        collation: None,
        comment: None,
        columns,
        indexes: Vec::new(),
        foreign_keys: Vec::new(),
        analysis: None,
        ai: None,
    }
}

fn database(tables: Vec<Table>) -> Database {
    Database {
        header: DocumentHeader::new(Database::FORMAT, "2026-01-01T00:00:00Z"),
        metadata: DatabaseMetadata {
            database: "shop".to_string(),
            engine: Engine::Sqlserver,
            engine_version: "16.0".to_string(),
            default_charset: None,
            default_collation: None,
        },
        tables,
        views: Vec::new(),
    }
}

fn shop() -> Database {
    let mut orders = table("dbo", "orders", vec![column("id", true), column("customer_id", false)]);
    orders.foreign_keys.push(ForeignKey {
        name: "fk_orders_customers".to_string(),
        columns: vec!["customer_id".to_string()],
        referenced_schema: "dbo".to_string(),
        referenced_table: "customers".to_string(),
        referenced_columns: vec!["id".to_string()],
        on_update: "NO ACTION".to_string(),
        on_delete: "NO ACTION".to_string(),
    });
    let mut customers = table("dbo", "customers", vec![column("id", true)]);
    customers.comment = Some("People who buy".to_string());
    database(vec![customers, orders])
}

#[test]
fn the_summary_names_the_engine_counts_and_tables() {
    assert_eq!(
        summarize_schema(&shop()),
        "Database `shop` runs Sqlserver 16.0: 2 tables, 0 views, 1 relationships.\n\nTables:\n\
         - dbo.customers (1 columns)\n- dbo.orders (2 columns)\n"
    );
}

#[test]
fn table_descriptions_give_comments_and_primary_keys() {
    let mut db = shop();
    db.tables.push(table("dbo", "log", vec![column("line", false)]));
    assert_eq!(
        describe_tables(&db),
        "## dbo.customers\nPeople who buy\n- 1 columns, primary key: id\n\n\
         ## dbo.orders\n- 2 columns, primary key: id\n\n\
         ## dbo.log\n- 1 columns, primary key: none\n\n"
    );
    assert_eq!(describe_tables(&database(Vec::new())), "The schema has no tables.");
}

#[test]
fn relationships_are_explained_one_sentence_each() {
    assert_eq!(
        explain_relationships(&shop()),
        "dbo.orders(customer_id) references dbo.customers(id) via `fk_orders_customers`.\n"
    );
    assert_eq!(
        explain_relationships(&database(Vec::new())),
        "The schema has no foreign key relationships."
    );
}

#[test]
fn prompts_are_answered_by_name() {
    let db = shop();
    assert_eq!(prompt_text(&db, "summarize-schema").unwrap(), summarize_schema(&db));
    assert_eq!(prompt_text(&db, "describe-table").unwrap(), describe_tables(&db));
    assert_eq!(prompt_text(&db, "explain-relationships").unwrap(), explain_relationships(&db));
    assert_eq!(prompt_text(&db, "tell-a-joke").unwrap_err(), "unknown prompt `tell-a-joke`");
}

#[test]
fn resources_are_found_by_uri() {
    let db = shop();
    assert_eq!(resource_for(&db, "dbctx://graph"), Ok(ResourceRef::Graph));
    assert_eq!(resource_for(&db, "dbctx://schema"), Ok(ResourceRef::Schema));
    assert_eq!(resource_for(&db, "dbctx://metadata"), Ok(ResourceRef::Metadata));
    assert_eq!(resource_for(&db, "dbctx://relationships"), Ok(ResourceRef::Relationships));
    assert_eq!(resource_for(&db, "dbctx://tables/dbo.orders"), Ok(ResourceRef::Table(1)));
    assert_eq!(
        resource_for(&db, "dbctx://tables/dbo.missing"),
        Err("no table resource for `dbo.missing`".to_string())
    );
    assert_eq!(
        resource_for(&db, "dbctx://tables/orders"),
        Err("no table resource for `orders`".to_string())
    );
    assert_eq!(
        resource_for(&db, "file:///etc/passwd"),
        Err("no resource for `file:///etc/passwd`".to_string())
    );
}

#[test]
fn a_table_uri_splits_at_the_first_dot() {
    let db = database(vec![table("a", "b.c", Vec::new())]);
    assert_eq!(resource_for(&db, "dbctx://tables/a.b.c"), Ok(ResourceRef::Table(0)));
}
