use dbctx::diff::diff;
use dbctx::model::{
    Column, Database, DatabaseMetadata, DocumentHeader, Engine, ForeignKey, Index, SchemaView,
    Table,
};
fn column(name: &str, ordinal: u32) -> Column {
    Column {
        name: name.to_string(),
        ordinal_position: ordinal,
        data_type: "int".to_string(),
        full_type: "int(11)".to_string(),
        nullable: false,
        default: None,
        auto_increment: false,
        primary_key: false,
        unique: false,
        comment: None,
        generated: false,
        expression: None,
    }
}

fn table(schema: &str, name: &str) -> Table {
    Table {
        schema: schema.to_string(),
        name: name.to_string(),
        engine: Some("InnoDB".to_string()),
        charset: Some("utf8mb4".to_string()),
        collation: Some("utf8mb4_0900_ai_ci".to_string()),
        comment: None,
        columns: Vec::new(),
        indexes: Vec::new(),
        foreign_keys: Vec::new(),
        analysis: None,
        ai: None,
    }
}

fn database(tables: Vec<Table>, views: Vec<SchemaView>) -> Database {
    Database {
        header: DocumentHeader::new(Database::FORMAT, "2026-01-01T00:00:00Z"),
        metadata: DatabaseMetadata {
            database: "shop".to_string(),
            engine: Engine::Mysql,
            engine_version: "8.4.0".to_string(),
            default_charset: Some("utf8mb4".to_string()),
            default_collation: Some("utf8mb4_0900_ai_ci".to_string()),
        },
        tables,
        views,
    }
}

#[test]
fn identical_schemas_produce_an_empty_report() {
    let db = database(vec![table("dbo", "orders")], Vec::new());
    let report = diff(&db, &db);

    assert_eq!(report.summary.total_changes, 0);
    assert!(report.tables.added.is_empty());
    assert!(report.tables.removed.is_empty());
    assert!(report.tables.modified.is_empty());
    assert!(report.views.added.is_empty());
    assert!(report.views.removed.is_empty());
    assert!(report.views.modified.is_empty());
}

#[test]
fn added_and_removed_tables_are_detected() {
    let old = database(vec![table("dbo", "customers")], Vec::new());
    let new = database(vec![table("dbo", "orders")], Vec::new());

    let report = diff(&old, &new);

    assert_eq!(report.tables.added.len(), 1);
    assert_eq!(report.tables.added[0].name, "orders");
    assert_eq!(report.tables.removed.len(), 1);
    assert_eq!(report.tables.removed[0].name, "customers");
    assert_eq!(report.summary.added_tables, 1);
    assert_eq!(report.summary.removed_tables, 1);
    assert_eq!(report.summary.total_changes, 2);
}

#[test]
fn added_and_removed_columns_are_detected() {
    let mut old_table = table("dbo", "orders");
    old_table.columns = vec![column("id", 1)];
    let mut new_table = table("dbo", "orders");
    new_table.columns = vec![column("id", 1), column("total", 2)];

    let report = diff(
        &database(vec![old_table], Vec::new()),
        &database(vec![new_table], Vec::new()),
    );

    assert_eq!(report.tables.modified.len(), 1);
    let table_diff = &report.tables.modified[0];
    assert_eq!(table_diff.added_columns.len(), 1);
    assert_eq!(table_diff.added_columns[0].name, "total");
    assert!(table_diff.removed_columns.is_empty());
    assert!(table_diff.changed_columns.is_empty());
}

#[test]
fn changed_columns_are_detected() {
    let mut old_table = table("dbo", "orders");
    old_table.columns = vec![column("total", 1)];
    let mut new_table = table("dbo", "orders");
    new_table.columns = vec![Column {
        full_type: "decimal(10,2)".to_string(),
        ..column("total", 1)
    }];

    let report = diff(
        &database(vec![old_table], Vec::new()),
        &database(vec![new_table], Vec::new()),
    );

    let table_diff = &report.tables.modified[0];
    assert_eq!(table_diff.changed_columns.len(), 1);
    assert_eq!(table_diff.changed_columns[0].old.full_type, "int(11)");
    assert_eq!(table_diff.changed_columns[0].new.full_type, "decimal(10,2)");
}

#[test]
fn added_and_removed_indexes_are_detected() {
    let mut old_table = table("dbo", "orders");
    old_table.indexes = vec![Index {
        name: "PRIMARY".to_string(),
        unique: true,
        columns: vec!["id".to_string()],
        index_type: "BTREE".to_string(),
    }];
    let mut new_table = table("dbo", "orders");
    new_table.indexes = vec![
        Index {
            name: "PRIMARY".to_string(),
            unique: true,
            columns: vec!["id".to_string()],
            index_type: "BTREE".to_string(),
        },
        Index {
            name: "idx_total".to_string(),
            unique: false,
            columns: vec!["total".to_string()],
            index_type: "BTREE".to_string(),
        },
    ];

    let report = diff(
        &database(vec![old_table], Vec::new()),
        &database(vec![new_table], Vec::new()),
    );

    let table_diff = &report.tables.modified[0];
    assert_eq!(table_diff.added_indexes.len(), 1);
    assert_eq!(table_diff.added_indexes[0].name, "idx_total");
    assert!(table_diff.removed_indexes.is_empty());
    assert!(table_diff.changed_indexes.is_empty());
}

#[test]
fn changed_indexes_are_detected() {
    let mut old_table = table("dbo", "orders");
    old_table.indexes = vec![Index {
        name: "idx_total".to_string(),
        unique: false,
        columns: vec!["total".to_string()],
        index_type: "BTREE".to_string(),
    }];
    let mut new_table = table("dbo", "orders");
    new_table.indexes = vec![Index {
        name: "idx_total".to_string(),
        unique: true,
        columns: vec!["total".to_string()],
        index_type: "BTREE".to_string(),
    }];

    let report = diff(
        &database(vec![old_table], Vec::new()),
        &database(vec![new_table], Vec::new()),
    );

    let table_diff = &report.tables.modified[0];
    assert_eq!(table_diff.changed_indexes.len(), 1);
    assert!(!table_diff.changed_indexes[0].old.unique);
    assert!(table_diff.changed_indexes[0].new.unique);
}

#[test]
fn added_and_removed_foreign_keys_are_detected() {
    let mut old_table = table("dbo", "orders");
    old_table.columns = vec![column("id", 1), column("customer_id", 2)];
    let mut new_table = table("dbo", "orders");
    new_table.columns = vec![column("id", 1), column("customer_id", 2)];
    new_table.foreign_keys = vec![ForeignKey {
        name: "fk_orders_customer".to_string(),
        columns: vec!["customer_id".to_string()],
        referenced_schema: "dbo".to_string(),
        referenced_table: "customers".to_string(),
        referenced_columns: vec!["id".to_string()],
        on_update: "NO ACTION".to_string(),
        on_delete: "CASCADE".to_string(),
    }];

    let report = diff(
        &database(vec![old_table], Vec::new()),
        &database(vec![new_table], Vec::new()),
    );

    let table_diff = &report.tables.modified[0];
    assert_eq!(table_diff.added_foreign_keys.len(), 1);
    assert_eq!(table_diff.added_foreign_keys[0].name, "fk_orders_customer");
    assert!(table_diff.removed_foreign_keys.is_empty());
    assert!(table_diff.changed_foreign_keys.is_empty());
}

#[test]
fn changed_foreign_keys_are_detected() {
    let mut old_table = table("dbo", "orders");
    old_table.columns = vec![column("id", 1), column("customer_id", 2)];
    old_table.foreign_keys = vec![ForeignKey {
        name: "fk_orders_customer".to_string(),
        columns: vec!["customer_id".to_string()],
        referenced_schema: "dbo".to_string(),
        referenced_table: "customers".to_string(),
        referenced_columns: vec!["id".to_string()],
        on_update: "NO ACTION".to_string(),
        on_delete: "CASCADE".to_string(),
    }];
    let mut new_table = table("dbo", "orders");
    new_table.columns = vec![column("id", 1), column("customer_id", 2)];
    new_table.foreign_keys = vec![ForeignKey {
        name: "fk_orders_customer".to_string(),
        columns: vec!["customer_id".to_string()],
        referenced_schema: "dbo".to_string(),
        referenced_table: "customers".to_string(),
        referenced_columns: vec!["id".to_string()],
        on_update: "CASCADE".to_string(),
        on_delete: "CASCADE".to_string(),
    }];

    let report = diff(
        &database(vec![old_table], Vec::new()),
        &database(vec![new_table], Vec::new()),
    );

    let table_diff = &report.tables.modified[0];
    assert_eq!(table_diff.changed_foreign_keys.len(), 1);
    assert_eq!(
        table_diff.changed_foreign_keys[0].old.on_update,
        "NO ACTION"
    );
    assert_eq!(table_diff.changed_foreign_keys[0].new.on_update, "CASCADE");
}

#[test]
fn added_and_removed_views_are_detected() {
    let old = database(
        Vec::new(),
        vec![SchemaView {
            schema: "dbo".to_string(),
            name: "old_view".to_string(),
            columns: Vec::new(),
        }],
    );
    let new = database(
        Vec::new(),
        vec![SchemaView {
            schema: "dbo".to_string(),
            name: "new_view".to_string(),
            columns: Vec::new(),
        }],
    );

    let report = diff(&old, &new);

    assert_eq!(report.views.added.len(), 1);
    assert_eq!(report.views.added[0].name, "new_view");
    assert_eq!(report.views.removed.len(), 1);
    assert_eq!(report.views.removed[0].name, "old_view");
    assert_eq!(report.summary.added_views, 1);
    assert_eq!(report.summary.removed_views, 1);
}

#[test]
fn changed_view_columns_are_detected() {
    let old = database(
        Vec::new(),
        vec![SchemaView {
            schema: "dbo".to_string(),
            name: "recent_orders".to_string(),
            columns: vec![column("id", 1)],
        }],
    );
    let new = database(
        Vec::new(),
        vec![SchemaView {
            schema: "dbo".to_string(),
            name: "recent_orders".to_string(),
            columns: vec![column("id", 1), column("total", 2)],
        }],
    );

    let report = diff(&old, &new);

    assert_eq!(report.views.modified.len(), 1);
    assert_eq!(report.views.modified[0].added_columns.len(), 1);
    assert_eq!(report.views.modified[0].added_columns[0].name, "total");
}

#[test]
fn comparing_the_other_way_round_swaps_added_and_removed() {
    let old = database(vec![table("dbo", "customers"), table("dbo", "stores")], Vec::new());
    let new = database(vec![table("dbo", "orders"), table("dbo", "stores")], Vec::new());

    let forward = diff(&old, &new);
    let backward = diff(&new, &old);

    assert_eq!(forward.tables.added, backward.tables.removed);
    assert_eq!(forward.tables.removed, backward.tables.added);
    assert_eq!(backward.tables.added[0].name, "customers");
}

#[test]
fn comparing_the_other_way_round_counts_the_same_modified_tables() {
    let mut old_orders = table("dbo", "orders");
    old_orders.columns = vec![column("id", 1)];
    let mut new_orders = table("dbo", "orders");
    new_orders.columns = vec![column("id", 1), column("total", 2)];
    let old = database(vec![old_orders, table("dbo", "stores")], Vec::new());
    let new = database(vec![new_orders, table("dbo", "items")], Vec::new());

    let forward = diff(&old, &new);
    let backward = diff(&new, &old);

    assert_eq!(forward.summary.modified_tables, 1);
    assert_eq!(backward.summary.modified_tables, 1);
    assert_eq!(forward.summary.total_changes, backward.summary.total_changes);
    assert_eq!(forward.tables.modified[0].added_columns, backward.tables.modified[0].removed_columns);
}

#[test]
fn a_repeated_table_name_counts_the_same_changes_both_ways() {
    let mut first = table("dbo", "orders");
    first.columns = vec![column("id", 1)];
    let mut last = table("dbo", "orders");
    last.columns = vec![column("id", 1), column("note", 2)];
    let mut other = table("dbo", "orders");
    other.columns = vec![column("id", 1), column("total", 2)];
    let old = database(vec![first, last], Vec::new());
    let new = database(vec![other, table("dbo", "items")], Vec::new());

    let forward = diff(&old, &new);
    let backward = diff(&new, &old);

    assert_eq!(forward.summary.modified_tables, 1);
    assert_eq!(backward.summary.modified_tables, 1);
    assert_eq!(forward.tables.modified[0].removed_columns[0].name, "note");
    assert_eq!(forward.summary.total_changes, 2);
    assert_eq!(backward.summary.total_changes, 2);
}
