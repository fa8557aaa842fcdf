use dbctx::ai::generate;
use dbctx::model::{
    AnalysisFinding, AnalysisKind, Column, Database, DatabaseMetadata, DocumentHeader, Engine,
    ForeignKey, Index, Table, TableAnalysis,
};
fn column(name: &str, ordinal: u32) -> Column {
    Column {
        name: name.to_string(),
        ordinal_position: ordinal,
        data_type: "int".to_string(),
        full_type: "int(11)".to_string(),
        nullable: false,
        default: None,
        auto_increment: false,
        primary_key: false,
        unique: false,
        comment: None,
        generated: false,
        expression: None,
    }
}

fn database_with(tables: Vec<Table>) -> dbctx::model::Database {
    dbctx::model::Database {
        header: DocumentHeader::new(dbctx::model::Database::FORMAT, "2026-01-01T00:00:00Z"),
        metadata: DatabaseMetadata {
            database: "shop".to_string(),
            engine: Engine::Mysql,
            engine_version: "8.4.0".to_string(),
            default_charset: Some("utf8mb4".to_string()),
            default_collation: Some("utf8mb4_0900_ai_ci".to_string()),
        },
        tables,
        views: Vec::new(),
    }
}

#[test]
fn every_table_gets_ai_context_when_generate_runs() {
    let mut db = database_with(vec![Table {
        schema: "dbo".to_string(),
        name: "users".to_string(),
        engine: Some("InnoDB".to_string()),
        charset: Some("utf8mb4".to_string()),
        collation: Some("utf8mb4_0900_ai_ci".to_string()),
        comment: None,
        columns: vec![column("id", 1)],
        indexes: Vec::new(),
        foreign_keys: Vec::new(),
        analysis: None,
        ai: None,
    }]);
    db.tables[0].columns[0].primary_key = true;

    generate(&mut db);

    assert!(db.tables[0].ai.is_some());
    assert!(db.tables[0].ai.as_ref().unwrap().generated);
    assert!(!db.tables[0].ai.as_ref().unwrap().summary.is_empty());
}

#[test]
fn summary_counts_columns_indexes_and_foreign_keys() {
    let mut users = Table {
        schema: "dbo".to_string(),
        name: "users".to_string(),
        engine: Some("InnoDB".to_string()),
        charset: Some("utf8mb4".to_string()),
        collation: Some("utf8mb4_0900_ai_ci".to_string()),
        comment: None,
        columns: vec![column("id", 1), column("email", 2)],
        indexes: vec![Index {
            name: "PRIMARY".to_string(),
            unique: true,
            columns: vec!["id".to_string()],
            index_type: "BTREE".to_string(),
        }],
        foreign_keys: Vec::new(),
        analysis: None,
        ai: None,
    };
    users.columns[0].primary_key = true;

    let mut db = database_with(vec![users]);
    generate(&mut db);

    let summary = &db.tables[0].ai.as_ref().unwrap().summary;
    assert!(summary.contains("2 columns"), "{summary}");
    assert!(summary.contains("1 indexes"), "{summary}");
}

#[test]
fn analysis_labels_are_mentioned_in_the_summary() {
    let mut users = Table {
        schema: "dbo".to_string(),
        name: "users".to_string(),
        engine: Some("InnoDB".to_string()),
        charset: Some("utf8mb4".to_string()),
        collation: Some("utf8mb4_0900_ai_ci".to_string()),
        comment: None,
        columns: vec![
            column("id", 1),
            column("created_at", 2),
            column("updated_at", 3),
        ],
        indexes: Vec::new(),
        foreign_keys: Vec::new(),
        analysis: Some(TableAnalysis {
            findings: vec![AnalysisFinding {
                kind: AnalysisKind::TimestampConventions,
                confidence: 100,
                evidence: vec!["has both created and updated timestamp columns".to_string()],
            }],
        }),
        ai: None,
    };
    users.columns[0].primary_key = true;

    let mut db = database_with(vec![users]);
    generate(&mut db);

    let summary = &db.tables[0].ai.as_ref().unwrap().summary;
    assert!(summary.contains("timestamp conventions"), "{summary}");
}

#[test]
fn outgoing_foreign_keys_are_narrated() {
    let mut orders = Table {
        schema: "dbo".to_string(),
        name: "orders".to_string(),
        engine: Some("InnoDB".to_string()),
        charset: Some("utf8mb4".to_string()),
        collation: Some("utf8mb4_0900_ai_ci".to_string()),
        comment: None,
        columns: vec![column("id", 1), column("customer_id", 2)],
        indexes: Vec::new(),
        foreign_keys: vec![ForeignKey {
            name: "fk_orders_customer".to_string(),
            columns: vec!["customer_id".to_string()],
            referenced_schema: "dbo".to_string(),
            referenced_table: "customers".to_string(),
            referenced_columns: vec!["id".to_string()],
            on_update: "NO ACTION".to_string(),
            on_delete: "CASCADE".to_string(),
        }],
        analysis: None,
        ai: None,
    };
    orders.columns[0].primary_key = true;

    let mut db = database_with(vec![orders]);
    generate(&mut db);

    let notes = &db.tables[0].ai.as_ref().unwrap().notes;
    assert!(
        notes
            .iter()
            .any(|n| n.contains("References customers") && n.contains("customer_id"))
    );
}

#[test]
fn incoming_foreign_keys_are_narrated() {
    let mut customers = Table {
        schema: "dbo".to_string(),
        name: "customers".to_string(),
        engine: Some("InnoDB".to_string()),
        charset: Some("utf8mb4".to_string()),
        collation: Some("utf8mb4_0900_ai_ci".to_string()),
        comment: None,
        columns: vec![column("id", 1)],
        indexes: Vec::new(),
        foreign_keys: Vec::new(),
        analysis: None,
        ai: None,
    };
    customers.columns[0].primary_key = true;

    let mut orders = Table {
        schema: "dbo".to_string(),
        name: "orders".to_string(),
        engine: Some("InnoDB".to_string()),
        charset: Some("utf8mb4".to_string()),
        collation: Some("utf8mb4_0900_ai_ci".to_string()),
        comment: None,
        columns: vec![column("id", 1), column("customer_id", 2)],
        indexes: Vec::new(),
        foreign_keys: vec![ForeignKey {
            name: "fk_orders_customer".to_string(),
            columns: vec!["customer_id".to_string()],
            referenced_schema: "dbo".to_string(),
            referenced_table: "customers".to_string(),
            referenced_columns: vec!["id".to_string()],
            on_update: "NO ACTION".to_string(),
            on_delete: "CASCADE".to_string(),
        }],
        analysis: None,
        ai: None,
    };
    orders.columns[0].primary_key = true;

    let mut db = database_with(vec![customers, orders]);
    generate(&mut db);

    let customers_ai = db
        .tables
        .iter()
        .find(|t| t.name == "customers")
        .unwrap()
        .ai
        .as_ref()
        .unwrap();
    assert!(
        customers_ai
            .notes
            .iter()
            .any(|n| n.contains("Referenced by orders") && n.contains("customer_id"))
    );
}

#[test]
fn sql_server_table_references_include_schema_prefix() {
    let mut orders = Table {
        schema: "sales".to_string(),
        name: "orders".to_string(),
        engine: None,
        charset: None,
        collation: None,
        comment: None,
        columns: vec![column("id", 1), column("customer_id", 2)],
        indexes: Vec::new(),
        foreign_keys: vec![ForeignKey {
            name: "fk_orders_customer".to_string(),
            columns: vec!["customer_id".to_string()],
            referenced_schema: "dbo".to_string(),
            referenced_table: "customers".to_string(),
            referenced_columns: vec!["id".to_string()],
            on_update: "NO ACTION".to_string(),
            on_delete: "CASCADE".to_string(),
        }],
        analysis: None,
        ai: None,
    };
    orders.columns[0].primary_key = true;

    let mut db = database_with(vec![orders]);
    db.metadata.engine = Engine::Sqlserver;
    db.metadata.default_charset = None;
    db.metadata.default_collation = None;
    generate(&mut db);

    let notes = &db.tables[0].ai.as_ref().unwrap().notes;
    assert!(notes.iter().any(|n| n.contains("dbo.customers")));
}

#[test]
fn generate_does_not_mutate_factual_fields() {
    let mut users = Table {
        schema: "dbo".to_string(),
        name: "users".to_string(),
        engine: Some("InnoDB".to_string()),
        charset: Some("utf8mb4".to_string()),
        collation: Some("utf8mb4_0900_ai_ci".to_string()),
        comment: None,
        columns: vec![column("id", 1)],
        indexes: Vec::new(),
        foreign_keys: Vec::new(),
        analysis: None,
        ai: None,
    };
    users.columns[0].primary_key = true;

    let mut db = database_with(vec![users]);
    let before = db.tables[0].clone();
    generate(&mut db);
    let after = db.tables[0].clone();

    assert_eq!(before.schema, after.schema);
    assert_eq!(before.name, after.name);
    assert_eq!(before.columns, after.columns);
    assert_eq!(before.foreign_keys, after.foreign_keys);
    assert!(after.ai.is_some());
}

#[test]
fn the_notes_name_each_key_reference_and_the_primary_key() {
    let mut orders = Table {
        schema: "dbo".to_string(),
        name: "orders".to_string(),
        engine: Some("InnoDB".to_string()),
        charset: Some("utf8mb4".to_string()),
        collation: Some("utf8mb4_0900_ai_ci".to_string()),
        comment: None,
        columns: vec![column("id", 1), column("customer_id", 2), column("parent_id", 3)],
        indexes: Vec::new(),
        foreign_keys: vec![
            ForeignKey {
                name: "fk_orders_customer".to_string(),
                columns: vec!["customer_id".to_string()],
                referenced_schema: "dbo".to_string(),
                referenced_table: "customers".to_string(),
                referenced_columns: vec!["id".to_string()],
                on_update: "NO ACTION".to_string(),
                on_delete: "CASCADE".to_string(),
            },
            ForeignKey {
                name: "fk_orders_parent".to_string(),
                columns: vec!["parent_id".to_string()],
                referenced_schema: "dbo".to_string(),
                referenced_table: "orders".to_string(),
                referenced_columns: vec!["id".to_string()],
                on_update: "NO ACTION".to_string(),
                on_delete: "NO ACTION".to_string(),
            },
        ],
        analysis: None,
        ai: None,
    };
    orders.columns[0].primary_key = true;

    let mut db = database_with(vec![orders]);
    generate(&mut db);

    let notes = &db.tables[0].ai.as_ref().unwrap().notes;
    assert_eq!(
        notes,
        &vec![
            "References customers through customer_id.".to_string(),
            "References orders through parent_id.".to_string(),
            "Referenced by orders through parent_id.".to_string(),
            "Start queries from the primary key (id).".to_string(),
            "Join from customers via customer_id.".to_string(),
            "Join from orders via parent_id.".to_string(),
        ]
    );
}
