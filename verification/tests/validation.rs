use dbctx::model::{
    Column, Database, DatabaseMetadata, DocumentHeader, Engine, ForeignKey, Index, SchemaView, Table,
};
use dbctx::validation::{validate, Finding, Rule, Severity};
fn column(name: &str, ordinal: u32) -> Column {
    Column {
        name: name.to_string(),
        ordinal_position: ordinal,
        data_type: "int".to_string(),
        full_type: "int(11)".to_string(),
        nullable: false,
        default: None,
        auto_increment: false,
        primary_key: false,
        unique: false,
        comment: None,
        generated: false,
        expression: None,
    }
}

fn table(schema: &str, name: &str) -> Table {
    Table {
        schema: schema.to_string(),
        name: name.to_string(),
        engine: Some("InnoDB".to_string()),
        charset: Some("utf8mb4".to_string()),
        collation: Some("utf8mb4_0900_ai_ci".to_string()),
        comment: None,
        columns: Vec::new(),
        indexes: Vec::new(),
        foreign_keys: Vec::new(),
        analysis: None,
        ai: None,
    }
}

fn database(tables: Vec<Table>, views: Vec<SchemaView>) -> Database {
    Database {
        header: DocumentHeader::new(Database::FORMAT, "2026-01-01T00:00:00Z"),
        metadata: DatabaseMetadata {
            database: "shop".to_string(),
            engine: Engine::Mysql,
            engine_version: "8.4.0".to_string(),
            default_charset: Some("utf8mb4".to_string()),
            default_collation: Some("utf8mb4_0900_ai_ci".to_string()),
        },
        tables,
        views,
    }
}

fn finding(
    rule: Rule,
    severity: Severity,
    schema: &str,
    table: &str,
    columns: &[&str],
    message: &str,
) -> Finding {
    Finding {
        rule,
        severity,
        schema: schema.to_string(),
        table: table.to_string(),
        columns: columns.iter().map(|c| c.to_string()).collect(),
        message: message.to_string(),
    }
}

#[test]
fn valid_schema_has_no_findings() {
    let mut customers = table("dbo", "customers");
    customers.columns = vec![column("id", 1), column("email", 2)];
    customers.columns[0].primary_key = true;
    customers.indexes.push(Index {
        name: "PRIMARY".to_string(),
        unique: true,
        columns: vec!["id".to_string()],
        index_type: "BTREE".to_string(),
    });

    let db = database(vec![customers], Vec::new());
    let report = validate(&db);

    assert_eq!(report.findings, []);
    assert_eq!(report.summary.finding_count, 0);
    assert_eq!(report.summary.error_count, 0);
    assert_eq!(report.summary.warning_count, 0);
}

#[test]
fn missing_primary_key_is_reported() {
    let mut customers = table("dbo", "customers");
    customers.columns = vec![column("email", 1)];

    let db = database(vec![customers], Vec::new());
    let report = validate(&db);

    assert_eq!(
        report.findings,
        [finding(
            Rule::MissingPrimaryKey,
            Severity::Warning,
            "dbo",
            "customers",
            &[],
            "table has no primary key",
        )]
    );
}

#[test]
fn a_table_with_a_primary_key_column_is_not_flagged() {
    let mut customers = table("dbo", "customers");
    customers.columns = vec![column("id", 1)];
    customers.columns[0].primary_key = true;

    let db = database(vec![customers], Vec::new());
    let report = validate(&db);

    assert!(
        !report
            .findings
            .iter()
            .any(|f| f.rule == Rule::MissingPrimaryKey)
    );
}

#[test]
fn broken_foreign_key_to_missing_table_is_reported() {
    let mut orders = table("dbo", "orders");
    orders.columns = vec![column("id", 1), column("customer_id", 2)];
    orders.columns[0].primary_key = true;
    orders.foreign_keys.push(ForeignKey {
        name: "fk_orders_customer".to_string(),
        columns: vec!["customer_id".to_string()],
        referenced_schema: "dbo".to_string(),
        referenced_table: "customers".to_string(),
        referenced_columns: vec!["id".to_string()],
        on_update: "NO ACTION".to_string(),
        on_delete: "CASCADE".to_string(),
    });

    let db = database(vec![orders], Vec::new());
    let report = validate(&db);

    assert!(report.findings.iter().any(|f| {
        f.rule == Rule::BrokenForeignKey
            && f.table == "orders"
            && f.message.contains("missing table dbo.customers")
    }));
}

#[test]
fn broken_foreign_key_to_missing_column_is_reported() {
    let mut customers = table("dbo", "customers");
    customers.columns = vec![column("id", 1)];
    customers.columns[0].primary_key = true;

    let mut orders = table("dbo", "orders");
    orders.columns = vec![column("id", 1), column("customer_id", 2)];
    orders.columns[0].primary_key = true;
    orders.foreign_keys.push(ForeignKey {
        name: "fk_orders_customer".to_string(),
        columns: vec!["customer_id".to_string()],
        referenced_schema: "dbo".to_string(),
        referenced_table: "customers".to_string(),
        referenced_columns: vec!["email".to_string()],
        on_update: "NO ACTION".to_string(),
        on_delete: "CASCADE".to_string(),
    });

    let db = database(vec![customers, orders], Vec::new());
    let report = validate(&db);

    assert!(report.findings.iter().any(|f| {
        f.rule == Rule::BrokenForeignKey
            && f.table == "orders"
            && f.message.contains("email")
            && f.message.contains("does not exist")
    }));
}

#[test]
fn foreign_key_with_mismatched_column_count_is_reported() {
    let mut customers = table("dbo", "customers");
    customers.columns = vec![column("id", 1), column("tenant_id", 2)];
    customers.columns[0].primary_key = true;

    let mut orders = table("dbo", "orders");
    orders.columns = vec![column("id", 1), column("customer_id", 2)];
    orders.columns[0].primary_key = true;
    orders.foreign_keys.push(ForeignKey {
        name: "fk_orders_customer".to_string(),
        columns: vec!["customer_id".to_string()],
        referenced_schema: "dbo".to_string(),
        referenced_table: "customers".to_string(),
        referenced_columns: vec!["tenant_id".to_string(), "id".to_string()],
        on_update: "NO ACTION".to_string(),
        on_delete: "CASCADE".to_string(),
    });

    let db = database(vec![customers, orders], Vec::new());
    let report = validate(&db);

    assert!(
        report
            .findings
            .iter()
            .any(|f| f.rule == Rule::BrokenForeignKey
                && f.message.contains("column count")
                && f.message.contains("does not match"))
    );
}

#[test]
fn valid_foreign_key_is_not_reported() {
    let mut customers = table("dbo", "customers");
    customers.columns = vec![column("id", 1)];
    customers.columns[0].primary_key = true;

    let mut orders = table("dbo", "orders");
    orders.columns = vec![column("id", 1), column("customer_id", 2)];
    orders.columns[0].primary_key = true;
    orders.foreign_keys.push(ForeignKey {
        name: "fk_orders_customer".to_string(),
        columns: vec!["customer_id".to_string()],
        referenced_schema: "dbo".to_string(),
        referenced_table: "customers".to_string(),
        referenced_columns: vec!["id".to_string()],
        on_update: "NO ACTION".to_string(),
        on_delete: "CASCADE".to_string(),
    });

    let db = database(vec![customers, orders], Vec::new());
    let report = validate(&db);

    assert!(
        !report
            .findings
            .iter()
            .any(|f| f.rule == Rule::BrokenForeignKey)
    );
}

#[test]
fn duplicate_indexes_are_reported() {
    let mut customers = table("dbo", "customers");
    customers.columns = vec![column("id", 1), column("email", 2)];
    customers.columns[0].primary_key = true;
    customers.indexes = vec![
        Index {
            name: "idx_email".to_string(),
            unique: false,
            columns: vec!["email".to_string()],
            index_type: "BTREE".to_string(),
        },
        Index {
            name: "idx_email_2".to_string(),
            unique: false,
            columns: vec!["email".to_string()],
            index_type: "BTREE".to_string(),
        },
    ];

    let db = database(vec![customers], Vec::new());
    let report = validate(&db);

    assert!(report.findings.iter().any(|f| {
        f.rule == Rule::DuplicateIndex
            && f.table == "customers"
            && f.columns == vec!["email".to_string()]
            && f.message.contains("idx_email")
            && f.message.contains("idx_email_2")
    }));
}

#[test]
fn indexes_with_same_columns_in_different_order_are_not_duplicates() {
    let mut customers = table("dbo", "customers");
    customers.columns = vec![column("a", 1), column("b", 2)];
    customers.columns[0].primary_key = true;
    customers.indexes = vec![
        Index {
            name: "idx_ab".to_string(),
            unique: false,
            columns: vec!["a".to_string(), "b".to_string()],
            index_type: "BTREE".to_string(),
        },
        Index {
            name: "idx_ba".to_string(),
            unique: false,
            columns: vec!["b".to_string(), "a".to_string()],
            index_type: "BTREE".to_string(),
        },
    ];

    let db = database(vec![customers], Vec::new());
    let report = validate(&db);

    assert!(
        !report
            .findings
            .iter()
            .any(|f| f.rule == Rule::DuplicateIndex)
    );
}

#[test]
fn unique_and_non_unique_indexes_with_same_columns_are_not_duplicates() {
    let mut customers = table("dbo", "customers");
    customers.columns = vec![column("id", 1), column("email", 2)];
    customers.columns[0].primary_key = true;
    customers.indexes = vec![
        Index {
            name: "idx_email".to_string(),
            unique: false,
            columns: vec!["email".to_string()],
            index_type: "BTREE".to_string(),
        },
        Index {
            name: "uq_email".to_string(),
            unique: true,
            columns: vec!["email".to_string()],
            index_type: "BTREE".to_string(),
        },
    ];

    let db = database(vec![customers], Vec::new());
    let report = validate(&db);

    assert!(
        !report
            .findings
            .iter()
            .any(|f| f.rule == Rule::DuplicateIndex)
    );
}

#[test]
fn circular_reference_between_two_tables_is_reported() {
    let mut a = table("dbo", "a");
    a.columns = vec![column("id", 1), column("b_id", 2)];
    a.columns[0].primary_key = true;
    a.foreign_keys.push(ForeignKey {
        name: "fk_a_b".to_string(),
        columns: vec!["b_id".to_string()],
        referenced_schema: "dbo".to_string(),
        referenced_table: "b".to_string(),
        referenced_columns: vec!["id".to_string()],
        on_update: "NO ACTION".to_string(),
        on_delete: "CASCADE".to_string(),
    });

    let mut b = table("dbo", "b");
    b.columns = vec![column("id", 1), column("a_id", 2)];
    b.columns[0].primary_key = true;
    b.foreign_keys.push(ForeignKey {
        name: "fk_b_a".to_string(),
        columns: vec!["a_id".to_string()],
        referenced_schema: "dbo".to_string(),
        referenced_table: "a".to_string(),
        referenced_columns: vec!["id".to_string()],
        on_update: "NO ACTION".to_string(),
        on_delete: "CASCADE".to_string(),
    });

    let db = database(vec![a, b], Vec::new());
    let report = validate(&db);

    assert!(report.findings.iter().any(|f| {
        f.rule == Rule::CircularReference && f.message.contains("a") && f.message.contains("b")
    }));
}

#[test]
fn self_referencing_table_is_reported_as_circular() {
    let mut employees = table("dbo", "employees");
    employees.columns = vec![column("id", 1), column("manager_id", 2)];
    employees.columns[0].primary_key = true;
    employees.foreign_keys.push(ForeignKey {
        name: "fk_employees_manager".to_string(),
        columns: vec!["manager_id".to_string()],
        referenced_schema: "dbo".to_string(),
        referenced_table: "employees".to_string(),
        referenced_columns: vec!["id".to_string()],
        on_update: "NO ACTION".to_string(),
        on_delete: "CASCADE".to_string(),
    });

    let db = database(vec![employees], Vec::new());
    let report = validate(&db);

    assert!(
        report
            .findings
            .iter()
            .any(|f| f.rule == Rule::CircularReference && f.message.contains("employees"))
    );
}

#[test]
fn acyclic_references_are_not_flagged() {
    let mut customers = table("dbo", "customers");
    customers.columns = vec![column("id", 1)];
    customers.columns[0].primary_key = true;

    let mut orders = table("dbo", "orders");
    orders.columns = vec![column("id", 1), column("customer_id", 2)];
    orders.columns[0].primary_key = true;
    orders.foreign_keys.push(ForeignKey {
        name: "fk_orders_customer".to_string(),
        columns: vec!["customer_id".to_string()],
        referenced_schema: "dbo".to_string(),
        referenced_table: "customers".to_string(),
        referenced_columns: vec!["id".to_string()],
        on_update: "NO ACTION".to_string(),
        on_delete: "CASCADE".to_string(),
    });

    let db = database(vec![customers, orders], Vec::new());
    let report = validate(&db);

    assert!(
        !report
            .findings
            .iter()
            .any(|f| f.rule == Rule::CircularReference)
    );
}

#[test]
fn empty_table_name_is_reported() {
    let mut customers = table("dbo", "");
    customers.columns = vec![column("id", 1)];

    let db = database(vec![customers], Vec::new());
    let report = validate(&db);

    assert!(report.findings.iter().any(|f| {
        f.rule == Rule::InvalidMetadata
            && f.message == "table name is empty"
            && f.schema == "dbo"
            && f.table.is_empty()
    }));
}

#[test]
fn zero_ordinal_position_is_reported() {
    let mut customers = table("dbo", "customers");
    customers.columns = vec![column("id", 0)];

    let db = database(vec![customers], Vec::new());
    let report = validate(&db);

    assert!(
        report
            .findings
            .iter()
            .any(|f| f.rule == Rule::InvalidMetadata
                && f.table == "customers"
                && f.message.contains("ordinal position is zero"))
    );
}

#[test]
fn empty_database_name_is_reported() {
    let mut db = database(vec![table("dbo", "customers")], Vec::new());
    db.metadata.database = String::new();

    let report = validate(&db);

    assert!(
        report
            .findings
            .iter()
            .any(|f| f.rule == Rule::InvalidMetadata && f.message == "database name is empty")
    );
}

#[test]
fn findings_come_sorted_by_rule_and_counts_add_up() {
    let mut orders = table("dbo", "orders");
    orders.columns = vec![column("id", 0)];
    orders.foreign_keys.push(ForeignKey {
        name: "fk_orders_customer".to_string(),
        columns: vec!["id".to_string()],
        referenced_schema: "dbo".to_string(),
        referenced_table: "missing".to_string(),
        referenced_columns: vec!["id".to_string()],
        on_update: "NO ACTION".to_string(),
        on_delete: "CASCADE".to_string(),
    });
    let mut db = database(vec![orders], Vec::new());
    db.metadata.engine_version = "  ".to_string();

    let report = validate(&db);

    let rules: Vec<Rule> = report.findings.iter().map(|f| f.rule).collect();
    assert_eq!(
        rules,
        [
            Rule::MissingPrimaryKey,
            Rule::BrokenForeignKey,
            Rule::InvalidMetadata,
            Rule::InvalidMetadata,
        ]
    );
    assert_eq!(report.findings[1].message, "foreign key references missing table dbo.missing");
    assert_eq!(report.findings[2].message, "engine version is empty");
    assert_eq!(report.findings[3].message, "column ordinal position is zero");
    assert_eq!(report.summary.finding_count, 4);
    assert_eq!(report.summary.error_count, 3);
    assert_eq!(report.summary.warning_count, 1);
    assert_eq!(report.summary.tables, 1);
    assert_eq!(report.summary.views, 0);
}

#[test]
fn a_duplicate_unique_index_message_names_the_sorted_indexes() {
    let mut customers = table("dbo", "customers");
    customers.columns = vec![column("id", 1), column("a", 2), column("b", 3)];
    customers.columns[0].primary_key = true;
    for name in ["uq_z", "uq_a"] {
        customers.indexes.push(Index {
            name: name.to_string(),
            unique: true,
            columns: vec!["a".to_string(), "b".to_string()],
            index_type: "BTREE".to_string(),
        });
    }
    let db = database(vec![customers], Vec::new());

    let report = validate(&db);

    assert_eq!(report.findings.len(), 1);
    assert_eq!(
        report.findings[0].message,
        "duplicate unique index on columns (a, b): uq_a, uq_z"
    );
}

#[test]
fn sql_server_cycles_name_tables_with_their_schema() {
    let mut a = table("sales", "a");
    a.columns = vec![column("id", 1)];
    a.columns[0].primary_key = true;
    a.foreign_keys.push(ForeignKey {
        name: "fk".to_string(),
        columns: vec!["id".to_string()],
        referenced_schema: "sales".to_string(),
        referenced_table: "a".to_string(),
        referenced_columns: vec!["id".to_string()],
        on_update: "NO ACTION".to_string(),
        on_delete: "NO ACTION".to_string(),
    });
    let mut db = database(vec![a], Vec::new());
    db.metadata.engine = Engine::Sqlserver;

    let report = validate(&db);

    assert_eq!(report.findings.len(), 1);
    assert_eq!(report.findings[0].message, "circular reference involving: sales.a");
    assert_eq!(report.findings[0].severity, Severity::Error);
}

#[test]
fn a_fk_column_count_mismatch_states_both_counts() {
    let mut customers = table("dbo", "customers");
    customers.columns = vec![column("id", 1)];
    customers.columns[0].primary_key = true;
    let mut orders = table("dbo", "orders");
    orders.columns = vec![column("id", 1)];
    orders.columns[0].primary_key = true;
    orders.foreign_keys.push(ForeignKey {
        name: "fk".to_string(),
        columns: vec!["id".to_string()],
        referenced_schema: "dbo".to_string(),
        referenced_table: "customers".to_string(),
        referenced_columns: vec!["id".to_string(), "id".to_string()],
        on_update: "NO ACTION".to_string(),
        on_delete: "NO ACTION".to_string(),
    });
    let db = database(vec![customers, orders], Vec::new());

    let report = validate(&db);

    assert_eq!(
        report.findings[0].message,
        "foreign key column count (1) does not match referenced column count (2)"
    );
}

#[test]
fn empty_view_metadata_is_reported() {
    let view = SchemaView {
        schema: " ".to_string(),
        name: "v".to_string(),
        columns: vec![column("", 1)],
    };
    let db = database(Vec::new(), vec![view]);

    let report = validate(&db);

    let messages: Vec<&str> = report.findings.iter().map(|f| f.message.as_str()).collect();
    assert_eq!(messages, ["view schema is empty", "view column name is empty"]);
}

fn reference(name: &str, column_name: &str, target: &str) -> ForeignKey {
    ForeignKey {
        name: name.to_string(),
        columns: vec![column_name.to_string()],
        referenced_schema: "shop".to_string(),
        referenced_table: target.to_string(),
        referenced_columns: vec!["id".to_string()],
        on_update: "NO ACTION".to_string(),
        on_delete: "NO ACTION".to_string(),
    }
}

fn tables_with_a_cycle() -> Vec<Table> {
    let mut orders = table("shop", "orders");
    orders.columns = vec![column("id", 1), column("customer_id", 2)];
    orders.columns[0].primary_key = true;
    orders.foreign_keys.push(reference("fk_orders_customers", "customer_id", "customers"));

    let mut customers = table("shop", "customers");
    customers.columns = vec![column("id", 1), column("last_order_id", 2)];
    customers.columns[0].primary_key = true;
    customers.foreign_keys.push(reference("fk_customers_orders", "last_order_id", "orders"));

    let mut notes = table("shop", "notes");
    notes.columns = vec![column("id", 1), column("ghost_id", 2)];
    notes.foreign_keys.push(reference("fk_notes_ghosts", "ghost_id", "ghosts"));

    let mut tags = table("shop", "tags");
    tags.columns = vec![column("id", 1), column("tags_id", 2)];
    tags.columns[0].primary_key = true;
    tags.foreign_keys.push(reference("fk_tags_tags", "tags_id", "tags"));

    vec![orders, customers, notes, tags]
}

#[test]
fn validation_report_ignores_the_order_tables_arrive_in() {
    let first = validate(&database(tables_with_a_cycle(), Vec::new()));
    let mut reversed = tables_with_a_cycle();
    reversed.reverse();
    let second = validate(&database(reversed, Vec::new()));
    let mut rotated = tables_with_a_cycle();
    rotated.rotate_left(1);
    let third = validate(&database(rotated, Vec::new()));

    assert_eq!(first.findings, second.findings);
    assert_eq!(first.findings, third.findings);
    assert_eq!(first.summary, second.summary);
    assert_eq!(first.summary, third.summary);
    let cycles: Vec<&Finding> =
        first.findings.iter().filter(|f| f.rule == Rule::CircularReference).collect();
    assert_eq!(cycles.len(), 2);
    assert_eq!(cycles[0].message, "circular reference involving: customers, orders");
    assert_eq!(cycles[1].message, "circular reference involving: tags");
    assert!(first.findings.iter().any(|f| f.rule == Rule::MissingPrimaryKey && f.table == "notes"));
    assert!(first.findings.iter().any(|f| f.rule == Rule::BrokenForeignKey && f.table == "notes"));
}
