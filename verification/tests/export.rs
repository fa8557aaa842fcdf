use dbctx::export::confidence_string;
use dbctx::export::{refuse_existing_output, ExportError};
use dbctx::export::{artifact_file, export_plan, guarded_entries, Artifact, ExportOptions, ExportPlan};
use dbctx::export::{escape_markdown_cell, mermaid_quote, render_markdown, render_mermaid, table_file_name};
use dbctx::model::{
    AnalysisFinding, AnalysisKind, Column, Database, DatabaseMetadata, DocumentHeader, Engine,
    ForeignKey, Index, SchemaView, Table, TableAnalysis,
};

fn column(name: &str, ordinal: u32) -> Column {
    Column {
        name: name.to_string(),
        ordinal_position: ordinal,
        data_type: "int".to_string(),
        full_type: "int(11)".to_string(),
        nullable: false,
        default: None,
        auto_increment: false,
        primary_key: false,
        unique: false,
        comment: None,
        generated: false,
        expression: None,
    }
}

fn database() -> Database {
    let mut orders = Table {
        schema: "dbo".to_string(),
        name: "orders".to_string(),
        engine: Some("InnoDB".to_string()),
        charset: Some("utf8mb4".to_string()),
        collation: Some("utf8mb4_0900_ai_ci".to_string()),
        comment: None,
        columns: vec![column("id", 1), column("customer_id", 2)],
        indexes: vec![Index {
            name: "PRIMARY".to_string(),
            unique: true,
            columns: vec!["id".to_string()],
            index_type: "BTREE".to_string(),
        }],
        foreign_keys: vec![ForeignKey {
            name: "fk_orders_customer".to_string(),
            columns: vec!["customer_id".to_string()],
            referenced_schema: "dbo".to_string(),
            referenced_table: "customers".to_string(),
            referenced_columns: vec!["id".to_string()],
            on_update: "NO ACTION".to_string(),
            on_delete: "CASCADE".to_string(),
        }],
        analysis: None,
        ai: None,
    };
    orders.columns[0].primary_key = true;
    orders.columns[0].auto_increment = true;
    orders.columns[0].unique = true;

    Database {
        header: DocumentHeader::new(Database::FORMAT, "2026-01-01T00:00:00Z"),
        metadata: DatabaseMetadata {
            database: "shop".to_string(),
            engine: Engine::Mysql,
            engine_version: "8.4.0".to_string(),
            default_charset: Some("utf8mb4".to_string()),
            default_collation: Some("utf8mb4_0900_ai_ci".to_string()),
        },
        tables: vec![orders],
        views: vec![SchemaView {
            schema: "dbo".to_string(),
            name: "recent_orders".to_string(),
            columns: vec![column("id", 1)],
        }],
    }
}

#[test]
fn render_markdown_ends_with_a_trailing_newline() {
    let mut db = database();
    db.sort();

    let md = render_markdown(&db);

    assert!(md.ends_with('\n'));
    assert!(md.contains("# shop"));
    assert!(md.contains("### orders"));
}

#[test]
fn render_mermaid_ends_with_a_trailing_newline() {
    let mut db = database();
    db.sort();

    let mmd = render_mermaid(&db);

    assert!(mmd.ends_with('\n'));
    assert!(mmd.starts_with("erDiagram\n"));
}

#[test]
fn the_mermaid_diagram_draws_entities_and_relationships() {
    let mut db = database();
    db.sort();

    let mmd = render_mermaid(&db);

    assert_eq!(
        mmd,
        "erDiagram\n    orders {\n        int id PK\n        int customer_id FK\n    }\n    customers ||--o{ orders : fk_orders_customer\n\n"
    );
}

#[test]
fn the_markdown_document_matches_its_layout() {
    let mut db = database();
    db.sort();

    let md = render_markdown(&db);

    let expected = "# shop\n\n## Summary\n\n- Engine: mysql 8.4.0\n- Tables: 1\n- Views: 1\n- Foreign keys: 1\n\n## Tables\n\n### orders\n\n#### Columns\n\n| Name | Type | Nullable | Default | Attributes | Comment |\n|---|---|---|---|---|---|\n| id | int(11) | NO |  | PK, AI, Unique |  |\n| customer_id | int(11) | NO |  |  |  |\n\n#### Indexes\n\n| Name | Type | Unique | Columns |\n|---|---|---|---|\n| PRIMARY | BTREE | Yes | id |\n\n#### Foreign Keys\n\n| Name | Columns | Referenced | On Update | On Delete |\n|---|---|---|---|---|\n| fk_orders_customer | customer_id | customers(id) | NO ACTION | CASCADE |\n\n## Views\n\n### recent_orders\n\n#### Columns\n\n| Name | Type | Nullable | Default | Attributes | Comment |\n|---|---|---|---|---|---|\n| id | int(11) | NO |  |  |  |\n\n";
    assert_eq!(md, expected);
}

#[test]
fn analysis_is_rendered_with_its_confidence() {
    let mut db = database();
    db.tables[0].analysis = Some(TableAnalysis {
        findings: vec![AnalysisFinding {
            kind: AnalysisKind::SoftDeletes,
            confidence: 91,
            evidence: vec!["has a | pipe".to_string()],
        }],
    });

    let md = render_markdown(&db);

    assert!(md.contains("\n#### Analysis\n\n- **soft deletes** (confidence: 0.91)\n  - has a \\| pipe\n"), "{md}");
}

#[test]
fn sql_server_names_carry_their_schema_and_are_quoted_for_mermaid() {
    let mut db = database();
    db.metadata.engine = Engine::Sqlserver;

    assert_eq!(table_file_name(&db, &db.tables[0]), "dbo.orders");
    let mmd = render_mermaid(&db);
    assert!(mmd.contains("    \"dbo.orders\" {\n"), "{mmd}");
    assert!(mmd.contains("\"dbo.customers\" ||--o{ \"dbo.orders\" : fk_orders_customer"), "{mmd}");
}

#[test]
fn cells_and_identifiers_are_escaped() {
    assert_eq!(escape_markdown_cell("a|b\r\nc"), "a\\|b c");
    assert_eq!(mermaid_quote("plain_name1"), "plain_name1");
    assert_eq!(mermaid_quote("has \"quotes\""), "\"has \\\"quotes\\\"\"");
    assert_eq!(mermaid_quote(""), "");
}

#[test]
fn confidences_are_written_as_fractions() {
    assert_eq!(confidence_string(100), "1");
    assert_eq!(confidence_string(91), "0.91");
    assert_eq!(confidence_string(90), "0.9");
    assert_eq!(confidence_string(5), "0.05");
    assert_eq!(confidence_string(0), "0");
}

#[test]
fn the_default_export_writes_every_document_into_the_directory() {
    let db = database();
    let plan = export_plan(&db, &ExportOptions::default());

    match plan {
        ExportPlan::Directory { overwrite, with_tables, files } => {
            assert!(!overwrite);
            assert!(with_tables);
            assert_eq!(
                files,
                vec![
                    Artifact::Schema,
                    Artifact::Relationships,
                    Artifact::Metadata,
                    Artifact::Table(0),
                    Artifact::Markdown,
                    Artifact::Mermaid,
                ]
            );
        }
        other => panic!("unexpected plan {other:?}"),
    }
}

#[test]
fn switching_every_artifact_off_writes_nothing() {
    let options = ExportOptions {
        no_json: true,
        no_markdown: true,
        no_tables: true,
        no_mermaid: true,
        ..ExportOptions::default()
    };
    assert!(matches!(export_plan(&database(), &options), ExportPlan::Nothing));
}

#[test]
fn standard_output_gets_the_first_enabled_document() {
    let json = ExportOptions { stdout: true, ..ExportOptions::default() };
    assert!(matches!(export_plan(&database(), &json), ExportPlan::Stdout(Some(Artifact::Schema))));

    let markdown = ExportOptions { stdout: true, no_json: true, ..ExportOptions::default() };
    assert!(matches!(
        export_plan(&database(), &markdown),
        ExportPlan::Stdout(Some(Artifact::Markdown))
    ));

    let diagram = ExportOptions {
        stdout: true,
        no_json: true,
        no_markdown: true,
        ..ExportOptions::default()
    };
    assert!(matches!(
        export_plan(&database(), &diagram),
        ExportPlan::Stdout(Some(Artifact::Mermaid))
    ));
}

#[test]
fn skipped_documents_are_left_out_of_the_plan() {
    let options = ExportOptions {
        no_markdown: true,
        no_mermaid: true,
        no_tables: true,
        overwrite: true,
        ..ExportOptions::default()
    };
    match export_plan(&database(), &options) {
        ExportPlan::Directory { overwrite, with_tables, files } => {
            assert!(overwrite);
            assert!(!with_tables);
            assert_eq!(files, vec![Artifact::Schema, Artifact::Relationships, Artifact::Metadata]);
        }
        other => panic!("unexpected plan {other:?}"),
    }
}

#[test]
fn artifacts_have_their_documented_file_names() {
    let mut db = database();
    assert_eq!(artifact_file(&db, Artifact::Schema), "schema.json");
    assert_eq!(artifact_file(&db, Artifact::Relationships), "relationships.json");
    assert_eq!(artifact_file(&db, Artifact::Metadata), "metadata.json");
    assert_eq!(artifact_file(&db, Artifact::Markdown), "schema.md");
    assert_eq!(artifact_file(&db, Artifact::Mermaid), "graph.mmd");
    assert_eq!(artifact_file(&db, Artifact::Table(0)), "tables/orders.json");

    db.metadata.engine = Engine::Sqlserver;
    assert_eq!(artifact_file(&db, Artifact::Table(0)), "tables/dbo.orders.json");
}

#[test]
fn earlier_output_is_recognised_by_its_entries() {
    assert_eq!(
        guarded_entries(),
        vec!["schema.json", "schema.md", "graph.mmd", "relationships.json", "metadata.json", "tables"]
    );
}

#[test]
fn earlier_output_is_replaced_only_when_asked() {
    assert!(refuse_existing_output(".ai/dbctx", false, false).is_ok());
    assert!(refuse_existing_output(".ai/dbctx", true, true).is_ok());
    match refuse_existing_output(".ai/dbctx", false, true) {
        Err(ExportError::OutputExists { path }) => assert_eq!(path, ".ai/dbctx"),
        other => panic!("unexpected {other:?}"),
    }
}
