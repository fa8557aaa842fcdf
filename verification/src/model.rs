//! The canonical schema model.
//!
//! This is the single source of truth every exporter, validation rule and
//! analysis heuristic consumes. It holds facts read from a database catalog
//! plus the document header that identifies the format they are written in:
//! no engine-specific logic and no derived opinions.
//!
//! Engine-specific fields are `None` when the source engine does not provide
//! them. They are never given placeholder values.
//!
//! Each type has a view: the same facts with every string taken as its
//! sequence of characters. Contracts throughout the library are stated over
//! these views.
use vstd::prelude::*;

use crate::order::{
    key_le, key_lt, keyed_as, lex_lt, part_order, sorted_by, stable_sort, text_lt, text_lt_exec,
    view_keyed, KeyPart, Keyed,
};
use crate::text::owned;

verus! {

/// Version of the document format, independent of the application version
/// reported by [`crate::VERSION`].
pub const FORMAT_VERSION: &'static str = "1.0";

/// Name of the program that writes documents.
pub const GENERATOR_NAME: &'static str = "dbctx";

/// The header every document begins with.
///
/// The header is data, not behavior: [`DocumentHeader::new`] takes the
/// timestamp rather than reading the clock, so a caller can reproduce a
/// document exactly.
#[derive(Debug, PartialEq)]
pub struct DocumentHeader {
    /// Document type, for example `dbctx.schema`.
    pub format: String,
    /// Format version the document conforms to.
    pub format_version: String,
    /// Program that wrote the document.
    pub generator: Generator,
    /// Time the document was generated, as an RFC 3339 UTC timestamp.
    pub generated_at: String,
}

/// The program that wrote a document.
#[derive(Debug, PartialEq)]
pub struct Generator {
    /// Program name.
    pub name: String,
    /// Program version.
    pub version: String,
}

/// The database engine a schema was read from.
#[derive(Debug, Clone, Copy, PartialEq, Eq, Structural)]
pub enum Engine {
    /// MySQL.
    Mysql,
    /// MariaDB.
    Mariadb,
    /// Microsoft SQL Server.
    Sqlserver,
    /// PostgreSQL.
    Postgres,
    /// SQLite.
    Sqlite,
}

/// A whole database: its metadata, tables and views.
///
/// Relationships are not a field. They restate the foreign keys the tables
/// already hold, so they are derived by [`Database::relationships`] and
/// cannot disagree with the keys they came from.
#[derive(Debug, PartialEq)]
pub struct Database {
    /// Document header.
    pub header: DocumentHeader,
    /// Database-level facts.
    pub metadata: DatabaseMetadata,
    /// Tables, sorted by schema then name once [`Database::sort`] has run.
    pub tables: Vec<Table>,
    /// Views, sorted by schema then name once [`Database::sort`] has run.
    pub views: Vec<SchemaView>,
}

/// Database-level facts.
#[derive(Debug, PartialEq)]
pub struct DatabaseMetadata {
    /// Name of the inspected database.
    pub database: String,
    /// Engine the database runs on.
    pub engine: Engine,
    /// Engine version string as the server reports it.
    pub engine_version: String,
    /// Default character set. `None` where the engine has none.
    pub default_charset: Option<String>,
    /// Default collation. `None` where the engine has none.
    pub default_collation: Option<String>,
}

/// A table and everything defined on it.
#[derive(Debug, PartialEq)]
pub struct Table {
    /// Object namespace: the database name on MySQL and MariaDB, the SQL
    /// Server schema (for example `dbo`) on SQL Server.
    pub schema: String,
    /// Table name.
    pub name: String,
    /// Storage engine, for example `InnoDB`.
    pub engine: Option<String>,
    /// Character set.
    pub charset: Option<String>,
    /// Collation.
    pub collation: Option<String>,
    /// Table comment, if the catalog records one.
    pub comment: Option<String>,
    /// Columns, sorted by [`Column::ordinal_position`].
    pub columns: Vec<Column>,
    /// Indexes, sorted by name.
    pub indexes: Vec<Index>,
    /// Foreign keys, sorted by name.
    pub foreign_keys: Vec<ForeignKey>,
    /// Deterministic analysis findings, present only when analysis ran and
    /// found something.
    pub analysis: Option<TableAnalysis>,
    /// Generated context, present only when it was asked for.
    pub ai: Option<AiContext>,
}

/// A database view and the columns it exposes.
#[derive(Debug, PartialEq)]
pub struct SchemaView {
    /// Object namespace, following the same rule as [`Table::schema`].
    pub schema: String,
    /// View name.
    pub name: String,
    /// Columns, sorted by [`Column::ordinal_position`].
    pub columns: Vec<Column>,
}

/// A column of a table or view.
#[derive(Debug, PartialEq)]
pub struct Column {
    /// Column name.
    pub name: String,
    /// One-based position within the table, as the catalog reports it.
    pub ordinal_position: u32,
    /// Bare type name, for example `varchar`.
    pub data_type: String,
    /// Full declared type, for example `varchar(255)`.
    pub full_type: String,
    /// Whether the column accepts NULL.
    pub nullable: bool,
    /// Declared default. `None` means no default, which is distinct from a
    /// default of NULL.
    pub default: Option<String>,
    /// Whether the engine assigns values automatically.
    pub auto_increment: bool,
    /// Whether the column takes part in the primary key.
    pub primary_key: bool,
    /// Whether a unique constraint covers the column on its own.
    pub unique: bool,
    /// Column comment, if the catalog records one.
    pub comment: Option<String>,
    /// Whether the column is computed rather than stored input.
    pub generated: bool,
    /// Expression behind a generated column.
    pub expression: Option<String>,
}

/// An index.
#[derive(Debug, PartialEq)]
pub struct Index {
    /// Index name.
    pub name: String,
    /// Whether the index enforces uniqueness.
    pub unique: bool,
    /// Indexed columns, in index order, which is significant.
    pub columns: Vec<String>,
    /// Type as the engine reports it. Never normalized across engines.
    pub index_type: String,
}

/// A foreign key constraint.
#[derive(Debug, PartialEq)]
pub struct ForeignKey {
    /// Constraint name.
    pub name: String,
    /// Constrained columns, in constraint order, which is significant.
    pub columns: Vec<String>,
    /// Namespace of the referenced table.
    pub referenced_schema: String,
    /// Referenced table name.
    pub referenced_table: String,
    /// Referenced columns, positionally matching [`ForeignKey::columns`].
    pub referenced_columns: Vec<String>,
    /// Referential action on update, for example `CASCADE`.
    pub on_update: String,
    /// Referential action on delete, for example `NO ACTION`.
    pub on_delete: String,
}

/// One foreign key expressed as a directed relationship between two tables.
#[derive(Debug, PartialEq)]
pub struct Relationship {
    /// Namespace of the referencing table.
    pub from_schema: String,
    /// Referencing table.
    pub from_table: String,
    /// Referencing columns.
    pub from_columns: Vec<String>,
    /// Namespace of the referenced table.
    pub to_schema: String,
    /// Referenced table.
    pub to_table: String,
    /// Referenced columns.
    pub to_columns: Vec<String>,
    /// Name of the foreign key constraint.
    pub constraint: String,
}

/// What a deterministic heuristic recognised a table as.
#[derive(Debug, Clone, Copy, PartialEq, Eq, Structural)]
pub enum AnalysisKind {
    /// Two foreign keys to different tables make up the primary key.
    JunctionTable,
    /// A small keyed table of names or codes.
    LookupTable,
    /// A table whose name says it records changes.
    AuditTable,
    /// Rows are marked deleted rather than removed.
    SoftDeletes,
    /// Both creation and update times are recorded.
    TimestampConventions,
}

/// One heuristic finding about a table.
#[derive(Debug, PartialEq)]
pub struct AnalysisFinding {
    /// What the table was recognised as.
    pub kind: AnalysisKind,
    /// Confidence in hundredths: `100` is certainty.
    pub confidence: u32,
    /// The facts that led to the finding.
    pub evidence: Vec<String>,
}

/// The findings analysis attached to a table.
#[derive(Debug, PartialEq)]
pub struct TableAnalysis {
    /// Findings, ordered by kind.
    pub findings: Vec<AnalysisFinding>,
}

/// Generated context for a table, always labelled as generated.
#[derive(Debug, PartialEq)]
pub struct AiContext {
    /// Always `true`: the content is generated, not read from the catalog.
    pub generated: bool,
    /// Confidence in hundredths.
    pub confidence: u32,
    /// One-paragraph summary.
    pub summary: String,
    /// Relationship narratives and entry-point suggestions.
    pub notes: Vec<String>,
}

// ---------------------------------------------------------------------------
// Views
// ---------------------------------------------------------------------------

pub struct GeneratorSpec {
    pub name: Seq<char>,
    pub version: Seq<char>,
}

pub struct DocumentHeaderSpec {
    pub format: Seq<char>,
    pub format_version: Seq<char>,
    pub generator: GeneratorSpec,
    pub generated_at: Seq<char>,
}

pub struct DatabaseMetadataSpec {
    pub database: Seq<char>,
    pub engine: Engine,
    pub engine_version: Seq<char>,
    pub default_charset: Option<Seq<char>>,
    pub default_collation: Option<Seq<char>>,
}

pub struct ColumnSpec {
    pub name: Seq<char>,
    pub ordinal_position: u32,
    pub data_type: Seq<char>,
    pub full_type: Seq<char>,
    pub nullable: bool,
    pub default: Option<Seq<char>>,
    pub auto_increment: bool,
    pub primary_key: bool,
    pub unique: bool,
    pub comment: Option<Seq<char>>,
    pub generated: bool,
    pub expression: Option<Seq<char>>,
}

pub struct IndexSpec {
    pub name: Seq<char>,
    pub unique: bool,
    pub columns: Seq<Seq<char>>,
    pub index_type: Seq<char>,
}

pub struct ForeignKeySpec {
    pub name: Seq<char>,
    pub columns: Seq<Seq<char>>,
    pub referenced_schema: Seq<char>,
    pub referenced_table: Seq<char>,
    pub referenced_columns: Seq<Seq<char>>,
    pub on_update: Seq<char>,
    pub on_delete: Seq<char>,
}

pub struct RelationshipSpec {
    pub from_schema: Seq<char>,
    pub from_table: Seq<char>,
    pub from_columns: Seq<Seq<char>>,
    pub to_schema: Seq<char>,
    pub to_table: Seq<char>,
    pub to_columns: Seq<Seq<char>>,
    pub constraint: Seq<char>,
}

pub struct AnalysisFindingSpec {
    pub kind: AnalysisKind,
    pub confidence: u32,
    pub evidence: Seq<Seq<char>>,
}

pub struct TableAnalysisSpec {
    pub findings: Seq<AnalysisFindingSpec>,
}

pub struct AiContextSpec {
    pub generated: bool,
    pub confidence: u32,
    pub summary: Seq<char>,
    pub notes: Seq<Seq<char>>,
}

pub struct TableSpec {
    pub schema: Seq<char>,
    pub name: Seq<char>,
    pub engine: Option<Seq<char>>,
    pub charset: Option<Seq<char>>,
    pub collation: Option<Seq<char>>,
    pub comment: Option<Seq<char>>,
    pub columns: Seq<ColumnSpec>,
    pub indexes: Seq<IndexSpec>,
    pub foreign_keys: Seq<ForeignKeySpec>,
    pub analysis: Option<TableAnalysisSpec>,
    pub ai: Option<AiContextSpec>,
}

pub struct SchemaViewSpec {
    pub schema: Seq<char>,
    pub name: Seq<char>,
    pub columns: Seq<ColumnSpec>,
}

pub struct DatabaseSpec {
    pub header: DocumentHeaderSpec,
    pub metadata: DatabaseMetadataSpec,
    pub tables: Seq<TableSpec>,
    pub views: Seq<SchemaViewSpec>,
}

impl vstd::view::View for Generator {
    type V = GeneratorSpec;

    open spec fn view(&self) -> GeneratorSpec {
        GeneratorSpec { name: self.name@, version: self.version@ }
    }
}

impl DeepView for Generator {
    type V = GeneratorSpec;

    open spec fn deep_view(&self) -> GeneratorSpec {
        self@
    }
}

impl vstd::view::View for DocumentHeader {
    type V = DocumentHeaderSpec;

    open spec fn view(&self) -> DocumentHeaderSpec {
        DocumentHeaderSpec {
            format: self.format@,
            format_version: self.format_version@,
            generator: self.generator@,
            generated_at: self.generated_at@,
        }
    }
}

impl DeepView for DocumentHeader {
    type V = DocumentHeaderSpec;

    open spec fn deep_view(&self) -> DocumentHeaderSpec {
        self@
    }
}

impl vstd::view::View for DatabaseMetadata {
    type V = DatabaseMetadataSpec;

    open spec fn view(&self) -> DatabaseMetadataSpec {
        DatabaseMetadataSpec {
            database: self.database@,
            engine: self.engine,
            engine_version: self.engine_version@,
            default_charset: self.default_charset.deep_view(),
            default_collation: self.default_collation.deep_view(),
        }
    }
}

impl DeepView for DatabaseMetadata {
    type V = DatabaseMetadataSpec;

    open spec fn deep_view(&self) -> DatabaseMetadataSpec {
        self@
    }
}

impl vstd::view::View for Column {
    type V = ColumnSpec;

    open spec fn view(&self) -> ColumnSpec {
        ColumnSpec {
            name: self.name@,
            ordinal_position: self.ordinal_position,
            data_type: self.data_type@,
            full_type: self.full_type@,
            nullable: self.nullable,
            default: self.default.deep_view(),
            auto_increment: self.auto_increment,
            primary_key: self.primary_key,
            unique: self.unique,
            comment: self.comment.deep_view(),
            generated: self.generated,
            expression: self.expression.deep_view(),
        }
    }
}

impl DeepView for Column {
    type V = ColumnSpec;

    open spec fn deep_view(&self) -> ColumnSpec {
        self@
    }
}

impl vstd::view::View for Index {
    type V = IndexSpec;

    open spec fn view(&self) -> IndexSpec {
        IndexSpec {
            name: self.name@,
            unique: self.unique,
            columns: self.columns.deep_view(),
            index_type: self.index_type@,
        }
    }
}

impl DeepView for Index {
    type V = IndexSpec;

    open spec fn deep_view(&self) -> IndexSpec {
        self@
    }
}

impl vstd::view::View for ForeignKey {
    type V = ForeignKeySpec;

    open spec fn view(&self) -> ForeignKeySpec {
        ForeignKeySpec {
            name: self.name@,
            columns: self.columns.deep_view(),
            referenced_schema: self.referenced_schema@,
            referenced_table: self.referenced_table@,
            referenced_columns: self.referenced_columns.deep_view(),
            on_update: self.on_update@,
            on_delete: self.on_delete@,
        }
    }
}

impl DeepView for ForeignKey {
    type V = ForeignKeySpec;

    open spec fn deep_view(&self) -> ForeignKeySpec {
        self@
    }
}

impl vstd::view::View for Relationship {
    type V = RelationshipSpec;

    open spec fn view(&self) -> RelationshipSpec {
        RelationshipSpec {
            from_schema: self.from_schema@,
            from_table: self.from_table@,
            from_columns: self.from_columns.deep_view(),
            to_schema: self.to_schema@,
            to_table: self.to_table@,
            to_columns: self.to_columns.deep_view(),
            constraint: self.constraint@,
        }
    }
}

impl DeepView for Relationship {
    type V = RelationshipSpec;

    open spec fn deep_view(&self) -> RelationshipSpec {
        self@
    }
}

impl vstd::view::View for AnalysisFinding {
    type V = AnalysisFindingSpec;

    open spec fn view(&self) -> AnalysisFindingSpec {
        AnalysisFindingSpec {
            kind: self.kind,
            confidence: self.confidence,
            evidence: self.evidence.deep_view(),
        }
    }
}

impl DeepView for AnalysisFinding {
    type V = AnalysisFindingSpec;

    open spec fn deep_view(&self) -> AnalysisFindingSpec {
        self@
    }
}

impl vstd::view::View for TableAnalysis {
    type V = TableAnalysisSpec;

    open spec fn view(&self) -> TableAnalysisSpec {
        TableAnalysisSpec { findings: self.findings.deep_view() }
    }
}

impl DeepView for TableAnalysis {
    type V = TableAnalysisSpec;

    open spec fn deep_view(&self) -> TableAnalysisSpec {
        self@
    }
}

impl vstd::view::View for AiContext {
    type V = AiContextSpec;

    open spec fn view(&self) -> AiContextSpec {
        AiContextSpec {
            generated: self.generated,
            confidence: self.confidence,
            summary: self.summary@,
            notes: self.notes.deep_view(),
        }
    }
}

impl DeepView for AiContext {
    type V = AiContextSpec;

    open spec fn deep_view(&self) -> AiContextSpec {
        self@
    }
}

impl vstd::view::View for Table {
    type V = TableSpec;

    open spec fn view(&self) -> TableSpec {
        TableSpec {
            schema: self.schema@,
            name: self.name@,
            engine: self.engine.deep_view(),
            charset: self.charset.deep_view(),
            collation: self.collation.deep_view(),
            comment: self.comment.deep_view(),
            columns: self.columns.deep_view(),
            indexes: self.indexes.deep_view(),
            foreign_keys: self.foreign_keys.deep_view(),
            analysis: self.analysis.deep_view(),
            ai: self.ai.deep_view(),
        }
    }
}

impl DeepView for Table {
    type V = TableSpec;

    open spec fn deep_view(&self) -> TableSpec {
        self@
    }
}

impl vstd::view::View for SchemaView {
    type V = SchemaViewSpec;

    open spec fn view(&self) -> SchemaViewSpec {
        SchemaViewSpec { schema: self.schema@, name: self.name@, columns: self.columns.deep_view() }
    }
}

impl DeepView for SchemaView {
    type V = SchemaViewSpec;

    open spec fn deep_view(&self) -> SchemaViewSpec {
        self@
    }
}

impl vstd::view::View for Database {
    type V = DatabaseSpec;

    open spec fn view(&self) -> DatabaseSpec {
        DatabaseSpec {
            header: self.header@,
            metadata: self.metadata@,
            tables: self.tables.deep_view(),
            views: self.views.deep_view(),
        }
    }
}

impl DeepView for Database {
    type V = DatabaseSpec;

    open spec fn deep_view(&self) -> DatabaseSpec {
        self@
    }
}

// ---------------------------------------------------------------------------
// Copies
// ---------------------------------------------------------------------------

/// Pushing onto a vector pushes the value's view onto the vector's view.
pub proof fn lemma_push_deep_view<T: DeepView>(before: Vec<T>, after: Vec<T>, x: T)
    requires
        after@ == before@.push(x),
    ensures
        after.deep_view() == before.deep_view().push(x.deep_view()),
{
    assert(after.deep_view() =~= before.deep_view().push(x.deep_view()));
}

/// A copy of an optional string.
pub fn clone_opt(o: &Option<String>) -> (r: Option<String>)
    ensures
        r.deep_view() == o.deep_view(),
{
    match o {
        Some(s) => Some(s.clone()),
        None => None,
    }
}

/// A copy of a list of strings.
pub fn clone_strings(v: &Vec<String>) -> (r: Vec<String>)
    ensures
        r.deep_view() == v.deep_view(),
{
    let mut out: Vec<String> = Vec::new();
    let mut i: usize = 0;
    while i < v.len()
        invariant
            i <= v.len(),
            out.deep_view() == v.deep_view().take(i as int),
        decreases v.len() - i,
    {
        let x = v[i].clone();
        assert(x.deep_view() == v.deep_view()[i as int]);
        let ghost before = out;
        let ghost gx = x;
        out.push(x);
        proof {
            lemma_push_deep_view(before, out, gx);
        }
        i = i + 1;
        assert(out.deep_view() =~= v.deep_view().take(i as int));
    }
    assert(v.deep_view().take(v.len() as int) =~= v.deep_view());
    out
}

impl Clone for Generator {
    fn clone(&self) -> (r: Self)
        ensures
            r@ == self@,
    {
        Generator { name: self.name.clone(), version: self.version.clone() }
    }
}

impl Clone for DocumentHeader {
    fn clone(&self) -> (r: Self)
        ensures
            r@ == self@,
    {
        DocumentHeader {
            format: self.format.clone(),
            format_version: self.format_version.clone(),
            generator: self.generator.clone(),
            generated_at: self.generated_at.clone(),
        }
    }
}

impl Clone for DatabaseMetadata {
    fn clone(&self) -> (r: Self)
        ensures
            r@ == self@,
    {
        DatabaseMetadata {
            database: self.database.clone(),
            engine: self.engine,
            engine_version: self.engine_version.clone(),
            default_charset: clone_opt(&self.default_charset),
            default_collation: clone_opt(&self.default_collation),
        }
    }
}

impl Clone for Column {
    fn clone(&self) -> (r: Self)
        ensures
            r@ == self@,
    {
        Column {
            name: self.name.clone(),
            ordinal_position: self.ordinal_position,
            data_type: self.data_type.clone(),
            full_type: self.full_type.clone(),
            nullable: self.nullable,
            default: clone_opt(&self.default),
            auto_increment: self.auto_increment,
            primary_key: self.primary_key,
            unique: self.unique,
            comment: clone_opt(&self.comment),
            generated: self.generated,
            expression: clone_opt(&self.expression),
        }
    }
}

impl Clone for Index {
    fn clone(&self) -> (r: Self)
        ensures
            r@ == self@,
    {
        Index {
            name: self.name.clone(),
            unique: self.unique,
            columns: clone_strings(&self.columns),
            index_type: self.index_type.clone(),
        }
    }
}

impl Clone for ForeignKey {
    fn clone(&self) -> (r: Self)
        ensures
            r@ == self@,
    {
        ForeignKey {
            name: self.name.clone(),
            columns: clone_strings(&self.columns),
            referenced_schema: self.referenced_schema.clone(),
            referenced_table: self.referenced_table.clone(),
            referenced_columns: clone_strings(&self.referenced_columns),
            on_update: self.on_update.clone(),
            on_delete: self.on_delete.clone(),
        }
    }
}

impl Clone for Relationship {
    fn clone(&self) -> (r: Self)
        ensures
            r@ == self@,
    {
        Relationship {
            from_schema: self.from_schema.clone(),
            from_table: self.from_table.clone(),
            from_columns: clone_strings(&self.from_columns),
            to_schema: self.to_schema.clone(),
            to_table: self.to_table.clone(),
            to_columns: clone_strings(&self.to_columns),
            constraint: self.constraint.clone(),
        }
    }
}

impl Clone for AnalysisFinding {
    fn clone(&self) -> (r: Self)
        ensures
            r@ == self@,
    {
        AnalysisFinding {
            kind: self.kind,
            confidence: self.confidence,
            evidence: clone_strings(&self.evidence),
        }
    }
}

impl Clone for TableAnalysis {
    fn clone(&self) -> (r: Self)
        ensures
            r@ == self@,
    {
        let mut findings: Vec<AnalysisFinding> = Vec::new();
        let mut i: usize = 0;
        while i < self.findings.len()
            invariant
                i <= self.findings.len(),
                findings.deep_view() == self.findings.deep_view().take(i as int),
            decreases self.findings.len() - i,
        {
            let x = self.findings[i].clone();
            assert(x.deep_view() == self.findings.deep_view()[i as int]);
            let ghost before = findings;
            let ghost gx = x;
            findings.push(x);
            proof {
                lemma_push_deep_view(before, findings, gx);
            }
            i = i + 1;
            assert(findings.deep_view() =~= self.findings.deep_view().take(i as int));
        }
        assert(self.findings.deep_view().take(i as int) =~= self.findings.deep_view());
        TableAnalysis { findings }
    }
}

impl Clone for AiContext {
    fn clone(&self) -> (r: Self)
        ensures
            r@ == self@,
    {
        AiContext {
            generated: self.generated,
            confidence: self.confidence,
            summary: self.summary.clone(),
            notes: clone_strings(&self.notes),
        }
    }
}

/// A copy of a list of columns.
pub fn clone_columns(v: &Vec<Column>) -> (r: Vec<Column>)
    ensures
        r.deep_view() == v.deep_view(),
{
    let mut out: Vec<Column> = Vec::new();
    let mut i: usize = 0;
    while i < v.len()
        invariant
            i <= v.len(),
            out.deep_view() == v.deep_view().take(i as int),
        decreases v.len() - i,
    {
        let x = v[i].clone();
        assert(x.deep_view() == v.deep_view()[i as int]);
        let ghost before = out;
        let ghost gx = x;
        out.push(x);
        proof {
            lemma_push_deep_view(before, out, gx);
        }
        i = i + 1;
        assert(out.deep_view() =~= v.deep_view().take(i as int));
    }
    assert(v.deep_view().take(v.len() as int) =~= v.deep_view());
    out
}

/// A copy of a list of indexes.
pub fn clone_indexes(v: &Vec<Index>) -> (r: Vec<Index>)
    ensures
        r.deep_view() == v.deep_view(),
{
    let mut out: Vec<Index> = Vec::new();
    let mut i: usize = 0;
    while i < v.len()
        invariant
            i <= v.len(),
            out.deep_view() == v.deep_view().take(i as int),
        decreases v.len() - i,
    {
        let x = v[i].clone();
        assert(x.deep_view() == v.deep_view()[i as int]);
        let ghost before = out;
        let ghost gx = x;
        out.push(x);
        proof {
            lemma_push_deep_view(before, out, gx);
        }
        i = i + 1;
        assert(out.deep_view() =~= v.deep_view().take(i as int));
    }
    assert(v.deep_view().take(v.len() as int) =~= v.deep_view());
    out
}

/// A copy of a list of foreign keys.
pub fn clone_foreign_keys(v: &Vec<ForeignKey>) -> (r: Vec<ForeignKey>)
    ensures
        r.deep_view() == v.deep_view(),
{
    let mut out: Vec<ForeignKey> = Vec::new();
    let mut i: usize = 0;
    while i < v.len()
        invariant
            i <= v.len(),
            out.deep_view() == v.deep_view().take(i as int),
        decreases v.len() - i,
    {
        let x = v[i].clone();
        assert(x.deep_view() == v.deep_view()[i as int]);
        let ghost before = out;
        let ghost gx = x;
        out.push(x);
        proof {
            lemma_push_deep_view(before, out, gx);
        }
        i = i + 1;
        assert(out.deep_view() =~= v.deep_view().take(i as int));
    }
    assert(v.deep_view().take(v.len() as int) =~= v.deep_view());
    out
}

impl Clone for Table {
    fn clone(&self) -> (r: Self)
        ensures
            r@ == self@,
    {
        Table {
            schema: self.schema.clone(),
            name: self.name.clone(),
            engine: clone_opt(&self.engine),
            charset: clone_opt(&self.charset),
            collation: clone_opt(&self.collation),
            comment: clone_opt(&self.comment),
            columns: clone_columns(&self.columns),
            indexes: clone_indexes(&self.indexes),
            foreign_keys: clone_foreign_keys(&self.foreign_keys),
            analysis: match &self.analysis {
                Some(a) => Some(a.clone()),
                None => None,
            },
            ai: match &self.ai {
                Some(a) => Some(a.clone()),
                None => None,
            },
        }
    }
}

impl Clone for SchemaView {
    fn clone(&self) -> (r: Self)
        ensures
            r@ == self@,
    {
        SchemaView {
            schema: self.schema.clone(),
            name: self.name.clone(),
            columns: clone_columns(&self.columns),
        }
    }
}

// ---------------------------------------------------------------------------
// Names
// ---------------------------------------------------------------------------

/// The name an engine is written as in documents.
pub open spec fn engine_name(e: Engine) -> Seq<char> {
    match e {
        Engine::Mysql => "mysql"@,
        Engine::Mariadb => "mariadb"@,
        Engine::Sqlserver => "sqlserver"@,
        Engine::Postgres => "postgres"@,
        Engine::Sqlite => "sqlite"@,
    }
}

impl Engine {
    /// The name this engine is written as in documents.
    pub fn name(&self) -> (r: &'static str)
        ensures
            r@ == engine_name(*self),
    {
        match self {
            Engine::Mysql => "mysql",
            Engine::Mariadb => "mariadb",
            Engine::Sqlserver => "sqlserver",
            Engine::Postgres => "postgres",
            Engine::Sqlite => "sqlite",
        }
    }
}

/// The words a finding kind is described with.
pub open spec fn kind_label(k: AnalysisKind) -> Seq<char> {
    match k {
        AnalysisKind::JunctionTable => "junction table"@,
        AnalysisKind::LookupTable => "lookup table"@,
        AnalysisKind::AuditTable => "audit table"@,
        AnalysisKind::SoftDeletes => "soft deletes"@,
        AnalysisKind::TimestampConventions => "timestamp conventions"@,
    }
}

impl AnalysisKind {
    /// The words this kind is described with.
    pub fn label(&self) -> (r: &'static str)
        ensures
            r@ == kind_label(*self),
    {
        match self {
            AnalysisKind::JunctionTable => "junction table",
            AnalysisKind::LookupTable => "lookup table",
            AnalysisKind::AuditTable => "audit table",
            AnalysisKind::SoftDeletes => "soft deletes",
            AnalysisKind::TimestampConventions => "timestamp conventions",
        }
    }
}

/// The header a document of type `format` generated at `generated_at`
/// carries: this build's format version and generator.
pub open spec fn header_of(format: Seq<char>, generated_at: Seq<char>) -> DocumentHeaderSpec {
    DocumentHeaderSpec {
        format,
        format_version: FORMAT_VERSION@,
        generator: GeneratorSpec { name: GENERATOR_NAME@, version: crate::VERSION@ },
        generated_at,
    }
}

impl DocumentHeader {
    /// A header for `format`, generated at `generated_at`, stamped with this
    /// build's format version and generator.
    ///
    /// `generated_at` is an RFC 3339 UTC timestamp such as
    /// `2026-01-01T00:00:00Z`. Documents read back keep whatever they were
    /// written with.
    pub fn new(format: &str, generated_at: &str) -> (r: Self)
        ensures
            r@ == header_of(format@, generated_at@),
    {
        DocumentHeader {
            format: owned(format),
            format_version: owned(FORMAT_VERSION),
            generator: Generator { name: owned(GENERATOR_NAME), version: owned(crate::VERSION) },
            generated_at: owned(generated_at),
        }
    }
}

// ---------------------------------------------------------------------------
// Ordering
// ---------------------------------------------------------------------------

/// Tables and views sort by namespace, then name.
pub open spec fn qualified_key(schema: Seq<char>, name: Seq<char>) -> Seq<KeyPart> {
    crate::order::text_key(seq![schema, name])
}

/// Relationships sort by source namespace, source table, target namespace,
/// target table, then constraint name.
pub open spec fn relationship_key(r: RelationshipSpec) -> Seq<KeyPart> {
    crate::order::text_key(seq![r.from_schema, r.from_table, r.to_schema, r.to_table, r.constraint])
}

impl Keyed for Table {
    open spec fn view_key(v: TableSpec) -> Seq<KeyPart> {
        qualified_key(v.schema, v.name)
    }

    fn key_le(&self, other: &Self) -> (r: bool) {
        let a = vec![other.schema.as_str(), other.name.as_str()];
        let b = vec![self.schema.as_str(), self.name.as_str()];
        assert(a.deep_view() =~= seq![other.schema@, other.name@]);
        assert(b.deep_view() =~= seq![self.schema@, self.name@]);
        !crate::order::text_key_lt(&a, &b)
    }
}

impl Keyed for SchemaView {
    open spec fn view_key(v: SchemaViewSpec) -> Seq<KeyPart> {
        qualified_key(v.schema, v.name)
    }

    fn key_le(&self, other: &Self) -> (r: bool) {
        let a = vec![other.schema.as_str(), other.name.as_str()];
        let b = vec![self.schema.as_str(), self.name.as_str()];
        assert(a.deep_view() =~= seq![other.schema@, other.name@]);
        assert(b.deep_view() =~= seq![self.schema@, self.name@]);
        !crate::order::text_key_lt(&a, &b)
    }
}

impl Keyed for Relationship {
    open spec fn view_key(v: RelationshipSpec) -> Seq<KeyPart> {
        relationship_key(v)
    }

    fn key_le(&self, other: &Self) -> (r: bool) {
        let a = vec![
            other.from_schema.as_str(),
            other.from_table.as_str(),
            other.to_schema.as_str(),
            other.to_table.as_str(),
            other.constraint.as_str(),
        ];
        let b = vec![
            self.from_schema.as_str(),
            self.from_table.as_str(),
            self.to_schema.as_str(),
            self.to_table.as_str(),
            self.constraint.as_str(),
        ];
        assert(a.deep_view() =~= seq![
            other.from_schema@,
            other.from_table@,
            other.to_schema@,
            other.to_table@,
            other.constraint@,
        ]);
        assert(b.deep_view() =~= seq![
            self.from_schema@,
            self.from_table@,
            self.to_schema@,
            self.to_table@,
            self.constraint@,
        ]);
        !crate::order::text_key_lt(&a, &b)
    }
}

impl Keyed for Index {
    open spec fn view_key(v: IndexSpec) -> Seq<KeyPart> {
        crate::order::text_key(seq![v.name])
    }

    fn key_le(&self, other: &Self) -> (r: bool) {
        let a = vec![other.name.as_str()];
        let b = vec![self.name.as_str()];
        assert(a.deep_view() =~= seq![other.name@]);
        assert(b.deep_view() =~= seq![self.name@]);
        !crate::order::text_key_lt(&a, &b)
    }
}

impl Keyed for ForeignKey {
    open spec fn view_key(v: ForeignKeySpec) -> Seq<KeyPart> {
        crate::order::text_key(seq![v.name])
    }

    fn key_le(&self, other: &Self) -> (r: bool) {
        let a = vec![other.name.as_str()];
        let b = vec![self.name.as_str()];
        assert(a.deep_view() =~= seq![other.name@]);
        assert(b.deep_view() =~= seq![self.name@]);
        !crate::order::text_key_lt(&a, &b)
    }
}

impl Keyed for Column {
    open spec fn view_key(v: ColumnSpec) -> Seq<KeyPart> {
        seq![KeyPart::Num(v.ordinal_position as int)]
    }

    fn key_le(&self, other: &Self) -> (r: bool) {
        proof {
            let x = Self::view_key(other.deep_view());
            let y = Self::view_key(self.deep_view());
            crate::order::lemma_key_lt_step(x, y);
            crate::order::lemma_key_lt_nil(x.drop_first(), y.drop_first());
        }
        self.ordinal_position <= other.ordinal_position
    }
}

/// `t` with its columns, indexes and foreign keys in document order.
pub open spec fn sorted_table(t: TableSpec) -> TableSpec {
    TableSpec {
        columns: sorted_by(t.columns, view_keyed::<Column>()),
        indexes: sorted_by(t.indexes, view_keyed::<Index>()),
        foreign_keys: sorted_by(t.foreign_keys, view_keyed::<ForeignKey>()),
        ..t
    }
}

/// `v` with its columns in document order.
pub open spec fn sorted_view(v: SchemaViewSpec) -> SchemaViewSpec {
    SchemaViewSpec { columns: sorted_by(v.columns, view_keyed::<Column>()), ..v }
}

/// `db` with every collection in the deterministic order documents use.
pub open spec fn sorted_database(db: DatabaseSpec) -> DatabaseSpec {
    DatabaseSpec {
        tables: sorted_by(db.tables, view_keyed::<Table>()).map_values(|t: TableSpec| sorted_table(t)),
        views: sorted_by(db.views, view_keyed::<SchemaView>()).map_values(
            |v: SchemaViewSpec| sorted_view(v),
        ),
        ..db
    }
}

impl Table {
    fn sort_parts(&mut self)
        ensures
            final(self)@ == sorted_table(old(self)@),
    {
        stable_sort(&mut self.columns);
        stable_sort(&mut self.indexes);
        stable_sort(&mut self.foreign_keys);
    }
}

impl SchemaView {
    fn sort_parts(&mut self)
        ensures
            final(self)@ == sorted_view(old(self)@),
    {
        stable_sort(&mut self.columns);
    }
}

// ---------------------------------------------------------------------------
// Relationships
// ---------------------------------------------------------------------------

/// The relationship a foreign key of table `t` expresses.
pub open spec fn relationship_of(t: TableSpec, fk: ForeignKeySpec) -> RelationshipSpec {
    RelationshipSpec {
        from_schema: t.schema,
        from_table: t.name,
        from_columns: fk.columns,
        to_schema: fk.referenced_schema,
        to_table: fk.referenced_table,
        to_columns: fk.referenced_columns,
        constraint: fk.name,
    }
}

/// The relationships of table `t`, in foreign key order.
pub open spec fn table_relationships(t: TableSpec) -> Seq<RelationshipSpec> {
    t.foreign_keys.map_values(|fk: ForeignKeySpec| relationship_of(t, fk))
}

/// The relationships of `tables`, table by table.
pub open spec fn collect_relationships(tables: Seq<TableSpec>) -> Seq<RelationshipSpec>
    decreases tables.len(),
{
    if tables.len() == 0 {
        Seq::empty()
    } else {
        collect_relationships(tables.drop_last()) + table_relationships(tables.last())
    }
}

/// Every foreign key of `db` as a relationship, in relationship order.
pub open spec fn relationships_of(db: DatabaseSpec) -> Seq<RelationshipSpec> {
    sorted_by(collect_relationships(db.tables), view_keyed::<Relationship>())
}

// ---------------------------------------------------------------------------
// Laws of sorting
// ---------------------------------------------------------------------------

proof fn lemma_sorted_table_keeps_key(t: TableSpec)
    ensures
        view_keyed::<Table>()(sorted_table(t)) == view_keyed::<Table>()(t),
        sorted_table(sorted_table(t)) == sorted_table(t),
        crate::order::is_sorted_by(sorted_table(t).columns, view_keyed::<Column>()),
        crate::order::is_sorted_by(sorted_table(t).indexes, view_keyed::<Index>()),
        crate::order::is_sorted_by(sorted_table(t).foreign_keys, view_keyed::<ForeignKey>()),
{
    crate::order::lemma_sorted_by_idempotent(t.columns, view_keyed::<Column>());
    crate::order::lemma_sorted_by_idempotent(t.indexes, view_keyed::<Index>());
    crate::order::lemma_sorted_by_idempotent(t.foreign_keys, view_keyed::<ForeignKey>());
    crate::order::lemma_sorted_by(t.columns, view_keyed::<Column>());
    crate::order::lemma_sorted_by(t.indexes, view_keyed::<Index>());
    crate::order::lemma_sorted_by(t.foreign_keys, view_keyed::<ForeignKey>());
}

proof fn lemma_sorted_view_keeps_key(v: SchemaViewSpec)
    ensures
        view_keyed::<SchemaView>()(sorted_view(v)) == view_keyed::<SchemaView>()(v),
        sorted_view(sorted_view(v)) == sorted_view(v),
        crate::order::is_sorted_by(sorted_view(v).columns, view_keyed::<Column>()),
{
    crate::order::lemma_sorted_by_idempotent(v.columns, view_keyed::<Column>());
    crate::order::lemma_sorted_by(v.columns, view_keyed::<Column>());
}

/// Sorting puts tables and views in schema-then-name order and every
/// table's columns (by ordinal position), indexes and foreign keys (by
/// name) in order, and it keeps every table and view: the sorted tables
/// are the given ones, rearranged.
pub proof fn law_sort_orders_everything(db: DatabaseSpec)
    ensures
        crate::order::is_sorted_by(sorted_database(db).tables, view_keyed::<Table>()),
        crate::order::is_sorted_by(sorted_database(db).views, view_keyed::<SchemaView>()),
        forall|i: int|
            0 <= i < sorted_database(db).tables.len() ==> {
                let t = #[trigger] sorted_database(db).tables[i];
                &&& crate::order::is_sorted_by(t.columns, view_keyed::<Column>())
                &&& crate::order::is_sorted_by(t.indexes, view_keyed::<Index>())
                &&& crate::order::is_sorted_by(t.foreign_keys, view_keyed::<ForeignKey>())
            },
        forall|i: int|
            0 <= i < sorted_database(db).views.len() ==> crate::order::is_sorted_by(
                (#[trigger] sorted_database(db).views[i]).columns,
                view_keyed::<Column>(),
            ),
        sorted_by(db.tables, view_keyed::<Table>()).to_multiset() == db.tables.to_multiset(),
        sorted_by(db.views, view_keyed::<SchemaView>()).to_multiset() == db.views.to_multiset(),
        sorted_database(db).tables == sorted_by(db.tables, view_keyed::<Table>()).map_values(
            |t: TableSpec| sorted_table(t),
        ),
        sorted_database(db).views == sorted_by(db.views, view_keyed::<SchemaView>()).map_values(
            |v: SchemaViewSpec| sorted_view(v),
        ),
{
    let tk = view_keyed::<Table>();
    let vk = view_keyed::<SchemaView>();
    crate::order::lemma_sorted_by(db.tables, tk);
    crate::order::lemma_sorted_by(db.views, vk);
    let st = sorted_by(db.tables, tk);
    let sv = sorted_by(db.views, vk);
    let t2 = sorted_database(db).tables;
    let v2 = sorted_database(db).views;
    assert forall|i: int, j: int| 0 <= i < j < t2.len() implies crate::order::key_le(
        tk(#[trigger] t2[i]),
        tk(#[trigger] t2[j]),
    ) by {
        lemma_sorted_table_keeps_key(st[i]);
        lemma_sorted_table_keeps_key(st[j]);
        assert(crate::order::key_le(tk(st[i]), tk(st[j])));
    }
    assert forall|i: int, j: int| 0 <= i < j < v2.len() implies crate::order::key_le(
        vk(#[trigger] v2[i]),
        vk(#[trigger] v2[j]),
    ) by {
        lemma_sorted_view_keeps_key(sv[i]);
        lemma_sorted_view_keeps_key(sv[j]);
        assert(crate::order::key_le(vk(sv[i]), vk(sv[j])));
    }
    assert forall|i: int| 0 <= i < t2.len() implies {
        let t = #[trigger] t2[i];
        &&& crate::order::is_sorted_by(t.columns, view_keyed::<Column>())
        &&& crate::order::is_sorted_by(t.indexes, view_keyed::<Index>())
        &&& crate::order::is_sorted_by(t.foreign_keys, view_keyed::<ForeignKey>())
    } by {
        lemma_sorted_table_keeps_key(st[i]);
    }
    assert forall|i: int| 0 <= i < v2.len() implies crate::order::is_sorted_by(
        (#[trigger] v2[i]).columns,
        view_keyed::<Column>(),
    ) by {
        lemma_sorted_view_keeps_key(sv[i]);
    }
}

/// Sorting an already sorted model changes nothing.
pub proof fn law_sort_is_idempotent(db: DatabaseSpec)
    ensures
        sorted_database(sorted_database(db)) == sorted_database(db),
{
    law_sort_orders_everything(db);
    let s1 = sorted_database(db);
    crate::order::lemma_sorted_by_sorted(s1.tables, view_keyed::<Table>());
    crate::order::lemma_sorted_by_sorted(s1.views, view_keyed::<SchemaView>());
    let st = sorted_by(db.tables, view_keyed::<Table>());
    let sv = sorted_by(db.views, view_keyed::<SchemaView>());
    assert forall|i: int| 0 <= i < s1.tables.len() implies sorted_table(#[trigger] s1.tables[i])
        == s1.tables[i] by {
        lemma_sorted_table_keeps_key(st[i]);
    }
    assert forall|i: int| 0 <= i < s1.views.len() implies sorted_view(#[trigger] s1.views[i])
        == s1.views[i] by {
        lemma_sorted_view_keeps_key(sv[i]);
    }
    assert(s1.tables.map_values(|t: TableSpec| sorted_table(t)) =~= s1.tables);
    assert(s1.views.map_values(|v: SchemaViewSpec| sorted_view(v)) =~= s1.views);
    assert(sorted_database(s1) =~= s1);
}

/// Sorting a table rearranges its columns, indexes and foreign keys and
/// nothing else: each list holds the same items as before (every index's
/// and foreign key's own column list untouched), items that sort alike
/// keep the order they came in, and every other field stays as it was.
pub proof fn law_table_sort_is_a_stable_rearrangement(t: TableSpec)
    ensures
        sorted_table(t).columns.to_multiset() == t.columns.to_multiset(),
        sorted_table(t).indexes.to_multiset() == t.indexes.to_multiset(),
        sorted_table(t).foreign_keys.to_multiset() == t.foreign_keys.to_multiset(),
        forall|k: Seq<KeyPart>|
            #[trigger] keyed_as(sorted_table(t).columns, view_keyed::<Column>(), k) == keyed_as(
                t.columns,
                view_keyed::<Column>(),
                k,
            ),
        forall|k: Seq<KeyPart>|
            #[trigger] keyed_as(sorted_table(t).indexes, view_keyed::<Index>(), k) == keyed_as(
                t.indexes,
                view_keyed::<Index>(),
                k,
            ),
        forall|k: Seq<KeyPart>|
            #[trigger] keyed_as(sorted_table(t).foreign_keys, view_keyed::<ForeignKey>(), k)
                == keyed_as(t.foreign_keys, view_keyed::<ForeignKey>(), k),
        sorted_table(t).schema == t.schema && sorted_table(t).name == t.name,
        sorted_table(t).engine == t.engine && sorted_table(t).charset == t.charset,
        sorted_table(t).collation == t.collation && sorted_table(t).comment == t.comment,
        sorted_table(t).analysis == t.analysis && sorted_table(t).ai == t.ai,
{
    crate::order::lemma_sorted_by(t.columns, view_keyed::<Column>());
    crate::order::lemma_sorted_by(t.indexes, view_keyed::<Index>());
    crate::order::lemma_sorted_by(t.foreign_keys, view_keyed::<ForeignKey>());
    assert forall|k: Seq<KeyPart>|
        #[trigger] keyed_as(sorted_table(t).columns, view_keyed::<Column>(), k) == keyed_as(
            t.columns,
            view_keyed::<Column>(),
            k,
        ) by {
        crate::order::lemma_sorted_by_is_stable(t.columns, view_keyed::<Column>(), k);
    }
    assert forall|k: Seq<KeyPart>|
        #[trigger] keyed_as(sorted_table(t).indexes, view_keyed::<Index>(), k) == keyed_as(
            t.indexes,
            view_keyed::<Index>(),
            k,
        ) by {
        crate::order::lemma_sorted_by_is_stable(t.indexes, view_keyed::<Index>(), k);
    }
    assert forall|k: Seq<KeyPart>|
        #[trigger] keyed_as(sorted_table(t).foreign_keys, view_keyed::<ForeignKey>(), k)
            == keyed_as(t.foreign_keys, view_keyed::<ForeignKey>(), k) by {
        crate::order::lemma_sorted_by_is_stable(t.foreign_keys, view_keyed::<ForeignKey>(), k);
    }
}

/// Sorting a model changes neither its header nor its metadata, and tables
/// (and views) that sort alike keep the order they came in.
pub proof fn law_sort_keeps_header_and_arrival_order_of_ties(db: DatabaseSpec)
    ensures
        sorted_database(db).header == db.header,
        sorted_database(db).metadata == db.metadata,
        forall|k: Seq<KeyPart>|
            #[trigger] keyed_as(sorted_by(db.tables, view_keyed::<Table>()), view_keyed::<Table>(), k)
                == keyed_as(db.tables, view_keyed::<Table>(), k),
        forall|k: Seq<KeyPart>|
            #[trigger] keyed_as(
                sorted_by(db.views, view_keyed::<SchemaView>()),
                view_keyed::<SchemaView>(),
                k,
            ) == keyed_as(db.views, view_keyed::<SchemaView>(), k),
{
    assert forall|k: Seq<KeyPart>|
        #[trigger] keyed_as(sorted_by(db.tables, view_keyed::<Table>()), view_keyed::<Table>(), k)
            == keyed_as(db.tables, view_keyed::<Table>(), k) by {
        crate::order::lemma_sorted_by_is_stable(db.tables, view_keyed::<Table>(), k);
    }
    assert forall|k: Seq<KeyPart>|
        #[trigger] keyed_as(
            sorted_by(db.views, view_keyed::<SchemaView>()),
            view_keyed::<SchemaView>(),
            k,
        ) == keyed_as(db.views, view_keyed::<SchemaView>(), k) by {
        crate::order::lemma_sorted_by_is_stable(db.views, view_keyed::<SchemaView>(), k);
    }
}

/// Sorting a table does not depend on the order its columns, indexes and
/// foreign keys arrived in: the same items in any order sort the same,
/// when no two columns share a position and no two indexes, nor two
/// foreign keys, share a name.
pub proof fn law_table_sort_ignores_arrival_order(t: TableSpec, u: TableSpec)
    requires
        u.columns.to_multiset() == t.columns.to_multiset(),
        u.indexes.to_multiset() == t.indexes.to_multiset(),
        u.foreign_keys.to_multiset() == t.foreign_keys.to_multiset(),
        crate::order::keys_distinct(t.columns, view_keyed::<Column>()),
        crate::order::keys_distinct(t.indexes, view_keyed::<Index>()),
        crate::order::keys_distinct(t.foreign_keys, view_keyed::<ForeignKey>()),
        u.schema == t.schema && u.name == t.name && u.engine == t.engine,
        u.charset == t.charset && u.collation == t.collation && u.comment == t.comment,
        u.analysis == t.analysis && u.ai == t.ai,
    ensures
        sorted_table(u) == sorted_table(t),
{
    crate::order::lemma_sorted_by_ignores_arrival_order(t.columns, u.columns, view_keyed::<Column>());
    crate::order::lemma_sorted_by_ignores_arrival_order(t.indexes, u.indexes, view_keyed::<Index>());
    crate::order::lemma_sorted_by_ignores_arrival_order(
        t.foreign_keys,
        u.foreign_keys,
        view_keyed::<ForeignKey>(),
    );
}

/// Sorting a model does not depend on the order introspection returned its
/// tables and views in: the same tables and views in any order sort to the
/// same model, when no two tables, and no two views, share a namespace and
/// name.
pub proof fn law_sort_ignores_arrival_order(db: DatabaseSpec, other: DatabaseSpec)
    requires
        other.tables.to_multiset() == db.tables.to_multiset(),
        other.views.to_multiset() == db.views.to_multiset(),
        crate::order::keys_distinct(db.tables, view_keyed::<Table>()),
        crate::order::keys_distinct(db.views, view_keyed::<SchemaView>()),
        other.header == db.header,
        other.metadata == db.metadata,
    ensures
        sorted_database(other) == sorted_database(db),
{
    crate::order::lemma_sorted_by_ignores_arrival_order(db.tables, other.tables, view_keyed::<Table>());
    crate::order::lemma_sorted_by_ignores_arrival_order(
        db.views,
        other.views,
        view_keyed::<SchemaView>(),
    );
}

/// Relationships come in source, target, constraint order, hold exactly
/// the relationships of the foreign keys, and number one per foreign key.
pub proof fn law_relationships_follow_foreign_keys(db: DatabaseSpec)
    ensures
        crate::order::is_sorted_by(relationships_of(db), view_keyed::<Relationship>()),
        relationships_of(db).to_multiset() == collect_relationships(db.tables).to_multiset(),
        relationships_of(db).len() == foreign_key_count(db.tables),
{
    crate::order::lemma_sorted_by(collect_relationships(db.tables), view_keyed::<Relationship>());
    lemma_relationship_count(db);
}

/// The number of foreign keys over `tables`.
pub open spec fn foreign_key_count(tables: Seq<TableSpec>) -> nat
    decreases tables.len(),
{
    if tables.len() == 0 {
        0
    } else {
        foreign_key_count(tables.drop_last()) + tables.last().foreign_keys.len()
    }
}

/// There is one relationship per foreign key.
pub proof fn lemma_relationship_count(db: DatabaseSpec)
    ensures
        relationships_of(db).len() == foreign_key_count(db.tables),
{
    lemma_collect_relationships_len(db.tables);
    crate::order::lemma_sorted_by_len(collect_relationships(db.tables), view_keyed::<Relationship>());
}

proof fn lemma_collect_relationships_len(tables: Seq<TableSpec>)
    ensures
        collect_relationships(tables).len() == foreign_key_count(tables),
    decreases tables.len(),
{
    if tables.len() > 0 {
        lemma_collect_relationships_len(tables.drop_last());
    }
}

impl Database {
    /// Document type this model serializes as.
    pub const FORMAT: &'static str = "dbctx.schema";

    /// Sort every collection into the deterministic order documents
    /// require, so output is stable regardless of the order introspection
    /// collected facts in.
    ///
    /// Column order follows the catalog ordinal position. Index and foreign
    /// key column lists keep their declared order.
    pub fn sort(&mut self)
        ensures
            final(self)@ == sorted_database(old(self)@),
    {
        stable_sort(&mut self.tables);
        stable_sort(&mut self.views);

        let mut rest: Vec<Table> = Vec::new();
        std::mem::swap(&mut rest, &mut self.tables);
        let ghost input = rest.deep_view();
        let mut out: Vec<Table> = Vec::new();
        let mut k: usize = 0;
        assert(input.len() == rest.len());
        while rest.len() > 0
            invariant
                input.len() <= usize::MAX,
                k + rest.len() == input.len(),
                rest.deep_view() == input.skip(k as int),
                out.deep_view() == input.take(k as int).map_values(|t: TableSpec| sorted_table(t)),
            decreases rest.len(),
        {
            let ghost before_rest = rest;
            let mut t = rest.remove(0);
            assert(before_rest.deep_view()[0] == input.skip(k as int)[0]);
            assert(t.deep_view() == input[k as int]);
            assert(rest.deep_view() =~= before_rest.deep_view().drop_first());
            t.sort_parts();
            let ghost before = out;
            let ghost gt = t;
            out.push(t);
            proof {
                lemma_push_deep_view(before, out, gt);
            }
            k = k + 1;
            assert(out.deep_view() =~= input.take(k as int).map_values(
                |t: TableSpec| sorted_table(t),
            ));
            assert(rest.deep_view() =~= input.skip(k as int));
        }
        assert(input.take(k as int) =~= input);
        self.tables = out;

        let mut rest: Vec<SchemaView> = Vec::new();
        std::mem::swap(&mut rest, &mut self.views);
        let ghost input = rest.deep_view();
        let mut out: Vec<SchemaView> = Vec::new();
        let mut k: usize = 0;
        assert(input.len() == rest.len());
        while rest.len() > 0
            invariant
                input.len() <= usize::MAX,
                k + rest.len() == input.len(),
                rest.deep_view() == input.skip(k as int),
                out.deep_view() == input.take(k as int).map_values(
                    |v: SchemaViewSpec| sorted_view(v),
                ),
            decreases rest.len(),
        {
            let ghost before_rest = rest;
            let mut v = rest.remove(0);
            assert(before_rest.deep_view()[0] == input.skip(k as int)[0]);
            assert(v.deep_view() == input[k as int]);
            assert(rest.deep_view() =~= before_rest.deep_view().drop_first());
            v.sort_parts();
            let ghost before = out;
            let ghost gv = v;
            out.push(v);
            proof {
                lemma_push_deep_view(before, out, gv);
            }
            k = k + 1;
            assert(out.deep_view() =~= input.take(k as int).map_values(
                |v: SchemaViewSpec| sorted_view(v),
            ));
            assert(rest.deep_view() =~= input.skip(k as int));
        }
        assert(input.take(k as int) =~= input);
        self.views = out;
    }

    /// Every foreign key as a [`Relationship`], sorted by source namespace,
    /// source table, target namespace, target table, then constraint name.
    pub fn relationships(&self) -> (r: Vec<Relationship>)
        ensures
            r.deep_view() == relationships_of(self@),
    {
        let mut out: Vec<Relationship> = Vec::new();
        let ghost tables = self.tables.deep_view();
        let mut i: usize = 0;
        while i < self.tables.len()
            invariant
                tables == self.tables.deep_view(),
                i <= self.tables.len(),
                out.deep_view() == collect_relationships(tables.take(i as int)),
            decreases self.tables.len() - i,
        {
            let table = &self.tables[i];
            let ghost ts = table@;
            assert(ts == tables[i as int]);
            let ghost base = out.deep_view();
            let mut j: usize = 0;
            while j < table.foreign_keys.len()
                invariant
                    ts == table@,
                    j <= table.foreign_keys.len(),
                    out.deep_view() == base + table_relationships(ts).take(j as int),
                decreases table.foreign_keys.len() - j,
            {
                let fk = &table.foreign_keys[j];
                assert(fk@ == ts.foreign_keys[j as int]);
                let rel = Relationship {
                    from_schema: table.schema.clone(),
                    from_table: table.name.clone(),
                    from_columns: crate::model::clone_strings(&fk.columns),
                    to_schema: fk.referenced_schema.clone(),
                    to_table: fk.referenced_table.clone(),
                    to_columns: crate::model::clone_strings(&fk.referenced_columns),
                    constraint: fk.name.clone(),
                };
                assert(rel@ == relationship_of(ts, ts.foreign_keys[j as int]));
                let ghost before = out;
                let ghost gr = rel;
                out.push(rel);
                proof {
                    lemma_push_deep_view(before, out, gr);
                }
                j = j + 1;
                assert(out.deep_view() =~= base + table_relationships(ts).take(j as int));
            }
            proof {
                assert(table_relationships(ts).take(j as int) =~= table_relationships(ts));
                assert(tables.take(i + 1).drop_last() =~= tables.take(i as int));
                assert(tables.take(i + 1).last() == ts);
            }
            i = i + 1;
        }
        assert(tables.take(i as int) =~= tables);
        stable_sort(&mut out);
        out
    }
}

/// `f` applied to every element of `s`, the results concatenated in order.
pub open spec fn concat_map<A, B>(s: Seq<A>, f: spec_fn(A) -> Seq<B>) -> Seq<B>
    decreases s.len(),
{
    if s.len() == 0 {
        Seq::empty()
    } else {
        concat_map(s.drop_last(), f) + f(s.last())
    }
}

/// One more element extends a concatenation by its image.
pub proof fn lemma_concat_map_step<A, B>(s: Seq<A>, i: int, f: spec_fn(A) -> Seq<B>)
    requires
        0 <= i < s.len(),
    ensures
        concat_map(s.take(i + 1), f) == concat_map(s.take(i), f) + f(s[i]),
{
    assert(s.take(i + 1).drop_last() =~= s.take(i));
    assert(s.take(i + 1).last() == s[i]);
}

/// An item lies in a concatenation exactly when it lies in the image of
/// some element.
pub proof fn lemma_concat_map_contains<A, B>(s: Seq<A>, f: spec_fn(A) -> Seq<B>, y: B)
    ensures
        concat_map(s, f).contains(y) <==> exists|i: int| 0 <= i < s.len() && #[trigger] f(s[i]).contains(y),
    decreases s.len(),
{
    if s.len() > 0 {
        let t = s.drop_last();
        lemma_concat_map_contains(t, f, y);
        let p = concat_map(t, f);
        let q = f(s.last());
        let w = p + q;
        if w.contains(y) {
            let k = choose|k: int| 0 <= k < w.len() && w[k] == y;
            if k < p.len() {
                assert(p[k] == y);
                assert(p.contains(y));
                let i = choose|i: int| 0 <= i < t.len() && #[trigger] f(t[i]).contains(y);
                assert(s[i] == t[i]);
            } else {
                assert(q[k - p.len()] == y);
                assert(q.contains(y));
                assert(s[s.len() - 1] == s.last());
            }
        }
        if exists|i: int| 0 <= i < s.len() && #[trigger] f(s[i]).contains(y) {
            let i = choose|i: int| 0 <= i < s.len() && #[trigger] f(s[i]).contains(y);
            if i < t.len() {
                assert(t[i] == s[i]);
                assert(p.contains(y));
                let k = choose|k: int| 0 <= k < p.len() && p[k] == y;
                assert(w[k] == y);
            } else {
                assert(s[i] == s.last());
                let k = choose|k: int| 0 <= k < q.len() && q[k] == y;
                assert(w[p.len() + k] == y);
            }
        }
    }
}

/// A concatenation is empty exactly when every element's image is.
pub proof fn lemma_concat_map_empty<A, B>(s: Seq<A>, f: spec_fn(A) -> Seq<B>)
    ensures
        concat_map(s, f).len() == 0 <==> forall|i: int| 0 <= i < s.len() ==> #[trigger] f(s[i]).len() == 0,
    decreases s.len(),
{
    if s.len() > 0 {
        let t = s.drop_last();
        lemma_concat_map_empty(t, f);
        assert(s[s.len() - 1] == s.last());
        let p = concat_map(t, f);
        let q = f(s.last());
        assert(concat_map(s, f).len() == p.len() + q.len());
        if forall|i: int| 0 <= i < s.len() ==> #[trigger] f(s[i]).len() == 0 {
            assert forall|i: int| 0 <= i < t.len() implies #[trigger] f(t[i]).len() == 0 by {
                assert(t[i] == s[i]);
            }
            assert(f(s[s.len() - 1]).len() == 0);
        }
        if concat_map(s, f).len() == 0 {
            assert forall|i: int| 0 <= i < s.len() implies #[trigger] f(s[i]).len() == 0 by {
                if i < t.len() {
                    assert(t[i] == s[i]);
                    assert(f(t[i]).len() == 0);
                }
            }
        }
    }
}

/// The concatenation over two lists joined is the two concatenations
/// joined.
pub proof fn lemma_concat_map_add<A, B>(a: Seq<A>, b: Seq<A>, f: spec_fn(A) -> Seq<B>)
    ensures
        concat_map(a + b, f) == concat_map(a, f) + concat_map(b, f),
    decreases b.len(),
{
    if b.len() == 0 {
        assert(a + b =~= a);
        assert(concat_map(a, f) + concat_map(b, f) =~= concat_map(a, f));
    } else {
        lemma_concat_map_add(a, b.drop_last(), f);
        assert((a + b).drop_last() =~= a + b.drop_last());
        assert((a + b).last() == b.last());
        assert(concat_map(a, f) + (concat_map(b.drop_last(), f) + f(b.last())) =~= concat_map(a, f)
            + concat_map(b.drop_last(), f) + f(b.last()));
    }
}

/// Rearranging a list rearranges the concatenation of its images: the
/// same items, as often, come out.
pub proof fn lemma_concat_map_rearranged<A, B>(s: Seq<A>, t: Seq<A>, f: spec_fn(A) -> Seq<B>)
    requires
        s.to_multiset() == t.to_multiset(),
    ensures
        concat_map(s, f).to_multiset() == concat_map(t, f).to_multiset(),
    decreases s.len(),
{
    broadcast use vstd::seq_lib::group_to_multiset_ensures;

    vstd::seq_lib::to_multiset_len(s);
    vstd::seq_lib::to_multiset_len(t);
    if s.len() == 0 {
        assert(t =~= s);
    } else {
        let x = s.last();
        let s1 = s.drop_last();
        assert(s.contains(x)) by {
            assert(s[s.len() - 1] == x);
        }
        assert(s.to_multiset().count(x) > 0);
        assert(t.to_multiset().count(x) > 0);
        assert(t.contains(x));
        let j = choose|j: int| 0 <= j < t.len() && t[j] == x;
        let t1 = t.remove(j);
        assert(s1.push(x) =~= s);
        assert(s1.to_multiset() =~= s.to_multiset().remove(x));
        assert(t1.to_multiset() =~= t.to_multiset().remove(x));
        lemma_concat_map_rearranged(s1, t1, f);
        let a = t.take(j);
        let b = t.skip(j + 1);
        assert(t =~= a + seq![x] + b);
        assert(t1 =~= a + b);
        lemma_concat_map_add(a + seq![x], b, f);
        lemma_concat_map_add(a, seq![x], f);
        lemma_concat_map_add(a, b, f);
        assert(seq![x].drop_last() =~= Seq::<A>::empty());
        assert(seq![x].last() == x);
        assert(concat_map(Seq::<A>::empty(), f) =~= Seq::<B>::empty());
        assert(concat_map(seq![x], f) == concat_map(Seq::<A>::empty(), f) + f(x));
        assert(concat_map(seq![x], f) =~= f(x));
        vstd::seq_lib::lemma_multiset_commutative(concat_map(s1, f), f(x));
        vstd::seq_lib::lemma_multiset_commutative(concat_map(a, f) + f(x), concat_map(b, f));
        vstd::seq_lib::lemma_multiset_commutative(concat_map(a, f), f(x));
        vstd::seq_lib::lemma_multiset_commutative(concat_map(a, f), concat_map(b, f));
        assert(concat_map(t, f).to_multiset() =~= concat_map(t1, f).to_multiset().add(
            f(x).to_multiset(),
        ));
    }
}

impl Keyed for String {
    open spec fn view_key(v: Seq<char>) -> Seq<KeyPart> {
        crate::order::text_key(seq![v])
    }

    fn key_le(&self, other: &Self) -> (r: bool) {
        let a = vec![other.as_str()];
        let b = vec![self.as_str()];
        assert(a.deep_view() =~= seq![other@]);
        assert(b.deep_view() =~= seq![self@]);
        !crate::order::text_key_lt(&a, &b)
    }
}

proof fn lemma_num_key_le(a: int, b: int)
    ensures
        crate::order::key_le(seq![crate::order::KeyPart::Num(a)], seq![crate::order::KeyPart::Num(b)])
            <==> a <= b,
{
    let po = crate::order::part_order();
    let x = seq![crate::order::KeyPart::Num(b)];
    let y = seq![crate::order::KeyPart::Num(a)];
    let e = Seq::<crate::order::KeyPart>::empty();
    assert(x.drop_first() =~= e);
    assert(y.drop_first() =~= e);
    assert(!crate::order::lex_lt(e, e, po));
    assert(po(x[0], y[0]) == (b < a));
    assert(crate::order::key_lt(x, y) == (b < a));
}

proof fn lemma_text_key_le(a: Seq<char>, b: Seq<char>)
    ensures
        crate::order::key_le(crate::order::text_key(seq![a]), crate::order::text_key(seq![b]))
            <==> !crate::order::text_lt(b, a),
{
    let po = crate::order::part_order();
    let x = crate::order::text_key(seq![b]);
    let y = crate::order::text_key(seq![a]);
    let e = Seq::<crate::order::KeyPart>::empty();
    assert(x[0] == crate::order::KeyPart::Text(b));
    assert(y[0] == crate::order::KeyPart::Text(a));
    assert(x.len() == 1 && y.len() == 1);
    assert(x.drop_first() =~= e);
    assert(y.drop_first() =~= e);
    assert(!crate::order::lex_lt(e, e, po));
    assert(po(x[0], y[0]) == crate::order::text_lt(b, a));
    assert(crate::order::key_lt(x, y) == crate::order::text_lt(b, a));
}

proof fn lemma_pair_key_le(s1: Seq<char>, n1: Seq<char>, s2: Seq<char>, n2: Seq<char>)
    ensures
        crate::order::key_le(qualified_key(s1, n1), qualified_key(s2, n2)) ==> !crate::order::text_lt(s2, s1)
            && (s1 == s2 ==> !crate::order::text_lt(n2, n1)),
{
    let po = crate::order::part_order();
    let x = qualified_key(s2, n2);
    let y = qualified_key(s1, n1);
    assert(x.len() == 2 && y.len() == 2);
    assert(x[0] == crate::order::KeyPart::Text(s2) && x[1] == crate::order::KeyPart::Text(n2));
    assert(y[0] == crate::order::KeyPart::Text(s1) && y[1] == crate::order::KeyPart::Text(n1));
    let x1 = x.drop_first();
    let y1 = y.drop_first();
    assert(x1 =~= crate::order::text_key(seq![n2]));
    assert(y1 =~= crate::order::text_key(seq![n1]));
    lemma_text_key_le(n1, n2);
    assert(po(x[0], y[0]) == crate::order::text_lt(s2, s1));
    if crate::order::key_le(y, x) {
        assert(!crate::order::key_lt(x, y));
        assert(!crate::order::text_lt(s2, s1));
        if s1 == s2 {
            assert(x[0] == y[0]);
            assert(!crate::order::lex_lt(x1, y1, po));
            assert(!crate::order::key_lt(x1, y1));
        }
    }
}

/// After sorting, in plain terms: tables and views come in order of their
/// namespace, then (within one namespace) their name; each table's and
/// view's columns come in order of their ordinal position; and each
/// table's indexes and foreign keys come in order of their name.
pub proof fn law_sort_order_in_plain_terms(db: DatabaseSpec, i: int, j: int)
    requires
        0 <= i < j,
    ensures
        j < sorted_database(db).tables.len() ==> ({
            let a = sorted_database(db).tables[i];
            let b = sorted_database(db).tables[j];
            !crate::order::text_lt(b.schema, a.schema) && (a.schema == b.schema ==> !crate::order::text_lt(
                b.name,
                a.name,
            ))
        }),
        j < sorted_database(db).views.len() ==> ({
            let a = sorted_database(db).views[i];
            let b = sorted_database(db).views[j];
            !crate::order::text_lt(b.schema, a.schema) && (a.schema == b.schema ==> !crate::order::text_lt(
                b.name,
                a.name,
            ))
        }),
        forall|k: int|
            0 <= k < sorted_database(db).tables.len() ==> ({
                let t = #[trigger] sorted_database(db).tables[k];
                &&& (j < t.columns.len() ==> t.columns[i].ordinal_position <= t.columns[j].ordinal_position)
                &&& (j < t.indexes.len() ==> !crate::order::text_lt(t.indexes[j].name, t.indexes[i].name))
                &&& (j < t.foreign_keys.len() ==> !crate::order::text_lt(
                    t.foreign_keys[j].name,
                    t.foreign_keys[i].name,
                ))
            }),
        forall|k: int|
            0 <= k < sorted_database(db).views.len() ==> ({
                let v = #[trigger] sorted_database(db).views[k];
                j < v.columns.len() ==> v.columns[i].ordinal_position <= v.columns[j].ordinal_position
            }),
{
    law_sort_orders_everything(db);
    let d = sorted_database(db);
    if j < d.tables.len() {
        lemma_pair_key_le(d.tables[i].schema, d.tables[i].name, d.tables[j].schema, d.tables[j].name);
    }
    if j < d.views.len() {
        lemma_pair_key_le(d.views[i].schema, d.views[i].name, d.views[j].schema, d.views[j].name);
    }
    assert forall|k: int| 0 <= k < d.tables.len() implies ({
        let t = #[trigger] d.tables[k];
        &&& (j < t.columns.len() ==> t.columns[i].ordinal_position <= t.columns[j].ordinal_position)
        &&& (j < t.indexes.len() ==> !crate::order::text_lt(t.indexes[j].name, t.indexes[i].name))
        &&& (j < t.foreign_keys.len() ==> !crate::order::text_lt(t.foreign_keys[j].name, t.foreign_keys[i].name))
    }) by {
        let t = d.tables[k];
        if j < t.columns.len() {
            lemma_num_key_le(t.columns[i].ordinal_position as int, t.columns[j].ordinal_position as int);
        }
        if j < t.indexes.len() {
            lemma_text_key_le(t.indexes[i].name, t.indexes[j].name);
        }
        if j < t.foreign_keys.len() {
            lemma_text_key_le(t.foreign_keys[i].name, t.foreign_keys[j].name);
        }
    }
    assert forall|k: int| 0 <= k < d.views.len() implies ({
        let v = #[trigger] d.views[k];
        j < v.columns.len() ==> v.columns[i].ordinal_position <= v.columns[j].ordinal_position
    }) by {
        let v = d.views[k];
        if j < v.columns.len() {
            lemma_num_key_le(v.columns[i].ordinal_position as int, v.columns[j].ordinal_position as int);
        }
    }
}

} // verus!
