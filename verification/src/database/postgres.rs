//! PostgreSQL: what the `pg_catalog` rows of one database become in the
//! canonical model.
use vstd::prelude::*;

use crate::database::{
    foreign_keys_for_table, indexes_for_table, is_primary_key, is_unique_column, keep,
    primary_key_column, table_foreign_keys, table_indexes, unique_column, QualifiedName,
    QualifiedNameSpec, RawForeignKey, RawForeignKeySpec, RawIndex, RawIndexSpec,
};
use crate::model::{
    header_of, sorted_database, Column, ColumnSpec, Database, DatabaseMetadata,
    DatabaseMetadataSpec, DatabaseSpec, DocumentHeader, Engine, SchemaView, SchemaViewSpec, Table,
    TableSpec,
};
use crate::text::{owned, starts_with, str_eq, str_starts_with};

verus! {

/// One column of a table or view, as `pg_attribute` describes it.
#[derive(Debug)]
pub struct RawColumn {
    /// Namespace of the table or view.
    pub schema: String,
    /// Table or view the column belongs to.
    pub table: String,
    /// Column name.
    pub name: String,
    /// One-based position within the table.
    pub ordinal_position: u32,
    /// Type without modifiers.
    pub data_type: String,
    /// Type with modifiers, such as `character varying(255)`.
    pub full_type: String,
    /// Whether the column accepts NULL.
    pub nullable: bool,
    /// Default expression, for a column that is not generated.
    pub default: Option<String>,
    /// Whether the column is an identity column.
    pub is_identity: bool,
    /// Whether the column is generated.
    pub is_generated: bool,
    /// Expression of a generated column.
    pub generation_expression: Option<String>,
    /// Column comment.
    pub comment: Option<String>,
}

pub struct RawColumnSpec {
    pub schema: Seq<char>,
    pub table: Seq<char>,
    pub name: Seq<char>,
    pub ordinal_position: u32,
    pub data_type: Seq<char>,
    pub full_type: Seq<char>,
    pub nullable: bool,
    pub default: Option<Seq<char>>,
    pub is_identity: bool,
    pub is_generated: bool,
    pub generation_expression: Option<Seq<char>>,
    pub comment: Option<Seq<char>>,
}

impl View for RawColumn {
    type V = RawColumnSpec;

    open spec fn view(&self) -> RawColumnSpec {
        RawColumnSpec {
            schema: self.schema@,
            table: self.table@,
            name: self.name@,
            ordinal_position: self.ordinal_position,
            data_type: self.data_type@,
            full_type: self.full_type@,
            nullable: self.nullable,
            default: self.default.deep_view(),
            is_identity: self.is_identity,
            is_generated: self.is_generated,
            generation_expression: self.generation_expression.deep_view(),
            comment: self.comment.deep_view(),
        }
    }
}

impl DeepView for RawColumn {
    type V = RawColumnSpec;

    open spec fn deep_view(&self) -> RawColumnSpec {
        self@
    }
}

/// Whether a default draws from a sequence: what a `serial` column has.
pub open spec fn is_sequence_default(d: Option<Seq<char>>) -> bool {
    d matches Some(e) && starts_with(e, "nextval("@)
}

/// The model column for `raw`: an identity column, or one whose default
/// draws from a sequence, is auto-increment; primary and unique come from
/// the indexes, and a primary key column counts as unique.
pub open spec fn postgres_column(raw: RawColumnSpec, indexes: Seq<RawIndexSpec>) -> ColumnSpec {
    let primary = primary_key_column(indexes, raw.schema, raw.table, raw.name);
    let unique = unique_column(indexes, raw.schema, raw.table, raw.name);
    ColumnSpec {
        name: raw.name,
        ordinal_position: raw.ordinal_position,
        data_type: raw.data_type,
        full_type: raw.full_type,
        nullable: raw.nullable,
        default: raw.default,
        auto_increment: raw.is_identity || is_sequence_default(raw.default),
        primary_key: primary,
        unique: unique || primary,
        comment: raw.comment,
        generated: raw.is_generated,
        expression: raw.generation_expression,
    }
}

/// The model column for `raw`.
pub fn to_column(raw: &RawColumn, indexes: &Vec<RawIndex>) -> (r: Column)
    ensures
        r@ == postgres_column(raw@, indexes.deep_view()),
{
    let sequence = match &raw.default {
        Some(d) => str_starts_with(d.as_str(), "nextval("),
        None => false,
    };
    let schema = raw.schema.as_str();
    let table = raw.table.as_str();
    let name = raw.name.as_str();
    let primary = is_primary_key(schema, table, name, indexes);
    let unique = is_unique_column(schema, table, name, indexes);
    Column {
        name: raw.name.clone(),
        ordinal_position: raw.ordinal_position,
        data_type: raw.data_type.clone(),
        full_type: raw.full_type.clone(),
        nullable: raw.nullable,
        default: crate::model::clone_opt(&raw.default),
        auto_increment: raw.is_identity || sequence,
        primary_key: primary,
        unique: unique || primary,
        comment: crate::model::clone_opt(&raw.comment),
        generated: raw.is_generated,
        expression: crate::model::clone_opt(&raw.generation_expression),
    }
}

/// What `pg_class` says of one table.
#[derive(Debug)]
pub struct TableInfo {
    pub schema: String,
    pub table: String,
    /// Table comment.
    pub comment: Option<String>,
}

pub struct TableInfoSpec {
    pub schema: Seq<char>,
    pub table: Seq<char>,
    pub comment: Option<Seq<char>>,
}

impl View for TableInfo {
    type V = TableInfoSpec;

    open spec fn view(&self) -> TableInfoSpec {
        TableInfoSpec { schema: self.schema@, table: self.table@, comment: self.comment.deep_view() }
    }
}

impl DeepView for TableInfo {
    type V = TableInfoSpec;

    open spec fn deep_view(&self) -> TableInfoSpec {
        self@
    }
}

/// Everything the catalog of one PostgreSQL database says, as read.
#[derive(Debug)]
pub struct Catalog {
    /// What `current_database()` returned.
    pub database: String,
    /// What `version()` returned.
    pub version: String,
    /// The database encoding.
    pub default_charset: Option<String>,
    /// The database collation.
    pub default_collation: Option<String>,
    /// Base tables.
    pub tables: Vec<QualifiedName>,
    /// Views.
    pub views: Vec<QualifiedName>,
    /// Table details.
    pub table_infos: Vec<TableInfo>,
    /// Columns of tables and views.
    pub columns: Vec<RawColumn>,
    /// Index rows.
    pub indexes: Vec<RawIndex>,
    /// Foreign key rows.
    pub foreign_keys: Vec<RawForeignKey>,
}

pub struct CatalogSpec {
    pub database: Seq<char>,
    pub version: Seq<char>,
    pub default_charset: Option<Seq<char>>,
    pub default_collation: Option<Seq<char>>,
    pub tables: Seq<QualifiedNameSpec>,
    pub views: Seq<QualifiedNameSpec>,
    pub table_infos: Seq<TableInfoSpec>,
    pub columns: Seq<RawColumnSpec>,
    pub indexes: Seq<RawIndexSpec>,
    pub foreign_keys: Seq<RawForeignKeySpec>,
}

impl View for Catalog {
    type V = CatalogSpec;

    open spec fn view(&self) -> CatalogSpec {
        CatalogSpec {
            database: self.database@,
            version: self.version@,
            default_charset: self.default_charset.deep_view(),
            default_collation: self.default_collation.deep_view(),
            tables: self.tables.deep_view(),
            views: self.views.deep_view(),
            table_infos: self.table_infos.deep_view(),
            columns: self.columns.deep_view(),
            indexes: self.indexes.deep_view(),
            foreign_keys: self.foreign_keys.deep_view(),
        }
    }
}

/// The comment of the last details `infos` holds for table
/// `schema`.`table`, if any.
pub open spec fn table_comment(infos: Seq<TableInfoSpec>, schema: Seq<char>, table: Seq<char>) -> Option<
    Seq<char>,
>
    decreases infos.len(),
{
    if infos.len() == 0 {
        None
    } else if infos.last().schema == schema && infos.last().table == table {
        infos.last().comment
    } else {
        table_comment(infos.drop_last(), schema, table)
    }
}

/// Whether a column row belongs to table or view `schema`.`name`.
pub open spec fn column_of(schema: Seq<char>, name: Seq<char>) -> spec_fn(RawColumnSpec) -> bool {
    |r: RawColumnSpec| r.schema == schema && r.table == name
}

/// The columns of table or view `schema`.`name`, in catalog order.
pub open spec fn columns_of(c: CatalogSpec, schema: Seq<char>, name: Seq<char>) -> Seq<ColumnSpec> {
    keep(c.columns, column_of(schema, name)).map_values(
        |r: RawColumnSpec| postgres_column(r, c.indexes),
    )
}

/// Table `t` as the catalog describes it.
pub open spec fn catalog_table(c: CatalogSpec, t: QualifiedNameSpec) -> TableSpec {
    TableSpec {
        schema: t.schema,
        name: t.name,
        engine: None,
        charset: None,
        collation: None,
        comment: table_comment(c.table_infos, t.schema, t.name),
        columns: columns_of(c, t.schema, t.name),
        indexes: table_indexes(c.indexes, t.schema, t.name, false),
        foreign_keys: table_foreign_keys(c.foreign_keys, t.schema, t.name),
        analysis: None,
        ai: None,
    }
}

/// View `v` as the catalog describes it.
pub open spec fn catalog_view(c: CatalogSpec, v: QualifiedNameSpec) -> SchemaViewSpec {
    SchemaViewSpec { schema: v.schema, name: v.name, columns: columns_of(c, v.schema, v.name) }
}

/// The database the catalog describes, before sorting.
pub open spec fn catalog_database(c: CatalogSpec, generated_at: Seq<char>) -> DatabaseSpec {
    DatabaseSpec {
        header: header_of(Database::FORMAT@, generated_at),
        metadata: DatabaseMetadataSpec {
            database: c.database,
            engine: Engine::Postgres,
            engine_version: c.version,
            default_charset: c.default_charset,
            default_collation: c.default_collation,
        },
        tables: c.tables.map_values(|t: QualifiedNameSpec| catalog_table(c, t)),
        views: c.views.map_values(|v: QualifiedNameSpec| catalog_view(c, v)),
    }
}

/// The columns of table or view `schema`.`name`, in catalog order.
fn columns_for(catalog: &Catalog, schema: &str, name: &str) -> (r: Vec<Column>)
    ensures
        r.deep_view() == columns_of(catalog@, schema@, name@),
{
    let ghost c = catalog@;
    let ghost all = c.columns;
    let ghost p = column_of(schema@, name@);
    let ghost f = |r: RawColumnSpec| postgres_column(r, c.indexes);
    let mut out: Vec<Column> = Vec::new();
    let mut i: usize = 0;
    while i < catalog.columns.len()
        invariant
            c == catalog@,
            all == c.columns,
            all.len() == catalog.columns.len(),
            p == column_of(schema@, name@),
            f == (|r: RawColumnSpec| postgres_column(r, c.indexes)),
            i <= catalog.columns.len(),
            out.deep_view() == keep(all.take(i as int), p).map_values(f),
        decreases catalog.columns.len() - i,
    {
        let raw = &catalog.columns[i];
        proof {
            assert(all.take(i + 1).drop_last() =~= all.take(i as int));
            assert(all.take(i + 1).last() == raw@);
        }
        if str_eq(raw.schema.as_str(), schema) && str_eq(raw.table.as_str(), name) {
            let x = to_column(raw, &catalog.indexes);
            let ghost before = out;
            out.push(x);
            proof {
                crate::model::lemma_push_deep_view(before, out, x);
                assert(keep(all.take(i as int), p).push(raw@).map_values(f) =~= keep(
                    all.take(i as int),
                    p,
                ).map_values(f).push(f(raw@)));
            }
        }
        i = i + 1;
    }
    assert(all.take(i as int) =~= all);
    out
}

/// The comment of the last details `infos` holds for table
/// `schema`.`table`.
fn find_comment(infos: &Vec<TableInfo>, schema: &str, table: &str) -> (r: Option<String>)
    ensures
        r.deep_view() == table_comment(infos.deep_view(), schema@, table@),
{
    let ghost nv = infos.deep_view();
    let mut i: usize = infos.len();
    assert(nv.take(i as int) =~= nv);
    while i > 0
        invariant
            nv == infos.deep_view(),
            i <= infos.len(),
            table_comment(nv, schema@, table@) == table_comment(nv.take(i as int), schema@, table@),
        decreases i,
    {
        let x = &infos[i - 1];
        assert(nv.take(i as int).last() == x@);
        assert(nv.take(i as int).drop_last() =~= nv.take(i - 1));
        if str_eq(x.schema.as_str(), schema) && str_eq(x.table.as_str(), table) {
            return crate::model::clone_opt(&x.comment);
        }
        i = i - 1;
    }
    None
}

/// The database the catalog describes, stamped `generated_at`, sorted into
/// document order.
pub fn build_database(catalog: &Catalog, generated_at: &str) -> (r: Database)
    ensures
        r@ == sorted_database(catalog_database(catalog@, generated_at@)),
{
    let ghost c = catalog@;
    let mut tables: Vec<Table> = Vec::new();
    let mut i: usize = 0;
    while i < catalog.tables.len()
        invariant
            c == catalog@,
            c.tables.len() == catalog.tables.len(),
            i <= catalog.tables.len(),
            tables.deep_view() == c.tables.take(i as int).map_values(
                |t: QualifiedNameSpec| catalog_table(c, t),
            ),
        decreases catalog.tables.len() - i,
    {
        let schema = catalog.tables[i].schema.as_str();
        let name = catalog.tables[i].name.as_str();
        let x = Table {
            schema: owned(schema),
            name: owned(name),
            engine: None,
            charset: None,
            collation: None,
            comment: find_comment(&catalog.table_infos, schema, name),
            columns: columns_for(catalog, schema, name),
            indexes: indexes_for_table(schema, name, &catalog.indexes, false),
            foreign_keys: foreign_keys_for_table(schema, name, &catalog.foreign_keys),
            analysis: None,
            ai: None,
        };
        let ghost before = tables;
        tables.push(x);
        proof {
            crate::model::lemma_push_deep_view(before, tables, x);
            assert(c.tables.take(i + 1) =~= c.tables.take(i as int).push(c.tables[i as int]));
        }
        i = i + 1;
    }
    assert(c.tables.take(i as int) =~= c.tables);
    let mut views: Vec<SchemaView> = Vec::new();
    let mut j: usize = 0;
    while j < catalog.views.len()
        invariant
            c == catalog@,
            c.views.len() == catalog.views.len(),
            j <= catalog.views.len(),
            views.deep_view() == c.views.take(j as int).map_values(
                |v: QualifiedNameSpec| catalog_view(c, v),
            ),
        decreases catalog.views.len() - j,
    {
        let schema = catalog.views[j].schema.as_str();
        let name = catalog.views[j].name.as_str();
        let x = SchemaView {
            schema: owned(schema),
            name: owned(name),
            columns: columns_for(catalog, schema, name),
        };
        let ghost before = views;
        views.push(x);
        proof {
            crate::model::lemma_push_deep_view(before, views, x);
            assert(c.views.take(j + 1) =~= c.views.take(j as int).push(c.views[j as int]));
        }
        j = j + 1;
    }
    assert(c.views.take(j as int) =~= c.views);
    let mut database = Database {
        header: DocumentHeader::new(Database::FORMAT, generated_at),
        metadata: DatabaseMetadata {
            database: catalog.database.clone(),
            engine: Engine::Postgres,
            engine_version: catalog.version.clone(),
            default_charset: crate::model::clone_opt(&catalog.default_charset),
            default_collation: crate::model::clone_opt(&catalog.default_collation),
        },
        tables,
        views,
    };
    assert(database@ == catalog_database(c, generated_at@));
    database.sort();
    database
}

/// A PostgreSQL column keeps what the catalog reports of it (name,
/// position, types, nullability, default and comment); it is part of the
/// primary key exactly when an index row of its table puts it there, and a
/// primary key column counts as unique. An identity column, or one whose
/// default calls `nextval(`, is auto-increment.
pub proof fn law_postgres_columns_keep_the_catalog_facts(raw: RawColumnSpec, indexes: Seq<crate::database::RawIndexSpec>)
    ensures
        ({
            let c = postgres_column(raw, indexes);
            &&& c.name == raw.name
            &&& c.ordinal_position == raw.ordinal_position
            &&& c.data_type == raw.data_type
            &&& c.full_type == raw.full_type
            &&& c.nullable == raw.nullable
            &&& c.default == raw.default
            &&& (c.primary_key <==> exists|k: int|
                0 <= k < indexes.len() && (#[trigger] indexes[k]).schema == raw.schema && indexes[k].table == raw.table
                    && indexes[k].primary && indexes[k].column == raw.name)
            &&& (c.primary_key ==> c.unique)
        }),
        postgres_column(raw, indexes).comment == raw.comment,
        postgres_column(raw, indexes).auto_increment == (raw.is_identity || (raw.default matches Some(e)
            && crate::text::starts_with(e, "nextval("@))),
{
}

} // verus!
