//! MySQL and MariaDB: what the `INFORMATION_SCHEMA` rows of one database
//! become in the canonical model.
use vstd::prelude::*;

use crate::database::{
    foreign_keys_for_table, indexes_for_table, is_primary_key, is_unique_column, keep, missing,
    missing_error, primary_key_column, table_foreign_keys, table_indexes, unique_column,
    DatabaseError, RawForeignKey, RawForeignKeySpec, RawIndex, RawIndexSpec,
};
use crate::model::{
    header_of, sorted_database, Column, ColumnSpec, Database, DatabaseMetadata,
    DatabaseMetadataSpec, DatabaseSpec, DocumentHeader, Engine, SchemaView, SchemaViewSpec, Table,
    TableSpec,
};
use crate::text::{ascii_lowercase, contains, owned, str_contains, str_eq, to_ascii_lowercase};

verus! {

/// The engine a `VERSION()` string names: MariaDB when it mentions
/// `mariadb` in any case, MySQL otherwise.
pub open spec fn engine_of_version(version: Seq<char>) -> Engine {
    if contains(ascii_lowercase(version), "mariadb"@) {
        Engine::Mariadb
    } else {
        Engine::Mysql
    }
}

/// The engine a `VERSION()` string names.
pub fn engine_from_version(version: &str) -> (r: Engine)
    ensures
        r == engine_of_version(version@),
{
    let lower = to_ascii_lowercase(version);
    if str_contains(lower.as_str(), "mariadb") {
        Engine::Mariadb
    } else {
        Engine::Mysql
    }
}

/// The server version from the row `SELECT VERSION()` returned, if any.
pub fn version_from_row(version: Option<String>) -> (r: Result<String, DatabaseError>)
    ensures
        match version {
            Some(v) => r matches Ok(x) && x@ == v@,
            None => r matches Err(DatabaseError::Catalog(m)) && m@ == "VERSION() returned no row"@,
        },
{
    match version {
        Some(v) => Ok(v),
        None => Err(DatabaseError::Catalog(owned("VERSION() returned no row"))),
    }
}

// ---------------------------------------------------------------------------
// Columns
// ---------------------------------------------------------------------------

/// One row of `INFORMATION_SCHEMA.COLUMNS`.
#[derive(Debug)]
pub struct RawColumn {
    /// Table or view the column belongs to.
    pub table_name: String,
    /// Column name.
    pub name: String,
    /// One-based position within the table.
    pub ordinal_position: u32,
    /// Bare type name.
    pub data_type: String,
    /// Full declared type.
    pub full_type: String,
    /// Whether the column accepts NULL.
    pub nullable: bool,
    /// Declared default.
    pub default: Option<String>,
    /// The `EXTRA` flags, such as `auto_increment`.
    pub extra: String,
    /// Column comment.
    pub comment: Option<String>,
    /// Expression of a generated column; empty or absent otherwise.
    pub generation_expression: Option<String>,
}

pub struct RawColumnSpec {
    pub table_name: Seq<char>,
    pub name: Seq<char>,
    pub ordinal_position: u32,
    pub data_type: Seq<char>,
    pub full_type: Seq<char>,
    pub nullable: bool,
    pub default: Option<Seq<char>>,
    pub extra: Seq<char>,
    pub comment: Option<Seq<char>>,
    pub generation_expression: Option<Seq<char>>,
}

impl View for RawColumn {
    type V = RawColumnSpec;

    open spec fn view(&self) -> RawColumnSpec {
        RawColumnSpec {
            table_name: self.table_name@,
            name: self.name@,
            ordinal_position: self.ordinal_position,
            data_type: self.data_type@,
            full_type: self.full_type@,
            nullable: self.nullable,
            default: self.default.deep_view(),
            extra: self.extra@,
            comment: self.comment.deep_view(),
            generation_expression: self.generation_expression.deep_view(),
        }
    }
}

impl DeepView for RawColumn {
    type V = RawColumnSpec;

    open spec fn deep_view(&self) -> RawColumnSpec {
        self@
    }
}

/// `o` when it holds non-empty text.
pub open spec fn nonempty_text(o: Option<Seq<char>>) -> Option<Seq<char>> {
    match o {
        Some(t) => if t.len() > 0 {
            Some(t)
        } else {
            None
        },
        None => None,
    }
}

/// The model column for `raw`, a column of a table or view of database
/// `schema` whose indexes `indexes` lists: auto-increment and generated
/// come from the `EXTRA` flags in any case (and a non-empty generation
/// expression), primary and unique from the indexes, and a primary key
/// column counts as unique.
pub open spec fn mysql_column(raw: RawColumnSpec, schema: Seq<char>, indexes: Seq<RawIndexSpec>) -> ColumnSpec {
    let extra = ascii_lowercase(raw.extra);
    let primary = primary_key_column(indexes, schema, raw.table_name, raw.name);
    let unique = unique_column(indexes, schema, raw.table_name, raw.name);
    ColumnSpec {
        name: raw.name,
        ordinal_position: raw.ordinal_position,
        data_type: raw.data_type,
        full_type: raw.full_type,
        nullable: raw.nullable,
        default: raw.default,
        auto_increment: contains(extra, "auto_increment"@),
        primary_key: primary,
        unique: unique || primary,
        comment: raw.comment,
        generated: nonempty_text(raw.generation_expression) is Some || contains(extra, "generated"@),
        expression: nonempty_text(raw.generation_expression),
    }
}

fn clone_nonempty(o: &Option<String>) -> (r: Option<String>)
    ensures
        r.deep_view() == nonempty_text(o.deep_view()),
{
    proof {
        reveal_strlit("");
    }
    match o {
        Some(t) => if str_eq(t.as_str(), "") {
            None
        } else {
            assert(t@.len() > 0) by {
                if t@.len() == 0 {
                    assert(t@ =~= ""@);
                }
            }
            Some(t.clone())
        },
        None => None,
    }
}

/// The model column for `raw`, a column of database `schema`.
pub fn to_column(raw: &RawColumn, schema: &str, indexes: &Vec<RawIndex>) -> (r: Column)
    ensures
        r@ == mysql_column(raw@, schema@, indexes.deep_view()),
{
    let extra = to_ascii_lowercase(raw.extra.as_str());
    let expression = clone_nonempty(&raw.generation_expression);
    let generated = expression.is_some() || str_contains(extra.as_str(), "generated");
    let auto_increment = str_contains(extra.as_str(), "auto_increment");
    let primary = is_primary_key(schema, raw.table_name.as_str(), raw.name.as_str(), indexes);
    let unique = is_unique_column(schema, raw.table_name.as_str(), raw.name.as_str(), indexes);
    Column {
        name: raw.name.clone(),
        ordinal_position: raw.ordinal_position,
        data_type: raw.data_type.clone(),
        full_type: raw.full_type.clone(),
        nullable: raw.nullable,
        default: crate::model::clone_opt(&raw.default),
        auto_increment,
        primary_key: primary,
        unique: unique || primary,
        comment: crate::model::clone_opt(&raw.comment),
        generated,
        expression,
    }
}

/// The `COLUMNS` row with these values, or the catalog error naming the
/// first required value that is absent. `IS_NULLABLE` counts as `YES` only
/// when it says so; absent `EXTRA` is empty.
pub fn column_row(
    table_name: Option<String>,
    column_name: Option<String>,
    ordinal_position: Option<u32>,
    data_type: Option<String>,
    column_type: Option<String>,
    is_nullable: Option<String>,
    column_default: Option<String>,
    extra: Option<String>,
    comment: Option<String>,
    generation_expression: Option<String>,
) -> (r: Result<RawColumn, DatabaseError>)
    ensures
        table_name is None ==> missing_error(r, "TABLE_NAME"@),
        table_name is Some && column_name is None ==> missing_error(r, "COLUMN_NAME"@),
        table_name is Some && column_name is Some && ordinal_position is None ==> missing_error(
            r,
            "ORDINAL_POSITION"@,
        ),
        table_name is Some && column_name is Some && ordinal_position is Some && data_type is None
            ==> missing_error(r, "DATA_TYPE"@),
        table_name is Some && column_name is Some && ordinal_position is Some && data_type is Some
            && column_type is None ==> missing_error(r, "COLUMN_TYPE"@),
        table_name is Some && column_name is Some && ordinal_position is Some && data_type is Some
            && column_type is Some ==> (r matches Ok(c) && c@ == (RawColumnSpec {
            table_name: table_name->0@,
            name: column_name->0@,
            ordinal_position: ordinal_position->0,
            data_type: data_type->0@,
            full_type: column_type->0@,
            nullable: (is_nullable matches Some(v) && v@ == "YES"@),
            default: column_default.deep_view(),
            extra: match extra {
                Some(e) => e@,
                None => Seq::empty(),
            },
            comment: comment.deep_view(),
            generation_expression: generation_expression.deep_view(),
        })),
{
    let table_name = match table_name {
        Some(t) => t,
        None => return Err(missing("TABLE_NAME")),
    };
    let name = match column_name {
        Some(t) => t,
        None => return Err(missing("COLUMN_NAME")),
    };
    let ordinal_position = match ordinal_position {
        Some(t) => t,
        None => return Err(missing("ORDINAL_POSITION")),
    };
    let data_type = match data_type {
        Some(t) => t,
        None => return Err(missing("DATA_TYPE")),
    };
    let full_type = match column_type {
        Some(t) => t,
        None => return Err(missing("COLUMN_TYPE")),
    };
    let nullable = match &is_nullable {
        Some(v) => str_eq(v.as_str(), "YES"),
        None => false,
    };
    let extra = match extra {
        Some(e) => e,
        None => String::new(),
    };
    Ok(
        RawColumn {
            table_name,
            name,
            ordinal_position,
            data_type,
            full_type,
            nullable,
            default: column_default,
            extra,
            comment,
            generation_expression,
        },
    )
}

// ---------------------------------------------------------------------------
// Indexes and foreign keys
// ---------------------------------------------------------------------------

/// The `STATISTICS` row with these values, for database `schema`, or the
/// catalog error naming the first required value that is absent. An index
/// is unique when `NON_UNIQUE` is 0, the primary key when it is named
/// `PRIMARY`, and a `BTREE` when it gives no type.
pub fn index_row(
    schema: &str,
    table_name: Option<String>,
    index_name: Option<String>,
    non_unique: Option<u8>,
    column_name: Option<String>,
    seq_in_index: Option<u32>,
    index_type: Option<String>,
) -> (r: Result<RawIndex, DatabaseError>)
    ensures
        table_name is None ==> missing_error(r, "TABLE_NAME"@),
        table_name is Some && index_name is None ==> missing_error(r, "INDEX_NAME"@),
        table_name is Some && index_name is Some && column_name is None ==> missing_error(
            r,
            "COLUMN_NAME"@,
        ),
        table_name is Some && index_name is Some && column_name is Some && seq_in_index is None
            ==> missing_error(r, "SEQ_IN_INDEX"@),
        table_name is Some && index_name is Some && column_name is Some && seq_in_index is Some
            ==> (r matches Ok(x) && x@ == (RawIndexSpec {
            schema: schema@,
            table: table_name->0@,
            name: index_name->0@,
            unique: non_unique == Some(0u8),
            primary: index_name->0@ == "PRIMARY"@,
            column: column_name->0@,
            sequence: seq_in_index->0,
            index_type: match index_type {
                Some(t) => t@,
                None => "BTREE"@,
            },
        })),
{
    let table = match table_name {
        Some(t) => t,
        None => return Err(missing("TABLE_NAME")),
    };
    let name = match index_name {
        Some(t) => t,
        None => return Err(missing("INDEX_NAME")),
    };
    let column = match column_name {
        Some(t) => t,
        None => return Err(missing("COLUMN_NAME")),
    };
    let sequence = match seq_in_index {
        Some(t) => t,
        None => return Err(missing("SEQ_IN_INDEX")),
    };
    let unique = match non_unique {
        Some(v) => v == 0,
        None => false,
    };
    let index_type = match index_type {
        Some(t) => t,
        None => owned("BTREE"),
    };
    let primary = str_eq(name.as_str(), "PRIMARY");
    Ok(RawIndex { schema: owned(schema), table, name, unique, primary, column, sequence, index_type })
}

/// The `REFERENTIAL_CONSTRAINTS` and `KEY_COLUMN_USAGE` row with these
/// values, for database `schema`, or the catalog error naming the first
/// required value that is absent. Absent rules are `NO ACTION`.
pub fn foreign_key_row(
    schema: &str,
    table_name: Option<String>,
    constraint_name: Option<String>,
    column_name: Option<String>,
    ordinal_position: Option<u32>,
    referenced_schema: Option<String>,
    referenced_table: Option<String>,
    referenced_column: Option<String>,
    update_rule: Option<String>,
    delete_rule: Option<String>,
) -> (r: Result<RawForeignKey, DatabaseError>)
    ensures
        table_name is None ==> missing_error(r, "TABLE_NAME"@),
        table_name is Some && constraint_name is None ==> missing_error(r, "CONSTRAINT_NAME"@),
        table_name is Some && constraint_name is Some && column_name is None ==> missing_error(
            r,
            "COLUMN_NAME"@,
        ),
        table_name is Some && constraint_name is Some && column_name is Some && ordinal_position
            is None ==> missing_error(r, "ORDINAL_POSITION"@),
        table_name is Some && constraint_name is Some && column_name is Some && ordinal_position
            is Some && referenced_schema is None ==> missing_error(r, "REFERENCED_TABLE_SCHEMA"@),
        table_name is Some && constraint_name is Some && column_name is Some && ordinal_position
            is Some && referenced_schema is Some && referenced_table is None ==> missing_error(
            r,
            "REFERENCED_TABLE_NAME"@,
        ),
        table_name is Some && constraint_name is Some && column_name is Some && ordinal_position
            is Some && referenced_schema is Some && referenced_table is Some && referenced_column
            is None ==> missing_error(r, "REFERENCED_COLUMN_NAME"@),
        table_name is Some && constraint_name is Some && column_name is Some && ordinal_position
            is Some && referenced_schema is Some && referenced_table is Some && referenced_column
            is Some ==> (r matches Ok(x) && x@ == (RawForeignKeySpec {
            schema: schema@,
            table: table_name->0@,
            name: constraint_name->0@,
            column: column_name->0@,
            sequence: ordinal_position->0,
            referenced_schema: referenced_schema->0@,
            referenced_table: referenced_table->0@,
            referenced_column: referenced_column->0@,
            on_update: match update_rule {
                Some(t) => t@,
                None => "NO ACTION"@,
            },
            on_delete: match delete_rule {
                Some(t) => t@,
                None => "NO ACTION"@,
            },
        })),
{
    let table = match table_name {
        Some(t) => t,
        None => return Err(missing("TABLE_NAME")),
    };
    let name = match constraint_name {
        Some(t) => t,
        None => return Err(missing("CONSTRAINT_NAME")),
    };
    let column = match column_name {
        Some(t) => t,
        None => return Err(missing("COLUMN_NAME")),
    };
    let sequence = match ordinal_position {
        Some(t) => t,
        None => return Err(missing("ORDINAL_POSITION")),
    };
    let referenced_schema = match referenced_schema {
        Some(t) => t,
        None => return Err(missing("REFERENCED_TABLE_SCHEMA")),
    };
    let referenced_table = match referenced_table {
        Some(t) => t,
        None => return Err(missing("REFERENCED_TABLE_NAME")),
    };
    let referenced_column = match referenced_column {
        Some(t) => t,
        None => return Err(missing("REFERENCED_COLUMN_NAME")),
    };
    let on_update = match update_rule {
        Some(t) => t,
        None => owned("NO ACTION"),
    };
    let on_delete = match delete_rule {
        Some(t) => t,
        None => owned("NO ACTION"),
    };
    Ok(
        RawForeignKey {
            schema: owned(schema),
            table,
            name,
            column,
            sequence,
            referenced_schema,
            referenced_table,
            referenced_column,
            on_update,
            on_delete,
        },
    )
}

// ---------------------------------------------------------------------------
// The database
// ---------------------------------------------------------------------------

/// What `INFORMATION_SCHEMA.TABLES` says of one table.
#[derive(Debug)]
pub struct TableInfo {
    /// The table.
    pub table: String,
    /// Storage engine.
    pub engine: Option<String>,
    /// Table collation.
    pub collation: Option<String>,
    /// Table comment.
    pub comment: Option<String>,
}

pub struct TableInfoSpec {
    pub table: Seq<char>,
    pub engine: Option<Seq<char>>,
    pub collation: Option<Seq<char>>,
    pub comment: Option<Seq<char>>,
}

impl View for TableInfo {
    type V = TableInfoSpec;

    open spec fn view(&self) -> TableInfoSpec {
        TableInfoSpec {
            table: self.table@,
            engine: self.engine.deep_view(),
            collation: self.collation.deep_view(),
            comment: self.comment.deep_view(),
        }
    }
}

impl DeepView for TableInfo {
    type V = TableInfoSpec;

    open spec fn deep_view(&self) -> TableInfoSpec {
        self@
    }
}

/// Everything the catalog of one database says, as read.
#[derive(Debug)]
pub struct Catalog {
    /// The database.
    pub database: String,
    /// What `VERSION()` returned.
    pub version: String,
    /// Default character set of the database.
    pub default_charset: Option<String>,
    /// Default collation of the database.
    pub default_collation: Option<String>,
    /// Base tables.
    pub tables: Vec<String>,
    /// Views.
    pub views: Vec<String>,
    /// Columns of tables and views.
    pub columns: Vec<RawColumn>,
    /// Index rows.
    pub indexes: Vec<RawIndex>,
    /// Foreign key rows.
    pub foreign_keys: Vec<RawForeignKey>,
    /// Table details.
    pub table_infos: Vec<TableInfo>,
}

pub struct CatalogSpec {
    pub database: Seq<char>,
    pub version: Seq<char>,
    pub default_charset: Option<Seq<char>>,
    pub default_collation: Option<Seq<char>>,
    pub tables: Seq<Seq<char>>,
    pub views: Seq<Seq<char>>,
    pub columns: Seq<RawColumnSpec>,
    pub indexes: Seq<RawIndexSpec>,
    pub foreign_keys: Seq<RawForeignKeySpec>,
    pub table_infos: Seq<TableInfoSpec>,
}

impl View for Catalog {
    type V = CatalogSpec;

    open spec fn view(&self) -> CatalogSpec {
        CatalogSpec {
            database: self.database@,
            version: self.version@,
            default_charset: self.default_charset.deep_view(),
            default_collation: self.default_collation.deep_view(),
            tables: self.tables.deep_view(),
            views: self.views.deep_view(),
            columns: self.columns.deep_view(),
            indexes: self.indexes.deep_view(),
            foreign_keys: self.foreign_keys.deep_view(),
            table_infos: self.table_infos.deep_view(),
        }
    }
}

/// The first details `infos` holds for table `name`.
pub open spec fn info_for(infos: Seq<TableInfoSpec>, name: Seq<char>) -> Option<TableInfoSpec>
    decreases infos.len(),
{
    if infos.len() == 0 {
        None
    } else if infos[0].table == name {
        Some(infos[0])
    } else {
        info_for(infos.drop_first(), name)
    }
}

/// Whether a column row belongs to table or view `name`.
pub open spec fn column_of(name: Seq<char>) -> spec_fn(RawColumnSpec) -> bool {
    |r: RawColumnSpec| r.table_name == name
}

/// The columns of table or view `name`, in catalog order.
pub open spec fn columns_of(c: CatalogSpec, name: Seq<char>) -> Seq<ColumnSpec> {
    keep(c.columns, column_of(name)).map_values(
        |r: RawColumnSpec| mysql_column(r, c.database, c.indexes),
    )
}

/// Table `name` as the catalog describes it.
pub open spec fn catalog_table(c: CatalogSpec, name: Seq<char>) -> TableSpec {
    let info = info_for(c.table_infos, name);
    TableSpec {
        schema: c.database,
        name,
        engine: match info {
            Some(i) => i.engine,
            None => None,
        },
        charset: None,
        collation: match info {
            Some(i) => i.collation,
            None => None,
        },
        comment: match info {
            Some(i) => i.comment,
            None => None,
        },
        columns: columns_of(c, name),
        indexes: table_indexes(c.indexes, c.database, name, true),
        foreign_keys: table_foreign_keys(c.foreign_keys, c.database, name),
        analysis: None,
        ai: None,
    }
}

/// View `name` as the catalog describes it.
pub open spec fn catalog_view(c: CatalogSpec, name: Seq<char>) -> SchemaViewSpec {
    SchemaViewSpec { schema: c.database, name, columns: columns_of(c, name) }
}

/// The database the catalog describes, before sorting.
pub open spec fn catalog_database(c: CatalogSpec, generated_at: Seq<char>) -> DatabaseSpec {
    DatabaseSpec {
        header: header_of(Database::FORMAT@, generated_at),
        metadata: DatabaseMetadataSpec {
            database: c.database,
            engine: engine_of_version(c.version),
            engine_version: c.version,
            default_charset: c.default_charset,
            default_collation: c.default_collation,
        },
        tables: c.tables.map_values(|n: Seq<char>| catalog_table(c, n)),
        views: c.views.map_values(|n: Seq<char>| catalog_view(c, n)),
    }
}

/// The columns of table or view `name`, in catalog order.
fn columns_for(catalog: &Catalog, name: &str) -> (r: Vec<Column>)
    ensures
        r.deep_view() == columns_of(catalog@, name@),
{
    let ghost all = catalog@.columns;
    let ghost p = column_of(name@);
    let ghost f = |r: RawColumnSpec| mysql_column(r, catalog@.database, catalog@.indexes);
    let mut out: Vec<Column> = Vec::new();
    let mut i: usize = 0;
    while i < catalog.columns.len()
        invariant
            all == catalog@.columns,
            all.len() == catalog.columns.len(),
            p == column_of(name@),
            f == (|r: RawColumnSpec| mysql_column(r, catalog@.database, catalog@.indexes)),
            i <= catalog.columns.len(),
            out.deep_view() == keep(all.take(i as int), p).map_values(f),
        decreases catalog.columns.len() - i,
    {
        let raw = &catalog.columns[i];
        proof {
            assert(all.take(i + 1).drop_last() =~= all.take(i as int));
            assert(all.take(i + 1).last() == raw@);
        }
        if str_eq(raw.table_name.as_str(), name) {
            let x = to_column(raw, catalog.database.as_str(), &catalog.indexes);
            let ghost before = out;
            out.push(x);
            proof {
                crate::model::lemma_push_deep_view(before, out, x);
                assert(keep(all.take(i as int), p).push(raw@).map_values(f) =~= keep(
                    all.take(i as int),
                    p,
                ).map_values(f).push(f(raw@)));
            }
        }
        i = i + 1;
    }
    assert(all.take(i as int) =~= all);
    out
}

/// The first details `infos` holds for table `name`.
fn find_info<'a>(infos: &'a Vec<TableInfo>, name: &str) -> (r: Option<&'a TableInfo>)
    ensures
        match r {
            Some(x) => info_for(infos.deep_view(), name@) == Some(x@),
            None => info_for(infos.deep_view(), name@) is None,
        },
{
    let ghost all = infos.deep_view();
    let mut i: usize = 0;
    assert(all.skip(0) =~= all);
    while i < infos.len()
        invariant
            all == infos.deep_view(),
            i <= infos.len(),
            info_for(all, name@) == info_for(all.skip(i as int), name@),
        decreases infos.len() - i,
    {
        assert(all.skip(i as int)[0] == infos[i as int]@);
        if str_eq(infos[i].table.as_str(), name) {
            return Some(&infos[i]);
        }
        assert(all.skip(i as int).drop_first() =~= all.skip(i + 1));
        i = i + 1;
    }
    None
}

/// Table `name` as the catalog describes it.
fn table_from_catalog(catalog: &Catalog, name: &str) -> (r: Table)
    ensures
        r@ == catalog_table(catalog@, name@),
{
    let info = find_info(&catalog.table_infos, name);
    let (engine, collation, comment) = match info {
        Some(i) => (
            crate::model::clone_opt(&i.engine),
            crate::model::clone_opt(&i.collation),
            crate::model::clone_opt(&i.comment),
        ),
        None => (None, None, None),
    };
    let database = catalog.database.as_str();
    Table {
        schema: owned(database),
        name: owned(name),
        engine,
        charset: None,
        collation,
        comment,
        columns: columns_for(catalog, name),
        indexes: indexes_for_table(database, name, &catalog.indexes, true),
        foreign_keys: foreign_keys_for_table(database, name, &catalog.foreign_keys),
        analysis: None,
        ai: None,
    }
}

/// The database the catalog describes, stamped `generated_at`, sorted into
/// document order.
pub fn build_database(catalog: &Catalog, generated_at: &str) -> (r: Database)
    ensures
        r@ == sorted_database(catalog_database(catalog@, generated_at@)),
{
    let ghost c = catalog@;
    let mut tables: Vec<Table> = Vec::new();
    let mut i: usize = 0;
    while i < catalog.tables.len()
        invariant
            c == catalog@,
            c.tables.len() == catalog.tables.len(),
            i <= catalog.tables.len(),
            tables.deep_view() == c.tables.take(i as int).map_values(
                |n: Seq<char>| catalog_table(c, n),
            ),
        decreases catalog.tables.len() - i,
    {
        let x = table_from_catalog(catalog, catalog.tables[i].as_str());
        let ghost before = tables;
        tables.push(x);
        proof {
            crate::model::lemma_push_deep_view(before, tables, x);
            assert(c.tables.take(i + 1) =~= c.tables.take(i as int).push(c.tables[i as int]));
        }
        i = i + 1;
    }
    assert(c.tables.take(i as int) =~= c.tables);
    let mut views: Vec<SchemaView> = Vec::new();
    let mut j: usize = 0;
    while j < catalog.views.len()
        invariant
            c == catalog@,
            c.views.len() == catalog.views.len(),
            j <= catalog.views.len(),
            views.deep_view() == c.views.take(j as int).map_values(
                |n: Seq<char>| catalog_view(c, n),
            ),
        decreases catalog.views.len() - j,
    {
        let name = catalog.views[j].as_str();
        let x = SchemaView {
            schema: catalog.database.clone(),
            name: owned(name),
            columns: columns_for(catalog, name),
        };
        let ghost before = views;
        views.push(x);
        proof {
            crate::model::lemma_push_deep_view(before, views, x);
            assert(c.views.take(j + 1) =~= c.views.take(j as int).push(c.views[j as int]));
        }
        j = j + 1;
    }
    assert(c.views.take(j as int) =~= c.views);
    let mut database = Database {
        header: DocumentHeader::new(Database::FORMAT, generated_at),
        metadata: DatabaseMetadata {
            database: catalog.database.clone(),
            engine: engine_from_version(catalog.version.as_str()),
            engine_version: catalog.version.clone(),
            default_charset: crate::model::clone_opt(&catalog.default_charset),
            default_collation: crate::model::clone_opt(&catalog.default_collation),
        },
        tables,
        views,
    };
    assert(database@ == catalog_database(c, generated_at@));
    database.sort();
    database
}

/// A MySQL column keeps what the catalog reports of it (name, position,
/// types, nullability, default and comment); it is part of the primary key
/// exactly when an index row of its table puts it there, and a primary key
/// column counts as unique. `EXTRA` saying `auto_increment`, in any case,
/// makes it auto-increment.
pub proof fn law_mysql_columns_keep_the_catalog_facts(raw: RawColumnSpec, schema: Seq<char>, indexes: Seq<crate::database::RawIndexSpec>)
    ensures
        ({
            let c = mysql_column(raw, schema, indexes);
            &&& c.name == raw.name
            &&& c.ordinal_position == raw.ordinal_position
            &&& c.data_type == raw.data_type
            &&& c.full_type == raw.full_type
            &&& c.nullable == raw.nullable
            &&& c.default == raw.default
            &&& (c.primary_key <==> exists|k: int|
                0 <= k < indexes.len() && (#[trigger] indexes[k]).schema == schema && indexes[k].table == raw.table_name
                    && indexes[k].primary && indexes[k].column == raw.name)
            &&& (c.primary_key ==> c.unique)
        }),
        mysql_column(raw, schema, indexes).comment == raw.comment,
        mysql_column(raw, schema, indexes).auto_increment == crate::text::contains(
            crate::text::ascii_lowercase(raw.extra),
            "auto_increment"@,
        ),
{
}

/// A server whose `VERSION()` mentions `mariadb`, in any case, is MariaDB;
/// any other is MySQL.
pub proof fn law_mariadb_is_told_by_its_version(version: Seq<char>)
    ensures
        contains(ascii_lowercase(version), "mariadb"@) ==> engine_of_version(version) == Engine::Mariadb,
        !contains(ascii_lowercase(version), "mariadb"@) ==> engine_of_version(version) == Engine::Mysql,
{
}

} // verus!
