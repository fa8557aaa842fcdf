//! SQL Server: what the `INFORMATION_SCHEMA` and `sys.*` rows of one
//! database become in the canonical model.
use vstd::prelude::*;

use crate::database::{
    foreign_keys_for_table, indexes_for_table, is_primary_key, is_unique_column, keep, missing,
    missing_error, primary_key_column, table_foreign_keys, table_indexes, unique_column,
    DatabaseError, QualifiedName, QualifiedNameSpec, RawForeignKey, RawForeignKeySpec, RawIndex,
    RawIndexSpec,
};
use crate::model::{
    header_of, sorted_database, Column, ColumnSpec, Database, DatabaseMetadata,
    DatabaseMetadataSpec, DatabaseSpec, DocumentHeader, Engine, SchemaView, SchemaViewSpec, Table,
    TableSpec,
};
use crate::text::{
    decimal, decimal_string_u64, owned, push_str, signed_decimal, signed_decimal_string, str_eq,
};

verus! {

// ---------------------------------------------------------------------------
// Columns
// ---------------------------------------------------------------------------

/// The full declared type of a column: the length of a character type
/// (when the catalog gives one that is not negative), else the precision
/// and scale of a number (scale 0 when absent), else the precision of a
/// date or time, else the bare type.
pub open spec fn sql_type(
    data_type: Seq<char>,
    max_length: Option<i32>,
    precision: Option<u8>,
    scale: Option<i32>,
    datetime_precision: Option<u8>,
) -> Seq<char> {
    if max_length is Some && max_length->0 >= 0 {
        data_type + "("@ + decimal(max_length->0 as nat) + ")"@
    } else if precision is Some {
        data_type + "("@ + decimal(precision->0 as nat) + ","@ + signed_decimal(
            match scale {
                Some(s) => s as int,
                None => 0,
            },
        ) + ")"@
    } else if datetime_precision is Some {
        data_type + "("@ + decimal(datetime_precision->0 as nat) + ")"@
    } else {
        data_type
    }
}

/// The full declared type of a column of type `data_type`.
pub fn full_sql_type(
    data_type: &str,
    max_length: Option<i32>,
    precision: Option<u8>,
    scale: Option<i32>,
    datetime_precision: Option<u8>,
) -> (r: String)
    ensures
        r@ == sql_type(data_type@, max_length, precision, scale, datetime_precision),
{
    if let Some(len) = max_length {
        if len >= 0 {
            let mut out = owned(data_type);
            push_str(&mut out, "(");
            let digits = decimal_string_u64(len as u64);
            push_str(&mut out, digits.as_str());
            push_str(&mut out, ")");
            return out;
        }
    }
    if let Some(p) = precision {
        let s: i32 = match scale {
            Some(s) => s,
            None => 0,
        };
        let mut out = owned(data_type);
        push_str(&mut out, "(");
        let digits = decimal_string_u64(p as u64);
        push_str(&mut out, digits.as_str());
        push_str(&mut out, ",");
        let scale_text = signed_decimal_string(s as i64);
        push_str(&mut out, scale_text.as_str());
        push_str(&mut out, ")");
        return out;
    }
    if let Some(p) = datetime_precision {
        let mut out = owned(data_type);
        push_str(&mut out, "(");
        let digits = decimal_string_u64(p as u64);
        push_str(&mut out, digits.as_str());
        push_str(&mut out, ")");
        return out;
    }
    owned(data_type)
}

/// One row of `INFORMATION_SCHEMA.COLUMNS`.
#[derive(Debug)]
pub struct RawColumn {
    /// Namespace of the table or view.
    pub schema: String,
    /// Table or view the column belongs to.
    pub table: String,
    /// Column name.
    pub name: String,
    /// One-based position within the table.
    pub ordinal_position: u32,
    /// Bare type name.
    pub data_type: String,
    /// Full declared type.
    pub full_type: String,
    /// Whether the column accepts NULL.
    pub nullable: bool,
    /// Declared default.
    pub default: Option<String>,
}

pub struct RawColumnSpec {
    pub schema: Seq<char>,
    pub table: Seq<char>,
    pub name: Seq<char>,
    pub ordinal_position: u32,
    pub data_type: Seq<char>,
    pub full_type: Seq<char>,
    pub nullable: bool,
    pub default: Option<Seq<char>>,
}

impl View for RawColumn {
    type V = RawColumnSpec;

    open spec fn view(&self) -> RawColumnSpec {
        RawColumnSpec {
            schema: self.schema@,
            table: self.table@,
            name: self.name@,
            ordinal_position: self.ordinal_position,
            data_type: self.data_type@,
            full_type: self.full_type@,
            nullable: self.nullable,
            default: self.default.deep_view(),
        }
    }
}

impl DeepView for RawColumn {
    type V = RawColumnSpec;

    open spec fn deep_view(&self) -> RawColumnSpec {
        self@
    }
}

/// A column of a table, named by its table's namespace and name.
#[derive(Debug)]
pub struct ColumnKey {
    pub schema: String,
    pub table: String,
    pub column: String,
}

pub struct ColumnKeySpec {
    pub schema: Seq<char>,
    pub table: Seq<char>,
    pub column: Seq<char>,
}

impl View for ColumnKey {
    type V = ColumnKeySpec;

    open spec fn view(&self) -> ColumnKeySpec {
        ColumnKeySpec { schema: self.schema@, table: self.table@, column: self.column@ }
    }
}

impl DeepView for ColumnKey {
    type V = ColumnKeySpec;

    open spec fn deep_view(&self) -> ColumnKeySpec {
        self@
    }
}

/// Text the catalog records about a column: its description, or the
/// expression of a computed column.
#[derive(Debug)]
pub struct ColumnText {
    pub schema: String,
    pub table: String,
    pub column: String,
    pub text: String,
}

pub struct ColumnTextSpec {
    pub schema: Seq<char>,
    pub table: Seq<char>,
    pub column: Seq<char>,
    pub text: Seq<char>,
}

impl View for ColumnText {
    type V = ColumnTextSpec;

    open spec fn view(&self) -> ColumnTextSpec {
        ColumnTextSpec {
            schema: self.schema@,
            table: self.table@,
            column: self.column@,
            text: self.text@,
        }
    }
}

impl DeepView for ColumnText {
    type V = ColumnTextSpec;

    open spec fn deep_view(&self) -> ColumnTextSpec {
        self@
    }
}

/// Whether `keys` names column `schema`.`table`.`column`.
pub open spec fn has_key(
    keys: Seq<ColumnKeySpec>,
    schema: Seq<char>,
    table: Seq<char>,
    column: Seq<char>,
) -> bool {
    exists|k: int|
        0 <= k < keys.len() && (#[trigger] keys[k]).schema == schema && keys[k].table == table
            && keys[k].column == column
}

/// The text the last entry of `notes` for column `schema`.`table`.`column`
/// holds, if any: what a map filled in row order keeps.
pub open spec fn last_text(
    notes: Seq<ColumnTextSpec>,
    schema: Seq<char>,
    table: Seq<char>,
    column: Seq<char>,
) -> Option<Seq<char>>
    decreases notes.len(),
{
    if notes.len() == 0 {
        None
    } else if notes.last().schema == schema && notes.last().table == table && notes.last().column
        == column {
        Some(notes.last().text)
    } else {
        last_text(notes.drop_last(), schema, table, column)
    }
}

/// The model column for `raw`: an identity column is auto-increment, a
/// computed column is generated with its expression, its description is
/// its comment, primary and unique come from the indexes, and a primary
/// key column counts as unique.
pub open spec fn sqlserver_column(
    raw: RawColumnSpec,
    indexes: Seq<RawIndexSpec>,
    identities: Seq<ColumnKeySpec>,
    comments: Seq<ColumnTextSpec>,
    computed: Seq<ColumnTextSpec>,
) -> ColumnSpec {
    let primary = primary_key_column(indexes, raw.schema, raw.table, raw.name);
    let unique = unique_column(indexes, raw.schema, raw.table, raw.name);
    let expression = last_text(computed, raw.schema, raw.table, raw.name);
    ColumnSpec {
        name: raw.name,
        ordinal_position: raw.ordinal_position,
        data_type: raw.data_type,
        full_type: raw.full_type,
        nullable: raw.nullable,
        default: raw.default,
        auto_increment: has_key(identities, raw.schema, raw.table, raw.name),
        primary_key: primary,
        unique: unique || primary,
        comment: last_text(comments, raw.schema, raw.table, raw.name),
        generated: expression is Some,
        expression,
    }
}

/// Whether `keys` names column `schema`.`table`.`column`.
fn find_key(keys: &Vec<ColumnKey>, schema: &str, table: &str, column: &str) -> (r: bool)
    ensures
        r == has_key(keys.deep_view(), schema@, table@, column@),
{
    let ghost kv = keys.deep_view();
    let mut i: usize = 0;
    while i < keys.len()
        invariant
            kv == keys.deep_view(),
            i <= keys.len(),
            forall|k: int|
                0 <= k < i ==> !((#[trigger] kv[k]).schema == schema@ && kv[k].table == table@
                    && kv[k].column == column@),
        decreases keys.len() - i,
    {
        let x = &keys[i];
        assert(kv[i as int] == x@);
        if str_eq(x.schema.as_str(), schema) && str_eq(x.table.as_str(), table) && str_eq(
            x.column.as_str(),
            column,
        ) {
            return true;
        }
        i = i + 1;
    }
    false
}

/// The text of the last entry of `notes` for column
/// `schema`.`table`.`column`, if any.
fn find_text(notes: &Vec<ColumnText>, schema: &str, table: &str, column: &str) -> (r: Option<
    String,
>)
    ensures
        r.deep_view() == last_text(notes.deep_view(), schema@, table@, column@),
{
    let ghost nv = notes.deep_view();
    let mut i: usize = notes.len();
    assert(nv.take(i as int) =~= nv);
    while i > 0
        invariant
            nv == notes.deep_view(),
            i <= notes.len(),
            last_text(nv, schema@, table@, column@) == last_text(
                nv.take(i as int),
                schema@,
                table@,
                column@,
            ),
        decreases i,
    {
        let x = &notes[i - 1];
        assert(nv.take(i as int).last() == x@);
        assert(nv.take(i as int).drop_last() =~= nv.take(i - 1));
        if str_eq(x.schema.as_str(), schema) && str_eq(x.table.as_str(), table) && str_eq(
            x.column.as_str(),
            column,
        ) {
            return Some(x.text.clone());
        }
        i = i - 1;
    }
    None
}

/// The model column for `raw`.
pub fn to_column(
    raw: &RawColumn,
    indexes: &Vec<RawIndex>,
    identities: &Vec<ColumnKey>,
    comments: &Vec<ColumnText>,
    computed: &Vec<ColumnText>,
) -> (r: Column)
    ensures
        r@ == sqlserver_column(
            raw@,
            indexes.deep_view(),
            identities.deep_view(),
            comments.deep_view(),
            computed.deep_view(),
        ),
{
    let schema = raw.schema.as_str();
    let table = raw.table.as_str();
    let name = raw.name.as_str();
    let primary = is_primary_key(schema, table, name, indexes);
    let unique = is_unique_column(schema, table, name, indexes);
    let auto_increment = find_key(identities, schema, table, name);
    let comment = find_text(comments, schema, table, name);
    let expression = find_text(computed, schema, table, name);
    let generated = expression.is_some();
    Column {
        name: raw.name.clone(),
        ordinal_position: raw.ordinal_position,
        data_type: raw.data_type.clone(),
        full_type: raw.full_type.clone(),
        nullable: raw.nullable,
        default: crate::model::clone_opt(&raw.default),
        auto_increment,
        primary_key: primary,
        unique: unique || primary,
        comment,
        generated,
        expression,
    }
}

// ---------------------------------------------------------------------------
// Reading catalog rows
// ---------------------------------------------------------------------------

/// The server version from the row `SELECT @@VERSION` returned, if any.
pub fn version_from_row(version: Option<String>) -> (r: Result<String, DatabaseError>)
    ensures
        match version {
            Some(v) => r matches Ok(x) && x@ == v@,
            None => r matches Err(DatabaseError::Catalog(m)) && m@ == "@@VERSION returned no row"@,
        },
{
    match version {
        Some(v) => Ok(v),
        None => Err(DatabaseError::Catalog(owned("@@VERSION returned no row"))),
    }
}

/// The database name from the row `SELECT DB_NAME()` returned, if any.
pub fn database_name_from_row(name: Option<String>) -> (r: Result<String, DatabaseError>)
    ensures
        match name {
            Some(v) => r matches Ok(x) && x@ == v@,
            None => r matches Err(DatabaseError::Catalog(m)) && m@ == "DB_NAME() returned no row"@,
        },
{
    match name {
        Some(v) => Ok(v),
        None => Err(DatabaseError::Catalog(owned("DB_NAME() returned no row"))),
    }
}

/// The `TABLES` or `VIEWS` row with these values, or the catalog error
/// naming the first that is absent.
pub fn object_row(table_schema: Option<String>, table_name: Option<String>) -> (r: Result<
    QualifiedName,
    DatabaseError,
>)
    ensures
        table_schema is None ==> missing_error(r, "TABLE_SCHEMA"@),
        table_schema is Some && table_name is None ==> missing_error(r, "TABLE_NAME"@),
        table_schema is Some && table_name is Some ==> (r matches Ok(x) && x@ == (QualifiedNameSpec {
            schema: table_schema->0@,
            name: table_name->0@,
        })),
{
    let schema = match table_schema {
        Some(t) => t,
        None => return Err(missing("TABLE_SCHEMA")),
    };
    let name = match table_name {
        Some(t) => t,
        None => return Err(missing("TABLE_NAME")),
    };
    Ok(QualifiedName { schema, name })
}

/// The `COLUMNS` row with these values, or the catalog error naming the
/// first required value that is absent. `IS_NULLABLE` counts as `YES` only
/// when it says so.
pub fn column_row(
    table_schema: Option<String>,
    table_name: Option<String>,
    data_type: Option<String>,
    column_name: Option<String>,
    ordinal_position: Option<i32>,
    max_length: Option<i32>,
    precision: Option<u8>,
    scale: Option<i32>,
    datetime_precision: Option<u8>,
    is_nullable: Option<String>,
    column_default: Option<String>,
) -> (r: Result<RawColumn, DatabaseError>)
    ensures
        table_schema is None ==> missing_error(r, "TABLE_SCHEMA"@),
        table_schema is Some && table_name is None ==> missing_error(r, "TABLE_NAME"@),
        table_schema is Some && table_name is Some && data_type is None ==> missing_error(
            r,
            "DATA_TYPE"@,
        ),
        table_schema is Some && table_name is Some && data_type is Some && column_name is None
            ==> missing_error(r, "COLUMN_NAME"@),
        table_schema is Some && table_name is Some && data_type is Some && column_name is Some
            && ordinal_position is None ==> missing_error(r, "ORDINAL_POSITION"@),
        table_schema is Some && table_name is Some && data_type is Some && column_name is Some
            && ordinal_position is Some ==> (r matches Ok(c) && c@ == (RawColumnSpec {
            schema: table_schema->0@,
            table: table_name->0@,
            name: column_name->0@,
            ordinal_position: ordinal_position->0 as u32,
            data_type: data_type->0@,
            full_type: sql_type(data_type->0@, max_length, precision, scale, datetime_precision),
            nullable: (is_nullable matches Some(v) && v@ == "YES"@),
            default: column_default.deep_view(),
        })),
{
    let schema = match table_schema {
        Some(t) => t,
        None => return Err(missing("TABLE_SCHEMA")),
    };
    let table = match table_name {
        Some(t) => t,
        None => return Err(missing("TABLE_NAME")),
    };
    let data_type = match data_type {
        Some(t) => t,
        None => return Err(missing("DATA_TYPE")),
    };
    let full_type = full_sql_type(
        data_type.as_str(),
        max_length,
        precision,
        scale,
        datetime_precision,
    );
    let name = match column_name {
        Some(t) => t,
        None => return Err(missing("COLUMN_NAME")),
    };
    let ordinal: i32 = match ordinal_position {
        Some(t) => t,
        None => return Err(missing("ORDINAL_POSITION")),
    };
    let nullable = match &is_nullable {
        Some(v) => str_eq(v.as_str(), "YES"),
        None => false,
    };
    Ok(
        RawColumn {
            schema,
            table,
            name,
            ordinal_position: ordinal as u32,
            data_type,
            full_type,
            nullable,
            default: column_default,
        },
    )
}

/// The `sys.indexes` row with these values, or the catalog error naming
/// the first that is absent.
pub fn index_row(
    table_schema: Option<String>,
    table_name: Option<String>,
    index_name: Option<String>,
    is_unique: Option<bool>,
    is_primary_key: Option<bool>,
    column_name: Option<String>,
    key_ordinal: Option<u8>,
    index_type: Option<String>,
) -> (r: Result<RawIndex, DatabaseError>)
    ensures
        table_schema is None ==> missing_error(r, "table_schema"@),
        table_schema is Some && table_name is None ==> missing_error(r, "table_name"@),
        table_schema is Some && table_name is Some && index_name is None ==> missing_error(
            r,
            "index_name"@,
        ),
        table_schema is Some && table_name is Some && index_name is Some && is_unique is None
            ==> missing_error(r, "is_unique"@),
        table_schema is Some && table_name is Some && index_name is Some && is_unique is Some
            && is_primary_key is None ==> missing_error(r, "is_primary_key"@),
        table_schema is Some && table_name is Some && index_name is Some && is_unique is Some
            && is_primary_key is Some && column_name is None ==> missing_error(r, "column_name"@),
        table_schema is Some && table_name is Some && index_name is Some && is_unique is Some
            && is_primary_key is Some && column_name is Some && key_ordinal is None
            ==> missing_error(r, "key_ordinal"@),
        table_schema is Some && table_name is Some && index_name is Some && is_unique is Some
            && is_primary_key is Some && column_name is Some && key_ordinal is Some && index_type
            is None ==> missing_error(r, "index_type"@),
        table_schema is Some && table_name is Some && index_name is Some && is_unique is Some
            && is_primary_key is Some && column_name is Some && key_ordinal is Some && index_type
            is Some ==> (r matches Ok(x) && x@ == (RawIndexSpec {
            schema: table_schema->0@,
            table: table_name->0@,
            name: index_name->0@,
            unique: is_unique->0,
            primary: is_primary_key->0,
            column: column_name->0@,
            sequence: key_ordinal->0 as u32,
            index_type: index_type->0@,
        })),
{
    let schema = match table_schema {
        Some(t) => t,
        None => return Err(missing("table_schema")),
    };
    let table = match table_name {
        Some(t) => t,
        None => return Err(missing("table_name")),
    };
    let name = match index_name {
        Some(t) => t,
        None => return Err(missing("index_name")),
    };
    let unique = match is_unique {
        Some(t) => t,
        None => return Err(missing("is_unique")),
    };
    let primary = match is_primary_key {
        Some(t) => t,
        None => return Err(missing("is_primary_key")),
    };
    let column = match column_name {
        Some(t) => t,
        None => return Err(missing("column_name")),
    };
    let sequence: u8 = match key_ordinal {
        Some(t) => t,
        None => return Err(missing("key_ordinal")),
    };
    let index_type = match index_type {
        Some(t) => t,
        None => return Err(missing("index_type")),
    };
    Ok(RawIndex { schema, table, name, unique, primary, column, sequence: sequence as u32, index_type })
}

/// The `sys.foreign_keys` row with these values, or the catalog error
/// naming the first required value that is absent. Absent actions are
/// `NO ACTION`.
pub fn foreign_key_row(
    table_schema: Option<String>,
    table_name: Option<String>,
    constraint_name: Option<String>,
    column_name: Option<String>,
    ordinal: Option<i32>,
    referenced_schema_name: Option<String>,
    referenced_table_name: Option<String>,
    referenced_column_name: Option<String>,
    on_update: Option<String>,
    on_delete: Option<String>,
) -> (r: Result<RawForeignKey, DatabaseError>)
    ensures
        table_schema is None ==> missing_error(r, "table_schema"@),
        table_schema is Some && table_name is None ==> missing_error(r, "table_name"@),
        table_schema is Some && table_name is Some && constraint_name is None ==> missing_error(
            r,
            "constraint_name"@,
        ),
        table_schema is Some && table_name is Some && constraint_name is Some && column_name
            is None ==> missing_error(r, "column_name"@),
        table_schema is Some && table_name is Some && constraint_name is Some && column_name
            is Some && ordinal is None ==> missing_error(r, "ordinal"@),
        table_schema is Some && table_name is Some && constraint_name is Some && column_name
            is Some && ordinal is Some && referenced_schema_name is None ==> missing_error(
            r,
            "referenced_schema_name"@,
        ),
        table_schema is Some && table_name is Some && constraint_name is Some && column_name
            is Some && ordinal is Some && referenced_schema_name is Some && referenced_table_name
            is None ==> missing_error(r, "referenced_table_name"@),
        table_schema is Some && table_name is Some && constraint_name is Some && column_name
            is Some && ordinal is Some && referenced_schema_name is Some && referenced_table_name
            is Some && referenced_column_name is None ==> missing_error(
            r,
            "referenced_column_name"@,
        ),
        table_schema is Some && table_name is Some && constraint_name is Some && column_name
            is Some && ordinal is Some && referenced_schema_name is Some && referenced_table_name
            is Some && referenced_column_name is Some ==> (r matches Ok(x) && x@ == (
        RawForeignKeySpec {
            schema: table_schema->0@,
            table: table_name->0@,
            name: constraint_name->0@,
            column: column_name->0@,
            sequence: ordinal->0 as u32,
            referenced_schema: referenced_schema_name->0@,
            referenced_table: referenced_table_name->0@,
            referenced_column: referenced_column_name->0@,
            on_update: match on_update {
                Some(t) => t@,
                None => "NO ACTION"@,
            },
            on_delete: match on_delete {
                Some(t) => t@,
                None => "NO ACTION"@,
            },
        })),
{
    let schema = match table_schema {
        Some(t) => t,
        None => return Err(missing("table_schema")),
    };
    let table = match table_name {
        Some(t) => t,
        None => return Err(missing("table_name")),
    };
    let name = match constraint_name {
        Some(t) => t,
        None => return Err(missing("constraint_name")),
    };
    let column = match column_name {
        Some(t) => t,
        None => return Err(missing("column_name")),
    };
    let sequence: i32 = match ordinal {
        Some(t) => t,
        None => return Err(missing("ordinal")),
    };
    let referenced_schema = match referenced_schema_name {
        Some(t) => t,
        None => return Err(missing("referenced_schema_name")),
    };
    let referenced_table = match referenced_table_name {
        Some(t) => t,
        None => return Err(missing("referenced_table_name")),
    };
    let referenced_column = match referenced_column_name {
        Some(t) => t,
        None => return Err(missing("referenced_column_name")),
    };
    let on_update = match on_update {
        Some(t) => t,
        None => owned("NO ACTION"),
    };
    let on_delete = match on_delete {
        Some(t) => t,
        None => owned("NO ACTION"),
    };
    Ok(
        RawForeignKey {
            schema,
            table,
            name,
            column,
            sequence: sequence as u32,
            referenced_schema,
            referenced_table,
            referenced_column,
            on_update,
            on_delete,
        },
    )
}

/// The `sys.identity_columns` row with these values, or the catalog error
/// naming the first that is absent.
pub fn identity_row(
    table_schema: Option<String>,
    table_name: Option<String>,
    column_name: Option<String>,
) -> (r: Result<ColumnKey, DatabaseError>)
    ensures
        table_schema is None ==> missing_error(r, "table_schema"@),
        table_schema is Some && table_name is None ==> missing_error(r, "table_name"@),
        table_schema is Some && table_name is Some && column_name is None ==> missing_error(
            r,
            "column_name"@,
        ),
        table_schema is Some && table_name is Some && column_name is Some ==> (r matches Ok(x)
            && x@ == (ColumnKeySpec {
            schema: table_schema->0@,
            table: table_name->0@,
            column: column_name->0@,
        })),
{
    let schema = match table_schema {
        Some(t) => t,
        None => return Err(missing("table_schema")),
    };
    let table = match table_name {
        Some(t) => t,
        None => return Err(missing("table_name")),
    };
    let column = match column_name {
        Some(t) => t,
        None => return Err(missing("column_name")),
    };
    Ok(ColumnKey { schema, table, column })
}

/// A row that gives text about a column (`value_name` names the text: a
/// description or an expression), or the catalog error naming the first
/// value that is absent.
pub fn column_text_row(
    table_schema: Option<String>,
    table_name: Option<String>,
    column_name: Option<String>,
    value: Option<String>,
    value_name: &str,
) -> (r: Result<ColumnText, DatabaseError>)
    ensures
        table_schema is None ==> missing_error(r, "table_schema"@),
        table_schema is Some && table_name is None ==> missing_error(r, "table_name"@),
        table_schema is Some && table_name is Some && column_name is None ==> missing_error(
            r,
            "column_name"@,
        ),
        table_schema is Some && table_name is Some && column_name is Some && value is None
            ==> missing_error(r, value_name@),
        table_schema is Some && table_name is Some && column_name is Some && value is Some ==> (
        r matches Ok(x) && x@ == (ColumnTextSpec {
            schema: table_schema->0@,
            table: table_name->0@,
            column: column_name->0@,
            text: value->0@,
        })),
{
    let schema = match table_schema {
        Some(t) => t,
        None => return Err(missing("table_schema")),
    };
    let table = match table_name {
        Some(t) => t,
        None => return Err(missing("table_name")),
    };
    let column = match column_name {
        Some(t) => t,
        None => return Err(missing("column_name")),
    };
    let text = match value {
        Some(t) => t,
        None => return Err(missing(value_name)),
    };
    Ok(ColumnText { schema, table, column, text })
}

/// The description the catalog records for a table.
#[derive(Debug)]
pub struct TableText {
    pub schema: String,
    pub table: String,
    pub text: String,
}

pub struct TableTextSpec {
    pub schema: Seq<char>,
    pub table: Seq<char>,
    pub text: Seq<char>,
}

impl View for TableText {
    type V = TableTextSpec;

    open spec fn view(&self) -> TableTextSpec {
        TableTextSpec { schema: self.schema@, table: self.table@, text: self.text@ }
    }
}

impl DeepView for TableText {
    type V = TableTextSpec;

    open spec fn deep_view(&self) -> TableTextSpec {
        self@
    }
}

/// The table description row with these values, or the catalog error
/// naming the first that is absent.
pub fn table_comment_row(
    table_schema: Option<String>,
    table_name: Option<String>,
    comment: Option<String>,
) -> (r: Result<TableText, DatabaseError>)
    ensures
        table_schema is None ==> missing_error(r, "table_schema"@),
        table_schema is Some && table_name is None ==> missing_error(r, "table_name"@),
        table_schema is Some && table_name is Some && comment is None ==> missing_error(
            r,
            "comment"@,
        ),
        table_schema is Some && table_name is Some && comment is Some ==> (r matches Ok(x) && x@
            == (TableTextSpec {
            schema: table_schema->0@,
            table: table_name->0@,
            text: comment->0@,
        })),
{
    let schema = match table_schema {
        Some(t) => t,
        None => return Err(missing("table_schema")),
    };
    let table = match table_name {
        Some(t) => t,
        None => return Err(missing("table_name")),
    };
    let text = match comment {
        Some(t) => t,
        None => return Err(missing("comment")),
    };
    Ok(TableText { schema, table, text })
}

// ---------------------------------------------------------------------------
// The database
// ---------------------------------------------------------------------------

/// Everything the catalog of one SQL Server database says, as read.
#[derive(Debug)]
pub struct Catalog {
    /// What `DB_NAME()` returned.
    pub database: String,
    /// What `@@VERSION` returned.
    pub version: String,
    /// The database collation.
    pub default_collation: Option<String>,
    /// Base tables.
    pub tables: Vec<QualifiedName>,
    /// Views.
    pub views: Vec<QualifiedName>,
    /// Columns of tables and views.
    pub columns: Vec<RawColumn>,
    /// Index rows.
    pub indexes: Vec<RawIndex>,
    /// Foreign key rows.
    pub foreign_keys: Vec<RawForeignKey>,
    /// Identity columns.
    pub identities: Vec<ColumnKey>,
    /// Table descriptions.
    pub table_comments: Vec<TableText>,
    /// Column descriptions.
    pub column_comments: Vec<ColumnText>,
    /// Expressions of computed columns.
    pub computed: Vec<ColumnText>,
}

pub struct CatalogSpec {
    pub database: Seq<char>,
    pub version: Seq<char>,
    pub default_collation: Option<Seq<char>>,
    pub tables: Seq<QualifiedNameSpec>,
    pub views: Seq<QualifiedNameSpec>,
    pub columns: Seq<RawColumnSpec>,
    pub indexes: Seq<RawIndexSpec>,
    pub foreign_keys: Seq<RawForeignKeySpec>,
    pub identities: Seq<ColumnKeySpec>,
    pub table_comments: Seq<TableTextSpec>,
    pub column_comments: Seq<ColumnTextSpec>,
    pub computed: Seq<ColumnTextSpec>,
}

impl View for Catalog {
    type V = CatalogSpec;

    open spec fn view(&self) -> CatalogSpec {
        CatalogSpec {
            database: self.database@,
            version: self.version@,
            default_collation: self.default_collation.deep_view(),
            tables: self.tables.deep_view(),
            views: self.views.deep_view(),
            columns: self.columns.deep_view(),
            indexes: self.indexes.deep_view(),
            foreign_keys: self.foreign_keys.deep_view(),
            identities: self.identities.deep_view(),
            table_comments: self.table_comments.deep_view(),
            column_comments: self.column_comments.deep_view(),
            computed: self.computed.deep_view(),
        }
    }
}

/// The last description `notes` holds for table `schema`.`table`, if any.
pub open spec fn last_table_text(notes: Seq<TableTextSpec>, schema: Seq<char>, table: Seq<char>) -> Option<
    Seq<char>,
>
    decreases notes.len(),
{
    if notes.len() == 0 {
        None
    } else if notes.last().schema == schema && notes.last().table == table {
        Some(notes.last().text)
    } else {
        last_table_text(notes.drop_last(), schema, table)
    }
}

/// Whether a column row belongs to table or view `schema`.`name`.
pub open spec fn column_of(schema: Seq<char>, name: Seq<char>) -> spec_fn(RawColumnSpec) -> bool {
    |r: RawColumnSpec| r.schema == schema && r.table == name
}

/// The columns of table or view `schema`.`name`, in catalog order.
pub open spec fn columns_of(c: CatalogSpec, schema: Seq<char>, name: Seq<char>) -> Seq<ColumnSpec> {
    keep(c.columns, column_of(schema, name)).map_values(
        |r: RawColumnSpec| sqlserver_column(r, c.indexes, c.identities, c.column_comments, c.computed),
    )
}

/// Table `t` as the catalog describes it.
pub open spec fn catalog_table(c: CatalogSpec, t: QualifiedNameSpec) -> TableSpec {
    TableSpec {
        schema: t.schema,
        name: t.name,
        engine: None,
        charset: None,
        collation: None,
        comment: last_table_text(c.table_comments, t.schema, t.name),
        columns: columns_of(c, t.schema, t.name),
        indexes: table_indexes(c.indexes, t.schema, t.name, true),
        foreign_keys: table_foreign_keys(c.foreign_keys, t.schema, t.name),
        analysis: None,
        ai: None,
    }
}

/// View `v` as the catalog describes it.
pub open spec fn catalog_view(c: CatalogSpec, v: QualifiedNameSpec) -> SchemaViewSpec {
    SchemaViewSpec { schema: v.schema, name: v.name, columns: columns_of(c, v.schema, v.name) }
}

/// The database the catalog describes, before sorting.
pub open spec fn catalog_database(c: CatalogSpec, generated_at: Seq<char>) -> DatabaseSpec {
    DatabaseSpec {
        header: header_of(Database::FORMAT@, generated_at),
        metadata: DatabaseMetadataSpec {
            database: c.database,
            engine: Engine::Sqlserver,
            engine_version: c.version,
            default_charset: None,
            default_collation: c.default_collation,
        },
        tables: c.tables.map_values(|t: QualifiedNameSpec| catalog_table(c, t)),
        views: c.views.map_values(|v: QualifiedNameSpec| catalog_view(c, v)),
    }
}

/// The columns of table or view `schema`.`name`, in catalog order.
fn columns_for(catalog: &Catalog, schema: &str, name: &str) -> (r: Vec<Column>)
    ensures
        r.deep_view() == columns_of(catalog@, schema@, name@),
{
    let ghost c = catalog@;
    let ghost all = c.columns;
    let ghost p = column_of(schema@, name@);
    let ghost f = |r: RawColumnSpec|
        sqlserver_column(r, c.indexes, c.identities, c.column_comments, c.computed);
    let mut out: Vec<Column> = Vec::new();
    let mut i: usize = 0;
    while i < catalog.columns.len()
        invariant
            c == catalog@,
            all == c.columns,
            all.len() == catalog.columns.len(),
            p == column_of(schema@, name@),
            f == (|r: RawColumnSpec|
                sqlserver_column(r, c.indexes, c.identities, c.column_comments, c.computed)),
            i <= catalog.columns.len(),
            out.deep_view() == keep(all.take(i as int), p).map_values(f),
        decreases catalog.columns.len() - i,
    {
        let raw = &catalog.columns[i];
        proof {
            assert(all.take(i + 1).drop_last() =~= all.take(i as int));
            assert(all.take(i + 1).last() == raw@);
        }
        if str_eq(raw.schema.as_str(), schema) && str_eq(raw.table.as_str(), name) {
            let x = to_column(
                raw,
                &catalog.indexes,
                &catalog.identities,
                &catalog.column_comments,
                &catalog.computed,
            );
            let ghost before = out;
            out.push(x);
            proof {
                crate::model::lemma_push_deep_view(before, out, x);
                assert(keep(all.take(i as int), p).push(raw@).map_values(f) =~= keep(
                    all.take(i as int),
                    p,
                ).map_values(f).push(f(raw@)));
            }
        }
        i = i + 1;
    }
    assert(all.take(i as int) =~= all);
    out
}

/// The last description `notes` holds for table `schema`.`table`.
fn find_table_text(notes: &Vec<TableText>, schema: &str, table: &str) -> (r: Option<String>)
    ensures
        r.deep_view() == last_table_text(notes.deep_view(), schema@, table@),
{
    let ghost nv = notes.deep_view();
    let mut i: usize = notes.len();
    assert(nv.take(i as int) =~= nv);
    while i > 0
        invariant
            nv == notes.deep_view(),
            i <= notes.len(),
            last_table_text(nv, schema@, table@) == last_table_text(
                nv.take(i as int),
                schema@,
                table@,
            ),
        decreases i,
    {
        let x = &notes[i - 1];
        assert(nv.take(i as int).last() == x@);
        assert(nv.take(i as int).drop_last() =~= nv.take(i - 1));
        if str_eq(x.schema.as_str(), schema) && str_eq(x.table.as_str(), table) {
            return Some(x.text.clone());
        }
        i = i - 1;
    }
    None
}

/// The database the catalog describes, stamped `generated_at`, sorted into
/// document order.
pub fn build_database(catalog: &Catalog, generated_at: &str) -> (r: Database)
    ensures
        r@ == sorted_database(catalog_database(catalog@, generated_at@)),
{
    let ghost c = catalog@;
    let mut tables: Vec<Table> = Vec::new();
    let mut i: usize = 0;
    while i < catalog.tables.len()
        invariant
            c == catalog@,
            c.tables.len() == catalog.tables.len(),
            i <= catalog.tables.len(),
            tables.deep_view() == c.tables.take(i as int).map_values(
                |t: QualifiedNameSpec| catalog_table(c, t),
            ),
        decreases catalog.tables.len() - i,
    {
        let schema = catalog.tables[i].schema.as_str();
        let name = catalog.tables[i].name.as_str();
        let x = Table {
            schema: owned(schema),
            name: owned(name),
            engine: None,
            charset: None,
            collation: None,
            comment: find_table_text(&catalog.table_comments, schema, name),
            columns: columns_for(catalog, schema, name),
            indexes: indexes_for_table(schema, name, &catalog.indexes, true),
            foreign_keys: foreign_keys_for_table(schema, name, &catalog.foreign_keys),
            analysis: None,
            ai: None,
        };
        let ghost before = tables;
        tables.push(x);
        proof {
            crate::model::lemma_push_deep_view(before, tables, x);
            assert(c.tables.take(i + 1) =~= c.tables.take(i as int).push(c.tables[i as int]));
        }
        i = i + 1;
    }
    assert(c.tables.take(i as int) =~= c.tables);
    let mut views: Vec<SchemaView> = Vec::new();
    let mut j: usize = 0;
    while j < catalog.views.len()
        invariant
            c == catalog@,
            c.views.len() == catalog.views.len(),
            j <= catalog.views.len(),
            views.deep_view() == c.views.take(j as int).map_values(
                |v: QualifiedNameSpec| catalog_view(c, v),
            ),
        decreases catalog.views.len() - j,
    {
        let schema = catalog.views[j].schema.as_str();
        let name = catalog.views[j].name.as_str();
        let x = SchemaView {
            schema: owned(schema),
            name: owned(name),
            columns: columns_for(catalog, schema, name),
        };
        let ghost before = views;
        views.push(x);
        proof {
            crate::model::lemma_push_deep_view(before, views, x);
            assert(c.views.take(j + 1) =~= c.views.take(j as int).push(c.views[j as int]));
        }
        j = j + 1;
    }
    assert(c.views.take(j as int) =~= c.views);
    let mut database = Database {
        header: DocumentHeader::new(Database::FORMAT, generated_at),
        metadata: DatabaseMetadata {
            database: catalog.database.clone(),
            engine: Engine::Sqlserver,
            engine_version: catalog.version.clone(),
            default_charset: None,
            default_collation: crate::model::clone_opt(&catalog.default_collation),
        },
        tables,
        views,
    };
    assert(database@ == catalog_database(c, generated_at@));
    database.sort();
    database
}

/// A SQL Server column keeps what the catalog reports of it (name,
/// position, types, nullability and default); it is part of the primary
/// key exactly when an index row of its table puts it there, and a primary
/// key column counts as unique; it is auto-increment exactly when it is
/// listed as an identity, and generated exactly when it has a computed
/// expression.
pub proof fn law_sqlserver_columns_keep_the_catalog_facts(
    raw: RawColumnSpec,
    indexes: Seq<crate::database::RawIndexSpec>,
    identities: Seq<ColumnKeySpec>,
    comments: Seq<ColumnTextSpec>,
    computed: Seq<ColumnTextSpec>,
)
    ensures
        ({
            let c = sqlserver_column(raw, indexes, identities, comments, computed);
            &&& c.name == raw.name
            &&& c.ordinal_position == raw.ordinal_position
            &&& c.data_type == raw.data_type
            &&& c.full_type == raw.full_type
            &&& c.nullable == raw.nullable
            &&& c.default == raw.default
            &&& (c.primary_key <==> exists|k: int|
                0 <= k < indexes.len() && (#[trigger] indexes[k]).schema == raw.schema && indexes[k].table == raw.table
                    && indexes[k].primary && indexes[k].column == raw.name)
            &&& (c.primary_key ==> c.unique)
        }),
        sqlserver_column(raw, indexes, identities, comments, computed).auto_increment <==> exists|k: int|
            0 <= k < identities.len() && (#[trigger] identities[k]).schema == raw.schema
                && identities[k].table == raw.table && identities[k].column == raw.name,
        sqlserver_column(raw, indexes, identities, comments, computed).generated == (sqlserver_column(
            raw,
            indexes,
            identities,
            comments,
            computed,
        ).expression is Some),
{
}

/// The full type of a SQL Server column: a character type with a length
/// that is not negative shows it, as in `varchar(255)`; otherwise a
/// number with a precision shows precision and scale (scale 0 when none
/// is given), as in `decimal(10,2)`; otherwise a date or time with a
/// precision shows it; otherwise the bare type name. It always begins with
/// the bare type name.
pub proof fn law_sql_types_show_their_sizes(
    data_type: Seq<char>,
    max_length: Option<i32>,
    precision: Option<u8>,
    scale: Option<i32>,
    datetime_precision: Option<u8>,
)
    ensures
        max_length is Some && max_length->0 >= 0 ==> sql_type(
            data_type,
            max_length,
            precision,
            scale,
            datetime_precision,
        ) == data_type + "("@ + decimal(max_length->0 as nat) + ")"@,
        !(max_length is Some && max_length->0 >= 0) && precision is Some ==> sql_type(
            data_type,
            max_length,
            precision,
            scale,
            datetime_precision,
        ) == data_type + "("@ + decimal(precision->0 as nat) + ","@ + signed_decimal(
            match scale {
                Some(s) => s as int,
                None => 0,
            },
        ) + ")"@,
        !(max_length is Some && max_length->0 >= 0) && precision is None && datetime_precision is Some
            ==> sql_type(data_type, max_length, precision, scale, datetime_precision) == data_type + "("@
            + decimal(datetime_precision->0 as nat) + ")"@,
        !(max_length is Some && max_length->0 >= 0) && precision is None && datetime_precision is None
            ==> sql_type(data_type, max_length, precision, scale, datetime_precision) == data_type,
        sql_type(data_type, max_length, precision, scale, datetime_precision).take(data_type.len() as int)
            == data_type,
{
    let r = sql_type(data_type, max_length, precision, scale, datetime_precision);
    assert(r.take(data_type.len() as int) =~= data_type);
}

} // verus!
