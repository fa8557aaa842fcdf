//! SQLite: what `sqlite_master` and the `PRAGMA` family say of a main
//! database and the databases attached to it, in the canonical model.
//!
//! The first database is `main`; the rest are attached in order as
//! `attach1`, `attach2`, and so on.
use vstd::prelude::*;

use crate::database::{distinct, keep, lemma_distinct_from, lemma_keep_has, lemma_keep_step};
use crate::model::{
    header_of, sorted_database, Column, ColumnSpec, Database, DatabaseMetadata,
    DatabaseMetadataSpec, DatabaseSpec, DocumentHeader, Engine, ForeignKey, ForeignKeySpec, Index,
    IndexSpec, SchemaView, SchemaViewSpec, Table, TableSpec,
};
use crate::order::{
    lemma_sorted_by, lemma_sorted_by_len, sorted_by, stable_sort, view_keyed, KeyPart, Keyed,
};
use crate::text::{
    ascii_lowercase, chars_of, decimal, decimal_string, owned, push_char, push_str,
    signed_decimal, signed_decimal_string, str_eq, string_from_chars, to_ascii_lowercase, trim,
    trim_chars,
};

verus! {

// ---------------------------------------------------------------------------
// Names
// ---------------------------------------------------------------------------

/// The schema the database at position `index` of the configured list is
/// known by: `main` for the first, `attach1`, `attach2`, ... for the rest.
pub open spec fn attached_schema(index: nat) -> Seq<char> {
    if index == 0 {
        "main"@
    } else {
        "attach"@ + decimal(index)
    }
}

/// The schema the database at position `index` is known by.
pub fn schema_name(index: usize) -> (r: String)
    ensures
        r@ == attached_schema(index as nat),
{
    if index == 0 {
        owned("main")
    } else {
        let mut out = owned("attach");
        let digits = decimal_string(index);
        push_str(&mut out, digits.as_str());
        out
    }
}

/// `s` with every double quote doubled.
pub open spec fn doubled_quotes(s: Seq<char>) -> Seq<char>
    decreases s.len(),
{
    if s.len() == 0 {
        Seq::empty()
    } else {
        doubled_quotes(s.drop_last()) + if s.last() == '"' {
            seq!['"', '"']
        } else {
            seq![s.last()]
        }
    }
}

/// `name` as a quoted SQLite identifier, which a `PRAGMA` statement can
/// name a table by.
pub open spec fn quoted_ident(name: Seq<char>) -> Seq<char> {
    seq!['"'] + doubled_quotes(name) + seq!['"']
}

/// `name` as a quoted SQLite identifier.
pub fn quote_ident(name: &str) -> (r: String)
    ensures
        r@ == quoted_ident(name@),
{
    let chars = chars_of(name);
    let mut out = String::new();
    push_char(&mut out, '"');
    let mut i: usize = 0;
    while i < chars.len()
        invariant
            i <= chars.len(),
            out@ == seq!['"'] + doubled_quotes(chars@.take(i as int)),
        decreases chars.len() - i,
    {
        assert(chars@.take(i + 1).drop_last() =~= chars@.take(i as int));
        assert(chars@.take(i + 1).last() == chars[i as int]);
        if chars[i] == '"' {
            push_char(&mut out, '"');
            push_char(&mut out, '"');
        } else {
            push_char(&mut out, chars[i]);
        }
        i = i + 1;
        assert(out@ =~= seq!['"'] + doubled_quotes(chars@.take(i as int)));
    }
    assert(chars@.take(i as int) =~= name@);
    push_char(&mut out, '"');
    out
}

// ---------------------------------------------------------------------------
// Columns and indexes
// ---------------------------------------------------------------------------

/// One column, as `PRAGMA table_xinfo` describes it.
#[derive(Debug)]
pub struct RawColumn {
    /// Column name.
    pub name: String,
    /// One-based position within the table.
    pub ordinal_position: u32,
    /// Declared type, as written.
    pub decl_type: String,
    /// Whether the column is declared `NOT NULL`.
    pub notnull: bool,
    /// Declared default.
    pub dflt_value: Option<String>,
    /// Position in the primary key, or 0.
    pub pk: i64,
    /// 0 for an ordinary column, 2 or 3 for a generated one.
    pub hidden: i64,
}

pub struct RawColumnSpec {
    pub name: Seq<char>,
    pub ordinal_position: u32,
    pub decl_type: Seq<char>,
    pub notnull: bool,
    pub dflt_value: Option<Seq<char>>,
    pub pk: i64,
    pub hidden: i64,
}

impl View for RawColumn {
    type V = RawColumnSpec;

    open spec fn view(&self) -> RawColumnSpec {
        RawColumnSpec {
            name: self.name@,
            ordinal_position: self.ordinal_position,
            decl_type: self.decl_type@,
            notnull: self.notnull,
            dflt_value: self.dflt_value.deep_view(),
            pk: self.pk,
            hidden: self.hidden,
        }
    }
}

impl DeepView for RawColumn {
    type V = RawColumnSpec;

    open spec fn deep_view(&self) -> RawColumnSpec {
        self@
    }
}

/// One index of a table, as `PRAGMA index_list` and `index_info` describe
/// it.
#[derive(Debug)]
pub struct RawIndex {
    /// Index name.
    pub name: String,
    /// Whether the index enforces uniqueness.
    pub unique: bool,
    /// How the index came to be: `c`, `u` or `pk`.
    pub origin: String,
    /// Indexed columns, in index order.
    pub columns: Vec<String>,
}

pub struct RawIndexSpec {
    pub name: Seq<char>,
    pub unique: bool,
    pub origin: Seq<char>,
    pub columns: Seq<Seq<char>>,
}

impl View for RawIndex {
    type V = RawIndexSpec;

    open spec fn view(&self) -> RawIndexSpec {
        RawIndexSpec {
            name: self.name@,
            unique: self.unique,
            origin: self.origin@,
            columns: self.columns.deep_view(),
        }
    }
}

impl DeepView for RawIndex {
    type V = RawIndexSpec;

    open spec fn deep_view(&self) -> RawIndexSpec {
        self@
    }
}

/// The position of the first `(` in `s` at or after `i`, or the length.
pub open spec fn paren_from(s: Seq<char>, i: int) -> int
    decreases s.len() - i,
{
    if i < 0 || i >= s.len() {
        s.len() as int
    } else if s[i] == '(' {
        i
    } else {
        paren_from(s, i + 1)
    }
}

/// The type name a declared type begins with: what comes before its first
/// `(`, trimmed.
pub open spec fn bare_type(decl: Seq<char>) -> Seq<char> {
    trim(decl.take(paren_from(decl, 0)))
}

/// Whether a unique index of `indexes` covers just the column `name`.
pub open spec fn sole_unique(indexes: Seq<RawIndexSpec>, name: Seq<char>) -> bool {
    exists|k: int|
        0 <= k < indexes.len() && (#[trigger] indexes[k]).unique && indexes[k].columns == seq![
            name,
        ]
}

/// The model column for `raw`, a column of a table with indexes
/// `indexes`: the bare type is the type name, a hidden column of kind 2 or
/// 3 is generated, a primary key column is unique, and an `INTEGER`
/// primary key without a default is auto-increment.
pub open spec fn sqlite_column(raw: RawColumnSpec, indexes: Seq<RawIndexSpec>) -> ColumnSpec {
    let bare = bare_type(raw.decl_type);
    let primary = raw.pk > 0;
    ColumnSpec {
        name: raw.name,
        ordinal_position: raw.ordinal_position,
        data_type: bare,
        full_type: raw.decl_type,
        nullable: !raw.notnull,
        default: raw.dflt_value,
        auto_increment: primary && ascii_lowercase(bare) == "integer"@ && raw.dflt_value is None,
        primary_key: primary,
        unique: primary || sole_unique(indexes, raw.name),
        comment: None,
        generated: raw.hidden == 2 || raw.hidden == 3,
        expression: None,
    }
}

/// The type name a declared type begins with.
fn bare_type_of(decl: &str) -> (r: String)
    ensures
        r@ == bare_type(decl@),
{
    let chars = chars_of(decl);
    let mut p: usize = 0;
    assert(paren_from(chars@, 0) == paren_from(chars@, p as int));
    while p < chars.len() && chars[p] != '('
        invariant
            p <= chars.len(),
            paren_from(chars@, 0) == paren_from(chars@, p as int),
        decreases chars.len() - p,
    {
        p = p + 1;
    }
    let mut head: Vec<char> = Vec::new();
    let mut i: usize = 0;
    while i < p
        invariant
            i <= p <= chars.len(),
            head@ == chars@.take(i as int),
        decreases p - i,
    {
        head.push(chars[i]);
        i = i + 1;
        assert(head@ =~= chars@.take(i as int));
    }
    let trimmed = trim_chars(&head);
    string_from_chars(&trimmed)
}

/// Whether a unique index of `indexes` covers just the column `name`.
fn has_sole_unique(indexes: &Vec<RawIndex>, name: &str) -> (r: bool)
    ensures
        r == sole_unique(indexes.deep_view(), name@),
{
    let ghost iv = indexes.deep_view();
    let mut k: usize = 0;
    while k < indexes.len()
        invariant
            iv == indexes.deep_view(),
            k <= indexes.len(),
            forall|j: int|
                0 <= j < k ==> !((#[trigger] iv[j]).unique && iv[j].columns == seq![name@]),
        decreases indexes.len() - k,
    {
        let x = &indexes[k];
        assert(iv[k as int] == x@);
        if x.unique && x.columns.len() == 1 && str_eq(x.columns[0].as_str(), name) {
            assert(x@.columns =~= seq![name@]);
            return true;
        }
        proof {
            if x@.unique && x@.columns == seq![name@] {
                assert(x.columns.deep_view().len() == 1);
                assert(x.columns@.len() == x.columns.deep_view().len());
                assert(x.columns.deep_view()[0] == x.columns@[0]@);
            }
        }
        k = k + 1;
    }
    false
}

/// The model column for `raw`.
pub fn to_column(raw: &RawColumn, indexes: &Vec<RawIndex>) -> (r: Column)
    ensures
        r@ == sqlite_column(raw@, indexes.deep_view()),
{
    let bare = bare_type_of(raw.decl_type.as_str());
    let primary = raw.pk > 0;
    let lower = to_ascii_lowercase(bare.as_str());
    let auto_increment = primary && str_eq(lower.as_str(), "integer") && raw.dflt_value.is_none();
    let unique = primary || has_sole_unique(indexes, raw.name.as_str());
    Column {
        name: raw.name.clone(),
        ordinal_position: raw.ordinal_position,
        data_type: bare,
        full_type: raw.decl_type.clone(),
        nullable: !raw.notnull,
        default: crate::model::clone_opt(&raw.dflt_value),
        auto_increment,
        primary_key: primary,
        unique,
        comment: None,
        generated: raw.hidden == 2 || raw.hidden == 3,
        expression: None,
    }
}

/// The model index for `raw`: SQLite indexes are B-trees.
pub open spec fn sqlite_index(raw: RawIndexSpec) -> IndexSpec {
    IndexSpec { name: raw.name, unique: raw.unique, columns: raw.columns, index_type: "BTREE"@ }
}

/// The model indexes for `raws`, in their order.
pub fn indexes_from_raw(raws: &Vec<RawIndex>) -> (r: Vec<Index>)
    ensures
        r.deep_view() == raws.deep_view().map_values(|x: RawIndexSpec| sqlite_index(x)),
{
    let ghost rv = raws.deep_view();
    let mut out: Vec<Index> = Vec::new();
    let mut i: usize = 0;
    while i < raws.len()
        invariant
            rv == raws.deep_view(),
            i <= raws.len(),
            out.deep_view() == rv.take(i as int).map_values(|x: RawIndexSpec| sqlite_index(x)),
        decreases raws.len() - i,
    {
        let x = &raws[i];
        let index = Index {
            name: x.name.clone(),
            unique: x.unique,
            columns: crate::model::clone_strings(&x.columns),
            index_type: owned("BTREE"),
        };
        let ghost before = out;
        out.push(index);
        proof {
            crate::model::lemma_push_deep_view(before, out, index);
            assert(rv.take(i + 1) =~= rv.take(i as int).push(rv[i as int]));
            assert(rv[i as int] == x@);
        }
        i = i + 1;
    }
    assert(rv.take(i as int) =~= rv);
    out
}

/// One row of `PRAGMA index_info`: a position in the index, and the column
/// there, absent for an expression.
#[derive(Debug)]
pub struct IndexColumn {
    pub seqno: i64,
    pub name: Option<String>,
}

pub struct IndexColumnSpec {
    pub seqno: i64,
    pub name: Option<Seq<char>>,
}

impl View for IndexColumn {
    type V = IndexColumnSpec;

    open spec fn view(&self) -> IndexColumnSpec {
        IndexColumnSpec { seqno: self.seqno, name: self.name.deep_view() }
    }
}

impl DeepView for IndexColumn {
    type V = IndexColumnSpec;

    open spec fn deep_view(&self) -> IndexColumnSpec {
        self@
    }
}

impl Keyed for IndexColumn {
    open spec fn view_key(v: IndexColumnSpec) -> Seq<KeyPart> {
        seq![KeyPart::Num(v.seqno as int)]
    }

    fn key_le(&self, other: &Self) -> (r: bool) {
        proof {
            let x = Self::view_key(other.deep_view());
            let y = Self::view_key(self.deep_view());
            crate::order::lemma_key_lt_step(x, y);
            crate::order::lemma_key_lt_nil(x.drop_first(), y.drop_first());
        }
        self.seqno <= other.seqno
    }
}

/// The named columns of `info`, in its order.
pub open spec fn named_columns(info: Seq<IndexColumnSpec>) -> Seq<Seq<char>>
    decreases info.len(),
{
    if info.len() == 0 {
        Seq::empty()
    } else {
        named_columns(info.drop_last()) + match info.last().name {
            Some(n) => seq![n],
            None => Seq::empty(),
        }
    }
}

/// The index named `name` with the columns `info` lists, in position
/// order, when at least one of them is a named column; an index over
/// expressions only is nothing the canonical model can express.
pub open spec fn index_entry_of(
    name: Seq<char>,
    unique: bool,
    origin: Seq<char>,
    info: Seq<IndexColumnSpec>,
) -> Option<RawIndexSpec> {
    let columns = named_columns(sorted_by(info, view_keyed::<IndexColumn>()));
    if columns.len() == 0 {
        None
    } else {
        Some(RawIndexSpec { name, unique, origin, columns })
    }
}

/// The index named `name` with the columns `info` lists, if it has a named
/// column.
pub fn index_entry(name: String, unique: bool, origin: String, info: Vec<IndexColumn>) -> (r: Option<
    RawIndex,
>)
    ensures
        match r {
            Some(x) => index_entry_of(name@, unique, origin@, info.deep_view()) == Some(x@),
            None => index_entry_of(name@, unique, origin@, info.deep_view()) is None,
        },
{
    let mut info = info;
    stable_sort(&mut info);
    let ghost sv = info.deep_view();
    let mut columns: Vec<String> = Vec::new();
    let mut i: usize = 0;
    while i < info.len()
        invariant
            sv == info.deep_view(),
            i <= info.len(),
            columns.deep_view() == named_columns(sv.take(i as int)),
        decreases info.len() - i,
    {
        assert(sv.take(i + 1).drop_last() =~= sv.take(i as int));
        assert(sv.take(i + 1).last() == info[i as int]@);
        match &info[i].name {
            Some(n) => {
                let x = n.clone();
                let ghost before = columns;
                columns.push(x);
                proof {
                    crate::model::lemma_push_deep_view(before, columns, x);
                }
            },
            None => {},
        }
        i = i + 1;
        assert(columns.deep_view() =~= named_columns(sv.take(i as int)));
    }
    assert(sv.take(i as int) =~= sv);
    if columns.len() == 0 {
        assert(columns.deep_view().len() == 0);
        None
    } else {
        Some(RawIndex { name, unique, origin, columns })
    }
}

// ---------------------------------------------------------------------------
// Foreign keys
// ---------------------------------------------------------------------------

/// One column of one foreign key, as `PRAGMA foreign_key_list` describes
/// it. SQLite reports no constraint name, only a number per table.
#[derive(Debug)]
pub struct RawForeignKey {
    /// The constraint's number within its table.
    pub id: i64,
    /// Position of the column in the constraint.
    pub seq: i64,
    /// Referenced table.
    pub referenced_table: String,
    /// The constrained column.
    pub column: String,
    /// The referenced column; absent when the key references the primary
    /// key implicitly.
    pub referenced_column: Option<String>,
    /// Referential action on update.
    pub on_update: String,
    /// Referential action on delete.
    pub on_delete: String,
}

pub struct RawForeignKeySpec {
    pub id: i64,
    pub seq: i64,
    pub referenced_table: Seq<char>,
    pub column: Seq<char>,
    pub referenced_column: Option<Seq<char>>,
    pub on_update: Seq<char>,
    pub on_delete: Seq<char>,
}

impl View for RawForeignKey {
    type V = RawForeignKeySpec;

    open spec fn view(&self) -> RawForeignKeySpec {
        RawForeignKeySpec {
            id: self.id,
            seq: self.seq,
            referenced_table: self.referenced_table@,
            column: self.column@,
            referenced_column: self.referenced_column.deep_view(),
            on_update: self.on_update@,
            on_delete: self.on_delete@,
        }
    }
}

impl DeepView for RawForeignKey {
    type V = RawForeignKeySpec;

    open spec fn deep_view(&self) -> RawForeignKeySpec {
        self@
    }
}

impl Keyed for RawForeignKey {
    open spec fn view_key(v: RawForeignKeySpec) -> Seq<KeyPart> {
        seq![KeyPart::Num(v.seq as int)]
    }

    fn key_le(&self, other: &Self) -> (r: bool) {
        proof {
            let x = Self::view_key(other.deep_view());
            let y = Self::view_key(self.deep_view());
            crate::order::lemma_key_lt_step(x, y);
            crate::order::lemma_key_lt_nil(x.drop_first(), y.drop_first());
        }
        self.seq <= other.seq
    }
}

impl Keyed for i64 {
    open spec fn view_key(v: i64) -> Seq<KeyPart> {
        seq![KeyPart::Num(v as int)]
    }

    fn key_le(&self, other: &Self) -> (r: bool) {
        proof {
            let x = Self::view_key(other.deep_view());
            let y = Self::view_key(self.deep_view());
            crate::order::lemma_key_lt_step(x, y);
            crate::order::lemma_key_lt_nil(x.drop_first(), y.drop_first());
        }
        *self <= *other
    }
}

/// Whether a row belongs to constraint number `id`.
pub open spec fn with_id(id: i64) -> spec_fn(RawForeignKeySpec) -> bool {
    |r: RawForeignKeySpec| r.id == id
}

/// The rows of constraint number `id`, in position order.
pub open spec fn id_parts(rows: Seq<RawForeignKeySpec>, id: i64) -> Seq<RawForeignKeySpec> {
    sorted_by(keep(rows, with_id(id)), view_keyed::<RawForeignKey>())
}

/// The constraint numbers of `rows`, each once, in ascending order.
pub open spec fn constraint_ids(rows: Seq<RawForeignKeySpec>) -> Seq<i64> {
    sorted_by(distinct(rows.map_values(|r: RawForeignKeySpec| r.id)), view_keyed::<i64>())
}

/// Foreign key number `id` of a table of schema `schema`: named after the
/// table it references and its number, with its column pairs in position
/// order (an implicit referenced column counts as empty) and the actions
/// of its first row.
pub open spec fn grouped_foreign_key(schema: Seq<char>, rows: Seq<RawForeignKeySpec>, id: i64) -> ForeignKeySpec {
    let parts = id_parts(rows, id);
    let table = parts[0].referenced_table;
    ForeignKeySpec {
        name: table + "_fk"@ + signed_decimal(id as int),
        columns: parts.map_values(|p: RawForeignKeySpec| p.column),
        referenced_schema: schema,
        referenced_table: table,
        referenced_columns: parts.map_values(
            |p: RawForeignKeySpec|
                match p.referenced_column {
                    Some(c) => c,
                    None => Seq::empty(),
                },
        ),
        on_update: parts[0].on_update,
        on_delete: parts[0].on_delete,
    }
}

/// The foreign keys of a table of schema `schema`, by constraint number.
pub open spec fn sqlite_foreign_keys(schema: Seq<char>, rows: Seq<RawForeignKeySpec>) -> Seq<
    ForeignKeySpec,
> {
    constraint_ids(rows).map_values(|id: i64| grouped_foreign_key(schema, rows, id))
}

proof fn lemma_id_has_rows(rows: Seq<RawForeignKeySpec>, id: i64)
    requires
        constraint_ids(rows).contains(id),
    ensures
        id_parts(rows, id).len() > 0,
{
    broadcast use vstd::seq_lib::group_to_multiset_ensures;

    let ids = rows.map_values(|r: RawForeignKeySpec| r.id);
    lemma_sorted_by(distinct(ids), view_keyed::<i64>());
    assert(constraint_ids(rows).to_multiset().count(id) > 0);
    assert(distinct(ids).contains(id));
    lemma_distinct_from(ids, id);
    let k = choose|k: int| 0 <= k < ids.len() && #[trigger] ids[k] == id;
    lemma_keep_has(rows, with_id(id), k);
    lemma_sorted_by_len(keep(rows, with_id(id)), view_keyed::<RawForeignKey>());
}

/// The constraint numbers of `rows`, each once, in ascending order.
fn ids_of(rows: &Vec<RawForeignKey>) -> (r: Vec<i64>)
    ensures
        r@ == constraint_ids(rows.deep_view()),
{
    let ghost ids = rows.deep_view().map_values(|r: RawForeignKeySpec| r.id);
    let mut out: Vec<i64> = Vec::new();
    let mut i: usize = 0;
    while i < rows.len()
        invariant
            ids == rows.deep_view().map_values(|r: RawForeignKeySpec| r.id),
            ids.len() == rows.len(),
            i <= rows.len(),
            out@ == distinct(ids.take(i as int)),
        decreases rows.len() - i,
    {
        let id = rows[i].id;
        assert(ids.take(i + 1).drop_last() =~= ids.take(i as int));
        assert(ids.take(i + 1).last() == id);
        let mut seen = false;
        let mut j: usize = 0;
        while j < out.len()
            invariant
                j <= out.len(),
                seen == (exists|k: int| 0 <= k < j && out@[k] == id),
            decreases out.len() - j,
        {
            if out[j] == id {
                seen = true;
            }
            j = j + 1;
        }
        assert(seen == out@.contains(id));
        if !seen {
            out.push(id);
        }
        i = i + 1;
    }
    assert(ids.take(i as int) =~= ids);
    assert(out.deep_view() =~= out@);
    let mut sorted = out;
    stable_sort(&mut sorted);
    assert(sorted.deep_view() =~= sorted@);
    sorted
}

/// The rows of constraint number `id`, in position order.
fn parts_with_id(rows: &Vec<RawForeignKey>, id: i64) -> (r: Vec<RawForeignKey>)
    ensures
        r.deep_view() == id_parts(rows.deep_view(), id),
{
    let ghost p = with_id(id);
    let ghost all = rows.deep_view();
    let mut out: Vec<RawForeignKey> = Vec::new();
    let mut i: usize = 0;
    while i < rows.len()
        invariant
            p == with_id(id),
            all == rows.deep_view(),
            i <= rows.len(),
            out.deep_view() == keep(all.take(i as int), p),
        decreases rows.len() - i,
    {
        proof {
            lemma_keep_step(all, i as int, p);
        }
        let r = &rows[i];
        if r.id == id {
            let x = RawForeignKey {
                id: r.id,
                seq: r.seq,
                referenced_table: r.referenced_table.clone(),
                column: r.column.clone(),
                referenced_column: crate::model::clone_opt(&r.referenced_column),
                on_update: r.on_update.clone(),
                on_delete: r.on_delete.clone(),
            };
            let ghost before = out;
            out.push(x);
            proof {
                crate::model::lemma_push_deep_view(before, out, x);
            }
        }
        i = i + 1;
    }
    assert(all.take(i as int) =~= all);
    stable_sort(&mut out);
    out
}

/// The constrained and referenced columns of `parts`, in their order.
fn key_columns(parts: &Vec<RawForeignKey>) -> (r: (Vec<String>, Vec<String>))
    ensures
        r.0.deep_view() == parts.deep_view().map_values(|p: RawForeignKeySpec| p.column),
        r.1.deep_view() == parts.deep_view().map_values(
            |p: RawForeignKeySpec|
                match p.referenced_column {
                    Some(c) => c,
                    None => Seq::empty(),
                },
        ),
{
    let ghost pv = parts.deep_view();
    let ghost g = |p: RawForeignKeySpec|
        match p.referenced_column {
            Some(c) => c,
            None => Seq::<char>::empty(),
        };
    let mut cols: Vec<String> = Vec::new();
    let mut refs: Vec<String> = Vec::new();
    let mut i: usize = 0;
    while i < parts.len()
        invariant
            pv == parts.deep_view(),
            g == (|p: RawForeignKeySpec|
                match p.referenced_column {
                    Some(c) => c,
                    None => Seq::<char>::empty(),
                }),
            i <= parts.len(),
            cols.deep_view() == pv.take(i as int).map_values(|p: RawForeignKeySpec| p.column),
            refs.deep_view() == pv.take(i as int).map_values(g),
        decreases parts.len() - i,
    {
        let x = parts[i].column.clone();
        let y = match &parts[i].referenced_column {
            Some(c) => c.clone(),
            None => String::new(),
        };
        assert(y@ == g(pv[i as int]));
        let ghost before_x = cols;
        let ghost before_y = refs;
        cols.push(x);
        refs.push(y);
        proof {
            crate::model::lemma_push_deep_view(before_x, cols, x);
            crate::model::lemma_push_deep_view(before_y, refs, y);
            assert(pv.take(i + 1) =~= pv.take(i as int).push(pv[i as int]));
        }
        i = i + 1;
    }
    assert(pv.take(i as int) =~= pv);
    (cols, refs)
}

/// The foreign keys of a table of schema `schema`, one per constraint
/// number in ascending order, built from the rows `raws`.
pub fn foreign_keys_from_raw(schema: &str, raws: &Vec<RawForeignKey>) -> (r: Vec<ForeignKey>)
    ensures
        r.deep_view() == sqlite_foreign_keys(schema@, raws.deep_view()),
{
    let ids = ids_of(raws);
    let ghost rv = raws.deep_view();
    let ghost f = |id: i64| grouped_foreign_key(schema@, rv, id);
    let mut out: Vec<ForeignKey> = Vec::new();
    let mut i: usize = 0;
    while i < ids.len()
        invariant
            rv == raws.deep_view(),
            ids@ == constraint_ids(rv),
            f == (|id: i64| grouped_foreign_key(schema@, rv, id)),
            i <= ids.len(),
            out.deep_view() == ids@.take(i as int).map_values(f),
        decreases ids.len() - i,
    {
        let id = ids[i];
        proof {
            assert(ids@.contains(id));
            lemma_id_has_rows(rv, id);
        }
        let parts = parts_with_id(raws, id);
        let (columns, referenced_columns) = key_columns(&parts);
        let first = &parts[0];
        let mut name = first.referenced_table.clone();
        push_str(&mut name, "_fk");
        let number = signed_decimal_string(id);
        push_str(&mut name, number.as_str());
        let x = ForeignKey {
            name,
            columns,
            referenced_schema: owned(schema),
            referenced_table: first.referenced_table.clone(),
            referenced_columns,
            on_update: first.on_update.clone(),
            on_delete: first.on_delete.clone(),
        };
        assert(x.deep_view() == f(id));
        let ghost before = out;
        out.push(x);
        proof {
            crate::model::lemma_push_deep_view(before, out, x);
            assert(ids@.take(i + 1) =~= ids@.take(i as int).push(id));
        }
        i = i + 1;
    }
    assert(ids@.take(i as int) =~= ids@);
    out
}

// ---------------------------------------------------------------------------
// The database
// ---------------------------------------------------------------------------

/// A table of one database, with what its pragmas say.
#[derive(Debug)]
pub struct TableEntry {
    pub name: String,
    pub columns: Vec<RawColumn>,
    pub indexes: Vec<RawIndex>,
    pub foreign_keys: Vec<RawForeignKey>,
}

pub struct TableEntrySpec {
    pub name: Seq<char>,
    pub columns: Seq<RawColumnSpec>,
    pub indexes: Seq<RawIndexSpec>,
    pub foreign_keys: Seq<RawForeignKeySpec>,
}

impl View for TableEntry {
    type V = TableEntrySpec;

    open spec fn view(&self) -> TableEntrySpec {
        TableEntrySpec {
            name: self.name@,
            columns: self.columns.deep_view(),
            indexes: self.indexes.deep_view(),
            foreign_keys: self.foreign_keys.deep_view(),
        }
    }
}

impl DeepView for TableEntry {
    type V = TableEntrySpec;

    open spec fn deep_view(&self) -> TableEntrySpec {
        self@
    }
}

/// A view of one database, with its columns.
#[derive(Debug)]
pub struct ViewEntry {
    pub name: String,
    pub columns: Vec<RawColumn>,
}

pub struct ViewEntrySpec {
    pub name: Seq<char>,
    pub columns: Seq<RawColumnSpec>,
}

impl View for ViewEntry {
    type V = ViewEntrySpec;

    open spec fn view(&self) -> ViewEntrySpec {
        ViewEntrySpec { name: self.name@, columns: self.columns.deep_view() }
    }
}

impl DeepView for ViewEntry {
    type V = ViewEntrySpec;

    open spec fn deep_view(&self) -> ViewEntrySpec {
        self@
    }
}

/// The tables and views of one database, each in name order.
#[derive(Debug)]
pub struct SchemaEntries {
    pub tables: Vec<TableEntry>,
    pub views: Vec<ViewEntry>,
}

pub struct SchemaEntriesSpec {
    pub tables: Seq<TableEntrySpec>,
    pub views: Seq<ViewEntrySpec>,
}

impl View for SchemaEntries {
    type V = SchemaEntriesSpec;

    open spec fn view(&self) -> SchemaEntriesSpec {
        SchemaEntriesSpec { tables: self.tables.deep_view(), views: self.views.deep_view() }
    }
}

impl DeepView for SchemaEntries {
    type V = SchemaEntriesSpec;

    open spec fn deep_view(&self) -> SchemaEntriesSpec {
        self@
    }
}

/// Everything the main database and the attached ones say, as read.
#[derive(Debug)]
pub struct Catalog {
    /// The main database, as configured.
    pub database: String,
    /// What `sqlite_version()` returned.
    pub version: String,
    /// The databases, main first, then the attached ones in order.
    pub schemas: Vec<SchemaEntries>,
}

pub struct CatalogSpec {
    pub database: Seq<char>,
    pub version: Seq<char>,
    pub schemas: Seq<SchemaEntriesSpec>,
}

impl View for Catalog {
    type V = CatalogSpec;

    open spec fn view(&self) -> CatalogSpec {
        CatalogSpec {
            database: self.database@,
            version: self.version@,
            schemas: self.schemas.deep_view(),
        }
    }
}

/// The columns of a table with indexes `indexes`.
pub open spec fn entry_columns(columns: Seq<RawColumnSpec>, indexes: Seq<RawIndexSpec>) -> Seq<
    ColumnSpec,
> {
    columns.map_values(|c: RawColumnSpec| sqlite_column(c, indexes))
}

/// Table `t` of schema `schema`.
pub open spec fn entry_table(schema: Seq<char>, t: TableEntrySpec) -> TableSpec {
    TableSpec {
        schema,
        name: t.name,
        engine: None,
        charset: None,
        collation: None,
        comment: None,
        columns: entry_columns(t.columns, t.indexes),
        indexes: t.indexes.map_values(|x: RawIndexSpec| sqlite_index(x)),
        foreign_keys: sqlite_foreign_keys(schema, t.foreign_keys),
        analysis: None,
        ai: None,
    }
}

/// View `v` of schema `schema`.
pub open spec fn entry_view(schema: Seq<char>, v: ViewEntrySpec) -> SchemaViewSpec {
    SchemaViewSpec { schema, name: v.name, columns: entry_columns(v.columns, Seq::empty()) }
}

/// The tables of every database in `schemas`, database by database.
pub open spec fn catalog_tables(schemas: Seq<SchemaEntriesSpec>) -> Seq<TableSpec>
    decreases schemas.len(),
{
    if schemas.len() == 0 {
        Seq::empty()
    } else {
        let i = (schemas.len() - 1) as nat;
        catalog_tables(schemas.drop_last()) + schemas.last().tables.map_values(
            |t: TableEntrySpec| entry_table(attached_schema(i), t),
        )
    }
}

/// The views of every database in `schemas`, database by database.
pub open spec fn catalog_views(schemas: Seq<SchemaEntriesSpec>) -> Seq<SchemaViewSpec>
    decreases schemas.len(),
{
    if schemas.len() == 0 {
        Seq::empty()
    } else {
        let i = (schemas.len() - 1) as nat;
        catalog_views(schemas.drop_last()) + schemas.last().views.map_values(
            |v: ViewEntrySpec| entry_view(attached_schema(i), v),
        )
    }
}

/// The database the catalog describes, before sorting.
pub open spec fn catalog_database(c: CatalogSpec, generated_at: Seq<char>) -> DatabaseSpec {
    DatabaseSpec {
        header: header_of(Database::FORMAT@, generated_at),
        metadata: DatabaseMetadataSpec {
            database: c.database,
            engine: Engine::Sqlite,
            engine_version: c.version,
            default_charset: None,
            default_collation: None,
        },
        tables: catalog_tables(c.schemas),
        views: catalog_views(c.schemas),
    }
}

/// The columns of a table with indexes `indexes`.
fn columns_from_raw(columns: &Vec<RawColumn>, indexes: &Vec<RawIndex>) -> (r: Vec<Column>)
    ensures
        r.deep_view() == entry_columns(columns.deep_view(), indexes.deep_view()),
{
    let ghost cv = columns.deep_view();
    let ghost f = |c: RawColumnSpec| sqlite_column(c, indexes.deep_view());
    let mut out: Vec<Column> = Vec::new();
    let mut i: usize = 0;
    while i < columns.len()
        invariant
            cv == columns.deep_view(),
            f == (|c: RawColumnSpec| sqlite_column(c, indexes.deep_view())),
            i <= columns.len(),
            out.deep_view() == cv.take(i as int).map_values(f),
        decreases columns.len() - i,
    {
        let x = to_column(&columns[i], indexes);
        let ghost before = out;
        out.push(x);
        proof {
            crate::model::lemma_push_deep_view(before, out, x);
            assert(cv.take(i + 1) =~= cv.take(i as int).push(cv[i as int]));
        }
        i = i + 1;
    }
    assert(cv.take(i as int) =~= cv);
    out
}

/// The database the catalog describes, stamped `generated_at`, sorted into
/// document order.
pub fn build_database(catalog: &Catalog, generated_at: &str) -> (r: Database)
    ensures
        r@ == sorted_database(catalog_database(catalog@, generated_at@)),
{
    let ghost sv = catalog@.schemas;
    let no_indexes: Vec<RawIndex> = Vec::new();
    assert(no_indexes.deep_view() =~= Seq::<RawIndexSpec>::empty());
    let mut tables: Vec<Table> = Vec::new();
    let mut views: Vec<SchemaView> = Vec::new();
    let mut i: usize = 0;
    while i < catalog.schemas.len()
        invariant
            sv == catalog@.schemas,
            sv.len() == catalog.schemas.len(),
            no_indexes.deep_view() == Seq::<RawIndexSpec>::empty(),
            i <= catalog.schemas.len(),
            tables.deep_view() == catalog_tables(sv.take(i as int)),
            views.deep_view() == catalog_views(sv.take(i as int)),
        decreases catalog.schemas.len() - i,
    {
        let entries = &catalog.schemas[i];
        let schema = schema_name(i);
        let ghost e = sv[i as int];
        let ghost ft = |t: TableEntrySpec| entry_table(schema@, t);
        let ghost fv = |v: ViewEntrySpec| entry_view(schema@, v);
        let ghost tables_before = tables.deep_view();
        let ghost views_before = views.deep_view();
        assert(e == entries@);
        let mut j: usize = 0;
        while j < entries.tables.len()
            invariant
                e == entries@,
                e.tables.len() == entries.tables.len(),
                ft == (|t: TableEntrySpec| entry_table(schema@, t)),
                j <= entries.tables.len(),
                tables.deep_view() == tables_before + e.tables.take(j as int).map_values(ft),
            decreases entries.tables.len() - j,
        {
            let t = &entries.tables[j];
            let x = Table {
                schema: schema.clone(),
                name: t.name.clone(),
                engine: None,
                charset: None,
                collation: None,
                comment: None,
                columns: columns_from_raw(&t.columns, &t.indexes),
                indexes: indexes_from_raw(&t.indexes),
                foreign_keys: foreign_keys_from_raw(schema.as_str(), &t.foreign_keys),
                analysis: None,
                ai: None,
            };
            assert(x@ == ft(e.tables[j as int]));
            let ghost before = tables;
            tables.push(x);
            proof {
                crate::model::lemma_push_deep_view(before, tables, x);
                assert(e.tables.take(j + 1) =~= e.tables.take(j as int).push(e.tables[j as int]));
                assert(tables.deep_view() =~= tables_before + e.tables.take(j + 1).map_values(ft));
            }
            j = j + 1;
        }
        let mut k: usize = 0;
        while k < entries.views.len()
            invariant
                e == entries@,
                e.views.len() == entries.views.len(),
                fv == (|v: ViewEntrySpec| entry_view(schema@, v)),
                no_indexes.deep_view() == Seq::<RawIndexSpec>::empty(),
                k <= entries.views.len(),
                views.deep_view() == views_before + e.views.take(k as int).map_values(fv),
            decreases entries.views.len() - k,
        {
            let v = &entries.views[k];
            let x = SchemaView {
                schema: schema.clone(),
                name: v.name.clone(),
                columns: columns_from_raw(&v.columns, &no_indexes),
            };
            assert(x@ == fv(e.views[k as int]));
            let ghost before = views;
            views.push(x);
            proof {
                crate::model::lemma_push_deep_view(before, views, x);
                assert(e.views.take(k + 1) =~= e.views.take(k as int).push(e.views[k as int]));
                assert(views.deep_view() =~= views_before + e.views.take(k + 1).map_values(fv));
            }
            k = k + 1;
        }
        proof {
            assert(e.tables.take(j as int) =~= e.tables);
            assert(e.views.take(k as int) =~= e.views);
            assert(sv.take(i + 1).drop_last() =~= sv.take(i as int));
            assert(sv.take(i + 1).last() == e);
        }
        i = i + 1;
    }
    assert(sv.take(i as int) =~= sv);
    let mut database = Database {
        header: DocumentHeader::new(Database::FORMAT, generated_at),
        metadata: DatabaseMetadata {
            database: catalog.database.clone(),
            engine: Engine::Sqlite,
            engine_version: catalog.version.clone(),
            default_charset: None,
            default_collation: None,
        },
        tables,
        views,
    };
    assert(database@ == catalog_database(catalog@, generated_at@));
    database.sort();
    database
}

/// A SQLite column keeps its name, position, declared type and default;
/// it is nullable exactly when it is not declared `NOT NULL`, part of the
/// primary key exactly when its key position is positive, and a primary
/// key column counts as unique; a hidden column of kind 2 or 3 is
/// generated; SQLite has no column comments.
pub proof fn law_sqlite_columns_keep_the_catalog_facts(raw: RawColumnSpec, indexes: Seq<RawIndexSpec>)
    ensures
        ({
            let c = sqlite_column(raw, indexes);
            &&& c.name == raw.name
            &&& c.ordinal_position == raw.ordinal_position
            &&& c.full_type == raw.decl_type
            &&& c.nullable == !raw.notnull
            &&& c.default == raw.dflt_value
            &&& (c.primary_key <==> raw.pk > 0)
            &&& (c.primary_key ==> c.unique)
            &&& (c.generated <==> (raw.hidden == 2 || raw.hidden == 3))
            &&& c.comment is None
        }),
{
}

} // verus!
