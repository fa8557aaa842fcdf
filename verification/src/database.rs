//! The database-independent part of introspection: errors, and the
//! conversion of raw catalog rows into the canonical model.
use vstd::prelude::*;

use crate::model::{ForeignKey, ForeignKeySpec, Index, IndexSpec};
use crate::order::{
    is_sorted_by, lemma_sorted_by, lemma_sorted_by_len, sorted_by, stable_sort, view_keyed,
    KeyPart, Keyed,
};
use crate::text::{owned, push_str, str_eq};

pub mod mysql;
pub mod postgres;
pub mod sqlite;
pub mod sqlserver;

verus! {

/// Why a database could not be inspected.
#[derive(Debug)]
pub enum DatabaseError {
    /// The connection string or handshake failed.
    Connection(String),
    /// A catalog query returned an unexpected shape.
    Catalog(String),
}

/// The message a database error is reported with.
pub open spec fn database_error_text(e: DatabaseError) -> Seq<char> {
    match e {
        DatabaseError::Connection(d) => "could not connect to the database: "@ + d@
            + "\ncheck --host, --port, --user and --password, and that the server is reachable"@,
        DatabaseError::Catalog(d) => "could not read catalog metadata: "@ + d@,
    }
}

impl DatabaseError {
    /// The message this error is reported with.
    pub fn to_string(&self) -> (r: String)
        ensures
            r@ == database_error_text(*self),
    {
        match self {
            DatabaseError::Connection(d) => {
                let mut out = owned("could not connect to the database: ");
                push_str(&mut out, d.as_str());
                push_str(
                    &mut out,
                    "\ncheck --host, --port, --user and --password, and that the server is reachable",
                );
                out
            },
            DatabaseError::Catalog(d) => {
                let mut out = owned("could not read catalog metadata: ");
                push_str(&mut out, d.as_str());
                out
            },
        }
    }
}

// ---------------------------------------------------------------------------
// Grouping catalog rows
// ---------------------------------------------------------------------------

/// The items of `s` that satisfy `p`, in their order.
pub open spec fn keep<A>(s: Seq<A>, p: spec_fn(A) -> bool) -> Seq<A>
    decreases s.len(),
{
    if s.len() == 0 {
        Seq::empty()
    } else if p(s.last()) {
        keep(s.drop_last(), p).push(s.last())
    } else {
        keep(s.drop_last(), p)
    }
}

/// The first occurrence of each value of `s`, in their order.
pub open spec fn distinct<A>(s: Seq<A>) -> Seq<A>
    decreases s.len(),
{
    if s.len() == 0 {
        Seq::empty()
    } else if distinct(s.drop_last()).contains(s.last()) {
        distinct(s.drop_last())
    } else {
        distinct(s.drop_last()).push(s.last())
    }
}

/// The distinct values of `names` in text order: the keys of a map from
/// name to the rows with that name.
pub open spec fn group_names(names: Seq<Seq<char>>) -> Seq<Seq<char>> {
    sorted_by(distinct(names), view_keyed::<String>())
}

/// A catalog row that describes one column of a named object (an index or
/// a foreign key) of a table.
pub trait CatalogRow: Keyed {
    /// Namespace of the table the row belongs to.
    spec fn row_schema(v: <Self as DeepView>::V) -> Seq<char>;

    /// Table the row belongs to.
    spec fn row_table(v: <Self as DeepView>::V) -> Seq<char>;

    /// Name of the object the row describes a column of.
    spec fn row_name(v: <Self as DeepView>::V) -> Seq<char>;

    /// Whether the row belongs to table `schema`.`table`.
    fn is_at(&self, schema: &str, table: &str) -> (r: bool)
        ensures
            r == (Self::row_schema(self.deep_view()) == schema@ && Self::row_table(
                self.deep_view(),
            ) == table@),
    ;

    /// The object's name.
    fn name_str(&self) -> (r: &str)
        ensures
            r@ == Self::row_name(self.deep_view()),
    ;

    /// A copy of the row.
    fn duplicate(&self) -> (r: Self)
        ensures
            r.deep_view() == self.deep_view(),
    ;
}

/// Whether a row belongs to table `schema`.`table`.
pub open spec fn at_table<T: CatalogRow>(schema: Seq<char>, table: Seq<char>) -> spec_fn(
    <T as DeepView>::V,
) -> bool {
    |v: <T as DeepView>::V| T::row_schema(v) == schema && T::row_table(v) == table
}

/// Whether a row describes the object named `name`.
pub open spec fn named<T: CatalogRow>(name: Seq<char>) -> spec_fn(<T as DeepView>::V) -> bool {
    |v: <T as DeepView>::V| T::row_name(v) == name
}

/// The object names of `rows`, row by row.
pub open spec fn row_names<T: CatalogRow>(rows: Seq<<T as DeepView>::V>) -> Seq<Seq<char>> {
    rows.map_values(|v: <T as DeepView>::V| T::row_name(v))
}

/// The rows of the object named `name`, in position order.
pub open spec fn parts_named<T: CatalogRow>(rows: Seq<<T as DeepView>::V>, name: Seq<char>) -> Seq<
    <T as DeepView>::V,
> {
    sorted_by(keep(rows, named::<T>(name)), view_keyed::<T>())
}

pub proof fn lemma_keep_step<A>(s: Seq<A>, i: int, p: spec_fn(A) -> bool)
    requires
        0 <= i < s.len(),
    ensures
        keep(s.take(i + 1), p) == if p(s[i]) {
            keep(s.take(i), p).push(s[i])
        } else {
            keep(s.take(i), p)
        },
{
    assert(s.take(i + 1).drop_last() =~= s.take(i));
    assert(s.take(i + 1).last() == s[i]);
}

pub proof fn lemma_keep_has<A>(s: Seq<A>, p: spec_fn(A) -> bool, k: int)
    requires
        0 <= k < s.len(),
        p(s[k]),
    ensures
        keep(s, p).len() > 0,
    decreases s.len(),
{
    if k < s.len() - 1 {
        assert(s.drop_last()[k] == s[k]);
        lemma_keep_has(s.drop_last(), p, k);
    }
}

pub proof fn lemma_distinct_from<A>(s: Seq<A>, x: A)
    requires
        distinct(s).contains(x),
    ensures
        s.contains(x),
    decreases s.len(),
{
    if s.len() > 0 {
        let d = distinct(s.drop_last());
        if d.contains(x) {
            lemma_distinct_from(s.drop_last(), x);
            let k = choose|k: int| 0 <= k < s.drop_last().len() && #[trigger] s.drop_last()[k]
                == x;
            assert(s[k] == x);
        } else {
            assert(x == s.last());
            assert(s[s.len() - 1] == x);
        }
    }
}

/// Every group name has at least one row.
proof fn lemma_group_has_rows<T: CatalogRow>(rows: Seq<<T as DeepView>::V>, n: Seq<char>)
    requires
        group_names(row_names::<T>(rows)).contains(n),
    ensures
        parts_named::<T>(rows, n).len() > 0,
{
    broadcast use vstd::seq_lib::group_to_multiset_ensures;

    let names = row_names::<T>(rows);
    lemma_sorted_by(distinct(names), view_keyed::<String>());
    assert(group_names(names).to_multiset().count(n) > 0);
    assert(distinct(names).contains(n));
    lemma_distinct_from(names, n);
    let k = choose|k: int| 0 <= k < names.len() && #[trigger] names[k] == n;
    lemma_keep_has(rows, named::<T>(n), k);
    lemma_sorted_by_len(keep(rows, named::<T>(n)), view_keyed::<T>());
}

/// The rows of `raws` that belong to table `schema`.`table`.
pub fn rows_at_table<T: CatalogRow>(schema: &str, table: &str, raws: &Vec<T>) -> (r: Vec<T>)
    ensures
        r.deep_view() == keep(raws.deep_view(), at_table::<T>(schema@, table@)),
{
    let ghost p = at_table::<T>(schema@, table@);
    let ghost all = raws.deep_view();
    let mut out: Vec<T> = Vec::new();
    let mut i: usize = 0;
    while i < raws.len()
        invariant
            p == at_table::<T>(schema@, table@),
            all == raws.deep_view(),
            i <= raws.len(),
            out.deep_view() == keep(all.take(i as int), p),
        decreases raws.len() - i,
    {
        proof {
            lemma_keep_step(all, i as int, p);
        }
        if raws[i].is_at(schema, table) {
            let x = raws[i].duplicate();
            let ghost before = out;
            out.push(x);
            proof {
                crate::model::lemma_push_deep_view(before, out, x);
            }
        }
        i = i + 1;
    }
    assert(all.take(i as int) =~= all);
    out
}

/// The rows of `rows` that describe the object named `name`.
pub fn rows_named<T: CatalogRow>(rows: &Vec<T>, name: &str) -> (r: Vec<T>)
    ensures
        r.deep_view() == keep(rows.deep_view(), named::<T>(name@)),
{
    let ghost p = named::<T>(name@);
    let ghost all = rows.deep_view();
    let mut out: Vec<T> = Vec::new();
    let mut i: usize = 0;
    while i < rows.len()
        invariant
            p == named::<T>(name@),
            all == rows.deep_view(),
            i <= rows.len(),
            out.deep_view() == keep(all.take(i as int), p),
        decreases rows.len() - i,
    {
        proof {
            lemma_keep_step(all, i as int, p);
        }
        if str_eq(rows[i].name_str(), name) {
            let x = rows[i].duplicate();
            let ghost before = out;
            out.push(x);
            proof {
                crate::model::lemma_push_deep_view(before, out, x);
            }
        }
        i = i + 1;
    }
    assert(all.take(i as int) =~= all);
    out
}

/// Whether `names` holds `name`.
fn holds_name(names: &Vec<String>, name: &str) -> (r: bool)
    ensures
        r == names.deep_view().contains(name@),
{
    let mut i: usize = 0;
    while i < names.len()
        invariant
            i <= names.len(),
            forall|k: int| 0 <= k < i ==> names.deep_view()[k] != name@,
        decreases names.len() - i,
    {
        if str_eq(names[i].as_str(), name) {
            assert(names.deep_view()[i as int] == name@);
            return true;
        }
        i = i + 1;
    }
    false
}

/// The distinct object names of `rows`, in order of first appearance.
pub fn distinct_row_names<T: CatalogRow>(rows: &Vec<T>) -> (r: Vec<String>)
    ensures
        r.deep_view() == distinct(row_names::<T>(rows.deep_view())),
{
    let ghost names = row_names::<T>(rows.deep_view());
    let mut out: Vec<String> = Vec::new();
    let mut i: usize = 0;
    while i < rows.len()
        invariant
            names == row_names::<T>(rows.deep_view()),
            names.len() == rows.len(),
            i <= rows.len(),
            out.deep_view() == distinct(names.take(i as int)),
        decreases rows.len() - i,
    {
        let n = rows[i].name_str();
        proof {
            assert(names.take(i + 1).drop_last() =~= names.take(i as int));
            assert(names.take(i + 1).last() == n@);
        }
        if !holds_name(&out, n) {
            let x = owned(n);
            let ghost before = out;
            out.push(x);
            proof {
                crate::model::lemma_push_deep_view(before, out, x);
            }
        }
        i = i + 1;
    }
    assert(names.take(i as int) =~= names);
    out
}

/// The distinct object names of `rows`, in text order.
pub fn group_names_of<T: CatalogRow>(rows: &Vec<T>) -> (r: Vec<String>)
    ensures
        r.deep_view() == group_names(row_names::<T>(rows.deep_view())),
{
    let mut names = distinct_row_names(rows);
    stable_sort(&mut names);
    names
}

/// The rows of the object named `name`, in position order.
pub fn parts_of<T: CatalogRow>(rows: &Vec<T>, name: &str) -> (r: Vec<T>)
    ensures
        r.deep_view() == parts_named::<T>(rows.deep_view(), name@),
{
    let mut parts = rows_named(rows, name);
    stable_sort(&mut parts);
    parts
}

// ---------------------------------------------------------------------------
// Indexes
// ---------------------------------------------------------------------------

/// One column of one index, as a catalog lists it.
#[derive(Debug)]
pub struct RawIndex {
    /// Namespace of the indexed table.
    pub schema: String,
    /// Indexed table.
    pub table: String,
    /// Index name.
    pub name: String,
    /// Whether the index enforces uniqueness.
    pub unique: bool,
    /// Whether the index is the table's primary key.
    pub primary: bool,
    /// The column at this position of the index.
    pub column: String,
    /// One-based position of the column in the index.
    pub sequence: u32,
    /// Index type as the engine reports it.
    pub index_type: String,
}

pub struct RawIndexSpec {
    pub schema: Seq<char>,
    pub table: Seq<char>,
    pub name: Seq<char>,
    pub unique: bool,
    pub primary: bool,
    pub column: Seq<char>,
    pub sequence: u32,
    pub index_type: Seq<char>,
}

impl View for RawIndex {
    type V = RawIndexSpec;

    open spec fn view(&self) -> RawIndexSpec {
        RawIndexSpec {
            schema: self.schema@,
            table: self.table@,
            name: self.name@,
            unique: self.unique,
            primary: self.primary,
            column: self.column@,
            sequence: self.sequence,
            index_type: self.index_type@,
        }
    }
}

impl DeepView for RawIndex {
    type V = RawIndexSpec;

    open spec fn deep_view(&self) -> RawIndexSpec {
        self@
    }
}

impl Keyed for RawIndex {
    open spec fn view_key(v: RawIndexSpec) -> Seq<KeyPart> {
        seq![KeyPart::Num(v.sequence as int)]
    }

    fn key_le(&self, other: &Self) -> (r: bool) {
        proof {
            let x = Self::view_key(other.deep_view());
            let y = Self::view_key(self.deep_view());
            crate::order::lemma_key_lt_step(x, y);
            crate::order::lemma_key_lt_nil(x.drop_first(), y.drop_first());
        }
        self.sequence <= other.sequence
    }
}

impl CatalogRow for RawIndex {
    open spec fn row_schema(v: RawIndexSpec) -> Seq<char> {
        v.schema
    }

    open spec fn row_table(v: RawIndexSpec) -> Seq<char> {
        v.table
    }

    open spec fn row_name(v: RawIndexSpec) -> Seq<char> {
        v.name
    }

    fn is_at(&self, schema: &str, table: &str) -> (r: bool) {
        str_eq(self.schema.as_str(), schema) && str_eq(self.table.as_str(), table)
    }

    fn name_str(&self) -> (r: &str) {
        self.name.as_str()
    }

    fn duplicate(&self) -> (r: Self) {
        RawIndex {
            schema: self.schema.clone(),
            table: self.table.clone(),
            name: self.name.clone(),
            unique: self.unique,
            primary: self.primary,
            column: self.column.clone(),
            sequence: self.sequence,
            index_type: self.index_type.clone(),
        }
    }
}

/// The index whose rows among `rows` are named `name`: its columns in
/// position order, unique when its first row is unique (or, where the
/// engine's catalog calls for it, the primary key), and of the type its
/// first row gives.
pub open spec fn grouped_index(rows: Seq<RawIndexSpec>, name: Seq<char>, primary_unique: bool) -> IndexSpec {
    let parts = parts_named::<RawIndex>(rows, name);
    IndexSpec {
        name,
        unique: parts[0].unique || (primary_unique && parts[0].primary),
        columns: parts.map_values(|p: RawIndexSpec| p.column),
        index_type: parts[0].index_type,
    }
}

/// The indexes of table `schema`.`table` that `raws` describes, by name.
pub open spec fn table_indexes(
    raws: Seq<RawIndexSpec>,
    schema: Seq<char>,
    table: Seq<char>,
    primary_unique: bool,
) -> Seq<IndexSpec> {
    let rows = keep(raws, at_table::<RawIndex>(schema, table));
    group_names(row_names::<RawIndex>(rows)).map_values(
        |n: Seq<char>| grouped_index(rows, n, primary_unique),
    )
}

/// Whether some index row of table `schema`.`table` in `raws` puts `column`
/// in the primary key.
pub open spec fn primary_key_column(
    raws: Seq<RawIndexSpec>,
    schema: Seq<char>,
    table: Seq<char>,
    column: Seq<char>,
) -> bool {
    exists|k: int|
        0 <= k < raws.len() && #[trigger] raws[k].schema == schema && raws[k].table == table
            && raws[k].primary && raws[k].column == column
}

/// Whether some unique index of table `schema`.`table` in `raws` has
/// `column` as its only column.
pub open spec fn unique_column(
    raws: Seq<RawIndexSpec>,
    schema: Seq<char>,
    table: Seq<char>,
    column: Seq<char>,
) -> bool {
    let rows = keep(raws, at_table::<RawIndex>(schema, table));
    exists|k: int|
        0 <= k < rows.len() && (#[trigger] rows[k]).column == column && rows[k].unique && keep(
            rows,
            named::<RawIndex>(rows[k].name),
        ).len() == 1
}

/// The columns of `parts`, in their order.
fn index_columns(parts: &Vec<RawIndex>) -> (r: Vec<String>)
    ensures
        r.deep_view() == parts.deep_view().map_values(|p: RawIndexSpec| p.column),
{
    let mut out: Vec<String> = Vec::new();
    let mut i: usize = 0;
    while i < parts.len()
        invariant
            i <= parts.len(),
            out.deep_view() == parts.deep_view().take(i as int).map_values(
                |p: RawIndexSpec| p.column,
            ),
        decreases parts.len() - i,
    {
        let x = parts[i].column.clone();
        let ghost before = out;
        out.push(x);
        proof {
            crate::model::lemma_push_deep_view(before, out, x);
            assert(parts.deep_view().take(i + 1) =~= parts.deep_view().take(i as int).push(
                parts[i as int]@,
            ));
        }
        i = i + 1;
    }
    assert(parts.deep_view().take(i as int) =~= parts.deep_view());
    out
}

/// The indexes of table `schema`.`table`, one per index name in name order,
/// built from the catalog rows `raws`; `primary_unique` says whether a
/// primary key index counts as unique whatever its row says.
pub fn indexes_for_table(
    schema: &str,
    table: &str,
    raws: &Vec<RawIndex>,
    primary_unique: bool,
) -> (r: Vec<Index>)
    ensures
        r.deep_view() == table_indexes(raws.deep_view(), schema@, table@, primary_unique),
{
    let rows = rows_at_table(schema, table, raws);
    let names = group_names_of(&rows);
    let ghost rv = rows.deep_view();
    let ghost gn = names.deep_view();
    let ghost f = |n: Seq<char>| grouped_index(rv, n, primary_unique);
    let mut out: Vec<Index> = Vec::new();
    let mut i: usize = 0;
    while i < names.len()
        invariant
            rv == rows.deep_view(),
            gn == names.deep_view(),
            gn == group_names(row_names::<RawIndex>(rv)),
            f == (|n: Seq<char>| grouped_index(rv, n, primary_unique)),
            i <= names.len(),
            out.deep_view() == gn.take(i as int).map_values(f),
        decreases names.len() - i,
    {
        let name = names[i].as_str();
        proof {
            assert(gn[i as int] == name@);
            assert(gn.contains(name@));
            lemma_group_has_rows::<RawIndex>(rv, name@);
        }
        let parts = parts_of(&rows, name);
        let unique = parts[0].unique || (primary_unique && parts[0].primary);
        let index_type = parts[0].index_type.clone();
        let columns = index_columns(&parts);
        let x = Index { name: owned(name), unique, columns, index_type };
        assert(x.deep_view() == f(gn[i as int]));
        let ghost before = out;
        out.push(x);
        proof {
            crate::model::lemma_push_deep_view(before, out, x);
            assert(gn.take(i + 1) =~= gn.take(i as int).push(gn[i as int]));
        }
        i = i + 1;
    }
    assert(gn.take(i as int) =~= gn);
    out
}

/// Whether an index row of table `schema`.`table` puts `column` in the
/// primary key.
pub fn is_primary_key(schema: &str, table: &str, column: &str, raws: &Vec<RawIndex>) -> (r: bool)
    ensures
        r == primary_key_column(raws.deep_view(), schema@, table@, column@),
{
    let mut i: usize = 0;
    while i < raws.len()
        invariant
            i <= raws.len(),
            forall|k: int|
                0 <= k < i ==> !(#[trigger] raws.deep_view()[k].schema == schema@
                    && raws.deep_view()[k].table == table@ && raws.deep_view()[k].primary
                    && raws.deep_view()[k].column == column@),
        decreases raws.len() - i,
    {
        let x = &raws[i];
        if x.primary && str_eq(x.column.as_str(), column) && x.is_at(schema, table) {
            assert(raws.deep_view()[i as int] == x@);
            return true;
        }
        assert(raws.deep_view()[i as int] == x@);
        i = i + 1;
    }
    false
}

/// How many of `rows` describe the index named `name`.
fn count_named(rows: &Vec<RawIndex>, name: &str) -> (r: usize)
    ensures
        r == keep(rows.deep_view(), named::<RawIndex>(name@)).len(),
{
    let ghost p = named::<RawIndex>(name@);
    let ghost all = rows.deep_view();
    let mut n: usize = 0;
    let mut i: usize = 0;
    while i < rows.len()
        invariant
            p == named::<RawIndex>(name@),
            all == rows.deep_view(),
            i <= rows.len(),
            n == keep(all.take(i as int), p).len(),
            n <= i,
        decreases rows.len() - i,
    {
        proof {
            lemma_keep_step(all, i as int, p);
        }
        if str_eq(rows[i].name.as_str(), name) {
            n = n + 1;
        }
        i = i + 1;
    }
    assert(all.take(i as int) =~= all);
    n
}

/// Whether a unique index of table `schema`.`table` has `column` as its
/// only column.
pub fn is_unique_column(schema: &str, table: &str, column: &str, raws: &Vec<RawIndex>) -> (r: bool)
    ensures
        r == unique_column(raws.deep_view(), schema@, table@, column@),
{
    let rows = rows_at_table(schema, table, raws);
    let ghost rv = rows.deep_view();
    let mut i: usize = 0;
    while i < rows.len()
        invariant
            rv == rows.deep_view(),
            rv == keep(raws.deep_view(), at_table::<RawIndex>(schema@, table@)),
            i <= rows.len(),
            forall|k: int|
                0 <= k < i ==> !((#[trigger] rv[k]).column == column@ && rv[k].unique && keep(
                    rv,
                    named::<RawIndex>(rv[k].name),
                ).len() == 1),
        decreases rows.len() - i,
    {
        let x = &rows[i];
        assert(rv[i as int] == x@);
        if x.unique && str_eq(x.column.as_str(), column) && count_named(&rows, x.name.as_str())
            == 1 {
            return true;
        }
        i = i + 1;
    }
    false
}

// ---------------------------------------------------------------------------
// Foreign keys
// ---------------------------------------------------------------------------

/// One column of one foreign key, as a catalog lists it.
#[derive(Debug)]
pub struct RawForeignKey {
    /// Namespace of the constrained table.
    pub schema: String,
    /// Constrained table.
    pub table: String,
    /// Constraint name.
    pub name: String,
    /// The constrained column at this position.
    pub column: String,
    /// One-based position of the column in the constraint.
    pub sequence: u32,
    /// Namespace of the referenced table.
    pub referenced_schema: String,
    /// Referenced table.
    pub referenced_table: String,
    /// The referenced column at this position.
    pub referenced_column: String,
    /// Referential action on update.
    pub on_update: String,
    /// Referential action on delete.
    pub on_delete: String,
}

pub struct RawForeignKeySpec {
    pub schema: Seq<char>,
    pub table: Seq<char>,
    pub name: Seq<char>,
    pub column: Seq<char>,
    pub sequence: u32,
    pub referenced_schema: Seq<char>,
    pub referenced_table: Seq<char>,
    pub referenced_column: Seq<char>,
    pub on_update: Seq<char>,
    pub on_delete: Seq<char>,
}

impl View for RawForeignKey {
    type V = RawForeignKeySpec;

    open spec fn view(&self) -> RawForeignKeySpec {
        RawForeignKeySpec {
            schema: self.schema@,
            table: self.table@,
            name: self.name@,
            column: self.column@,
            sequence: self.sequence,
            referenced_schema: self.referenced_schema@,
            referenced_table: self.referenced_table@,
            referenced_column: self.referenced_column@,
            on_update: self.on_update@,
            on_delete: self.on_delete@,
        }
    }
}

impl DeepView for RawForeignKey {
    type V = RawForeignKeySpec;

    open spec fn deep_view(&self) -> RawForeignKeySpec {
        self@
    }
}

impl Keyed for RawForeignKey {
    open spec fn view_key(v: RawForeignKeySpec) -> Seq<KeyPart> {
        seq![KeyPart::Num(v.sequence as int)]
    }

    fn key_le(&self, other: &Self) -> (r: bool) {
        proof {
            let x = Self::view_key(other.deep_view());
            let y = Self::view_key(self.deep_view());
            crate::order::lemma_key_lt_step(x, y);
            crate::order::lemma_key_lt_nil(x.drop_first(), y.drop_first());
        }
        self.sequence <= other.sequence
    }
}

impl CatalogRow for RawForeignKey {
    open spec fn row_schema(v: RawForeignKeySpec) -> Seq<char> {
        v.schema
    }

    open spec fn row_table(v: RawForeignKeySpec) -> Seq<char> {
        v.table
    }

    open spec fn row_name(v: RawForeignKeySpec) -> Seq<char> {
        v.name
    }

    fn is_at(&self, schema: &str, table: &str) -> (r: bool) {
        str_eq(self.schema.as_str(), schema) && str_eq(self.table.as_str(), table)
    }

    fn name_str(&self) -> (r: &str) {
        self.name.as_str()
    }

    fn duplicate(&self) -> (r: Self) {
        RawForeignKey {
            schema: self.schema.clone(),
            table: self.table.clone(),
            name: self.name.clone(),
            column: self.column.clone(),
            sequence: self.sequence,
            referenced_schema: self.referenced_schema.clone(),
            referenced_table: self.referenced_table.clone(),
            referenced_column: self.referenced_column.clone(),
            on_update: self.on_update.clone(),
            on_delete: self.on_delete.clone(),
        }
    }
}

/// The foreign key whose rows among `rows` are named `name`: its column
/// pairs in position order, and the target and actions of its first row.
pub open spec fn grouped_foreign_key(rows: Seq<RawForeignKeySpec>, name: Seq<char>) -> ForeignKeySpec {
    let parts = parts_named::<RawForeignKey>(rows, name);
    ForeignKeySpec {
        name,
        columns: parts.map_values(|p: RawForeignKeySpec| p.column),
        referenced_schema: parts[0].referenced_schema,
        referenced_table: parts[0].referenced_table,
        referenced_columns: parts.map_values(|p: RawForeignKeySpec| p.referenced_column),
        on_update: parts[0].on_update,
        on_delete: parts[0].on_delete,
    }
}

/// The foreign keys of table `schema`.`table` that `raws` describes, by
/// name.
pub open spec fn table_foreign_keys(
    raws: Seq<RawForeignKeySpec>,
    schema: Seq<char>,
    table: Seq<char>,
) -> Seq<ForeignKeySpec> {
    let rows = keep(raws, at_table::<RawForeignKey>(schema, table));
    group_names(row_names::<RawForeignKey>(rows)).map_values(
        |n: Seq<char>| grouped_foreign_key(rows, n),
    )
}

/// The constrained and the referenced columns of `parts`, in their order.
fn foreign_key_columns(parts: &Vec<RawForeignKey>) -> (r: (Vec<String>, Vec<String>))
    ensures
        r.0.deep_view() == parts.deep_view().map_values(|p: RawForeignKeySpec| p.column),
        r.1.deep_view() == parts.deep_view().map_values(|p: RawForeignKeySpec| p.referenced_column),
{
    let ghost pv = parts.deep_view();
    let mut cols: Vec<String> = Vec::new();
    let mut refs: Vec<String> = Vec::new();
    let mut i: usize = 0;
    while i < parts.len()
        invariant
            pv == parts.deep_view(),
            i <= parts.len(),
            cols.deep_view() == pv.take(i as int).map_values(|p: RawForeignKeySpec| p.column),
            refs.deep_view() == pv.take(i as int).map_values(
                |p: RawForeignKeySpec| p.referenced_column,
            ),
        decreases parts.len() - i,
    {
        let x = parts[i].column.clone();
        let y = parts[i].referenced_column.clone();
        let ghost before_x = cols;
        let ghost before_y = refs;
        cols.push(x);
        refs.push(y);
        proof {
            crate::model::lemma_push_deep_view(before_x, cols, x);
            crate::model::lemma_push_deep_view(before_y, refs, y);
            assert(pv.take(i + 1) =~= pv.take(i as int).push(pv[i as int]));
        }
        i = i + 1;
    }
    assert(pv.take(i as int) =~= pv);
    (cols, refs)
}

/// The foreign keys of table `schema`.`table`, one per constraint name in
/// name order, built from the catalog rows `raws`.
pub fn foreign_keys_for_table(schema: &str, table: &str, raws: &Vec<RawForeignKey>) -> (r: Vec<
    ForeignKey,
>)
    ensures
        r.deep_view() == table_foreign_keys(raws.deep_view(), schema@, table@),
{
    let rows = rows_at_table(schema, table, raws);
    let names = group_names_of(&rows);
    let ghost rv = rows.deep_view();
    let ghost gn = names.deep_view();
    let ghost f = |n: Seq<char>| grouped_foreign_key(rv, n);
    let mut out: Vec<ForeignKey> = Vec::new();
    let mut i: usize = 0;
    while i < names.len()
        invariant
            rv == rows.deep_view(),
            gn == names.deep_view(),
            gn == group_names(row_names::<RawForeignKey>(rv)),
            f == (|n: Seq<char>| grouped_foreign_key(rv, n)),
            i <= names.len(),
            out.deep_view() == gn.take(i as int).map_values(f),
        decreases names.len() - i,
    {
        let name = names[i].as_str();
        proof {
            assert(gn[i as int] == name@);
            assert(gn.contains(name@));
            lemma_group_has_rows::<RawForeignKey>(rv, name@);
        }
        let parts = parts_of(&rows, name);
        let (columns, referenced_columns) = foreign_key_columns(&parts);
        let first = &parts[0];
        let x = ForeignKey {
            name: owned(name),
            columns,
            referenced_schema: first.referenced_schema.clone(),
            referenced_table: first.referenced_table.clone(),
            referenced_columns,
            on_update: first.on_update.clone(),
            on_delete: first.on_delete.clone(),
        };
        assert(x.deep_view() == f(gn[i as int]));
        let ghost before = out;
        out.push(x);
        proof {
            crate::model::lemma_push_deep_view(before, out, x);
            assert(gn.take(i + 1) =~= gn.take(i as int).push(gn[i as int]));
        }
        i = i + 1;
    }
    assert(gn.take(i as int) =~= gn);
    out
}

// ---------------------------------------------------------------------------
// Reading catalog rows
// ---------------------------------------------------------------------------

/// Whether `r` is the catalog error that names `what` as missing.
pub open spec fn missing_error<T>(r: Result<T, DatabaseError>, what: Seq<char>) -> bool {
    r matches Err(DatabaseError::Catalog(m)) && m@ == what + " missing"@
}

/// The catalog error that names `what` as missing.
pub fn missing(what: &str) -> (r: DatabaseError)
    ensures
        r matches DatabaseError::Catalog(m) && m@ == what@ + " missing"@,
{
    let mut m = owned(what);
    push_str(&mut m, " missing");
    DatabaseError::Catalog(m)
}

// ---------------------------------------------------------------------------
// Laws
// ---------------------------------------------------------------------------

/// The indexes built from catalog rows come in name order, and each has as
/// many columns as the catalog lists rows for it.
pub proof fn law_catalog_indexes_in_name_order(
    raws: Seq<RawIndexSpec>,
    schema: Seq<char>,
    table: Seq<char>,
    primary_unique: bool,
)
    ensures
        is_sorted_by(table_indexes(raws, schema, table, primary_unique), view_keyed::<Index>()),
        forall|i: int|
            0 <= i < table_indexes(raws, schema, table, primary_unique).len() ==> (
            #[trigger] table_indexes(raws, schema, table, primary_unique)[i]).columns.len() == keep(
                keep(raws, at_table::<RawIndex>(schema, table)),
                named::<RawIndex>(table_indexes(raws, schema, table, primary_unique)[i].name),
            ).len(),
{
    let rows = keep(raws, at_table::<RawIndex>(schema, table));
    let names = row_names::<RawIndex>(rows);
    let r = table_indexes(raws, schema, table, primary_unique);
    lemma_sorted_by(distinct(names), view_keyed::<String>());
    assert forall|i: int| 0 <= i < r.len() implies (#[trigger] r[i]).columns.len() == keep(
        rows,
        named::<RawIndex>(r[i].name),
    ).len() by {
        lemma_sorted_by_len(keep(rows, named::<RawIndex>(r[i].name)), view_keyed::<RawIndex>());
    }
}

/// The foreign keys built from catalog rows come in name order, and each
/// pairs as many columns as the catalog lists rows for it.
pub proof fn law_catalog_foreign_keys_in_name_order(
    raws: Seq<RawForeignKeySpec>,
    schema: Seq<char>,
    table: Seq<char>,
)
    ensures
        is_sorted_by(table_foreign_keys(raws, schema, table), view_keyed::<ForeignKey>()),
        forall|i: int|
            0 <= i < table_foreign_keys(raws, schema, table).len() ==> {
                let fk = #[trigger] table_foreign_keys(raws, schema, table)[i];
                &&& fk.columns.len() == fk.referenced_columns.len()
                &&& fk.columns.len() == keep(
                    keep(raws, at_table::<RawForeignKey>(schema, table)),
                    named::<RawForeignKey>(fk.name),
                ).len()
            },
{
    let rows = keep(raws, at_table::<RawForeignKey>(schema, table));
    let names = row_names::<RawForeignKey>(rows);
    let r = table_foreign_keys(raws, schema, table);
    lemma_sorted_by(distinct(names), view_keyed::<String>());
    assert forall|i: int| 0 <= i < r.len() implies {
        let fk = #[trigger] r[i];
        &&& fk.columns.len() == fk.referenced_columns.len()
        &&& fk.columns.len() == keep(rows, named::<RawForeignKey>(fk.name)).len()
    } by {
        lemma_sorted_by_len(
            keep(rows, named::<RawForeignKey>(r[i].name)),
            view_keyed::<RawForeignKey>(),
        );
    }
}


// ---------------------------------------------------------------------------
// Names
// ---------------------------------------------------------------------------

/// A table or view, named by its namespace and name.
#[derive(Debug)]
pub struct QualifiedName {
    pub schema: String,
    pub name: String,
}

pub struct QualifiedNameSpec {
    pub schema: Seq<char>,
    pub name: Seq<char>,
}

impl View for QualifiedName {
    type V = QualifiedNameSpec;

    open spec fn view(&self) -> QualifiedNameSpec {
        QualifiedNameSpec { schema: self.schema@, name: self.name@ }
    }
}

impl DeepView for QualifiedName {
    type V = QualifiedNameSpec;

    open spec fn deep_view(&self) -> QualifiedNameSpec {
        self@
    }
}

} // verus!
