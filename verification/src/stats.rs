//! Schema statistics derived from the canonical model.
//!
//! Statistics never query a database; they count the facts already in the
//! [`Database`] model.
use vstd::prelude::*;

use crate::model::{Database, DatabaseSpec, SchemaViewSpec, TableSpec};
use crate::text::{decimal, decimal_string, owned, push_char, push_str};

verus! {

/// Counts of schema objects.
#[derive(Debug, Clone, Copy, PartialEq, Eq, Structural)]
pub struct Statistics {
    /// Number of tables.
    pub tables: usize,
    /// Number of views.
    pub views: usize,
    /// Number of columns across tables and views.
    pub columns: usize,
    /// Number of indexes across tables.
    pub indexes: usize,
    /// Number of foreign key constraints across tables.
    pub foreign_keys: usize,
}

/// The number of columns over `tables`.
pub open spec fn table_column_count(tables: Seq<TableSpec>) -> nat
    decreases tables.len(),
{
    if tables.len() == 0 {
        0
    } else {
        table_column_count(tables.drop_last()) + tables.last().columns.len()
    }
}

/// The number of columns over `views`.
pub open spec fn view_column_count(views: Seq<SchemaViewSpec>) -> nat
    decreases views.len(),
{
    if views.len() == 0 {
        0
    } else {
        view_column_count(views.drop_last()) + views.last().columns.len()
    }
}

/// The number of indexes over `tables`.
pub open spec fn index_count(tables: Seq<TableSpec>) -> nat
    decreases tables.len(),
{
    if tables.len() == 0 {
        0
    } else {
        index_count(tables.drop_last()) + tables.last().indexes.len()
    }
}

/// Whether every count of `db` fits in a `usize`.
pub open spec fn counts_fit(db: DatabaseSpec) -> bool {
    &&& table_column_count(db.tables) + view_column_count(db.views) <= usize::MAX
    &&& index_count(db.tables) <= usize::MAX
    &&& crate::model::foreign_key_count(db.tables) <= usize::MAX
}

proof fn lemma_table_counts_prefix(tables: Seq<TableSpec>, i: int)
    requires
        0 <= i <= tables.len(),
    ensures
        table_column_count(tables.take(i)) <= table_column_count(tables),
        index_count(tables.take(i)) <= index_count(tables),
        crate::model::foreign_key_count(tables.take(i)) <= crate::model::foreign_key_count(tables),
    decreases tables.len() - i,
{
    if i < tables.len() {
        lemma_table_counts_prefix(tables, i + 1);
        assert(tables.take(i + 1).drop_last() =~= tables.take(i));
    } else {
        assert(tables.take(i) =~= tables);
    }
}

proof fn lemma_view_counts_prefix(views: Seq<SchemaViewSpec>, i: int)
    requires
        0 <= i <= views.len(),
    ensures
        view_column_count(views.take(i)) <= view_column_count(views),
    decreases views.len() - i,
{
    if i < views.len() {
        lemma_view_counts_prefix(views, i + 1);
        assert(views.take(i + 1).drop_last() =~= views.take(i));
    } else {
        assert(views.take(i) =~= views);
    }
}

/// Whether every count of `database` fits in a `usize`, so that
/// [`Statistics::from`] may count it.
pub fn counts_fit_in_usize(database: &Database) -> (r: bool)
    ensures
        r == counts_fit(database@),
{
    let ghost tables = database@.tables;
    let ghost views = database@.views;
    let mut columns: usize = 0;
    let mut indexes: usize = 0;
    let mut foreign_keys: usize = 0;
    let mut i: usize = 0;
    while i < database.tables.len()
        invariant
            tables == database@.tables,
            views == database@.views,
            i <= database.tables.len(),
            columns == table_column_count(tables.take(i as int)),
            indexes == index_count(tables.take(i as int)),
            foreign_keys == crate::model::foreign_key_count(tables.take(i as int)),
        decreases database.tables.len() - i,
    {
        proof {
            assert(tables.take(i + 1).drop_last() =~= tables.take(i as int));
            assert(tables.take(i + 1).last() == database.tables[i as int]@);
            lemma_table_counts_prefix(tables, i + 1);
            lemma_view_counts_prefix(views, 0);
        }
        let t = &database.tables[i];
        if columns > usize::MAX - t.columns.len() || indexes > usize::MAX - t.indexes.len()
            || foreign_keys > usize::MAX - t.foreign_keys.len() {
            return false;
        }
        columns = columns + t.columns.len();
        indexes = indexes + t.indexes.len();
        foreign_keys = foreign_keys + t.foreign_keys.len();
        i = i + 1;
    }
    assert(tables.take(i as int) =~= tables);
    let ghost table_columns = columns as nat;
    let mut j: usize = 0;
    while j < database.views.len()
        invariant
            tables == database@.tables,
            views == database@.views,
            j <= database.views.len(),
            table_columns == table_column_count(tables),
            index_count(tables) <= usize::MAX,
            crate::model::foreign_key_count(tables) <= usize::MAX,
            columns == table_columns + view_column_count(views.take(j as int)),
        decreases database.views.len() - j,
    {
        proof {
            assert(views.take(j + 1).drop_last() =~= views.take(j as int));
            assert(views.take(j + 1).last() == database.views[j as int]@);
            lemma_view_counts_prefix(views, j + 1);
        }
        if columns > usize::MAX - database.views[j].columns.len() {
            return false;
        }
        columns = columns + database.views[j].columns.len();
        j = j + 1;
    }
    assert(views.take(j as int) =~= views);
    true
}

impl Statistics {
    /// Count the tables, views, columns, indexes and foreign keys of
    /// `database`.
    pub fn from(database: &Database) -> (r: Statistics)
        requires
            counts_fit(database@),
        ensures
            r.tables == database@.tables.len(),
            r.views == database@.views.len(),
            r.columns == table_column_count(database@.tables) + view_column_count(database@.views),
            r.indexes == index_count(database@.tables),
            r.foreign_keys == crate::model::foreign_key_count(database@.tables),
    {
        let ghost tables = database@.tables;
        let ghost views = database@.views;
        let mut columns: usize = 0;
        let mut indexes: usize = 0;
        let mut foreign_keys: usize = 0;
        let mut i: usize = 0;
        while i < database.tables.len()
            invariant
                tables == database@.tables,
                views == database@.views,
                counts_fit(database@),
                i <= database.tables.len(),
                columns == table_column_count(tables.take(i as int)),
                indexes == index_count(tables.take(i as int)),
                foreign_keys == crate::model::foreign_key_count(tables.take(i as int)),
            decreases database.tables.len() - i,
        {
            proof {
                assert(tables.take(i + 1).drop_last() =~= tables.take(i as int));
                assert(tables.take(i + 1).last() == database.tables[i as int]@);
                lemma_table_counts_prefix(tables, i + 1);
            }
            let t = &database.tables[i];
            columns = columns + t.columns.len();
            indexes = indexes + t.indexes.len();
            foreign_keys = foreign_keys + t.foreign_keys.len();
            i = i + 1;
        }
        assert(tables.take(i as int) =~= tables);
        let ghost table_columns = columns as nat;
        let mut j: usize = 0;
        while j < database.views.len()
            invariant
                tables == database@.tables,
                views == database@.views,
                counts_fit(database@),
                j <= database.views.len(),
                table_columns == table_column_count(tables),
                columns == table_columns + view_column_count(views.take(j as int)),
            decreases database.views.len() - j,
        {
            proof {
                assert(views.take(j + 1).drop_last() =~= views.take(j as int));
                assert(views.take(j + 1).last() == database.views[j as int]@);
                lemma_view_counts_prefix(views, j + 1);
            }
            columns = columns + database.views[j].columns.len();
            j = j + 1;
        }
        assert(views.take(j as int) =~= views);
        Statistics {
            tables: database.tables.len(),
            views: database.views.len(),
            columns,
            indexes,
            foreign_keys,
        }
    }
}

/// `n` spaces, none when `n` is not positive.
pub open spec fn spaces(n: int) -> Seq<char> {
    Seq::new(if n > 0 { n as nat } else { 0 }, |i: int| ' ')
}

/// One line of the summary: the label left-aligned in 14 columns, the
/// count right-aligned in 5.
pub open spec fn stat_line(label: Seq<char>, n: nat) -> Seq<char> {
    label + spaces(14 - label.len()) + spaces(5 - decimal(n).len()) + decimal(n)
}

/// The human-readable summary of `s`, one count per line, no newline after
/// the last.
pub open spec fn statistics_text(s: Statistics) -> Seq<char> {
    stat_line("Tables:"@, s.tables as nat) + "\n"@ + stat_line("Views:"@, s.views as nat) + "\n"@
        + stat_line("Columns:"@, s.columns as nat) + "\n"@ + stat_line("Indexes:"@, s.indexes as nat)
        + "\n"@ + stat_line("Foreign Keys:"@, s.foreign_keys as nat)
}

fn push_spaces(out: &mut String, n: usize)
    ensures
        final(out)@ == old(out)@ + spaces(n as int),
{
    let ghost base = out@;
    let mut i: usize = 0;
    while i < n
        invariant
            i <= n,
            out@ == base + spaces(i as int),
        decreases n - i,
    {
        push_char(out, ' ');
        i = i + 1;
        assert(out@ =~= base + spaces(i as int));
    }
}

fn push_stat_line(out: &mut String, label: &str, n: usize)
    ensures
        final(out)@ == old(out)@ + stat_line(label@, n as nat),
{
    let ghost base = out@;
    push_str(out, label);
    let label_len = crate::text::chars_of(label).len();
    if label_len < 14 {
        push_spaces(out, 14 - label_len);
    } else {
        assert(spaces(14 - label@.len()) =~= Seq::<char>::empty());
    }
    let digits = decimal_string(n);
    let digits_len = crate::text::chars_of(digits.as_str()).len();
    if digits_len < 5 {
        push_spaces(out, 5 - digits_len);
    } else {
        assert(spaces(5 - decimal(n as nat).len()) =~= Seq::<char>::empty());
    }
    push_str(out, digits.as_str());
    assert(out@ =~= base + stat_line(label@, n as nat));
}

impl Statistics {
    /// The counts as a short aligned summary, one per line.
    pub fn to_string(&self) -> (r: String)
        ensures
            r@ == statistics_text(*self),
    {
        let mut out = String::new();
        push_stat_line(&mut out, "Tables:", self.tables);
        push_str(&mut out, "\n");
        push_stat_line(&mut out, "Views:", self.views);
        push_str(&mut out, "\n");
        push_stat_line(&mut out, "Columns:", self.columns);
        push_str(&mut out, "\n");
        push_stat_line(&mut out, "Indexes:", self.indexes);
        push_str(&mut out, "\n");
        push_stat_line(&mut out, "Foreign Keys:", self.foreign_keys);
        assert(out@ =~= statistics_text(*self));
        out
    }
}

proof fn lemma_table_counts_add(a: Seq<TableSpec>, b: Seq<TableSpec>)
    ensures
        table_column_count(a + b) == table_column_count(a) + table_column_count(b),
        index_count(a + b) == index_count(a) + index_count(b),
        crate::model::foreign_key_count(a + b) == crate::model::foreign_key_count(a)
            + crate::model::foreign_key_count(b),
    decreases b.len(),
{
    if b.len() > 0 {
        lemma_table_counts_add(a, b.drop_last());
        assert((a + b).drop_last() =~= a + b.drop_last());
        assert((a + b).last() == b.last());
    } else {
        assert(a + b =~= a);
    }
}

proof fn lemma_view_counts_add(a: Seq<SchemaViewSpec>, b: Seq<SchemaViewSpec>)
    ensures
        view_column_count(a + b) == view_column_count(a) + view_column_count(b),
    decreases b.len(),
{
    if b.len() > 0 {
        lemma_view_counts_add(a, b.drop_last());
        assert((a + b).drop_last() =~= a + b.drop_last());
        assert((a + b).last() == b.last());
    } else {
        assert(a + b =~= a);
    }
}

/// The counts add up: a single table counts its own columns, indexes and
/// foreign keys, a single view its own columns, and the counts of two
/// lists of tables (or views) put together are the sums of their counts.
pub proof fn law_counts_add_up(a: Seq<TableSpec>, b: Seq<TableSpec>, va: Seq<SchemaViewSpec>, vb: Seq<SchemaViewSpec>)
    ensures
        table_column_count(a + b) == table_column_count(a) + table_column_count(b),
        index_count(a + b) == index_count(a) + index_count(b),
        crate::model::foreign_key_count(a + b) == crate::model::foreign_key_count(a)
            + crate::model::foreign_key_count(b),
        view_column_count(va + vb) == view_column_count(va) + view_column_count(vb),
        a.len() == 1 ==> table_column_count(a) == a[0].columns.len() && index_count(a) == a[0].indexes.len()
            && crate::model::foreign_key_count(a) == a[0].foreign_keys.len(),
        va.len() == 1 ==> view_column_count(va) == va[0].columns.len(),
{
    lemma_table_counts_add(a, b);
    lemma_view_counts_add(va, vb);
    if a.len() == 1 {
        let e = Seq::<TableSpec>::empty();
        assert(a.drop_last() =~= e);
        assert(a.last() == a[0]);
        assert(table_column_count(e) == 0 && index_count(e) == 0 && crate::model::foreign_key_count(e) == 0);
        assert(table_column_count(a) == table_column_count(a.drop_last()) + a.last().columns.len());
        assert(index_count(a) == index_count(a.drop_last()) + a.last().indexes.len());
        assert(crate::model::foreign_key_count(a) == crate::model::foreign_key_count(a.drop_last())
            + a.last().foreign_keys.len());
    }
    if va.len() == 1 {
        let e = Seq::<SchemaViewSpec>::empty();
        assert(va.drop_last() =~= e);
        assert(va.last() == va[0]);
        assert(view_column_count(e) == 0);
        assert(view_column_count(va) == view_column_count(va.drop_last()) + va.last().columns.len());
    }
}

} // verus!
