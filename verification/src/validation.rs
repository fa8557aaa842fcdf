//! Pure validation rule engine over the canonical schema model.
//!
//! Rules never mutate the schema. They produce a deterministic report of
//! findings.
use vstd::prelude::*;

use crate::model::{
    clone_strings, concat_map, lemma_concat_map_step, lemma_push_deep_view, ColumnSpec, Database, DatabaseSpec,
    Column, Engine, ForeignKey, ForeignKeySpec, Index, IndexSpec, SchemaViewSpec, Table, TableSpec,
};
use crate::order::{
    is_sorted_by, key_le, key_lt, lemma_key_lt_nil, lemma_key_lt_step, lemma_sorted_by,
    lemma_sorted_by_len, sorted_by, stable_sort, text_lt,
    text_lt_exec, texts_eq, texts_lt_exec, texts_order, view_keyed, KeyPart, Keyed,
};
use crate::text::{decimal, decimal_string, is_blank, join, join_strings, owned, push_str, str_is_blank};

verus! {

/// Severity of a validation finding.
#[derive(Debug, Clone, Copy, PartialEq, Eq, Structural)]
pub enum Severity {
    /// A structural problem that should block reliance on the schema.
    Error,
    /// A design concern that should be reviewed but may be intentional.
    Warning,
}

/// A validation rule that produced a finding, in report order.
#[derive(Debug, Clone, Copy, PartialEq, Eq, Structural)]
pub enum Rule {
    /// A table has no primary key.
    MissingPrimaryKey,
    /// A foreign key references a table or column that does not exist.
    BrokenForeignKey,
    /// Two or more indexes on a table cover the same columns with the same
    /// uniqueness.
    DuplicateIndex,
    /// Foreign keys form a directed cycle between tables.
    CircularReference,
    /// A required metadata value is empty or invalid.
    InvalidMetadata,
}

/// One thing the validation engine noticed about the schema.
#[derive(Debug, PartialEq)]
pub struct Finding {
    /// The rule that flagged the finding.
    pub rule: Rule,
    /// How serious the finding is.
    pub severity: Severity,
    /// Schema the finding applies to, if any.
    pub schema: String,
    /// Table the finding applies to, if any.
    pub table: String,
    /// Columns the finding applies to, if any.
    pub columns: Vec<String>,
    /// Human-readable explanation.
    pub message: String,
}

/// The result of validating a schema.
#[derive(Debug, PartialEq)]
pub struct ValidationReport {
    /// Findings sorted deterministically.
    pub findings: Vec<Finding>,
    /// Summary counts.
    pub summary: Summary,
}

/// Counts derived from the validation pass.
#[derive(Debug, Clone, Copy, PartialEq, Eq)]
pub struct Summary {
    /// Number of tables inspected.
    pub tables: usize,
    /// Number of views inspected.
    pub views: usize,
    /// Total number of findings.
    pub finding_count: usize,
    /// Number of error findings.
    pub error_count: usize,
    /// Number of warning findings.
    pub warning_count: usize,
}

pub struct FindingSpec {
    pub rule: Rule,
    pub severity: Severity,
    pub schema: Seq<char>,
    pub table: Seq<char>,
    pub columns: Seq<Seq<char>>,
    pub message: Seq<char>,
}

impl vstd::view::View for Finding {
    type V = FindingSpec;

    open spec fn view(&self) -> FindingSpec {
        FindingSpec {
            rule: self.rule,
            severity: self.severity,
            schema: self.schema@,
            table: self.table@,
            columns: self.columns.deep_view(),
            message: self.message@,
        }
    }
}

impl DeepView for Finding {
    type V = FindingSpec;

    open spec fn deep_view(&self) -> FindingSpec {
        self@
    }
}

/// Where a rule stands in report order.
pub open spec fn rule_rank(r: Rule) -> int {
    match r {
        Rule::MissingPrimaryKey => 0,
        Rule::BrokenForeignKey => 1,
        Rule::DuplicateIndex => 2,
        Rule::CircularReference => 3,
        Rule::InvalidMetadata => 4,
    }
}

fn rule_rank_exec(r: Rule) -> (n: u8)
    ensures
        n as int == rule_rank(r),
{
    match r {
        Rule::MissingPrimaryKey => 0,
        Rule::BrokenForeignKey => 1,
        Rule::DuplicateIndex => 2,
        Rule::CircularReference => 3,
        Rule::InvalidMetadata => 4,
    }
}

/// Findings sort by rule, schema, table, columns, then message.
pub open spec fn finding_key(f: FindingSpec) -> Seq<KeyPart> {
    seq![
        KeyPart::Num(rule_rank(f.rule)),
        KeyPart::Text(f.schema),
        KeyPart::Text(f.table),
        KeyPart::Texts(f.columns),
        KeyPart::Text(f.message),
    ]
}

impl Keyed for Finding {
    open spec fn view_key(v: FindingSpec) -> Seq<KeyPart> {
        finding_key(v)
    }

    fn key_le(&self, other: &Self) -> (r: bool) {
        let ghost x = finding_key(other@);
        let ghost y = finding_key(self@);
        let ghost x1 = x.drop_first();
        let ghost y1 = y.drop_first();
        let ghost x2 = x1.drop_first();
        let ghost y2 = y1.drop_first();
        let ghost x3 = x2.drop_first();
        let ghost y3 = y2.drop_first();
        let ghost x4 = x3.drop_first();
        let ghost y4 = y3.drop_first();
        proof {
            lemma_key_lt_step(x, y);
            lemma_key_lt_step(x1, y1);
            lemma_key_lt_step(x2, y2);
            lemma_key_lt_step(x3, y3);
            lemma_key_lt_step(x4, y4);
            lemma_key_lt_nil(x4.drop_first(), y4.drop_first());
        }
        let ro = rule_rank_exec(other.rule);
        let rs = rule_rank_exec(self.rule);
        let lt = if ro != rs {
            assert(x[0] != y[0]);
            ro < rs
        } else if !(other.schema == self.schema) {
            assert(x1[0] != y1[0]);
            text_lt_exec(other.schema.as_str(), self.schema.as_str())
        } else if !(other.table == self.table) {
            assert(x2[0] != y2[0]);
            text_lt_exec(other.table.as_str(), self.table.as_str())
        } else if !texts_eq(&other.columns, &self.columns) {
            assert(x3[0] != y3[0]);
            texts_lt_exec(&other.columns, &self.columns)
        } else {
            assert(x3[0] == y3[0]);
            text_lt_exec(other.message.as_str(), self.message.as_str())
        };
        assert(lt == key_lt(x, y));
        !lt
    }
}

/// A finding with the given parts.
pub open spec fn finding(
    rule: Rule,
    severity: Severity,
    schema: Seq<char>,
    table: Seq<char>,
    columns: Seq<Seq<char>>,
    message: Seq<char>,
) -> FindingSpec {
    FindingSpec { rule, severity, schema, table, columns, message }
}

fn make_finding(
    rule: Rule,
    severity: Severity,
    schema: &String,
    table: &String,
    columns: Vec<String>,
    message: String,
) -> (r: Finding)
    ensures
        r@ == finding(rule, severity, schema@, table@, columns.deep_view(), message@),
{
    Finding { rule, severity, schema: schema.clone(), table: table.clone(), columns, message }
}

fn no_columns() -> (r: Vec<String>)
    ensures
        r.deep_view() == Seq::<Seq<char>>::empty(),
{
    let r: Vec<String> = Vec::new();
    assert(r.deep_view() =~= Seq::<Seq<char>>::empty());
    r
}

fn one_column(c: &String) -> (r: Vec<String>)
    ensures
        r.deep_view() == seq![c@],
{
    let r: Vec<String> = vec![c.clone()];
    assert(r.deep_view() =~= seq![c@]);
    r
}

// ---------------------------------------------------------------------------
// Missing primary keys
// ---------------------------------------------------------------------------

/// Whether some column of `t` takes part in the primary key.
pub open spec fn has_primary_key(t: TableSpec) -> bool {
    exists|i: int| 0 <= i < t.columns.len() && (#[trigger] t.columns[i]).primary_key
}

/// The finding for `t` when it has no primary key.
pub open spec fn missing_primary_key_of(t: TableSpec) -> Seq<FindingSpec> {
    if has_primary_key(t) {
        Seq::empty()
    } else {
        seq![
            finding(
                Rule::MissingPrimaryKey,
                Severity::Warning,
                t.schema,
                t.name,
                Seq::empty(),
                "table has no primary key"@,
            ),
        ]
    }
}

fn table_has_primary_key(t: &Table) -> (r: bool)
    ensures
        r == has_primary_key(t@),
{
    let mut i: usize = 0;
    while i < t.columns.len()
        invariant
            i <= t.columns.len(),
            forall|j: int| 0 <= j < i ==> !(#[trigger] t@.columns[j]).primary_key,
        decreases t.columns.len() - i,
    {
        if t.columns[i].primary_key {
            assert(t@.columns[i as int].primary_key);
            return true;
        }
        i = i + 1;
    }
    false
}

pub open spec fn missing_primary_key_of_fn() -> spec_fn(TableSpec) -> Seq<FindingSpec> {
    |t: TableSpec| missing_primary_key_of(t)
}

/// The missing-primary-key findings of a database, table by table.
pub open spec fn missing_primary_keys_of(tables: Seq<TableSpec>) -> Seq<FindingSpec> {
    concat_map(tables, missing_primary_key_of_fn())
}

fn missing_primary_keys(database: &Database, findings: &mut Vec<Finding>)
    ensures
        final(findings).deep_view() == old(findings).deep_view() + missing_primary_keys_of(
            database@.tables,
        ),
{
    let ghost tables = database@.tables;
    let ghost f = missing_primary_key_of_fn();
    let ghost base = findings.deep_view();
    let mut i: usize = 0;
    while i < database.tables.len()
        invariant
            tables == database@.tables,
            f == missing_primary_key_of_fn(),
            i <= database.tables.len(),
            findings.deep_view() == base + concat_map(tables.take(i as int), f),
        decreases database.tables.len() - i,
    {
        let table = &database.tables[i];
        proof {
            lemma_concat_map_step(tables, i as int, f);
        }
        if !table_has_primary_key(table) {
            let fd = make_finding(
                Rule::MissingPrimaryKey,
                Severity::Warning,
                &table.schema,
                &table.name,
                no_columns(),
                owned("table has no primary key"),
            );
            let ghost before = *findings;
            let ghost g = fd;
            findings.push(fd);
            proof {
                lemma_push_deep_view(before, *findings, g);
            }
        }
        i = i + 1;
        assert(findings.deep_view() =~= base + concat_map(tables.take(i as int), f));
    }
    assert(tables.take(i as int) =~= tables);
}

// ---------------------------------------------------------------------------
// Broken foreign keys
// ---------------------------------------------------------------------------

/// The position of the last table named `schema`.`name`, or -1: lookups by
/// name see the last of several tables that share it.
pub open spec fn last_table_index(tables: Seq<TableSpec>, schema: Seq<char>, name: Seq<char>) -> int
    decreases tables.len(),
{
    if tables.len() == 0 {
        -1
    } else if tables.last().schema == schema && tables.last().name == name {
        tables.len() - 1
    } else {
        last_table_index(tables.drop_last(), schema, name)
    }
}

/// Whether `t` has a column named `name`.
pub open spec fn has_column_named(t: TableSpec, name: Seq<char>) -> bool {
    exists|i: int| 0 <= i < t.columns.len() && (#[trigger] t.columns[i]).name == name
}

/// A broken-foreign-key finding on table `t` for `fk`.
pub open spec fn broken_fk_finding(t: TableSpec, fk: ForeignKeySpec, message: Seq<char>) -> FindingSpec {
    finding(Rule::BrokenForeignKey, Severity::Error, t.schema, t.name, fk.columns, message)
}

/// The finding for one referenced column `c` that `target` lacks.
pub open spec fn missing_column_finding(
    t: TableSpec,
    fk: ForeignKeySpec,
    target: TableSpec,
    c: Seq<char>,
) -> Seq<FindingSpec> {
    if has_column_named(target, c) {
        Seq::empty()
    } else {
        seq![
            broken_fk_finding(
                t,
                fk,
                "foreign key references column `"@ + c + "` which does not exist in "@
                    + target.schema + "."@ + target.name,
            ),
        ]
    }
}

pub open spec fn missing_column_of(t: TableSpec, fk: ForeignKeySpec, target: TableSpec) -> spec_fn(
    Seq<char>,
) -> Seq<FindingSpec> {
    |c: Seq<char>| missing_column_finding(t, fk, target, c)
}

/// What is wrong with foreign key `fk` of table `t`, among `tables`.
pub open spec fn foreign_key_findings(
    tables: Seq<TableSpec>,
    t: TableSpec,
    fk: ForeignKeySpec,
) -> Seq<FindingSpec> {
    let ti = last_table_index(tables, fk.referenced_schema, fk.referenced_table);
    if ti < 0 {
        seq![
            broken_fk_finding(
                t,
                fk,
                "foreign key references missing table "@ + fk.referenced_schema + "."@
                    + fk.referenced_table,
            ),
        ]
    } else if fk.columns.len() != fk.referenced_columns.len() {
        seq![
            broken_fk_finding(
                t,
                fk,
                "foreign key column count ("@ + decimal(fk.columns.len()) + ") does not match referenced column count ("@
                    + decimal(fk.referenced_columns.len()) + ")"@,
            ),
        ]
    } else {
        concat_map(fk.referenced_columns, missing_column_of(t, fk, tables[ti]))
    }
}

pub open spec fn foreign_key_findings_of(tables: Seq<TableSpec>, t: TableSpec) -> spec_fn(
    ForeignKeySpec,
) -> Seq<FindingSpec> {
    |fk: ForeignKeySpec| foreign_key_findings(tables, t, fk)
}

/// The broken-foreign-key findings of table `t`.
pub open spec fn table_foreign_key_findings(tables: Seq<TableSpec>, t: TableSpec) -> Seq<FindingSpec> {
    concat_map(t.foreign_keys, foreign_key_findings_of(tables, t))
}

pub open spec fn table_foreign_key_findings_of(tables: Seq<TableSpec>) -> spec_fn(TableSpec) -> Seq<
    FindingSpec,
> {
    |t: TableSpec| table_foreign_key_findings(tables, t)
}

/// Every broken-foreign-key finding of a database, table by table.
pub open spec fn broken_foreign_keys_of(tables: Seq<TableSpec>) -> Seq<FindingSpec> {
    concat_map(tables, table_foreign_key_findings_of(tables))
}

fn find_last_table(tables: &Vec<Table>, schema: &String, name: &String) -> (r: usize)
    ensures
        r < tables.len() ==> r as int == last_table_index(tables.deep_view(), schema@, name@),
        r >= tables.len() ==> last_table_index(tables.deep_view(), schema@, name@) < 0,
{
    let ghost all = tables.deep_view();
    let mut found: usize = tables.len();
    let mut j: usize = 0;
    while j < tables.len()
        invariant
            all == tables.deep_view(),
            j <= tables.len(),
            found < tables.len() ==> found as int == last_table_index(all.take(j as int), schema@, name@),
            found >= tables.len() ==> last_table_index(all.take(j as int), schema@, name@) < 0,
            found < tables.len() || found == tables.len(),
        decreases tables.len() - j,
    {
        proof {
            assert(all.take(j + 1).drop_last() =~= all.take(j as int));
            assert(all.take(j + 1).last() == tables[j as int]@);
        }
        if tables[j].schema == *schema && tables[j].name == *name {
            found = j;
        }
        j = j + 1;
    }
    assert(all.take(j as int) =~= all);
    found
}

fn table_has_column(t: &Table, name: &String) -> (r: bool)
    ensures
        r == has_column_named(t@, name@),
{
    let mut i: usize = 0;
    while i < t.columns.len()
        invariant
            i <= t.columns.len(),
            forall|j: int| 0 <= j < i ==> (#[trigger] t@.columns[j]).name != name@,
        decreases t.columns.len() - i,
    {
        if t.columns[i].name == *name {
            assert(t@.columns[i as int].name == name@);
            return true;
        }
        i = i + 1;
    }
    false
}

fn push_finding(findings: &mut Vec<Finding>, fd: Finding)
    ensures
        final(findings).deep_view() == old(findings).deep_view().push(fd@),
{
    let ghost before = *findings;
    let ghost g = fd;
    findings.push(fd);
    proof {
        lemma_push_deep_view(before, *findings, g);
    }
}

fn missing_columns(t: &Table, fk: &ForeignKey, target: &Table, findings: &mut Vec<Finding>)
    ensures
        final(findings).deep_view() == old(findings).deep_view() + concat_map(
            fk@.referenced_columns,
            missing_column_of(t@, fk@, target@),
        ),
{
    let ghost cols = fk@.referenced_columns;
    let ghost f = missing_column_of(t@, fk@, target@);
    let ghost base = findings.deep_view();
    let mut i: usize = 0;
    while i < fk.referenced_columns.len()
        invariant
            cols == fk@.referenced_columns,
            cols.len() == fk.referenced_columns.len(),
            f == missing_column_of(t@, fk@, target@),
            i <= fk.referenced_columns.len(),
            findings.deep_view() == base + concat_map(cols.take(i as int), f),
        decreases fk.referenced_columns.len() - i,
    {
        let column = &fk.referenced_columns[i];
        proof {
            lemma_concat_map_step(cols, i as int, f);
            assert(cols[i as int] == column@);
        }
        if !table_has_column(target, column) {
            let mut message = owned("foreign key references column `");
            push_str(&mut message, column.as_str());
            push_str(&mut message, "` which does not exist in ");
            push_str(&mut message, target.schema.as_str());
            push_str(&mut message, ".");
            push_str(&mut message, target.name.as_str());
            let fd = make_finding(
                Rule::BrokenForeignKey,
                Severity::Error,
                &t.schema,
                &t.name,
                clone_strings(&fk.columns),
                message,
            );
            push_finding(findings, fd);
        }
        i = i + 1;
        assert(findings.deep_view() =~= base + concat_map(cols.take(i as int), f));
    }
    assert(cols.take(i as int) =~= cols);
}

fn foreign_key_problems(database: &Database, t: &Table, fk: &ForeignKey, findings: &mut Vec<Finding>)
    ensures
        final(findings).deep_view() == old(findings).deep_view() + foreign_key_findings(
            database@.tables,
            t@,
            fk@,
        ),
{
    let ti = find_last_table(&database.tables, &fk.referenced_schema, &fk.referenced_table);
    if ti >= database.tables.len() {
        let mut message = owned("foreign key references missing table ");
        push_str(&mut message, fk.referenced_schema.as_str());
        push_str(&mut message, ".");
        push_str(&mut message, fk.referenced_table.as_str());
        let fd = make_finding(
            Rule::BrokenForeignKey,
            Severity::Error,
            &t.schema,
            &t.name,
            clone_strings(&fk.columns),
            message,
        );
        push_finding(findings, fd);
        assert(seq![fd@] =~= foreign_key_findings(database@.tables, t@, fk@));
    } else if fk.columns.len() != fk.referenced_columns.len() {
        let mut message = owned("foreign key column count (");
        let a = decimal_string(fk.columns.len());
        push_str(&mut message, a.as_str());
        push_str(&mut message, ") does not match referenced column count (");
        let b = decimal_string(fk.referenced_columns.len());
        push_str(&mut message, b.as_str());
        push_str(&mut message, ")");
        let fd = make_finding(
            Rule::BrokenForeignKey,
            Severity::Error,
            &t.schema,
            &t.name,
            clone_strings(&fk.columns),
            message,
        );
        push_finding(findings, fd);
        assert(seq![fd@] =~= foreign_key_findings(database@.tables, t@, fk@));
    } else {
        missing_columns(t, fk, &database.tables[ti], findings);
    }
}

fn table_foreign_key_problems(database: &Database, t: &Table, findings: &mut Vec<Finding>)
    ensures
        final(findings).deep_view() == old(findings).deep_view() + table_foreign_key_findings(
            database@.tables,
            t@,
        ),
{
    let ghost fks = t@.foreign_keys;
    let ghost f = foreign_key_findings_of(database@.tables, t@);
    let ghost base = findings.deep_view();
    let mut i: usize = 0;
    while i < t.foreign_keys.len()
        invariant
            fks == t@.foreign_keys,
            fks.len() == t.foreign_keys.len(),
            f == foreign_key_findings_of(database@.tables, t@),
            i <= t.foreign_keys.len(),
            findings.deep_view() == base + concat_map(fks.take(i as int), f),
        decreases t.foreign_keys.len() - i,
    {
        proof {
            lemma_concat_map_step(fks, i as int, f);
        }
        foreign_key_problems(database, t, &t.foreign_keys[i], findings);
        i = i + 1;
        assert(findings.deep_view() =~= base + concat_map(fks.take(i as int), f));
    }
    assert(fks.take(i as int) =~= fks);
}

fn broken_foreign_keys(database: &Database, findings: &mut Vec<Finding>)
    ensures
        final(findings).deep_view() == old(findings).deep_view() + broken_foreign_keys_of(
            database@.tables,
        ),
{
    let ghost tables = database@.tables;
    let ghost f = table_foreign_key_findings_of(tables);
    let ghost base = findings.deep_view();
    let mut i: usize = 0;
    while i < database.tables.len()
        invariant
            tables == database@.tables,
            tables.len() == database.tables.len(),
            f == table_foreign_key_findings_of(tables),
            i <= database.tables.len(),
            findings.deep_view() == base + concat_map(tables.take(i as int), f),
        decreases database.tables.len() - i,
    {
        proof {
            lemma_concat_map_step(tables, i as int, f);
        }
        table_foreign_key_problems(database, &database.tables[i], findings);
        i = i + 1;
        assert(findings.deep_view() =~= base + concat_map(tables.take(i as int), f));
    }
    assert(tables.take(i as int) =~= tables);
}

// ---------------------------------------------------------------------------
// Duplicate indexes
// ---------------------------------------------------------------------------

/// Two indexes are duplicates when they agree on uniqueness and on their
/// columns, in order.
pub open spec fn same_signature(a: IndexSpec, b: IndexSpec) -> bool {
    a.unique == b.unique && a.columns == b.columns
}

/// The names of the indexes in `ixs` with the signature of `x`, in order.
pub open spec fn signature_names(ixs: Seq<IndexSpec>, x: IndexSpec) -> Seq<Seq<char>>
    decreases ixs.len(),
{
    if ixs.len() == 0 {
        Seq::empty()
    } else if same_signature(ixs.last(), x) {
        signature_names(ixs.drop_last(), x).push(ixs.last().name)
    } else {
        signature_names(ixs.drop_last(), x)
    }
}

/// Whether the index at `i` is the first with its signature.
pub open spec fn first_of_signature(ixs: Seq<IndexSpec>, i: int) -> bool {
    forall|j: int| 0 <= j < i ==> !same_signature(#[trigger] ixs[j], ixs[i])
}

/// The message for a group of duplicate indexes.
pub open spec fn duplicate_index_message(x: IndexSpec, names: Seq<Seq<char>>) -> Seq<char> {
    "duplicate "@ + (if x.unique {
        "unique "@
    } else {
        ""@
    }) + "index on columns ("@ + join(x.columns, ", "@) + "): "@ + join(
        sorted_by(names, view_keyed::<String>()),
        ", "@,
    )
}

/// The finding for the group whose first index is at `i`, if that group
/// holds two or more indexes.
pub open spec fn duplicate_group(t: TableSpec, i: int) -> Seq<FindingSpec> {
    let x = t.indexes[i];
    let names = signature_names(t.indexes, x);
    if first_of_signature(t.indexes, i) && names.len() >= 2 {
        seq![
            finding(
                Rule::DuplicateIndex,
                Severity::Warning,
                t.schema,
                t.name,
                x.columns,
                duplicate_index_message(x, names),
            ),
        ]
    } else {
        Seq::empty()
    }
}

/// The duplicate-index findings for the groups that start among the first
/// `k` indexes of `t`.
pub open spec fn duplicate_groups(t: TableSpec, k: int) -> Seq<FindingSpec>
    decreases k,
{
    if k <= 0 {
        Seq::empty()
    } else {
        duplicate_groups(t, k - 1) + duplicate_group(t, k - 1)
    }
}

/// The duplicate-index findings of table `t`, one per group.
pub open spec fn table_duplicate_indexes(t: TableSpec) -> Seq<FindingSpec> {
    duplicate_groups(t, t.indexes.len() as int)
}

fn same_signature_exec(a: &Index, b: &Index) -> (r: bool)
    ensures
        r == same_signature(a@, b@),
{
    a.unique == b.unique && texts_eq(&a.columns, &b.columns)
}

fn names_with_signature(ixs: &Vec<Index>, x: &Index) -> (r: Vec<String>)
    ensures
        r.deep_view() == signature_names(ixs.deep_view(), x@),
{
    let ghost all = ixs.deep_view();
    let mut out: Vec<String> = Vec::new();
    let mut j: usize = 0;
    assert(out.deep_view() =~= Seq::<Seq<char>>::empty());
    while j < ixs.len()
        invariant
            all == ixs.deep_view(),
            j <= ixs.len(),
            out.deep_view() == signature_names(all.take(j as int), x@),
        decreases ixs.len() - j,
    {
        proof {
            assert(all.take(j + 1).drop_last() =~= all.take(j as int));
            assert(all.take(j + 1).last() == ixs[j as int]@);
        }
        if same_signature_exec(&ixs[j], x) {
            let name = ixs[j].name.clone();
            let ghost before = out;
            let ghost g = name;
            out.push(name);
            proof {
                lemma_push_deep_view(before, out, g);
            }
        }
        j = j + 1;
    }
    assert(all.take(j as int) =~= all);
    out
}

fn is_first_of_signature(ixs: &Vec<Index>, i: usize) -> (r: bool)
    requires
        i < ixs.len(),
    ensures
        r == first_of_signature(ixs.deep_view(), i as int),
{
    let ghost all = ixs.deep_view();
    let mut j: usize = 0;
    while j < i
        invariant
            all == ixs.deep_view(),
            i < ixs.len(),
            j <= i,
            forall|p: int| 0 <= p < j ==> !same_signature(#[trigger] all[p], all[i as int]),
        decreases i - j,
    {
        if same_signature_exec(&ixs[j], &ixs[i]) {
            assert(same_signature(all[j as int], all[i as int]));
            return false;
        }
        j = j + 1;
    }
    true
}

fn table_duplicate_index_problems(t: &Table, findings: &mut Vec<Finding>)
    ensures
        final(findings).deep_view() == old(findings).deep_view() + table_duplicate_indexes(t@),
{
    let ghost base = findings.deep_view();
    let mut i: usize = 0;
    while i < t.indexes.len()
        invariant
            i <= t.indexes.len(),
            findings.deep_view() == base + duplicate_groups(t@, i as int),
        decreases t.indexes.len() - i,
    {
        let ix = &t.indexes[i];
        let first = is_first_of_signature(&t.indexes, i);
        let mut names = names_with_signature(&t.indexes, ix);
        if first && names.len() >= 2 {
            let ghost unsorted = names.deep_view();
            stable_sort(&mut names);
            let mut message = owned("duplicate ");
            if ix.unique {
                push_str(&mut message, "unique ");
            }
            proof {
                reveal_strlit("");
            }
            push_str(&mut message, "index on columns (");
            let cols = join_strings(&ix.columns, ", ");
            push_str(&mut message, cols.as_str());
            push_str(&mut message, "): ");
            let listed = join_strings(&names, ", ");
            push_str(&mut message, listed.as_str());
            assert(message@ =~= duplicate_index_message(ix@, unsorted));
            let fd = make_finding(
                Rule::DuplicateIndex,
                Severity::Warning,
                &t.schema,
                &t.name,
                clone_strings(&ix.columns),
                message,
            );
            push_finding(findings, fd);
        }
        i = i + 1;
        assert(findings.deep_view() =~= base + duplicate_groups(t@, i as int));
    }
}

fn duplicate_indexes(database: &Database, findings: &mut Vec<Finding>)
    ensures
        final(findings).deep_view() == old(findings).deep_view() + concat_map(
            database@.tables,
            table_duplicate_indexes_of(),
        ),
{
    let ghost tables = database@.tables;
    let ghost f = table_duplicate_indexes_of();
    let ghost base = findings.deep_view();
    let mut i: usize = 0;
    while i < database.tables.len()
        invariant
            tables == database@.tables,
            tables.len() == database.tables.len(),
            f == table_duplicate_indexes_of(),
            i <= database.tables.len(),
            findings.deep_view() == base + concat_map(tables.take(i as int), f),
        decreases database.tables.len() - i,
    {
        proof {
            lemma_concat_map_step(tables, i as int, f);
        }
        table_duplicate_index_problems(&database.tables[i], findings);
        i = i + 1;
        assert(findings.deep_view() =~= base + concat_map(tables.take(i as int), f));
    }
    assert(tables.take(i as int) =~= tables);
}

pub open spec fn table_duplicate_indexes_of() -> spec_fn(TableSpec) -> Seq<FindingSpec> {
    |t: TableSpec| table_duplicate_indexes(t)
}

// ---------------------------------------------------------------------------
// Circular references
// ---------------------------------------------------------------------------

/// The node that stands for table `t`: the last table sharing its name.
pub open spec fn table_node(tables: Seq<TableSpec>, t: TableSpec) -> int {
    last_table_index(tables, t.schema, t.name)
}

/// The reference edge from table `t` along `fk`, if its target exists.
pub open spec fn fk_edge(tables: Seq<TableSpec>, t: TableSpec, fk: ForeignKeySpec) -> Seq<(int, int)> {
    let to = last_table_index(tables, fk.referenced_schema, fk.referenced_table);
    if to >= 0 {
        seq![(table_node(tables, t), to)]
    } else {
        Seq::empty()
    }
}

pub open spec fn fk_edge_of(tables: Seq<TableSpec>, t: TableSpec) -> spec_fn(ForeignKeySpec) -> Seq<
    (int, int),
> {
    |fk: ForeignKeySpec| fk_edge(tables, t, fk)
}

pub open spec fn table_edges_of(tables: Seq<TableSpec>) -> spec_fn(TableSpec) -> Seq<(int, int)> {
    |t: TableSpec| concat_map(t.foreign_keys, fk_edge_of(tables, t))
}

/// Every reference edge between tables, in table and key order.
pub open spec fn reference_edges(tables: Seq<TableSpec>) -> Seq<(int, int)> {
    concat_map(tables, table_edges_of(tables))
}

/// Whether some foreign key leads from node `i` to node `j`.
pub open spec fn has_edge(tables: Seq<TableSpec>, i: int, j: int) -> bool {
    reference_edges(tables).contains((i, j))
}

/// Whether a path of one or more edges leads from `i` to `j` with every
/// node strictly inside the path below `k`.
pub open spec fn linked(tables: Seq<TableSpec>, k: nat, i: int, j: int) -> bool
    decreases k,
{
    if k == 0 {
        has_edge(tables, i, j)
    } else {
        let m = (k - 1) as nat;
        linked(tables, m, i, j) || (linked(tables, m, i, m as int) && linked(tables, m, m as int, j))
    }
}

/// Whether a path of one or more edges leads from `i` to `j`.
pub open spec fn reaches(tables: Seq<TableSpec>, i: int, j: int) -> bool {
    linked(tables, tables.len(), i, j)
}

/// Whether `i` and `j` lie on a common cycle.
pub open spec fn strongly_linked(tables: Seq<TableSpec>, i: int, j: int) -> bool {
    reaches(tables, i, j) && reaches(tables, j, i)
}

/// Whether `i` lies on a cycle and no lower node shares its cycle: the node
/// that reports the cycle.
pub open spec fn cycle_leader(tables: Seq<TableSpec>, i: int) -> bool {
    reaches(tables, i, i) && forall|j: int| 0 <= j < i ==> !#[trigger] strongly_linked(tables, i, j)
}

/// How a table is named in a cycle report.
pub open spec fn display_name(engine: Engine, t: TableSpec) -> Seq<char> {
    if engine == Engine::Sqlserver {
        t.schema + "."@ + t.name
    } else {
        t.name
    }
}

/// The names of the first `k` tables that share a cycle with `i`.
pub open spec fn cycle_names(db: DatabaseSpec, i: int, k: int) -> Seq<Seq<char>>
    decreases k,
{
    if k <= 0 {
        Seq::empty()
    } else if strongly_linked(db.tables, i, k - 1) {
        cycle_names(db, i, k - 1).push(display_name(db.metadata.engine, db.tables[k - 1]))
    } else {
        cycle_names(db, i, k - 1)
    }
}

/// The finding for the cycle that node `i` reports, if it reports one.
pub open spec fn cycle_finding(db: DatabaseSpec, i: int) -> Seq<FindingSpec> {
    if cycle_leader(db.tables, i) {
        seq![
            finding(
                Rule::CircularReference,
                Severity::Error,
                Seq::empty(),
                Seq::empty(),
                Seq::empty(),
                "circular reference involving: "@ + join(
                    sorted_by(cycle_names(db, i, db.tables.len() as int), view_keyed::<String>()),
                    ", "@,
                ),
            ),
        ]
    } else {
        Seq::empty()
    }
}

/// The cycle findings reported by the first `k` nodes.
pub open spec fn cycle_findings(db: DatabaseSpec, k: int) -> Seq<FindingSpec>
    decreases k,
{
    if k <= 0 {
        Seq::empty()
    } else {
        cycle_findings(db, k - 1) + cycle_finding(db, k - 1)
    }
}

/// One finding per cycle of references between tables.
pub open spec fn circular_references_of(db: DatabaseSpec) -> Seq<FindingSpec> {
    cycle_findings(db, db.tables.len() as int)
}

pub open spec fn edge_view(s: Seq<(usize, usize)>) -> Seq<(int, int)> {
    s.map_values(|p: (usize, usize)| (p.0 as int, p.1 as int))
}

/// Whether every edge of `s` joins nodes below `n`.
pub open spec fn edges_below(s: Seq<(usize, usize)>, n: usize) -> bool {
    forall|e: int| 0 <= e < s.len() ==> (#[trigger] s[e]).0 < n && s[e].1 < n
}

proof fn lemma_edge_view_push(s: Seq<(usize, usize)>, p: (usize, usize))
    ensures
        edge_view(s.push(p)) == edge_view(s).push((p.0 as int, p.1 as int)),
{
    assert(edge_view(s.push(p)) =~= edge_view(s).push((p.0 as int, p.1 as int)));
}

proof fn lemma_last_table_index_bound(tables: Seq<TableSpec>, schema: Seq<char>, name: Seq<char>)
    ensures
        -1 <= last_table_index(tables, schema, name) < tables.len(),
    decreases tables.len(),
{
    if tables.len() > 0 {
        lemma_last_table_index_bound(tables.drop_last(), schema, name);
    }
}

proof fn lemma_last_table_index_found(tables: Seq<TableSpec>, i: int)
    requires
        0 <= i < tables.len(),
    ensures
        i <= last_table_index(tables, tables[i].schema, tables[i].name) < tables.len(),
    decreases tables.len(),
{
    let t = tables[i];
    if i < tables.len() - 1 && !(tables.last().schema == t.schema && tables.last().name == t.name) {
        lemma_last_table_index_found(tables.drop_last(), i);
    }
}

fn fk_edges(
    database: &Database,
    t: &Table,
    from: usize,
    edges: &mut Vec<(usize, usize)>,
)
    requires
        from as int == table_node(database@.tables, t@),
        from < database.tables.len(),
        edges_below(old(edges)@, database.tables.len()),
    ensures
        edges_below(final(edges)@, database.tables.len()),
        edge_view(final(edges)@) == edge_view(old(edges)@) + concat_map(
            t@.foreign_keys,
            fk_edge_of(database@.tables, t@),
        ),
        forall|e: int|
            0 <= e < final(edges)@.len() ==> (e < old(edges)@.len() ==> #[trigger] final(edges)@[e]
                == old(edges)@[e]),
{
    let ghost fks = t@.foreign_keys;
    let ghost f = fk_edge_of(database@.tables, t@);
    let ghost base = edge_view(edges@);
    let ghost start = edges@;
    let mut k: usize = 0;
    while k < t.foreign_keys.len()
        invariant
            fks == t@.foreign_keys,
            fks.len() == t.foreign_keys.len(),
            f == fk_edge_of(database@.tables, t@),
            from as int == table_node(database@.tables, t@),
            from < database.tables.len(),
            edges_below(edges@, database.tables.len()),
            k <= t.foreign_keys.len(),
            edge_view(edges@) == base + concat_map(fks.take(k as int), f),
            start.len() <= edges@.len(),
            forall|e: int| 0 <= e < start.len() ==> #[trigger] edges@[e] == start[e],
        decreases t.foreign_keys.len() - k,
    {
        proof {
            lemma_concat_map_step(fks, k as int, f);
        }
        let fk = &t.foreign_keys[k];
        let to = find_last_table(&database.tables, &fk.referenced_schema, &fk.referenced_table);
        if to < database.tables.len() {
            let ghost before = edges@;
            edges.push((from, to));
            proof {
                lemma_edge_view_push(before, (from, to));
            }
        }
        k = k + 1;
        assert(edge_view(edges@) =~= base + concat_map(fks.take(k as int), f));
    }
    assert(fks.take(k as int) =~= fks);
}

fn collect_edges(database: &Database) -> (r: Vec<(usize, usize)>)
    ensures
        edge_view(r@) == reference_edges(database@.tables),
        edges_below(r@, database.tables.len()),
{
    let ghost tables = database@.tables;
    let ghost f = table_edges_of(tables);
    let mut edges: Vec<(usize, usize)> = Vec::new();
    let mut i: usize = 0;
    assert(edge_view(edges@) =~= Seq::<(int, int)>::empty());
    while i < database.tables.len()
        invariant
            tables == database@.tables,
            tables.len() == database.tables.len(),
            f == table_edges_of(tables),
            i <= database.tables.len(),
            edges_below(edges@, database.tables.len()),
            edge_view(edges@) == concat_map(tables.take(i as int), f),
        decreases database.tables.len() - i,
    {
        proof {
            lemma_concat_map_step(tables, i as int, f);
        }
        let t = &database.tables[i];
        let from = find_last_table(&database.tables, &t.schema, &t.name);
        proof {
            lemma_last_table_index_found(tables, i as int);
        }
        fk_edges(database, t, from, &mut edges);
        i = i + 1;
        assert(edge_view(edges@) =~= concat_map(tables.take(i as int), f));
    }
    assert(tables.take(i as int) =~= tables);
    edges
}

/// Entry `(i, j)` of a boolean matrix.
pub open spec fn cell(m: Seq<Vec<bool>>, i: int, j: int) -> bool {
    m[i]@[j]
}

/// Whether `m` has `n` rows of `n` entries.
pub open spec fn square(m: Seq<Vec<bool>>, n: int) -> bool {
    m.len() == n && forall|i: int| 0 <= i < n ==> (#[trigger] m[i])@.len() == n
}

fn false_matrix(n: usize) -> (m: Vec<Vec<bool>>)
    ensures
        square(m@, n as int),
        forall|i: int, j: int| 0 <= i < n && 0 <= j < n ==> !#[trigger] cell(m@, i, j),
{
    let mut m: Vec<Vec<bool>> = Vec::new();
    let mut i: usize = 0;
    while i < n
        invariant
            i <= n,
            m@.len() == i,
            forall|p: int| 0 <= p < i ==> (#[trigger] m@[p])@.len() == n,
            forall|p: int, q: int| 0 <= p < i && 0 <= q < n ==> !#[trigger] cell(m@, p, q),
        decreases n - i,
    {
        let mut row: Vec<bool> = Vec::new();
        let mut j: usize = 0;
        while j < n
            invariant
                j <= n,
                row@.len() == j,
                forall|q: int| 0 <= q < j ==> !#[trigger] row@[q],
            decreases n - j,
        {
            row.push(false);
            j = j + 1;
        }
        let ghost old_m = m@;
        let ghost grow = row@;
        m.push(row);
        assert forall|p: int, q: int| 0 <= p < i + 1 && 0 <= q < n implies !#[trigger] cell(m@, p, q) by {
            if p < i {
                assert(m@[p] == old_m[p]);
                assert(!cell(old_m, p, q));
            } else {
                assert(m@[p]@ == grow);
                assert(!grow[q]);
            }
        }
        i = i + 1;
    }
    m
}

fn edge_matrix(edges: &Vec<(usize, usize)>, n: usize) -> (m: Vec<Vec<bool>>)
    requires
        edges_below(edges@, n),
    ensures
        square(m@, n as int),
        forall|i: int, j: int|
            0 <= i < n && 0 <= j < n ==> #[trigger] cell(m@, i, j) == edge_view(edges@).contains(
                (i, j),
            ),
{
    let mut m = false_matrix(n);
    let mut e: usize = 0;
    while e < edges.len()
        invariant
            edges_below(edges@, n),
            e <= edges.len(),
            square(m@, n as int),
            forall|i: int, j: int|
                0 <= i < n && 0 <= j < n ==> #[trigger] cell(m@, i, j) == edge_view(
                    edges@.take(e as int),
                ).contains((i, j)),
        decreases edges.len() - e,
    {
        let (from, to) = edges[e];
        assert(edges@[e as int] == (from, to));
        let ghost old_m = m@;
        let ghost prev = edge_view(edges@.take(e as int));
        m[from].set(to, true);
        assert(edge_view(edges@.take(e + 1)) =~= prev.push((from as int, to as int)));
        e = e + 1;
        assert forall|i: int, j: int| 0 <= i < n && 0 <= j < n implies #[trigger] cell(m@, i, j)
            == edge_view(edges@.take(e as int)).contains((i, j)) by {
            let cur = edge_view(edges@.take(e as int));
            if (i, j) == (from as int, to as int) {
                assert(cur[cur.len() - 1] == (i, j));
            } else {
                assert(cell(m@, i, j) == cell(old_m, i, j));
                if prev.contains((i, j)) {
                    let w = choose|w: int| 0 <= w < prev.len() && prev[w] == (i, j);
                    assert(cur[w] == (i, j));
                }
                if cur.contains((i, j)) {
                    let w = choose|w: int| 0 <= w < cur.len() && cur[w] == (i, j);
                    assert(prev[w] == (i, j));
                }
            }
        }
    }
    assert(edges@.take(e as int) =~= edges@);
    m
}

fn closure_step(m: &Vec<Vec<bool>>, k: usize, n: usize) -> (r: Vec<Vec<bool>>)
    requires
        square(m@, n as int),
        k < n,
    ensures
        square(r@, n as int),
        forall|i: int, j: int|
            0 <= i < n && 0 <= j < n ==> #[trigger] cell(r@, i, j) == (cell(m@, i, j) || (cell(
                m@,
                i,
                k as int,
            ) && cell(m@, k as int, j))),
{
    let mut r: Vec<Vec<bool>> = Vec::new();
    let mut i: usize = 0;
    while i < n
        invariant
            square(m@, n as int),
            k < n,
            i <= n,
            r@.len() == i,
            forall|p: int| 0 <= p < i ==> (#[trigger] r@[p])@.len() == n,
            forall|p: int, q: int|
                0 <= p < i && 0 <= q < n ==> #[trigger] cell(r@, p, q) == (cell(m@, p, q) || (cell(
                    m@,
                    p,
                    k as int,
                ) && cell(m@, k as int, q))),
        decreases n - i,
    {
        let mut row: Vec<bool> = Vec::new();
        let mut j: usize = 0;
        while j < n
            invariant
                square(m@, n as int),
                k < n,
                i < n,
                j <= n,
                row@.len() == j,
                forall|q: int|
                    0 <= q < j ==> #[trigger] row@[q] == (cell(m@, i as int, q) || (cell(
                        m@,
                        i as int,
                        k as int,
                    ) && cell(m@, k as int, q))),
            decreases n - j,
        {
            row.push(m[i][j] || (m[i][k] && m[k][j]));
            j = j + 1;
        }
        let ghost old_r = r@;
        let ghost grow = row@;
        r.push(row);
        assert forall|p: int, q: int| 0 <= p < i + 1 && 0 <= q < n implies #[trigger] cell(r@, p, q)
            == (cell(m@, p, q) || (cell(m@, p, k as int) && cell(m@, k as int, q))) by {
            if p < i {
                assert(r@[p] == old_r[p]);
                assert(cell(old_r, p, q) == (cell(m@, p, q) || (cell(m@, p, k as int) && cell(m@, k as int, q))));
            } else {
                assert(r@[p]@ == grow);
                assert(grow[q] == (cell(m@, p, q) || (cell(m@, p, k as int) && cell(m@, k as int, q))));
            }
        }
        i = i + 1;
    }
    r
}

fn reachability(database: &Database) -> (m: Vec<Vec<bool>>)
    ensures
        square(m@, database.tables.len() as int),
        forall|i: int, j: int|
            0 <= i < database.tables.len() && 0 <= j < database.tables.len() ==> #[trigger] cell(
                m@,
                i,
                j,
            ) == reaches(database@.tables, i, j),
{
    let ghost tables = database@.tables;
    let n = database.tables.len();
    let edges = collect_edges(database);
    let mut m = edge_matrix(&edges, n);
    let mut k: usize = 0;
    while k < n
        invariant
            tables == database@.tables,
            n == database.tables.len(),
            tables.len() == n,
            k <= n,
            square(m@, n as int),
            forall|i: int, j: int|
                0 <= i < n && 0 <= j < n ==> #[trigger] cell(m@, i, j) == linked(
                    tables,
                    k as nat,
                    i,
                    j,
                ),
        decreases n - k,
    {
        let next = closure_step(&m, k, n);
        m = next;
        k = k + 1;
    }
    m
}

fn display_name_exec(engine: Engine, t: &Table) -> (r: String)
    ensures
        r@ == display_name(engine, t@),
{
    if engine == Engine::Sqlserver {
        let mut out = t.schema.clone();
        push_str(&mut out, ".");
        push_str(&mut out, t.name.as_str());
        out
    } else {
        t.name.clone()
    }
}

fn is_cycle_leader(m: &Vec<Vec<bool>>, i: usize, n: usize, tables: Ghost<Seq<TableSpec>>) -> (r: bool)
    requires
        square(m@, n as int),
        i < n,
        tables@.len() == n,
        forall|p: int, q: int|
            0 <= p < n && 0 <= q < n ==> #[trigger] cell(m@, p, q) == reaches(tables@, p, q),
    ensures
        r == cycle_leader(tables@, i as int),
{
    assert(cell(m@, i as int, i as int) == reaches(tables@, i as int, i as int));
    if !m[i][i] {
        return false;
    }
    let mut j: usize = 0;
    while j < i
        invariant
            square(m@, n as int),
            i < n,
            j <= i,
            forall|p: int, q: int|
                0 <= p < n && 0 <= q < n ==> #[trigger] cell(m@, p, q) == reaches(tables@, p, q),
            forall|q: int| 0 <= q < j ==> !#[trigger] strongly_linked(tables@, i as int, q),
        decreases i - j,
    {
        if m[i][j] && m[j][i] {
            assert(cell(m@, i as int, j as int) && cell(m@, j as int, i as int));
            assert(strongly_linked(tables@, i as int, j as int));
            return false;
        }
        assert(!strongly_linked(tables@, i as int, j as int)) by {
            assert(cell(m@, i as int, j as int) == reaches(tables@, i as int, j as int));
            assert(cell(m@, j as int, i as int) == reaches(tables@, j as int, i as int));
        }
        j = j + 1;
    }
    assert(cell(m@, i as int, i as int));
    true
}

fn cycle_members(database: &Database, m: &Vec<Vec<bool>>, i: usize) -> (r: Vec<String>)
    requires
        square(m@, database.tables.len() as int),
        i < database.tables.len(),
        forall|p: int, q: int|
            0 <= p < database.tables.len() && 0 <= q < database.tables.len() ==> #[trigger] cell(
                m@,
                p,
                q,
            ) == reaches(database@.tables, p, q),
    ensures
        r.deep_view() == cycle_names(database@, i as int, database.tables.len() as int),
{
    let n = database.tables.len();
    let mut out: Vec<String> = Vec::new();
    let mut j: usize = 0;
    assert(out.deep_view() =~= Seq::<Seq<char>>::empty());
    while j < n
        invariant
            n == database.tables.len(),
            square(m@, n as int),
            i < n,
            j <= n,
            forall|p: int, q: int|
                0 <= p < n && 0 <= q < n ==> #[trigger] cell(m@, p, q) == reaches(
                    database@.tables,
                    p,
                    q,
                ),
            out.deep_view() == cycle_names(database@, i as int, j as int),
        decreases n - j,
    {
        assert(cell(m@, i as int, j as int) == reaches(database@.tables, i as int, j as int));
        assert(cell(m@, j as int, i as int) == reaches(database@.tables, j as int, i as int));
        if m[i][j] && m[j][i] {
            let name = display_name_exec(database.metadata.engine, &database.tables[j]);
            let ghost before = out;
            let ghost g = name;
            out.push(name);
            proof {
                lemma_push_deep_view(before, out, g);
            }
        }
        j = j + 1;
    }
    out
}

fn circular_references(database: &Database, findings: &mut Vec<Finding>)
    ensures
        final(findings).deep_view() == old(findings).deep_view() + circular_references_of(
            database@,
        ),
{
    let ghost base = findings.deep_view();
    let n = database.tables.len();
    let m = reachability(database);
    let mut i: usize = 0;
    while i < n
        invariant
            n == database.tables.len(),
            square(m@, n as int),
            i <= n,
            forall|p: int, q: int|
                0 <= p < n && 0 <= q < n ==> #[trigger] cell(m@, p, q) == reaches(
                    database@.tables,
                    p,
                    q,
                ),
            findings.deep_view() == base + cycle_findings(database@, i as int),
        decreases n - i,
    {
        if is_cycle_leader(&m, i, n, Ghost(database@.tables)) {
            let mut names = cycle_members(database, &m, i);
            stable_sort(&mut names);
            let mut message = owned("circular reference involving: ");
            let listed = join_strings(&names, ", ");
            push_str(&mut message, listed.as_str());
            let empty = String::new();
            let fd = make_finding(
                Rule::CircularReference,
                Severity::Error,
                &empty,
                &empty,
                no_columns(),
                message,
            );
            push_finding(findings, fd);
        }
        i = i + 1;
        assert(findings.deep_view() =~= base + cycle_findings(database@, i as int));
    }
}

// ---------------------------------------------------------------------------
// Invalid metadata
// ---------------------------------------------------------------------------

/// An invalid-metadata finding.
pub open spec fn invalid(
    schema: Seq<char>,
    table: Seq<char>,
    columns: Seq<Seq<char>>,
    message: Seq<char>,
) -> FindingSpec {
    finding(Rule::InvalidMetadata, Severity::Error, schema, table, columns, message)
}

/// `f` alone when `c` holds, else nothing.
pub open spec fn when(c: bool, f: FindingSpec) -> Seq<FindingSpec> {
    if c {
        seq![f]
    } else {
        Seq::empty()
    }
}

/// What is wrong with column `c` of the table or view `schema`.`table`.
pub open spec fn column_problems(
    schema: Seq<char>,
    table: Seq<char>,
    in_view: bool,
    c: ColumnSpec,
) -> Seq<FindingSpec> {
    when(
        is_blank(c.name),
        invalid(
            schema,
            table,
            seq![c.name],
            if in_view {
                "view column name is empty"@
            } else {
                "column name is empty"@
            },
        ),
    ) + when(
        c.ordinal_position == 0,
        invalid(
            schema,
            table,
            seq![c.name],
            if in_view {
                "view column ordinal position is zero"@
            } else {
                "column ordinal position is zero"@
            },
        ),
    )
}

pub open spec fn column_problems_of(schema: Seq<char>, table: Seq<char>, in_view: bool) -> spec_fn(
    ColumnSpec,
) -> Seq<FindingSpec> {
    |c: ColumnSpec| column_problems(schema, table, in_view, c)
}

/// What is wrong with the names and columns of table `t`.
pub open spec fn table_problems(t: TableSpec) -> Seq<FindingSpec> {
    when(is_blank(t.schema), invalid(t.schema, t.name, Seq::empty(), "table schema is empty"@))
        + when(is_blank(t.name), invalid(t.schema, t.name, Seq::empty(), "table name is empty"@))
        + concat_map(t.columns, column_problems_of(t.schema, t.name, false))
}

/// What is wrong with the names and columns of view `v`.
pub open spec fn view_problems(v: SchemaViewSpec) -> Seq<FindingSpec> {
    when(is_blank(v.schema), invalid(v.schema, v.name, Seq::empty(), "view schema is empty"@))
        + when(is_blank(v.name), invalid(v.schema, v.name, Seq::empty(), "view name is empty"@))
        + concat_map(v.columns, column_problems_of(v.schema, v.name, true))
}

pub open spec fn table_problems_of() -> spec_fn(TableSpec) -> Seq<FindingSpec> {
    |t: TableSpec| table_problems(t)
}

pub open spec fn view_problems_of() -> spec_fn(SchemaViewSpec) -> Seq<FindingSpec> {
    |v: SchemaViewSpec| view_problems(v)
}

/// Every invalid-metadata finding of a database: the database itself, then
/// its tables, then its views.
pub open spec fn invalid_metadata_of(db: DatabaseSpec) -> Seq<FindingSpec> {
    when(
        is_blank(db.metadata.database),
        invalid(Seq::empty(), Seq::empty(), Seq::empty(), "database name is empty"@),
    ) + when(
        is_blank(db.metadata.engine_version),
        invalid(Seq::empty(), Seq::empty(), Seq::empty(), "engine version is empty"@),
    ) + concat_map(db.tables, table_problems_of()) + concat_map(db.views, view_problems_of())
}

fn push_invalid_when(
    c: bool,
    schema: &String,
    table: &String,
    columns: Vec<String>,
    message: &str,
    findings: &mut Vec<Finding>,
)
    ensures
        final(findings).deep_view() == old(findings).deep_view() + when(
            c,
            invalid(schema@, table@, columns.deep_view(), message@),
        ),
{
    if c {
        let fd = make_finding(
            Rule::InvalidMetadata,
            Severity::Error,
            schema,
            table,
            columns,
            owned(message),
        );
        push_finding(findings, fd);
        assert(old(findings).deep_view().push(fd@) =~= old(findings).deep_view() + seq![fd@]);
    } else {
        assert(findings.deep_view() =~= findings.deep_view() + Seq::<FindingSpec>::empty());
    }
}

fn column_problems_exec(
    schema: &String,
    table: &String,
    in_view: bool,
    c: &Column,
    findings: &mut Vec<Finding>,
)
    ensures
        final(findings).deep_view() == old(findings).deep_view() + column_problems(
            schema@,
            table@,
            in_view,
            c@,
        ),
{
    let ghost base = findings.deep_view();
    let blank = str_is_blank(c.name.as_str());
    if in_view {
        push_invalid_when(blank, schema, table, one_column(&c.name), "view column name is empty", findings);
        push_invalid_when(
            c.ordinal_position == 0,
            schema,
            table,
            one_column(&c.name),
            "view column ordinal position is zero",
            findings,
        );
    } else {
        push_invalid_when(blank, schema, table, one_column(&c.name), "column name is empty", findings);
        push_invalid_when(
            c.ordinal_position == 0,
            schema,
            table,
            one_column(&c.name),
            "column ordinal position is zero",
            findings,
        );
    }
    assert(findings.deep_view() =~= base + column_problems(schema@, table@, in_view, c@));
}

fn columns_problems(
    schema: &String,
    table: &String,
    in_view: bool,
    columns: &Vec<Column>,
    findings: &mut Vec<Finding>,
)
    ensures
        final(findings).deep_view() == old(findings).deep_view() + concat_map(
            columns.deep_view(),
            column_problems_of(schema@, table@, in_view),
        ),
{
    let ghost cols = columns.deep_view();
    let ghost f = column_problems_of(schema@, table@, in_view);
    let ghost base = findings.deep_view();
    let mut i: usize = 0;
    while i < columns.len()
        invariant
            cols == columns.deep_view(),
            cols.len() == columns.len(),
            f == column_problems_of(schema@, table@, in_view),
            i <= columns.len(),
            findings.deep_view() == base + concat_map(cols.take(i as int), f),
        decreases columns.len() - i,
    {
        proof {
            lemma_concat_map_step(cols, i as int, f);
        }
        column_problems_exec(schema, table, in_view, &columns[i], findings);
        i = i + 1;
        assert(findings.deep_view() =~= base + concat_map(cols.take(i as int), f));
    }
    assert(cols.take(i as int) =~= cols);
}

fn invalid_metadata(database: &Database, findings: &mut Vec<Finding>)
    ensures
        final(findings).deep_view() == old(findings).deep_view() + invalid_metadata_of(database@),
{
    let ghost base = findings.deep_view();
    let empty = String::new();
    push_invalid_when(
        str_is_blank(database.metadata.database.as_str()),
        &empty,
        &empty,
        no_columns(),
        "database name is empty",
        findings,
    );
    push_invalid_when(
        str_is_blank(database.metadata.engine_version.as_str()),
        &empty,
        &empty,
        no_columns(),
        "engine version is empty",
        findings,
    );
    let ghost head = findings.deep_view();
    let ghost tables = database@.tables;
    let ghost f = table_problems_of();
    let mut i: usize = 0;
    while i < database.tables.len()
        invariant
            tables == database@.tables,
            tables.len() == database.tables.len(),
            f == table_problems_of(),
            i <= database.tables.len(),
            findings.deep_view() == head + concat_map(tables.take(i as int), f),
        decreases database.tables.len() - i,
    {
        proof {
            lemma_concat_map_step(tables, i as int, f);
        }
        let t = &database.tables[i];
        let ghost before = findings.deep_view();
        push_invalid_when(
            str_is_blank(t.schema.as_str()),
            &t.schema,
            &t.name,
            no_columns(),
            "table schema is empty",
            findings,
        );
        push_invalid_when(
            str_is_blank(t.name.as_str()),
            &t.schema,
            &t.name,
            no_columns(),
            "table name is empty",
            findings,
        );
        columns_problems(&t.schema, &t.name, false, &t.columns, findings);
        assert(findings.deep_view() =~= before + table_problems(t@));
        i = i + 1;
        assert(findings.deep_view() =~= head + concat_map(tables.take(i as int), f));
    }
    assert(tables.take(i as int) =~= tables);
    let ghost mid = findings.deep_view();
    let ghost views = database@.views;
    let ghost g = view_problems_of();
    let mut i: usize = 0;
    while i < database.views.len()
        invariant
            views == database@.views,
            views.len() == database.views.len(),
            g == view_problems_of(),
            i <= database.views.len(),
            findings.deep_view() == mid + concat_map(views.take(i as int), g),
        decreases database.views.len() - i,
    {
        proof {
            lemma_concat_map_step(views, i as int, g);
        }
        let v = &database.views[i];
        let ghost before = findings.deep_view();
        push_invalid_when(
            str_is_blank(v.schema.as_str()),
            &v.schema,
            &v.name,
            no_columns(),
            "view schema is empty",
            findings,
        );
        push_invalid_when(
            str_is_blank(v.name.as_str()),
            &v.schema,
            &v.name,
            no_columns(),
            "view name is empty",
            findings,
        );
        columns_problems(&v.schema, &v.name, true, &v.columns, findings);
        assert(findings.deep_view() =~= before + view_problems(v@));
        i = i + 1;
        assert(findings.deep_view() =~= mid + concat_map(views.take(i as int), g));
    }
    assert(views.take(i as int) =~= views);
    assert(findings.deep_view() =~= base + invalid_metadata_of(database@));
}

// ---------------------------------------------------------------------------
// The report
// ---------------------------------------------------------------------------

/// The duplicate-index findings of a database, table by table.
pub open spec fn duplicate_indexes_of(tables: Seq<TableSpec>) -> Seq<FindingSpec> {
    concat_map(tables, table_duplicate_indexes_of())
}

/// Every finding of every rule, rule by rule, before sorting.
pub open spec fn all_findings(db: DatabaseSpec) -> Seq<FindingSpec> {
    missing_primary_keys_of(db.tables) + broken_foreign_keys_of(db.tables) + duplicate_indexes_of(
        db.tables,
    ) + circular_references_of(db) + invalid_metadata_of(db)
}

/// The findings of a report: all findings, in finding-key order.
pub open spec fn report_findings(db: DatabaseSpec) -> Seq<FindingSpec> {
    sorted_by(all_findings(db), view_keyed::<Finding>())
}

/// How many of `s` have severity `sev`.
pub open spec fn count_severity(s: Seq<FindingSpec>, sev: Severity) -> nat
    decreases s.len(),
{
    if s.len() == 0 {
        0
    } else {
        count_severity(s.drop_last(), sev) + if s.last().severity == sev {
            1nat
        } else {
            0nat
        }
    }
}

/// Every finding is an error or a warning: the error count and the warning
/// count of a list of findings add up to its length.
pub proof fn law_severity_counts_add_up(s: Seq<FindingSpec>)
    ensures
        count_severity(s, Severity::Error) + count_severity(s, Severity::Warning) == s.len(),
    decreases s.len(),
{
    if s.len() > 0 {
        law_severity_counts_add_up(s.drop_last());
    }
}

/// Run every validation rule against `database` and return the report.
pub fn validate(database: &Database) -> (r: ValidationReport)
    ensures
        r.findings.deep_view() == report_findings(database@),
        r.summary.tables == database.tables.len(),
        r.summary.views == database.views.len(),
        r.summary.finding_count == r.findings.len(),
        r.summary.error_count == count_severity(r.findings.deep_view(), Severity::Error),
        r.summary.warning_count == count_severity(r.findings.deep_view(), Severity::Warning),
{
    let mut findings: Vec<Finding> = Vec::new();
    assert(findings.deep_view() =~= Seq::<FindingSpec>::empty());
    missing_primary_keys(database, &mut findings);
    broken_foreign_keys(database, &mut findings);
    duplicate_indexes(database, &mut findings);
    circular_references(database, &mut findings);
    invalid_metadata(database, &mut findings);
    assert(findings.deep_view() =~= all_findings(database@));
    stable_sort(&mut findings);
    let ghost fs = findings.deep_view();
    let mut error_count: usize = 0;
    let mut warning_count: usize = 0;
    let mut i: usize = 0;
    while i < findings.len()
        invariant
            fs == findings.deep_view(),
            fs.len() == findings.len(),
            i <= findings.len(),
            error_count == count_severity(fs.take(i as int), Severity::Error),
            warning_count == count_severity(fs.take(i as int), Severity::Warning),
        decreases findings.len() - i,
    {
        proof {
            law_severity_counts_add_up(fs.take(i as int));
            assert(fs.take(i + 1).drop_last() =~= fs.take(i as int));
            assert(fs.take(i + 1).last() == findings[i as int]@);
        }
        match findings[i].severity {
            Severity::Error => {
                error_count = error_count + 1;
            },
            Severity::Warning => {
                warning_count = warning_count + 1;
            },
        }
        i = i + 1;
    }
    assert(fs.take(i as int) =~= fs);
    let summary = Summary {
        tables: database.tables.len(),
        views: database.views.len(),
        finding_count: findings.len(),
        error_count,
        warning_count,
    };
    ValidationReport { findings, summary }
}

/// A report lists its findings in finding-key order (rule, schema, table,
/// columns, message), and holds exactly the findings that the rules
/// produced, each as often as a rule produced it.
pub proof fn law_report_is_sorted_and_complete(db: DatabaseSpec)
    ensures
        is_sorted_by(report_findings(db), view_keyed::<Finding>()),
        report_findings(db).to_multiset() == all_findings(db).to_multiset(),
        report_findings(db).len() == all_findings(db).len(),
{
    lemma_sorted_by(all_findings(db), view_keyed::<Finding>());
    lemma_sorted_by_len(all_findings(db), view_keyed::<Finding>());
}

// ---------------------------------------------------------------------------
// Which rule a finding comes from
// ---------------------------------------------------------------------------

/// Whether every finding of `s` comes from rule `r`.
pub open spec fn rules_all(s: Seq<FindingSpec>, r: Rule) -> bool {
    forall|i: int| 0 <= i < s.len() ==> (#[trigger] s[i]).rule == r
}

proof fn lemma_rules_all_add(p: Seq<FindingSpec>, q: Seq<FindingSpec>, r: Rule)
    requires
        rules_all(p, r),
        rules_all(q, r),
    ensures
        rules_all(p + q, r),
{
    assert forall|i: int| 0 <= i < (p + q).len() implies (#[trigger] (p + q)[i]).rule == r by {
        if i < p.len() {
            assert((p + q)[i] == p[i]);
        } else {
            assert((p + q)[i] == q[i - p.len()]);
        }
    }
}

proof fn lemma_concat_map_rules<A>(s: Seq<A>, f: spec_fn(A) -> Seq<FindingSpec>, r: Rule)
    requires
        forall|a: A| rules_all(#[trigger] f(a), r),
    ensures
        rules_all(concat_map(s, f), r),
    decreases s.len(),
{
    if s.len() > 0 {
        lemma_concat_map_rules(s.drop_last(), f, r);
        assert(rules_all(f(s.last()), r));
        lemma_rules_all_add(concat_map(s.drop_last(), f), f(s.last()), r);
    }
}

proof fn lemma_contains_in_sum<A>(p: Seq<A>, q: Seq<A>, x: A)
    ensures
        (p + q).contains(x) <==> p.contains(x) || q.contains(x),
{
    let w = p + q;
    if w.contains(x) {
        let k = choose|k: int| 0 <= k < w.len() && w[k] == x;
        if k < p.len() {
            assert(p[k] == x);
        } else {
            assert(q[k - p.len()] == x);
        }
    }
    if p.contains(x) {
        let k = choose|k: int| 0 <= k < p.len() && p[k] == x;
        assert(w[k] == x);
    }
    if q.contains(x) {
        let k = choose|k: int| 0 <= k < q.len() && q[k] == x;
        assert(w[p.len() + k] == x);
    }
}

proof fn lemma_rule_not_contained(s: Seq<FindingSpec>, r: Rule, f: FindingSpec)
    requires
        rules_all(s, r),
        f.rule != r,
    ensures
        !s.contains(f),
{
    if s.contains(f) {
        let k = choose|k: int| 0 <= k < s.len() && s[k] == f;
        assert(s[k].rule == r);
    }
}

proof fn lemma_foreign_key_findings_shape(tables: Seq<TableSpec>, t: TableSpec, fk: ForeignKeySpec)
    ensures
        forall|i: int|
            0 <= i < foreign_key_findings(tables, t, fk).len() ==> {
                let f = #[trigger] foreign_key_findings(tables, t, fk)[i];
                &&& f.rule == Rule::BrokenForeignKey
                &&& f.severity == Severity::Error
                &&& f.schema == t.schema
                &&& f.table == t.name
                &&& f.columns == fk.columns
            },
{
    let ti = last_table_index(tables, fk.referenced_schema, fk.referenced_table);
    let fs = foreign_key_findings(tables, t, fk);
    if ti >= 0 && fk.columns.len() == fk.referenced_columns.len() {
        let g = missing_column_of(t, fk, tables[ti]);
        assert forall|i: int| 0 <= i < fs.len() implies {
            let f = #[trigger] fs[i];
            &&& f.rule == Rule::BrokenForeignKey
            &&& f.severity == Severity::Error
            &&& f.schema == t.schema
            &&& f.table == t.name
            &&& f.columns == fk.columns
        } by {
            assert(fs.contains(fs[i]));
            crate::model::lemma_concat_map_contains(fk.referenced_columns, g, fs[i]);
            let j = choose|j: int| 0 <= j < fk.referenced_columns.len() && #[trigger] g(fk.referenced_columns[j]).contains(fs[i]);
            let m = g(fk.referenced_columns[j]);
            let k = choose|k: int| 0 <= k < m.len() && m[k] == fs[i];
        }
    }
}

proof fn lemma_last_table_index(tables: Seq<TableSpec>, schema: Seq<char>, name: Seq<char>)
    ensures
        last_table_index(tables, schema, name) < tables.len(),
        last_table_index(tables, schema, name) >= 0 ==> tables[last_table_index(tables, schema, name)].schema
            == schema && tables[last_table_index(tables, schema, name)].name == name,
        last_table_index(tables, schema, name) < 0 <==> forall|j: int|
            0 <= j < tables.len() ==> !((#[trigger] tables[j]).schema == schema && tables[j].name == name),
    decreases tables.len(),
{
    if tables.len() > 0 {
        let t = tables.drop_last();
        lemma_last_table_index(t, schema, name);
        assert(tables[tables.len() - 1] == tables.last());
        if last_table_index(tables, schema, name) < 0 {
            assert forall|j: int|
                0 <= j < tables.len() implies !((#[trigger] tables[j]).schema == schema
                && tables[j].name == name) by {
                if j < t.len() {
                    assert(t[j] == tables[j]);
                }
            }
        } else {
            let k = last_table_index(tables, schema, name);
            if k < t.len() {
                assert(t[k] == tables[k]);
            }
        }
    }
}

/// What the broken-foreign-key rule says of one foreign key `fk` of table
/// `t`: every finding it makes is an error on `t` that names `fk`'s
/// columns, and it makes none exactly when a table with the referenced
/// namespace and name exists, the two column lists are equally long, and
/// that table (the last of that name) has every referenced column. With no
/// such table the finding says the table is missing; with unequal lists,
/// that the counts differ.
pub proof fn law_a_foreign_key_is_broken_exactly_when(tables: Seq<TableSpec>, t: TableSpec, fk: ForeignKeySpec)
    ensures
        rules_all(foreign_key_findings(tables, t, fk), Rule::BrokenForeignKey),
        forall|i: int|
            0 <= i < foreign_key_findings(tables, t, fk).len() ==> {
                let f = #[trigger] foreign_key_findings(tables, t, fk)[i];
                &&& f.severity == Severity::Error
                &&& f.schema == t.schema
                &&& f.table == t.name
                &&& f.columns == fk.columns
            },
        (foreign_key_findings(tables, t, fk).len() == 0) <==> ({
            let ti = last_table_index(tables, fk.referenced_schema, fk.referenced_table);
            &&& exists|j: int|
                0 <= j < tables.len() && (#[trigger] tables[j]).schema == fk.referenced_schema
                    && tables[j].name == fk.referenced_table
            &&& fk.columns.len() == fk.referenced_columns.len()
            &&& forall|c: Seq<char>|
                #[trigger] fk.referenced_columns.contains(c) ==> has_column_named(tables[ti], c)
        }),
        last_table_index(tables, fk.referenced_schema, fk.referenced_table) < 0
            ==> foreign_key_findings(tables, t, fk) == seq![
            broken_fk_finding(
                t,
                fk,
                "foreign key references missing table "@ + fk.referenced_schema + "."@
                    + fk.referenced_table,
            ),
        ],
{
    lemma_foreign_key_findings_shape(tables, t, fk);
    lemma_last_table_index(tables, fk.referenced_schema, fk.referenced_table);
    let ti = last_table_index(tables, fk.referenced_schema, fk.referenced_table);
    if ti >= 0 {
        assert(tables[ti].schema == fk.referenced_schema);
        if fk.columns.len() == fk.referenced_columns.len() {
            let g = missing_column_of(t, fk, tables[ti]);
            crate::model::lemma_concat_map_empty(fk.referenced_columns, g);
            assert((forall|i: int|
                0 <= i < fk.referenced_columns.len() ==> #[trigger] g(fk.referenced_columns[i]).len()
                    == 0) <==> (forall|c: Seq<char>|
                #[trigger] fk.referenced_columns.contains(c) ==> has_column_named(tables[ti], c))) by {
                if forall|i: int|
                    0 <= i < fk.referenced_columns.len() ==> #[trigger] g(fk.referenced_columns[i]).len()
                        == 0 {
                    assert forall|c: Seq<char>| #[trigger] fk.referenced_columns.contains(c) implies has_column_named(tables[ti], c) by {
                        let i = choose|i: int| 0 <= i < fk.referenced_columns.len() && fk.referenced_columns[i] == c;
                        assert(g(fk.referenced_columns[i]).len() == 0);
                    }
                }
                if forall|c: Seq<char>|
                    #[trigger] fk.referenced_columns.contains(c) ==> has_column_named(tables[ti], c) {
                    assert forall|i: int| 0 <= i < fk.referenced_columns.len() implies #[trigger] g(fk.referenced_columns[i]).len() == 0 by {
                        assert(fk.referenced_columns.contains(fk.referenced_columns[i]));
                    }
                }
            }
        }
    }
}

/// A broken-foreign-key finding of a schema is exactly a finding the rule
/// makes for some foreign key of some table.
pub proof fn law_broken_foreign_key_findings_come_from_foreign_keys(tables: Seq<TableSpec>, f: FindingSpec)
    ensures
        broken_foreign_keys_of(tables).contains(f) <==> exists|i: int, j: int|
            0 <= i < tables.len() && 0 <= j < tables[i].foreign_keys.len()
                && #[trigger] foreign_key_findings(tables, tables[i], tables[i].foreign_keys[j]).contains(f),
{
    let g = table_foreign_key_findings_of(tables);
    crate::model::lemma_concat_map_contains(tables, g, f);
    if broken_foreign_keys_of(tables).contains(f) {
        let i = choose|i: int| 0 <= i < tables.len() && #[trigger] g(tables[i]).contains(f);
        let h = foreign_key_findings_of(tables, tables[i]);
        crate::model::lemma_concat_map_contains(tables[i].foreign_keys, h, f);
        let j = choose|j: int| 0 <= j < tables[i].foreign_keys.len() && #[trigger] h(tables[i].foreign_keys[j]).contains(f);
        assert(foreign_key_findings(tables, tables[i], tables[i].foreign_keys[j]).contains(f));
    }
    if exists|i: int, j: int|
        0 <= i < tables.len() && 0 <= j < tables[i].foreign_keys.len()
            && #[trigger] foreign_key_findings(tables, tables[i], tables[i].foreign_keys[j]).contains(f) {
        let (i, j) = choose|i: int, j: int|
            0 <= i < tables.len() && 0 <= j < tables[i].foreign_keys.len()
                && #[trigger] foreign_key_findings(tables, tables[i], tables[i].foreign_keys[j]).contains(f);
        let h = foreign_key_findings_of(tables, tables[i]);
        crate::model::lemma_concat_map_contains(tables[i].foreign_keys, h, f);
        assert(h(tables[i].foreign_keys[j]).contains(f));
        assert(g(tables[i]).contains(f));
    }
}

proof fn lemma_duplicate_groups_rules(t: TableSpec, k: int)
    ensures
        rules_all(duplicate_groups(t, k), Rule::DuplicateIndex),
    decreases k,
{
    if k > 0 {
        lemma_duplicate_groups_rules(t, k - 1);
        lemma_rules_all_add(duplicate_groups(t, k - 1), duplicate_group(t, k - 1), Rule::DuplicateIndex);
    }
}

proof fn lemma_cycle_findings_rules(db: DatabaseSpec, k: int)
    ensures
        rules_all(cycle_findings(db, k), Rule::CircularReference),
    decreases k,
{
    if k > 0 {
        lemma_cycle_findings_rules(db, k - 1);
        lemma_rules_all_add(cycle_findings(db, k - 1), cycle_finding(db, k - 1), Rule::CircularReference);
    }
}

proof fn lemma_problems_rules(schema: Seq<char>, table: Seq<char>, in_view: bool, columns: Seq<ColumnSpec>)
    ensures
        rules_all(concat_map(columns, column_problems_of(schema, table, in_view)), Rule::InvalidMetadata),
{
    let g = column_problems_of(schema, table, in_view);
    assert forall|c: ColumnSpec| rules_all(#[trigger] g(c), Rule::InvalidMetadata) by {
        let a = when(is_blank(c.name), invalid(schema, table, seq![c.name], if in_view {
            "view column name is empty"@
        } else {
            "column name is empty"@
        }));
        let b = when(c.ordinal_position == 0, invalid(schema, table, seq![c.name], if in_view {
            "view column ordinal position is zero"@
        } else {
            "column ordinal position is zero"@
        }));
        lemma_rules_all_add(a, b, Rule::InvalidMetadata);
    }
    lemma_concat_map_rules(columns, g, Rule::InvalidMetadata);
}

proof fn lemma_parts_rules(db: DatabaseSpec)
    ensures
        rules_all(missing_primary_keys_of(db.tables), Rule::MissingPrimaryKey),
        rules_all(broken_foreign_keys_of(db.tables), Rule::BrokenForeignKey),
        rules_all(duplicate_indexes_of(db.tables), Rule::DuplicateIndex),
        rules_all(circular_references_of(db), Rule::CircularReference),
        rules_all(invalid_metadata_of(db), Rule::InvalidMetadata),
{
    let tables = db.tables;
    assert forall|t: TableSpec| rules_all(#[trigger] missing_primary_key_of_fn()(t), Rule::MissingPrimaryKey) by {}
    lemma_concat_map_rules(tables, missing_primary_key_of_fn(), Rule::MissingPrimaryKey);
    assert forall|t: TableSpec| rules_all(#[trigger] table_foreign_key_findings_of(tables)(t), Rule::BrokenForeignKey) by {
        assert forall|fk: ForeignKeySpec| rules_all(#[trigger] foreign_key_findings_of(tables, t)(fk), Rule::BrokenForeignKey) by {
            law_a_foreign_key_is_broken_exactly_when(tables, t, fk);
        }
        lemma_concat_map_rules(t.foreign_keys, foreign_key_findings_of(tables, t), Rule::BrokenForeignKey);
    }
    lemma_concat_map_rules(tables, table_foreign_key_findings_of(tables), Rule::BrokenForeignKey);
    assert forall|t: TableSpec| rules_all(#[trigger] table_duplicate_indexes_of()(t), Rule::DuplicateIndex) by {
        lemma_duplicate_groups_rules(t, t.indexes.len() as int);
    }
    lemma_concat_map_rules(tables, table_duplicate_indexes_of(), Rule::DuplicateIndex);
    lemma_cycle_findings_rules(db, tables.len() as int);
    assert forall|t: TableSpec| rules_all(#[trigger] table_problems_of()(t), Rule::InvalidMetadata) by {
        let a = when(is_blank(t.schema), invalid(t.schema, t.name, Seq::empty(), "table schema is empty"@));
        let b = when(is_blank(t.name), invalid(t.schema, t.name, Seq::empty(), "table name is empty"@));
        lemma_problems_rules(t.schema, t.name, false, t.columns);
        lemma_rules_all_add(a, b, Rule::InvalidMetadata);
        lemma_rules_all_add(a + b, concat_map(t.columns, column_problems_of(t.schema, t.name, false)), Rule::InvalidMetadata);
    }
    assert forall|v: SchemaViewSpec| rules_all(#[trigger] view_problems_of()(v), Rule::InvalidMetadata) by {
        let a = when(is_blank(v.schema), invalid(v.schema, v.name, Seq::empty(), "view schema is empty"@));
        let b = when(is_blank(v.name), invalid(v.schema, v.name, Seq::empty(), "view name is empty"@));
        lemma_problems_rules(v.schema, v.name, true, v.columns);
        lemma_rules_all_add(a, b, Rule::InvalidMetadata);
        lemma_rules_all_add(a + b, concat_map(v.columns, column_problems_of(v.schema, v.name, true)), Rule::InvalidMetadata);
    }
    lemma_concat_map_rules(tables, table_problems_of(), Rule::InvalidMetadata);
    lemma_concat_map_rules(db.views, view_problems_of(), Rule::InvalidMetadata);
    let a = when(
        is_blank(db.metadata.database),
        invalid(Seq::empty(), Seq::empty(), Seq::empty(), "database name is empty"@),
    );
    let b = when(
        is_blank(db.metadata.engine_version),
        invalid(Seq::empty(), Seq::empty(), Seq::empty(), "engine version is empty"@),
    );
    lemma_rules_all_add(a, b, Rule::InvalidMetadata);
    lemma_rules_all_add(a + b, concat_map(tables, table_problems_of()), Rule::InvalidMetadata);
    lemma_rules_all_add(a + b + concat_map(tables, table_problems_of()), concat_map(db.views, view_problems_of()), Rule::InvalidMetadata);
}

/// The report holds a finding of a given rule exactly when that rule made
/// it: a finding is never lost, and never credited to another rule.
pub proof fn law_report_findings_come_from_their_rule(db: DatabaseSpec, f: FindingSpec)
    ensures
        f.rule == Rule::MissingPrimaryKey ==> (report_findings(db).contains(f)
            <==> missing_primary_keys_of(db.tables).contains(f)),
        f.rule == Rule::BrokenForeignKey ==> (report_findings(db).contains(f)
            <==> broken_foreign_keys_of(db.tables).contains(f)),
        f.rule == Rule::DuplicateIndex ==> (report_findings(db).contains(f)
            <==> duplicate_indexes_of(db.tables).contains(f)),
        f.rule == Rule::CircularReference ==> (report_findings(db).contains(f)
            <==> circular_references_of(db).contains(f)),
        f.rule == Rule::InvalidMetadata ==> (report_findings(db).contains(f)
            <==> invalid_metadata_of(db).contains(f)),
{
    broadcast use vstd::seq_lib::group_to_multiset_ensures;

    lemma_sorted_by(all_findings(db), view_keyed::<Finding>());
    let r = report_findings(db);
    let all = all_findings(db);
    assert(r.contains(f) <==> all.contains(f)) by {
        assert(r.contains(f) <==> r.to_multiset().count(f) > 0);
        assert(all.contains(f) <==> all.to_multiset().count(f) > 0);
    }
    lemma_parts_rules(db);
    let p1 = missing_primary_keys_of(db.tables);
    let p2 = broken_foreign_keys_of(db.tables);
    let p3 = duplicate_indexes_of(db.tables);
    let p4 = circular_references_of(db);
    let p5 = invalid_metadata_of(db);
    lemma_contains_in_sum(p1 + p2 + p3 + p4, p5, f);
    lemma_contains_in_sum(p1 + p2 + p3, p4, f);
    lemma_contains_in_sum(p1 + p2, p3, f);
    lemma_contains_in_sum(p1, p2, f);
    if f.rule != Rule::MissingPrimaryKey {
        lemma_rule_not_contained(p1, Rule::MissingPrimaryKey, f);
    }
    if f.rule != Rule::BrokenForeignKey {
        lemma_rule_not_contained(p2, Rule::BrokenForeignKey, f);
    }
    if f.rule != Rule::DuplicateIndex {
        lemma_rule_not_contained(p3, Rule::DuplicateIndex, f);
    }
    if f.rule != Rule::CircularReference {
        lemma_rule_not_contained(p4, Rule::CircularReference, f);
    }
    if f.rule != Rule::InvalidMetadata {
        lemma_rule_not_contained(p5, Rule::InvalidMetadata, f);
    }
}

// ---------------------------------------------------------------------------
// When indexes are reported as duplicates
// ---------------------------------------------------------------------------

/// The finding the duplicate-index rule makes on table `t` for the indexes
/// that share the signature (uniqueness, and columns in order) of `x`.
pub open spec fn duplicate_finding(t: TableSpec, x: IndexSpec) -> FindingSpec {
    finding(
        Rule::DuplicateIndex,
        Severity::Warning,
        t.schema,
        t.name,
        x.columns,
        duplicate_index_message(x, signature_names(t.indexes, x)),
    )
}

proof fn lemma_signature_names_same(s: Seq<IndexSpec>, a: IndexSpec, b: IndexSpec)
    requires
        same_signature(a, b),
    ensures
        signature_names(s, a) == signature_names(s, b),
    decreases s.len(),
{
    if s.len() > 0 {
        lemma_signature_names_same(s.drop_last(), a, b);
    }
}

proof fn lemma_signature_names_count(s: Seq<IndexSpec>, x: IndexSpec)
    ensures
        signature_names(s, x).len() >= 2 <==> exists|i: int, j: int|
            0 <= i < j < s.len() && same_signature(#[trigger] s[i], x) && same_signature(#[trigger] s[j], x),
        signature_names(s, x).len() >= 1 <==> exists|i: int|
            0 <= i < s.len() && same_signature(#[trigger] s[i], x),
    decreases s.len(),
{
    if s.len() > 0 {
        let t = s.drop_last();
        lemma_signature_names_count(t, x);
        let n = s.len() - 1;
        assert(s[n] == s.last());
        if exists|i: int| 0 <= i < t.len() && same_signature(#[trigger] t[i], x) {
            let i = choose|i: int| 0 <= i < t.len() && same_signature(#[trigger] t[i], x);
            assert(s[i] == t[i]);
        }
        if exists|i: int, j: int|
            0 <= i < j < t.len() && same_signature(#[trigger] t[i], x) && same_signature(#[trigger] t[j], x) {
            let (i, j) = choose|i: int, j: int|
                0 <= i < j < t.len() && same_signature(#[trigger] t[i], x) && same_signature(#[trigger] t[j], x);
            assert(s[i] == t[i] && s[j] == t[j]);
        }
        if exists|i: int| 0 <= i < s.len() && same_signature(#[trigger] s[i], x) {
            let i = choose|i: int| 0 <= i < s.len() && same_signature(#[trigger] s[i], x);
            if i < n {
                assert(t[i] == s[i]);
            }
        }
        if exists|i: int, j: int|
            0 <= i < j < s.len() && same_signature(#[trigger] s[i], x) && same_signature(#[trigger] s[j], x) {
            let (i, j) = choose|i: int, j: int|
                0 <= i < j < s.len() && same_signature(#[trigger] s[i], x) && same_signature(#[trigger] s[j], x);
            assert(t[i] == s[i]);
            if j < n {
                assert(t[j] == s[j]);
            }
        }
    }
}

proof fn lemma_first_of_signature_exists(ixs: Seq<IndexSpec>, p: int)
    requires
        0 <= p < ixs.len(),
    ensures
        exists|i: int| 0 <= i <= p && first_of_signature(ixs, i) && same_signature(#[trigger] ixs[i], ixs[p]),
    decreases p,
{
    if first_of_signature(ixs, p) {
        assert(same_signature(ixs[p], ixs[p]));
    } else {
        let j = choose|j: int| 0 <= j < p && same_signature(#[trigger] ixs[j], ixs[p]);
        lemma_first_of_signature_exists(ixs, j);
        let i = choose|i: int| 0 <= i <= j && first_of_signature(ixs, i) && same_signature(#[trigger] ixs[i], ixs[j]);
        assert(same_signature(ixs[i], ixs[p]));
    }
}

proof fn lemma_duplicate_groups_contain(t: TableSpec, k: int, y: FindingSpec)
    requires
        0 <= k <= t.indexes.len(),
    ensures
        duplicate_groups(t, k).contains(y) <==> exists|i: int| 0 <= i < k && #[trigger] duplicate_group(t, i).contains(y),
    decreases k,
{
    if k > 0 {
        lemma_duplicate_groups_contain(t, k - 1, y);
        lemma_contains_in_sum(duplicate_groups(t, k - 1), duplicate_group(t, k - 1), y);
    }
}

proof fn lemma_group_finding(t: TableSpec, i: int)
    requires
        0 <= i < t.indexes.len(),
    ensures
        duplicate_group(t, i).len() > 0 ==> duplicate_group(t, i) == seq![duplicate_finding(t, t.indexes[i])]
            && signature_names(t.indexes, t.indexes[i]).len() >= 2,
        duplicate_group(t, i).len() > 0 <==> first_of_signature(t.indexes, i) && signature_names(
            t.indexes,
            t.indexes[i],
        ).len() >= 2,
{
}

#[verifier::spinoff_prover]
#[verifier::rlimit(40)]
proof fn lemma_message_tells_uniqueness(a: IndexSpec, b: IndexSpec, na: Seq<Seq<char>>, nb: Seq<Seq<char>>)
    requires
        duplicate_index_message(a, na) == duplicate_index_message(b, nb),
    ensures
        a.unique == b.unique,
{
    reveal_strlit("duplicate ");
    reveal_strlit("unique ");
    reveal_strlit("");
    reveal_strlit("index on columns (");
    let ua: Seq<char> = if a.unique { "unique "@ } else { ""@ };
    let ub: Seq<char> = if b.unique { "unique "@ } else { ""@ };
    let ma = duplicate_index_message(a, na);
    let mb = duplicate_index_message(b, nb);
    let ra = "index on columns ("@ + join(a.columns, ", "@) + "): "@ + join(
        sorted_by(na, view_keyed::<String>()),
        ", "@,
    );
    let rb = "index on columns ("@ + join(b.columns, ", "@) + "): "@ + join(
        sorted_by(nb, view_keyed::<String>()),
        ", "@,
    );
    assert(ma =~= "duplicate "@ + (ua + ra));
    assert(mb =~= "duplicate "@ + (ub + rb));
    assert(ra[0] == 'i');
    assert(rb[0] == 'i');
    assert(ma[10] == (ua + ra)[0]);
    assert(mb[10] == (ub + rb)[0]);
    if a.unique {
        assert((ua + ra)[0] == 'u');
    } else {
        assert((ua + ra)[0] == 'i');
    }
    if b.unique {
        assert((ub + rb)[0] == 'u');
    } else {
        assert((ub + rb)[0] == 'i');
    }
}

/// When the duplicate-index rule speaks of table `t`: for any index `x` of
/// `t`, it reports the indexes sharing `x`'s uniqueness and columns (in
/// order; the same columns in another order, or another uniqueness, are a
/// different signature), naming them all, exactly when at least two
/// indexes of `t` share that signature. It reports nothing else.
pub proof fn law_duplicate_indexes_are_reported_exactly_when(t: TableSpec, x: IndexSpec)
    requires
        t.indexes.contains(x),
    ensures
        table_duplicate_indexes(t).contains(duplicate_finding(t, x)) <==> exists|i: int, j: int|
            0 <= i < j < t.indexes.len() && same_signature(#[trigger] t.indexes[i], x)
                && same_signature(#[trigger] t.indexes[j], x),
        forall|f: FindingSpec|
            #[trigger] table_duplicate_indexes(t).contains(f) ==> exists|y: IndexSpec|
                t.indexes.contains(y) && signature_names(t.indexes, y).len() >= 2 && f
                    == #[trigger] duplicate_finding(t, y),
{
    let ixs = t.indexes;
    let n = ixs.len() as int;
    lemma_signature_names_count(ixs, x);
    let p = choose|p: int| 0 <= p < ixs.len() && ixs[p] == x;
    lemma_first_of_signature_exists(ixs, p);
    let i0 = choose|i: int| 0 <= i <= p && first_of_signature(ixs, i) && same_signature(#[trigger] ixs[i], ixs[p]);
    lemma_signature_names_same(ixs, ixs[i0], x);
    lemma_group_finding(t, i0);
    lemma_duplicate_groups_contain(t, n, duplicate_finding(t, x));
    if signature_names(ixs, x).len() >= 2 {
        assert(signature_names(ixs, ixs[i0]).len() >= 2);
        assert(duplicate_group(t, i0).len() > 0);
        assert(duplicate_finding(t, ixs[i0]) == duplicate_finding(t, x));
        assert(duplicate_group(t, i0)[0] == duplicate_finding(t, x));
        assert(duplicate_group(t, i0).contains(duplicate_finding(t, x)));
    }
    if table_duplicate_indexes(t).contains(duplicate_finding(t, x)) {
        let i = choose|i: int| 0 <= i < n && #[trigger] duplicate_group(t, i).contains(duplicate_finding(t, x));
        lemma_group_finding(t, i);
        assert(duplicate_group(t, i).len() > 0);
        assert(duplicate_finding(t, ixs[i]) == duplicate_finding(t, x));
        lemma_message_tells_uniqueness(
            ixs[i],
            x,
            signature_names(ixs, ixs[i]),
            signature_names(ixs, x),
        );
        assert(same_signature(ixs[i], x));
        lemma_signature_names_same(ixs, ixs[i], x);
    }
    assert forall|f: FindingSpec|
        #[trigger] table_duplicate_indexes(t).contains(f) implies exists|y: IndexSpec|
            t.indexes.contains(y) && signature_names(t.indexes, y).len() >= 2 && f
                == #[trigger] duplicate_finding(t, y) by {
        lemma_duplicate_groups_contain(t, n, f);
        let i = choose|i: int| 0 <= i < n && #[trigger] duplicate_group(t, i).contains(f);
        lemma_group_finding(t, i);
        assert(duplicate_group(t, i).len() > 0);
        assert(f == duplicate_finding(t, ixs[i]));
        assert(ixs.contains(ixs[i]));
    }
}

/// The duplicate-index findings of a schema are exactly those its tables'
/// indexes call for.
pub proof fn law_duplicate_index_findings_come_from_tables(tables: Seq<TableSpec>, f: FindingSpec)
    ensures
        duplicate_indexes_of(tables).contains(f) <==> exists|i: int|
            0 <= i < tables.len() && #[trigger] table_duplicate_indexes(tables[i]).contains(f),
{
    crate::model::lemma_concat_map_contains(tables, table_duplicate_indexes_of(), f);
    if exists|i: int| 0 <= i < tables.len() && #[trigger] table_duplicate_indexes(tables[i]).contains(f) {
        let i = choose|i: int| 0 <= i < tables.len() && #[trigger] table_duplicate_indexes(tables[i]).contains(f);
        assert(table_duplicate_indexes_of()(tables[i]).contains(f));
    }
}

// ---------------------------------------------------------------------------
// When references are reported as circular
// ---------------------------------------------------------------------------

proof fn lemma_linked_through(tables: Seq<TableSpec>, k: nat, i: int, m: int, j: int)
    requires
        linked(tables, k, i, m),
        linked(tables, k, m, j),
        0 <= m < k,
    ensures
        linked(tables, k, i, j),
    decreases k,
{
    let p = (k - 1) as nat;
    if m == p {
        assert(linked(tables, p, i, p as int));
        assert(linked(tables, p, p as int, j));
    } else {
        if linked(tables, p, i, m) && linked(tables, p, m, j) {
            lemma_linked_through(tables, p, i, m, j);
        } else if linked(tables, p, i, m) {
            assert(linked(tables, p, m, p as int) && linked(tables, p, p as int, j));
            lemma_linked_through(tables, p, i, m, p as int);
        } else if linked(tables, p, m, j) {
            assert(linked(tables, p, i, p as int) && linked(tables, p, p as int, m));
            lemma_linked_through(tables, p, p as int, m, j);
        } else {
            assert(linked(tables, p, i, p as int));
            assert(linked(tables, p, p as int, j));
        }
    }
}

proof fn lemma_reaches_through(tables: Seq<TableSpec>, i: int, m: int, j: int)
    requires
        reaches(tables, i, m),
        reaches(tables, m, j),
        0 <= m < tables.len(),
    ensures
        reaches(tables, i, j),
{
    lemma_linked_through(tables, tables.len(), i, m, j);
}

proof fn lemma_cycle_findings_empty(db: DatabaseSpec, k: int)
    requires
        0 <= k,
    ensures
        cycle_findings(db, k).len() == 0 <==> forall|i: int| 0 <= i < k ==> !#[trigger] cycle_leader(db.tables, i),
    decreases k,
{
    if k > 0 {
        lemma_cycle_findings_empty(db, k - 1);
    }
}

/// The circular-reference rule reports nothing exactly when no table
/// reaches itself along foreign keys, that is, when the references between
/// tables have no cycle.
pub proof fn law_no_circular_reference_exactly_when_acyclic(db: DatabaseSpec)
    ensures
        circular_references_of(db).len() == 0 <==> forall|i: int|
            0 <= i < db.tables.len() ==> !#[trigger] reaches(db.tables, i, i),
        rules_all(circular_references_of(db), Rule::CircularReference),
{
    let n = db.tables.len() as int;
    lemma_cycle_findings_empty(db, n);
    lemma_cycle_findings_rules(db, n);
    if exists|i: int| 0 <= i < n && #[trigger] reaches(db.tables, i, i) {
        let i = choose|i: int| 0 <= i < n && #[trigger] reaches(db.tables, i, i);
        lemma_leader_with(db.tables, i, i);
    }
}

/// Every cycle is reported once: a table `i` that reaches itself shares its
/// cycle with exactly one reporting table, whose finding names every table
/// of that cycle, and two reporting tables never share a cycle.
pub proof fn law_each_cycle_is_reported_once(db: DatabaseSpec, i: int)
    requires
        0 <= i < db.tables.len(),
        reaches(db.tables, i, i),
    ensures
        exists|l: int|
            0 <= l <= i && #[trigger] cycle_leader(db.tables, l) && (l == i || strongly_linked(
                db.tables,
                i,
                l,
            )) && cycle_finding(db, l).len() == 1,
        forall|l1: int, l2: int|
            0 <= l1 < db.tables.len() && 0 <= l2 < db.tables.len() && #[trigger] cycle_leader(
                db.tables,
                l1,
            ) && #[trigger] cycle_leader(db.tables, l2) && (l1 == i || strongly_linked(
                db.tables,
                i,
                l1,
            )) && (l2 == i || strongly_linked(db.tables, i, l2)) ==> l1 == l2,
{
    let tables = db.tables;
    lemma_leader_with(tables, i, i);
    assert forall|l1: int, l2: int|
        0 <= l1 < tables.len() && 0 <= l2 < tables.len() && #[trigger] cycle_leader(tables, l1)
            && #[trigger] cycle_leader(tables, l2) && (l1 == i || strongly_linked(tables, i, l1)) && (
        l2 == i || strongly_linked(tables, i, l2)) implies l1 == l2 by {
        if l1 != l2 {
            let (a, b) = if l1 < l2 {
                (l1, l2)
            } else {
                (l2, l1)
            };
            // b's cycle holds a, so b would not report it.
            if a != i {
                lemma_reaches_through(tables, b, i, a);
                lemma_reaches_through(tables, a, i, b);
            }
            assert(strongly_linked(tables, b, a));
        }
    }
}

proof fn lemma_leader_with(tables: Seq<TableSpec>, i: int, c: int)
    requires
        0 <= c <= i < tables.len(),
        reaches(tables, i, i),
        c == i || strongly_linked(tables, i, c),
    ensures
        exists|l: int|
            0 <= l <= c && #[trigger] cycle_leader(tables, l) && (l == i || strongly_linked(
                tables,
                i,
                l,
            )),
    decreases c,
{
    if c != i {
        lemma_reaches_through(tables, c, i, c);
    }
    assert(reaches(tables, c, c));
    if !cycle_leader(tables, c) {
        let j = choose|j: int| 0 <= j < c && #[trigger] strongly_linked(tables, c, j);
        if c == i {
            lemma_leader_with(tables, i, j);
        } else {
            lemma_reaches_through(tables, i, c, j);
            lemma_reaches_through(tables, j, c, i);
            lemma_leader_with(tables, i, j);
        }
    }
}

/// Whether every finding of `s` is an invalid-metadata error.
pub open spec fn all_invalid_errors(s: Seq<FindingSpec>) -> bool {
    forall|i: int|
        0 <= i < s.len() ==> (#[trigger] s[i]).rule == Rule::InvalidMetadata && s[i].severity
            == Severity::Error
}

proof fn lemma_all_invalid_add(p: Seq<FindingSpec>, q: Seq<FindingSpec>)
    requires
        all_invalid_errors(p),
        all_invalid_errors(q),
    ensures
        all_invalid_errors(p + q),
{
    assert forall|i: int| 0 <= i < (p + q).len() implies (#[trigger] (p + q)[i]).rule
        == Rule::InvalidMetadata && (p + q)[i].severity == Severity::Error by {
        if i < p.len() {
            assert((p + q)[i] == p[i]);
        } else {
            assert((p + q)[i] == q[i - p.len()]);
        }
    }
}

proof fn lemma_concat_map_invalid<A>(s: Seq<A>, f: spec_fn(A) -> Seq<FindingSpec>)
    requires
        forall|a: A| all_invalid_errors(#[trigger] f(a)),
    ensures
        all_invalid_errors(concat_map(s, f)),
    decreases s.len(),
{
    if s.len() > 0 {
        lemma_concat_map_invalid(s.drop_last(), f);
        assert(all_invalid_errors(f(s.last())));
        lemma_all_invalid_add(concat_map(s.drop_last(), f), f(s.last()));
    }
}

proof fn lemma_problems_invalid(schema: Seq<char>, table: Seq<char>, in_view: bool, columns: Seq<ColumnSpec>)
    ensures
        all_invalid_errors(concat_map(columns, column_problems_of(schema, table, in_view))),
{
    let g = column_problems_of(schema, table, in_view);
    assert forall|c: ColumnSpec| all_invalid_errors(#[trigger] g(c)) by {
        let a = when(is_blank(c.name), invalid(schema, table, seq![c.name], if in_view {
            "view column name is empty"@
        } else {
            "column name is empty"@
        }));
        let b = when(c.ordinal_position == 0, invalid(schema, table, seq![c.name], if in_view {
            "view column ordinal position is zero"@
        } else {
            "column ordinal position is zero"@
        }));
        lemma_all_invalid_add(a, b);
    }
    lemma_concat_map_invalid(columns, g);
}

/// Every invalid-metadata finding is an error: one for a blank database
/// name or engine version, for each blank table or view namespace or name,
/// and for each blank column name or zero ordinal position, and the report
/// holds exactly these among its invalid-metadata findings.
pub proof fn law_invalid_metadata_findings_are_errors(db: DatabaseSpec, f: FindingSpec)
    ensures
        all_invalid_errors(invalid_metadata_of(db)),
        f.rule == Rule::InvalidMetadata ==> (report_findings(db).contains(f)
            <==> invalid_metadata_of(db).contains(f)),
{
    law_report_findings_come_from_their_rule(db, f);
    assert forall|t: TableSpec| all_invalid_errors(#[trigger] table_problems_of()(t)) by {
        let a = when(is_blank(t.schema), invalid(t.schema, t.name, Seq::empty(), "table schema is empty"@));
        let b = when(is_blank(t.name), invalid(t.schema, t.name, Seq::empty(), "table name is empty"@));
        lemma_problems_invalid(t.schema, t.name, false, t.columns);
        lemma_all_invalid_add(a, b);
        lemma_all_invalid_add(a + b, concat_map(t.columns, column_problems_of(t.schema, t.name, false)));
    }
    assert forall|v: SchemaViewSpec| all_invalid_errors(#[trigger] view_problems_of()(v)) by {
        let a = when(is_blank(v.schema), invalid(v.schema, v.name, Seq::empty(), "view schema is empty"@));
        let b = when(is_blank(v.name), invalid(v.schema, v.name, Seq::empty(), "view name is empty"@));
        lemma_problems_invalid(v.schema, v.name, true, v.columns);
        lemma_all_invalid_add(a, b);
        lemma_all_invalid_add(a + b, concat_map(v.columns, column_problems_of(v.schema, v.name, true)));
    }
    lemma_concat_map_invalid(db.tables, table_problems_of());
    lemma_concat_map_invalid(db.views, view_problems_of());
    let a = when(
        is_blank(db.metadata.database),
        invalid(Seq::empty(), Seq::empty(), Seq::empty(), "database name is empty"@),
    );
    let b = when(
        is_blank(db.metadata.engine_version),
        invalid(Seq::empty(), Seq::empty(), Seq::empty(), "engine version is empty"@),
    );
    lemma_all_invalid_add(a, b);
    lemma_all_invalid_add(a + b, concat_map(db.tables, table_problems_of()));
    lemma_all_invalid_add(a + b + concat_map(db.tables, table_problems_of()), concat_map(db.views, view_problems_of()));
}

// ---------------------------------------------------------------------------
// The order tables arrive in
// ---------------------------------------------------------------------------

/// Whether no two tables of `tables` share a namespace and name.
pub open spec fn names_distinct(tables: Seq<TableSpec>) -> bool {
    forall|i: int, j: int|
        0 <= i < j < tables.len() ==> !((#[trigger] tables[i]).schema == (#[trigger] tables[j]).schema
            && tables[i].name == tables[j].name)
}

/// The namespace and name of a table, as a key.
pub open spec fn table_name_key() -> spec_fn(TableSpec) -> Seq<KeyPart> {
    |x: TableSpec| crate::order::text_key(seq![x.schema, x.name])
}

/// Rearranging tables of distinct namespaces and names keeps them distinct.
proof fn lemma_names_distinct_rearranged(t: Seq<TableSpec>, o: Seq<TableSpec>)
    requires
        t.to_multiset() == o.to_multiset(),
        names_distinct(t),
    ensures
        names_distinct(o),
{
    let k = table_name_key();
    assert forall|i: int, j: int| 0 <= i < j < t.len() implies k(#[trigger] t[i]) != k(#[trigger] t[j]) by {
        assert(!(t[i].schema == t[j].schema && t[i].name == t[j].name));
        if k(t[i]) == k(t[j]) {
            assert(k(t[i])[0] == k(t[j])[0]);
            assert(k(t[i])[1] == k(t[j])[1]);
        }
    }
    crate::order::lemma_keys_distinct_rearranged(t, o, k);
    assert forall|i: int, j: int| 0 <= i < j < o.len() implies !((#[trigger] o[i]).schema == (
    #[trigger] o[j]).schema && o[i].name == o[j].name) by {
        assert(k(o[i]) != k(o[j]));
        if o[i].schema == o[j].schema && o[i].name == o[j].name {
            assert(k(o[i]) =~= k(o[j]));
        }
    }
}

proof fn lemma_lookup_rearranged(tables: Seq<TableSpec>, other: Seq<TableSpec>, schema: Seq<char>, name: Seq<char>)
    requires
        tables.to_multiset() == other.to_multiset(),
        names_distinct(tables),
        names_distinct(other),
    ensures
        (last_table_index(tables, schema, name) < 0) == (last_table_index(other, schema, name) < 0),
        last_table_index(tables, schema, name) >= 0 ==> tables[last_table_index(tables, schema, name)]
            == other[last_table_index(other, schema, name)],
{
    broadcast use vstd::seq_lib::group_to_multiset_ensures;

    lemma_last_table_index(tables, schema, name);
    lemma_last_table_index(other, schema, name);
    let a = last_table_index(tables, schema, name);
    let b = last_table_index(other, schema, name);
    if a >= 0 {
        let x = tables[a];
        assert(tables.contains(x));
        assert(tables.to_multiset().count(x) > 0);
        assert(other.to_multiset().count(x) > 0);
        assert(other.contains(x));
        let m = choose|m: int| 0 <= m < other.len() && other[m] == x;
        assert(!(forall|j: int|
            0 <= j < other.len() ==> !((#[trigger] other[j]).schema == schema && other[j].name == name)));
        if m < b {
            assert(!(other[m].schema == other[b].schema && other[m].name == other[b].name));
        } else if b < m {
            assert(!(other[b].schema == other[m].schema && other[b].name == other[m].name));
        }
    }
    if b >= 0 {
        let y = other[b];
        assert(other.contains(y));
        assert(other.to_multiset().count(y) > 0);
        assert(tables.to_multiset().count(y) > 0);
        assert(tables.contains(y));
        let m = choose|m: int| 0 <= m < tables.len() && tables[m] == y;
        assert(!(forall|j: int|
            0 <= j < tables.len() ==> !((#[trigger] tables[j]).schema == schema && tables[j].name == name)));
    }
}

proof fn lemma_foreign_key_checks_rearranged(tables: Seq<TableSpec>, other: Seq<TableSpec>)
    requires
        tables.to_multiset() == other.to_multiset(),
        names_distinct(tables),
        names_distinct(other),
    ensures
        table_foreign_key_findings_of(tables) == table_foreign_key_findings_of(other),
{
    assert forall|t: TableSpec| #[trigger] table_foreign_key_findings_of(tables)(t)
        == table_foreign_key_findings_of(other)(t) by {
        assert forall|fk: ForeignKeySpec| #[trigger] foreign_key_findings_of(tables, t)(fk)
            == foreign_key_findings_of(other, t)(fk) by {
            lemma_lookup_rearranged(tables, other, fk.referenced_schema, fk.referenced_table);
        }
        assert(foreign_key_findings_of(tables, t) =~= foreign_key_findings_of(other, t));
    }
    assert(table_foreign_key_findings_of(tables) =~= table_foreign_key_findings_of(other));
}

/// Rearranged tables and views give the same missing-primary-key,
/// broken-foreign-key, duplicate-index and invalid-metadata findings, each
/// as often.
proof fn lemma_findings_but_cycles_carried(db: DatabaseSpec, other: DatabaseSpec)
    requires
        other.tables.to_multiset() == db.tables.to_multiset(),
        other.views.to_multiset() == db.views.to_multiset(),
        other.metadata == db.metadata,
        names_distinct(db.tables),
        names_distinct(other.tables),
    ensures
        missing_primary_keys_of(other.tables).to_multiset() == missing_primary_keys_of(db.tables).to_multiset(),
        broken_foreign_keys_of(other.tables).to_multiset() == broken_foreign_keys_of(db.tables).to_multiset(),
        duplicate_indexes_of(other.tables).to_multiset() == duplicate_indexes_of(db.tables).to_multiset(),
        invalid_metadata_of(other).to_multiset() == invalid_metadata_of(db).to_multiset(),
{
    crate::model::lemma_concat_map_rearranged(other.tables, db.tables, missing_primary_key_of_fn());
    crate::model::lemma_concat_map_rearranged(other.tables, db.tables, table_duplicate_indexes_of());
    lemma_foreign_key_checks_rearranged(db.tables, other.tables);
    crate::model::lemma_concat_map_rearranged(other.tables, db.tables, table_foreign_key_findings_of(db.tables));
    crate::model::lemma_concat_map_rearranged(other.tables, db.tables, table_problems_of());
    crate::model::lemma_concat_map_rearranged(other.views, db.views, view_problems_of());
    let a = when(
        is_blank(db.metadata.database),
        invalid(Seq::empty(), Seq::empty(), Seq::empty(), "database name is empty"@),
    ) + when(
        is_blank(db.metadata.engine_version),
        invalid(Seq::empty(), Seq::empty(), Seq::empty(), "engine version is empty"@),
    );
    let t1 = concat_map(db.tables, table_problems_of());
    let t2 = concat_map(other.tables, table_problems_of());
    let v1 = concat_map(db.views, view_problems_of());
    let v2 = concat_map(other.views, view_problems_of());
    vstd::seq_lib::lemma_multiset_commutative(a, t1);
    vstd::seq_lib::lemma_multiset_commutative(a, t2);
    vstd::seq_lib::lemma_multiset_commutative(a + t1, v1);
    vstd::seq_lib::lemma_multiset_commutative(a + t2, v2);
}

/// Where table `i` of `tables` stands in `other`: the position of the last
/// table of `other` with its namespace and name.
pub open spec fn counterpart(tables: Seq<TableSpec>, other: Seq<TableSpec>, i: int) -> int {
    last_table_index(other, tables[i].schema, tables[i].name)
}

proof fn lemma_node_of_distinct(tables: Seq<TableSpec>, i: int)
    requires
        names_distinct(tables),
        0 <= i < tables.len(),
    ensures
        last_table_index(tables, tables[i].schema, tables[i].name) == i,
{
    lemma_last_table_index_found(tables, i);
    lemma_last_table_index(tables, tables[i].schema, tables[i].name);
    let k = last_table_index(tables, tables[i].schema, tables[i].name);
    if k != i {
        assert(!(tables[i].schema == tables[k].schema && tables[i].name == tables[k].name));
    }
}

proof fn lemma_has_edge_distinct(tables: Seq<TableSpec>, a: int, b: int)
    requires
        names_distinct(tables),
    ensures
        has_edge(tables, a, b) <==> (0 <= a < tables.len() && 0 <= b < tables.len() && exists|j: int|
            0 <= j < tables[a].foreign_keys.len() && #[trigger] last_table_index(
                tables,
                tables[a].foreign_keys[j].referenced_schema,
                tables[a].foreign_keys[j].referenced_table,
            ) == b),
{
    crate::model::lemma_concat_map_contains(tables, table_edges_of(tables), (a, b));
    if has_edge(tables, a, b) {
        let i = choose|i: int| 0 <= i < tables.len() && #[trigger] table_edges_of(tables)(tables[i]).contains((a, b));
        let g = fk_edge_of(tables, tables[i]);
        crate::model::lemma_concat_map_contains(tables[i].foreign_keys, g, (a, b));
        let j = choose|j: int| 0 <= j < tables[i].foreign_keys.len() && #[trigger] g(tables[i].foreign_keys[j]).contains((a, b));
        let fk = tables[i].foreign_keys[j];
        lemma_node_of_distinct(tables, i);
        lemma_last_table_index(tables, fk.referenced_schema, fk.referenced_table);
        assert(a == i);
    }
    if 0 <= a < tables.len() && 0 <= b < tables.len() && exists|j: int|
        0 <= j < tables[a].foreign_keys.len() && #[trigger] last_table_index(
            tables,
            tables[a].foreign_keys[j].referenced_schema,
            tables[a].foreign_keys[j].referenced_table,
        ) == b {
        let j = choose|j: int|
            0 <= j < tables[a].foreign_keys.len() && #[trigger] last_table_index(
                tables,
                tables[a].foreign_keys[j].referenced_schema,
                tables[a].foreign_keys[j].referenced_table,
            ) == b;
        lemma_node_of_distinct(tables, a);
        let g = fk_edge_of(tables, tables[a]);
        assert(g(tables[a].foreign_keys[j]) == seq![(a, b)]);
        assert(g(tables[a].foreign_keys[j])[0] == (a, b));
        assert(g(tables[a].foreign_keys[j]).contains((a, b)));
        crate::model::lemma_concat_map_contains(tables[a].foreign_keys, g, (a, b));
        assert(table_edges_of(tables)(tables[a]) == crate::model::concat_map(tables[a].foreign_keys, g));
        assert(table_edges_of(tables)(tables[a]).contains((a, b)));
    }
}

proof fn lemma_linked_grows(tables: Seq<TableSpec>, k: nat, k2: nat, i: int, j: int)
    requires
        k <= k2,
        linked(tables, k, i, j),
    ensures
        linked(tables, k2, i, j),
    decreases k2,
{
    if k2 > k {
        lemma_linked_grows(tables, k, (k2 - 1) as nat, i, j);
    }
}

proof fn lemma_counterpart(tables: Seq<TableSpec>, other: Seq<TableSpec>, i: int)
    requires
        tables.to_multiset() == other.to_multiset(),
        names_distinct(tables),
        names_distinct(other),
        0 <= i < tables.len(),
    ensures
        0 <= counterpart(tables, other, i) < other.len(),
        other[counterpart(tables, other, i)] == tables[i],
        counterpart(other, tables, counterpart(tables, other, i)) == i,
{
    lemma_node_of_distinct(tables, i);
    lemma_lookup_rearranged(tables, other, tables[i].schema, tables[i].name);
    lemma_last_table_index(other, tables[i].schema, tables[i].name);
}

proof fn lemma_lookup_carried(tables: Seq<TableSpec>, other: Seq<TableSpec>, schema: Seq<char>, name: Seq<char>)
    requires
        tables.to_multiset() == other.to_multiset(),
        names_distinct(tables),
        names_distinct(other),
        last_table_index(tables, schema, name) >= 0,
    ensures
        last_table_index(other, schema, name) == counterpart(tables, other, last_table_index(tables, schema, name)),
{
    lemma_last_table_index(tables, schema, name);
}

proof fn lemma_linked_carried(tables: Seq<TableSpec>, other: Seq<TableSpec>, k: nat, i: int, j: int)
    requires
        tables.to_multiset() == other.to_multiset(),
        names_distinct(tables),
        names_distinct(other),
        k <= tables.len(),
        linked(tables, k, i, j),
    ensures
        0 <= i < tables.len(),
        0 <= j < tables.len(),
        reaches(other, counterpart(tables, other, i), counterpart(tables, other, j)),
    decreases k,
{
    broadcast use vstd::seq_lib::group_to_multiset_ensures;

    vstd::seq_lib::to_multiset_len(tables);
    vstd::seq_lib::to_multiset_len(other);
    if k == 0 {
        lemma_has_edge_distinct(tables, i, j);
        let q = choose|q: int|
            0 <= q < tables[i].foreign_keys.len() && #[trigger] last_table_index(
                tables,
                tables[i].foreign_keys[q].referenced_schema,
                tables[i].foreign_keys[q].referenced_table,
            ) == j;
        let fk = tables[i].foreign_keys[q];
        lemma_counterpart(tables, other, i);
        lemma_counterpart(tables, other, j);
        lemma_lookup_carried(tables, other, fk.referenced_schema, fk.referenced_table);
        let a = counterpart(tables, other, i);
        let b = counterpart(tables, other, j);
        assert(other[a].foreign_keys[q] == fk);
        assert(last_table_index(
            other,
            other[a].foreign_keys[q].referenced_schema,
            other[a].foreign_keys[q].referenced_table,
        ) == b);
        lemma_has_edge_distinct(other, a, b);
        lemma_linked_grows(other, 0, other.len(), a, b);
    } else {
        let m = (k - 1) as nat;
        if linked(tables, m, i, j) {
            lemma_linked_carried(tables, other, m, i, j);
        } else {
            lemma_linked_carried(tables, other, m, i, m as int);
            lemma_linked_carried(tables, other, m, m as int, j);
            lemma_counterpart(tables, other, m as int);
            lemma_reaches_through(
                other,
                counterpart(tables, other, i),
                counterpart(tables, other, m as int),
                counterpart(tables, other, j),
            );
        }
    }
}

/// Whether one table reaches another along foreign keys does not depend on
/// the order tables arrive in: with the tables rearranged (no two sharing a
/// namespace and name), each table keeps its references, one table reaches
/// another exactly when it did before, and the circular-reference rule
/// reports some cycle exactly when it did before.
pub proof fn law_reachability_ignores_arrival_order(db: DatabaseSpec, other: DatabaseSpec)
    requires
        other.tables.to_multiset() == db.tables.to_multiset(),
        names_distinct(db.tables),
    ensures
        other.tables.len() == db.tables.len(),
        forall|i: int|
            0 <= i < db.tables.len() ==> 0 <= #[trigger] counterpart(db.tables, other.tables, i)
                < other.tables.len() && other.tables[counterpart(db.tables, other.tables, i)]
                == db.tables[i],
        forall|i: int, j: int|
            0 <= i < db.tables.len() && 0 <= j < db.tables.len() ==> reaches(
                other.tables,
                #[trigger] counterpart(db.tables, other.tables, i),
                #[trigger] counterpart(db.tables, other.tables, j),
            ) == reaches(db.tables, i, j),
        (circular_references_of(other).len() == 0) == (circular_references_of(db).len() == 0),
{
    broadcast use vstd::seq_lib::group_to_multiset_ensures;

    let t = db.tables;
    let o = other.tables;
    lemma_names_distinct_rearranged(t, o);
    vstd::seq_lib::to_multiset_len(t);
    vstd::seq_lib::to_multiset_len(o);
    assert forall|i: int| 0 <= i < t.len() implies 0 <= #[trigger] counterpart(t, o, i) < o.len()
        && o[counterpart(t, o, i)] == t[i] by {
        lemma_counterpart(t, o, i);
    }
    assert forall|i: int, j: int| 0 <= i < t.len() && 0 <= j < t.len() implies reaches(
        o,
        #[trigger] counterpart(t, o, i),
        #[trigger] counterpart(t, o, j),
    ) == reaches(t, i, j) by {
        lemma_counterpart(t, o, i);
        lemma_counterpart(t, o, j);
        if reaches(t, i, j) {
            lemma_linked_carried(t, o, t.len(), i, j);
        }
        if reaches(o, counterpart(t, o, i), counterpart(t, o, j)) {
            lemma_linked_carried(o, t, o.len(), counterpart(t, o, i), counterpart(t, o, j));
        }
    }
    law_no_circular_reference_exactly_when_acyclic(db);
    law_no_circular_reference_exactly_when_acyclic(other);
    if exists|i: int| 0 <= i < t.len() && #[trigger] reaches(t, i, i) {
        let i = choose|i: int| 0 <= i < t.len() && #[trigger] reaches(t, i, i);
        lemma_linked_carried(t, o, t.len(), i, i);
        lemma_counterpart(t, o, i);
    }
    if exists|i: int| 0 <= i < o.len() && #[trigger] reaches(o, i, i) {
        let i = choose|i: int| 0 <= i < o.len() && #[trigger] reaches(o, i, i);
        lemma_linked_carried(o, t, o.len(), i, i);
        lemma_counterpart(o, t, i);
    }
}

/// The tables among the first `k` that report a cycle, in table order.
pub open spec fn leaders_below(tables: Seq<TableSpec>, k: int) -> Seq<int>
    decreases k,
{
    if k <= 0 {
        Seq::empty()
    } else if cycle_leader(tables, k - 1) {
        leaders_below(tables, k - 1).push(k - 1)
    } else {
        leaders_below(tables, k - 1)
    }
}

pub open spec fn cycle_finding_of(db: DatabaseSpec) -> spec_fn(int) -> Seq<FindingSpec> {
    |i: int| cycle_finding(db, i)
}

/// The positions `0..n`.
pub open spec fn below(n: int) -> Seq<int> {
    Seq::new(n as nat, |m: int| m)
}

/// The name of table `m` when it shares a cycle with `i`.
pub open spec fn linked_name(db: DatabaseSpec, i: int) -> spec_fn(int) -> Seq<Seq<char>> {
    |m: int|
        if strongly_linked(db.tables, i, m) {
            seq![display_name(db.metadata.engine, db.tables[m])]
        } else {
            Seq::empty()
        }
}

/// Whether `a` and `b` are one table or share a cycle.
pub open spec fn same_cycle(tables: Seq<TableSpec>, a: int, b: int) -> bool {
    a == b || strongly_linked(tables, a, b)
}

proof fn lemma_same_cycle_through(tables: Seq<TableSpec>, a: int, b: int, c: int)
    requires
        same_cycle(tables, a, b),
        same_cycle(tables, b, c),
        0 <= b < tables.len(),
    ensures
        same_cycle(tables, a, c),
        same_cycle(tables, c, a),
{
    if a != b && b != c && a != c {
        lemma_reaches_through(tables, a, b, c);
        lemma_reaches_through(tables, c, b, a);
    }
}

proof fn lemma_leaders_apart(tables: Seq<TableSpec>, a: int, b: int)
    requires
        0 <= a,
        0 <= b,
        cycle_leader(tables, a),
        cycle_leader(tables, b),
        same_cycle(tables, a, b),
    ensures
        a == b,
{
    if a < b {
        assert(!strongly_linked(tables, b, a));
    } else if b < a {
        assert(!strongly_linked(tables, a, b));
    }
}

proof fn lemma_cycle_findings_by_leaders(db: DatabaseSpec, k: int)
    requires
        0 <= k,
    ensures
        cycle_findings(db, k) == concat_map(leaders_below(db.tables, k), cycle_finding_of(db)),
        forall|x: int|
            #[trigger] leaders_below(db.tables, k).contains(x) <==> (0 <= x < k && cycle_leader(
                db.tables,
                x,
            )),
        leaders_below(db.tables, k).no_duplicates(),
    decreases k,
{
    if k > 0 {
        lemma_cycle_findings_by_leaders(db, k - 1);
        let l = leaders_below(db.tables, k - 1);
        if cycle_leader(db.tables, k - 1) {
            let m = l.push(k - 1);
            assert(m.drop_last() =~= l);
            assert(m.last() == k - 1);
            assert forall|x: int| #[trigger] m.contains(x) <==> (0 <= x < k && cycle_leader(db.tables, x)) by {
                if m.contains(x) {
                    let q = choose|q: int| 0 <= q < m.len() && m[q] == x;
                    if q < l.len() {
                        assert(l[q] == x);
                        assert(l.contains(x));
                    }
                }
                if 0 <= x < k && cycle_leader(db.tables, x) {
                    if x == k - 1 {
                        assert(m[l.len() as int] == x);
                    } else {
                        assert(l.contains(x));
                        let q = choose|q: int| 0 <= q < l.len() && l[q] == x;
                        assert(m[q] == x);
                    }
                }
            }
            assert forall|p: int, q: int| 0 <= p < m.len() && 0 <= q < m.len() && p != q implies m[p]
                != m[q] by {
                if p < l.len() && q < l.len() {
                    assert(m[p] == l[p] && m[q] == l[q]);
                } else if p < l.len() {
                    assert(m[p] == l[p]);
                    assert(l.contains(l[p]));
                } else if q < l.len() {
                    assert(m[q] == l[q]);
                    assert(l.contains(l[q]));
                }
            }
        } else {
            assert(cycle_finding(db, k - 1) =~= Seq::<FindingSpec>::empty());
            assert(cycle_findings(db, k - 1) + Seq::<FindingSpec>::empty() =~= cycle_findings(db, k - 1));
        }
    }
}

proof fn lemma_cycle_names_by_positions(db: DatabaseSpec, i: int, k: int)
    requires
        0 <= k,
    ensures
        cycle_names(db, i, k) == concat_map(below(k), linked_name(db, i)),
    decreases k,
{
    if k > 0 {
        lemma_cycle_names_by_positions(db, i, k - 1);
        assert(below(k).drop_last() =~= below(k - 1));
        assert(below(k).last() == k - 1);
        let c = cycle_names(db, i, k - 1);
        if strongly_linked(db.tables, i, k - 1) {
            assert(c + seq![display_name(db.metadata.engine, db.tables[k - 1])] =~= c.push(
                display_name(db.metadata.engine, db.tables[k - 1]),
            ));
        } else {
            assert(c + Seq::<Seq<char>>::empty() =~= c);
        }
    }
}

proof fn lemma_concat_map_through<B>(
    s: Seq<int>,
    h: spec_fn(int) -> int,
    f: spec_fn(int) -> Seq<B>,
    g: spec_fn(int) -> Seq<B>,
)
    requires
        forall|k: int| 0 <= k < s.len() ==> g(h(#[trigger] s[k])) == f(s[k]),
    ensures
        concat_map(s.map_values(h), g) == concat_map(s, f),
    decreases s.len(),
{
    if s.len() > 0 {
        let t = s.drop_last();
        assert(s.map_values(h).drop_last() =~= t.map_values(h));
        assert forall|k: int| 0 <= k < t.len() implies g(h(#[trigger] t[k])) == f(t[k]) by {
            assert(t[k] == s[k]);
        }
        lemma_concat_map_through(t, h, f, g);
        assert(s[s.len() - 1] == s.last());
        assert(s.map_values(h).last() == h(s.last()));
    }
}

proof fn lemma_rearranged_positions(s: Seq<int>, t: Seq<int>)
    requires
        s.no_duplicates(),
        t.no_duplicates(),
        forall|x: int| s.contains(x) <==> t.contains(x),
    ensures
        s.to_multiset() == t.to_multiset(),
{
    broadcast use vstd::seq_lib::group_to_multiset_ensures;

    s.lemma_multiset_has_no_duplicates();
    t.lemma_multiset_has_no_duplicates();
    assert forall|x: int| s.to_multiset().count(x) == t.to_multiset().count(x) by {
        if s.contains(x) {
            assert(t.contains(x));
            assert(s.to_multiset().contains(x));
            assert(t.to_multiset().contains(x));
        } else {
            assert(!t.contains(x));
        }
    }
    assert(s.to_multiset() =~= t.to_multiset());
}

/// Whether `other` holds the tables of `db` in some order, no two of either
/// sharing a namespace and name.
pub open spec fn rearranged(db: DatabaseSpec, other: DatabaseSpec) -> bool {
    &&& other.tables.to_multiset() == db.tables.to_multiset()
    &&& names_distinct(db.tables)
    &&& names_distinct(other.tables)
}

proof fn lemma_same_cycle_carried(db: DatabaseSpec, other: DatabaseSpec, a: int, b: int)
    requires
        rearranged(db, other),
        0 <= a < db.tables.len(),
        0 <= b < db.tables.len(),
    ensures
        same_cycle(other.tables, counterpart(db.tables, other.tables, a), counterpart(db.tables, other.tables, b))
            == same_cycle(db.tables, a, b),
{
    law_reachability_ignores_arrival_order(db, other);
    let t = db.tables;
    let o = other.tables;
    assert(reaches(o, counterpart(t, o, a), counterpart(t, o, b)) == reaches(t, a, b));
    assert(reaches(o, counterpart(t, o, b), counterpart(t, o, a)) == reaches(t, b, a));
    if counterpart(t, o, a) == counterpart(t, o, b) && a != b {
        lemma_counterpart(t, o, a);
        lemma_counterpart(t, o, b);
    }
}

proof fn lemma_names_carried(db: DatabaseSpec, other: DatabaseSpec, i: int, l: int)
    requires
        rearranged(db, other),
        other.metadata.engine == db.metadata.engine,
        0 <= i < db.tables.len(),
        0 <= l < other.tables.len(),
        same_cycle(other.tables, counterpart(db.tables, other.tables, i), l),
    ensures
        sorted_by(cycle_names(other, l, other.tables.len() as int), view_keyed::<String>())
            == sorted_by(cycle_names(db, i, db.tables.len() as int), view_keyed::<String>()),
{
    broadcast use vstd::seq_lib::group_to_multiset_ensures;

    let t = db.tables;
    let o = other.tables;
    let n = t.len() as int;
    law_reachability_ignores_arrival_order(db, other);
    let sigma = |m: int| counterpart(t, o, m);
    lemma_cycle_names_by_positions(db, i, n);
    lemma_cycle_names_by_positions(other, l, n);
    let r = below(n);
    let p = r.map_values(sigma);
    lemma_counterpart(t, o, i);
    assert forall|k: int| 0 <= k < r.len() implies linked_name(other, l)(sigma(#[trigger] r[k])) == linked_name(
        db,
        i,
    )(r[k]) by {
        let m = r[k];
        assert(m == k);
        lemma_counterpart(t, o, m);
        let ci = counterpart(t, o, i);
        let cm = counterpart(t, o, m);
        assert(reaches(o, ci, cm) == reaches(t, i, m));
        assert(reaches(o, cm, ci) == reaches(t, m, i));
        if ci != l {
            if reaches(o, l, cm) {
                lemma_reaches_through(o, ci, l, cm);
            }
            if reaches(o, cm, l) {
                lemma_reaches_through(o, cm, l, ci);
            }
            if reaches(o, ci, cm) {
                lemma_reaches_through(o, l, ci, cm);
            }
            if reaches(o, cm, ci) {
                lemma_reaches_through(o, cm, ci, l);
            }
        }
    }
    lemma_concat_map_through(r, sigma, linked_name(db, i), linked_name(other, l));
    assert forall|a: int, b: int| 0 <= a < p.len() && 0 <= b < p.len() && a != b implies p[a] != p[b] by {
        lemma_counterpart(t, o, a);
        lemma_counterpart(t, o, b);
        if p[a] == p[b] {
            assert(t[a] == t[b]);
            if a < b {
                assert(!(t[a].schema == t[b].schema && t[a].name == t[b].name));
            } else {
                assert(!(t[b].schema == t[a].schema && t[b].name == t[a].name));
            }
        }
    }
    assert forall|x: int| p.contains(x) <==> r.contains(x) by {
        if p.contains(x) {
            let a = choose|a: int| 0 <= a < p.len() && p[a] == x;
            lemma_counterpart(t, o, a);
            assert(r[x] == x);
        }
        if r.contains(x) {
            let a = choose|a: int| 0 <= a < r.len() && r[a] == x;
            lemma_counterpart(o, t, x);
            let y = counterpart(o, t, x);
            assert(p[y] == x);
        }
    }
    assert(r.no_duplicates());
    lemma_rearranged_positions(p, r);
    crate::model::lemma_concat_map_rearranged(p, r, linked_name(other, l));
    let sk = view_keyed::<String>();
    let names = cycle_names(other, l, n);
    assert forall|x: Seq<char>, y: Seq<char>| names.contains(x) && names.contains(y) && #[trigger] sk(x)
        == #[trigger] sk(y) implies x == y by {
        assert(sk(x)[0] == KeyPart::Text(x));
        assert(sk(y)[0] == KeyPart::Text(y));
    }
    crate::order::lemma_sorted_by_same_items(names, cycle_names(db, i, n), sk);
}

/// The table of `tables` that reports the cycle `x` lies on.
pub open spec fn leader_of(tables: Seq<TableSpec>, x: int) -> int {
    choose|l: int| 0 <= l <= x && #[trigger] cycle_leader(tables, l) && same_cycle(tables, x, l)
}

proof fn lemma_leader_of(tables: Seq<TableSpec>, x: int)
    requires
        0 <= x < tables.len(),
        reaches(tables, x, x),
    ensures
        0 <= leader_of(tables, x) <= x,
        cycle_leader(tables, leader_of(tables, x)),
        same_cycle(tables, x, leader_of(tables, x)),
{
    lemma_leader_with(tables, x, x);
    let w = choose|l: int|
        0 <= l <= x && #[trigger] cycle_leader(tables, l) && (l == x || strongly_linked(tables, x, l));
    assert(0 <= w <= x && cycle_leader(tables, w) && same_cycle(tables, x, w));
}

proof fn lemma_leader_image(db: DatabaseSpec, other: DatabaseSpec, i: int)
    requires
        rearranged(db, other),
        other.metadata.engine == db.metadata.engine,
        0 <= i < db.tables.len(),
        cycle_leader(db.tables, i),
    ensures
        0 <= leader_of(other.tables, counterpart(db.tables, other.tables, i)) < other.tables.len(),
        cycle_leader(other.tables, leader_of(other.tables, counterpart(db.tables, other.tables, i))),
        same_cycle(
            other.tables,
            counterpart(db.tables, other.tables, i),
            leader_of(other.tables, counterpart(db.tables, other.tables, i)),
        ),
        cycle_finding(other, leader_of(other.tables, counterpart(db.tables, other.tables, i)))
            == cycle_finding(db, i),
{
    let t = db.tables;
    let o = other.tables;
    law_reachability_ignores_arrival_order(db, other);
    lemma_counterpart(t, o, i);
    let ci = counterpart(t, o, i);
    assert(reaches(o, ci, ci) == reaches(t, i, i));
    lemma_leader_of(o, ci);
    let l = leader_of(o, ci);
    lemma_names_carried(db, other, i, l);
}

proof fn lemma_leader_image_one_to_one(db: DatabaseSpec, other: DatabaseSpec, i1: int, i2: int)
    requires
        rearranged(db, other),
        other.metadata.engine == db.metadata.engine,
        0 <= i1 < db.tables.len(),
        0 <= i2 < db.tables.len(),
        cycle_leader(db.tables, i1),
        cycle_leader(db.tables, i2),
        leader_of(other.tables, counterpart(db.tables, other.tables, i1)) == leader_of(
            other.tables,
            counterpart(db.tables, other.tables, i2),
        ),
    ensures
        i1 == i2,
{
    let t = db.tables;
    let o = other.tables;
    lemma_leader_image(db, other, i1);
    lemma_leader_image(db, other, i2);
    let c1 = counterpart(t, o, i1);
    let c2 = counterpart(t, o, i2);
    let l = leader_of(o, c1);
    assert(same_cycle(o, l, c2));
    lemma_same_cycle_through(o, c1, l, c2);
    lemma_same_cycle_carried(db, other, i1, i2);
    lemma_leaders_apart(t, i1, i2);
}

proof fn lemma_leader_image_onto(db: DatabaseSpec, other: DatabaseSpec, l: int)
    requires
        rearranged(db, other),
        other.metadata.engine == db.metadata.engine,
        0 <= l < other.tables.len(),
        cycle_leader(other.tables, l),
    ensures
        exists|i: int|
            0 <= i < db.tables.len() && cycle_leader(db.tables, i) && #[trigger] leader_of(
                other.tables,
                counterpart(db.tables, other.tables, i),
            ) == l,
{
    let t = db.tables;
    let o = other.tables;
    law_reachability_ignores_arrival_order(db, other);
    lemma_counterpart(o, t, l);
    let x = counterpart(o, t, l);
    assert(reaches(o, counterpart(t, o, x), counterpart(t, o, x)) == reaches(t, x, x));
    lemma_leader_of(t, x);
    let i = leader_of(t, x);
    lemma_same_cycle_carried(db, other, x, i);
    lemma_leader_image(db, other, i);
    let ci = counterpart(t, o, i);
    let l2 = leader_of(o, ci);
    lemma_counterpart(t, o, i);
    lemma_same_cycle_through(o, l, ci, l2);
    lemma_leaders_apart(o, l, l2);
    assert(leader_of(o, counterpart(t, o, i)) == l);
}

proof fn lemma_cycle_reports_carried(db: DatabaseSpec, other: DatabaseSpec)
    requires
        rearranged(db, other),
        other.metadata.engine == db.metadata.engine,
    ensures
        circular_references_of(other).to_multiset() == circular_references_of(db).to_multiset(),
{
    let t = db.tables;
    let o = other.tables;
    law_reachability_ignores_arrival_order(db, other);
    let n = t.len() as int;
    lemma_cycle_findings_by_leaders(db, n);
    lemma_cycle_findings_by_leaders(other, n);
    let lt = leaders_below(t, n);
    let lo = leaders_below(o, n);
    let psi = |i: int| leader_of(o, counterpart(t, o, i));
    let m = lt.map_values(psi);
    assert forall|k: int| 0 <= k < lt.len() implies cycle_finding_of(other)(psi(#[trigger] lt[k]))
        == cycle_finding_of(db)(lt[k]) by {
        assert(lt.contains(lt[k]));
        lemma_leader_image(db, other, lt[k]);
    }
    lemma_concat_map_through(lt, psi, cycle_finding_of(db), cycle_finding_of(other));
    assert forall|p: int, q: int| 0 <= p < m.len() && 0 <= q < m.len() && p != q implies m[p] != m[q] by {
        assert(lt.contains(lt[p]) && lt.contains(lt[q]));
        if m[p] == m[q] {
            lemma_leader_image_one_to_one(db, other, lt[p], lt[q]);
        }
    }
    assert forall|x: int| m.contains(x) <==> lo.contains(x) by {
        if m.contains(x) {
            let p = choose|p: int| 0 <= p < m.len() && m[p] == x;
            assert(lt.contains(lt[p]));
            lemma_leader_image(db, other, lt[p]);
        }
        if lo.contains(x) {
            lemma_leader_image_onto(db, other, x);
            let i = choose|i: int|
                0 <= i < t.len() && cycle_leader(t, i) && #[trigger] leader_of(o, counterpart(t, o, i)) == x;
            assert(lt.contains(i));
            let q = choose|q: int| 0 <= q < lt.len() && lt[q] == i;
            assert(m[q] == x);
        }
    }
    lemma_rearranged_positions(m, lo);
    crate::model::lemma_concat_map_rearranged(m, lo, cycle_finding_of(other));
}

/// The severity each rule reports with.
pub open spec fn rule_severity(r: Rule) -> Severity {
    match r {
        Rule::MissingPrimaryKey => Severity::Warning,
        Rule::BrokenForeignKey => Severity::Error,
        Rule::DuplicateIndex => Severity::Warning,
        Rule::CircularReference => Severity::Error,
        Rule::InvalidMetadata => Severity::Error,
    }
}

/// Every finding carries the severity of its rule.
pub proof fn law_each_rule_has_one_severity(db: DatabaseSpec, f: FindingSpec)
    requires
        all_findings(db).contains(f),
    ensures
        f.severity == rule_severity(f.rule),
{
    broadcast use vstd::seq_lib::group_to_multiset_ensures;

    let t = db.tables;
    lemma_sorted_by(all_findings(db), view_keyed::<Finding>());
    assert(all_findings(db).to_multiset().count(f) > 0);
    assert(report_findings(db).contains(f));
    law_report_findings_come_from_their_rule(db, f);
    match f.rule {
        Rule::MissingPrimaryKey => {
            crate::model::lemma_concat_map_contains(t, missing_primary_key_of_fn(), f);
            let i = choose|i: int| 0 <= i < t.len() && #[trigger] missing_primary_key_of_fn()(t[i]).contains(f);
            assert(missing_primary_key_of(t[i]).contains(f));
        },
        Rule::BrokenForeignKey => {
            law_broken_foreign_key_findings_come_from_foreign_keys(t, f);
            let (i, j) = choose|i: int, j: int|
                0 <= i < t.len() && 0 <= j < t[i].foreign_keys.len()
                    && #[trigger] foreign_key_findings(t, t[i], t[i].foreign_keys[j]).contains(f);
            law_a_foreign_key_is_broken_exactly_when(t, t[i], t[i].foreign_keys[j]);
            let fs = foreign_key_findings(t, t[i], t[i].foreign_keys[j]);
            let k = choose|k: int| 0 <= k < fs.len() && fs[k] == f;
            assert(fs[k].severity == Severity::Error);
        },
        Rule::DuplicateIndex => {
            law_duplicate_index_findings_come_from_tables(t, f);
            let i = choose|i: int| 0 <= i < t.len() && #[trigger] table_duplicate_indexes(t[i]).contains(f);
            let x = t[i];
            if x.indexes.len() == 0 {
                assert(table_duplicate_indexes(x) =~= Seq::<FindingSpec>::empty());
            } else {
                assert(x.indexes.contains(x.indexes[0]));
                law_duplicate_indexes_are_reported_exactly_when(x, x.indexes[0]);
                let y = choose|y: IndexSpec|
                    x.indexes.contains(y) && signature_names(x.indexes, y).len() >= 2 && f
                        == #[trigger] duplicate_finding(x, y);
            }
        },
        Rule::CircularReference => {
            let n = t.len() as int;
            lemma_cycle_findings_by_leaders(db, n);
            let l = leaders_below(t, n);
            crate::model::lemma_concat_map_contains(l, cycle_finding_of(db), f);
            let k = choose|k: int| 0 <= k < l.len() && #[trigger] cycle_finding_of(db)(l[k]).contains(f);
            assert(cycle_finding(db, l[k]).contains(f));
        },
        Rule::InvalidMetadata => {
            law_invalid_metadata_findings_are_errors(db, f);
            let s2 = invalid_metadata_of(db);
            let k = choose|k: int| 0 <= k < s2.len() && s2[k] == f;
            assert(s2[k].severity == Severity::Error);
        },
    }
}

/// The order in which tables and views arrive does not change the report:
/// with tables and views rearranged (no two tables sharing a namespace and
/// name) and the same metadata, every rule makes the same findings, each as
/// often, and the sorted report is the same list.
pub proof fn law_validation_ignores_arrival_order(db: DatabaseSpec, other: DatabaseSpec)
    requires
        other.tables.to_multiset() == db.tables.to_multiset(),
        other.views.to_multiset() == db.views.to_multiset(),
        other.metadata == db.metadata,
        names_distinct(db.tables),
    ensures
        circular_references_of(other).to_multiset() == circular_references_of(db).to_multiset(),
        all_findings(other).to_multiset() == all_findings(db).to_multiset(),
        report_findings(other) == report_findings(db),
{
    broadcast use vstd::seq_lib::group_to_multiset_ensures;

    lemma_names_distinct_rearranged(db.tables, other.tables);
    lemma_findings_but_cycles_carried(db, other);
    lemma_cycle_reports_carried(db, other);
    let a1 = missing_primary_keys_of(db.tables);
    let b1 = broken_foreign_keys_of(db.tables);
    let c1 = duplicate_indexes_of(db.tables);
    let d1 = circular_references_of(db);
    let e1 = invalid_metadata_of(db);
    let a2 = missing_primary_keys_of(other.tables);
    let b2 = broken_foreign_keys_of(other.tables);
    let c2 = duplicate_indexes_of(other.tables);
    let d2 = circular_references_of(other);
    let e2 = invalid_metadata_of(other);
    vstd::seq_lib::lemma_multiset_commutative(a1, b1);
    vstd::seq_lib::lemma_multiset_commutative(a1 + b1, c1);
    vstd::seq_lib::lemma_multiset_commutative(a1 + b1 + c1, d1);
    vstd::seq_lib::lemma_multiset_commutative(a1 + b1 + c1 + d1, e1);
    vstd::seq_lib::lemma_multiset_commutative(a2, b2);
    vstd::seq_lib::lemma_multiset_commutative(a2 + b2, c2);
    vstd::seq_lib::lemma_multiset_commutative(a2 + b2 + c2, d2);
    vstd::seq_lib::lemma_multiset_commutative(a2 + b2 + c2 + d2, e2);
    let all = all_findings(other);
    let key = view_keyed::<Finding>();
    assert forall|x: FindingSpec, y: FindingSpec|
        all.contains(x) && all.contains(y) && #[trigger] key(x) == #[trigger] key(y) implies x == y by {
        law_each_rule_has_one_severity(other, x);
        law_each_rule_has_one_severity(other, y);
        assert(key(x)[0] == key(y)[0]);
        assert(key(x)[1] == key(y)[1]);
        assert(key(x)[2] == key(y)[2]);
        assert(key(x)[3] == key(y)[3]);
        assert(key(x)[4] == key(y)[4]);
        assert(x.rule == y.rule);
    }
    crate::order::lemma_sorted_by_same_items(all, all_findings(db), key);
}

/// Whether the report of `db` holds a broken-foreign-key error on table
/// `t` that names `columns`.
pub open spec fn reports_broken_key(db: DatabaseSpec, t: TableSpec, columns: Seq<Seq<char>>) -> bool {
    exists|f: FindingSpec|
        #[trigger] report_findings(db).contains(f) && f.rule == Rule::BrokenForeignKey && f.severity
            == Severity::Error && f.schema == t.schema && f.table == t.name && f.columns == columns
}

/// Whether `fk` can be followed among `tables`: a table with the referenced
/// namespace and name exists, the two column lists are equally long, and
/// that table (the last of that name) has every referenced column.
pub open spec fn foreign_key_sound(tables: Seq<TableSpec>, fk: ForeignKeySpec) -> bool {
    let ti = last_table_index(tables, fk.referenced_schema, fk.referenced_table);
    &&& ti >= 0
    &&& fk.columns.len() == fk.referenced_columns.len()
    &&& forall|c: Seq<char>| #[trigger] fk.referenced_columns.contains(c) ==> has_column_named(tables[ti], c)
}

/// The report of a schema (no two tables sharing a namespace and name)
/// holds a broken-foreign-key error on a table naming the columns of one
/// of its foreign keys (no other key of that table having those columns)
/// exactly when that foreign key cannot be followed.
pub proof fn law_report_names_a_broken_foreign_key_exactly_when(db: DatabaseSpec, i: int, j: int)
    requires
        names_distinct(db.tables),
        0 <= i < db.tables.len(),
        0 <= j < db.tables[i].foreign_keys.len(),
        forall|k: int|
            0 <= k < db.tables[i].foreign_keys.len() && k != j ==> (#[trigger] db.tables[i].foreign_keys[k]).columns
                != db.tables[i].foreign_keys[j].columns,
    ensures
        reports_broken_key(db, db.tables[i], db.tables[i].foreign_keys[j].columns) <==> !foreign_key_sound(
            db.tables,
            db.tables[i].foreign_keys[j],
        ),
{
    let tables = db.tables;
    let t = tables[i];
    let fk = t.foreign_keys[j];
    let fs = foreign_key_findings(tables, t, fk);
    law_a_foreign_key_is_broken_exactly_when(tables, t, fk);
    lemma_last_table_index(tables, fk.referenced_schema, fk.referenced_table);
    lemma_foreign_key_findings_shape(tables, t, fk);
    assert((fs.len() == 0) == foreign_key_sound(tables, fk));
    if !foreign_key_sound(tables, fk) {
        let f = fs[0];
        assert(fs.contains(f));
        assert(foreign_key_findings(tables, tables[i], tables[i].foreign_keys[j]).contains(f));
        law_broken_foreign_key_findings_come_from_foreign_keys(tables, f);
        law_report_findings_come_from_their_rule(db, f);
        assert(report_findings(db).contains(f));
    }
    if reports_broken_key(db, t, fk.columns) {
        let f = choose|f: FindingSpec|
            #[trigger] report_findings(db).contains(f) && f.rule == Rule::BrokenForeignKey && f.severity
                == Severity::Error && f.schema == t.schema && f.table == t.name && f.columns == fk.columns;
        law_report_findings_come_from_their_rule(db, f);
        law_broken_foreign_key_findings_come_from_foreign_keys(tables, f);
        let (i2, j2) = choose|i2: int, j2: int|
            0 <= i2 < tables.len() && 0 <= j2 < tables[i2].foreign_keys.len()
                && #[trigger] foreign_key_findings(tables, tables[i2], tables[i2].foreign_keys[j2]).contains(f);
        let fs2 = foreign_key_findings(tables, tables[i2], tables[i2].foreign_keys[j2]);
        lemma_foreign_key_findings_shape(tables, tables[i2], tables[i2].foreign_keys[j2]);
        let k = choose|k: int| 0 <= k < fs2.len() && fs2[k] == f;
        assert(fs2[k].schema == tables[i2].schema && fs2[k].table == tables[i2].name);
        if i2 < i {
            assert(!(tables[i2].schema == tables[i].schema && tables[i2].name == tables[i].name));
        } else if i < i2 {
            assert(!(tables[i].schema == tables[i2].schema && tables[i].name == tables[i2].name));
        }
        assert(i2 == i);
        assert(fs2[k].columns == tables[i].foreign_keys[j2].columns);
        if j2 != j {
            assert(tables[i].foreign_keys[j2].columns != fk.columns);
        }
        assert(fs.contains(f));
    }
}

/// The report of a schema (no two tables sharing a namespace and name)
/// holds the duplicate-index warning for the indexes of a table sharing the
/// signature of its index `x` (uniqueness, and columns in order), naming
/// them all in order, exactly when at least two indexes of that table share
/// that signature.
pub proof fn law_report_names_duplicate_indexes_exactly_when(db: DatabaseSpec, i: int, x: IndexSpec)
    requires
        names_distinct(db.tables),
        0 <= i < db.tables.len(),
        db.tables[i].indexes.contains(x),
    ensures
        report_findings(db).contains(duplicate_finding(db.tables[i], x)) <==> exists|p: int, q: int|
            0 <= p < q < db.tables[i].indexes.len() && same_signature(#[trigger] db.tables[i].indexes[p], x)
                && same_signature(#[trigger] db.tables[i].indexes[q], x),
{
    let tables = db.tables;
    let t = tables[i];
    let f = duplicate_finding(t, x);
    law_duplicate_indexes_are_reported_exactly_when(t, x);
    law_report_findings_come_from_their_rule(db, f);
    law_duplicate_index_findings_come_from_tables(tables, f);
    if table_duplicate_indexes(t).contains(f) {
        assert(table_duplicate_indexes(tables[i]).contains(f));
    }
    if report_findings(db).contains(f) {
        let i2 = choose|i2: int| 0 <= i2 < tables.len() && #[trigger] table_duplicate_indexes(tables[i2]).contains(f);
        let t2 = tables[i2];
        if t2.indexes.len() == 0 {
            assert(table_duplicate_indexes(t2) =~= Seq::<FindingSpec>::empty());
        } else {
            assert(t2.indexes.contains(t2.indexes[0]));
            law_duplicate_indexes_are_reported_exactly_when(t2, t2.indexes[0]);
            let y = choose|y: IndexSpec|
                t2.indexes.contains(y) && signature_names(t2.indexes, y).len() >= 2 && f
                    == #[trigger] duplicate_finding(t2, y);
            assert(t2.schema == t.schema && t2.name == t.name);
            if i2 < i {
                assert(!(tables[i2].schema == tables[i].schema && tables[i2].name == tables[i].name));
            } else if i < i2 {
                assert(!(tables[i].schema == tables[i2].schema && tables[i].name == tables[i2].name));
            }
            assert(table_duplicate_indexes(t).contains(f));
        }
    }
}

/// The circular-reference rule makes one finding per cycle of references:
/// its findings are those of the tables that report a cycle, in table
/// order; each of those reports exactly one finding; no two of them lie on
/// a common cycle; and every table on a cycle shares it with one of them.
pub proof fn law_one_circular_reference_finding_per_cycle(db: DatabaseSpec)
    ensures
        circular_references_of(db) == concat_map(
            leaders_below(db.tables, db.tables.len() as int),
            cycle_finding_of(db),
        ),
        forall|x: int|
            #[trigger] leaders_below(db.tables, db.tables.len() as int).contains(x) <==> (0 <= x
                < db.tables.len() && cycle_leader(db.tables, x)),
        leaders_below(db.tables, db.tables.len() as int).no_duplicates(),
        forall|x: int| #[trigger] cycle_leader(db.tables, x) ==> cycle_finding(db, x).len() == 1,
        forall|a: int, b: int|
            0 <= a && 0 <= b && #[trigger] cycle_leader(db.tables, a) && #[trigger] cycle_leader(
                db.tables,
                b,
            ) && same_cycle(db.tables, a, b) ==> a == b,
        forall|i: int|
            0 <= i < db.tables.len() && #[trigger] reaches(db.tables, i, i) ==> exists|l: int|
                0 <= l <= i && #[trigger] cycle_leader(db.tables, l) && same_cycle(db.tables, i, l),
{
    lemma_cycle_findings_by_leaders(db, db.tables.len() as int);
    assert forall|a: int, b: int|
        0 <= a && 0 <= b && #[trigger] cycle_leader(db.tables, a) && #[trigger] cycle_leader(db.tables, b)
            && same_cycle(db.tables, a, b) implies a == b by {
        lemma_leaders_apart(db.tables, a, b);
    }
    assert forall|i: int| 0 <= i < db.tables.len() && #[trigger] reaches(db.tables, i, i) implies exists|l: int|
        0 <= l <= i && #[trigger] cycle_leader(db.tables, l) && same_cycle(db.tables, i, l) by {
        lemma_leader_of(db.tables, i);
    }
}

/// What the broken-foreign-key rule says of foreign key `fk` of table `t`
/// when the referenced table (the last of that name) exists: with column
/// lists of unequal length, one finding that states both counts; with equal
/// lengths, one finding for each referenced column that table lacks, naming
/// the column and the table, and nothing else.
pub proof fn law_broken_foreign_key_messages(tables: Seq<TableSpec>, t: TableSpec, fk: ForeignKeySpec, f: FindingSpec)
    requires
        last_table_index(tables, fk.referenced_schema, fk.referenced_table) >= 0,
    ensures
        fk.columns.len() != fk.referenced_columns.len() ==> foreign_key_findings(tables, t, fk) == seq![
            broken_fk_finding(
                t,
                fk,
                "foreign key column count ("@ + decimal(fk.columns.len())
                    + ") does not match referenced column count ("@ + decimal(
                    fk.referenced_columns.len(),
                ) + ")"@,
            ),
        ],
        fk.columns.len() == fk.referenced_columns.len() ==> (foreign_key_findings(tables, t, fk).contains(f)
            <==> exists|c: Seq<char>|
            #[trigger] fk.referenced_columns.contains(c) && !has_column_named(
                tables[last_table_index(tables, fk.referenced_schema, fk.referenced_table)],
                c,
            ) && f == broken_fk_finding(
                t,
                fk,
                "foreign key references column `"@ + c + "` which does not exist in "@
                    + tables[last_table_index(tables, fk.referenced_schema, fk.referenced_table)].schema
                    + "."@ + tables[last_table_index(
                    tables,
                    fk.referenced_schema,
                    fk.referenced_table,
                )].name,
            )),
{
    let ti = last_table_index(tables, fk.referenced_schema, fk.referenced_table);
    if fk.columns.len() == fk.referenced_columns.len() {
        let g = missing_column_of(t, fk, tables[ti]);
        crate::model::lemma_concat_map_contains(fk.referenced_columns, g, f);
        if foreign_key_findings(tables, t, fk).contains(f) {
            let k = choose|k: int| 0 <= k < fk.referenced_columns.len() && #[trigger] g(fk.referenced_columns[k]).contains(f);
            let c = fk.referenced_columns[k];
            assert(fk.referenced_columns.contains(c));
            assert(!has_column_named(tables[ti], c));
        }
        if exists|c: Seq<char>|
            #[trigger] fk.referenced_columns.contains(c) && !has_column_named(tables[ti], c) && f
                == broken_fk_finding(
                t,
                fk,
                "foreign key references column `"@ + c + "` which does not exist in "@ + tables[ti].schema
                    + "."@ + tables[ti].name,
            ) {
            let c = choose|c: Seq<char>|
                #[trigger] fk.referenced_columns.contains(c) && !has_column_named(tables[ti], c) && f
                    == broken_fk_finding(
                    t,
                    fk,
                    "foreign key references column `"@ + c + "` which does not exist in "@
                        + tables[ti].schema + "."@ + tables[ti].name,
                );
            let k = choose|k: int| 0 <= k < fk.referenced_columns.len() && fk.referenced_columns[k] == c;
            assert(g(fk.referenced_columns[k])[0] == f);
            assert(g(fk.referenced_columns[k]).contains(f));
        }
    }
}

/// The missing-primary-key rule speaks of a table exactly when none of its
/// columns is marked as part of the primary key; other column flags, such
/// as uniqueness, do not count. In the report of a schema (no two tables
/// sharing a namespace and name), the warning for a table is there exactly
/// then.
pub proof fn law_missing_primary_key_exactly_when_no_key_column(db: DatabaseSpec, i: int)
    requires
        0 <= i < db.tables.len(),
    ensures
        (missing_primary_key_of(db.tables[i]).len() > 0) <==> (forall|j: int|
            0 <= j < db.tables[i].columns.len() ==> !(#[trigger] db.tables[i].columns[j]).primary_key),
        missing_primary_key_of(db.tables[i]).len() > 0 ==> missing_primary_key_of(db.tables[i]) == seq![
            finding(
                Rule::MissingPrimaryKey,
                Severity::Warning,
                db.tables[i].schema,
                db.tables[i].name,
                Seq::empty(),
                "table has no primary key"@,
            ),
        ],
        names_distinct(db.tables) ==> (report_findings(db).contains(
            finding(
                Rule::MissingPrimaryKey,
                Severity::Warning,
                db.tables[i].schema,
                db.tables[i].name,
                Seq::empty(),
                "table has no primary key"@,
            ),
        ) <==> (forall|j: int|
            0 <= j < db.tables[i].columns.len() ==> !(#[trigger] db.tables[i].columns[j]).primary_key)),
{
    let tables = db.tables;
    let t = tables[i];
    let f = finding(
        Rule::MissingPrimaryKey,
        Severity::Warning,
        t.schema,
        t.name,
        Seq::empty(),
        "table has no primary key"@,
    );
    law_report_findings_come_from_their_rule(db, f);
    crate::model::lemma_concat_map_contains(tables, missing_primary_key_of_fn(), f);
    if missing_primary_key_of(t).len() > 0 {
        assert(missing_primary_key_of(t)[0] == f);
        assert(missing_primary_key_of_fn()(tables[i]).contains(f));
    }
    if names_distinct(tables) && report_findings(db).contains(f) {
        let i2 = choose|i2: int| 0 <= i2 < tables.len() && #[trigger] missing_primary_key_of_fn()(tables[i2]).contains(f);
        let t2 = tables[i2];
        assert(missing_primary_key_of(t2).len() > 0);
        assert(missing_primary_key_of(t2)[0] == f);
        if i2 < i {
            assert(!(tables[i2].schema == tables[i].schema && tables[i2].name == tables[i].name));
        } else if i < i2 {
            assert(!(tables[i].schema == tables[i2].schema && tables[i].name == tables[i2].name));
        }
    }
}

proof fn lemma_findings_add_contains(a: Seq<FindingSpec>, b: Seq<FindingSpec>, y: FindingSpec)
    ensures
        (a + b).contains(y) <==> a.contains(y) || b.contains(y),
{
    if (a + b).contains(y) {
        let k = choose|k: int| 0 <= k < (a + b).len() && (a + b)[k] == y;
        if k < a.len() {
            assert(a[k] == y);
        } else {
            assert(b[k - a.len()] == y);
        }
    }
    if a.contains(y) {
        let k = choose|k: int| 0 <= k < a.len() && a[k] == y;
        assert((a + b)[k] == y);
    }
    if b.contains(y) {
        let k = choose|k: int| 0 <= k < b.len() && b[k] == y;
        assert((a + b)[a.len() + k] == y);
    }
}

proof fn lemma_when_contains(c: bool, g: FindingSpec, f: FindingSpec)
    ensures
        (when(c, g)).contains(f) <==> c && f == g,
{
    if c && f == g {
        assert(when(c, g)[0] == f);
    }
}

/// What the invalid-metadata rule says of one column `c` of the table (or
/// view, when `in_view`) `schema`.`table`: that its name is empty exactly
/// when the name is blank, and that its ordinal position is zero exactly
/// when it is, each naming the column; nothing else.
pub proof fn law_column_problems_name_each_problem(
    schema: Seq<char>,
    table: Seq<char>,
    in_view: bool,
    c: ColumnSpec,
    f: FindingSpec,
)
    ensures
        column_problems(schema, table, in_view, c).contains(f) <==> ((is_blank(c.name) && f == finding(
            Rule::InvalidMetadata,
            Severity::Error,
            schema,
            table,
            seq![c.name],
            if in_view {
                "view column name is empty"@
            } else {
                "column name is empty"@
            },
        )) || (c.ordinal_position == 0 && f == finding(
            Rule::InvalidMetadata,
            Severity::Error,
            schema,
            table,
            seq![c.name],
            if in_view {
                "view column ordinal position is zero"@
            } else {
                "column ordinal position is zero"@
            },
        ))),
{
    let a = when(
        is_blank(c.name),
        invalid(schema, table, seq![c.name], if in_view {
            "view column name is empty"@
        } else {
            "column name is empty"@
        }),
    );
    let b = when(
        c.ordinal_position == 0,
        invalid(schema, table, seq![c.name], if in_view {
            "view column ordinal position is zero"@
        } else {
            "column ordinal position is zero"@
        }),
    );
    lemma_findings_add_contains(a, b, f);
    lemma_when_contains(
        is_blank(c.name),
        invalid(schema, table, seq![c.name], if in_view {
            "view column name is empty"@
        } else {
            "column name is empty"@
        }),
        f,
    );
    lemma_when_contains(
        c.ordinal_position == 0,
        invalid(schema, table, seq![c.name], if in_view {
            "view column ordinal position is zero"@
        } else {
            "column ordinal position is zero"@
        }),
        f,
    );
}

/// What the invalid-metadata rule says of table `t`: that its schema is
/// empty exactly when it is blank, that its name is empty exactly when it
/// is blank, and what it says of each of its columns; nothing else.
pub proof fn law_table_problems_name_each_problem(t: TableSpec, f: FindingSpec)
    ensures
        table_problems(t).contains(f) <==> ((is_blank(t.schema) && f == finding(
            Rule::InvalidMetadata,
            Severity::Error,
            t.schema,
            t.name,
            Seq::empty(),
            "table schema is empty"@,
        )) || (is_blank(t.name) && f == finding(
            Rule::InvalidMetadata,
            Severity::Error,
            t.schema,
            t.name,
            Seq::empty(),
            "table name is empty"@,
        )) || exists|i: int|
            0 <= i < t.columns.len() && #[trigger] column_problems(t.schema, t.name, false, t.columns[i]).contains(
                f,
            )),
{
    let a = when(is_blank(t.schema), invalid(t.schema, t.name, Seq::empty(), "table schema is empty"@));
    let b = when(is_blank(t.name), invalid(t.schema, t.name, Seq::empty(), "table name is empty"@));
    let g = column_problems_of(t.schema, t.name, false);
    let c = concat_map(t.columns, g);
    lemma_findings_add_contains(a + b, c, f);
    lemma_findings_add_contains(a, b, f);
    lemma_when_contains(is_blank(t.schema), invalid(t.schema, t.name, Seq::empty(), "table schema is empty"@), f);
    lemma_when_contains(is_blank(t.name), invalid(t.schema, t.name, Seq::empty(), "table name is empty"@), f);
    crate::model::lemma_concat_map_contains(t.columns, g, f);
    if exists|i: int| 0 <= i < t.columns.len() && #[trigger] column_problems(t.schema, t.name, false, t.columns[i]).contains(f) {
        let i = choose|i: int| 0 <= i < t.columns.len() && #[trigger] column_problems(t.schema, t.name, false, t.columns[i]).contains(f);
        assert(g(t.columns[i]).contains(f));
    }
}

/// What the invalid-metadata rule says of view `v`: that its schema is
/// empty exactly when it is blank, that its name is empty exactly when it
/// is blank, and what it says of each of its columns; nothing else.
pub proof fn law_view_problems_name_each_problem(v: SchemaViewSpec, f: FindingSpec)
    ensures
        view_problems(v).contains(f) <==> ((is_blank(v.schema) && f == finding(
            Rule::InvalidMetadata,
            Severity::Error,
            v.schema,
            v.name,
            Seq::empty(),
            "view schema is empty"@,
        )) || (is_blank(v.name) && f == finding(
            Rule::InvalidMetadata,
            Severity::Error,
            v.schema,
            v.name,
            Seq::empty(),
            "view name is empty"@,
        )) || exists|i: int|
            0 <= i < v.columns.len() && #[trigger] column_problems(v.schema, v.name, true, v.columns[i]).contains(
                f,
            )),
{
    let a = when(is_blank(v.schema), invalid(v.schema, v.name, Seq::empty(), "view schema is empty"@));
    let b = when(is_blank(v.name), invalid(v.schema, v.name, Seq::empty(), "view name is empty"@));
    let g = column_problems_of(v.schema, v.name, true);
    let c = concat_map(v.columns, g);
    lemma_findings_add_contains(a + b, c, f);
    lemma_findings_add_contains(a, b, f);
    lemma_when_contains(is_blank(v.schema), invalid(v.schema, v.name, Seq::empty(), "view schema is empty"@), f);
    lemma_when_contains(is_blank(v.name), invalid(v.schema, v.name, Seq::empty(), "view name is empty"@), f);
    crate::model::lemma_concat_map_contains(v.columns, g, f);
    if exists|i: int| 0 <= i < v.columns.len() && #[trigger] column_problems(v.schema, v.name, true, v.columns[i]).contains(f) {
        let i = choose|i: int| 0 <= i < v.columns.len() && #[trigger] column_problems(v.schema, v.name, true, v.columns[i]).contains(f);
        assert(g(v.columns[i]).contains(f));
    }
}

/// What the invalid-metadata rule says of a schema: that the database name
/// is empty exactly when it is blank, that the engine version is empty
/// exactly when it is blank, and what it says of each table and each view;
/// nothing else.
pub proof fn law_invalid_metadata_names_each_problem(db: DatabaseSpec, f: FindingSpec)
    ensures
        invalid_metadata_of(db).contains(f) <==> ((is_blank(db.metadata.database) && f == finding(
            Rule::InvalidMetadata,
            Severity::Error,
            Seq::empty(),
            Seq::empty(),
            Seq::empty(),
            "database name is empty"@,
        )) || (is_blank(db.metadata.engine_version) && f == finding(
            Rule::InvalidMetadata,
            Severity::Error,
            Seq::empty(),
            Seq::empty(),
            Seq::empty(),
            "engine version is empty"@,
        )) || (exists|i: int| 0 <= i < db.tables.len() && #[trigger] table_problems(db.tables[i]).contains(f))
            || (exists|j: int| 0 <= j < db.views.len() && #[trigger] view_problems(db.views[j]).contains(f))),
{
    let a = when(
        is_blank(db.metadata.database),
        invalid(Seq::empty(), Seq::empty(), Seq::empty(), "database name is empty"@),
    );
    let b = when(
        is_blank(db.metadata.engine_version),
        invalid(Seq::empty(), Seq::empty(), Seq::empty(), "engine version is empty"@),
    );
    let c = concat_map(db.tables, table_problems_of());
    let d = concat_map(db.views, view_problems_of());
    lemma_findings_add_contains(a + b + c, d, f);
    lemma_findings_add_contains(a + b, c, f);
    lemma_findings_add_contains(a, b, f);
    lemma_when_contains(
        is_blank(db.metadata.database),
        invalid(Seq::empty(), Seq::empty(), Seq::empty(), "database name is empty"@),
        f,
    );
    lemma_when_contains(
        is_blank(db.metadata.engine_version),
        invalid(Seq::empty(), Seq::empty(), Seq::empty(), "engine version is empty"@),
        f,
    );
    crate::model::lemma_concat_map_contains(db.tables, table_problems_of(), f);
    crate::model::lemma_concat_map_contains(db.views, view_problems_of(), f);
    if exists|i: int| 0 <= i < db.tables.len() && #[trigger] table_problems(db.tables[i]).contains(f) {
        let i = choose|i: int| 0 <= i < db.tables.len() && #[trigger] table_problems(db.tables[i]).contains(f);
        assert(table_problems_of()(db.tables[i]).contains(f));
    }
    if exists|j: int| 0 <= j < db.views.len() && #[trigger] view_problems(db.views[j]).contains(f) {
        let j = choose|j: int| 0 <= j < db.views.len() && #[trigger] view_problems(db.views[j]).contains(f);
        assert(view_problems_of()(db.views[j]).contains(f));
    }
}

proof fn lemma_signature_names_members(ixs: Seq<IndexSpec>, x: IndexSpec)
    ensures
        forall|n: Seq<char>|
            #[trigger] signature_names(ixs, x).contains(n) <==> exists|i: int|
                0 <= i < ixs.len() && (#[trigger] ixs[i]).unique == x.unique && ixs[i].columns == x.columns
                    && ixs[i].name == n,
    decreases ixs.len(),
{
    if ixs.len() > 0 {
        let r = ixs.drop_last();
        lemma_signature_names_members(r, x);
        let p = signature_names(r, x);
        assert forall|n: Seq<char>| #[trigger] signature_names(ixs, x).contains(n) <==> exists|i: int|
            0 <= i < ixs.len() && (#[trigger] ixs[i]).unique == x.unique && ixs[i].columns == x.columns
                && ixs[i].name == n by {
            let last = ixs.last();
            assert(ixs[ixs.len() - 1] == last);
            if signature_names(ixs, x).contains(n) {
                if same_signature(last, x) && n == last.name {
                } else {
                    if same_signature(last, x) {
                        let k = choose|k: int| 0 <= k < p.push(last.name).len() && p.push(last.name)[k] == n;
                        assert(p[k] == n);
                    }
                    assert(p.contains(n));
                    let i = choose|i: int|
                        0 <= i < r.len() && (#[trigger] r[i]).unique == x.unique && r[i].columns == x.columns
                            && r[i].name == n;
                    assert(ixs[i] == r[i]);
                }
            }
            if exists|i: int|
                0 <= i < ixs.len() && (#[trigger] ixs[i]).unique == x.unique && ixs[i].columns == x.columns
                    && ixs[i].name == n {
                let i = choose|i: int|
                    0 <= i < ixs.len() && (#[trigger] ixs[i]).unique == x.unique && ixs[i].columns == x.columns
                        && ixs[i].name == n;
                if i == ixs.len() - 1 {
                    assert(p.push(last.name)[p.len() as int] == n);
                } else {
                    assert(r[i] == ixs[i]);
                    assert(p.contains(n));
                    let k = choose|k: int| 0 <= k < p.len() && p[k] == n;
                    if same_signature(last, x) {
                        assert(p.push(last.name)[k] == n);
                    }
                }
            }
        }
    }
}

/// The duplicate-index warning for the indexes sharing the signature of
/// `x`: a warning on its table naming `x`'s columns, whose message says
/// `duplicate unique index` (or `duplicate index`, for indexes that are
/// not unique) `on columns (<columns>): ` and then the names, in order,
/// of the table's indexes with the same uniqueness and the same columns in
/// the same order, and of no others.
pub proof fn law_duplicate_warnings_read_as_written(t: TableSpec, x: IndexSpec, n: Seq<char>)
    ensures
        forall|a: IndexSpec| #[trigger] same_signature(a, x) == (a.unique == x.unique && a.columns == x.columns),
        duplicate_finding(t, x) == finding(
            Rule::DuplicateIndex,
            Severity::Warning,
            t.schema,
            t.name,
            x.columns,
            "duplicate "@ + (if x.unique {
                "unique "@
            } else {
                ""@
            }) + "index on columns ("@ + join(x.columns, ", "@) + "): "@ + join(
                sorted_by(signature_names(t.indexes, x), view_keyed::<String>()),
                ", "@,
            ),
        ),
        signature_names(t.indexes, x).contains(n) <==> exists|i: int|
            0 <= i < t.indexes.len() && (#[trigger] t.indexes[i]).unique == x.unique
                && t.indexes[i].columns == x.columns && t.indexes[i].name == n,
{
    lemma_signature_names_members(t.indexes, x);
}

} // verus!
