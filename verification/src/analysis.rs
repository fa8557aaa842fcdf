//! Deterministic analysis heuristics over the canonical schema model.
//!
//! Analysis never changes factual metadata. It attaches classifications
//! such as "junction table" or "lookup table" derived only from the shape
//! that introspection already recorded.
use vstd::prelude::*;

use crate::model::{
    AnalysisFinding, AnalysisFindingSpec, AnalysisKind, ColumnSpec, Database, DatabaseSpec,
    Table, TableAnalysis, TableAnalysisSpec, TableSpec,
};
use crate::order::{sorted_by, stable_sort, texts_eq, view_keyed};
use crate::text::{
    contains, decimal, decimal_string, ends_with, lower_text, occurs_at, owned, push_str, starts_with,
    str_contains, str_ends_with, str_eq, str_starts_with, to_lowercase,
};

verus! {

/// A finding of `kind` with full confidence and the given evidence.
pub open spec fn certain(kind: AnalysisKind, evidence: Seq<Seq<char>>) -> AnalysisFindingSpec {
    AnalysisFindingSpec { kind, confidence: 100, evidence }
}

fn certain_exec(kind: AnalysisKind, evidence: Vec<String>) -> (r: AnalysisFinding)
    ensures
        r@ == certain(kind, evidence.deep_view()),
{
    AnalysisFinding { kind, confidence: 100, evidence }
}

fn push_text(v: &mut Vec<String>, s: String)
    ensures
        final(v).deep_view() == old(v).deep_view().push(s@),
{
    let ghost before = *v;
    let ghost g = s;
    v.push(s);
    proof {
        crate::model::lemma_push_deep_view(before, *v, g);
    }
}

// ---------------------------------------------------------------------------
// Junction tables
// ---------------------------------------------------------------------------

/// The names of the primary key columns of `t`, in column order.
pub open spec fn primary_key_names(cols: Seq<ColumnSpec>) -> Seq<Seq<char>>
    decreases cols.len(),
{
    if cols.len() == 0 {
        Seq::empty()
    } else if cols.last().primary_key {
        primary_key_names(cols.drop_last()).push(cols.last().name)
    } else {
        primary_key_names(cols.drop_last())
    }
}

/// The columns of every foreign key of `t`, key after key.
pub open spec fn foreign_key_column_names(t: TableSpec) -> Seq<Seq<char>> {
    crate::model::concat_map(t.foreign_keys, fk_columns_of())
}

pub open spec fn fk_columns_of() -> spec_fn(crate::model::ForeignKeySpec) -> Seq<Seq<char>> {
    |fk: crate::model::ForeignKeySpec| fk.columns
}

/// A table is a junction when it has exactly two foreign keys to two
/// different tables and its primary key is made of exactly their columns.
pub open spec fn junction_finding(t: TableSpec) -> Option<AnalysisFindingSpec> {
    let pk = primary_key_names(t.columns);
    let fk = foreign_key_column_names(t);
    if t.foreign_keys.len() != 2 {
        None
    } else if t.foreign_keys[0].referenced_table == t.foreign_keys[1].referenced_table {
        None
    } else if pk.len() == 0 || pk.len() != fk.len() {
        None
    } else if sorted_by(pk, view_keyed::<String>()) != sorted_by(fk, view_keyed::<String>()) {
        None
    } else {
        Some(
            certain(
                AnalysisKind::JunctionTable,
                seq![
                    "two foreign keys reference different tables: "@ + t.foreign_keys[0].referenced_table
                        + " and "@ + t.foreign_keys[1].referenced_table,
                    "primary key consists of the foreign key columns"@,
                ],
            ),
        )
    }
}

pub(crate) fn primary_key_columns(t: &Table) -> (r: Vec<String>)
    ensures
        r.deep_view() == primary_key_names(t@.columns),
{
    let ghost cols = t@.columns;
    let mut out: Vec<String> = Vec::new();
    assert(out.deep_view() =~= Seq::<Seq<char>>::empty());
    let mut i: usize = 0;
    while i < t.columns.len()
        invariant
            cols == t@.columns,
            i <= t.columns.len(),
            out.deep_view() == primary_key_names(cols.take(i as int)),
        decreases t.columns.len() - i,
    {
        proof {
            assert(cols.take(i + 1).drop_last() =~= cols.take(i as int));
            assert(cols.take(i + 1).last() == t.columns[i as int]@);
        }
        if t.columns[i].primary_key {
            push_text(&mut out, t.columns[i].name.clone());
        }
        i = i + 1;
    }
    assert(cols.take(i as int) =~= cols);
    out
}

fn foreign_key_columns(t: &Table) -> (r: Vec<String>)
    ensures
        r.deep_view() == foreign_key_column_names(t@),
{
    let ghost fks = t@.foreign_keys;
    let ghost f = |fk: crate::model::ForeignKeySpec| fk.columns;
    let mut out: Vec<String> = Vec::new();
    assert(out.deep_view() =~= Seq::<Seq<char>>::empty());
    let mut k: usize = 0;
    while k < t.foreign_keys.len()
        invariant
            fks == t@.foreign_keys,
            f == |fk: crate::model::ForeignKeySpec| fk.columns,
            k <= t.foreign_keys.len(),
            out.deep_view() == crate::model::concat_map(fks.take(k as int), f),
        decreases t.foreign_keys.len() - k,
    {
        proof {
            crate::model::lemma_concat_map_step(fks, k as int, f);
        }
        let fk = &t.foreign_keys[k];
        let ghost head = out.deep_view();
        let mut m: usize = 0;
        while m < fk.columns.len()
            invariant
                fk@ == fks[k as int],
                m <= fk.columns.len(),
                out.deep_view() == head + fk@.columns.take(m as int),
            decreases fk.columns.len() - m,
        {
            push_text(&mut out, fk.columns[m].clone());
            m = m + 1;
            assert(out.deep_view() =~= head + fk@.columns.take(m as int));
        }
        assert(fk@.columns.take(m as int) =~= fk@.columns);
        k = k + 1;
        assert(out.deep_view() =~= crate::model::concat_map(fks.take(k as int), f));
    }
    assert(fks.take(k as int) =~= fks);
    out
}

fn junction_table(t: &Table) -> (r: Option<AnalysisFinding>)
    ensures
        r.deep_view() == junction_finding(t@),
{
    if t.foreign_keys.len() != 2 {
        return None;
    }
    let first_target = &t.foreign_keys[0].referenced_table;
    let second_target = &t.foreign_keys[1].referenced_table;
    if *first_target == *second_target {
        return None;
    }
    let mut pk = primary_key_columns(t);
    let mut fk = foreign_key_columns(t);
    if pk.len() == 0 || pk.len() != fk.len() {
        return None;
    }
    stable_sort(&mut pk);
    stable_sort(&mut fk);
    if !texts_eq(&pk, &fk) {
        return None;
    }
    let mut first = owned("two foreign keys reference different tables: ");
    push_str(&mut first, first_target.as_str());
    push_str(&mut first, " and ");
    push_str(&mut first, second_target.as_str());
    let mut evidence: Vec<String> = Vec::new();
    push_text(&mut evidence, first);
    push_text(&mut evidence, owned("primary key consists of the foreign key columns"));
    assert(evidence.deep_view() =~= seq![
        "two foreign keys reference different tables: "@ + t@.foreign_keys[0].referenced_table
            + " and "@ + t@.foreign_keys[1].referenced_table,
        "primary key consists of the foreign key columns"@,
    ]);
    Some(certain_exec(AnalysisKind::JunctionTable, evidence))
}

// ---------------------------------------------------------------------------
// Lookup tables
// ---------------------------------------------------------------------------

/// The column names that suggest a code/value table, compared in lower case.
pub open spec fn is_name_like(s: Seq<char>) -> bool {
    s == "name"@ || s == "label"@ || s == "value"@ || s == "code"@ || s == "title"@ || s
        == "description"@
}

/// Whether some column of `t` is marked as part of the primary key.
pub open spec fn has_primary_key(t: TableSpec) -> bool {
    exists|i: int| 0 <= i < t.columns.len() && (#[trigger] t.columns[i]).primary_key
}

/// Whether some column of `t` has a name-like name.
pub open spec fn has_name_like_column(t: TableSpec) -> bool {
    exists|i: int| 0 <= i < t.columns.len() && is_name_like(lower_text((#[trigger] t.columns[i]).name))
}

/// A table is a lookup table when it has no foreign keys, a primary key,
/// at most three columns, and a name-like column.
pub open spec fn lookup_finding(t: TableSpec) -> Option<AnalysisFindingSpec> {
    if t.foreign_keys.len() != 0 || !has_primary_key(t) || t.columns.len() > 3
        || !has_name_like_column(t) {
        None
    } else {
        Some(
            certain(
                AnalysisKind::LookupTable,
                seq![
                    "no foreign keys"@,
                    "has a primary key"@,
                    decimal(t.columns.len()) + " columns, suggesting a small code/value table"@,
                    "has a name/value column"@,
                ],
            ),
        )
    }
}

fn name_like(s: &str) -> (r: bool)
    ensures
        r == is_name_like(s@),
{
    str_eq(s, "name") || str_eq(s, "label") || str_eq(s, "value") || str_eq(s, "code") || str_eq(
        s,
        "title",
    ) || str_eq(s, "description")
}

fn table_has_primary_key(t: &Table) -> (r: bool)
    ensures
        r == has_primary_key(t@),
{
    let mut i: usize = 0;
    while i < t.columns.len()
        invariant
            i <= t.columns.len(),
            forall|j: int| 0 <= j < i ==> !(#[trigger] t@.columns[j]).primary_key,
        decreases t.columns.len() - i,
    {
        if t.columns[i].primary_key {
            assert(t@.columns[i as int].primary_key);
            return true;
        }
        i = i + 1;
    }
    false
}

fn table_has_name_like_column(t: &Table) -> (r: bool)
    ensures
        r == has_name_like_column(t@),
{
    let mut i: usize = 0;
    while i < t.columns.len()
        invariant
            i <= t.columns.len(),
            forall|j: int| 0 <= j < i ==> !is_name_like(lower_text((#[trigger] t@.columns[j]).name)),
        decreases t.columns.len() - i,
    {
        let lower = to_lowercase(t.columns[i].name.as_str());
        if name_like(lower.as_str()) {
            assert(is_name_like(lower_text(t@.columns[i as int].name)));
            return true;
        }
        i = i + 1;
    }
    false
}

fn lookup_table(t: &Table) -> (r: Option<AnalysisFinding>)
    ensures
        r.deep_view() == lookup_finding(t@),
{
    if t.foreign_keys.len() != 0 || !table_has_primary_key(t) || t.columns.len() > 3
        || !table_has_name_like_column(t) {
        return None;
    }
    let mut evidence: Vec<String> = Vec::new();
    push_text(&mut evidence, owned("no foreign keys"));
    push_text(&mut evidence, owned("has a primary key"));
    let mut count = decimal_string(t.columns.len());
    push_str(&mut count, " columns, suggesting a small code/value table");
    push_text(&mut evidence, count);
    push_text(&mut evidence, owned("has a name/value column"));
    assert(evidence.deep_view() =~= seq![
        "no foreign keys"@,
        "has a primary key"@,
        decimal(t@.columns.len()) + " columns, suggesting a small code/value table"@,
        "has a name/value column"@,
    ]);
    Some(certain_exec(AnalysisKind::LookupTable, evidence))
}

// ---------------------------------------------------------------------------
// Audit tables
// ---------------------------------------------------------------------------

/// Whether a type name (or a column name) denotes a timestamp, compared in
/// lower case.
pub open spec fn is_timestamp_type(s: Seq<char>) -> bool {
    let l = lower_text(s);
    l == "timestamp"@ || l == "datetime"@ || l == "datetime2"@ || l == "smalldatetime"@ || l
        == "datetimeoffset"@ || starts_with(l, "timestamp("@) || starts_with(l, "datetime("@)
}

/// Whether a table name, in lower case, suggests auditing.
pub open spec fn name_suggests_audit(name: Seq<char>) -> bool {
    let l = lower_text(name);
    contains(l, "audit"@) || starts_with(l, "audit_"@) || ends_with(l, "_audit"@)
}

/// Whether some column of `t` has a timestamp type or a timestamp-like name.
pub open spec fn has_timestamp_column(t: TableSpec) -> bool {
    exists|i: int|
        0 <= i < t.columns.len() && (is_timestamp_type((#[trigger] t.columns[i]).data_type)
            || is_timestamp_type(t.columns[i].name))
}

/// A table is an audit table when its name suggests auditing; timestamp
/// columns are added as evidence.
pub open spec fn audit_finding(t: TableSpec) -> Option<AnalysisFindingSpec> {
    if !name_suggests_audit(t.name) {
        None
    } else {
        Some(
            certain(
                AnalysisKind::AuditTable,
                seq!["table name suggests auditing"@] + if has_timestamp_column(t) {
                    seq!["has timestamp columns"@]
                } else {
                    Seq::empty()
                },
            ),
        )
    }
}

fn timestamp_type(s: &str) -> (r: bool)
    ensures
        r == is_timestamp_type(s@),
{
    let lower = to_lowercase(s);
    let l = lower.as_str();
    str_eq(l, "timestamp") || str_eq(l, "datetime") || str_eq(l, "datetime2") || str_eq(
        l,
        "smalldatetime",
    ) || str_eq(l, "datetimeoffset") || str_starts_with(l, "timestamp(") || str_starts_with(
        l,
        "datetime(",
    )
}

fn table_has_timestamp_column(t: &Table) -> (r: bool)
    ensures
        r == has_timestamp_column(t@),
{
    let mut i: usize = 0;
    while i < t.columns.len()
        invariant
            i <= t.columns.len(),
            forall|j: int|
                0 <= j < i ==> !(is_timestamp_type((#[trigger] t@.columns[j]).data_type)
                    || is_timestamp_type(t@.columns[j].name)),
        decreases t.columns.len() - i,
    {
        if timestamp_type(t.columns[i].data_type.as_str()) || timestamp_type(
            t.columns[i].name.as_str(),
        ) {
            assert(is_timestamp_type(t@.columns[i as int].data_type) || is_timestamp_type(
                t@.columns[i as int].name,
            ));
            return true;
        }
        i = i + 1;
    }
    false
}

fn audit_table(t: &Table) -> (r: Option<AnalysisFinding>)
    ensures
        r.deep_view() == audit_finding(t@),
{
    let lower = to_lowercase(t.name.as_str());
    let l = lower.as_str();
    let suggests = str_contains(l, "audit") || str_starts_with(l, "audit_") || str_ends_with(
        l,
        "_audit",
    );
    let has_timestamp = table_has_timestamp_column(t);
    if !suggests {
        return None;
    }
    let mut evidence: Vec<String> = Vec::new();
    push_text(&mut evidence, owned("table name suggests auditing"));
    if has_timestamp {
        push_text(&mut evidence, owned("has timestamp columns"));
    }
    assert(evidence.deep_view() =~= seq!["table name suggests auditing"@] + if has_timestamp {
        seq!["has timestamp columns"@]
    } else {
        Seq::<Seq<char>>::empty()
    });
    Some(certain_exec(AnalysisKind::AuditTable, evidence))
}

// ---------------------------------------------------------------------------
// Soft deletes and timestamps
// ---------------------------------------------------------------------------

/// The position of the first column of `cols` whose lower-case name is
/// `target`, or -1.
pub open spec fn first_column_named(cols: Seq<ColumnSpec>, target: Seq<char>) -> int
    decreases cols.len(),
{
    if cols.len() == 0 {
        -1
    } else if lower_text(cols[0].name) == target {
        0
    } else {
        let r = first_column_named(cols.drop_first(), target);
        if r < 0 {
            -1
        } else {
            r + 1
        }
    }
}

/// A table soft-deletes when it has a `deleted_at` column, or failing that
/// an `is_deleted` column.
pub open spec fn soft_delete_finding(t: TableSpec) -> Option<AnalysisFindingSpec> {
    let d = first_column_named(t.columns, "deleted_at"@);
    let x = first_column_named(t.columns, "is_deleted"@);
    if d >= 0 {
        Some(
            certain(
                AnalysisKind::SoftDeletes,
                seq!["has a nullable `deleted_at` "@ + t.columns[d].data_type + " column"@],
            ),
        )
    } else if x >= 0 {
        Some(
            certain(
                AnalysisKind::SoftDeletes,
                seq!["has an `is_deleted` "@ + t.columns[x].data_type + " column"@],
            ),
        )
    } else {
        None
    }
}

fn find_column_named(t: &Table, target: &str) -> (r: usize)
    ensures
        r < t.columns.len() ==> r as int == first_column_named(t@.columns, target@),
        r >= t.columns.len() ==> first_column_named(t@.columns, target@) < 0,
{
    let ghost cols = t@.columns;
    let mut i: usize = 0;
    assert(cols.skip(0) =~= cols);
    while i < t.columns.len()
        invariant
            cols == t@.columns,
            i <= t.columns.len(),
            first_column_named(cols, target@) == if first_column_named(cols.skip(i as int), target@)
                < 0 {
                -1
            } else {
                first_column_named(cols.skip(i as int), target@) + i
            },
        decreases t.columns.len() - i,
    {
        let lower = to_lowercase(t.columns[i].name.as_str());
        proof {
            assert(cols.skip(i as int)[0] == t.columns[i as int]@);
            assert(cols.skip(i as int).drop_first() =~= cols.skip(i + 1));
        }
        if str_eq(lower.as_str(), target) {
            return i;
        }
        i = i + 1;
    }
    assert(cols.skip(i as int).len() == 0);
    t.columns.len()
}

fn soft_deletes(t: &Table) -> (r: Option<AnalysisFinding>)
    ensures
        r.deep_view() == soft_delete_finding(t@),
{
    let d = find_column_named(t, "deleted_at");
    if d < t.columns.len() {
        let mut e = owned("has a nullable `deleted_at` ");
        push_str(&mut e, t.columns[d].data_type.as_str());
        push_str(&mut e, " column");
        let mut evidence: Vec<String> = Vec::new();
        push_text(&mut evidence, e);
        assert(evidence.deep_view() =~= seq![
            "has a nullable `deleted_at` "@ + t@.columns[d as int].data_type + " column"@,
        ]);
        return Some(certain_exec(AnalysisKind::SoftDeletes, evidence));
    }
    let x = find_column_named(t, "is_deleted");
    if x < t.columns.len() {
        let mut e = owned("has an `is_deleted` ");
        push_str(&mut e, t.columns[x].data_type.as_str());
        push_str(&mut e, " column");
        let mut evidence: Vec<String> = Vec::new();
        push_text(&mut evidence, e);
        assert(evidence.deep_view() =~= seq![
            "has an `is_deleted` "@ + t@.columns[x as int].data_type + " column"@,
        ]);
        return Some(certain_exec(AnalysisKind::SoftDeletes, evidence));
    }
    None
}

/// Whether some column's lower-case name is one of `a`, `b`, `c`, `d`.
pub open spec fn has_column_among(
    t: TableSpec,
    a: Seq<char>,
    b: Seq<char>,
    c: Seq<char>,
    d: Seq<char>,
) -> bool {
    exists|i: int|
        0 <= i < t.columns.len() && {
            let l = lower_text((#[trigger] t.columns[i]).name);
            l == a || l == b || l == c || l == d
        }
}

/// A table follows timestamp conventions when it has both a created and an
/// updated timestamp column.
pub open spec fn timestamp_finding(t: TableSpec) -> Option<AnalysisFindingSpec> {
    let created = has_column_among(t, "created_at"@, "created"@, "create_time"@, "created_on"@);
    let updated = has_column_among(t, "updated_at"@, "updated"@, "update_time"@, "updated_on"@);
    if created && updated {
        Some(
            certain(
                AnalysisKind::TimestampConventions,
                seq!["has both created and updated timestamp columns"@],
            ),
        )
    } else {
        None
    }
}

fn table_has_column_among(t: &Table, a: &str, b: &str, c: &str, d: &str) -> (r: bool)
    ensures
        r == has_column_among(t@, a@, b@, c@, d@),
{
    let mut i: usize = 0;
    while i < t.columns.len()
        invariant
            i <= t.columns.len(),
            forall|j: int|
                0 <= j < i ==> {
                    let l = lower_text((#[trigger] t@.columns[j]).name);
                    !(l == a@ || l == b@ || l == c@ || l == d@)
                },
        decreases t.columns.len() - i,
    {
        let lower = to_lowercase(t.columns[i].name.as_str());
        let l = lower.as_str();
        if str_eq(l, a) || str_eq(l, b) || str_eq(l, c) || str_eq(l, d) {
            assert(lower_text(t@.columns[i as int].name) == l@);
            return true;
        }
        i = i + 1;
    }
    false
}

fn timestamp_conventions(t: &Table) -> (r: Option<AnalysisFinding>)
    ensures
        r.deep_view() == timestamp_finding(t@),
{
    let created = table_has_column_among(t, "created_at", "created", "create_time", "created_on");
    let updated = table_has_column_among(t, "updated_at", "updated", "update_time", "updated_on");
    if created && updated {
        let mut evidence: Vec<String> = Vec::new();
        push_text(&mut evidence, owned("has both created and updated timestamp columns"));
        assert(evidence.deep_view() =~= seq!["has both created and updated timestamp columns"@]);
        Some(certain_exec(AnalysisKind::TimestampConventions, evidence))
    } else {
        None
    }
}

// ---------------------------------------------------------------------------
// Analysis of a database
// ---------------------------------------------------------------------------

/// The finding held by `o`, as a sequence of at most one.
pub open spec fn opt_seq(o: Option<AnalysisFindingSpec>) -> Seq<AnalysisFindingSpec> {
    match o {
        Some(f) => seq![f],
        None => Seq::empty(),
    }
}

/// The findings of table `t`, ordered by the name of their kind: audit,
/// junction, lookup, soft deletes, timestamps.
pub open spec fn table_findings(t: TableSpec) -> Seq<AnalysisFindingSpec> {
    opt_seq(audit_finding(t)) + opt_seq(junction_finding(t)) + opt_seq(lookup_finding(t))
        + opt_seq(soft_delete_finding(t)) + opt_seq(timestamp_finding(t))
}

/// Table `t` after analysis: its findings attached when there are any,
/// otherwise unchanged.
pub open spec fn analyzed_table(t: TableSpec) -> TableSpec {
    let fs = table_findings(t);
    if fs.len() > 0 {
        TableSpec { analysis: Some(TableAnalysisSpec { findings: fs }), ..t }
    } else {
        t
    }
}

fn push_found(findings: &mut Vec<AnalysisFinding>, o: Option<AnalysisFinding>)
    ensures
        final(findings).deep_view() == old(findings).deep_view() + opt_seq(o.deep_view()),
{
    let ghost base = findings.deep_view();
    match o {
        Some(f) => {
            let ghost before = *findings;
            let ghost g = f;
            findings.push(f);
            proof {
                crate::model::lemma_push_deep_view(before, *findings, g);
            }
        },
        None => {},
    }
    assert(findings.deep_view() =~= base + opt_seq(o.deep_view()));
}

fn analyze_table(t: &Table) -> (r: Vec<AnalysisFinding>)
    ensures
        r.deep_view() == table_findings(t@),
{
    let mut findings: Vec<AnalysisFinding> = Vec::new();
    assert(findings.deep_view() =~= Seq::<AnalysisFindingSpec>::empty());
    push_found(&mut findings, audit_table(t));
    push_found(&mut findings, junction_table(t));
    push_found(&mut findings, lookup_table(t));
    push_found(&mut findings, soft_deletes(t));
    push_found(&mut findings, timestamp_conventions(t));
    assert(findings.deep_view() =~= table_findings(t@));
    findings
}

/// Run every deterministic heuristic against `database` and attach the
/// findings to each table.
///
/// Tables with no matching findings are left as they are, so the field
/// stays absent from exported documents unless it carries real content.
pub fn analyze(database: &mut Database)
    ensures
        final(database)@ == (DatabaseSpec {
            tables: old(database)@.tables.map_values(|t: TableSpec| analyzed_table(t)),
            ..old(database)@
        }),
{
    let ghost input = database@.tables;
    let mut i: usize = 0;
    while i < database.tables.len()
        invariant
            input.len() == database.tables.len(),
            i <= database.tables.len(),
            database@.header == old(database)@.header,
            database@.metadata == old(database)@.metadata,
            database@.views == old(database)@.views,
            input == old(database)@.tables,
            forall|j: int| 0 <= j < i ==> #[trigger] database@.tables[j] == analyzed_table(input[j]),
            forall|j: int| i <= j < input.len() ==> #[trigger] database@.tables[j] == input[j],
        decreases database.tables.len() - i,
    {
        let findings = analyze_table(&database.tables[i]);
        let ghost cur = database@.tables;
        assert(cur[i as int] == input[i as int]);
        if findings.len() > 0 {
            let mut t = database.tables[i].clone();
            t.analysis = Some(TableAnalysis { findings });
            assert(t@ == analyzed_table(input[i as int]));
            let ghost gt = t;
            database.tables.set(i, t);
            assert(database@.tables =~= cur.update(i as int, gt@));
        } else {
            assert(analyzed_table(input[i as int]) == input[i as int]);
        }
        i = i + 1;
    }
    assert(database@.tables =~= input.map_values(|t: TableSpec| analyzed_table(t)));
}

/// Analysis never changes a table's facts: everything but the analysis stays
/// as it was, and the analysis is set, to the findings, exactly when some
/// heuristic matched.
pub proof fn law_analysis_keeps_facts(t: TableSpec)
    ensures
        (TableSpec { analysis: t.analysis, ..analyzed_table(t) }) == t,
        table_findings(t).len() > 0 ==> analyzed_table(t).analysis == Some(
            TableAnalysisSpec { findings: table_findings(t) },
        ),
        table_findings(t).len() == 0 ==> analyzed_table(t).analysis == t.analysis,
{
}

/// Running the analysis a second time changes nothing more.
pub proof fn law_analysis_is_idempotent(t: TableSpec)
    ensures
        analyzed_table(analyzed_table(t)) == analyzed_table(t),
{
    let a = analyzed_table(t);
    assert(a.columns == t.columns && a.foreign_keys == t.foreign_keys && a.name == t.name);
    assert(junction_finding(a) == junction_finding(t));
    assert(lookup_finding(a) == lookup_finding(t));
    assert(audit_finding(a) == audit_finding(t));
    assert(soft_delete_finding(a) == soft_delete_finding(t));
    assert(timestamp_finding(a) == timestamp_finding(t));
    assert(table_findings(a) == table_findings(t));
}

/// What the heuristic for `kind` finds in table `t`.
pub open spec fn kind_finding(t: TableSpec, kind: AnalysisKind) -> Option<AnalysisFindingSpec> {
    match kind {
        AnalysisKind::AuditTable => audit_finding(t),
        AnalysisKind::JunctionTable => junction_finding(t),
        AnalysisKind::LookupTable => lookup_finding(t),
        AnalysisKind::SoftDeletes => soft_delete_finding(t),
        AnalysisKind::TimestampConventions => timestamp_finding(t),
    }
}

/// The kind of the heuristic that stands at place `p` of a table's
/// findings: audit, junction, lookup, soft deletes, timestamps.
pub open spec fn kind_at(p: int) -> AnalysisKind {
    if p == 0 {
        AnalysisKind::AuditTable
    } else if p == 1 {
        AnalysisKind::JunctionTable
    } else if p == 2 {
        AnalysisKind::LookupTable
    } else if p == 3 {
        AnalysisKind::SoftDeletes
    } else {
        AnalysisKind::TimestampConventions
    }
}

/// How many findings the heuristics before place `p` made.
pub open spec fn found_before(t: TableSpec, p: int) -> int
    decreases p,
{
    if p <= 0 {
        0
    } else {
        found_before(t, p - 1) + opt_seq(kind_finding(t, kind_at(p - 1))).len()
    }
}

proof fn lemma_finding_origin(t: TableSpec, i: int)
    requires
        0 <= i < table_findings(t).len(),
    ensures
        exists|p: int|
            0 <= p < 5 && found_before(t, p) == i && #[trigger] kind_finding(t, kind_at(p)) == Some(
                table_findings(t)[i],
            ),
{
    let s = table_findings(t);
    let a = opt_seq(audit_finding(t));
    let b = opt_seq(junction_finding(t));
    let c = opt_seq(lookup_finding(t));
    let d = opt_seq(soft_delete_finding(t));
    let e = opt_seq(timestamp_finding(t));
    assert(found_before(t, 0) == 0);
    assert(kind_finding(t, kind_at(0)) == audit_finding(t));
    assert(kind_finding(t, kind_at(1)) == junction_finding(t));
    assert(kind_finding(t, kind_at(2)) == lookup_finding(t));
    assert(kind_finding(t, kind_at(3)) == soft_delete_finding(t));
    assert(kind_finding(t, kind_at(4)) == timestamp_finding(t));
    assert(found_before(t, 1) == a.len());
    assert(found_before(t, 2) == a.len() + b.len());
    assert(found_before(t, 3) == a.len() + b.len() + c.len());
    assert(found_before(t, 4) == a.len() + b.len() + c.len() + d.len());
    let la = a.len() as int;
    let lb = b.len() as int;
    let lc = c.len() as int;
    let ld = d.len() as int;
    if i < la {
        assert(kind_finding(t, kind_at(0)) == Some(s[i]));
    } else if i < la + lb {
        assert(kind_finding(t, kind_at(1)) == Some(s[i]));
    } else if i < la + lb + lc {
        assert(kind_finding(t, kind_at(2)) == Some(s[i]));
    } else if i < la + lb + lc + ld {
        assert(kind_finding(t, kind_at(3)) == Some(s[i]));
    } else {
        assert(kind_finding(t, kind_at(4)) == Some(s[i]));
    }
}

/// Each heuristic speaks only of its own kind, with full confidence: the
/// findings of a table hold a finding of `kind` exactly when that kind's
/// heuristic matched, and then once, as that heuristic's finding.
pub proof fn law_each_heuristic_reports_its_kind_once(t: TableSpec, kind: AnalysisKind)
    ensures
        kind_finding(t, kind) matches Some(f) ==> f.kind == kind && f.confidence == 100,
        (exists|i: int| 0 <= i < table_findings(t).len() && (#[trigger] table_findings(t)[i]).kind == kind)
            <==> kind_finding(t, kind) is Some,
        forall|i: int|
            0 <= i < table_findings(t).len() && (#[trigger] table_findings(t)[i]).kind == kind
                ==> kind_finding(t, kind) == Some(table_findings(t)[i]),
        forall|i: int, j: int|
            0 <= i < table_findings(t).len() && 0 <= j < table_findings(t).len() && (
            #[trigger] table_findings(t)[i]).kind == kind && (#[trigger] table_findings(t)[j]).kind
                == kind ==> i == j,
{
    let s = table_findings(t);
    assert forall|p: int| 0 <= p < 5 implies (#[trigger] kind_finding(t, kind_at(p))) matches Some(f)
        ==> f.kind == kind_at(p) && f.confidence == 100 by {}
    assert(kind_at(0) == AnalysisKind::AuditTable);
    assert(kind_at(1) == AnalysisKind::JunctionTable);
    assert(kind_at(2) == AnalysisKind::LookupTable);
    assert(kind_at(3) == AnalysisKind::SoftDeletes);
    assert(kind_at(4) == AnalysisKind::TimestampConventions);
    assert forall|i: int|
        0 <= i < s.len() && (#[trigger] s[i]).kind == kind implies kind_finding(t, kind) == Some(s[i]) by {
        lemma_finding_origin(t, i);
    }
    assert forall|i: int, j: int|
        0 <= i < s.len() && 0 <= j < s.len() && (#[trigger] s[i]).kind == kind && (#[trigger] s[j]).kind
            == kind implies i == j by {
        lemma_finding_origin(t, i);
        lemma_finding_origin(t, j);
        let p = choose|p: int|
            0 <= p < 5 && found_before(t, p) == i && #[trigger] kind_finding(t, kind_at(p)) == Some(s[i]);
        let q = choose|q: int|
            0 <= q < 5 && found_before(t, q) == j && #[trigger] kind_finding(t, kind_at(q)) == Some(s[j]);
        assert(kind_at(p) == kind && kind_at(q) == kind);
    }
    if kind_finding(t, kind) is Some {
        let a = opt_seq(audit_finding(t));
        let b = opt_seq(junction_finding(t));
        let c = opt_seq(lookup_finding(t));
        let d = opt_seq(soft_delete_finding(t));
        let la = a.len() as int;
        let lb = b.len() as int;
        let lc = c.len() as int;
        let ld = d.len() as int;
        let i = match kind {
            AnalysisKind::AuditTable => 0,
            AnalysisKind::JunctionTable => la,
            AnalysisKind::LookupTable => la + lb,
            AnalysisKind::SoftDeletes => la + lb + lc,
            AnalysisKind::TimestampConventions => la + lb + lc + ld,
        };
        assert(s[i] == kind_finding(t, kind)->Some_0);
    }
}

/// A table is said to follow timestamp conventions exactly when it has a
/// column whose lower-case name says it records creation (`created_at`,
/// `created`, `create_time` or `created_on`) and a column whose lower-case
/// name says it records updates (`updated_at`, `updated`, `update_time` or
/// `updated_on`); a table lacking either gets no such finding. The finding,
/// when made, says both are there.
pub proof fn law_timestamp_conventions_need_created_and_updated(t: TableSpec)
    ensures
        (exists|i: int|
            0 <= i < table_findings(t).len() && (#[trigger] table_findings(t)[i]).kind
                == AnalysisKind::TimestampConventions) <==> ((exists|i: int|
            0 <= i < t.columns.len() && {
                let l = lower_text((#[trigger] t.columns[i]).name);
                l == "created_at"@ || l == "created"@ || l == "create_time"@ || l == "created_on"@
            }) && (exists|j: int|
            0 <= j < t.columns.len() && {
                let l = lower_text((#[trigger] t.columns[j]).name);
                l == "updated_at"@ || l == "updated"@ || l == "update_time"@ || l == "updated_on"@
            })),
        forall|i: int|
            0 <= i < table_findings(t).len() && (#[trigger] table_findings(t)[i]).kind
                == AnalysisKind::TimestampConventions ==> table_findings(t)[i].evidence == seq![
                "has both created and updated timestamp columns"@,
            ],
{
    law_each_heuristic_reports_its_kind_once(t, AnalysisKind::TimestampConventions);
}

/// Whether table `t`'s findings hold one of kind `kind`.
pub open spec fn found_kind(t: TableSpec, kind: AnalysisKind) -> bool {
    exists|i: int| 0 <= i < table_findings(t).len() && (#[trigger] table_findings(t)[i]).kind == kind
}

/// A table is taken for an audit table exactly when its lower-case name
/// contains `audit`, and the finding then first says that its name
/// suggests auditing.
pub proof fn law_audit_tables_are_named_for_auditing(t: TableSpec)
    ensures
        found_kind(t, AnalysisKind::AuditTable) <==> contains(lower_text(t.name), "audit"@),
        forall|i: int|
            0 <= i < table_findings(t).len() && (#[trigger] table_findings(t)[i]).kind
                == AnalysisKind::AuditTable ==> table_findings(t)[i].evidence.len() >= 1
                && table_findings(t)[i].evidence[0] == "table name suggests auditing"@,
{
    law_each_heuristic_reports_its_kind_once(t, AnalysisKind::AuditTable);
    let l = lower_text(t.name);
    reveal_strlit("audit");
    reveal_strlit("audit_");
    reveal_strlit("_audit");
    if starts_with(l, "audit_"@) {
        assert(l.subrange(0, 5) =~= l.subrange(0, 6).subrange(0, 5));
        assert("audit_"@.subrange(0, 5) =~= "audit"@);
        assert(occurs_at(l, "audit"@, 0));
    }
    if ends_with(l, "_audit"@) {
        let at = l.len() - 6;
        assert(l.subrange(at + 1, at + 6) =~= l.subrange(at, at + 6).subrange(1, 6));
        assert("_audit"@.subrange(1, 6) =~= "audit"@);
        assert(occurs_at(l, "audit"@, at + 1));
    }
    let a = audit_finding(t);
    if a is Some {
        assert((seq!["table name suggests auditing"@] + if has_timestamp_column(t) {
            seq!["has timestamp columns"@]
        } else {
            Seq::empty()
        })[0] == "table name suggests auditing"@);
    }
}

/// Whether some column's lower-case name reads like a label or code.
pub open spec fn has_label_column(t: TableSpec) -> bool {
    exists|i: int|
        0 <= i < t.columns.len() && {
            let l = lower_text((#[trigger] t.columns[i]).name);
            l == "name"@ || l == "label"@ || l == "value"@ || l == "code"@ || l == "title"@ || l
                == "description"@
        }
}

/// A table is taken for a lookup table exactly when it has no foreign keys,
/// some column marked as part of the primary key, at most three columns,
/// and a column named (in lower case) `name`, `label`, `value`, `code`,
/// `title` or `description`.
pub proof fn law_lookup_tables_are_small_keyed_label_tables(t: TableSpec)
    ensures
        found_kind(t, AnalysisKind::LookupTable) <==> (t.foreign_keys.len() == 0 && (exists|i: int|
            0 <= i < t.columns.len() && (#[trigger] t.columns[i]).primary_key) && t.columns.len() <= 3
            && has_label_column(t)),
{
    law_each_heuristic_reports_its_kind_once(t, AnalysisKind::LookupTable);
}

proof fn lemma_first_column_named(cols: Seq<ColumnSpec>, target: Seq<char>)
    ensures
        -1 <= first_column_named(cols, target) < cols.len(),
        first_column_named(cols, target) >= 0 ==> lower_text(cols[first_column_named(cols, target)].name)
            == target && forall|j: int|
            0 <= j < first_column_named(cols, target) ==> lower_text((#[trigger] cols[j]).name) != target,
        first_column_named(cols, target) < 0 <==> forall|j: int|
            0 <= j < cols.len() ==> lower_text((#[trigger] cols[j]).name) != target,
    decreases cols.len(),
{
    if cols.len() > 0 {
        let rest = cols.drop_first();
        lemma_first_column_named(rest, target);
        assert forall|j: int| 0 < j < cols.len() implies cols[j] == rest[j - 1] by {}
        if lower_text(cols[0].name) != target {
            if first_column_named(rest, target) < 0 {
                assert forall|j: int| 0 <= j < cols.len() implies lower_text((#[trigger] cols[j]).name)
                    != target by {
                    if j > 0 {
                        assert(cols[j] == rest[j - 1]);
                    }
                }
            } else {
                let r = first_column_named(rest, target);
                assert forall|j: int| 0 <= j < r + 1 implies lower_text((#[trigger] cols[j]).name)
                    != target by {
                    if j > 0 {
                        assert(cols[j] == rest[j - 1]);
                    }
                }
            }
            if forall|j: int| 0 <= j < cols.len() ==> lower_text((#[trigger] cols[j]).name) != target {
                assert forall|j: int| 0 <= j < rest.len() implies lower_text((#[trigger] rest[j]).name)
                    != target by {
                    assert(rest[j] == cols[j + 1]);
                }
            }
        }
    }
}

/// A table is taken to soft-delete exactly when some column is named (in
/// lower case) `deleted_at` or `is_deleted`. The finding names the type of
/// the first `deleted_at` column when there is one, and otherwise that of
/// the first `is_deleted` column.
pub proof fn law_soft_deletes_follow_deletion_columns(t: TableSpec, d: int)
    ensures
        found_kind(t, AnalysisKind::SoftDeletes) <==> exists|i: int|
            0 <= i < t.columns.len() && (lower_text((#[trigger] t.columns[i]).name) == "deleted_at"@
                || lower_text(t.columns[i].name) == "is_deleted"@),
        0 <= d < t.columns.len() && lower_text(t.columns[d].name) == "deleted_at"@ && (forall|j: int|
            0 <= j < d ==> lower_text((#[trigger] t.columns[j]).name) != "deleted_at"@) ==> forall|i: int|
            0 <= i < table_findings(t).len() && (#[trigger] table_findings(t)[i]).kind
                == AnalysisKind::SoftDeletes ==> table_findings(t)[i].evidence == seq![
                "has a nullable `deleted_at` "@ + t.columns[d].data_type + " column"@,
            ],
        0 <= d < t.columns.len() && lower_text(t.columns[d].name) == "is_deleted"@ && (forall|j: int|
            0 <= j < d ==> lower_text((#[trigger] t.columns[j]).name) != "is_deleted"@) && (forall|j: int|
            0 <= j < t.columns.len() ==> lower_text((#[trigger] t.columns[j]).name) != "deleted_at"@)
            ==> forall|i: int|
            0 <= i < table_findings(t).len() && (#[trigger] table_findings(t)[i]).kind
                == AnalysisKind::SoftDeletes ==> table_findings(t)[i].evidence == seq![
                "has an `is_deleted` "@ + t.columns[d].data_type + " column"@,
            ],
{
    law_each_heuristic_reports_its_kind_once(t, AnalysisKind::SoftDeletes);
    lemma_first_column_named(t.columns, "deleted_at"@);
    lemma_first_column_named(t.columns, "is_deleted"@);
    let a = first_column_named(t.columns, "deleted_at"@);
    let b = first_column_named(t.columns, "is_deleted"@);
    if 0 <= d < t.columns.len() && lower_text(t.columns[d].name) == "deleted_at"@ && (forall|j: int|
        0 <= j < d ==> lower_text((#[trigger] t.columns[j]).name) != "deleted_at"@) {
        if a != d {
            if a < d {
                assert(lower_text(t.columns[a].name) != "deleted_at"@);
            } else {
                assert(lower_text(t.columns[d].name) != "deleted_at"@);
            }
        }
    }
    if 0 <= d < t.columns.len() && lower_text(t.columns[d].name) == "is_deleted"@ && (forall|j: int|
        0 <= j < d ==> lower_text((#[trigger] t.columns[j]).name) != "is_deleted"@) && (forall|j: int|
        0 <= j < t.columns.len() ==> lower_text((#[trigger] t.columns[j]).name) != "deleted_at"@) {
        if b != d {
            if b < d {
                assert(lower_text(t.columns[b].name) != "is_deleted"@);
            } else {
                assert(lower_text(t.columns[d].name) != "is_deleted"@);
            }
        }
    }
}

/// The primary-key names of a table's columns are exactly the names of the
/// columns marked as part of the primary key, in column order.
pub proof fn law_primary_key_names_are_the_key_columns(cols: Seq<ColumnSpec>)
    ensures
        primary_key_names(cols).len() <= cols.len(),
        forall|x: Seq<char>|
            #[trigger] primary_key_names(cols).contains(x) <==> exists|i: int|
                0 <= i < cols.len() && (#[trigger] cols[i]).primary_key && cols[i].name == x,
        (primary_key_names(cols).len() == 0) <==> forall|i: int|
            0 <= i < cols.len() ==> !(#[trigger] cols[i]).primary_key,
    decreases cols.len(),
{
    if cols.len() > 0 {
        let rest = cols.drop_last();
        law_primary_key_names_are_the_key_columns(rest);
        let p = primary_key_names(rest);
        assert forall|i: int| 0 <= i < rest.len() implies rest[i] == cols[i] by {}
        assert forall|x: Seq<char>| #[trigger] primary_key_names(cols).contains(x) <==> exists|i: int|
            0 <= i < cols.len() && (#[trigger] cols[i]).primary_key && cols[i].name == x by {
            if primary_key_names(cols).contains(x) {
                if cols.last().primary_key && x == cols.last().name {
                    assert(cols[cols.len() - 1] == cols.last());
                } else {
                    if cols.last().primary_key {
                        let k = choose|k: int| 0 <= k < p.push(cols.last().name).len() && p.push(
                            cols.last().name,
                        )[k] == x;
                        assert(p[k] == x);
                        assert(p.contains(x));
                    }
                    let i = choose|i: int| 0 <= i < rest.len() && (#[trigger] rest[i]).primary_key && rest[i].name == x;
                    assert(cols[i] == rest[i]);
                }
            }
            if exists|i: int| 0 <= i < cols.len() && (#[trigger] cols[i]).primary_key && cols[i].name == x {
                let i = choose|i: int| 0 <= i < cols.len() && (#[trigger] cols[i]).primary_key && cols[i].name == x;
                if i == cols.len() - 1 {
                    assert(cols[i] == cols.last());
                    assert(p.push(cols.last().name)[p.len() as int] == x);
                } else {
                    assert(rest[i] == cols[i]);
                    assert(p.contains(x));
                    if cols.last().primary_key {
                        let k = choose|k: int| 0 <= k < p.len() && p[k] == x;
                        assert(p.push(cols.last().name)[k] == x);
                    }
                }
            }
        }
        if !cols.last().primary_key {
            assert(cols[cols.len() - 1] == cols.last());
            if forall|i: int| 0 <= i < rest.len() ==> !(#[trigger] rest[i]).primary_key {
                assert forall|i: int| 0 <= i < cols.len() implies !(#[trigger] cols[i]).primary_key by {
                    if i < rest.len() {
                        assert(rest[i] == cols[i]);
                    }
                }
            }
        } else {
            assert(cols[cols.len() - 1] == cols.last());
        }
    }
}

/// A table is taken for a junction table exactly when it has exactly two
/// foreign keys, they reference differently named tables, and its
/// primary-key column names are, counted with repetition, exactly the
/// columns of the two foreign keys (and not none).
pub proof fn law_junction_tables_join_two_tables(t: TableSpec)
    ensures
        found_kind(t, AnalysisKind::JunctionTable) <==> (t.foreign_keys.len() == 2
            && t.foreign_keys[0].referenced_table != t.foreign_keys[1].referenced_table
            && primary_key_names(t.columns).len() > 0 && primary_key_names(t.columns).to_multiset() == (
        t.foreign_keys[0].columns + t.foreign_keys[1].columns).to_multiset()),
{
    law_each_heuristic_reports_its_kind_once(t, AnalysisKind::JunctionTable);
    if t.foreign_keys.len() == 2 {
        let f = fk_columns_of();
        let fks = t.foreign_keys;
        crate::model::lemma_concat_map_step(fks, 0, f);
        crate::model::lemma_concat_map_step(fks, 1, f);
        assert(fks.take(0) =~= Seq::<crate::model::ForeignKeySpec>::empty());
        assert(fks.take(2) =~= fks);
        assert(crate::model::concat_map(fks.take(0), f) =~= Seq::<Seq<char>>::empty());
        assert(foreign_key_column_names(t) =~= fks[0].columns + fks[1].columns);
        let pk = primary_key_names(t.columns);
        let fk = foreign_key_column_names(t);
        let key = view_keyed::<String>();
        crate::order::lemma_sorted_by(pk, key);
        crate::order::lemma_sorted_by(fk, key);
        vstd::seq_lib::to_multiset_len(pk);
        vstd::seq_lib::to_multiset_len(fk);
        if pk.to_multiset() == fk.to_multiset() {
            assert forall|x: Seq<char>, y: Seq<char>|
                pk.contains(x) && pk.contains(y) && #[trigger] key(x) == #[trigger] key(y) implies x == y by {
                assert(key(x)[0] == crate::order::KeyPart::Text(x));
                assert(key(y)[0] == crate::order::KeyPart::Text(y));
            }
            crate::order::lemma_sorted_by_same_items(pk, fk, key);
        }
    }
}

} // verus!
