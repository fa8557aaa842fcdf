//! Text renderings of the canonical schema model: the Markdown document and
//! the Mermaid ER diagram.
//!
//! Every artifact is derived from the model alone. Each renderer states the
//! exact text it produces as a spec function over the model's view.
use vstd::prelude::*;

use crate::model::{
    concat_map, lemma_concat_map_step, relationships_of, AnalysisFindingSpec, Column, ColumnSpec,
    Database, DatabaseSpec, Engine, ForeignKey, ForeignKeySpec, Index, IndexSpec, Relationship,
    RelationshipSpec, SchemaView, SchemaViewSpec, Table, TableAnalysisSpec, TableSpec,
};
use crate::text::{
    decimal, decimal_string, digit, digit_char, is_ascii_alnum, join, join_strings, owned,
    push_char, push_str,
};

verus! {

// ---------------------------------------------------------------------------
// Names and cells
// ---------------------------------------------------------------------------

/// How a table, view or relationship end is named in documents: SQL Server
/// names carry their schema, other engines' do not.
pub open spec fn qualified_name(engine: Engine, schema: Seq<char>, name: Seq<char>) -> Seq<char> {
    if engine == Engine::Sqlserver {
        schema + "."@ + name
    } else {
        name
    }
}

pub fn qualified_name_exec(engine: Engine, schema: &str, name: &str) -> (r: String)
    ensures
        r@ == qualified_name(engine, schema@, name@),
{
    if engine == Engine::Sqlserver {
        let mut out = owned(schema);
        push_str(&mut out, ".");
        push_str(&mut out, name);
        out
    } else {
        owned(name)
    }
}

/// The file name (without extension) of a table's own document.
pub fn table_file_name(database: &Database, table: &Table) -> (r: String)
    ensures
        r@ == qualified_name(database.metadata.engine, table.schema@, table.name@),
{
    qualified_name_exec(database.metadata.engine, table.schema.as_str(), table.name.as_str())
}

/// What one character becomes in a Markdown table cell or paragraph:
/// carriage returns vanish, line feeds become spaces, pipes are escaped.
pub open spec fn escape_char(c: char) -> Seq<char> {
    if c == '\r' {
        Seq::empty()
    } else if c == '\n' {
        seq![' ']
    } else if c == '|' {
        seq!['\\', '|']
    } else {
        seq![c]
    }
}

/// `s` made safe to stand in one Markdown table cell or paragraph line.
pub open spec fn escape_cell(s: Seq<char>) -> Seq<char>
    decreases s.len(),
{
    if s.len() == 0 {
        Seq::empty()
    } else {
        escape_cell(s.drop_last()) + escape_char(s.last())
    }
}

/// Append `text`, escaped for a Markdown cell, to `md`.
fn push_escaped(md: &mut String, text: &str)
    ensures
        final(md)@ == old(md)@ + escape_cell(text@),
{
    let chars = crate::text::chars_of(text);
    let ghost base = md@;
    let mut i: usize = 0;
    while i < chars.len()
        invariant
            chars@ == text@,
            i <= chars.len(),
            md@ == base + escape_cell(text@.take(i as int)),
        decreases chars.len() - i,
    {
        let c = chars[i];
        proof {
            assert(text@.take(i + 1).drop_last() =~= text@.take(i as int));
            assert(text@.take(i + 1).last() == c);
        }
        let ghost before = md@;
        if c == '\r' {
        } else if c == '\n' {
            push_char(md, ' ');
        } else if c == '|' {
            push_char(md, '\\');
            push_char(md, '|');
        } else {
            push_char(md, c);
        }
        assert(md@ =~= before + escape_char(c));
        i = i + 1;
        assert(md@ =~= base + escape_cell(text@.take(i as int)));
    }
    assert(text@.take(i as int) =~= text@);
}

/// `text` escaped for one Markdown table cell.
pub fn escape_markdown_cell(text: &str) -> (r: String)
    ensures
        r@ == escape_cell(text@),
{
    let mut out = String::new();
    push_escaped(&mut out, text);
    assert(out@ =~= escape_cell(text@));
    out
}

/// The text of an optional value: the value, or nothing.
pub open spec fn opt_text(o: Option<Seq<char>>) -> Seq<char> {
    match o {
        Some(s) => s,
        None => Seq::empty(),
    }
}

fn opt_str(o: &Option<String>) -> (r: &str)
    ensures
        r@ == opt_text(o.deep_view()),
{
    match o {
        Some(s) => s.as_str(),
        None => {
            proof {
                reveal_strlit("");
            }
            ""
        },
    }
}

/// The attribute labels of a column, in a fixed order.
pub open spec fn attribute_labels(c: ColumnSpec) -> Seq<Seq<char>> {
    (if c.primary_key {
        seq!["PK"@]
    } else {
        Seq::empty()
    }) + (if c.auto_increment {
        seq!["AI"@]
    } else {
        Seq::empty()
    }) + (if c.unique {
        seq!["Unique"@]
    } else {
        Seq::empty()
    }) + (if c.generated {
        seq!["Generated"@]
    } else {
        Seq::empty()
    })
}

/// The attributes cell of a column: its labels joined by commas.
pub open spec fn column_attributes(c: ColumnSpec) -> Seq<char> {
    join(attribute_labels(c), ", "@)
}

fn push_label(labels: &mut Vec<String>, on: bool, label: &str)
    ensures
        final(labels).deep_view() == old(labels).deep_view() + if on {
            seq![label@]
        } else {
            Seq::empty()
        },
{
    let ghost base = labels.deep_view();
    if on {
        let s = owned(label);
        let ghost before = *labels;
        let ghost g = s;
        labels.push(s);
        proof {
            crate::model::lemma_push_deep_view(before, *labels, g);
        }
    }
    assert(labels.deep_view() =~= base + if on {
        seq![label@]
    } else {
        Seq::empty()
    });
}

fn column_attributes_exec(c: &Column) -> (r: String)
    ensures
        r@ == column_attributes(c@),
{
    let mut labels: Vec<String> = Vec::new();
    assert(labels.deep_view() =~= Seq::<Seq<char>>::empty());
    push_label(&mut labels, c.primary_key, "PK");
    push_label(&mut labels, c.auto_increment, "AI");
    push_label(&mut labels, c.unique, "Unique");
    push_label(&mut labels, c.generated, "Generated");
    assert(labels.deep_view() =~= attribute_labels(c@));
    join_strings(&labels, ", ")
}

/// A confidence given in hundredths, written as `Display` writes the
/// fraction: `1` for 100, `0.9` for 90, `0.91` for 91.
pub open spec fn confidence_text(h: u32) -> Seq<char> {
    let whole = (h / 100) as nat;
    let frac = (h % 100) as nat;
    if frac == 0 {
        decimal(whole)
    } else if frac % 10 == 0 {
        decimal(whole) + seq!['.', digit(frac / 10)]
    } else {
        decimal(whole) + seq!['.', digit(frac / 10), digit(frac % 10)]
    }
}

/// A confidence given in hundredths, written as a decimal fraction.
pub fn confidence_string(h: u32) -> (r: String)
    ensures
        r@ == confidence_text(h),
{
    let whole = (h / 100) as usize;
    let frac = (h % 100) as usize;
    let mut out = decimal_string(whole);
    if frac == 0 {
    } else if frac % 10 == 0 {
        push_char(&mut out, '.');
        push_char(&mut out, digit_char(frac / 10));
    } else {
        push_char(&mut out, '.');
        push_char(&mut out, digit_char(frac / 10));
        push_char(&mut out, digit_char(frac % 10));
    }
    assert(out@ =~= confidence_text(h));
    out
}

// ---------------------------------------------------------------------------
// Markdown
// ---------------------------------------------------------------------------

/// `yes` or `no` as `b` says.
pub open spec fn flag(b: bool, yes: Seq<char>, no: Seq<char>) -> Seq<char> {
    if b {
        yes
    } else {
        no
    }
}

/// The table row describing column `c`.
pub open spec fn column_row(c: ColumnSpec) -> Seq<char> {
    "| "@ + escape_cell(c.name) + " | "@ + escape_cell(c.full_type) + " | "@ + flag(
        c.nullable,
        "YES"@,
        "NO"@,
    ) + " | "@ + escape_cell(opt_text(c.default)) + " | "@ + escape_cell(column_attributes(c))
        + " | "@ + escape_cell(opt_text(c.comment)) + " |\n"@
}

pub open spec fn column_row_of() -> spec_fn(ColumnSpec) -> Seq<char> {
    |c: ColumnSpec| column_row(c)
}

/// The columns section of a table or view.
pub open spec fn columns_section(cols: Seq<ColumnSpec>) -> Seq<char> {
    if cols.len() == 0 {
        "\nNo columns.\n"@
    } else {
        "\n#### Columns\n\n"@ + "| Name | Type | Nullable | Default | Attributes | Comment |\n"@
            + "|---|---|---|---|---|---|\n"@ + concat_map(cols, column_row_of())
    }
}

/// The table row describing index `ix`.
pub open spec fn index_row(ix: IndexSpec) -> Seq<char> {
    "| "@ + escape_cell(ix.name) + " | "@ + escape_cell(ix.index_type) + " | "@ + flag(
        ix.unique,
        "Yes"@,
        "No"@,
    ) + " | "@ + escape_cell(join(ix.columns, ", "@)) + " |\n"@
}

pub open spec fn index_row_of() -> spec_fn(IndexSpec) -> Seq<char> {
    |ix: IndexSpec| index_row(ix)
}

/// The indexes section of a table.
pub open spec fn indexes_section(ixs: Seq<IndexSpec>) -> Seq<char> {
    if ixs.len() == 0 {
        "\nNo indexes.\n"@
    } else {
        "\n#### Indexes\n\n"@ + "| Name | Type | Unique | Columns |\n"@ + "|---|---|---|---|\n"@
            + concat_map(ixs, index_row_of())
    }
}

/// What a foreign key points at: the referenced table and its columns.
pub open spec fn referenced_text(engine: Engine, fk: ForeignKeySpec) -> Seq<char> {
    qualified_name(engine, fk.referenced_schema, fk.referenced_table) + "("@ + join(
        fk.referenced_columns,
        ", "@,
    ) + ")"@
}

/// The table row describing foreign key `fk`.
pub open spec fn foreign_key_row(engine: Engine, fk: ForeignKeySpec) -> Seq<char> {
    "| "@ + escape_cell(fk.name) + " | "@ + escape_cell(join(fk.columns, ", "@)) + " | "@
        + escape_cell(referenced_text(engine, fk)) + " | "@ + escape_cell(fk.on_update) + " | "@
        + escape_cell(fk.on_delete) + " |\n"@
}

pub open spec fn foreign_key_row_of(engine: Engine) -> spec_fn(ForeignKeySpec) -> Seq<char> {
    |fk: ForeignKeySpec| foreign_key_row(engine, fk)
}

/// The foreign keys section of a table.
pub open spec fn foreign_keys_section(engine: Engine, fks: Seq<ForeignKeySpec>) -> Seq<char> {
    if fks.len() == 0 {
        "\nNo foreign keys.\n"@
    } else {
        "\n#### Foreign Keys\n\n"@ + "| Name | Columns | Referenced | On Update | On Delete |\n"@
            + "|---|---|---|---|---|\n"@ + concat_map(fks, foreign_key_row_of(engine))
    }
}

/// One line of evidence under an analysis finding.
pub open spec fn evidence_line(e: Seq<char>) -> Seq<char> {
    "  - "@ + escape_cell(e) + "\n"@
}

pub open spec fn evidence_line_of() -> spec_fn(Seq<char>) -> Seq<char> {
    |e: Seq<char>| evidence_line(e)
}

/// An analysis finding and its evidence, as a bullet list.
pub open spec fn analysis_finding_lines(f: AnalysisFindingSpec) -> Seq<char> {
    "- **"@ + escape_cell(crate::model::kind_label(f.kind)) + "** (confidence: "@ + confidence_text(
        f.confidence,
    ) + ")\n"@ + concat_map(f.evidence, evidence_line_of())
}

pub open spec fn analysis_finding_lines_of() -> spec_fn(AnalysisFindingSpec) -> Seq<char> {
    |f: AnalysisFindingSpec| analysis_finding_lines(f)
}

/// The analysis section of a table, present when the table was analyzed.
pub open spec fn analysis_section(a: Option<TableAnalysisSpec>) -> Seq<char> {
    match a {
        Some(a) => "\n#### Analysis\n\n"@ + concat_map(a.findings, analysis_finding_lines_of()),
        None => Seq::empty(),
    }
}

/// The comment paragraph of a table, present when it has a comment.
pub open spec fn comment_paragraph(c: Option<Seq<char>>) -> Seq<char> {
    match c {
        Some(c) => "\n"@ + escape_cell(c) + "\n"@,
        None => Seq::empty(),
    }
}

/// The heading of the Markdown section of table `t`, with its comment.
pub open spec fn table_heading(engine: Engine, t: TableSpec) -> Seq<char> {
    "\n### "@ + qualified_name(engine, t.schema, t.name) + "\n"@ + comment_paragraph(t.comment)
}

/// The Markdown section of table `t`.
pub open spec fn table_markdown(engine: Engine, t: TableSpec) -> Seq<char> {
    table_heading(engine, t) + columns_section(t.columns) + indexes_section(t.indexes)
        + foreign_keys_section(engine, t.foreign_keys) + analysis_section(t.analysis)
}

/// The Markdown section of view `v`.
pub open spec fn view_markdown(engine: Engine, v: SchemaViewSpec) -> Seq<char> {
    "\n### "@ + qualified_name(engine, v.schema, v.name) + "\n"@ + columns_section(v.columns)
}

fn push_column_row(md: &mut String, column: &Column)
    ensures
        final(md)@ == old(md)@ + column_row(column@),
{
    let ghost before = md@;
    let attributes = column_attributes_exec(column);
    push_str(md, "| ");
    push_escaped(md, column.name.as_str());
    push_str(md, " | ");
    push_escaped(md, column.full_type.as_str());
    push_str(md, " | ");
    if column.nullable {
        push_str(md, "YES");
    } else {
        push_str(md, "NO");
    }
    push_str(md, " | ");
    push_escaped(md, opt_str(&column.default));
    push_str(md, " | ");
    push_escaped(md, attributes.as_str());
    push_str(md, " | ");
    push_escaped(md, opt_str(&column.comment));
    push_str(md, " |\n");
    assert(md@ =~= before + column_row(column@));
}

fn push_columns_section(md: &mut String, cols: &Vec<Column>)
    ensures
        final(md)@ == old(md)@ + columns_section(cols.deep_view()),
{
    let ghost base = md@;
    if cols.len() == 0 {
        push_str(md, "\nNo columns.\n");
        return;
    }
    push_str(md, "\n#### Columns\n\n");
    push_str(md, "| Name | Type | Nullable | Default | Attributes | Comment |\n");
    push_str(md, "|---|---|---|---|---|---|\n");
    let ghost head = md@;
    let ghost cs = cols.deep_view();
    let ghost f = column_row_of();
    let mut i: usize = 0;
    while i < cols.len()
        invariant
            cs == cols.deep_view(),
            cs.len() == cols.len(),
            f == column_row_of(),
            i <= cols.len(),
            md@ == head + concat_map(cs.take(i as int), f),
        decreases cols.len() - i,
    {
        proof {
            lemma_concat_map_step(cs, i as int, f);
        }
        push_column_row(md, &cols[i]);
        i = i + 1;
        assert(md@ =~= head + concat_map(cs.take(i as int), f));
    }
    assert(cs.take(i as int) =~= cs);
    assert(md@ =~= base + columns_section(cs));
}

fn push_indexes_section(md: &mut String, ixs: &Vec<Index>)
    ensures
        final(md)@ == old(md)@ + indexes_section(ixs.deep_view()),
{
    let ghost base = md@;
    if ixs.len() == 0 {
        push_str(md, "\nNo indexes.\n");
        return;
    }
    push_str(md, "\n#### Indexes\n\n");
    push_str(md, "| Name | Type | Unique | Columns |\n");
    push_str(md, "|---|---|---|---|\n");
    let ghost head = md@;
    let ghost xs = ixs.deep_view();
    let ghost f = index_row_of();
    let mut i: usize = 0;
    while i < ixs.len()
        invariant
            xs == ixs.deep_view(),
            xs.len() == ixs.len(),
            f == index_row_of(),
            i <= ixs.len(),
            md@ == head + concat_map(xs.take(i as int), f),
        decreases ixs.len() - i,
    {
        proof {
            lemma_concat_map_step(xs, i as int, f);
        }
        let index = &ixs[i];
        let ghost before = md@;
        push_str(md, "| ");
        push_escaped(md, index.name.as_str());
        push_str(md, " | ");
        push_escaped(md, index.index_type.as_str());
        push_str(md, " | ");
        if index.unique {
            push_str(md, "Yes");
        } else {
            push_str(md, "No");
        }
        push_str(md, " | ");
        let cols = join_strings(&index.columns, ", ");
        push_escaped(md, cols.as_str());
        push_str(md, " |\n");
        assert(md@ =~= before + index_row(index@));
        i = i + 1;
        assert(md@ =~= head + concat_map(xs.take(i as int), f));
    }
    assert(xs.take(i as int) =~= xs);
    assert(md@ =~= base + indexes_section(xs));
}

fn referenced_string(engine: Engine, fk: &ForeignKey) -> (r: String)
    ensures
        r@ == referenced_text(engine, fk@),
{
    let mut out = qualified_name_exec(
        engine,
        fk.referenced_schema.as_str(),
        fk.referenced_table.as_str(),
    );
    push_str(&mut out, "(");
    let cols = join_strings(&fk.referenced_columns, ", ");
    push_str(&mut out, cols.as_str());
    push_str(&mut out, ")");
    out
}

fn push_foreign_keys_section(md: &mut String, engine: Engine, fks: &Vec<ForeignKey>)
    ensures
        final(md)@ == old(md)@ + foreign_keys_section(engine, fks.deep_view()),
{
    let ghost base = md@;
    if fks.len() == 0 {
        push_str(md, "\nNo foreign keys.\n");
        return;
    }
    push_str(md, "\n#### Foreign Keys\n\n");
    push_str(md, "| Name | Columns | Referenced | On Update | On Delete |\n");
    push_str(md, "|---|---|---|---|---|\n");
    let ghost head = md@;
    let ghost xs = fks.deep_view();
    let ghost f = foreign_key_row_of(engine);
    let mut i: usize = 0;
    while i < fks.len()
        invariant
            xs == fks.deep_view(),
            xs.len() == fks.len(),
            f == foreign_key_row_of(engine),
            i <= fks.len(),
            md@ == head + concat_map(xs.take(i as int), f),
        decreases fks.len() - i,
    {
        proof {
            lemma_concat_map_step(xs, i as int, f);
        }
        let fk = &fks[i];
        let ghost before = md@;
        let referenced = referenced_string(engine, fk);
        push_str(md, "| ");
        push_escaped(md, fk.name.as_str());
        push_str(md, " | ");
        let cols = join_strings(&fk.columns, ", ");
        push_escaped(md, cols.as_str());
        push_str(md, " | ");
        push_escaped(md, referenced.as_str());
        push_str(md, " | ");
        push_escaped(md, fk.on_update.as_str());
        push_str(md, " | ");
        push_escaped(md, fk.on_delete.as_str());
        push_str(md, " |\n");
        assert(md@ =~= before + foreign_key_row(engine, fk@));
        i = i + 1;
        assert(md@ =~= head + concat_map(xs.take(i as int), f));
    }
    assert(xs.take(i as int) =~= xs);
    assert(md@ =~= base + foreign_keys_section(engine, xs));
}

fn push_analysis_finding(md: &mut String, finding: &crate::model::AnalysisFinding)
    ensures
        final(md)@ == old(md)@ + analysis_finding_lines(finding@),
{
    let ghost base = md@;
    push_str(md, "- **");
    push_escaped(md, finding.kind.label());
    push_str(md, "** (confidence: ");
    let c = confidence_string(finding.confidence);
    push_str(md, c.as_str());
    push_str(md, ")\n");
    let ghost head = md@;
    let ghost es = finding@.evidence;
    let ghost f = evidence_line_of();
    let mut i: usize = 0;
    while i < finding.evidence.len()
        invariant
            es == finding@.evidence,
            es.len() == finding.evidence.len(),
            f == evidence_line_of(),
            i <= finding.evidence.len(),
            md@ == head + concat_map(es.take(i as int), f),
        decreases finding.evidence.len() - i,
    {
        proof {
            lemma_concat_map_step(es, i as int, f);
        }
        let ghost before = md@;
        push_str(md, "  - ");
        push_escaped(md, finding.evidence[i].as_str());
        push_str(md, "\n");
        assert(md@ =~= before + evidence_line(es[i as int]));
        i = i + 1;
        assert(md@ =~= head + concat_map(es.take(i as int), f));
    }
    assert(es.take(i as int) =~= es);
    assert(md@ =~= base + analysis_finding_lines(finding@));
}

fn push_analysis_section(md: &mut String, analysis: &Option<crate::model::TableAnalysis>)
    ensures
        final(md)@ == old(md)@ + analysis_section(analysis.deep_view()),
{
    let ghost base = md@;
    match analysis {
        None => {
            assert(md@ =~= base + analysis_section(analysis.deep_view()));
        },
        Some(a) => {
            push_str(md, "\n#### Analysis\n\n");
            let ghost head = md@;
            let ghost fs = a@.findings;
            let ghost f = analysis_finding_lines_of();
            let mut i: usize = 0;
            while i < a.findings.len()
                invariant
                    fs == a@.findings,
                    fs.len() == a.findings.len(),
                    f == analysis_finding_lines_of(),
                    i <= a.findings.len(),
                    md@ == head + concat_map(fs.take(i as int), f),
                decreases a.findings.len() - i,
            {
                proof {
                    lemma_concat_map_step(fs, i as int, f);
                }
                push_analysis_finding(md, &a.findings[i]);
                i = i + 1;
                assert(md@ =~= head + concat_map(fs.take(i as int), f));
            }
            assert(fs.take(i as int) =~= fs);
            assert(md@ =~= base + analysis_section(analysis.deep_view()));
        },
    }
}

proof fn lemma_append5(
    base: Seq<char>,
    a: Seq<char>,
    b: Seq<char>,
    c: Seq<char>,
    d: Seq<char>,
    e: Seq<char>,
)
    ensures
        base + a + b + c + d + e == base + (a + b + c + d + e),
{
    assert(base + a + b + c + d + e =~= base + (a + b + c + d + e));
}

fn push_table_heading(md: &mut String, engine: Engine, table: &Table)
    ensures
        final(md)@ == old(md)@ + table_heading(engine, table@),
{
    let ghost base = md@;
    push_str(md, "\n### ");
    let name = qualified_name_exec(engine, table.schema.as_str(), table.name.as_str());
    push_str(md, name.as_str());
    push_str(md, "\n");
    let ghost head = md@;
    match &table.comment {
        Some(comment) => {
            push_str(md, "\n");
            push_escaped(md, comment.as_str());
            push_str(md, "\n");
            assert(md@ =~= head + comment_paragraph(table@.comment));
        },
        None => {
            assert(md@ =~= head + comment_paragraph(table@.comment));
        },
    }
    assert(md@ =~= base + table_heading(engine, table@));
}

/// Append the Markdown section of `table` to `md`.
pub fn render_table_markdown(database: &Database, table: &Table, md: &mut String)
    ensures
        final(md)@ == old(md)@ + table_markdown(database.metadata.engine, table@),
{
    let ghost base = md@;
    let engine = database.metadata.engine;
    push_table_heading(md, engine, table);
    push_columns_section(md, &table.columns);
    push_indexes_section(md, &table.indexes);
    push_foreign_keys_section(md, engine, &table.foreign_keys);
    push_analysis_section(md, &table.analysis);
    proof {
        lemma_append5(
            base,
            table_heading(engine, table@),
            columns_section(table@.columns),
            indexes_section(table@.indexes),
            foreign_keys_section(engine, table@.foreign_keys),
            analysis_section(table@.analysis),
        );
    }
}

/// Append the Markdown section of `view` to `md`.
pub fn render_view_markdown(database: &Database, view: &SchemaView, md: &mut String)
    ensures
        final(md)@ == old(md)@ + view_markdown(database.metadata.engine, view@),
{
    let ghost base = md@;
    let engine = database.metadata.engine;
    push_str(md, "\n### ");
    let name = qualified_name_exec(engine, view.schema.as_str(), view.name.as_str());
    push_str(md, name.as_str());
    push_str(md, "\n");
    push_columns_section(md, &view.columns);
    assert(md@ =~= base + view_markdown(engine, view@));
}

pub open spec fn table_markdown_of(engine: Engine) -> spec_fn(TableSpec) -> Seq<char> {
    |t: TableSpec| table_markdown(engine, t)
}

pub open spec fn view_markdown_of(engine: Engine) -> spec_fn(SchemaViewSpec) -> Seq<char> {
    |v: SchemaViewSpec| view_markdown(engine, v)
}

/// One count line of the summary.
pub open spec fn count_line(label: Seq<char>, n: nat) -> Seq<char> {
    label + decimal(n) + "\n"@
}

/// The engine line of the summary.
pub open spec fn engine_line(db: DatabaseSpec) -> Seq<char> {
    "- Engine: "@ + crate::model::engine_name(db.metadata.engine) + " "@ + db.metadata.engine_version
        + "\n"@
}

/// The title and summary of the Markdown document.
pub open spec fn markdown_summary(db: DatabaseSpec) -> Seq<char> {
    "# "@ + db.metadata.database + "\n"@ + "\n## Summary\n\n"@ + engine_line(db) + count_line(
        "- Tables: "@,
        db.tables.len(),
    ) + count_line("- Views: "@, db.views.len()) + count_line(
        "- Foreign keys: "@,
        crate::model::foreign_key_count(db.tables),
    )
}

/// The tables part of the Markdown document.
pub open spec fn markdown_tables(db: DatabaseSpec) -> Seq<char> {
    if db.tables.len() > 0 {
        "\n## Tables\n"@ + concat_map(db.tables, table_markdown_of(db.metadata.engine))
    } else {
        Seq::empty()
    }
}

/// The views part of the Markdown document.
pub open spec fn markdown_views(db: DatabaseSpec) -> Seq<char> {
    if db.views.len() > 0 {
        "\n## Views\n"@ + concat_map(db.views, view_markdown_of(db.metadata.engine))
    } else {
        Seq::empty()
    }
}

/// The whole Markdown document of `db`.
pub open spec fn markdown_of(db: DatabaseSpec) -> Seq<char> {
    markdown_summary(db) + markdown_tables(db) + markdown_views(db) + "\n"@
}

fn push_count_line(md: &mut String, label: &str, n: usize)
    ensures
        final(md)@ == old(md)@ + count_line(label@, n as nat),
{
    let ghost base = md@;
    push_str(md, label);
    let digits = decimal_string(n);
    push_str(md, digits.as_str());
    push_str(md, "\n");
    assert(md@ =~= base + count_line(label@, n as nat));
}

fn push_engine_line(md: &mut String, database: &Database)
    ensures
        final(md)@ == old(md)@ + engine_line(database@),
{
    let ghost base = md@;
    push_str(md, "- Engine: ");
    push_str(md, database.metadata.engine.name());
    push_str(md, " ");
    push_str(md, database.metadata.engine_version.as_str());
    push_str(md, "\n");
    assert(md@ =~= base + engine_line(database@));
}

fn push_markdown_summary(md: &mut String, database: &Database)
    ensures
        final(md)@ == old(md)@ + markdown_summary(database@),
{
    let ghost base = md@;
    push_str(md, "# ");
    push_str(md, database.metadata.database.as_str());
    push_str(md, "\n");
    push_str(md, "\n## Summary\n\n");
    let ghost head = md@;
    push_engine_line(md, database);
    push_count_line(md, "- Tables: ", database.tables.len());
    push_count_line(md, "- Views: ", database.views.len());
    let relationships = database.relationships();
    proof {
        crate::model::lemma_relationship_count(database@);
    }
    push_count_line(md, "- Foreign keys: ", relationships.len());
    assert(md@ =~= base + markdown_summary(database@));
}

/// Render the canonical schema model as a compact Markdown document.
///
/// Tables and views appear in the order the model holds them; after
/// [`Database::sort`] that is by schema then name, with columns by ordinal
/// position, so the output is deterministic.
pub fn render_markdown(database: &Database) -> (r: String)
    ensures
        r@ == markdown_of(database@),
{
    let engine = database.metadata.engine;
    let mut md = String::new();
    push_markdown_summary(&mut md, database);
    let ghost summary = md@;
    if database.tables.len() > 0 {
        push_str(&mut md, "\n## Tables\n");
        let ghost head = md@;
        let ghost ts = database@.tables;
        let ghost f = table_markdown_of(engine);
        let mut i: usize = 0;
        while i < database.tables.len()
            invariant
                ts == database@.tables,
                ts.len() == database.tables.len(),
                engine == database.metadata.engine,
                f == table_markdown_of(engine),
                i <= database.tables.len(),
                md@ == head + concat_map(ts.take(i as int), f),
            decreases database.tables.len() - i,
        {
            proof {
                lemma_concat_map_step(ts, i as int, f);
            }
            render_table_markdown(database, &database.tables[i], &mut md);
            i = i + 1;
            assert(md@ =~= head + concat_map(ts.take(i as int), f));
        }
        assert(ts.take(i as int) =~= ts);
    }
    assert(md@ =~= summary + markdown_tables(database@));
    let ghost with_tables = md@;
    if database.views.len() > 0 {
        push_str(&mut md, "\n## Views\n");
        let ghost head = md@;
        let ghost vs = database@.views;
        let ghost f = view_markdown_of(engine);
        let mut i: usize = 0;
        while i < database.views.len()
            invariant
                vs == database@.views,
                vs.len() == database.views.len(),
                engine == database.metadata.engine,
                f == view_markdown_of(engine),
                i <= database.views.len(),
                md@ == head + concat_map(vs.take(i as int), f),
            decreases database.views.len() - i,
        {
            proof {
                lemma_concat_map_step(vs, i as int, f);
            }
            render_view_markdown(database, &database.views[i], &mut md);
            i = i + 1;
            assert(md@ =~= head + concat_map(vs.take(i as int), f));
        }
        assert(vs.take(i as int) =~= vs);
    }
    assert(md@ =~= with_tables + markdown_views(database@));
    push_str(&mut md, "\n");
    assert(md@ =~= markdown_of(database@));
    md
}

// ---------------------------------------------------------------------------
// Mermaid
// ---------------------------------------------------------------------------

/// Whether `s` can stand in a Mermaid diagram unquoted: ASCII letters,
/// digits and underscores only.
pub open spec fn bare_identifier(s: Seq<char>) -> bool {
    forall|i: int| 0 <= i < s.len() ==> is_ascii_alnum(#[trigger] s[i]) || s[i] == '_'
}

/// `s` with each double quote escaped by a backslash.
pub open spec fn escape_quotes(s: Seq<char>) -> Seq<char>
    decreases s.len(),
{
    if s.len() == 0 {
        Seq::empty()
    } else if s.last() == '"' {
        escape_quotes(s.drop_last()) + seq!['\\', '"']
    } else {
        escape_quotes(s.drop_last()).push(s.last())
    }
}

/// A Mermaid identifier for `s`: as it is when bare, else double-quoted
/// with its inner quotes escaped.
pub open spec fn mermaid_quoted(s: Seq<char>) -> Seq<char> {
    if bare_identifier(s) {
        s
    } else {
        seq!['"'] + escape_quotes(s) + seq!['"']
    }
}

/// Quote a Mermaid identifier, escaping internal double quotes.
pub fn mermaid_quote(text: &str) -> (r: String)
    ensures
        r@ == mermaid_quoted(text@),
{
    let chars = crate::text::chars_of(text);
    let mut bare = true;
    let mut i: usize = 0;
    while i < chars.len()
        invariant
            chars@ == text@,
            i <= chars.len(),
            bare == forall|j: int| 0 <= j < i ==> is_ascii_alnum(#[trigger] text@[j]) || text@[j] == '_',
        decreases chars.len() - i,
    {
        let c = chars[i];
        if !(crate::text::char_is_ascii_alnum(c) || c == '_') {
            bare = false;
        }
        i = i + 1;
    }
    if bare {
        return owned(text);
    }
    let mut out = String::new();
    push_char(&mut out, '"');
    let ghost head = out@;
    let mut i: usize = 0;
    while i < chars.len()
        invariant
            chars@ == text@,
            i <= chars.len(),
            out@ == head + escape_quotes(text@.take(i as int)),
        decreases chars.len() - i,
    {
        let c = chars[i];
        proof {
            assert(text@.take(i + 1).drop_last() =~= text@.take(i as int));
            assert(text@.take(i + 1).last() == c);
        }
        if c == '"' {
            push_char(&mut out, '\\');
            push_char(&mut out, '"');
        } else {
            push_char(&mut out, c);
        }
        i = i + 1;
        assert(out@ =~= head + escape_quotes(text@.take(i as int)));
    }
    assert(text@.take(i as int) =~= text@);
    push_char(&mut out, '"');
    assert(out@ =~= mermaid_quoted(text@));
    out
}

/// Whether some foreign key of `t` lists column `name`.
pub open spec fn is_fk_column(t: TableSpec, name: Seq<char>) -> bool {
    exists|k: int, m: int|
        0 <= k < t.foreign_keys.len() && 0 <= m < t.foreign_keys[k].columns.len()
            && #[trigger] t.foreign_keys[k].columns[m] == name
}

/// The key labels after a column: `PK`, `FK`, both quoted, or none.
pub open spec fn key_labels(pk: bool, fk: bool) -> Seq<char> {
    if pk && fk {
        " \"PK,FK\""@
    } else if pk {
        " PK"@
    } else if fk {
        " FK"@
    } else {
        Seq::empty()
    }
}

/// The attribute line of column `c` in the entity of table `t`.
pub open spec fn mermaid_column(t: TableSpec, c: ColumnSpec) -> Seq<char> {
    "        "@ + c.data_type + " "@ + mermaid_quoted(c.name) + key_labels(
        c.primary_key,
        is_fk_column(t, c.name),
    ) + "\n"@
}

pub open spec fn mermaid_column_of(t: TableSpec) -> spec_fn(ColumnSpec) -> Seq<char> {
    |c: ColumnSpec| mermaid_column(t, c)
}

/// The entity block of table `t`.
pub open spec fn mermaid_entity(engine: Engine, t: TableSpec) -> Seq<char> {
    "    "@ + mermaid_quoted(qualified_name(engine, t.schema, t.name)) + " {\n"@ + concat_map(
        t.columns,
        mermaid_column_of(t),
    ) + "    }\n"@
}

pub open spec fn mermaid_entity_of(engine: Engine) -> spec_fn(TableSpec) -> Seq<char> {
    |t: TableSpec| mermaid_entity(engine, t)
}

/// The line drawing relationship `r`, from the referenced table to the
/// referencing one.
pub open spec fn mermaid_relationship(engine: Engine, r: RelationshipSpec) -> Seq<char> {
    "    "@ + mermaid_quoted(qualified_name(engine, r.to_schema, r.to_table)) + " ||--o{ "@
        + mermaid_quoted(qualified_name(engine, r.from_schema, r.from_table)) + " : "@
        + mermaid_quoted(r.constraint) + "\n"@
}

pub open spec fn mermaid_relationship_of(engine: Engine) -> spec_fn(RelationshipSpec) -> Seq<char> {
    |r: RelationshipSpec| mermaid_relationship(engine, r)
}

/// The whole Mermaid ER diagram of `db`.
pub open spec fn mermaid_of(db: DatabaseSpec) -> Seq<char> {
    "erDiagram\n"@ + concat_map(db.tables, mermaid_entity_of(db.metadata.engine)) + concat_map(
        relationships_of(db),
        mermaid_relationship_of(db.metadata.engine),
    ) + "\n"@
}

fn table_has_fk_column(t: &Table, name: &String) -> (r: bool)
    ensures
        r == is_fk_column(t@, name@),
{
    let mut k: usize = 0;
    while k < t.foreign_keys.len()
        invariant
            k <= t.foreign_keys.len(),
            forall|p: int, m: int|
                0 <= p < k && 0 <= m < t@.foreign_keys[p].columns.len() ==> #[trigger] t@.foreign_keys[p].columns[m]
                    != name@,
        decreases t.foreign_keys.len() - k,
    {
        let fk = &t.foreign_keys[k];
        let mut m: usize = 0;
        while m < fk.columns.len()
            invariant
                k < t.foreign_keys.len(),
                fk@ == t@.foreign_keys[k as int],
                m <= fk.columns.len(),
                forall|q: int| 0 <= q < m ==> #[trigger] fk@.columns[q] != name@,
            decreases fk.columns.len() - m,
        {
            if fk.columns[m] == *name {
                assert(t@.foreign_keys[k as int].columns[m as int] == name@);
                return true;
            }
            m = m + 1;
        }
        k = k + 1;
    }
    false
}

fn push_mermaid_entity(mmd: &mut String, engine: Engine, table: &Table)
    ensures
        final(mmd)@ == old(mmd)@ + mermaid_entity(engine, table@),
{
    let ghost base = mmd@;
    let name = qualified_name_exec(engine, table.schema.as_str(), table.name.as_str());
    let entity = mermaid_quote(name.as_str());
    push_str(mmd, "    ");
    push_str(mmd, entity.as_str());
    push_str(mmd, " {\n");
    let ghost head = mmd@;
    let ghost cs = table@.columns;
    let ghost f = mermaid_column_of(table@);
    let mut i: usize = 0;
    while i < table.columns.len()
        invariant
            cs == table@.columns,
            cs.len() == table.columns.len(),
            f == mermaid_column_of(table@),
            i <= table.columns.len(),
            mmd@ == head + concat_map(cs.take(i as int), f),
        decreases table.columns.len() - i,
    {
        proof {
            lemma_concat_map_step(cs, i as int, f);
        }
        let column = &table.columns[i];
        let ghost before = mmd@;
        push_str(mmd, "        ");
        push_str(mmd, column.data_type.as_str());
        push_str(mmd, " ");
        let quoted = mermaid_quote(column.name.as_str());
        push_str(mmd, quoted.as_str());
        let pk = column.primary_key;
        let fk = table_has_fk_column(table, &column.name);
        if pk && fk {
            push_str(mmd, " \"PK,FK\"");
        } else if pk {
            push_str(mmd, " PK");
        } else if fk {
            push_str(mmd, " FK");
        }
        proof {
            reveal_strlit("");
        }
        push_str(mmd, "\n");
        assert(mmd@ =~= before + mermaid_column(table@, column@));
        i = i + 1;
        assert(mmd@ =~= head + concat_map(cs.take(i as int), f));
    }
    assert(cs.take(i as int) =~= cs);
    push_str(mmd, "    }\n");
    assert(mmd@ =~= base + mermaid_entity(engine, table@));
}

fn push_mermaid_relationship(mmd: &mut String, engine: Engine, r: &Relationship)
    ensures
        final(mmd)@ == old(mmd)@ + mermaid_relationship(engine, r@),
{
    let ghost base = mmd@;
    let to = qualified_name_exec(engine, r.to_schema.as_str(), r.to_table.as_str());
    let from = qualified_name_exec(engine, r.from_schema.as_str(), r.from_table.as_str());
    let to_q = mermaid_quote(to.as_str());
    let from_q = mermaid_quote(from.as_str());
    let constraint_q = mermaid_quote(r.constraint.as_str());
    push_str(mmd, "    ");
    push_str(mmd, to_q.as_str());
    push_str(mmd, " ||--o{ ");
    push_str(mmd, from_q.as_str());
    push_str(mmd, " : ");
    push_str(mmd, constraint_q.as_str());
    push_str(mmd, "\n");
    assert(mmd@ =~= base + mermaid_relationship(engine, r@));
}

/// Render the canonical schema model as a deterministic Mermaid ER diagram.
///
/// Tables become entities, columns become attributes with PK/FK labels, and
/// foreign keys become relationships from the referenced table to the
/// referencing table. Identifiers are double-quoted when they hold anything
/// but ASCII letters, digits and underscores, so schema-qualified SQL Server
/// names stay valid Mermaid syntax.
pub fn render_mermaid(database: &Database) -> (r: String)
    ensures
        r@ == mermaid_of(database@),
{
    let engine = database.metadata.engine;
    let mut mmd = owned("erDiagram\n");
    let ghost head = mmd@;
    let ghost ts = database@.tables;
    let ghost f = mermaid_entity_of(engine);
    let mut i: usize = 0;
    while i < database.tables.len()
        invariant
            ts == database@.tables,
            ts.len() == database.tables.len(),
            engine == database.metadata.engine,
            f == mermaid_entity_of(engine),
            i <= database.tables.len(),
            mmd@ == head + concat_map(ts.take(i as int), f),
        decreases database.tables.len() - i,
    {
        proof {
            lemma_concat_map_step(ts, i as int, f);
        }
        push_mermaid_entity(&mut mmd, engine, &database.tables[i]);
        i = i + 1;
        assert(mmd@ =~= head + concat_map(ts.take(i as int), f));
    }
    assert(ts.take(i as int) =~= ts);
    let ghost mid = mmd@;
    let relationships = database.relationships();
    let ghost rs = relationships.deep_view();
    let ghost g = mermaid_relationship_of(engine);
    let mut j: usize = 0;
    while j < relationships.len()
        invariant
            rs == relationships.deep_view(),
            rs.len() == relationships.len(),
            g == mermaid_relationship_of(engine),
            j <= relationships.len(),
            mmd@ == mid + concat_map(rs.take(j as int), g),
        decreases relationships.len() - j,
    {
        proof {
            lemma_concat_map_step(rs, j as int, g);
        }
        push_mermaid_relationship(&mut mmd, engine, &relationships[j]);
        j = j + 1;
        assert(mmd@ =~= mid + concat_map(rs.take(j as int), g));
    }
    assert(rs.take(j as int) =~= rs);
    push_str(&mut mmd, "\n");
    assert(mmd@ =~= mermaid_of(database@));
    mmd
}

// ---------------------------------------------------------------------------
// Errors and options
// ---------------------------------------------------------------------------

/// Why an export could not complete.
#[derive(Debug)]
pub enum ExportError {
    /// A value could not be serialized to JSON; the serializer's message.
    Serialization(String),
    /// A file could not be written.
    Io {
        /// File the export was writing.
        path: String,
        /// What the operating system reported.
        source: String,
    },
    /// The destination already exists and `--overwrite` was not given.
    OutputExists {
        /// File or directory that would be overwritten.
        path: String,
    },
}

/// The message an export error is reported with.
pub open spec fn export_error_text(e: ExportError) -> Seq<char> {
    match e {
        ExportError::Serialization(d) => "could not serialize JSON: "@ + d@,
        ExportError::Io { path, source } => "could not write `"@ + path@ + "`: "@ + source@,
        ExportError::OutputExists { path } => "`"@ + path@
            + "` already exists; use --overwrite to replace it"@,
    }
}

impl ExportError {
    /// The failure to write `path`, as the operating system reported it.
    pub fn io(path: &str, source: &str) -> (r: Self)
        ensures
            r matches ExportError::Io { path: p, source: s } && p@ == path@ && s@ == source@,
    {
        ExportError::Io { path: owned(path), source: owned(source) }
    }

    /// The refusal to replace `path`.
    pub fn output_exists(path: &str) -> (r: Self)
        ensures
            r matches ExportError::OutputExists { path: p } && p@ == path@,
    {
        ExportError::OutputExists { path: owned(path) }
    }

    /// The message this error is reported with.
    pub fn to_string(&self) -> (r: String)
        ensures
            r@ == export_error_text(*self),
    {
        match self {
            ExportError::Serialization(d) => {
                let mut out = owned("could not serialize JSON: ");
                push_str(&mut out, d.as_str());
                out
            },
            ExportError::Io { path, source } => {
                let mut out = owned("could not write `");
                push_str(&mut out, path.as_str());
                push_str(&mut out, "`: ");
                push_str(&mut out, source.as_str());
                out
            },
            ExportError::OutputExists { path } => {
                let mut out = owned("`");
                push_str(&mut out, path.as_str());
                push_str(&mut out, "` already exists; use --overwrite to replace it");
                out
            },
        }
    }
}

/// What an export writes and where.
pub struct ExportOptions {
    /// Directory to write artifacts into.
    pub output: String,
    /// Write `schema.json` to stdout instead of the directory.
    pub stdout: bool,
    /// Replace existing files.
    pub overwrite: bool,
    /// Skip the JSON documents.
    pub no_json: bool,
    /// Skip the Markdown document.
    pub no_markdown: bool,
    /// Skip per-table files.
    pub no_tables: bool,
    /// Skip the Mermaid ER diagram.
    pub no_mermaid: bool,
}

impl Default for ExportOptions {
    /// Every artifact, under `.ai/dbctx`, replacing nothing.
    fn default() -> (r: Self)
        ensures
            r.output@ == ".ai/dbctx"@,
            !r.stdout && !r.overwrite && !r.no_json && !r.no_markdown && !r.no_tables
                && !r.no_mermaid,
    {
        ExportOptions {
            output: owned(".ai/dbctx"),
            stdout: false,
            overwrite: false,
            no_json: false,
            no_markdown: false,
            no_tables: false,
            no_mermaid: false,
        }
    }
}

// ---------------------------------------------------------------------------
// What an export writes
// ---------------------------------------------------------------------------

/// A document an export writes.
#[derive(Debug, Clone, Copy, PartialEq, Eq, Structural)]
pub enum Artifact {
    /// The schema document.
    Schema,
    /// The relationships document.
    Relationships,
    /// The metadata document.
    Metadata,
    /// The document of the table at this position.
    Table(usize),
    /// The Markdown document.
    Markdown,
    /// The Mermaid ER diagram.
    Mermaid,
}

/// What an export does, decided before anything is written.
#[derive(Debug)]
pub enum ExportPlan {
    /// Every artifact is switched off: nothing is created or written.
    Nothing,
    /// Write this document, if any, to standard output.
    Stdout(Option<Artifact>),
    /// Create the output directory; unless `overwrite`, refuse when any of
    /// the guarded entries is already there; create its `tables`
    /// directory when `with_tables`; then write each of `files`.
    Directory {
        /// Whether existing output may be replaced.
        overwrite: bool,
        /// Whether the `tables` directory is created.
        with_tables: bool,
        /// The documents to write, in order.
        files: Vec<Artifact>,
    },
}

/// Whether `o` switches every artifact off.
pub open spec fn nothing_enabled(o: ExportOptions) -> bool {
    o.no_json && o.no_markdown && o.no_tables && o.no_mermaid
}

/// The one document written to standard output: the schema document,
/// else the Markdown, else the diagram, as far as they are enabled.
pub open spec fn stdout_artifact(o: ExportOptions) -> Option<Artifact> {
    if !o.no_json {
        Some(Artifact::Schema)
    } else if !o.no_markdown {
        Some(Artifact::Markdown)
    } else if !o.no_mermaid {
        Some(Artifact::Mermaid)
    } else {
        None
    }
}

/// The documents written to a directory for a model of `n` tables: the
/// three JSON documents and one per table, the Markdown document and the
/// diagram, each as far as it is enabled.
pub open spec fn planned_files(n: nat, o: ExportOptions) -> Seq<Artifact> {
    (if !o.no_json {
        seq![Artifact::Schema, Artifact::Relationships, Artifact::Metadata] + (if !o.no_tables {
            Seq::new(n, |i: int| Artifact::Table(i as usize))
        } else {
            Seq::empty()
        })
    } else {
        Seq::empty()
    }) + (if !o.no_markdown {
        seq![Artifact::Markdown]
    } else {
        Seq::empty()
    }) + (if !o.no_mermaid {
        seq![Artifact::Mermaid]
    } else {
        Seq::empty()
    })
}

/// Decide what exporting `database` with `options` writes.
pub fn export_plan(database: &Database, options: &ExportOptions) -> (r: ExportPlan)
    ensures
        nothing_enabled(*options) ==> r is Nothing,
        !nothing_enabled(*options) && options.stdout ==> r == ExportPlan::Stdout(
            stdout_artifact(*options),
        ),
        !nothing_enabled(*options) && !options.stdout ==> (r matches ExportPlan::Directory {
            overwrite,
            with_tables,
            files,
        } && overwrite == options.overwrite && with_tables == (!options.no_json
            && !options.no_tables) && files@ == planned_files(database.tables.len() as nat, *options)),
{
    if options.no_json && options.no_markdown && options.no_tables && options.no_mermaid {
        return ExportPlan::Nothing;
    }
    if options.stdout {
        let chosen = if !options.no_json {
            Some(Artifact::Schema)
        } else if !options.no_markdown {
            Some(Artifact::Markdown)
        } else if !options.no_mermaid {
            Some(Artifact::Mermaid)
        } else {
            None
        };
        return ExportPlan::Stdout(chosen);
    }
    let mut files: Vec<Artifact> = Vec::new();
    let ghost n = database.tables.len() as nat;
    if !options.no_json {
        files.push(Artifact::Schema);
        files.push(Artifact::Relationships);
        files.push(Artifact::Metadata);
        if !options.no_tables {
            let mut k: usize = 0;
            while k < database.tables.len()
                invariant
                    k <= database.tables.len(),
                    files@ == seq![Artifact::Schema, Artifact::Relationships, Artifact::Metadata]
                        + Seq::new(k as nat, |i: int| Artifact::Table(i as usize)),
                decreases database.tables.len() - k,
            {
                files.push(Artifact::Table(k));
                k = k + 1;
                assert(files@ =~= seq![Artifact::Schema, Artifact::Relationships, Artifact::Metadata]
                    + Seq::new(k as nat, |i: int| Artifact::Table(i as usize)));
            }
        } else {
            assert(files@ =~= seq![Artifact::Schema, Artifact::Relationships, Artifact::Metadata]
                + Seq::<Artifact>::empty());
        }
    }
    let ghost json = files@;
    if !options.no_markdown {
        files.push(Artifact::Markdown);
    }
    let ghost with_markdown = files@;
    if !options.no_mermaid {
        files.push(Artifact::Mermaid);
    }
    proof {
        assert(json =~= (if !options.no_json {
            seq![Artifact::Schema, Artifact::Relationships, Artifact::Metadata] + (if !options.no_tables {
                Seq::new(n, |i: int| Artifact::Table(i as usize))
            } else {
                Seq::empty()
            })
        } else {
            Seq::empty()
        }));
        assert(files@ =~= planned_files(n, *options));
    }
    ExportPlan::Directory {
        overwrite: options.overwrite,
        with_tables: !options.no_json && !options.no_tables,
        files,
    }
}

/// Where under the output directory an artifact of `db` is written.
pub open spec fn artifact_path(db: DatabaseSpec, a: Artifact) -> Seq<char> {
    match a {
        Artifact::Schema => "schema.json"@,
        Artifact::Relationships => "relationships.json"@,
        Artifact::Metadata => "metadata.json"@,
        Artifact::Table(k) => "tables/"@ + qualified_name(
            db.metadata.engine,
            db.tables[k as int].schema,
            db.tables[k as int].name,
        ) + ".json"@,
        Artifact::Markdown => "schema.md"@,
        Artifact::Mermaid => "graph.mmd"@,
    }
}

/// The path under the output directory that `artifact` is written to.
pub fn artifact_file(database: &Database, artifact: Artifact) -> (r: String)
    requires
        artifact matches Artifact::Table(k) ==> k < database.tables.len(),
    ensures
        r@ == artifact_path(database@, artifact),
{
    match artifact {
        Artifact::Schema => owned("schema.json"),
        Artifact::Relationships => owned("relationships.json"),
        Artifact::Metadata => owned("metadata.json"),
        Artifact::Table(k) => {
            let mut out = owned("tables/");
            let stem = table_file_name(database, &database.tables[k]);
            push_str(&mut out, stem.as_str());
            push_str(&mut out, ".json");
            out
        },
        Artifact::Markdown => owned("schema.md"),
        Artifact::Mermaid => owned("graph.mmd"),
    }
}

/// The entries of an output directory whose presence means an earlier
/// export is there, which only `--overwrite` may replace.
pub open spec fn guarded_names() -> Seq<Seq<char>> {
    seq![
        "schema.json"@,
        "schema.md"@,
        "graph.mmd"@,
        "relationships.json"@,
        "metadata.json"@,
        "tables"@,
    ]
}

/// The entries an export refuses to replace unless asked to.
pub fn guarded_entries() -> (r: Vec<String>)
    ensures
        r.deep_view() == guarded_names(),
{
    let r = vec![
        owned("schema.json"),
        owned("schema.md"),
        owned("graph.mmd"),
        owned("relationships.json"),
        owned("metadata.json"),
        owned("tables"),
    ];
    assert(r.deep_view() =~= guarded_names());
    r
}

/// Whether an export into the directory `output` may go on, given whether
/// any guarded entry is already there: earlier output is replaced only when
/// `overwrite` asks for it, and is otherwise refused.
pub fn refuse_existing_output(output: &str, overwrite: bool, existing: bool) -> (r: Result<
    (),
    ExportError,
>)
    ensures
        match r {
            Ok(()) => overwrite || !existing,
            Err(e) => !overwrite && existing && (e matches ExportError::OutputExists { path }
                && path@ == output@),
        },
{
    if !overwrite && existing {
        Err(ExportError::output_exists(output))
    } else {
        Ok(())
    }
}

/// The start of a column's Markdown row: its name cell and its type cell.
pub open spec fn row_start(c: ColumnSpec) -> Seq<char> {
    "| "@ + escape_cell(c.name) + " | "@ + escape_cell(c.full_type) + " | "@
}

/// What the Nullable cell of a column's row says.
pub open spec fn nullable_word(nullable: bool) -> Seq<char> {
    if nullable {
        "YES"@
    } else {
        "NO"@
    }
}

/// The Nullable cell of a column's Markdown row, the third cell after the
/// name and the type, reads `YES` exactly when the column is nullable and
/// `NO` exactly when it is not, whatever its default, keys or comment.
pub proof fn law_nullable_cell_follows_nullable(c: ColumnSpec)
    ensures
        column_row(c).len() >= row_start(c).len() + nullable_word(c.nullable).len() + 3,
        column_row(c).take((row_start(c).len() + nullable_word(c.nullable).len() + 3) as int) == row_start(c)
            + nullable_word(c.nullable) + " | "@,
{
    reveal_strlit(" | ");
    let pre = row_start(c) + nullable_word(c.nullable) + " | "@;
    let rest = escape_cell(opt_text(c.default)) + " | "@ + escape_cell(column_attributes(c)) + " | "@
        + escape_cell(opt_text(c.comment)) + " |\n"@;
    assert(column_row(c) =~= pre + rest);
    assert((pre + rest).take(pre.len() as int) =~= pre);
}

/// The attributes cell of a column names `PK` exactly when it is part of
/// the primary key, `AI` exactly when it auto-increments, `Unique` exactly
/// when it is unique and `Generated` exactly when it is generated, in that
/// order, separated by commas.
pub proof fn law_attribute_labels_follow_the_flags(c: ColumnSpec)
    ensures
        attribute_labels(c).contains("PK"@) <==> c.primary_key,
        attribute_labels(c).contains("AI"@) <==> c.auto_increment,
        attribute_labels(c).contains("Unique"@) <==> c.unique,
        attribute_labels(c).contains("Generated"@) <==> c.generated,
        attribute_labels(c).len() == (if c.primary_key { 1int } else { 0int }) + (if c.auto_increment {
            1int
        } else {
            0int
        }) + (if c.unique { 1int } else { 0int }) + (if c.generated { 1int } else { 0int }),
        column_attributes(c) == join(attribute_labels(c), ", "@),
{
    reveal_strlit("PK");
    reveal_strlit("AI");
    reveal_strlit("Unique");
    reveal_strlit("Generated");
    let a = if c.primary_key { seq!["PK"@] } else { Seq::<Seq<char>>::empty() };
    let b = if c.auto_increment { seq!["AI"@] } else { Seq::<Seq<char>>::empty() };
    let u = if c.unique { seq!["Unique"@] } else { Seq::<Seq<char>>::empty() };
    let g = if c.generated { seq!["Generated"@] } else { Seq::<Seq<char>>::empty() };
    let l = attribute_labels(c);
    assert(l == a + b + u + g);
    assert("PK"@ != "AI"@ && "PK"@ != "Unique"@ && "PK"@ != "Generated"@) by {
        assert("PK"@.len() != "AI"@.len() || "PK"@[0] != "AI"@[0]);
    }
    assert("AI"@ != "Unique"@ && "AI"@ != "Generated"@ && "Unique"@ != "Generated"@) by {
        assert("AI"@.len() != "Unique"@.len());
        assert("AI"@.len() != "Generated"@.len());
        assert("Unique"@.len() != "Generated"@.len());
    }
    assert forall|x: Seq<char>| l.contains(x) <==> (a.contains(x) || b.contains(x) || u.contains(x)
        || g.contains(x)) by {
        if l.contains(x) {
            let k = choose|k: int| 0 <= k < l.len() && l[k] == x;
            if k < a.len() {
                assert(a[k] == x);
            } else if k < a.len() + b.len() {
                assert(b[k - a.len()] == x);
            } else if k < a.len() + b.len() + u.len() {
                assert(u[k - a.len() - b.len()] == x);
            } else {
                assert(g[k - a.len() - b.len() - u.len()] == x);
            }
        }
        if a.contains(x) {
            assert(l[0] == x);
        }
        if b.contains(x) {
            assert(l[a.len() as int] == x);
        }
        if u.contains(x) {
            assert(l[(a.len() + b.len()) as int] == x);
        }
        if g.contains(x) {
            assert(l[(a.len() + b.len() + u.len()) as int] == x);
        }
    }
    if c.primary_key {
        assert(a[0] == "PK"@);
    }
    if c.auto_increment {
        assert(b[0] == "AI"@);
    }
    if c.unique {
        assert(u[0] == "Unique"@);
    }
    if c.generated {
        assert(g[0] == "Generated"@);
    }
}

/// A column's Markdown row holds, cell by cell: its name, its full type,
/// `YES` or `NO` for whether it is nullable, its default (empty when it
/// has none), its attribute labels and its comment (empty when it has
/// none), each made safe for a table cell.
pub proof fn law_column_row_cells(c: ColumnSpec)
    ensures
        column_row(c) == "| "@ + escape_cell(c.name) + " | "@ + escape_cell(c.full_type) + " | "@
            + nullable_word(c.nullable) + " | "@ + escape_cell(
            match c.default {
                Some(d) => d,
                None => Seq::empty(),
            },
        ) + " | "@ + escape_cell(join(attribute_labels(c), ", "@)) + " | "@ + escape_cell(
            match c.comment {
                Some(d) => d,
                None => Seq::empty(),
            },
        ) + " |\n"@,
{
}

/// The Unique cell of an index's Markdown row, after its name and type,
/// reads `Yes` exactly when the index is unique and `No` otherwise; the
/// last cell lists its columns in order.
pub proof fn law_index_row_cells(ix: IndexSpec)
    ensures
        index_row(ix) == "| "@ + escape_cell(ix.name) + " | "@ + escape_cell(ix.index_type) + " | "@
            + (if ix.unique {
            "Yes"@
        } else {
            "No"@
        }) + " | "@ + escape_cell(join(ix.columns, ", "@)) + " |\n"@,
{
}

/// A column's line in the Mermaid diagram: its type, its quoted name, and
/// `PK` when it is part of the primary key, `FK` when some foreign key of
/// its table lists it, `"PK,FK"` when both.
pub proof fn law_mermaid_column_marks_keys(t: TableSpec, c: ColumnSpec)
    ensures
        ({
            let fk = exists|k: int, m: int|
                0 <= k < t.foreign_keys.len() && 0 <= m < t.foreign_keys[k].columns.len()
                    && #[trigger] t.foreign_keys[k].columns[m] == c.name;
            mermaid_column(t, c) == "        "@ + c.data_type + " "@ + mermaid_quoted(c.name) + (if c.primary_key
                && fk {
                " \"PK,FK\""@
            } else if c.primary_key {
                " PK"@
            } else if fk {
                " FK"@
            } else {
                Seq::empty()
            }) + "\n"@
        }),
{
}

/// A relationship's line in the Mermaid diagram is drawn from the
/// referenced table to the referencing one, labelled with its constraint.
pub proof fn law_mermaid_relationship_points_from_the_referenced_table(engine: Engine, r: RelationshipSpec)
    ensures
        mermaid_relationship(engine, r) == "    "@ + mermaid_quoted(qualified_name(engine, r.to_schema, r.to_table))
            + " ||--o{ "@ + mermaid_quoted(qualified_name(engine, r.from_schema, r.from_table)) + " : "@
            + mermaid_quoted(r.constraint) + "\n"@,
{
}

/// What a directory export writes for a model of `n` tables: the schema,
/// relationships and metadata documents exactly when JSON is on; the
/// document of table `k` exactly when JSON and per-table documents are on
/// and `k` is a table's position; the Markdown exactly when it is on; the
/// diagram exactly when it is on; each at most once.
pub proof fn law_planned_files_follow_the_switches(n: nat, o: ExportOptions, a: Artifact)
    ensures
        planned_files(n, o).contains(a) <==> match a {
            Artifact::Schema | Artifact::Relationships | Artifact::Metadata => !o.no_json,
            Artifact::Table(k) => !o.no_json && !o.no_tables && (k as nat) < n,
            Artifact::Markdown => !o.no_markdown,
            Artifact::Mermaid => !o.no_mermaid,
        },
        n <= usize::MAX ==> forall|i: int, j: int|
            0 <= i < j < planned_files(n, o).len() ==> #[trigger] planned_files(n, o)[i]
                != #[trigger] planned_files(n, o)[j],
{
    let js = if !o.no_json {
        seq![Artifact::Schema, Artifact::Relationships, Artifact::Metadata] + (if !o.no_tables {
            Seq::new(n, |i: int| Artifact::Table(i as usize))
        } else {
            Seq::empty()
        })
    } else {
        Seq::<Artifact>::empty()
    };
    let md = if !o.no_markdown {
        seq![Artifact::Markdown]
    } else {
        Seq::<Artifact>::empty()
    };
    let mm = if !o.no_mermaid {
        seq![Artifact::Mermaid]
    } else {
        Seq::<Artifact>::empty()
    };
    let p = planned_files(n, o);
    assert(p == js + md + mm);
    let tb = if !o.no_tables {
        Seq::new(n, |i: int| Artifact::Table(i as usize))
    } else {
        Seq::<Artifact>::empty()
    };
    assert(forall|i: int| 0 <= i < tb.len() ==> (#[trigger] tb[i]) == Artifact::Table(i as usize));
    assert(tb.len() <= n);
    // Where each artifact stands in the plan.
    let jl = js.len() as int;
    let ml = md.len() as int;
    assert forall|i: int| 0 <= i < p.len() implies (#[trigger] p[i]) == (if i < jl {
        js[i]
    } else if i < jl + ml {
        md[i - jl]
    } else {
        mm[i - jl - ml]
    }) by {}
    if !o.no_json {
        assert(js[0] == Artifact::Schema && js[1] == Artifact::Relationships && js[2] == Artifact::Metadata);
        assert(forall|i: int| 3 <= i < jl ==> js[i] == tb[i - 3]);
    }
    match a {
        Artifact::Schema => {
            if !o.no_json {
                assert(p[0] == a);
            }
        },
        Artifact::Relationships => {
            if !o.no_json {
                assert(p[1] == a);
            }
        },
        Artifact::Metadata => {
            if !o.no_json {
                assert(p[2] == a);
            }
        },
        Artifact::Table(k) => {
            if !o.no_json && !o.no_tables && (k as nat) < n {
                assert(tb[k as int] == a);
                assert(p[3 + k as int] == a);
            }
            if p.contains(a) {
                let i = choose|i: int| 0 <= i < p.len() && p[i] == a;
                assert(i < jl);
                assert(!o.no_json);
                assert(3 <= i);
                assert(tb[i - 3] == a);
            }
        },
        Artifact::Markdown => {
            if !o.no_markdown {
                assert(p[jl] == a);
            }
        },
        Artifact::Mermaid => {
            if !o.no_mermaid {
                assert(p[jl + ml] == a);
            }
        },
    }
    if n <= usize::MAX {
        assert forall|i: int, j: int| 0 <= i < j < p.len() implies #[trigger] p[i] != #[trigger] p[j] by {
            if i < jl && j < jl && 3 <= i {
                assert(tb[i - 3] == Artifact::Table((i - 3) as usize));
                assert(tb[j - 3] == Artifact::Table((j - 3) as usize));
            }
        }
    }
}

/// On standard output one document is written: the schema document when
/// JSON is on; otherwise the Markdown when it is on; otherwise the diagram
/// when it is on; otherwise none.
pub proof fn law_stdout_writes_the_first_enabled_document(o: ExportOptions)
    ensures
        !o.no_json ==> stdout_artifact(o) == Some(Artifact::Schema),
        o.no_json && !o.no_markdown ==> stdout_artifact(o) == Some(Artifact::Markdown),
        o.no_json && o.no_markdown && !o.no_mermaid ==> stdout_artifact(o) == Some(Artifact::Mermaid),
        o.no_json && o.no_markdown && o.no_mermaid ==> stdout_artifact(o) is None,
{
}

/// Where each document goes under the output directory: `schema.json`,
/// `relationships.json`, `metadata.json`, `schema.md`, `graph.mmd`, and
/// for a table `tables/<its qualified name>.json`; and these are the
/// names an export refuses to overwrite, with the `tables` directory.
pub proof fn law_documents_have_fixed_names(db: DatabaseSpec, k: usize)
    ensures
        artifact_path(db, Artifact::Schema) == "schema.json"@,
        artifact_path(db, Artifact::Relationships) == "relationships.json"@,
        artifact_path(db, Artifact::Metadata) == "metadata.json"@,
        artifact_path(db, Artifact::Markdown) == "schema.md"@,
        artifact_path(db, Artifact::Mermaid) == "graph.mmd"@,
        (k as int) < db.tables.len() ==> artifact_path(db, Artifact::Table(k)) == "tables/"@ + qualified_name(
            db.metadata.engine,
            db.tables[k as int].schema,
            db.tables[k as int].name,
        ) + ".json"@,
        guarded_names().to_set() == set![
            "schema.json"@,
            "schema.md"@,
            "graph.mmd"@,
            "relationships.json"@,
            "metadata.json"@,
            "tables"@,
        ],
{
    let g = guarded_names();
    assert(g.to_set() =~= set![
        "schema.json"@,
        "schema.md"@,
        "graph.mmd"@,
        "relationships.json"@,
        "metadata.json"@,
        "tables"@,
    ]) by {
        assert forall|x: Seq<char>| g.to_set().contains(x) <==> g.contains(x) by {}
        assert(g[0] == "schema.json"@ && g[1] == "schema.md"@ && g[2] == "graph.mmd"@);
        assert(g[3] == "relationships.json"@ && g[4] == "metadata.json"@ && g[5] == "tables"@);
    }
}

} // verus!
