//! Optional AI-labelled context over the canonical schema model.
//!
//! This layer reads the factual metadata and any analysis findings and
//! writes human-readable summaries, relationship narratives and entry-point
//! suggestions. It is deterministic and makes no outbound calls, but every
//! context it produces is marked as generated.
use vstd::prelude::*;

use crate::analysis::{primary_key_columns, primary_key_names};
use crate::export::{qualified_name, qualified_name_exec};
use crate::model::{
    concat_map, kind_label, lemma_concat_map_step, relationships_of, AiContext, AiContextSpec,
    AnalysisFindingSpec, Database, DatabaseSpec, Engine, ForeignKeySpec, Relationship,
    RelationshipSpec, Table, TableAnalysis, TableAnalysisSpec, TableSpec,
};
use crate::text::{decimal, decimal_string, join, join_strings, owned, push_str};

verus! {

/// The note naming a table that `t` references through `fk`.
pub open spec fn outgoing_note(engine: Engine, fk: ForeignKeySpec) -> Seq<Seq<char>> {
    seq![
        "References "@ + qualified_name(engine, fk.referenced_schema, fk.referenced_table)
            + " through "@ + join(fk.columns, ", "@) + "."@,
    ]
}

pub open spec fn outgoing_note_of(engine: Engine) -> spec_fn(ForeignKeySpec) -> Seq<Seq<char>> {
    |fk: ForeignKeySpec| outgoing_note(engine, fk)
}

/// The note naming a table that references `t` through `r`, when `r` points
/// at `t`.
pub open spec fn incoming_note(engine: Engine, t: TableSpec, r: RelationshipSpec) -> Seq<
    Seq<char>,
> {
    if r.to_schema == t.schema && r.to_table == t.name {
        seq![
            "Referenced by "@ + qualified_name(engine, r.from_schema, r.from_table) + " through "@
                + join(r.from_columns, ", "@) + "."@,
        ]
    } else {
        Seq::empty()
    }
}

pub open spec fn incoming_note_of(engine: Engine, t: TableSpec) -> spec_fn(RelationshipSpec) -> Seq<
    Seq<char>,
> {
    |r: RelationshipSpec| incoming_note(engine, t, r)
}

/// The note suggesting the primary key as an entry point, when there is one.
pub open spec fn primary_key_note(t: TableSpec) -> Seq<Seq<char>> {
    let pk = primary_key_names(t.columns);
    if pk.len() > 0 {
        seq!["Start queries from the primary key ("@ + join(pk, ", "@) + ")."@]
    } else {
        Seq::empty()
    }
}

/// The note suggesting a join along `fk`.
pub open spec fn join_note(engine: Engine, fk: ForeignKeySpec) -> Seq<Seq<char>> {
    seq![
        "Join from "@ + qualified_name(engine, fk.referenced_schema, fk.referenced_table) + " via "@
            + join(fk.columns, ", "@) + "."@,
    ]
}

pub open spec fn join_note_of(engine: Engine) -> spec_fn(ForeignKeySpec) -> Seq<Seq<char>> {
    |fk: ForeignKeySpec| join_note(engine, fk)
}

/// The parts of a table's summary sentence.
pub open spec fn summary_parts(t: TableSpec) -> Seq<Seq<char>> {
    seq!["Table `"@ + t.name + "` has "@ + decimal(t.columns.len()) + " columns"@] + (if t.indexes.len()
        > 0 {
        seq![decimal(t.indexes.len()) + " indexes"@]
    } else {
        Seq::empty()
    }) + (if t.foreign_keys.len() > 0 {
        seq![decimal(t.foreign_keys.len()) + " foreign keys"@]
    } else {
        Seq::empty()
    })
}

/// The labels of a list of analysis findings.
pub open spec fn finding_labels(fs: Seq<AnalysisFindingSpec>) -> Seq<Seq<char>> {
    fs.map_values(|f: AnalysisFindingSpec| kind_label(f.kind))
}

/// The sentence naming what analysis suggests, when it suggests anything.
pub open spec fn analysis_sentence(a: Option<TableAnalysisSpec>) -> Seq<char> {
    match a {
        Some(a) => if a.findings.len() > 0 {
            " Analysis suggests: "@ + join(finding_labels(a.findings), ", "@) + "."@
        } else {
            Seq::empty()
        },
        None => Seq::empty(),
    }
}

/// The summary of table `t`.
pub open spec fn table_summary(t: TableSpec) -> Seq<char> {
    join(summary_parts(t), ", "@) + "."@ + analysis_sentence(t.analysis)
}

/// The notes about table `t`: what it references, what references it
/// (among `rels`), where to start, and where to join from.
pub open spec fn table_notes(engine: Engine, t: TableSpec, rels: Seq<RelationshipSpec>) -> Seq<
    Seq<char>,
> {
    concat_map(t.foreign_keys, outgoing_note_of(engine)) + concat_map(
        rels,
        incoming_note_of(engine, t),
    ) + primary_key_note(t) + concat_map(t.foreign_keys, join_note_of(engine))
}

/// The generated context of table `t`.
pub open spec fn table_context(engine: Engine, t: TableSpec, rels: Seq<RelationshipSpec>) -> AiContextSpec {
    AiContextSpec {
        generated: true,
        confidence: 91,
        summary: table_summary(t),
        notes: table_notes(engine, t, rels),
    }
}

/// `db` with a generated context on every table.
pub open spec fn generated_database(db: DatabaseSpec) -> DatabaseSpec {
    DatabaseSpec {
        tables: db.tables.map_values(
            |t: TableSpec|
                TableSpec {
                    ai: Some(table_context(db.metadata.engine, t, relationships_of(db))),
                    ..t
                },
        ),
        ..db
    }
}

fn push_note(notes: &mut Vec<String>, s: String)
    ensures
        final(notes).deep_view() == old(notes).deep_view().push(s@),
{
    let ghost before = *notes;
    let ghost g = s;
    notes.push(s);
    proof {
        crate::model::lemma_push_deep_view(before, *notes, g);
    }
}

fn fk_notes(engine: Engine, t: &Table, joins: bool, notes: &mut Vec<String>)
    ensures
        final(notes).deep_view() == old(notes).deep_view() + concat_map(
            t@.foreign_keys,
            if joins {
                join_note_of(engine)
            } else {
                outgoing_note_of(engine)
            },
        ),
{
    let ghost fks = t@.foreign_keys;
    let ghost f = if joins {
        join_note_of(engine)
    } else {
        outgoing_note_of(engine)
    };
    let ghost base = notes.deep_view();
    let mut i: usize = 0;
    while i < t.foreign_keys.len()
        invariant
            fks == t@.foreign_keys,
            fks.len() == t.foreign_keys.len(),
            f == if joins {
                join_note_of(engine)
            } else {
                outgoing_note_of(engine)
            },
            i <= t.foreign_keys.len(),
            notes.deep_view() == base + concat_map(fks.take(i as int), f),
        decreases t.foreign_keys.len() - i,
    {
        proof {
            lemma_concat_map_step(fks, i as int, f);
        }
        let fk = &t.foreign_keys[i];
        let referenced = qualified_name_exec(
            engine,
            fk.referenced_schema.as_str(),
            fk.referenced_table.as_str(),
        );
        let columns = join_strings(&fk.columns, ", ");
        let mut note = if joins {
            owned("Join from ")
        } else {
            owned("References ")
        };
        push_str(&mut note, referenced.as_str());
        if joins {
            push_str(&mut note, " via ");
        } else {
            push_str(&mut note, " through ");
        }
        push_str(&mut note, columns.as_str());
        push_str(&mut note, ".");
        push_note(notes, note);
        i = i + 1;
        assert(notes.deep_view() =~= base + concat_map(fks.take(i as int), f));
    }
    assert(fks.take(i as int) =~= fks);
}

fn incoming_notes(engine: Engine, t: &Table, relationships: &Vec<Relationship>, notes: &mut Vec<String>)
    ensures
        final(notes).deep_view() == old(notes).deep_view() + concat_map(
            relationships.deep_view(),
            incoming_note_of(engine, t@),
        ),
{
    let ghost rs = relationships.deep_view();
    let ghost f = incoming_note_of(engine, t@);
    let ghost base = notes.deep_view();
    let mut i: usize = 0;
    while i < relationships.len()
        invariant
            rs == relationships.deep_view(),
            rs.len() == relationships.len(),
            f == incoming_note_of(engine, t@),
            i <= relationships.len(),
            notes.deep_view() == base + concat_map(rs.take(i as int), f),
        decreases relationships.len() - i,
    {
        proof {
            lemma_concat_map_step(rs, i as int, f);
        }
        let rel = &relationships[i];
        if rel.to_schema == t.schema && rel.to_table == t.name {
            let from = qualified_name_exec(engine, rel.from_schema.as_str(), rel.from_table.as_str());
            let columns = join_strings(&rel.from_columns, ", ");
            let mut note = owned("Referenced by ");
            push_str(&mut note, from.as_str());
            push_str(&mut note, " through ");
            push_str(&mut note, columns.as_str());
            push_str(&mut note, ".");
            push_note(notes, note);
        }
        i = i + 1;
        assert(notes.deep_view() =~= base + concat_map(rs.take(i as int), f));
    }
    assert(rs.take(i as int) =~= rs);
}

fn summary_of(t: &Table) -> (r: String)
    ensures
        r@ == table_summary(t@),
{
    let mut parts: Vec<String> = Vec::new();
    let mut first = owned("Table `");
    push_str(&mut first, t.name.as_str());
    push_str(&mut first, "` has ");
    let n = decimal_string(t.columns.len());
    push_str(&mut first, n.as_str());
    push_str(&mut first, " columns");
    assert(parts.deep_view() =~= Seq::<Seq<char>>::empty());
    push_note(&mut parts, first);
    if t.indexes.len() > 0 {
        let mut p = decimal_string(t.indexes.len());
        push_str(&mut p, " indexes");
        push_note(&mut parts, p);
    }
    if t.foreign_keys.len() > 0 {
        let mut p = decimal_string(t.foreign_keys.len());
        push_str(&mut p, " foreign keys");
        push_note(&mut parts, p);
    }
    assert(parts.deep_view() =~= summary_parts(t@));
    let mut summary = join_strings(&parts, ", ");
    push_str(&mut summary, ".");
    let ghost head = summary@;
    match &t.analysis {
        Some(analysis) => {
            if analysis.findings.len() > 0 {
                let mut labels: Vec<String> = Vec::new();
                let ghost fs = analysis@.findings;
                let mut i: usize = 0;
                assert(labels.deep_view() =~= finding_labels(fs.take(0)));
                while i < analysis.findings.len()
                    invariant
                        fs == analysis@.findings,
                        fs.len() == analysis.findings.len(),
                        i <= analysis.findings.len(),
                        labels.deep_view() == finding_labels(fs.take(i as int)),
                    decreases analysis.findings.len() - i,
                {
                    push_note(&mut labels, owned(analysis.findings[i].kind.label()));
                    i = i + 1;
                    assert(labels.deep_view() =~= finding_labels(fs.take(i as int)));
                }
                assert(fs.take(i as int) =~= fs);
                push_str(&mut summary, " Analysis suggests: ");
                let joined = join_strings(&labels, ", ");
                push_str(&mut summary, joined.as_str());
                push_str(&mut summary, ".");
            }
        },
        None => {},
    }
    assert(summary@ =~= head + analysis_sentence(t@.analysis));
    summary
}

/// The generated context of `table`, given every relationship of its
/// database.
pub fn context_for(engine: Engine, table: &Table, relationships: &Vec<Relationship>) -> (r: AiContext)
    ensures
        r@ == table_context(engine, table@, relationships.deep_view()),
{
    let mut notes: Vec<String> = Vec::new();
    assert(notes.deep_view() =~= Seq::<Seq<char>>::empty());
    fk_notes(engine, table, false, &mut notes);
    incoming_notes(engine, table, relationships, &mut notes);
    let ghost before = notes.deep_view();
    let pk = primary_key_columns(table);
    if pk.len() > 0 {
        let mut note = owned("Start queries from the primary key (");
        let joined = join_strings(&pk, ", ");
        push_str(&mut note, joined.as_str());
        push_str(&mut note, ").");
        push_note(&mut notes, note);
    }
    assert(notes.deep_view() =~= before + primary_key_note(table@));
    fk_notes(engine, table, true, &mut notes);
    assert(notes.deep_view() =~= table_notes(engine, table@, relationships.deep_view()));
    AiContext { generated: true, confidence: 91, summary: summary_of(table), notes }
}

/// Generate AI context for every table in `database`.
///
/// Every table receives a context when this layer runs: even a table with
/// no relationships or analysis gets a summary and the `generated` flag.
pub fn generate(database: &mut Database)
    ensures
        final(database)@ == generated_database(old(database)@),
{
    let engine = database.metadata.engine;
    let relationships = database.relationships();
    let ghost rels = relationships_of(old(database)@);
    let ghost input = database@.tables;
    let mut i: usize = 0;
    while i < database.tables.len()
        invariant
            input.len() == database.tables.len(),
            i <= database.tables.len(),
            engine == old(database)@.metadata.engine,
            relationships.deep_view() == rels,
            rels == relationships_of(old(database)@),
            database@.header == old(database)@.header,
            database@.metadata == old(database)@.metadata,
            database@.views == old(database)@.views,
            input == old(database)@.tables,
            forall|j: int|
                0 <= j < i ==> #[trigger] database@.tables[j] == (TableSpec {
                    ai: Some(table_context(engine, input[j], rels)),
                    ..input[j]
                }),
            forall|j: int| i <= j < input.len() ==> #[trigger] database@.tables[j] == input[j],
        decreases database.tables.len() - i,
    {
        let ghost cur = database@.tables;
        assert(cur[i as int] == input[i as int]);
        let context = context_for(engine, &database.tables[i], &relationships);
        let mut t = database.tables[i].clone();
        t.ai = Some(context);
        let ghost gt = t;
        database.tables.set(i, t);
        assert(database@.tables =~= cur.update(i as int, gt@));
        i = i + 1;
    }
    assert(database@.tables =~= generated_database(old(database)@).tables);
}

/// Every table receives a context that is labeled as generated, and nothing
/// else in the schema changes: not the tables' facts, their analysis, the
/// views or the metadata.
pub proof fn law_generate_labels_every_table(db: DatabaseSpec)
    ensures
        generated_database(db).tables.len() == db.tables.len(),
        forall|i: int|
            0 <= i < db.tables.len() ==> ((#[trigger] generated_database(db).tables[i]).ai is Some
                && generated_database(db).tables[i].ai->0.generated),
        forall|i: int|
            0 <= i < db.tables.len() ==> (TableSpec {
                ai: db.tables[i].ai,
                ..#[trigger] generated_database(db).tables[i]
            }) == db.tables[i],
        generated_database(db).views == db.views,
        generated_database(db).metadata == db.metadata,
{
}

proof fn lemma_seq_add_contains<A>(a: Seq<A>, b: Seq<A>, y: A)
    ensures
        (a + b).contains(y) <==> a.contains(y) || b.contains(y),
{
    if (a + b).contains(y) {
        let k = choose|k: int| 0 <= k < (a + b).len() && (a + b)[k] == y;
        if k < a.len() {
            assert(a[k] == y);
        } else {
            assert(b[k - a.len()] == y);
        }
    }
    if a.contains(y) {
        let k = choose|k: int| 0 <= k < a.len() && a[k] == y;
        assert((a + b)[k] == y);
    }
    if b.contains(y) {
        let k = choose|k: int| 0 <= k < b.len() && b[k] == y;
        assert((a + b)[a.len() + k] == y);
    }
}

/// The notes about a table are exactly: for each of its foreign keys, the
/// note naming the table it references and the note suggesting the join
/// from there; for each relationship among `rels` that points at the
/// table, the note naming where it comes from; and, when the table has a
/// primary key, the note suggesting to start from it.
pub proof fn law_table_notes_name_keys_and_references(
    engine: Engine,
    t: TableSpec,
    rels: Seq<RelationshipSpec>,
    y: Seq<char>,
)
    ensures
        table_notes(engine, t, rels).contains(y) <==> {
            ||| exists|i: int|
                0 <= i < t.foreign_keys.len() && (y == (#[trigger] outgoing_note(engine, t.foreign_keys[i]))[0]
                    || y == join_note(engine, t.foreign_keys[i])[0])
            ||| exists|j: int|
                0 <= j < rels.len() && rels[j].to_schema == t.schema && rels[j].to_table == t.name && y
                    == (#[trigger] incoming_note(engine, t, rels[j]))[0]
            ||| primary_key_names(t.columns).len() > 0 && y == primary_key_note(t)[0]
        },
{
    let a = concat_map(t.foreign_keys, outgoing_note_of(engine));
    let b = concat_map(rels, incoming_note_of(engine, t));
    let c = primary_key_note(t);
    let d = concat_map(t.foreign_keys, join_note_of(engine));
    lemma_seq_add_contains(a + b + c, d, y);
    lemma_seq_add_contains(a + b, c, y);
    lemma_seq_add_contains(a, b, y);
    crate::model::lemma_concat_map_contains(t.foreign_keys, outgoing_note_of(engine), y);
    crate::model::lemma_concat_map_contains(rels, incoming_note_of(engine, t), y);
    crate::model::lemma_concat_map_contains(t.foreign_keys, join_note_of(engine), y);
    assert forall|i: int| 0 <= i < t.foreign_keys.len() implies (#[trigger] outgoing_note_of(engine)(
        t.foreign_keys[i],
    )).contains(y) == (y == outgoing_note(engine, t.foreign_keys[i])[0]) by {
        let n = outgoing_note(engine, t.foreign_keys[i]);
        if y == n[0] {
            assert(n.contains(n[0]));
        }
    }
    assert forall|i: int| 0 <= i < t.foreign_keys.len() implies (#[trigger] join_note_of(engine)(
        t.foreign_keys[i],
    )).contains(y) == (y == join_note(engine, t.foreign_keys[i])[0]) by {
        let n = join_note(engine, t.foreign_keys[i]);
        if y == n[0] {
            assert(n.contains(n[0]));
        }
    }
    assert forall|j: int| 0 <= j < rels.len() implies (#[trigger] incoming_note_of(engine, t)(
        rels[j],
    )).contains(y) == (rels[j].to_schema == t.schema && rels[j].to_table == t.name && y
        == incoming_note(engine, t, rels[j])[0]) by {
        let n = incoming_note(engine, t, rels[j]);
        if rels[j].to_schema == t.schema && rels[j].to_table == t.name && y == n[0] {
            assert(n.contains(n[0]));
        }
    }
    if primary_key_names(t.columns).len() > 0 && y == c[0] {
        assert(c.contains(c[0]));
    }
    if c.contains(y) {
        let k = choose|k: int| 0 <= k < c.len() && c[k] == y;
        assert(primary_key_names(t.columns).len() > 0 && k == 0);
    }
    if a.contains(y) {
        let i = choose|i: int| 0 <= i < t.foreign_keys.len() && #[trigger] outgoing_note_of(engine)(
            t.foreign_keys[i],
        ).contains(y);
        assert(y == outgoing_note(engine, t.foreign_keys[i])[0]);
    }
    if d.contains(y) {
        let i = choose|i: int| 0 <= i < t.foreign_keys.len() && #[trigger] join_note_of(engine)(
            t.foreign_keys[i],
        ).contains(y);
        assert(y == join_note(engine, t.foreign_keys[i])[0]);
        assert(outgoing_note(engine, t.foreign_keys[i]).len() == 1);
    }
    if b.contains(y) {
        let j = choose|j: int| 0 <= j < rels.len() && #[trigger] incoming_note_of(engine, t)(rels[j]).contains(y);
        assert(y == incoming_note(engine, t, rels[j])[0]);
    }
    if exists|i: int|
        0 <= i < t.foreign_keys.len() && (y == (#[trigger] outgoing_note(engine, t.foreign_keys[i]))[0]
            || y == join_note(engine, t.foreign_keys[i])[0]) {
        let i = choose|i: int|
            0 <= i < t.foreign_keys.len() && (y == (#[trigger] outgoing_note(engine, t.foreign_keys[i]))[0]
                || y == join_note(engine, t.foreign_keys[i])[0]);
        assert(0 <= i < t.foreign_keys.len());
        assert(y == outgoing_note(engine, t.foreign_keys[i])[0] || y == join_note(engine, t.foreign_keys[i])[0]);
        let o = outgoing_note(engine, t.foreign_keys[i]);
        let n = join_note(engine, t.foreign_keys[i]);
        assert(outgoing_note_of(engine)(t.foreign_keys[i]) == o);
        assert(join_note_of(engine)(t.foreign_keys[i]) == n);
        if y == o[0] {
            assert(o[0] == y);
            assert(o.contains(y));
            assert(outgoing_note_of(engine)(t.foreign_keys[i]).contains(y));
        } else {
            assert(y == n[0]);
            assert(n[0] == y);
            assert(n.contains(y));
            assert(join_note_of(engine)(t.foreign_keys[i]).contains(y));
        }
    }
    if exists|j: int|
        0 <= j < rels.len() && rels[j].to_schema == t.schema && rels[j].to_table == t.name && y
            == (#[trigger] incoming_note(engine, t, rels[j]))[0] {
        let j = choose|j: int|
            0 <= j < rels.len() && rels[j].to_schema == t.schema && rels[j].to_table == t.name && y
                == (#[trigger] incoming_note(engine, t, rels[j]))[0];
        assert(incoming_note_of(engine, t)(rels[j]).contains(y));
    }
}

/// A table's summary counts its foreign keys: when it has any, the summary
/// reads `, N foreign keys.` with N the number of its foreign keys; when it
/// has indexes, it reads `, N indexes` with N the number of its indexes.
/// It always begins by naming the table and its number of columns.
#[verifier::spinoff_prover]
#[verifier::rlimit(40)]
pub proof fn law_summary_counts_what_the_table_has(t: TableSpec)
    ensures
        crate::text::starts_with(
            table_summary(t),
            "Table `"@ + t.name + "` has "@ + decimal(t.columns.len()) + " columns"@,
        ),
        t.foreign_keys.len() > 0 ==> crate::text::contains(
            table_summary(t),
            ", "@ + decimal(t.foreign_keys.len()) + " foreign keys"@ + "."@,
        ),
        t.indexes.len() > 0 ==> crate::text::contains(
            table_summary(t),
            ", "@ + decimal(t.indexes.len()) + " indexes"@,
        ),
{
    let p0 = "Table `"@ + t.name + "` has "@ + decimal(t.columns.len()) + " columns"@;
    let ip = if t.indexes.len() > 0 {
        seq![decimal(t.indexes.len()) + " indexes"@]
    } else {
        Seq::<Seq<char>>::empty()
    };
    let fp = if t.foreign_keys.len() > 0 {
        seq![decimal(t.foreign_keys.len()) + " foreign keys"@]
    } else {
        Seq::<Seq<char>>::empty()
    };
    let parts = summary_parts(t);
    assert(parts == seq![p0] + ip + fp);
    let sep = ", "@;
    let tail = "."@ + analysis_sentence(t.analysis);
    assert(table_summary(t) == join(parts, sep) + tail);
    // The summary starts with the first part.
    lemma_join_starts_with_first(parts, sep);
    let js = join(parts, sep);
    assert(table_summary(t).subrange(0, p0.len() as int) =~= js.subrange(0, p0.len() as int));
    if t.foreign_keys.len() > 0 {
        let q = seq![p0] + ip;
        let fk = decimal(t.foreign_keys.len()) + " foreign keys"@;
        assert(parts.drop_last() =~= q);
        assert(parts.last() == fk);
        assert(js == join(q, sep) + sep + fk);
        let needle = sep + fk + "."@;
        let at = join(q, sep).len() as int;
        assert(table_summary(t) =~= join(q, sep) + needle + analysis_sentence(t.analysis));
        assert(table_summary(t).subrange(at, at + needle.len()) =~= needle);
        assert(crate::text::occurs_at(table_summary(t), needle, at));
        assert(needle =~= ", "@ + decimal(t.foreign_keys.len()) + " foreign keys"@ + "."@);
    }
    if t.indexes.len() > 0 {
        let ix = decimal(t.indexes.len()) + " indexes"@;
        let q = seq![p0, ix];
        assert(join(q, sep) == join(q.drop_last(), sep) + sep + q.last());
        assert(q.drop_last() =~= seq![p0]);
        let needle = sep + ix;
        let at = p0.len() as int;
        if t.foreign_keys.len() > 0 {
            let fk = decimal(t.foreign_keys.len()) + " foreign keys"@;
            assert(parts =~= q.push(fk));
            assert(parts.drop_last() =~= q);
            assert(js == join(q, sep) + sep + fk);
        } else {
            assert(parts =~= q);
        }
        assert(join(q, sep) =~= p0 + needle);
        assert(table_summary(t).subrange(at, at + needle.len()) =~= needle);
        assert(crate::text::occurs_at(table_summary(t), needle, at));
        assert(needle =~= ", "@ + decimal(t.indexes.len()) + " indexes"@);
    }
}

proof fn lemma_join_starts_with_first(parts: Seq<Seq<char>>, sep: Seq<char>)
    requires
        parts.len() > 0,
    ensures
        join(parts, sep).len() >= parts[0].len(),
        join(parts, sep).subrange(0, parts[0].len() as int) == parts[0],
    decreases parts.len(),
{
    if parts.len() > 1 {
        lemma_join_starts_with_first(parts.drop_last(), sep);
        let j = join(parts.drop_last(), sep);
        assert(parts.drop_last()[0] == parts[0]);
        assert((j + sep + parts.last()).subrange(0, parts[0].len() as int) =~= j.subrange(
            0,
            parts[0].len() as int,
        ));
    }
}

/// The notes about a table, word for word: for each of its foreign keys,
/// `References <target> through <columns>.` and `Join from <target> via
/// <columns>.`; for each relationship among `rels` that points at the
/// table, `Referenced by <source> through <columns>.`; and, when it has a
/// primary key, `Start queries from the primary key (<columns>).`; nothing
/// else.
pub proof fn law_table_notes_read_as_written(
    engine: Engine,
    t: TableSpec,
    rels: Seq<RelationshipSpec>,
    y: Seq<char>,
)
    ensures
        table_notes(engine, t, rels).contains(y) <==> {
            ||| exists|i: int|
                0 <= i < t.foreign_keys.len() && (y == "References "@ + qualified_name(
                    engine,
                    (#[trigger] t.foreign_keys[i]).referenced_schema,
                    t.foreign_keys[i].referenced_table,
                ) + " through "@ + join(t.foreign_keys[i].columns, ", "@) + "."@ || y == "Join from "@
                    + qualified_name(
                    engine,
                    t.foreign_keys[i].referenced_schema,
                    t.foreign_keys[i].referenced_table,
                ) + " via "@ + join(t.foreign_keys[i].columns, ", "@) + "."@)
            ||| exists|j: int|
                0 <= j < rels.len() && (#[trigger] rels[j]).to_schema == t.schema && rels[j].to_table
                    == t.name && y == "Referenced by "@ + qualified_name(
                    engine,
                    rels[j].from_schema,
                    rels[j].from_table,
                ) + " through "@ + join(rels[j].from_columns, ", "@) + "."@
            ||| primary_key_names(t.columns).len() > 0 && y == "Start queries from the primary key ("@
                + join(primary_key_names(t.columns), ", "@) + ")."@
        },
{
    law_table_notes_name_keys_and_references(engine, t, rels, y);
    assert forall|i: int| 0 <= i < t.foreign_keys.len() implies outgoing_note(
        engine,
        #[trigger] t.foreign_keys[i],
    )[0] == "References "@ + qualified_name(
        engine,
        t.foreign_keys[i].referenced_schema,
        t.foreign_keys[i].referenced_table,
    ) + " through "@ + join(t.foreign_keys[i].columns, ", "@) + "."@ && join_note(
        engine,
        t.foreign_keys[i],
    )[0] == "Join from "@ + qualified_name(
        engine,
        t.foreign_keys[i].referenced_schema,
        t.foreign_keys[i].referenced_table,
    ) + " via "@ + join(t.foreign_keys[i].columns, ", "@) + "."@ by {}
    assert forall|j: int| 0 <= j < rels.len() && (#[trigger] rels[j]).to_schema == t.schema
        && rels[j].to_table == t.name implies incoming_note(engine, t, rels[j])[0] == "Referenced by "@
        + qualified_name(engine, rels[j].from_schema, rels[j].from_table) + " through "@ + join(
        rels[j].from_columns,
        ", "@,
    ) + "."@ by {}
    if exists|i: int|
        0 <= i < t.foreign_keys.len() && (y == (#[trigger] outgoing_note(engine, t.foreign_keys[i]))[0]
            || y == join_note(engine, t.foreign_keys[i])[0]) {
        let i = choose|i: int|
            0 <= i < t.foreign_keys.len() && (y == (#[trigger] outgoing_note(engine, t.foreign_keys[i]))[0]
                || y == join_note(engine, t.foreign_keys[i])[0]);
        assert(t.foreign_keys[i] == t.foreign_keys[i]);
    }
    if exists|i: int|
        0 <= i < t.foreign_keys.len() && (y == "References "@ + qualified_name(
            engine,
            (#[trigger] t.foreign_keys[i]).referenced_schema,
            t.foreign_keys[i].referenced_table,
        ) + " through "@ + join(t.foreign_keys[i].columns, ", "@) + "."@ || y == "Join from "@
            + qualified_name(engine, t.foreign_keys[i].referenced_schema, t.foreign_keys[i].referenced_table)
            + " via "@ + join(t.foreign_keys[i].columns, ", "@) + "."@) {
        let i = choose|i: int|
            0 <= i < t.foreign_keys.len() && (y == "References "@ + qualified_name(
                engine,
                (#[trigger] t.foreign_keys[i]).referenced_schema,
                t.foreign_keys[i].referenced_table,
            ) + " through "@ + join(t.foreign_keys[i].columns, ", "@) + "."@ || y == "Join from "@
                + qualified_name(engine, t.foreign_keys[i].referenced_schema, t.foreign_keys[i].referenced_table)
                + " via "@ + join(t.foreign_keys[i].columns, ", "@) + "."@);
        assert(y == outgoing_note(engine, t.foreign_keys[i])[0] || y == join_note(engine, t.foreign_keys[i])[0]);
    }
    if exists|j: int|
        0 <= j < rels.len() && rels[j].to_schema == t.schema && rels[j].to_table == t.name && y
            == (#[trigger] incoming_note(engine, t, rels[j]))[0] {
        let j = choose|j: int|
            0 <= j < rels.len() && rels[j].to_schema == t.schema && rels[j].to_table == t.name && y
                == (#[trigger] incoming_note(engine, t, rels[j]))[0];
        assert(rels[j] == rels[j]);
    }
    if exists|j: int|
        0 <= j < rels.len() && (#[trigger] rels[j]).to_schema == t.schema && rels[j].to_table == t.name
            && y == "Referenced by "@ + qualified_name(engine, rels[j].from_schema, rels[j].from_table)
            + " through "@ + join(rels[j].from_columns, ", "@) + "."@ {
        let j = choose|j: int|
            0 <= j < rels.len() && (#[trigger] rels[j]).to_schema == t.schema && rels[j].to_table == t.name
                && y == "Referenced by "@ + qualified_name(engine, rels[j].from_schema, rels[j].from_table)
                + " through "@ + join(rels[j].from_columns, ", "@) + "."@;
        assert(y == incoming_note(engine, t, rels[j])[0]);
    }
}

/// A table's generated context is labelled as generated, with confidence
/// 91, and its summary ends by naming, in order, what analysis suggested
/// of it (junction table, lookup table, audit table, soft deletes,
/// timestamp conventions), or nothing when analysis suggested nothing.
pub proof fn law_context_is_labelled_and_names_the_analysis(
    engine: Engine,
    t: TableSpec,
    rels: Seq<RelationshipSpec>,
)
    ensures
        table_context(engine, t, rels).generated,
        table_context(engine, t, rels).confidence == 91,
        table_context(engine, t, rels).summary == table_summary(t),
        table_context(engine, t, rels).notes == table_notes(engine, t, rels),
        t.analysis is None ==> analysis_sentence(t.analysis) == Seq::<char>::empty(),
        t.analysis is Some && t.analysis->Some_0.findings.len() > 0 ==> analysis_sentence(t.analysis)
            == " Analysis suggests: "@ + join(
            t.analysis->Some_0.findings.map_values(
                |f: AnalysisFindingSpec|
                    match f.kind {
                        crate::model::AnalysisKind::JunctionTable => "junction table"@,
                        crate::model::AnalysisKind::LookupTable => "lookup table"@,
                        crate::model::AnalysisKind::AuditTable => "audit table"@,
                        crate::model::AnalysisKind::SoftDeletes => "soft deletes"@,
                        crate::model::AnalysisKind::TimestampConventions => "timestamp conventions"@,
                    },
            ),
            ", "@,
        ) + "."@,
{
    if t.analysis is Some {
        let a = t.analysis->Some_0;
        let m = a.findings.map_values(
            |f: AnalysisFindingSpec|
                match f.kind {
                    crate::model::AnalysisKind::JunctionTable => "junction table"@,
                    crate::model::AnalysisKind::LookupTable => "lookup table"@,
                    crate::model::AnalysisKind::AuditTable => "audit table"@,
                    crate::model::AnalysisKind::SoftDeletes => "soft deletes"@,
                    crate::model::AnalysisKind::TimestampConventions => "timestamp conventions"@,
                },
        );
        assert(finding_labels(a.findings) =~= m);
    }
}

} // verus!
