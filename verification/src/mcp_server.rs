//! What the MCP server says: its failures, the prompts it answers and the
//! resources it serves, all from the cached schema.
use vstd::prelude::*;

use crate::analysis::{primary_key_columns, primary_key_names};
use crate::error::Error;
use crate::model::{
    concat_map, lemma_concat_map_step, relationships_of, Database, DatabaseSpec, Engine,
    RelationshipSpec, TableSpec,
};
use crate::text::{
    chars_of, decimal, decimal_string, join, join_strings, owned, push_str, starts_with, str_eq,
    str_starts_with, string_from_chars,
};

verus! {

/// Why the MCP server could not start or keep running.
#[derive(Debug)]
pub enum McpServerError {
    /// The initial schema could not be read.
    InitialSchema(Error),
    /// Reading the schema took longer than the configured introspection
    /// timeout, in seconds.
    IntrospectionTimeout(u64),
    /// The server failed to initialize.
    Initialize(String),
    /// The server loop ended with an error.
    Runtime(String),
    /// The HTTP transport's listener could not be bound.
    Listen {
        /// The address that was attempted.
        address: String,
        /// What the operating system reported.
        source: String,
    },
}

// ---------------------------------------------------------------------------
// Prompts
// ---------------------------------------------------------------------------

/// The name an engine is shown by in a summary.
pub open spec fn engine_label(e: Engine) -> Seq<char> {
    match e {
        Engine::Mysql => "Mysql"@,
        Engine::Mariadb => "Mariadb"@,
        Engine::Sqlserver => "Sqlserver"@,
        Engine::Postgres => "Postgres"@,
        Engine::Sqlite => "Sqlite"@,
    }
}

fn engine_label_str(e: Engine) -> (r: &'static str)
    ensures
        r@ == engine_label(e),
{
    match e {
        Engine::Mysql => "Mysql",
        Engine::Mariadb => "Mariadb",
        Engine::Sqlserver => "Sqlserver",
        Engine::Postgres => "Postgres",
        Engine::Sqlite => "Sqlite",
    }
}

/// The line a table has in a schema summary.
pub open spec fn table_line(t: TableSpec) -> Seq<char> {
    "- "@ + t.schema + "."@ + t.name + " ("@ + decimal(t.columns.len()) + " columns)\n"@
}

pub open spec fn table_line_of() -> spec_fn(TableSpec) -> Seq<char> {
    |t: TableSpec| table_line(t)
}

/// The opening sentence of a schema summary.
pub open spec fn summary_head(db: DatabaseSpec) -> Seq<char> {
    "Database `"@ + db.metadata.database + "` runs "@ + engine_label(db.metadata.engine) + " "@
        + db.metadata.engine_version + ": "@ + decimal(db.tables.len()) + " tables, "@ + decimal(
        db.views.len(),
    ) + " views, "@ + decimal(relationships_of(db).len()) + " relationships.\n\nTables:\n"@
}

/// A short summary of the database: engine, table and view counts,
/// relationships, and one line per table.
pub open spec fn schema_summary(db: DatabaseSpec) -> Seq<char> {
    summary_head(db) + concat_map(db.tables, table_line_of())
}

fn summary_head_text(database: &Database) -> (r: String)
    ensures
        r@ == summary_head(database@),
{
    let relationships = database.relationships();
    let mut text = owned("Database `");
    push_str(&mut text, database.metadata.database.as_str());
    push_str(&mut text, "` runs ");
    push_str(&mut text, engine_label_str(database.metadata.engine));
    push_str(&mut text, " ");
    push_str(&mut text, database.metadata.engine_version.as_str());
    push_str(&mut text, ": ");
    let n = decimal_string(database.tables.len());
    push_str(&mut text, n.as_str());
    push_str(&mut text, " tables, ");
    let n = decimal_string(database.views.len());
    push_str(&mut text, n.as_str());
    push_str(&mut text, " views, ");
    let n = decimal_string(relationships.len());
    push_str(&mut text, n.as_str());
    push_str(&mut text, " relationships.\n\nTables:\n");
    proof {
        assert(relationships.len() == relationships.deep_view().len());
    }
    text
}

/// A short summary of the database.
pub fn summarize_schema(database: &Database) -> (r: String)
    ensures
        r@ == schema_summary(database@),
{
    let mut text = summary_head_text(database);
    let ghost head = text@;
    let ghost tables = database@.tables;
    let mut i: usize = 0;
    while i < database.tables.len()
        invariant
            tables == database@.tables,
            tables.len() == database.tables.len(),
            head == summary_head(database@),
            i <= database.tables.len(),
            text@ == head + concat_map(tables.take(i as int), table_line_of()),
        decreases database.tables.len() - i,
    {
        proof {
            lemma_concat_map_step(tables, i as int, table_line_of());
        }
        let t = &database.tables[i];
        push_str(&mut text, "- ");
        push_str(&mut text, t.schema.as_str());
        push_str(&mut text, ".");
        push_str(&mut text, t.name.as_str());
        push_str(&mut text, " (");
        let n = decimal_string(t.columns.len());
        push_str(&mut text, n.as_str());
        push_str(&mut text, " columns)\n");
        proof {
            assert(t.columns.len() == t@.columns.len());
            assert(tables[i as int] == t@);
        }
        i = i + 1;
    }
    assert(tables.take(i as int) =~= tables);
    text
}

/// How a table's primary key is described: its columns, or `none`.
pub open spec fn primary_key_text(t: TableSpec) -> Seq<char> {
    let pk = primary_key_names(t.columns);
    if pk.len() == 0 {
        "none"@
    } else {
        join(pk, ", "@)
    }
}

/// The description of one table: a heading, its comment, its column count
/// and its primary key.
pub open spec fn table_description(t: TableSpec) -> Seq<char> {
    "## "@ + t.schema + "."@ + t.name + "\n"@ + match t.comment {
        Some(c) => c + "\n"@,
        None => Seq::empty(),
    } + "- "@ + decimal(t.columns.len()) + " columns, primary key: "@ + primary_key_text(t)
        + "\n\n"@
}

pub open spec fn table_description_of() -> spec_fn(TableSpec) -> Seq<char> {
    |t: TableSpec| table_description(t)
}

/// A description of every table, or a sentence saying there are none.
pub open spec fn table_descriptions(db: DatabaseSpec) -> Seq<char> {
    let text = concat_map(db.tables, table_description_of());
    if text.len() == 0 {
        "The schema has no tables."@
    } else {
        text
    }
}

fn push_table_description(text: &mut String, t: &crate::model::Table)
    ensures
        final(text)@ == old(text)@ + table_description(t@),
{
    let pk = primary_key_columns(t);
    push_str(text, "## ");
    push_str(text, t.schema.as_str());
    push_str(text, ".");
    push_str(text, t.name.as_str());
    push_str(text, "\n");
    let ghost mid = text@;
    match &t.comment {
        Some(c) => {
            push_str(text, c.as_str());
            push_str(text, "\n");
        },
        None => {},
    }
    push_str(text, "- ");
    let n = decimal_string(t.columns.len());
    push_str(text, n.as_str());
    push_str(text, " columns, primary key: ");
    if pk.len() == 0 {
        push_str(text, "none");
    } else {
        let joined = join_strings(&pk, ", ");
        push_str(text, joined.as_str());
    }
    push_str(text, "\n\n");
    proof {
        assert(pk.len() == pk.deep_view().len());
        assert(t.columns.len() == t@.columns.len());
    }
}

/// A description of every table.
pub fn describe_tables(database: &Database) -> (r: String)
    ensures
        r@ == table_descriptions(database@),
{
    let mut text = String::new();
    let ghost tables = database@.tables;
    let mut i: usize = 0;
    while i < database.tables.len()
        invariant
            tables == database@.tables,
            tables.len() == database.tables.len(),
            i <= database.tables.len(),
            text@ == concat_map(tables.take(i as int), table_description_of()),
        decreases database.tables.len() - i,
    {
        proof {
            lemma_concat_map_step(tables, i as int, table_description_of());
            assert(tables[i as int] == database.tables[i as int]@);
        }
        push_table_description(&mut text, &database.tables[i]);
        i = i + 1;
    }
    assert(tables.take(i as int) =~= tables);
    proof {
        reveal_strlit("");
    }
    if str_eq(text.as_str(), "") {
        assert(text@.len() == 0);
        owned("The schema has no tables.")
    } else {
        assert(text@.len() != 0) by {
            if text@.len() == 0 {
                assert(text@ =~= ""@);
            }
        }
        text
    }
}

/// The sentence a relationship is explained by.
pub open spec fn relationship_sentence(r: RelationshipSpec) -> Seq<char> {
    r.from_schema + "."@ + r.from_table + "("@ + join(r.from_columns, ", "@) + ") references "@
        + r.to_schema + "."@ + r.to_table + "("@ + join(r.to_columns, ", "@) + ") via `"@
        + r.constraint + "`.\n"@
}

pub open spec fn relationship_sentence_of() -> spec_fn(RelationshipSpec) -> Seq<char> {
    |r: RelationshipSpec| relationship_sentence(r)
}

/// A narrative of every relationship, or a sentence saying there are none.
pub open spec fn relationship_narrative(db: DatabaseSpec) -> Seq<char> {
    let rels = relationships_of(db);
    if rels.len() == 0 {
        "The schema has no foreign key relationships."@
    } else {
        concat_map(rels, relationship_sentence_of())
    }
}

fn push_relationship_sentence(text: &mut String, r: &crate::model::Relationship)
    ensures
        final(text)@ == old(text)@ + relationship_sentence(r@),
{
    push_str(text, r.from_schema.as_str());
    push_str(text, ".");
    push_str(text, r.from_table.as_str());
    push_str(text, "(");
    let from = join_strings(&r.from_columns, ", ");
    push_str(text, from.as_str());
    push_str(text, ") references ");
    push_str(text, r.to_schema.as_str());
    push_str(text, ".");
    push_str(text, r.to_table.as_str());
    push_str(text, "(");
    let to = join_strings(&r.to_columns, ", ");
    push_str(text, to.as_str());
    push_str(text, ") via `");
    push_str(text, r.constraint.as_str());
    push_str(text, "`.\n");
}

/// A narrative of every foreign key relationship.
pub fn explain_relationships(database: &Database) -> (r: String)
    ensures
        r@ == relationship_narrative(database@),
{
    let relationships = database.relationships();
    if relationships.len() == 0 {
        return owned("The schema has no foreign key relationships.");
    }
    let ghost rels = relationships.deep_view();
    let mut text = String::new();
    let mut i: usize = 0;
    while i < relationships.len()
        invariant
            rels == relationships.deep_view(),
            rels == relationships_of(database@),
            rels.len() == relationships.len(),
            i <= relationships.len(),
            text@ == concat_map(rels.take(i as int), relationship_sentence_of()),
        decreases relationships.len() - i,
    {
        proof {
            lemma_concat_map_step(rels, i as int, relationship_sentence_of());
            assert(rels[i as int] == relationships[i as int]@);
        }
        push_relationship_sentence(&mut text, &relationships[i]);
        i = i + 1;
    }
    assert(rels.take(i as int) =~= rels);
    text
}

/// What a prompt request is answered with: the text of a known prompt, or
/// the message refusing an unknown one.
pub open spec fn prompt_answer(db: DatabaseSpec, name: Seq<char>) -> Result<Seq<char>, Seq<char>> {
    if name == "summarize-schema"@ {
        Ok(schema_summary(db))
    } else if name == "describe-table"@ {
        Ok(table_descriptions(db))
    } else if name == "explain-relationships"@ {
        Ok(relationship_narrative(db))
    } else {
        Err("unknown prompt `"@ + name + "`"@)
    }
}

/// The text of prompt `name` over the cached schema.
pub fn prompt_text(database: &Database, name: &str) -> (r: Result<String, String>)
    ensures
        match r {
            Ok(t) => prompt_answer(database@, name@) == Ok::<Seq<char>, Seq<char>>(t@),
            Err(m) => prompt_answer(database@, name@) == Err::<Seq<char>, Seq<char>>(m@),
        },
{
    if str_eq(name, "summarize-schema") {
        Ok(summarize_schema(database))
    } else if str_eq(name, "describe-table") {
        Ok(describe_tables(database))
    } else if str_eq(name, "explain-relationships") {
        Ok(explain_relationships(database))
    } else {
        let mut m = owned("unknown prompt `");
        push_str(&mut m, name);
        push_str(&mut m, "`");
        Err(m)
    }
}

// ---------------------------------------------------------------------------
// Resources
// ---------------------------------------------------------------------------

/// The resource holding the whole schema document.
pub const SCHEMA_URI: &'static str = "dbctx://schema";

/// The resource holding the metadata document.
pub const METADATA_URI: &'static str = "dbctx://metadata";

/// The resource holding the Mermaid ER diagram.
pub const GRAPH_URI: &'static str = "dbctx://graph";

/// The resource holding the relationships document.
pub const RELATIONSHIPS_URI: &'static str = "dbctx://relationships";

/// The prefix of a table's resource, followed by `schema.table`.
pub const TABLES_PREFIX: &'static str = "dbctx://tables/";

/// Which resource a request names.
#[derive(Debug, Clone, Copy, PartialEq, Eq, Structural)]
pub enum ResourceRef {
    /// The Mermaid ER diagram.
    Graph,
    /// The schema document.
    Schema,
    /// The metadata document.
    Metadata,
    /// The relationships document.
    Relationships,
    /// The document of the table at this position.
    Table(usize),
}

/// The position of the first `.` in `s` at or after `i`, or -1.
pub open spec fn dot_from(s: Seq<char>, i: int) -> int
    decreases s.len() - i,
{
    if i < 0 || i >= s.len() {
        -1
    } else if s[i] == '.' {
        i
    } else {
        dot_from(s, i + 1)
    }
}

/// The position of the first table of `tables` at or after `i` named
/// `schema`.`name`, or -1.
pub open spec fn table_from(tables: Seq<TableSpec>, schema: Seq<char>, name: Seq<char>, i: int) -> int
    decreases tables.len() - i,
{
    if i < 0 || i >= tables.len() {
        -1
    } else if tables[i].schema == schema && tables[i].name == name {
        i
    } else {
        table_from(tables, schema, name, i + 1)
    }
}

/// The table a `schema.table` name names: split at its first `.`, the
/// first table with that namespace and name, if any.
pub open spec fn named_table(tables: Seq<TableSpec>, qualified: Seq<char>) -> int {
    let d = dot_from(qualified, 0);
    if d < 0 {
        -1
    } else {
        table_from(tables, qualified.take(d), qualified.skip(d + 1), 0)
    }
}

/// The resource `uri` names in `db`, or the message refusing it.
pub open spec fn resource_at(db: DatabaseSpec, uri: Seq<char>) -> Result<ResourceRef, Seq<char>> {
    if uri == GRAPH_URI@ {
        Ok(ResourceRef::Graph)
    } else if uri == SCHEMA_URI@ {
        Ok(ResourceRef::Schema)
    } else if uri == METADATA_URI@ {
        Ok(ResourceRef::Metadata)
    } else if uri == RELATIONSHIPS_URI@ {
        Ok(ResourceRef::Relationships)
    } else if starts_with(uri, TABLES_PREFIX@) {
        let qualified = uri.skip(TABLES_PREFIX@.len() as int);
        let k = named_table(db.tables, qualified);
        if k < 0 {
            Err("no table resource for `"@ + qualified + "`"@)
        } else {
            Ok(ResourceRef::Table(k as usize))
        }
    } else {
        Err("no resource for `"@ + uri + "`"@)
    }
}

/// The URI under which a table is listed: the table prefix, its namespace,
/// a dot and its name.
pub open spec fn table_uri(t: TableSpec) -> Seq<char> {
    TABLES_PREFIX@ + t.schema + "."@ + t.name
}

proof fn lemma_dot_after(a: Seq<char>, b: Seq<char>, i: int)
    requires
        0 <= i <= a.len(),
        !a.contains('.'),
    ensures
        dot_from(a + "."@ + b, i) == a.len(),
    decreases a.len() - i,
{
    let s = a + "."@ + b;
    reveal_strlit(".");
    if i < a.len() {
        assert(s[i] == a[i]);
        lemma_dot_after(a, b, i + 1);
    } else {
        assert(s[i] == '.');
    }
}

proof fn lemma_table_found(tables: Seq<TableSpec>, schema: Seq<char>, name: Seq<char>, i: int, k: int)
    requires
        0 <= i <= k < tables.len(),
        tables[k].schema == schema,
        tables[k].name == name,
    ensures
        i <= table_from(tables, schema, name, i) <= k,
        tables[table_from(tables, schema, name, i)].schema == schema,
        tables[table_from(tables, schema, name, i)].name == name,
    decreases k - i,
{
    if !(tables[i].schema == schema && tables[i].name == name) {
        lemma_table_found(tables, schema, name, i + 1, k);
    }
}

/// Every table resource the server lists can be read back: its URI names
/// a table of the schema with that namespace and name (the first such,
/// should two share both). A namespace holding a dot is left out, since
/// the URI is split at its first dot.
pub proof fn law_a_listed_table_resource_reads_back(db: DatabaseSpec, k: int)
    requires
        0 <= k < db.tables.len() <= usize::MAX,
        !db.tables[k].schema.contains('.'),
    ensures
        resource_at(db, table_uri(db.tables[k])) matches Ok(ResourceRef::Table(j)) && {
            &&& j <= k
            &&& db.tables[j as int].schema == db.tables[k].schema
            &&& db.tables[j as int].name == db.tables[k].name
        },
{
    let t = db.tables[k];
    let uri = table_uri(t);
    reveal_strlit("dbctx://tables/");
    reveal_strlit("dbctx://graph");
    reveal_strlit("dbctx://schema");
    reveal_strlit("dbctx://metadata");
    reveal_strlit("dbctx://relationships");
    reveal_strlit(".");
    let prefix = TABLES_PREFIX@;
    assert(uri[8] == 't');
    assert(uri != GRAPH_URI@) by {
        if uri.len() == GRAPH_URI@.len() {
            assert(GRAPH_URI@[8] == 'g');
        }
    }
    assert(uri != SCHEMA_URI@) by {
        if uri.len() == SCHEMA_URI@.len() {
            assert(SCHEMA_URI@[8] == 's');
        }
    }
    assert(uri != METADATA_URI@) by {
        if uri.len() == METADATA_URI@.len() {
            assert(METADATA_URI@[8] == 'm');
        }
    }
    assert(uri != RELATIONSHIPS_URI@) by {
        if uri.len() == RELATIONSHIPS_URI@.len() {
            assert(RELATIONSHIPS_URI@[8] == 'r');
        }
    }
    assert(uri.subrange(0, prefix.len() as int) =~= prefix);
    assert(starts_with(uri, prefix));
    let qualified = uri.skip(prefix.len() as int);
    assert(qualified =~= t.schema + "."@ + t.name);
    lemma_dot_after(t.schema, t.name, 0);
    let d = t.schema.len() as int;
    assert(qualified.take(d) =~= t.schema);
    assert(qualified.skip(d + 1) =~= t.name);
    lemma_table_found(db.tables, t.schema, t.name, 0, k);
    assert(named_table(db.tables, qualified) == table_from(db.tables, t.schema, t.name, 0));
}

fn char_range(v: &Vec<char>, from: usize, to: usize) -> (r: Vec<char>)
    requires
        from <= to <= v.len(),
    ensures
        r@ == v@.subrange(from as int, to as int),
{
    let mut out: Vec<char> = Vec::new();
    let mut i: usize = from;
    while i < to
        invariant
            from <= i <= to <= v.len(),
            out@ == v@.subrange(from as int, i as int),
        decreases to - i,
    {
        out.push(v[i]);
        i = i + 1;
        assert(out@ =~= v@.subrange(from as int, i as int));
    }
    out
}

/// The position of the table `qualified` names, if any.
fn find_named_table(database: &Database, qualified: &Vec<char>) -> (r: Option<usize>)
    ensures
        match r {
            Some(k) => named_table(database@.tables, qualified@) == k,
            None => named_table(database@.tables, qualified@) < 0,
        },
{
    let q = qualified;
    let mut d: usize = 0;
    assert(dot_from(q@, 0) == dot_from(q@, d as int));
    while d < q.len() && q[d] != '.'
        invariant
            d <= q.len(),
            dot_from(q@, 0) == dot_from(q@, d as int),
        decreases q.len() - d,
    {
        d = d + 1;
    }
    if d == q.len() {
        return None;
    }
    assert(dot_from(q@, d as int) == d as int);
    let schema = string_from_chars(&char_range(q, 0, d));
    let name = string_from_chars(&char_range(q, d + 1, q.len()));
    assert(q@.take(d as int) =~= q@.subrange(0, d as int));
    assert(q@.skip(d + 1) =~= q@.subrange(d + 1, q@.len() as int));
    let ghost tables = database@.tables;
    assert(named_table(tables, q@) == table_from(tables, schema@, name@, 0));
    let mut k: usize = 0;
    while k < database.tables.len()
        invariant
            q@ == qualified@,
            named_table(tables, q@) == table_from(tables, schema@, name@, 0),
            tables == database@.tables,
            tables.len() == database.tables.len(),
            k <= database.tables.len(),
            table_from(tables, schema@, name@, 0) == table_from(tables, schema@, name@, k as int),
        decreases database.tables.len() - k,
    {
        let t = &database.tables[k];
        assert(tables[k as int] == t@);
        if str_eq(t.schema.as_str(), schema.as_str()) && str_eq(t.name.as_str(), name.as_str()) {
            assert(table_from(tables, schema@, name@, k as int) == k as int);
            return Some(k);
        }
        k = k + 1;
    }
    None
}

/// The resource `uri` names in the cached schema, or the message refusing
/// it: an unknown URI, or a table URI that names no table.
pub fn resource_for(database: &Database, uri: &str) -> (r: Result<ResourceRef, String>)
    ensures
        match r {
            Ok(x) => resource_at(database@, uri@) == Ok::<ResourceRef, Seq<char>>(x),
            Err(m) => resource_at(database@, uri@) == Err::<ResourceRef, Seq<char>>(m@),
        },
{
    if str_eq(uri, GRAPH_URI) {
        Ok(ResourceRef::Graph)
    } else if str_eq(uri, SCHEMA_URI) {
        Ok(ResourceRef::Schema)
    } else if str_eq(uri, METADATA_URI) {
        Ok(ResourceRef::Metadata)
    } else if str_eq(uri, RELATIONSHIPS_URI) {
        Ok(ResourceRef::Relationships)
    } else if str_starts_with(uri, TABLES_PREFIX) {
        proof {
            reveal_strlit("dbctx://tables/");
        }
        let chars = chars_of(uri);
        let qualified = char_range(&chars, 15, chars.len());
        assert(qualified@ =~= uri@.skip(TABLES_PREFIX@.len() as int));
        match find_named_table(database, &qualified) {
            Some(k) => Ok(ResourceRef::Table(k)),
            None => {
                let mut m = owned("no table resource for `");
                let q = string_from_chars(&qualified);
                push_str(&mut m, q.as_str());
                push_str(&mut m, "`");
                Err(m)
            },
        }
    } else {
        let mut m = owned("no resource for `");
        push_str(&mut m, uri);
        push_str(&mut m, "`");
        Err(m)
    }
}

/// The three prompts answer with their texts: `summarize-schema` with the
/// schema summary, `describe-table` with the table descriptions and
/// `explain-relationships` with the relationship narrative; any other name
/// is refused, naming it.
pub proof fn law_prompts_answer_by_name(db: DatabaseSpec, name: Seq<char>)
    ensures
        prompt_answer(db, "summarize-schema"@) == Ok::<Seq<char>, Seq<char>>(schema_summary(db)),
        prompt_answer(db, "describe-table"@) == Ok::<Seq<char>, Seq<char>>(table_descriptions(db)),
        prompt_answer(db, "explain-relationships"@) == Ok::<Seq<char>, Seq<char>>(relationship_narrative(db)),
        name != "summarize-schema"@ && name != "describe-table"@ && name != "explain-relationships"@
            ==> prompt_answer(db, name) == Err::<Seq<char>, Seq<char>>("unknown prompt `"@ + name + "`"@),
{
    reveal_strlit("summarize-schema");
    reveal_strlit("describe-table");
    reveal_strlit("explain-relationships");
    assert("describe-table"@ != "summarize-schema"@) by {
        assert("describe-table"@.len() != "summarize-schema"@.len());
    }
    assert("explain-relationships"@ != "summarize-schema"@ && "explain-relationships"@
        != "describe-table"@) by {
        assert("explain-relationships"@.len() != "summarize-schema"@.len());
        assert("explain-relationships"@.len() != "describe-table"@.len());
    }
}

/// A relationship is explained from the referencing table to the
/// referenced one: the referencing table and its columns, `references`,
/// the referenced table and its columns, then the constraint's name.
pub proof fn law_relationships_are_explained_from_the_referencing_table(r: RelationshipSpec)
    ensures
        relationship_sentence(r) == r.from_schema + "."@ + r.from_table + "("@ + join(r.from_columns, ", "@)
            + ") references "@ + r.to_schema + "."@ + r.to_table + "("@ + join(r.to_columns, ", "@)
            + ") via `"@ + r.constraint + "`.\n"@,
{
}

/// A table's description names its primary-key columns, or `none` exactly
/// when no column is marked as part of the primary key, and counts its
/// columns.
pub proof fn law_descriptions_name_the_primary_key(t: TableSpec)
    ensures
        (primary_key_text(t) == "none"@) <== (forall|i: int|
            0 <= i < t.columns.len() ==> !(#[trigger] t.columns[i]).primary_key),
        (exists|i: int| 0 <= i < t.columns.len() && (#[trigger] t.columns[i]).primary_key)
            ==> primary_key_text(t) == join(primary_key_names(t.columns), ", "@),
        table_line(t) == "- "@ + t.schema + "."@ + t.name + " ("@ + decimal(t.columns.len()) + " columns)\n"@,
{
    crate::analysis::law_primary_key_names_are_the_key_columns(t.columns);
}

} // verus!
