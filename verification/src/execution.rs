//! The read-only check that guards statement execution, and the text that
//! date and time values of a result are written as.
//!
//! A statement is executed only when it is a single query that starts with
//! `SELECT` or `WITH` and contains no mutating keyword outside comments,
//! string literals and quoted identifiers. The check runs before any
//! database is contacted.
use vstd::prelude::*;

use crate::database::{database_error_text, DatabaseError};
use crate::text::{
    ascii_uppercase, decimal, decimal_string_u64, is_ascii_alnum, is_ascii_alpha, is_whitespace,
    owned, push_char, push_str, str_eq, to_ascii_uppercase, trim,
};

verus! {

/// Why a read-only statement could not be executed.
#[derive(Debug)]
pub enum ExecutionError {
    /// The statement contains a mutating keyword, or does not start as a
    /// query.
    NotReadOnly {
        /// The word that was refused.
        keyword: String,
    },
    /// More than one statement was supplied.
    MultipleStatements,
    /// The statement did not complete within the configured timeout, in
    /// seconds.
    Timeout(u64),
    /// The database returned an error while executing the statement.
    Database(DatabaseError),
    /// The result could not be serialized to JSON.
    Serialization(String),
}

/// The message an execution error is reported with.
pub open spec fn execution_error_text(e: ExecutionError) -> Seq<char> {
    match e {
        ExecutionError::NotReadOnly { keyword } => "statement is not read-only: it contains `"@
            + keyword@ + "`"@,
        ExecutionError::MultipleStatements => "only a single statement is allowed"@,
        ExecutionError::Timeout(n) => "statement execution timed out after "@ + decimal(n as nat)
            + " seconds"@,
        ExecutionError::Database(d) => "could not execute statement: "@ + database_error_text(d),
        ExecutionError::Serialization(d) => "could not serialize results: "@ + d@,
    }
}

/// The exit code a failure is reported with.
pub open spec fn exit_code_of(e: ExecutionError) -> u8 {
    match e {
        ExecutionError::NotReadOnly { .. } => 8,
        ExecutionError::MultipleStatements => 8,
        ExecutionError::Database(DatabaseError::Connection(_)) => 2,
        ExecutionError::Database(DatabaseError::Catalog(_)) => 7,
        ExecutionError::Timeout(_) => 7,
        ExecutionError::Serialization(_) => 1,
    }
}

impl ExecutionError {
    /// The exit code the command line gives this failure.
    pub fn exit_code(&self) -> (r: u8)
        ensures
            r == exit_code_of(*self),
    {
        match self {
            ExecutionError::NotReadOnly { .. } | ExecutionError::MultipleStatements => 8,
            ExecutionError::Database(DatabaseError::Connection(_)) => 2,
            ExecutionError::Database(DatabaseError::Catalog(_)) => 7,
            ExecutionError::Timeout(_) => 7,
            ExecutionError::Serialization(_) => 1,
        }
    }

    /// The message this error is reported with.
    pub fn to_string(&self) -> (r: String)
        ensures
            r@ == execution_error_text(*self),
    {
        match self {
            ExecutionError::NotReadOnly { keyword } => {
                let mut out = owned("statement is not read-only: it contains `");
                push_str(&mut out, keyword.as_str());
                push_str(&mut out, "`");
                out
            },
            ExecutionError::MultipleStatements => owned("only a single statement is allowed"),
            ExecutionError::Timeout(n) => {
                let mut out = owned("statement execution timed out after ");
                let digits = crate::text::decimal_string_u64(*n);
                push_str(&mut out, digits.as_str());
                push_str(&mut out, " seconds");
                out
            },
            ExecutionError::Database(d) => {
                let mut out = owned("could not execute statement: ");
                let inner = d.to_string();
                push_str(&mut out, inner.as_str());
                out
            },
            ExecutionError::Serialization(d) => {
                let mut out = owned("could not serialize results: ");
                push_str(&mut out, d.as_str());
                out
            },
        }
    }
}

// ---------------------------------------------------------------------------
// Scanning
// ---------------------------------------------------------------------------

/// Whether characters `a` then `b` stand at position `q` of `s`.
pub open spec fn pair_at(s: Seq<char>, q: int, a: char, b: char) -> bool {
    0 <= q && q + 1 < s.len() && s[q] == a && s[q + 1] == b
}

/// The first position at or after `p` where `a` then `b` stand, or -1.
pub open spec fn find_pair(s: Seq<char>, p: int, a: char, b: char) -> int
    decreases s.len() - p,
{
    if p < 0 || p + 1 >= s.len() {
        -1
    } else if pair_at(s, p, a, b) {
        p
    } else {
        find_pair(s, p + 1, a, b)
    }
}

/// The first position at or after `p` where `c` stands, or -1.
pub open spec fn find_char(s: Seq<char>, p: int, c: char) -> int
    decreases s.len() - p,
{
    if p < 0 || p >= s.len() {
        -1
    } else if s[p] == c {
        p
    } else {
        find_char(s, p + 1, c)
    }
}

/// The position after the whitespace that starts at `p`.
pub open spec fn skip_ws(s: Seq<char>, p: int) -> int
    decreases s.len() - p,
{
    if 0 <= p < s.len() && is_whitespace(s[p]) {
        skip_ws(s, p + 1)
    } else {
        p
    }
}

/// Where the comment that starts at `q` ends, or -1 when none starts
/// there: a block comment runs through its `*/` (or to the end), a line
/// comment through its line feed (or to the end).
pub open spec fn comment_end(s: Seq<char>, q: int) -> int {
    if pair_at(s, q, '/', '*') {
        let e = find_pair(s, q + 2, '*', '/');
        if e < 0 {
            s.len() as int
        } else {
            e + 2
        }
    } else if pair_at(s, q, '-', '-') {
        let e = find_char(s, q + 2, '\n');
        if e < 0 {
            s.len() as int
        } else {
            e + 1
        }
    } else {
        -1
    }
}

/// The position after the whitespace and comments that start at `p`. A
/// comment always ends past where it starts.
pub open spec fn skip_noise(s: Seq<char>, p: int) -> int
    decreases s.len() - p,
{
    let q = skip_ws(s, p);
    let c = comment_end(s, q);
    if p < c <= s.len() {
        skip_noise(s, c)
    } else {
        q
    }
}

/// A character that can start a word.
pub open spec fn is_word_start(c: char) -> bool {
    is_ascii_alpha(c) || c == '_' || c == '@'
}

/// A character that can continue a word.
pub open spec fn is_word_continue(c: char) -> bool {
    is_ascii_alnum(c) || c == '_' || c == '@' || c == '$'
}

/// The position after the word characters that start at `q`.
pub open spec fn word_tail_end(s: Seq<char>, q: int) -> int
    decreases s.len() - q,
{
    if 0 <= q < s.len() && is_word_continue(s[q]) {
        word_tail_end(s, q + 1)
    } else {
        q
    }
}

/// The word after the noise at `p`, and the position after it; the word is
/// empty when none starts there.
pub open spec fn next_word(s: Seq<char>, p: int) -> (Seq<char>, int) {
    let q = skip_noise(s, p);
    if 0 <= q < s.len() && is_word_start(s[q]) {
        let e = word_tail_end(s, q + 1);
        (s.subrange(q, e), e)
    } else {
        (Seq::empty(), q)
    }
}

/// The position after a single-quoted string whose body starts at `q`; a
/// doubled quote stands for a quote inside it.
pub open spec fn single_quoted_end(s: Seq<char>, q: int) -> int
    decreases s.len() - q,
{
    if q < 0 || q >= s.len() {
        q
    } else if s[q] == '\'' {
        if q + 1 < s.len() && s[q + 1] == '\'' {
            single_quoted_end(s, q + 2)
        } else {
            q + 1
        }
    } else {
        single_quoted_end(s, q + 1)
    }
}

/// The position after a delimited name whose body starts at `q` and which
/// `closer` ends; a backslash escapes the next character.
pub open spec fn delimited_end(s: Seq<char>, q: int, closer: char) -> int
    decreases s.len() - q,
{
    if q < 0 || q >= s.len() {
        q
    } else if s[q] == closer {
        q + 1
    } else if s[q] == '\\' {
        if q + 2 <= s.len() {
            delimited_end(s, q + 2, closer)
        } else {
            s.len() as int
        }
    } else {
        delimited_end(s, q + 1, closer)
    }
}

/// Whether `c` opens a string literal or a quoted name.
pub open spec fn is_quote(c: char) -> bool {
    c == '\'' || c == '"' || c == '`' || c == '['
}

/// The position after the quoted text that opens at `q`.
pub open spec fn quoted_end(s: Seq<char>, q: int) -> int {
    let c = s[q];
    if c == '\'' {
        single_quoted_end(s, q + 1)
    } else if c == '"' {
        delimited_end(s, q + 1, '"')
    } else if c == '`' {
        delimited_end(s, q + 1, '`')
    } else {
        delimited_end(s, q + 1, ']')
    }
}

/// What the scanner sees of a statement.
pub enum Lexeme {
    /// A word, as written.
    Word(Seq<char>),
    /// A statement separator.
    Semicolon,
    /// Anything else: punctuation, numbers, quoted text.
    Other,
}

/// The next lexeme after the noise at `p`, and the position after it.
pub open spec fn next_lexeme(s: Seq<char>, p: int) -> Option<(Lexeme, int)> {
    let q = skip_noise(s, p);
    if q < 0 || q >= s.len() {
        None
    } else {
        let c = s[q];
        if c == ';' {
            Some((Lexeme::Semicolon, q + 1))
        } else if is_quote(c) {
            Some((Lexeme::Other, quoted_end(s, q)))
        } else if is_word_start(c) {
            let (w, e) = next_word(s, q);
            Some((Lexeme::Word(w), e))
        } else {
            Some((Lexeme::Other, q + 1))
        }
    }
}

/// The words that change data or schema.
pub open spec fn is_mutating_keyword(w: Seq<char>) -> bool {
    w == "INSERT"@ || w == "UPDATE"@ || w == "DELETE"@ || w == "DROP"@ || w == "ALTER"@ || w
        == "CREATE"@ || w == "TRUNCATE"@ || w == "MERGE"@
}

/// Why a statement is refused before it reaches the database.
pub enum Refusal {
    /// It holds, or starts with, the given word.
    NotReadOnly(Seq<char>),
    /// It holds more than one statement.
    MultipleStatements,
}

/// The failure, if any, that scanning `s` from `p` finds: the first word
/// that is a mutating keyword, or a second statement after a semicolon.
/// Every lexeme ends past where it starts.
pub open spec fn scan_verdict(s: Seq<char>, p: int) -> Option<Refusal>
    decreases s.len() - p,
{
    match next_lexeme(s, p) {
        None => None,
        Some((lx, e)) => if !(p < e <= s.len()) {
            None
        } else {
            match lx {
                Lexeme::Word(w) => if is_mutating_keyword(ascii_uppercase(w)) {
                    Some(Refusal::NotReadOnly(ascii_uppercase(w)))
                } else {
                    scan_verdict(s, e)
                },
                Lexeme::Semicolon => if skip_noise(s, e) < s.len() {
                    Some(Refusal::MultipleStatements)
                } else {
                    None
                },
                Lexeme::Other => scan_verdict(s, e),
            }
        },
    }
}

/// Why `sql` is refused, if it is: an empty statement, a first word
/// other than `SELECT` or `WITH`, a mutating keyword, or a second
/// statement. Leading and trailing whitespace is ignored.
pub open spec fn read_only_verdict(sql: Seq<char>) -> Option<Refusal> {
    let t = trim(sql);
    if t.len() == 0 {
        Some(Refusal::NotReadOnly("empty statement"@))
    } else {
        let first = ascii_uppercase(next_word(t, skip_noise(t, 0)).0);
        if first != "SELECT"@ && first != "WITH"@ {
            Some(Refusal::NotReadOnly(first))
        } else {
            scan_verdict(t, 0)
        }
    }
}

/// Whitespace before or after a statement never changes whether it is
/// refused, nor why.
pub proof fn law_surrounding_whitespace_is_ignored(before: Seq<char>, sql: Seq<char>, after: Seq<char>)
    requires
        crate::text::is_blank(before),
        crate::text::is_blank(after),
    ensures
        read_only_verdict(before + sql + after) == read_only_verdict(sql),
{
    crate::text::lemma_trim_ignores_surrounding_whitespace(before, sql, after);
}

proof fn lemma_skip_ws(s: Seq<char>, p: int)
    requires
        0 <= p <= s.len(),
    ensures
        p <= skip_ws(s, p) <= s.len(),
    decreases s.len() - p,
{
    if p < s.len() && is_whitespace(s[p]) {
        lemma_skip_ws(s, p + 1);
    }
}

proof fn lemma_find_pair(s: Seq<char>, p: int, a: char, b: char)
    requires
        0 <= p,
    ensures
        find_pair(s, p, a, b) == -1 || p <= find_pair(s, p, a, b) < s.len() - 1,
    decreases s.len() - p,
{
    if p + 1 < s.len() && !pair_at(s, p, a, b) {
        lemma_find_pair(s, p + 1, a, b);
    }
}

proof fn lemma_find_char(s: Seq<char>, p: int, c: char)
    requires
        0 <= p,
    ensures
        find_char(s, p, c) == -1 || p <= find_char(s, p, c) < s.len(),
    decreases s.len() - p,
{
    if p < s.len() && s[p] != c {
        lemma_find_char(s, p + 1, c);
    }
}

proof fn lemma_comment_end(s: Seq<char>, q: int)
    requires
        0 <= q <= s.len(),
    ensures
        comment_end(s, q) == -1 || q < comment_end(s, q) <= s.len(),
{
    lemma_find_pair(s, q + 2, '*', '/');
    lemma_find_char(s, q + 2, '\n');
}

proof fn lemma_skip_noise(s: Seq<char>, p: int)
    requires
        0 <= p <= s.len(),
    ensures
        p <= skip_noise(s, p) <= s.len(),
    decreases s.len() - p,
{
    lemma_skip_ws(s, p);
    let q = skip_ws(s, p);
    lemma_comment_end(s, q);
    let c = comment_end(s, q);
    if p < c <= s.len() {
        lemma_skip_noise(s, c);
    }
}

proof fn lemma_word_tail_end(s: Seq<char>, q: int)
    requires
        0 <= q <= s.len(),
    ensures
        q <= word_tail_end(s, q) <= s.len(),
    decreases s.len() - q,
{
    if q < s.len() && is_word_continue(s[q]) {
        lemma_word_tail_end(s, q + 1);
    }
}

proof fn lemma_single_quoted_end(s: Seq<char>, q: int)
    requires
        0 <= q <= s.len(),
    ensures
        q <= single_quoted_end(s, q) <= s.len(),
    decreases s.len() - q,
{
    if q < s.len() {
        if s[q] == '\'' {
            if q + 1 < s.len() && s[q + 1] == '\'' {
                lemma_single_quoted_end(s, q + 2);
            }
        } else {
            lemma_single_quoted_end(s, q + 1);
        }
    }
}

proof fn lemma_delimited_end(s: Seq<char>, q: int, closer: char)
    requires
        0 <= q <= s.len(),
    ensures
        q <= delimited_end(s, q, closer) <= s.len(),
    decreases s.len() - q,
{
    if q < s.len() && s[q] != closer {
        if s[q] == '\\' {
            if q + 2 <= s.len() {
                lemma_delimited_end(s, q + 2, closer);
            }
        } else {
            lemma_delimited_end(s, q + 1, closer);
        }
    }
}

proof fn lemma_next_lexeme(s: Seq<char>, p: int)
    requires
        0 <= p <= s.len(),
    ensures
        match next_lexeme(s, p) {
            Some((_, e)) => p < e <= s.len(),
            None => skip_noise(s, p) == s.len(),
        },
{
    lemma_skip_noise(s, p);
    let q = skip_noise(s, p);
    if q < s.len() {
        let c = s[q];
        if is_quote(c) {
            lemma_single_quoted_end(s, q + 1);
            lemma_delimited_end(s, q + 1, '"');
            lemma_delimited_end(s, q + 1, '`');
            lemma_delimited_end(s, q + 1, ']');
        } else if is_word_start(c) {
            lemma_skip_noise(s, q);
            let r = skip_noise(s, q);
            if 0 <= r < s.len() && is_word_start(s[r]) {
                lemma_word_tail_end(s, r + 1);
            }
            assert(skip_ws(s, q) == q);
            assert(comment_end(s, q) == -1);
        }
    }
}

fn skip_ws_exec(s: &Vec<char>, p: usize) -> (r: usize)
    requires
        p <= s.len(),
    ensures
        r == skip_ws(s@, p as int),
{
    let mut i = p;
    while i < s.len() && crate::text::char_is_whitespace(s[i])
        invariant
            p <= i <= s.len(),
            skip_ws(s@, p as int) == skip_ws(s@, i as int),
        decreases s.len() - i,
    {
        i = i + 1;
    }
    i
}

fn find_pair_exec(s: &Vec<char>, p: usize, a: char, b: char) -> (r: Option<usize>)
    requires
        p <= s.len(),
    ensures
        match r {
            Some(q) => q as int == find_pair(s@, p as int, a, b),
            None => find_pair(s@, p as int, a, b) == -1,
        },
{
    let mut i = p;
    while i < s.len() && s.len() - i > 1
        invariant
            p <= i <= s.len(),
            find_pair(s@, p as int, a, b) == find_pair(s@, i as int, a, b),
        decreases s.len() - i,
    {
        if s[i] == a && s[i + 1] == b {
            return Some(i);
        }
        i = i + 1;
    }
    None
}

fn find_char_exec(s: &Vec<char>, p: usize, c: char) -> (r: Option<usize>)
    requires
        p <= s.len(),
    ensures
        match r {
            Some(q) => q as int == find_char(s@, p as int, c),
            None => find_char(s@, p as int, c) == -1,
        },
{
    let mut i = p;
    while i < s.len()
        invariant
            p <= i <= s.len(),
            find_char(s@, p as int, c) == find_char(s@, i as int, c),
        decreases s.len() - i,
    {
        if s[i] == c {
            return Some(i);
        }
        i = i + 1;
    }
    None
}

fn comment_end_exec(s: &Vec<char>, q: usize) -> (r: Option<usize>)
    requires
        q <= s.len(),
    ensures
        match r {
            Some(c) => c as int == comment_end(s@, q as int),
            None => comment_end(s@, q as int) == -1,
        },
{
    if q < s.len() && s.len() - q > 1 && s[q] == '/' && s[q + 1] == '*' {
        match find_pair_exec(s, q + 2, '*', '/') {
            Some(e) => {
                proof {
                    lemma_find_pair(s@, q + 2, '*', '/');
                }
                Some(e + 2)
            },
            None => Some(s.len()),
        }
    } else if q < s.len() && s.len() - q > 1 && s[q] == '-' && s[q + 1] == '-' {
        match find_char_exec(s, q + 2, '\n') {
            Some(e) => {
                proof {
                    lemma_find_char(s@, q + 2, '\n');
                }
                Some(e + 1)
            },
            None => Some(s.len()),
        }
    } else {
        None
    }
}

fn skip_noise_exec(s: &Vec<char>, p: usize) -> (r: usize)
    requires
        p <= s.len(),
    ensures
        r == skip_noise(s@, p as int),
        p <= r <= s.len(),
{
    let mut i = p;
    loop
        invariant
            p <= i <= s.len(),
            skip_noise(s@, p as int) == skip_noise(s@, i as int),
        decreases s.len() - i,
    {
        let q = skip_ws_exec(s, i);
        proof {
            lemma_skip_ws(s@, i as int);
            lemma_comment_end(s@, q as int);
        }
        match comment_end_exec(s, q) {
            Some(c) => {
                i = c;
            },
            None => {
                return q;
            },
        }
    }
}

fn word_tail_end_exec(s: &Vec<char>, q: usize) -> (r: usize)
    requires
        q <= s.len(),
    ensures
        r == word_tail_end(s@, q as int),
{
    let mut i = q;
    while i < s.len() && word_continue(s[i])
        invariant
            q <= i <= s.len(),
            word_tail_end(s@, q as int) == word_tail_end(s@, i as int),
        decreases s.len() - i,
    {
        i = i + 1;
    }
    i
}

fn word_start(c: char) -> (r: bool)
    ensures
        r == is_word_start(c),
{
    crate::text::char_is_ascii_alpha(c) || c == '_' || c == '@'
}

fn word_continue(c: char) -> (r: bool)
    ensures
        r == is_word_continue(c),
{
    crate::text::char_is_ascii_alnum(c) || c == '_' || c == '@' || c == '$'
}

fn next_word_exec(s: &Vec<char>, p: usize) -> (r: (Vec<char>, usize))
    requires
        p <= s.len(),
    ensures
        r.0@ == next_word(s@, p as int).0,
        r.1 as int == next_word(s@, p as int).1,
{
    let q = skip_noise_exec(s, p);
    if q < s.len() && word_start(s[q]) {
        let e = word_tail_end_exec(s, q + 1);
        proof {
            lemma_word_tail_end(s@, q + 1);
        }
        let mut w: Vec<char> = Vec::new();
        let mut i = q;
        while i < e
            invariant
                q <= i <= e <= s.len(),
                w@ == s@.subrange(q as int, i as int),
            decreases e - i,
        {
            w.push(s[i]);
            i = i + 1;
            assert(w@ =~= s@.subrange(q as int, i as int));
        }
        (w, e)
    } else {
        (Vec::new(), q)
    }
}

fn single_quoted_end_exec(s: &Vec<char>, q: usize) -> (r: usize)
    requires
        q <= s.len(),
    ensures
        r == single_quoted_end(s@, q as int),
{
    let mut i = q;
    while i < s.len()
        invariant
            q <= i <= s.len(),
            single_quoted_end(s@, q as int) == single_quoted_end(s@, i as int),
        decreases s.len() - i,
    {
        if s[i] == '\'' {
            if s.len() - i > 1 && s[i + 1] == '\'' {
                i = i + 2;
            } else {
                return i + 1;
            }
        } else {
            i = i + 1;
        }
    }
    i
}

fn delimited_end_exec(s: &Vec<char>, q: usize, closer: char) -> (r: usize)
    requires
        q <= s.len(),
    ensures
        r == delimited_end(s@, q as int, closer),
{
    let mut i = q;
    while i < s.len()
        invariant
            q <= i <= s.len(),
            delimited_end(s@, q as int, closer) == delimited_end(s@, i as int, closer),
        decreases s.len() - i,
    {
        if s[i] == closer {
            return i + 1;
        } else if s[i] == '\\' {
            if s.len() - i >= 2 {
                i = i + 2;
            } else {
                return s.len();
            }
        } else {
            i = i + 1;
        }
    }
    i
}

fn quoted_end_exec(s: &Vec<char>, q: usize) -> (r: usize)
    requires
        q < s.len(),
    ensures
        r == quoted_end(s@, q as int),
{
    let c = s[q];
    if c == '\'' {
        single_quoted_end_exec(s, q + 1)
    } else if c == '"' {
        delimited_end_exec(s, q + 1, '"')
    } else if c == '`' {
        delimited_end_exec(s, q + 1, '`')
    } else {
        delimited_end_exec(s, q + 1, ']')
    }
}

fn mutating_keyword(w: &str) -> (r: bool)
    ensures
        r == is_mutating_keyword(w@),
{
    str_eq(w, "INSERT") || str_eq(w, "UPDATE") || str_eq(w, "DELETE") || str_eq(w, "DROP")
        || str_eq(w, "ALTER") || str_eq(w, "CREATE") || str_eq(w, "TRUNCATE") || str_eq(
        w,
        "MERGE",
    )
}

fn refusal(keyword: String) -> (r: Result<(), ExecutionError>)
    ensures
        r matches Err(ExecutionError::NotReadOnly { keyword: k }) && k@ == keyword@,
{
    Err(ExecutionError::NotReadOnly { keyword })
}

/// Reject any statement that is not a single read-only query.
pub fn validate_read_only(sql: &str) -> (r: Result<(), ExecutionError>)
    ensures
        match read_only_verdict(sql@) {
            None => r is Ok,
            Some(Refusal::NotReadOnly(k)) => r matches Err(ExecutionError::NotReadOnly { keyword })
                && keyword@ == k,
            Some(Refusal::MultipleStatements) => r matches Err(ExecutionError::MultipleStatements),
        },
{
    let chars = crate::text::chars_of(sql);
    let t = crate::text::trim_chars(&chars);
    if t.len() == 0 {
        return refusal(owned("empty statement"));
    }
    let start = skip_noise_exec(&t, 0);
    let (first_word, _) = next_word_exec(&t, start);
    let word = crate::text::string_from_chars(&first_word);
    let first = to_ascii_uppercase(word.as_str());
    if !str_eq(first.as_str(), "SELECT") && !str_eq(first.as_str(), "WITH") {
        return refusal(first);
    }
    let mut p: usize = 0;
    loop
        invariant
            t@ == trim(sql@),
            t@.len() > 0,
            p <= t.len(),
            read_only_verdict(sql@) == scan_verdict(t@, p as int),
        decreases t.len() - p,
    {
        proof {
            lemma_next_lexeme(t@, p as int);
        }
        let q = skip_noise_exec(&t, p);
        if q >= t.len() {
            return Ok(());
        }
        let c = t[q];
        if c == ';' {
            let after = skip_noise_exec(&t, q + 1);
            if after < t.len() {
                return Err(ExecutionError::MultipleStatements);
            }
            return Ok(());
        } else if c == '\'' || c == '"' || c == '`' || c == '[' {
            p = quoted_end_exec(&t, q);
        } else if word_start(c) {
            let (w, e) = next_word_exec(&t, q);
            let text = crate::text::string_from_chars(&w);
            let upper = to_ascii_uppercase(text.as_str());
            if mutating_keyword(upper.as_str()) {
                return refusal(upper);
            }
            p = e;
        } else {
            p = q + 1;
        }
    }
}

// ---------------------------------------------------------------------------
// MySQL temporal values
// ---------------------------------------------------------------------------

/// `n` in decimal, with leading zeros up to `width` digits, as `{:0width$}`
/// formats it.
pub open spec fn padded(n: nat, width: nat) -> Seq<char> {
    let d = decimal(n);
    if d.len() >= width {
        d
    } else {
        Seq::new((width - d.len()) as nat, |i: int| '0') + d
    }
}

/// `n` in decimal with leading zeros up to `width` digits.
fn padded_string(n: u64, width: usize) -> (r: String)
    ensures
        r@ == padded(n as nat, width as nat),
{
    let digits = decimal_string_u64(n);
    let len = digits.as_str().unicode_len();
    if len >= width {
        digits
    } else {
        let mut out = String::new();
        let mut i: usize = 0;
        while i < width - len
            invariant
                len < width,
                i <= width - len,
                out@ == Seq::new(i as nat, |k: int| '0'),
            decreases width - len - i,
        {
            push_char(&mut out, '0');
            i = i + 1;
            assert(out@ =~= Seq::new(i as nat, |k: int| '0'));
        }
        push_str(&mut out, digits.as_str());
        out
    }
}

/// A MySQL `DATE`, `DATETIME` or `TIMESTAMP` value as result text:
/// `YYYY-MM-DD hh:mm:ss.ffffff`.
pub open spec fn mysql_datetime_text(
    year: u16,
    month: u8,
    day: u8,
    hour: u8,
    minute: u8,
    second: u8,
    microsecond: u32,
) -> Seq<char> {
    padded(year as nat, 4) + "-"@ + padded(month as nat, 2) + "-"@ + padded(day as nat, 2) + " "@
        + padded(hour as nat, 2) + ":"@ + padded(minute as nat, 2) + ":"@ + padded(second as nat, 2)
        + "."@ + padded(microsecond as nat, 6)
}

/// A MySQL `TIME` value as result text: a sign, the days, then
/// `hh:mm:ss.ffffff`.
pub open spec fn mysql_time_text(
    negative: bool,
    days: u32,
    hours: u8,
    minutes: u8,
    seconds: u8,
    microseconds: u32,
) -> Seq<char> {
    (if negative {
        "-"@
    } else {
        "+"@
    }) + decimal(days as nat) + ":"@ + padded(hours as nat, 2) + ":"@ + padded(minutes as nat, 2)
        + ":"@ + padded(seconds as nat, 2) + "."@ + padded(microseconds as nat, 6)
}

fn push_padded(out: &mut String, n: u64, width: usize)
    ensures
        final(out)@ == old(out)@ + padded(n as nat, width as nat),
{
    let p = padded_string(n, width);
    push_str(out, p.as_str());
}

/// The result text of a MySQL date and time value.
pub fn format_mysql_datetime(
    year: u16,
    month: u8,
    day: u8,
    hour: u8,
    minute: u8,
    second: u8,
    microsecond: u32,
) -> (r: String)
    ensures
        r@ == mysql_datetime_text(year, month, day, hour, minute, second, microsecond),
{
    let mut out = String::new();
    push_padded(&mut out, year as u64, 4);
    push_str(&mut out, "-");
    push_padded(&mut out, month as u64, 2);
    push_str(&mut out, "-");
    push_padded(&mut out, day as u64, 2);
    push_str(&mut out, " ");
    push_padded(&mut out, hour as u64, 2);
    push_str(&mut out, ":");
    push_padded(&mut out, minute as u64, 2);
    push_str(&mut out, ":");
    push_padded(&mut out, second as u64, 2);
    push_str(&mut out, ".");
    push_padded(&mut out, microsecond as u64, 6);
    assert(out@ =~= mysql_datetime_text(year, month, day, hour, minute, second, microsecond));
    out
}

/// The result text of a MySQL time value.
pub fn format_mysql_time(
    negative: bool,
    days: u32,
    hours: u8,
    minutes: u8,
    seconds: u8,
    microseconds: u32,
) -> (r: String)
    ensures
        r@ == mysql_time_text(negative, days, hours, minutes, seconds, microseconds),
{
    let mut out = if negative {
        owned("-")
    } else {
        owned("+")
    };
    let d = decimal_string_u64(days as u64);
    push_str(&mut out, d.as_str());
    push_str(&mut out, ":");
    push_padded(&mut out, hours as u64, 2);
    push_str(&mut out, ":");
    push_padded(&mut out, minutes as u64, 2);
    push_str(&mut out, ":");
    push_padded(&mut out, seconds as u64, 2);
    push_str(&mut out, ".");
    push_padded(&mut out, microseconds as u64, 6);
    assert(out@ =~= mysql_time_text(negative, days, hours, minutes, seconds, microseconds));
    out
}

// ---------------------------------------------------------------------------
// SQL Server temporal values
// ---------------------------------------------------------------------------

/// `10` to the power `k`.
pub open spec fn pow10(k: nat) -> nat
    decreases k,
{
    if k == 0 {
        1
    } else {
        10 * pow10((k - 1) as nat)
    }
}

/// Nanoseconds since midnight of a `time` value counted in increments of
/// `10^-scale` seconds.
pub open spec fn time_nanos(increments: u64, scale: u8) -> int {
    if scale >= 9 {
        increments as int
    } else {
        increments * pow10((9 - scale) as nat)
    }
}

/// Nanoseconds since midnight of a `time` value counted in increments of
/// `10^-scale` seconds.
pub fn time_nanoseconds(increments: u64, scale: u8) -> (r: i64)
    requires
        time_nanos(increments, scale) <= i64::MAX,
    ensures
        r == time_nanos(increments, scale),
{
    if scale >= 9 {
        increments as i64
    } else {
        let mut factor: u64 = 1;
        let mut k: u8 = 0;
        while k < 9 - scale
            invariant
                scale < 9,
                k <= 9 - scale,
                factor == pow10(k as nat),
                factor <= 1_000_000_000,
            decreases 9 - scale - k,
        {
            assert(pow10((k + 1) as nat) == 10 * pow10(k as nat));
            assert(factor * 10 <= 1_000_000_000) by {
                assert(k < 9);
                lemma_pow10_bound(k as nat);
            }
            factor = factor * 10;
            k = k + 1;
        }
        assert(increments * factor <= i64::MAX);
        (increments * factor) as i64
    }
}

proof fn lemma_pow10_bound(k: nat)
    requires
        k < 9,
    ensures
        pow10(k) * 10 <= 1_000_000_000,
    decreases k,
{
    reveal_with_fuel(pow10, 10);
}

/// The `+hh:mm` or `-hh:mm` suffix of an offset of `minutes` from UTC.
pub open spec fn offset_text(minutes: i16) -> Seq<char> {
    let m: int = if minutes >= 0 {
        minutes as int
    } else {
        -(minutes as int)
    };
    (if minutes >= 0 {
        "+"@
    } else {
        "-"@
    }) + padded((m / 60) as nat, 2) + ":"@ + padded((m % 60) as nat, 2)
}

/// The `+hh:mm` or `-hh:mm` suffix of an offset of `minutes` from UTC.
pub fn offset_suffix(minutes: i16) -> (r: String)
    requires
        minutes > i16::MIN,
    ensures
        r@ == offset_text(minutes),
{
    let m: i16 = if minutes >= 0 {
        minutes
    } else {
        -minutes
    };
    let mut out = if minutes >= 0 {
        owned("+")
    } else {
        owned("-")
    };
    push_padded(&mut out, (m / 60) as u64, 2);
    push_str(&mut out, ":");
    push_padded(&mut out, (m % 60) as u64, 2);
    out
}

// ---------------------------------------------------------------------------
// SQL Server dates and times
// ---------------------------------------------------------------------------

/// The text of the date `days` days after January 1 of `base_year`, as the
/// `time` crate writes dates, or nothing when that date lies outside the
/// crate's calendar. It depends on its arguments alone.
pub uninterp spec fn calendar_date(base_year: i32, days: i64) -> Option<Seq<char>>;

/// `time::Date::from_ordinal_date(base_year, 1)` moved by
/// `time::Duration::days(days)` with `checked_add`, then written with
/// `to_string`. Its result is named by [`calendar_date`]; the one fact
/// claimed beyond that is that a move by no days stays in range.
#[verifier::external_body]
fn date_after(base_year: i32, days: i64) -> (r: Option<String>)
    requires
        -9999 <= base_year <= 9999,
        i64::MIN <= days * 86400 <= i64::MAX,
    ensures
        match r {
            Some(s) => calendar_date(base_year, days) == Some(s@),
            None => calendar_date(base_year, days) is None,
        },
        days == 0 ==> r is Some,
{
    let base = time::Date::from_ordinal_date(base_year, 1).expect("a year in range has a first day");
    match base.checked_add(time::Duration::days(days)) {
        Some(date) => Some(date.to_string()),
        None => None,
    }
}

/// The nine digits of a fraction of a second without their trailing zeros,
/// keeping at least one digit.
pub open spec fn trimmed_fraction(digits: Seq<char>) -> Seq<char>
    decreases digits.len(),
{
    if digits.len() > 1 && digits.last() == '0' {
        trimmed_fraction(digits.drop_last())
    } else {
        digits
    }
}

/// How the `time` crate writes the time of day `n` nanoseconds after
/// midnight, wrapping around the day: the hour without padding, minutes
/// and seconds in two digits, and the fraction of a second without
/// trailing zeros, as in `1:01:01.0` or `0:00:12.3456789`.
pub open spec fn time_of_day_text(n: nat) -> Seq<char> {
    let secs = n / 1_000_000_000;
    decimal((secs / 3600) % 24) + ":"@ + padded((secs / 60) % 60, 2) + ":"@ + padded(secs % 60, 2)
        + "."@ + trimmed_fraction(padded(n % 1_000_000_000, 9))
}

/// A time of day reads the same a whole number of days later.
proof fn lemma_time_of_day_wraps(n: nat)
    ensures
        time_of_day_text((n % 86_400_000_000_000) as nat) == time_of_day_text(n),
{
    let ni = n as int;
    let d: int = 86_400_000_000_000;
    let g: int = 1_000_000_000;
    let q: int = ni / d;
    let r: int = ni % d;
    vstd::arithmetic::div_mod::lemma_fundamental_div_mod(ni, d);
    assert(q >= 0 && 0 <= r < d);
    assert(d * q == q * 86400 * g) by (nonlinear_arith)
        requires
            d == 86_400_000_000_000,
            g == 1_000_000_000,
    ;
    vstd::arithmetic::div_mod::lemma_hoist_over_denominator(r, q * 86400, g as nat);
    let sr = r / g;
    assert(ni / g == sr + q * 86400);
    vstd::arithmetic::div_mod::lemma_mod_multiples_vanish(q * 86400, r, g);
    assert(g * (q * 86400) == q * 86400 * g) by (nonlinear_arith);
    assert(ni % g == r % g);
    vstd::arithmetic::div_mod::lemma_mod_multiples_vanish(q * 1440, sr, 60);
    assert(60 * (q * 1440) == q * 86400) by (nonlinear_arith);
    assert((ni / g) % 60 == sr % 60);
    vstd::arithmetic::div_mod::lemma_hoist_over_denominator(sr, q * 1440, 60);
    assert(q * 1440 * 60 == q * 86400) by (nonlinear_arith);
    assert((ni / g) / 60 == sr / 60 + q * 1440);
    vstd::arithmetic::div_mod::lemma_mod_multiples_vanish(q * 24, sr / 60, 60);
    assert(60 * (q * 24) == q * 1440) by (nonlinear_arith);
    assert(((ni / g) / 60) % 60 == (sr / 60) % 60);
    vstd::arithmetic::div_mod::lemma_hoist_over_denominator(sr, q * 24, 3600);
    assert(q * 24 * 3600 == q * 86400) by (nonlinear_arith);
    assert((ni / g) / 3600 == sr / 3600 + q * 24);
    vstd::arithmetic::div_mod::lemma_mod_multiples_vanish(q, sr / 3600, 24);
    assert(((ni / g) / 3600) % 24 == (sr / 3600) % 24);
}

/// `time::Time::MIDNIGHT + time::Duration::nanoseconds(nanoseconds)`,
/// written with `to_string`. The addition wraps around the day, forward or
/// backward (`Add<SignedDuration> for Time` adds the hours modulo a day,
/// the minutes, the seconds and the nanoseconds, and carries or borrows
/// between them), so the result is the time of day `nanoseconds` modulo a
/// day after midnight; `Display` writes it as [`time_of_day_text`] says.
#[verifier::external_body]
fn clock_time(nanoseconds: i64) -> (r: String)
    ensures
        r@ == time_of_day_text((nanoseconds % 86_400_000_000_000) as nat),
{
    (time::Time::MIDNIGHT + time::Duration::nanoseconds(nanoseconds)).to_string()
}

/// The date `days` after January 1 of `base_year`, or that first day itself
/// when the date lies outside the calendar.
pub open spec fn date_or_base(base_year: i32, days: i64) -> Seq<char> {
    match calendar_date(base_year, days) {
        Some(d) => d,
        None => match calendar_date(base_year, 0) {
            Some(d) => d,
            None => Seq::empty(),
        },
    }
}

fn date_text(base_year: i32, days: i64) -> (r: String)
    requires
        -9999 <= base_year <= 9999,
        i64::MIN <= days * 86400 <= i64::MAX,
    ensures
        r@ == date_or_base(base_year, days),
{
    match date_after(base_year, days) {
        Some(d) => d,
        None => match date_after(base_year, 0) {
            Some(d) => d,
            None => String::new(),
        },
    }
}

/// The text of a SQL Server `date`, counted in days from January 1 of
/// year 1, that day being day 1.
pub fn format_sqlserver_date(days: u32) -> (r: String)
    ensures
        r@ == date_or_base(1, (days - 1) as i64),
{
    date_text(1, days as i64 - 1)
}

/// The text of a SQL Server `datetime`: days since January 1, 1900, and
/// the time of day in three-hundredths of a second, shown to the second.
pub fn format_sqlserver_datetime(days: i32, seconds_fragments: u32) -> (r: String)
    ensures
        r@ == date_or_base(1900, days as i64) + " "@ + time_of_day_text(
            ((seconds_fragments / 300) * 1_000_000_000) as nat,
        ),
{
    let mut out = date_text(1900, days as i64);
    push_str(&mut out, " ");
    let seconds = (seconds_fragments / 300) as i64;
    let clock = clock_time(seconds * 1_000_000_000);
    proof {
        lemma_time_of_day_wraps((seconds * 1_000_000_000) as nat);
    }
    push_str(&mut out, clock.as_str());
    out
}

/// The text of a SQL Server `smalldatetime`: days since January 1, 1900,
/// and the time of day in minutes.
pub fn format_sqlserver_smalldatetime(days: u16, minutes: u16) -> (r: String)
    ensures
        r@ == date_or_base(1900, days as i64) + " "@ + time_of_day_text(
            (minutes * 60_000_000_000) as nat,
        ),
{
    let mut out = date_text(1900, days as i64);
    push_str(&mut out, " ");
    let clock = clock_time(minutes as i64 * 60_000_000_000);
    proof {
        lemma_time_of_day_wraps((minutes * 60_000_000_000) as nat);
    }
    push_str(&mut out, clock.as_str());
    out
}

/// The text of a SQL Server `time` counted in increments of `10^-scale`
/// seconds since midnight.
pub fn format_sqlserver_time(increments: u64, scale: u8) -> (r: String)
    requires
        time_nanos(increments, scale) <= i64::MAX,
    ensures
        r@ == time_of_day_text(time_nanos(increments, scale) as nat),
{
    let clock = clock_time(time_nanoseconds(increments, scale));
    proof {
        lemma_time_of_day_wraps(time_nanos(increments, scale) as nat);
    }
    clock
}

/// The text of a SQL Server `datetime2`: its date, counted as a `date` is,
/// and its time of day, counted as a `time` is.
pub fn format_sqlserver_datetime2(days: u32, increments: u64, scale: u8) -> (r: String)
    requires
        time_nanos(increments, scale) <= i64::MAX,
    ensures
        r@ == date_or_base(1, (days - 1) as i64) + " "@ + time_of_day_text(
            time_nanos(increments, scale) as nat,
        ),
{
    let mut out = format_sqlserver_date(days);
    push_str(&mut out, " ");
    let clock = format_sqlserver_time(increments, scale);
    push_str(&mut out, clock.as_str());
    out
}

/// The text of a SQL Server `datetimeoffset`: its `datetime2` text and its
/// offset from UTC in minutes.
pub fn format_sqlserver_datetimeoffset(days: u32, increments: u64, scale: u8, offset: i16) -> (r: String)
    requires
        time_nanos(increments, scale) <= i64::MAX,
        offset > i16::MIN,
    ensures
        r@ == date_or_base(1, (days - 1) as i64) + " "@ + time_of_day_text(
            time_nanos(increments, scale) as nat,
        ) + offset_text(offset),
{
    let mut out = format_sqlserver_datetime2(days, increments, scale);
    let suffix = offset_suffix(offset);
    push_str(&mut out, suffix.as_str());
    out
}

/// The words that change data or schema are exactly `INSERT`, `UPDATE`,
/// `DELETE`, `DROP`, `ALTER`, `CREATE`, `TRUNCATE` and `MERGE`.
pub proof fn law_the_mutating_words(w: Seq<char>)
    ensures
        is_mutating_keyword(w) <==> (w == "INSERT"@ || w == "UPDATE"@ || w == "DELETE"@ || w == "DROP"@
            || w == "ALTER"@ || w == "CREATE"@ || w == "TRUNCATE"@ || w == "MERGE"@),
{
}

/// How a statement's first word decides: a statement that is empty once
/// trimmed is refused as empty; one whose first word, in capitals, is
/// neither `SELECT` nor `WITH` is refused naming that word; so a statement
/// that is let through begins with `SELECT` or `WITH`.
pub proof fn law_only_select_or_with_gets_through(sql: Seq<char>)
    ensures
        trim(sql).len() == 0 ==> read_only_verdict(sql) == Some(Refusal::NotReadOnly("empty statement"@)),
        ({
            let t = trim(sql);
            let first = ascii_uppercase(next_word(t, skip_noise(t, 0)).0);
            t.len() > 0 && first != "SELECT"@ && first != "WITH"@ ==> read_only_verdict(sql) == Some(
                Refusal::NotReadOnly(first),
            )
        }),
        read_only_verdict(sql) is None ==> ({
            let t = trim(sql);
            let first = ascii_uppercase(next_word(t, skip_noise(t, 0)).0);
            t.len() > 0 && (first == "SELECT"@ || first == "WITH"@)
        }),
{
}

} // verus!
