//! The engine as the protocol sees it: a statement's text goes in, the text
//! of the response comes out, and the tables change as the statement says.

use vstd::prelude::*;
use crate::error::{Failure, ParseErrorKind};
use crate::executor::{execute, execute_spec, ExecResult, SpecExecResult};
use crate::grammar::parse_spec;
use crate::parser::parse_chars;
use crate::scalar::{push_str, render_into};
use crate::storage::{SpecTable, Storage};
use crate::text::{
    chars_of, first_word, first_word_spec, is_space, is_whitespace, run, scan, string_of,
    CharClass,
};
use crate::value::{render_spec, SpecValue, Value};

verus! {

/// A text without the white space at its end.
pub open spec fn trimmed_end(s: Seq<char>) -> Seq<char>
    decreases s.len(),
{
    if s.len() > 0 && is_space(s.last()) {
        trimmed_end(s.drop_last())
    } else {
        s
    }
}

/// A text without the white space at its ends.
pub open spec fn trimmed(s: Seq<char>) -> Seq<char> {
    trimmed_end(s.skip(run(s, CharClass::Space) as int))
}

/// A text without the semicolons at its end.
pub open spec fn unterminated(s: Seq<char>) -> Seq<char>
    decreases s.len(),
{
    if s.len() > 0 && s.last() == ';' {
        unterminated(s.drop_last())
    } else {
        s
    }
}

/// The statement in a text: the text without the white space around it and
/// the semicolons that end it.
pub open spec fn statement_text(s: Seq<char>) -> Seq<char> {
    trimmed(unterminated(trimmed(s)))
}

/// The fields of a row from `k` on, each after a tab but the first.
pub open spec fn fields_from(row: Seq<SpecValue>, k: int) -> Seq<char>
    decreases row.len() - k,
{
    if k < 0 || k >= row.len() {
        Seq::empty()
    } else {
        (if k > 0 {
            seq!['\t']
        } else {
            Seq::empty()
        }) + render_spec(row[k]) + fields_from(row, k + 1)
    }
}

/// The lines of the rows from `i` on: one line for each row, its fields with
/// tabs between them.
pub open spec fn lines_from(rows: Seq<Seq<SpecValue>>, i: int) -> Seq<char>
    decreases rows.len() - i,
{
    if i < 0 || i >= rows.len() {
        Seq::empty()
    } else {
        fields_from(rows[i], 0) + seq!['\n'] + lines_from(rows, i + 1)
    }
}

/// The response to a statement that succeeded: the lines of the rows of a
/// query, then an empty line; for any other statement the empty line alone.
pub open spec fn rendered(out: SpecExecResult) -> Seq<char> {
    match out {
        SpecExecResult::Rows(rs) => lines_from(rs.rows, 0) + seq!['\n'],
        SpecExecResult::Count(_) => seq!['\n'],
    }
}

/// The words that report a failure of the statement `sql`. A statement that
/// begins with a word that is no statement of the engine is reported by that
/// word.
pub open spec fn reason(f: Failure, sql: Seq<char>) -> Seq<char> {
    match f {
        Failure::Parse(e) => if e.kind == ParseErrorKind::UnknownKeyword {
            "not implemented - "@ + first_word_spec(sql)
        } else {
            f.message_spec()
        },
        Failure::Engine(_) => f.message_spec(),
    }
}

/// The response to a statement that failed: one line that begins with
/// `Error: `, then an empty line.
pub open spec fn failed(f: Failure, sql: Seq<char>) -> Seq<char> {
    "Error: "@ + reason(f, sql) + seq!['\n', '\n']
}

/// What a statement gives, or why it fails, with the tables after it: those
/// before it unless it succeeds.
pub open spec fn run_spec(db: Seq<SpecTable>, text: Seq<char>) -> (
    Seq<SpecTable>,
    Result<SpecExecResult, Failure>,
) {
    match parse_spec(text) {
        Err(e) => (db, Err(Failure::Parse(e))),
        Ok(statement) => match execute_spec(db, statement) {
            Err(e) => (db, Err(Failure::Engine(e))),
            Ok((next, out)) => (next, Ok(out)),
        },
    }
}

/// The tables after the statement in `sql`, and the response to it. A text
/// without a statement is answered by an empty line.
pub open spec fn respond_spec(db: Seq<SpecTable>, sql: Seq<char>) -> (Seq<SpecTable>, Seq<char>) {
    if statement_text(sql).len() == 0 {
        (db, seq!['\n'])
    } else {
        match run_spec(db, statement_text(sql)).1 {
            Ok(out) => (run_spec(db, statement_text(sql)).0, rendered(out)),
            Err(f) => (run_spec(db, statement_text(sql)).0, failed(f, sql)),
        }
    }
}

/// The characters of `v` from `from` on, without the white space at their
/// end.
fn trim_end(v: &Vec<char>, from: usize) -> (out: Vec<char>)
    requires
        from <= v.len(),
    ensures
        out@ == trimmed_end(v@.skip(from as int)),
{
    let mut n: usize = v.len();
    assert(v@.skip(from as int) =~= v@.subrange(from as int, n as int));
    while n > from && is_whitespace(v[n - 1])
        invariant
            from <= n <= v.len(),
            trimmed_end(v@.skip(from as int)) == trimmed_end(v@.subrange(from as int, n as int)),
        decreases n,
    {
        assert(v@.subrange(from as int, n as int).drop_last() =~= v@.subrange(
            from as int,
            n - 1,
        ));
        n -= 1;
    }
    copy_range(v, from, n)
}

/// The characters `v[from..to]`.
fn copy_range(v: &Vec<char>, from: usize, to: usize) -> (out: Vec<char>)
    requires
        from <= to <= v.len(),
    ensures
        out@ == v@.subrange(from as int, to as int),
{
    let mut out: Vec<char> = Vec::new();
    let mut i: usize = from;
    while i < to
        invariant
            from <= i <= to <= v.len(),
            out@ == v@.subrange(from as int, i as int),
        decreases to - i,
    {
        out.push(v[i]);
        assert(v@.subrange(from as int, i + 1) =~= v@.subrange(from as int, i as int).push(
            v@[i as int],
        ));
        i += 1;
    }
    out
}

/// A text without the white space at its ends.
fn trim(v: &Vec<char>) -> (out: Vec<char>)
    ensures
        out@ == trimmed(v@),
{
    let from = scan(v, 0, CharClass::Space);
    assert(v@.skip(0) =~= v@);
    trim_end(v, from)
}

/// A text without the semicolons at its end.
fn strip_semicolons(v: &Vec<char>) -> (out: Vec<char>)
    ensures
        out@ == unterminated(v@),
{
    let mut n: usize = v.len();
    assert(v@ =~= v@.subrange(0, n as int));
    while n > 0 && v[n - 1] == ';'
        invariant
            n <= v.len(),
            unterminated(v@) == unterminated(v@.subrange(0, n as int)),
        decreases n,
    {
        assert(v@.subrange(0, n as int).drop_last() =~= v@.subrange(0, n - 1));
        n -= 1;
    }
    copy_range(v, 0, n)
}

/// The statement in a text.
pub fn statement_of(sql: &str) -> (out: Vec<char>)
    ensures
        out@ == statement_text(sql@),
{
    let chars = chars_of(sql);
    trim(&strip_semicolons(&trim(&chars)))
}

/// Appends the fields of a row with tabs between them.
fn push_fields(row: &Vec<Value>, out: &mut Vec<char>)
    ensures
        final(out)@ == old(out)@ + fields_from(row.deep_view(), 0),
{
    let mut k: usize = 0;
    let ghost start = out@;
    assert(start + fields_from(row.deep_view(), 0) =~= out@ + fields_from(row.deep_view(), 0));
    while k < row.len()
        invariant
            k <= row.len(),
            start + fields_from(row.deep_view(), 0) == out@ + fields_from(
                row.deep_view(),
                k as int,
            ),
        decreases row.len() - k,
    {
        let ghost before = out@;
        if k > 0 {
            out.push('\t');
        }
        render_into(&row[k], out);
        assert(before + ((if k > 0 {
            seq!['\t']
        } else {
            Seq::empty()
        }) + render_spec(row.deep_view()[k as int]) + fields_from(row.deep_view(), k + 1))
            =~= out@ + fields_from(row.deep_view(), k + 1));
        k += 1;
    }
    assert(out@ + Seq::<char>::empty() =~= out@);
}

/// Appends the lines of rows.
fn push_lines(rows: &Vec<Vec<Value>>, out: &mut Vec<char>)
    ensures
        final(out)@ == old(out)@ + lines_from(rows.deep_view(), 0),
{
    let mut i: usize = 0;
    let ghost start = out@;
    assert(start + lines_from(rows.deep_view(), 0) =~= out@ + lines_from(rows.deep_view(), 0));
    while i < rows.len()
        invariant
            i <= rows.len(),
            start + lines_from(rows.deep_view(), 0) == out@ + lines_from(
                rows.deep_view(),
                i as int,
            ),
        decreases rows.len() - i,
    {
        let ghost before = out@;
        push_fields(&rows[i], out);
        out.push('\n');
        assert(before + (fields_from(rows.deep_view()[i as int], 0) + seq!['\n'] + lines_from(
            rows.deep_view(),
            i + 1,
        )) =~= out@ + lines_from(rows.deep_view(), i + 1));
        i += 1;
    }
    assert(out@ + Seq::<char>::empty() =~= out@);
}

/// The response to a statement that succeeded.
pub fn render_result(result: &ExecResult) -> (s: String)
    ensures
        s@ == rendered(result.deep_view()),
{
    let mut out: Vec<char> = Vec::new();
    match result {
        ExecResult::Rows(rs) => {
            push_lines(&rs.rows, &mut out);
            out.push('\n');
            assert(out@ =~= rendered(result.deep_view()));
        },
        ExecResult::Count(_) => {
            out.push('\n');
            assert(out@ =~= rendered(result.deep_view()));
        },
    }
    string_of(&out)
}

/// The response to a statement that failed.
pub fn render_failure(f: &Failure, sql: &str) -> (s: String)
    ensures
        s@ == failed(*f, sql@),
{
    let mut out: Vec<char> = Vec::new();
    push_str(&mut out, "Error: ");
    let unknown = match f {
        Failure::Parse(e) => match e.kind {
            ParseErrorKind::UnknownKeyword => true,
            _ => false,
        },
        Failure::Engine(_) => false,
    };
    if unknown {
        push_str(&mut out, "not implemented - ");
        push_str(&mut out, first_word(sql));
    } else {
        push_str(&mut out, f.message());
    }
    out.push('\n');
    out.push('\n');
    assert(out@ =~= failed(*f, sql@));
    string_of(&out)
}

/// The outcome of a function that gives a result, as the model sees it.
pub open spec fn outcome_view(r: Result<ExecResult, Failure>) -> Result<SpecExecResult, Failure> {
    match r {
        Ok(out) => Ok(out.deep_view()),
        Err(f) => Err(f),
    }
}

/// Parses a statement and carries it out.
pub fn run_statement(text: &Vec<char>, db: &mut Storage) -> (r: Result<ExecResult, Failure>)
    requires
        old(db).wf(),
    ensures
        final(db).wf(),
        (final(db)@, outcome_view(r)) == run_spec(old(db)@, text@),
{
    match parse_chars(text) {
        Err(e) => Err(Failure::Parse(e)),
        Ok(statement) => match execute(&statement, db) {
            Err(e) => Err(Failure::Engine(e)),
            Ok(out) => Ok(out),
        },
    }
}

/// Carries out the statement in `sql` and gives the text of the response:
/// the rows of a query, one on a line with tabs between its fields, and an
/// empty line; an empty line alone for another statement; or a line that
/// begins with `Error: ` and an empty line.
pub fn execute_sql(sql: &str, db: &mut Storage) -> (out: String)
    requires
        old(db).wf(),
    ensures
        final(db).wf(),
        (final(db)@, out@) == respond_spec(old(db)@, sql@),
{
    let text = statement_of(sql);
    if text.len() == 0 {
        let mut out: Vec<char> = Vec::new();
        out.push('\n');
        assert(out@ =~= seq!['\n']);
        return string_of(&out);
    }
    match run_statement(&text, db) {
        Ok(result) => render_result(&result),
        Err(f) => render_failure(&f, sql),
    }
}

} // verus!
