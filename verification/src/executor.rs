//! The execution of a statement against the tables.

use vstd::prelude::*;
use crate::ast::{
    lemma_push_view, Assignment, Expr, SpecAssignment, SpecExpr, SpecStatement, SpecTableRef,
    Statement, TableRef,
};
use crate::error::EngineError;
use crate::evaluator::{evaluate, evaluate_list};
use crate::query::{select, table_rows};

use crate::scalar::truth;
use crate::scope::{resolve_column, Binding, Context, ResultSet, Rows};
use crate::semantics::{
    eval, eval_list, no_scope, resolve, row_scope, run_select, table_relation, SpecBinding,
    SpecResultSet,
};
use crate::sequence::{after, gives, lemma_after_end, lemma_after_start, lemma_after_step};
use crate::storage::{
    changed_count, clone_row, create_spec, delete_spec, drop_spec, find_table, insert_spec,
    update_spec, SpecTable, Storage,
};
use crate::value::{truth_spec, SpecValue, Truth, Value};

verus! {

/// What a statement gives: the rows of a query, or the number of rows that
/// a change touched.
#[derive(Debug)]
pub enum ExecResult {
    Rows(ResultSet),
    Count(usize),
}

/// The mathematical content of an [`ExecResult`].
pub enum SpecExecResult {
    Rows(SpecResultSet),
    Count(nat),
}

impl DeepView for ExecResult {
    type V = SpecExecResult;

    open spec fn deep_view(&self) -> SpecExecResult {
        match self {
            ExecResult::Rows(rs) => SpecExecResult::Rows(rs.deep_view()),
            ExecResult::Count(n) => SpecExecResult::Count(*n as nat),
        }
    }
}

/// The values of the rows of an `INSERT` from row `i` on: each expression is
/// evaluated without a row.
pub open spec fn literal_rows(db: Seq<SpecTable>, rows: Seq<Seq<SpecExpr>>, i: int) -> Result<
    Seq<Seq<SpecValue>>,
    EngineError,
>
    decreases rows.len() - i,
{
    if i < 0 || i >= rows.len() {
        Ok(Seq::empty())
    } else {
        match eval_list(db, rows[i], no_scope(), 0) {
            Err(e) => Err(e),
            Ok(v) => after(seq![v], literal_rows(db, rows, i + 1)),
        }
    }
}

/// The value at `k` of a row, NULL where it has none.
pub open spec fn value_at(row: Seq<SpecValue>, k: int) -> SpecValue {
    if 0 <= k < row.len() {
        row[k]
    } else {
        SpecValue::Null
    }
}

/// The row `acc` after the values of `row` from the `k`-th on have been put
/// in the columns that `list` names for them.
pub open spec fn placed_from(
    columns: Seq<SpecBinding>,
    list: Seq<Seq<char>>,
    row: Seq<SpecValue>,
    acc: Seq<SpecValue>,
    k: int,
) -> Result<Seq<SpecValue>, EngineError>
    decreases list.len() - k,
{
    if k < 0 || k >= list.len() {
        Ok(acc)
    } else {
        match resolve(columns, None, list[k]) {
            None => Err(EngineError::UnknownColumn),
            Some(i) => placed_from(columns, list, row, with_value(acc, i, value_at(row, k)), k + 1),
        }
    }
}

/// The rows from the `i`-th on, each with its values in the columns that
/// `list` names and NULL in every other column. A row must have a value for
/// each name.
pub open spec fn arranged_from(
    columns: Seq<SpecBinding>,
    list: Seq<Seq<char>>,
    rows: Seq<Seq<SpecValue>>,
    i: int,
) -> Result<Seq<Seq<SpecValue>>, EngineError>
    decreases rows.len() - i,
{
    if i < 0 || i >= rows.len() {
        Ok(Seq::empty())
    } else if rows[i].len() != list.len() {
        Err(EngineError::ColumnCountMismatch)
    } else {
        match placed_from(columns, list, rows[i], crate::relation::nulls(columns.len()), 0) {
            Err(e) => Err(e),
            Ok(row) => after(seq![row], arranged_from(columns, list, rows, i + 1)),
        }
    }
}

/// The rows of an `INSERT` as the table takes them: as they are where the
/// statement names no columns.
pub open spec fn arranged(
    db: Seq<SpecTable>,
    table: Seq<char>,
    list: Option<Seq<Seq<char>>>,
    rows: Seq<Seq<SpecValue>>,
) -> Result<Seq<Seq<SpecValue>>, EngineError> {
    match list {
        None => Ok(rows),
        Some(names) => match table_relation(db, plain(table)) {
            Err(e) => Err(e),
            Ok(rel) => arranged_from(rel.columns, names, rows, 0),
        },
    }
}

/// A row with the value at `i` replaced; the row as it is where it has no
/// such value.
pub open spec fn with_value(row: Seq<SpecValue>, i: int, v: SpecValue) -> Seq<SpecValue> {
    if 0 <= i < row.len() {
        row.update(i, v)
    } else {
        row
    }
}

/// The row `acc` after the assignments from `k` on: each names a column of
/// the table and gives it the value of its expression for the row as it was.
pub open spec fn assigned(
    db: Seq<SpecTable>,
    assignments: Seq<SpecAssignment>,
    columns: Seq<SpecBinding>,
    held: Seq<SpecValue>,
    acc: Seq<SpecValue>,
    k: int,
) -> Result<Seq<SpecValue>, EngineError>
    decreases assignments.len() - k,
{
    if k < 0 || k >= assignments.len() {
        Ok(acc)
    } else {
        match resolve(columns, None, assignments[k].column) {
            None => Err(EngineError::UnknownColumn),
            Some(i) => match eval(
                db,
                assignments[k].value,
                row_scope(columns, columns.len(), held, Seq::empty()),
            ) {
                Err(e) => Err(e),
                Ok(v) => assigned(db, assignments, columns, held, with_value(acc, i, v), k + 1),
            },
        }
    }
}

/// Whether a condition holds of a row; a missing condition holds of every
/// row.
pub open spec fn hits(
    db: Seq<SpecTable>,
    filter: Option<SpecExpr>,
    columns: Seq<SpecBinding>,
    row: Seq<SpecValue>,
) -> Result<bool, EngineError> {
    match filter {
        None => Ok(true),
        Some(w) => match eval(db, w, row_scope(columns, columns.len(), row, Seq::empty())) {
            Err(e) => Err(e),
            Ok(v) => match truth_spec(v) {
                Err(e) => Err(e),
                Ok(t) => Ok(t == Truth::True),
            },
        },
    }
}

/// The changes of an `UPDATE` for the rows from `i` on: the new row for each
/// row of which the condition holds.
pub open spec fn changes_from(
    db: Seq<SpecTable>,
    assignments: Seq<SpecAssignment>,
    filter: Option<SpecExpr>,
    columns: Seq<SpecBinding>,
    rows: Seq<Seq<SpecValue>>,
    i: int,
) -> Result<Seq<Option<Seq<SpecValue>>>, EngineError>
    decreases rows.len() - i,
{
    if i < 0 || i >= rows.len() {
        Ok(Seq::empty())
    } else {
        match hits(db, filter, columns, rows[i]) {
            Err(e) => Err(e),
            Ok(hit) => if hit {
                match assigned(db, assignments, columns, rows[i], rows[i], 0) {
                    Err(e) => Err(e),
                    Ok(row) => after(
                        seq![Some(row)],
                        changes_from(db, assignments, filter, columns, rows, i + 1),
                    ),
                }
            } else {
                after(seq![None], changes_from(db, assignments, filter, columns, rows, i + 1))
            },
        }
    }
}

/// The marks of a `DELETE` for the rows from `i` on: a mark for each row of
/// which the condition holds.
pub open spec fn marks_from(
    db: Seq<SpecTable>,
    filter: Option<SpecExpr>,
    columns: Seq<SpecBinding>,
    rows: Seq<Seq<SpecValue>>,
    i: int,
) -> Result<Seq<bool>, EngineError>
    decreases rows.len() - i,
{
    if i < 0 || i >= rows.len() {
        Ok(Seq::empty())
    } else {
        match hits(db, filter, columns, rows[i]) {
            Err(e) => Err(e),
            Ok(hit) => after(seq![hit], marks_from(db, filter, columns, rows, i + 1)),
        }
    }
}

/// A table under its own name.
pub open spec fn plain(name: Seq<char>) -> SpecTableRef {
    SpecTableRef { name, alias: None }
}

/// The tables after a statement, and what the statement gives. A statement
/// that fails changes nothing.
pub open spec fn execute_spec(db: Seq<SpecTable>, s: SpecStatement) -> Result<
    (Seq<SpecTable>, SpecExecResult),
    EngineError,
> {
    match s {
        SpecStatement::CreateTable { name, columns } => match create_spec(db, name, columns) {
            Err(e) => Err(e),
            Ok(next) => Ok((next, SpecExecResult::Count(0))),
        },
        SpecStatement::DropTable { name } => match drop_spec(db, name) {
            Err(e) => Err(e),
            Ok(next) => Ok((next, SpecExecResult::Count(0))),
        },
        SpecStatement::Insert { table, names, rows } => match literal_rows(db, rows, 0) {
            Err(e) => Err(e),
            Ok(values) => match arranged(db, table, names, values) {
                Err(e) => Err(e),
                Ok(placed) => match insert_spec(db, table, placed) {
                    Err(e) => Err(e),
                    Ok(next) => Ok((next, SpecExecResult::Count(placed.len()))),
                },
            },
        },
        SpecStatement::Select(q) => match run_select(db, q, no_scope()) {
            Err(e) => Err(e),
            Ok(rs) => Ok((db, SpecExecResult::Rows(rs))),
        },
        SpecStatement::Update { table, assignments, filter } => match table_relation(
            db,
            plain(table),
        ) {
            Err(e) => Err(e),
            Ok(rel) => match changes_from(db, assignments, filter, rel.columns, rel.rows, 0) {
                Err(e) => Err(e),
                Ok(changes) => match update_spec(db, table, changes) {
                    Err(e) => Err(e),
                    Ok(next) => Ok(
                        (
                            next,
                            SpecExecResult::Count(
                                changed_count(changes, rel.rows.len() as int),
                            ),
                        ),
                    ),
                },
            },
        },
        SpecStatement::Delete { table, filter } => match table_relation(db, plain(table)) {
            Err(e) => Err(e),
            Ok(rel) => match marks_from(db, filter, rel.columns, rel.rows, 0) {
                Err(e) => Err(e),
                Ok(marks) => match delete_spec(db, table, marks) {
                    Err(e) => Err(e),
                    Ok(next) => Ok(
                        (
                            next,
                            SpecExecResult::Count(
                                (rel.rows.len() - next[find_table(db, table)->Some_0].rows.len()) as nat,
                            ),
                        ),
                    ),
                },
            },
        },
    }
}

/// Whether a statement went as the model says: on success the tables and
/// the result are those of the model, on failure the tables are as they
/// were.
pub open spec fn executed(
    r: Result<ExecResult, EngineError>,
    before: Seq<SpecTable>,
    after: Seq<SpecTable>,
    model: Result<(Seq<SpecTable>, SpecExecResult), EngineError>,
) -> bool {
    match r {
        Ok(out) => model == Ok::<(Seq<SpecTable>, SpecExecResult), EngineError>(
            (after, out.deep_view()),
        ),
        Err(e) => model == Err::<(Seq<SpecTable>, SpecExecResult), EngineError>(e) && after
            == before,
    }
}

/// The values of the rows of an `INSERT`.
pub fn insert_values(db: &Storage, rows: &Vec<Vec<Expr>>) -> (r: Result<
    Vec<Vec<Value>>,
    EngineError,
>)
    ensures
        gives(r, literal_rows(db@, rows.deep_view(), 0)),
{
    let mut out: Vec<Vec<Value>> = Vec::new();
    let mut i: usize = 0;
    let columns: Vec<Binding> = Vec::new();
    let row: Vec<Value> = Vec::new();
    let keys: Vec<usize> = Vec::new();
    let sc = Context { columns: &columns, row: &row, width: 0, group: None, keys: &keys };
    let ghost m = rows.deep_view();
    proof {
        assert(sc@.columns =~= no_scope().columns);
        assert(sc@.row =~= no_scope().row);
        assert(sc@.keys =~= no_scope().keys);
        lemma_after_start(literal_rows(db@, m, 0));
        assert(out.deep_view() =~= Seq::<Seq<SpecValue>>::empty());
    }
    while i < rows.len()
        invariant
            i <= rows.len(),
            m == rows.deep_view(),
            sc@ == no_scope(),
            literal_rows(db@, m, 0) == after(out.deep_view(), literal_rows(db@, m, i as int)),
        decreases rows.len() - i,
    {
        match evaluate_list(db, &rows[i], &sc) {
            Err(e) => {
                return Err(e);
            },
            Ok(v) => {
                let ghost before = out;
                out.push(v);
                proof {
                    lemma_push_view(before, out, v);
                    lemma_after_step(before.deep_view(), v.deep_view(), literal_rows(db@, m, i + 1));
                }
            },
        }
        i += 1;
    }
    proof {
        lemma_after_end::<Seq<SpecValue>, EngineError>(out.deep_view());
    }
    Ok(out)
}

/// Whether a condition holds of a row.
pub fn hit(db: &Storage, filter: &Option<Expr>, columns: &Vec<Binding>, row: &Vec<Value>) -> (r:
    Result<bool, EngineError>)
    ensures
        r == hits(db@, filter.deep_view(), columns.deep_view(), row.deep_view()),
{
    match filter {
        None => Ok(true),
        Some(w) => {
            let keys: Vec<usize> = Vec::new();
            let sc = Context { columns, row, width: columns.len(), group: None, keys: &keys };
            proof {
                assert(sc@.row =~= row.deep_view() + Seq::<SpecValue>::empty());
                assert(sc@.keys =~= Seq::<int>::empty());
            }
            match evaluate(db, w, &sc) {
                Err(e) => Err(e),
                Ok(v) => match truth(&v) {
                    Err(e) => Err(e),
                    Ok(Truth::True) => Ok(true),
                    Ok(_) => Ok(false),
                },
            }
        },
    }
}

/// A row after the assignments of an `UPDATE`.
pub fn assign(db: &Storage, assignments: &Vec<Assignment>, columns: &Vec<Binding>, held: &Vec<Value>) -> (r:
    Result<Vec<Value>, EngineError>)
    ensures
        gives(
            r,
            assigned(
                db@,
                assignments.deep_view(),
                columns.deep_view(),
                held.deep_view(),
                held.deep_view(),
                0,
            ),
        ),
{
    let mut acc = clone_row(held);
    let mut k: usize = 0;
    let keys: Vec<usize> = Vec::new();
    let sc = Context { columns, row: held, width: columns.len(), group: None, keys: &keys };
    let nobody: Option<String> = None;
    let ghost m = assignments.deep_view();
    let ghost c = columns.deep_view();
    let ghost h = held.deep_view();
    proof {
        assert(sc@.row =~= h + Seq::<SpecValue>::empty());
        assert(sc@.keys =~= Seq::<int>::empty());
    }
    while k < assignments.len()
        invariant
            k <= assignments.len(),
            m == assignments.deep_view(),
            c == columns.deep_view(),
            h == held.deep_view(),
            nobody is None,
            sc@ == row_scope(c, c.len(), h, Seq::empty()),
            assigned(db@, m, c, h, h, 0) == assigned(db@, m, c, h, acc.deep_view(), k as int),
        decreases assignments.len() - k,
    {
        let i = match resolve_column(columns, &nobody, &assignments[k].column) {
            None => {
                return Err(EngineError::UnknownColumn);
            },
            Some(i) => i,
        };
        let v = match evaluate(db, &assignments[k].value, &sc) {
            Err(e) => {
                return Err(e);
            },
            Ok(v) => v,
        };
        if i < acc.len() {
            let ghost before = acc;
            acc.remove(i);
            acc.insert(i, v);
            assert(acc.deep_view() =~= before.deep_view().update(i as int, v@));
        }
        k += 1;
    }
    Ok(acc)
}

/// The changes of an `UPDATE`.
pub fn changes(
    db: &Storage,
    assignments: &Vec<Assignment>,
    filter: &Option<Expr>,
    columns: &Vec<Binding>,
    rows: &Vec<Vec<Value>>,
) -> (r: Result<Vec<Option<Vec<Value>>>, EngineError>)
    ensures
        gives(
            r,
            changes_from(
                db@,
                assignments.deep_view(),
                filter.deep_view(),
                columns.deep_view(),
                rows.deep_view(),
                0,
            ),
        ),
{
    let mut out: Vec<Option<Vec<Value>>> = Vec::new();
    let mut i: usize = 0;
    let ghost a = assignments.deep_view();
    let ghost f = filter.deep_view();
    let ghost c = columns.deep_view();
    let ghost t = rows.deep_view();
    proof {
        lemma_after_start(changes_from(db@, a, f, c, t, 0));
        assert(out.deep_view() =~= Seq::<Option<Seq<SpecValue>>>::empty());
    }
    while i < rows.len()
        invariant
            i <= rows.len(),
            a == assignments.deep_view(),
            f == filter.deep_view(),
            c == columns.deep_view(),
            t == rows.deep_view(),
            changes_from(db@, a, f, c, t, 0) == after(
                out.deep_view(),
                changes_from(db@, a, f, c, t, i as int),
            ),
        decreases rows.len() - i,
    {
        let found = match hit(db, filter, columns, &rows[i]) {
            Err(e) => {
                return Err(e);
            },
            Ok(found) => found,
        };
        let change = if found {
            match assign(db, assignments, columns, &rows[i]) {
                Err(e) => {
                    return Err(e);
                },
                Ok(row) => Some(row),
            }
        } else {
            None
        };
        let ghost before = out;
        out.push(change);
        proof {
            lemma_push_view(before, out, change);
            lemma_after_step(
                before.deep_view(),
                change.deep_view(),
                changes_from(db@, a, f, c, t, i + 1),
            );
        }
        i += 1;
    }
    proof {
        lemma_after_end::<Option<Seq<SpecValue>>, EngineError>(out.deep_view());
    }
    Ok(out)
}

/// The marks of a `DELETE`.
pub fn marks(db: &Storage, filter: &Option<Expr>, columns: &Vec<Binding>, rows: &Vec<Vec<Value>>) -> (r:
    Result<Vec<bool>, EngineError>)
    ensures
        match r {
            Ok(m) => marks_from(
                db@,
                filter.deep_view(),
                columns.deep_view(),
                rows.deep_view(),
                0,
            ) == Ok::<Seq<bool>, EngineError>(m@),
            Err(e) => marks_from(
                db@,
                filter.deep_view(),
                columns.deep_view(),
                rows.deep_view(),
                0,
            ) == Err::<Seq<bool>, EngineError>(e),
        },
{
    let mut out: Vec<bool> = Vec::new();
    let mut i: usize = 0;
    let ghost f = filter.deep_view();
    let ghost c = columns.deep_view();
    let ghost t = rows.deep_view();
    proof {
        lemma_after_start(marks_from(db@, f, c, t, 0));
    }
    while i < rows.len()
        invariant
            i <= rows.len(),
            f == filter.deep_view(),
            c == columns.deep_view(),
            t == rows.deep_view(),
            marks_from(db@, f, c, t, 0) == after(out@, marks_from(db@, f, c, t, i as int)),
        decreases rows.len() - i,
    {
        let found = match hit(db, filter, columns, &rows[i]) {
            Err(e) => {
                return Err(e);
            },
            Ok(found) => found,
        };
        let ghost before = out@;
        out.push(found);
        proof {
            lemma_after_step(before, found, marks_from(db@, f, c, t, i + 1));
        }
        i += 1;
    }
    proof {
        lemma_after_end::<bool, EngineError>(out@);
    }
    Ok(out)
}

/// A row with its values in the columns that `list` names.
fn place(columns: &Vec<Binding>, list: &Vec<String>, row: &Vec<Value>) -> (r: Result<
    Vec<Value>,
    EngineError,
>)
    ensures
        gives(
            r,
            placed_from(
                columns.deep_view(),
                list.deep_view(),
                row.deep_view(),
                crate::relation::nulls(columns.len() as nat),
                0,
            ),
        ),
{
    let mut acc = crate::relation::null_row(columns.len());
    let mut k: usize = 0;
    let nobody: Option<String> = None;
    let ghost c = columns.deep_view();
    let ghost l = list.deep_view();
    let ghost m = row.deep_view();
    let ghost start = acc.deep_view();
    while k < list.len()
        invariant
            k <= list.len(),
            c == columns.deep_view(),
            l == list.deep_view(),
            m == row.deep_view(),
            nobody is None,
            start == crate::relation::nulls(columns.len() as nat),
            placed_from(c, l, m, start, 0) == placed_from(c, l, m, acc.deep_view(), k as int),
        decreases list.len() - k,
    {
        assert(l[k as int] == list[k as int]@);
        let i = match resolve_column(columns, &nobody, &list[k]) {
            None => {
                return Err(EngineError::UnknownColumn);
            },
            Some(i) => i,
        };
        let v = if k < row.len() {
            row[k].clone()
        } else {
            Value::Null
        };
        if i < acc.len() {
            let ghost before = acc;
            acc.remove(i);
            acc.insert(i, v);
            assert(acc.deep_view() =~= before.deep_view().update(i as int, v@));
        }
        k += 1;
    }
    Ok(acc)
}

/// The rows of an `INSERT` as the table takes them.
pub fn arrange(db: &Storage, table: &String, list: &Option<Vec<String>>, rows: Vec<Vec<Value>>) -> (r:
    Result<Vec<Vec<Value>>, EngineError>)
    ensures
        gives(r, arranged(db@, table@, list.deep_view(), rows.deep_view())),
{
    let names = match list {
        None => {
            return Ok(rows);
        },
        Some(names) => names,
    };
    let target = TableRef { name: table.clone(), alias: None };
    let rel = match table_rows(db, &target) {
        Err(e) => {
            return Err(e);
        },
        Ok(rel) => rel,
    };
    let mut out: Vec<Vec<Value>> = Vec::new();
    let mut i: usize = 0;
    let ghost c = rel.columns.deep_view();
    let ghost l = names.deep_view();
    let ghost t = rows.deep_view();
    proof {
        lemma_after_start(arranged_from(c, l, t, 0));
        assert(out.deep_view() =~= Seq::<Seq<SpecValue>>::empty());
        assert(target.deep_view() == plain(table@));
    }
    while i < rows.len()
        invariant
            i <= rows.len(),
            arranged(db@, table@, list.deep_view(), t) == arranged_from(c, l, t, 0),
            c == rel.columns.deep_view(),
            l == names.deep_view(),
            t == rows.deep_view(),
            arranged_from(c, l, t, 0) == after(out.deep_view(), arranged_from(c, l, t, i as int)),
        decreases rows.len() - i,
    {
        if rows[i].len() != names.len() {
            return Err(EngineError::ColumnCountMismatch);
        }
        match place(&rel.columns, names, &rows[i]) {
            Err(e) => {
                return Err(e);
            },
            Ok(row) => {
                let ghost before = out;
                out.push(row);
                proof {
                    lemma_push_view(before, out, row);
                    lemma_after_step(
                        before.deep_view(),
                        row.deep_view(),
                        arranged_from(c, l, t, i + 1),
                    );
                }
            },
        }
        i += 1;
    }
    proof {
        lemma_after_end::<Seq<SpecValue>, EngineError>(out.deep_view());
    }
    Ok(out)
}

/// A copy of column definitions.
fn clone_columns(columns: &Vec<crate::ast::ColumnDef>) -> (copy: Vec<crate::ast::ColumnDef>)
    ensures
        copy.deep_view() == columns.deep_view(),
{
    let mut copy: Vec<crate::ast::ColumnDef> = Vec::new();
    let mut i: usize = 0;
    while i < columns.len()
        invariant
            i <= columns.len(),
            copy.len() == i,
            forall|j: int|
                0 <= j < i ==> #[trigger] copy.deep_view()[j] == columns.deep_view()[j],
        decreases columns.len() - i,
    {
        let ghost before = copy;
        let c = crate::ast::ColumnDef {
            name: columns[i].name.clone(),
            ty: columns[i].ty,
            not_null: columns[i].not_null,
        };
        copy.push(c);
        proof {
            lemma_push_view(before, copy, c);
        }
        i += 1;
    }
    assert(copy.deep_view() =~= columns.deep_view());
    copy
}

/// Carries out a statement. A statement that fails leaves the tables as
/// they were.
pub fn execute(statement: &Statement, db: &mut Storage) -> (r: Result<ExecResult, EngineError>)
    requires
        old(db).wf(),
    ensures
        final(db).wf(),
        executed(r, old(db)@, final(db)@, execute_spec(old(db)@, statement.deep_view())),
{
    match statement {
        Statement::CreateTable { name, columns } => match db.create_table(
            name.clone(),
            clone_columns(columns),
        ) {
            Err(e) => Err(e),
            Ok(()) => Ok(ExecResult::Count(0)),
        },
        Statement::DropTable { name } => match db.drop_table(name.as_str()) {
            Err(e) => Err(e),
            Ok(()) => Ok(ExecResult::Count(0)),
        },
        Statement::Insert { table, names, rows } => match insert_values(db, rows) {
            Err(e) => Err(e),
            Ok(values) => match arrange(db, table, names, values) {
                Err(e) => Err(e),
                Ok(placed) => match db.insert(table.as_str(), placed) {
                    Err(e) => Err(e),
                    Ok(n) => Ok(ExecResult::Count(n)),
                },
            },
        },
        Statement::Select(q) => {
            let columns: Vec<Binding> = Vec::new();
            let row: Vec<Value> = Vec::new();
            let keys: Vec<usize> = Vec::new();
            let sc = Context { columns: &columns, row: &row, width: 0, group: None, keys: &keys };
            proof {
                assert(sc@.columns =~= no_scope().columns);
                assert(sc@.row =~= no_scope().row);
                assert(sc@.keys =~= no_scope().keys);
            }
            match select(db, q, &sc) {
                Err(e) => Err(e),
                Ok(rs) => Ok(ExecResult::Rows(rs)),
            }
        },
        Statement::Update { table, assignments, filter } => {
            let target = TableRef { name: table.clone(), alias: None };
            let rel = match table_rows(db, &target) {
                Err(e) => {
                    return Err(e);
                },
                Ok(rel) => rel,
            };
            let list = match changes(db, assignments, filter, &rel.columns, &rel.rows) {
                Err(e) => {
                    return Err(e);
                },
                Ok(list) => list,
            };
            match db.update(table.as_str(), &list) {
                Err(e) => Err(e),
                Ok(n) => Ok(ExecResult::Count(n)),
            }
        },
        Statement::Delete { table, filter } => {
            let target = TableRef { name: table.clone(), alias: None };
            let rel = match table_rows(db, &target) {
                Err(e) => {
                    return Err(e);
                },
                Ok(rel) => rel,
            };
            let list = match marks(db, filter, &rel.columns, &rel.rows) {
                Err(e) => {
                    return Err(e);
                },
                Ok(list) => list,
            };
            match db.delete(table.as_str(), &list) {
                Err(e) => Err(e),
                Ok(n) => Ok(ExecResult::Count(n)),
            }
        },
    }
}

} // verus!
