//! Laws of the engine: what holds of every statement, every table and every
//! row, proved from the definitions of the model.

use vstd::prelude::*;
use crate::ast::{JoinKind, SpecExpr, SpecSelect, SpecSelectItem, SpecStatement};
use crate::error::EngineError;
use crate::executor::{
    arranged, changes_from, execute_spec, literal_rows, marks_from, plain, SpecExecResult,
};
use crate::semantics::{
    base_relation, bindings, directions, eval, eval_list, is_aggregate, item_aggregate,
    joined_with, key_aggregate, key_columns, names, no_scope, order_values, outputs_from, project,
    row_units, run_select, table_relation, unit_scope, Relation, Scope, SpecBinding,
    SpecResultSet,
};
use crate::sort::{place_from, rows_of, sorted, sorted_from, SpecKeyed};
use crate::storage::{
    changed_rows, kept_rows, lemma_kept_rows, create_spec, find_from, find_table, has_duplicate,
    insert_spec, lemma_find, lemma_rows_fit, row_error, rows_error, valid, valid_table, with_rows,
    SpecTable,
};
use crate::engine::{failed, reason, respond_spec, run_spec, statement_text};
use crate::error::{Failure, ParseErrorKind};
use crate::grammar::parse_spec;
use crate::text::{first_word_spec, is_space, lemma_run_all, run, same_name, CharClass};
use crate::ast::BinaryOperator;
use crate::engine::{fields_from, lines_from, rendered};
use crate::functions::{function_named, Function};
use crate::group::{
    aggregate, count_from, extreme_from, group_from, grouped, grouped_from, same_key, sum_from,
    with_row, Aggregate, SpecGroup,
};
use crate::semantics::{filtered, group_units, has_aggregate, rows_over, values_over, row_scope};
use crate::relation::{truths_from, truths_of};
use crate::ast::SpecJoin;
use crate::value::{render_spec, truth_spec};
use crate::relation::{
    chosen, chosen_from, cross, cross_from, head, holds, joined, joined_from, nulls, paired_from,
    tail,
};
use crate::value::{SpecValue, Truth};

verus! {

proof fn lemma_paired_len(left: Seq<SpecValue>, right: Seq<Seq<SpecValue>>, from: int)
    requires
        0 <= from <= right.len(),
    ensures
        paired_from(left, right, from).len() == right.len() - from,
    decreases right.len() - from,
{
    if from < right.len() {
        lemma_paired_len(left, right, from + 1);
    }
}

proof fn lemma_cross_len(left: Seq<Seq<SpecValue>>, right: Seq<Seq<SpecValue>>, from: int)
    requires
        0 <= from <= left.len(),
    ensures
        cross_from(left, right, from).len() == (left.len() - from) * right.len(),
    decreases left.len() - from,
{
    if from < left.len() {
        lemma_cross_len(left, right, from + 1);
        lemma_paired_len(left[from], right, 0);
        assert((left.len() - from) * right.len() == right.len() + (left.len() - (from + 1))
            * right.len()) by (nonlinear_arith);
    } else {
        assert((left.len() - from) * right.len() == 0) by (nonlinear_arith)
            requires
                left.len() - from == 0,
        ;
    }
}

/// The Cartesian product of M rows and N rows has M times N rows.
pub proof fn law_cross_join_size(left: Seq<Seq<SpecValue>>, right: Seq<Seq<SpecValue>>)
    ensures
        cross(left, right).len() == left.len() * right.len(),
{
    lemma_cross_len(left, right, 0);
}

/// Whether no condition is true.
pub open spec fn never(truths: Seq<Truth>) -> bool {
    forall|i: int| 0 <= i < truths.len() ==> #[trigger] truths[i] != Truth::True
}

proof fn lemma_none_chosen(rows: Seq<Seq<SpecValue>>, truths: Seq<Truth>, from: int)
    requires
        never(truths),
    ensures
        chosen_from(rows, truths, from).len() == 0,
    decreases rows.len() - from,
{
    if 0 <= from < rows.len() {
        lemma_none_chosen(rows, truths, from + 1);
    }
}

proof fn lemma_inner_never(
    left: Seq<Seq<SpecValue>>,
    right: Seq<Seq<SpecValue>>,
    width: nat,
    truths: Seq<Truth>,
    from: int,
)
    requires
        never(truths),
    ensures
        joined_from(JoinKind::Inner, left, right, width, truths, from).len() == 0,
    decreases left.len() - from,
{
    if 0 <= from < left.len() {
        lemma_none_chosen(paired_from(left[from], right, 0), head(truths, right.len()), 0);
        lemma_inner_never(left, right, width, tail(truths, right.len()), from + 1);
    }
}

/// An inner join whose condition is true of no pair of rows has no rows.
pub proof fn law_inner_join_never(
    left: Seq<Seq<SpecValue>>,
    right: Seq<Seq<SpecValue>>,
    width: nat,
    truths: Seq<Truth>,
)
    requires
        never(truths),
    ensures
        joined(JoinKind::Inner, left, right, width, truths) == Seq::<Seq<SpecValue>>::empty(),
{
    lemma_inner_never(left, right, width, truths, 0);
    assert(joined(JoinKind::Inner, left, right, width, truths) =~= Seq::<
        Seq<SpecValue>,
    >::empty());
}

/// Each row with `width` NULLs at its right.
pub open spec fn padded(left: Seq<Seq<SpecValue>>, width: nat) -> Seq<Seq<SpecValue>> {
    Seq::new(left.len(), |i: int| left[i] + nulls(width))
}

proof fn lemma_left_never(
    left: Seq<Seq<SpecValue>>,
    right: Seq<Seq<SpecValue>>,
    width: nat,
    truths: Seq<Truth>,
    from: int,
)
    requires
        never(truths),
        0 <= from <= left.len(),
    ensures
        joined_from(JoinKind::Left, left, right, width, truths, from) == padded(
            left,
            width,
        ).skip(from),
    decreases left.len() - from,
{
    if from < left.len() {
        lemma_none_chosen(paired_from(left[from], right, 0), head(truths, right.len()), 0);
        lemma_left_never(left, right, width, tail(truths, right.len()), from + 1);
        assert(seq![left[from] + nulls(width)] + padded(left, width).skip(from + 1) =~= padded(
            left,
            width,
        ).skip(from));
    } else {
        assert(joined_from(JoinKind::Left, left, right, width, truths, from) =~= padded(
            left,
            width,
        ).skip(from));
    }
}

/// A left join whose condition is true of no pair of rows has the rows of
/// its left side, in their order, each with NULLs for the columns of its
/// right side.
pub proof fn law_left_join_never(
    left: Seq<Seq<SpecValue>>,
    right: Seq<Seq<SpecValue>>,
    width: nat,
    truths: Seq<Truth>,
)
    requires
        never(truths),
    ensures
        joined(JoinKind::Left, left, right, width, truths) == padded(left, width),
        joined(JoinKind::Left, left, right, width, truths).len() == left.len(),
{
    lemma_left_never(left, right, width, truths, 0);
    assert(padded(left, width).skip(0) =~= padded(left, width));
}

/// The query `SELECT * FROM name`.
pub open spec fn star_query(name: Seq<char>) -> SpecSelect {
    SpecSelect {
        items: seq![SpecSelectItem::Star],
        from: Some(plain(name)),
        joins: Seq::empty(),
        filter: None,
        group_by: Seq::empty(),
        having: None,
        order_by: Seq::empty(),
        limit: None,
    }
}

/// Rows without sort keys.
pub open spec fn unkeyed(rows: Seq<Seq<SpecValue>>) -> Seq<SpecKeyed> {
    Seq::new(rows.len(), |i: int| SpecKeyed { keys: Seq::empty(), row: rows[i] })
}

proof fn lemma_place_last(sorted: Seq<SpecKeyed>, x: SpecKeyed, descending: Seq<bool>, from: int)
    requires
        0 <= from <= sorted.len(),
        x.keys.len() == 0,
    ensures
        place_from(sorted, x, descending, from) == sorted.len(),
    decreases sorted.len() - from,
{
    if from < sorted.len() {
        lemma_place_last(sorted, x, descending, from + 1);
    }
}

proof fn lemma_sorted_unkeyed(
    rows: Seq<Seq<SpecValue>>,
    descending: Seq<bool>,
    acc: Seq<SpecKeyed>,
    from: int,
)
    requires
        0 <= from <= rows.len(),
    ensures
        sorted_from(unkeyed(rows), descending, acc, from) == acc + unkeyed(rows).skip(from),
    decreases rows.len() - from,
{
    let items = unkeyed(rows);
    if from < rows.len() {
        lemma_place_last(acc, items[from], descending, 0);
        let next = acc.insert(acc.len() as int, items[from]);
        assert(next =~= acc.push(items[from]));
        lemma_sorted_unkeyed(rows, descending, next, from + 1);
        assert(next + items.skip(from + 1) =~= acc + items.skip(from));
    } else {
        assert(acc + items.skip(from) =~= acc);
    }
}

/// Rows that have no sort keys keep their order.
pub proof fn law_sort_without_keys(rows: Seq<Seq<SpecValue>>, descending: Seq<bool>)
    ensures
        rows_of(sorted(unkeyed(rows), descending)) == rows,
{
    lemma_sorted_unkeyed(rows, descending, Seq::empty(), 0);
    assert(Seq::<SpecKeyed>::empty() + unkeyed(rows).skip(0) =~= unkeyed(rows));
    assert(rows_of(unkeyed(rows)) =~= rows);
}

/// Whether a query selects `*` and neither filters groups nor sorts.
pub open spec fn plain_star(q: SpecSelect) -> bool {
    q.items == seq![SpecSelectItem::Star] && q.having is None && q.order_by.len() == 0
}

proof fn lemma_star_outputs(
    db: Seq<SpecTable>,
    q: SpecSelect,
    columns: Seq<SpecBinding>,
    rows: Seq<Seq<SpecValue>>,
    i: int,
)
    requires
        plain_star(q),
        0 <= i <= rows.len(),
        forall|k: int| 0 <= k < rows.len() ==> (#[trigger] rows[k]).len() == columns.len(),
    ensures
        outputs_from(
            db,
            q,
            columns,
            columns.len(),
            Seq::empty(),
            Seq::empty(),
            row_units(rows),
            i,
        ) == Ok::<Seq<SpecKeyed>, EngineError>(unkeyed(rows).skip(i)),
    decreases rows.len() - i,
{
    let units = row_units(rows);
    if i < rows.len() {
        lemma_star_outputs(db, q, columns, rows, i + 1);
        let sc = unit_scope(columns, columns.len(), Seq::empty(), Seq::empty(), units[i]);
        assert(sc.row =~= rows[i]);
        assert(project(db, q.items, sc, 1) == Ok::<Seq<SpecValue>, EngineError>(Seq::empty()));
        assert(sc.row.take(sc.width as int) =~= rows[i]);
        assert(rows[i] + Seq::<SpecValue>::empty() =~= rows[i]);
        assert(q.items[0] == SpecSelectItem::Star);
        assert(project(db, q.items, sc, 0) == Ok::<Seq<SpecValue>, EngineError>(rows[i]));
        assert(order_values(db, q.order_by, q.items, sc, rows[i], 0) == Ok::<Seq<SpecValue>, EngineError>(
            Seq::empty(),
        ));
        assert(seq![SpecKeyed { keys: Seq::empty(), row: rows[i] }] + unkeyed(rows).skip(i + 1)
            =~= unkeyed(rows).skip(i));
    } else {
        assert(unkeyed(rows).skip(i) =~= Seq::<SpecKeyed>::empty());
    }
}

/// What `SELECT *` makes of rows that are neither grouped nor sorted nor
/// cut: the rows themselves.
proof fn lemma_star_rows(
    db: Seq<SpecTable>,
    q: SpecSelect,
    columns: Seq<SpecBinding>,
    rows: Seq<Seq<SpecValue>>,
)
    requires
        plain_star(q),
        forall|k: int| 0 <= k < rows.len() ==> (#[trigger] rows[k]).len() == columns.len(),
    ensures
        !item_aggregate(q.items, 0),
        !key_aggregate(q.order_by, 0),
        outputs_from(
            db,
            q,
            columns,
            columns.len(),
            Seq::empty(),
            Seq::empty(),
            row_units(rows),
            0,
        ) is Ok,
        rows_of(
            sorted(
                outputs_from(
                    db,
                    q,
                    columns,
                    columns.len(),
                    Seq::empty(),
                    Seq::empty(),
                    row_units(rows),
                    0,
                )->Ok_0,
                directions(q.order_by),
            ),
        ) == rows,
{
    assert(q.items[0] == SpecSelectItem::Star);
    assert(!item_aggregate(q.items, 1));
    assert(!item_aggregate(q.items, 0));
    lemma_star_outputs(db, q, columns, rows, 0);
    assert(unkeyed(rows).skip(0) =~= unkeyed(rows));
    law_sort_without_keys(rows, directions(q.order_by));
}

/// The names of the columns of a table.
pub open spec fn column_names(t: SpecTable) -> Seq<Seq<char>> {
    Seq::new(t.columns.len(), |i: int| t.columns[i].name)
}

/// `SELECT * FROM t` gives the rows of `t` in the order of their insertion,
/// under the names of its columns.
pub proof fn law_select_star(db: Seq<SpecTable>, name: Seq<char>)
    requires
        valid(db),
        find_table(db, name) is Some,
    ensures
        run_select(db, star_query(name), no_scope()) == Ok::<SpecResultSet, EngineError>(
            SpecResultSet {
                columns: column_names(db[find_table(db, name)->Some_0]),
                rows: db[find_table(db, name)->Some_0].rows,
            },
        ),
{
    let q = star_query(name);
    let i = find_table(db, name)->Some_0;
    lemma_find(db, name, 0);
    let t = db[i];
    let rel = Relation { columns: bindings(t, plain(name)), rows: t.rows };
    assert(valid_table(t));
    assert forall|k: int| 0 <= k < t.rows.len() implies (#[trigger] t.rows[k]).len()
        == rel.columns.len() by {
        assert(row_error(t.columns, t.rows[k]) is None);
    }
    assert(base_relation(db, q.from) == Ok::<Relation, EngineError>(rel));
    assert(joined_with(db, q.joins, rel, no_scope(), 0) == Ok::<Relation, EngineError>(rel));
    lemma_star_rows(db, q, rel.columns, t.rows);
    assert(!is_aggregate(q));
    assert(rel.columns + no_scope().columns =~= rel.columns);
    assert(key_columns(q.group_by, rel.columns, 0) =~= Seq::<int>::empty());
    assert(names(q.items, rel.columns, 1) =~= Seq::<Seq<char>>::empty());
    assert(names(q.items, rel.columns, 0) =~= column_names(t));
}

proof fn lemma_find_same_names(a: Seq<SpecTable>, b: Seq<SpecTable>, name: Seq<char>, from: int)
    requires
        0 <= from,
        a.len() == b.len(),
        forall|j: int| 0 <= j < a.len() ==> (#[trigger] a[j]).name == b[j].name,
    ensures
        find_from(a, name, from) == find_from(b, name, from),
    decreases a.len() - from,
{
    if from < a.len() {
        assert(a[from].name == b[from].name);
        lemma_find_same_names(a, b, name, from + 1);
    }
}

proof fn lemma_find_pushed(db: Seq<SpecTable>, t: SpecTable, name: Seq<char>, from: int)
    requires
        0 <= from <= db.len(),
        find_from(db, name, from) is None,
        same_name(t.name, name),
    ensures
        find_from(db.push(t), name, from) == Some(db.len() as int),
    decreases db.len() - from,
{
    if from < db.len() {
        assert(db.push(t)[from] == db[from]);
        lemma_find_pushed(db, t, name, from + 1);
    } else {
        assert(db.push(t)[from] == t);
    }
}

/// A table that was created is well formed, and is found under its name.
pub proof fn law_create_is_valid(db: Seq<SpecTable>, name: Seq<char>, columns: Seq<
    crate::ast::SpecColumnDef,
>)
    requires
        valid(db),
        create_spec(db, name, columns) is Ok,
    ensures
        valid(create_spec(db, name, columns)->Ok_0),
        find_table(create_spec(db, name, columns)->Ok_0, name) == Some(db.len() as int),
        create_spec(db, name, columns)->Ok_0[db.len() as int] == (SpecTable {
            name,
            columns,
            rows: Seq::empty(),
        }),
{
    let t = SpecTable { name, columns, rows: Seq::empty() };
    let next = db.push(t);
    lemma_find(db, name, 0);
    lemma_find_pushed(db, t, name, 0);
    assert forall|i: int, j: int| 0 <= i < j < next.len() implies !same_name(
        (#[trigger] next[i]).name,
        (#[trigger] next[j]).name,
    ) by {
        if j == db.len() {
            assert(next[i] == db[i]);
            assert(!same_name(db[i].name, name));
        } else {
            assert(next[i] == db[i] && next[j] == db[j]);
        }
    }
    assert forall|i: int| 0 <= i < next.len() implies valid_table(#[trigger] next[i]) by {
        if i < db.len() {
            assert(next[i] == db[i]);
        }
    }
}

/// After an insertion the tables are well formed, the table is found where
/// it was, and its rows are those that it held, then the new ones.
pub proof fn law_insert_appends(db: Seq<SpecTable>, name: Seq<char>, rows: Seq<Seq<SpecValue>>)
    requires
        valid(db),
        insert_spec(db, name, rows) is Ok,
    ensures
        valid(insert_spec(db, name, rows)->Ok_0),
        find_table(db, name) is Some,
        find_table(insert_spec(db, name, rows)->Ok_0, name) == find_table(db, name),
        insert_spec(db, name, rows)->Ok_0[find_table(db, name)->Some_0] == with_rows(
            db[find_table(db, name)->Some_0],
            db[find_table(db, name)->Some_0].rows + rows,
        ),
{
    let i = find_table(db, name)->Some_0;
    lemma_find(db, name, 0);
    let next = insert_spec(db, name, rows)->Ok_0;
    lemma_rows_fit(db[i].columns, rows, 0);
    lemma_find_same_names(db, next, name, 0);
    assert(valid_table(db[i]));
    assert forall|k: int| 0 <= k < next[i].rows.len() implies row_error(
        next[i].columns,
        #[trigger] next[i].rows[k],
    ) is None by {
        if k < db[i].rows.len() {
            assert(next[i].rows[k] == db[i].rows[k]);
        } else {
            assert(next[i].rows[k] == rows[k - db[i].rows.len()]);
        }
    }
    assert forall|j: int| 0 <= j < next.len() implies valid_table(#[trigger] next[j]) by {
        if j != i {
            assert(next[j] == db[j]);
        }
    }
    assert forall|a: int, b: int| 0 <= a < b < next.len() implies !same_name(
        (#[trigger] next[a]).name,
        (#[trigger] next[b]).name,
    ) by {
        assert(next[a].name == db[a].name && next[b].name == db[b].name);
    }
}

/// The expressions that stand for given values: each a literal.
pub open spec fn literals(rows: Seq<Seq<SpecValue>>) -> Seq<Seq<SpecExpr>> {
    Seq::new(rows.len(), |i: int| Seq::new(rows[i].len(), |j: int| SpecExpr::Literal(rows[i][j])))
}

proof fn lemma_literal_list(db: Seq<SpecTable>, row: Seq<SpecValue>, sc: Scope, k: int)
    requires
        0 <= k <= row.len(),
    ensures
        eval_list(db, Seq::new(row.len(), |j: int| SpecExpr::Literal(row[j])), sc, k) == Ok::<
            Seq<SpecValue>,
            EngineError,
        >(row.skip(k)),
    decreases row.len() - k,
{
    let list = Seq::new(row.len(), |j: int| SpecExpr::Literal(row[j]));
    if k < row.len() {
        lemma_literal_list(db, row, sc, k + 1);
        assert(eval(db, list[k], sc) == Ok::<SpecValue, EngineError>(row[k]));
        assert(seq![row[k]] + row.skip(k + 1) =~= row.skip(k));
    } else {
        assert(row.skip(k) =~= Seq::<SpecValue>::empty());
    }
}

proof fn lemma_literal_rows(db: Seq<SpecTable>, rows: Seq<Seq<SpecValue>>, i: int)
    requires
        0 <= i <= rows.len(),
    ensures
        literal_rows(db, literals(rows), i) == Ok::<Seq<Seq<SpecValue>>, EngineError>(
            rows.skip(i),
        ),
    decreases rows.len() - i,
{
    if i < rows.len() {
        lemma_literal_rows(db, rows, i + 1);
        lemma_literal_list(db, rows[i], no_scope(), 0);
        assert(rows[i].skip(0) =~= rows[i]);
        assert(literals(rows)[i] =~= Seq::new(
            rows[i].len(),
            |j: int| SpecExpr::Literal(rows[i][j]),
        ));
        assert(seq![rows[i]] + rows.skip(i + 1) =~= rows.skip(i));
    } else {
        assert(rows.skip(i) =~= Seq::<Seq<SpecValue>>::empty());
    }
}

/// `CREATE TABLE`, then an `INSERT` of rows that fit the schema, then
/// `SELECT * FROM` the table gives exactly those rows, in the order in which
/// they were written.
pub proof fn law_create_insert_select(
    db: Seq<SpecTable>,
    name: Seq<char>,
    columns: Seq<crate::ast::SpecColumnDef>,
    rows: Seq<Seq<SpecValue>>,
)
    requires
        valid(db),
        find_table(db, name) is None,
        !has_duplicate(columns),
        rows_error(columns, rows, 0) is None,
    ensures
        ({
            let created = execute_spec(db, SpecStatement::CreateTable { name, columns });
            let filled = execute_spec(
                created->Ok_0.0,
                SpecStatement::Insert { table: name, names: None, rows: literals(rows) },
            );
            let read = execute_spec(filled->Ok_0.0, SpecStatement::Select(star_query(name)));
            &&& created is Ok
            &&& filled is Ok
            &&& filled->Ok_0.1 == SpecExecResult::Count(rows.len())
            &&& read is Ok
            &&& read->Ok_0.0 == filled->Ok_0.0
            &&& read->Ok_0.1 is Rows
            &&& read->Ok_0.1->Rows_0.rows == rows
            &&& read->Ok_0.1->Rows_0.rows.len() == rows.len()
        }),
{
    law_create_is_valid(db, name, columns);
    let db1 = create_spec(db, name, columns)->Ok_0;
    lemma_literal_rows(db1, rows, 0);
    assert(rows.skip(0) =~= rows);
    assert(insert_spec(db1, name, rows) is Ok);
    law_insert_appends(db1, name, rows);
    let db2 = insert_spec(db1, name, rows)->Ok_0;
    law_select_star(db2, name);
    assert(Seq::<Seq<SpecValue>>::empty() + rows =~= rows);
}

/// The tables after a sequence of insertions into one table, from the
/// `k`-th on.
pub open spec fn inserted_from(
    db: Seq<SpecTable>,
    name: Seq<char>,
    batches: Seq<Seq<Seq<SpecValue>>>,
    k: int,
) -> Result<Seq<SpecTable>, EngineError>
    decreases batches.len() - k,
{
    if k < 0 || k >= batches.len() {
        Ok(db)
    } else {
        match insert_spec(db, name, batches[k]) {
            Err(e) => Err(e),
            Ok(next) => inserted_from(next, name, batches, k + 1),
        }
    }
}

/// The rows of the batches from the `k`-th on, one batch after the other.
pub open spec fn flattened(batches: Seq<Seq<Seq<SpecValue>>>, k: int) -> Seq<Seq<SpecValue>>
    decreases batches.len() - k,
{
    if k < 0 || k >= batches.len() {
        Seq::empty()
    } else {
        batches[k] + flattened(batches, k + 1)
    }
}

proof fn lemma_inserted(
    db: Seq<SpecTable>,
    name: Seq<char>,
    batches: Seq<Seq<Seq<SpecValue>>>,
    k: int,
)
    requires
        valid(db),
        0 <= k <= batches.len(),
        find_table(db, name) is Some,
        inserted_from(db, name, batches, k) is Ok,
    ensures
        valid(inserted_from(db, name, batches, k)->Ok_0),
        find_table(inserted_from(db, name, batches, k)->Ok_0, name) == find_table(db, name),
        inserted_from(db, name, batches, k)->Ok_0[find_table(db, name)->Some_0].rows
            == db[find_table(db, name)->Some_0].rows + flattened(batches, k),
        inserted_from(db, name, batches, k)->Ok_0[find_table(db, name)->Some_0].columns
            == db[find_table(db, name)->Some_0].columns,
    decreases batches.len() - k,
{
    let i = find_table(db, name)->Some_0;
    if k < batches.len() {
        law_insert_appends(db, name, batches[k]);
        let next = insert_spec(db, name, batches[k])->Ok_0;
        lemma_inserted(next, name, batches, k + 1);
        assert((db[i].rows + batches[k]) + flattened(batches, k + 1) =~= db[i].rows + flattened(
            batches,
            k,
        ));
    } else {
        assert(db[i].rows + flattened(batches, k) =~= db[i].rows);
    }
}

/// After any sequence of insertions into a table, `SELECT * FROM` the table
/// gives the rows that it held and the rows that were inserted, each as
/// often as it was inserted: as a sequence in the order of insertion, and so
/// as a multiset.
pub proof fn law_insert_round_trip(
    db: Seq<SpecTable>,
    name: Seq<char>,
    batches: Seq<Seq<Seq<SpecValue>>>,
)
    requires
        valid(db),
        find_table(db, name) is Some,
        inserted_from(db, name, batches, 0) is Ok,
    ensures
        run_select(inserted_from(db, name, batches, 0)->Ok_0, star_query(name), no_scope()) is Ok,
        run_select(
            inserted_from(db, name, batches, 0)->Ok_0,
            star_query(name),
            no_scope(),
        )->Ok_0.rows == db[find_table(db, name)->Some_0].rows + flattened(batches, 0),
        run_select(
            inserted_from(db, name, batches, 0)->Ok_0,
            star_query(name),
            no_scope(),
        )->Ok_0.rows.to_multiset() == db[find_table(db, name)->Some_0].rows.to_multiset().add(
            flattened(batches, 0).to_multiset(),
        ),
{
    lemma_inserted(db, name, batches, 0);
    law_select_star(inserted_from(db, name, batches, 0)->Ok_0, name);
    vstd::seq_lib::lemma_multiset_commutative(
        db[find_table(db, name)->Some_0].rows,
        flattened(batches, 0),
    );
}

/// The query `SELECT e` for an expression `e`.
pub open spec fn bare_query(e: SpecExpr) -> SpecSelect {
    SpecSelect {
        items: seq![SpecSelectItem::Expr { expr: e, alias: None }],
        from: None,
        joins: Seq::empty(),
        filter: None,
        group_by: Seq::empty(),
        having: None,
        order_by: Seq::empty(),
        limit: None,
    }
}

/// `SELECT L` for a literal `L` gives one row with one column that holds the
/// value of `L`, and the response to it is one line with the text of that
/// value, then an empty line.
pub proof fn law_select_literal(db: Seq<SpecTable>, v: SpecValue)
    ensures
        execute_spec(db, SpecStatement::Select(bare_query(SpecExpr::Literal(v)))) == Ok::<
            (Seq<SpecTable>, SpecExecResult),
            EngineError,
        >(
            (
                db,
                SpecExecResult::Rows(
                    SpecResultSet { columns: seq![Seq::empty()], rows: seq![seq![v]] },
                ),
            ),
        ),
        rendered(
            SpecExecResult::Rows(SpecResultSet { columns: seq![Seq::empty()], rows: seq![seq![v]] }),
        ) == render_spec(v) + seq!['\n', '\n'],
{
    let q = bare_query(SpecExpr::Literal(v));
    let rel = Relation { columns: Seq::empty(), rows: seq![Seq::empty()] };
    let sc0 = no_scope();
    assert(joined_with(db, q.joins, rel, sc0, 0) == Ok::<Relation, EngineError>(rel));
    assert(!item_aggregate(q.items, 1));
    assert(!has_aggregate(SpecExpr::Literal(v)));
    assert(!item_aggregate(q.items, 0));
    assert(!key_aggregate(q.order_by, 0));
    let columns = rel.columns + sc0.columns;
    let units = row_units(rel.rows);
    let keys = key_columns(q.group_by, columns, 0);
    let sc = unit_scope(columns, 0, sc0.row, keys, units[0]);
    assert(project(db, q.items, sc, 1) == Ok::<Seq<SpecValue>, EngineError>(Seq::empty()));
    assert(seq![v] + Seq::<SpecValue>::empty() =~= seq![v]);
    assert(q.items[0] == (SpecSelectItem::Expr { expr: SpecExpr::Literal(v), alias: None }));
    assert(eval(db, SpecExpr::Literal(v), sc) == Ok::<SpecValue, EngineError>(v));
    assert(project(db, q.items, sc, 0) == Ok::<Seq<SpecValue>, EngineError>(seq![v]));
    assert(order_values(db, q.order_by, q.items, sc, seq![v], 0) == Ok::<Seq<SpecValue>, EngineError>(
        Seq::empty(),
    ));
    assert(outputs_from(db, q, columns, 0, sc0.row, keys, units, 1) == Ok::<
        Seq<SpecKeyed>,
        EngineError,
    >(Seq::empty()));
    let item = SpecKeyed { keys: Seq::empty(), row: seq![v] };
    assert(seq![item] + Seq::<SpecKeyed>::empty() =~= unkeyed(seq![seq![v]]));
    assert(outputs_from(db, q, columns, 0, sc0.row, keys, units, 0) == Ok::<
        Seq<SpecKeyed>,
        EngineError,
    >(unkeyed(seq![seq![v]])));
    law_sort_without_keys(seq![seq![v]], directions(q.order_by));
    assert(names(q.items, rel.columns, 1) =~= Seq::<Seq<char>>::empty());
    assert(names(q.items, rel.columns, 0) =~= seq![Seq::<char>::empty()]);
    let rows = seq![seq![v]];
    assert(fields_from(rows[0], 1) =~= Seq::<char>::empty());
    assert(fields_from(rows[0], 0) =~= render_spec(v));
    assert(lines_from(rows, 1) =~= Seq::<char>::empty());
    assert(lines_from(rows, 0) =~= render_spec(v) + seq!['\n']);
    assert(lines_from(rows, 0) + seq!['\n'] =~= render_spec(v) + seq!['\n', '\n']);
}

/// Whether an operator compares.
pub open spec fn compares(op: BinaryOperator) -> bool {
    op == BinaryOperator::Eq || op == BinaryOperator::Ne || op == BinaryOperator::Lt || op
        == BinaryOperator::Le || op == BinaryOperator::Gt || op == BinaryOperator::Ge
}

/// A comparison with NULL, equality too, is NULL, which as a condition is
/// unknown: whatever stands on the other side, and on whichever side NULL
/// stands.
pub proof fn law_null_comparison(
    db: Seq<SpecTable>,
    op: BinaryOperator,
    left: SpecExpr,
    right: SpecExpr,
    sc: Scope,
)
    requires
        compares(op),
        eval(db, left, sc) is Ok,
        eval(db, right, sc) is Ok,
        eval(db, left, sc)->Ok_0 is Null || eval(db, right, sc)->Ok_0 is Null,
    ensures
        eval(db, crate::grammar::binary(op, left, right), sc) == Ok::<SpecValue, EngineError>(
            SpecValue::Null,
        ),
        truth_spec(SpecValue::Null) == Ok::<Truth, EngineError>(Truth::Unknown),
{
}

/// `x IS NULL` is true of NULL and false of every other value, and
/// `x IS NOT NULL` the other way round.
pub proof fn law_is_null(db: Seq<SpecTable>, operand: SpecExpr, negated: bool, sc: Scope)
    requires
        eval(db, operand, sc) is Ok,
    ensures
        eval(db, SpecExpr::IsNull { operand: Box::new(operand), negated }, sc) == Ok::<
            SpecValue,
            EngineError,
        >(
            if (eval(db, operand, sc)->Ok_0 is Null) != negated {
                SpecValue::Integer(1)
            } else {
                SpecValue::Integer(0)
            },
        ),
{
}

/// Whether `x` is a row from `from` on whose condition is true.
pub open spec fn kept(rows: Seq<Seq<SpecValue>>, truths: Seq<Truth>, from: int, x: Seq<SpecValue>) -> bool {
    exists|i: int| from <= i < rows.len() && #[trigger] holds(truths, i) && rows[i] == x
}

proof fn lemma_chosen_sound(rows: Seq<Seq<SpecValue>>, truths: Seq<Truth>, from: int)
    requires
        0 <= from,
    ensures
        forall|k: int|
            0 <= k < chosen_from(rows, truths, from).len() ==> kept(
                rows,
                truths,
                from,
                #[trigger] chosen_from(rows, truths, from)[k],
            ),
    decreases rows.len() - from,
{
    if from < rows.len() {
        lemma_chosen_sound(rows, truths, from + 1);
        let rest = chosen_from(rows, truths, from + 1);
        let all = chosen_from(rows, truths, from);
        assert forall|k: int| 0 <= k < all.len() implies kept(rows, truths, from, #[trigger] all[k]) by {
            if holds(truths, from) && k == 0 {
                assert(holds(truths, from) && rows[from] == all[k]);
            } else {
                let x = if holds(truths, from) {
                    rest[k - 1]
                } else {
                    rest[k]
                };
                assert(x == all[k]);
                assert(kept(rows, truths, from + 1, x));
                let i = choose|i: int|
                    from + 1 <= i < rows.len() && #[trigger] holds(truths, i) && rows[i] == x;
                assert(holds(truths, i) && rows[i] == all[k]);
            }
        }
    }
}

proof fn lemma_chosen_complete(rows: Seq<Seq<SpecValue>>, truths: Seq<Truth>, from: int, i: int)
    requires
        0 <= from <= i < rows.len(),
        holds(truths, i),
    ensures
        chosen_from(rows, truths, from).contains(rows[i]),
    decreases rows.len() - from,
{
    let all = chosen_from(rows, truths, from);
    if from == i {
        assert(all[0] == rows[i]);
    } else {
        lemma_chosen_complete(rows, truths, from + 1, i);
        let rest = chosen_from(rows, truths, from + 1);
        let k = choose|k: int| 0 <= k < rest.len() && rest[k] == rows[i];
        if holds(truths, from) {
            assert(all[k + 1] == rows[i]);
        } else {
            assert(all[k] == rows[i]);
        }
    }
}

/// A filter keeps the rows whose condition is true and no others: each row
/// that it gives is a row whose condition is true, and each row whose
/// condition is true is among those that it gives. A row whose condition is
/// false or unknown is kept by no filter.
pub proof fn law_filter_keeps_true(rows: Seq<Seq<SpecValue>>, truths: Seq<Truth>)
    ensures
        forall|k: int|
            0 <= k < chosen(rows, truths).len() ==> kept(
                rows,
                truths,
                0,
                #[trigger] chosen(rows, truths)[k],
            ),
        forall|i: int|
            0 <= i < rows.len() && holds(truths, i) ==> chosen(rows, truths).contains(
                #[trigger] rows[i],
            ),
        never(truths) ==> chosen(rows, truths).len() == 0,
{
    lemma_chosen_sound(rows, truths, 0);
    assert forall|i: int| 0 <= i < rows.len() && holds(truths, i) implies chosen(
        rows,
        truths,
    ).contains(#[trigger] rows[i]) by {
        lemma_chosen_complete(rows, truths, 0, i);
    }
    if never(truths) {
        lemma_none_chosen(rows, truths, 0);
    }
}

/// The query `SELECT * FROM name WHERE w`.
pub open spec fn filter_query(name: Seq<char>, w: SpecExpr) -> SpecSelect {
    SpecSelect {
        items: seq![SpecSelectItem::Star],
        from: Some(plain(name)),
        joins: Seq::empty(),
        filter: Some(w),
        group_by: Seq::empty(),
        having: None,
        order_by: Seq::empty(),
        limit: None,
    }
}

/// `SELECT * FROM t WHERE w` gives the rows of `t` of which `w` is true, in
/// their order: a row of which `w` is false or unknown, as `x = 5` is where
/// `x` is NULL, is not among them.
pub proof fn law_where_filters(db: Seq<SpecTable>, name: Seq<char>, w: SpecExpr)
    requires
        valid(db),
        find_table(db, name) is Some,
        run_select(db, filter_query(name, w), no_scope()) is Ok,
    ensures
        ({
            let t = db[find_table(db, name)->Some_0];
            let columns = bindings(t, plain(name));
            let values = values_over(db, w, columns, columns.len(), Seq::empty(), t.rows, 0);
            &&& values is Ok
            &&& truths_of(values->Ok_0) is Ok
            &&& run_select(db, filter_query(name, w), no_scope())->Ok_0.rows == chosen(
                t.rows,
                truths_of(values->Ok_0)->Ok_0,
            )
        }),
{
    let q = filter_query(name, w);
    let i = find_table(db, name)->Some_0;
    lemma_find(db, name, 0);
    let t = db[i];
    let rel = Relation { columns: bindings(t, plain(name)), rows: t.rows };
    assert(valid_table(t));
    assert(base_relation(db, q.from) == Ok::<Relation, EngineError>(rel));
    assert(joined_with(db, q.joins, rel, no_scope(), 0) == Ok::<Relation, EngineError>(rel));
    assert(rel.columns + no_scope().columns =~= rel.columns);
    let values = values_over(db, w, rel.columns, rel.columns.len(), Seq::empty(), t.rows, 0);
    assert(no_scope().row =~= Seq::<SpecValue>::empty());
    assert(values is Ok);
    assert(filtered(t.rows, values->Ok_0) is Ok);
    let truths = truths_of(values->Ok_0)->Ok_0;
    let rows = chosen(t.rows, truths);
    lemma_chosen_sound(t.rows, truths, 0);
    assert forall|k: int| 0 <= k < rows.len() implies (#[trigger] rows[k]).len()
        == rel.columns.len() by {
        assert(kept(t.rows, truths, 0, rows[k]));
        let j = choose|j: int|
            0 <= j < t.rows.len() && #[trigger] holds(truths, j) && t.rows[j] == rows[k];
        assert(row_error(t.columns, t.rows[j]) is None);
    }
    lemma_star_rows(db, q, rel.columns, rows);
    assert(!is_aggregate(q));
    assert(key_columns(q.group_by, rel.columns, 0) =~= Seq::<int>::empty());
}

proof fn lemma_one_group(
    rows: Seq<Seq<SpecValue>>,
    keys: Seq<Seq<SpecValue>>,
    key: Seq<SpecValue>,
    from: int,
)
    requires
        1 <= from <= rows.len(),
        forall|i: int| 0 <= i < rows.len() ==> same_key(key, #[trigger] crate::group::key_at(keys, i)),
    ensures
        grouped_from(rows, keys, seq![SpecGroup { key, rows: rows.take(from) }], from)
            == seq![SpecGroup { key, rows }],
    decreases rows.len() - from,
{
    let acc = seq![SpecGroup { key, rows: rows.take(from) }];
    if from < rows.len() {
        assert(same_key(key, crate::group::key_at(keys, from)));
        assert(group_from(acc, crate::group::key_at(keys, from), 0) == Some(0int));
        let next = with_row(acc, crate::group::key_at(keys, from), rows[from]);
        assert(rows.take(from).push(rows[from]) =~= rows.take(from + 1));
        assert(next =~= seq![SpecGroup { key, rows: rows.take(from + 1) }]);
        lemma_one_group(rows, keys, key, from + 1);
    } else {
        assert(rows.take(from) =~= rows);
    }
}

/// Rows whose keys agree fall into one group, which holds them all in their
/// order.
pub proof fn law_equal_keys_one_group(rows: Seq<Seq<SpecValue>>, keys: Seq<Seq<SpecValue>>)
    requires
        rows.len() > 0,
        forall|i: int|
            0 <= i < rows.len() ==> same_key(
                crate::group::key_at(keys, 0),
                #[trigger] crate::group::key_at(keys, i),
            ),
    ensures
        grouped(rows, keys) == seq![SpecGroup { key: crate::group::key_at(keys, 0), rows }],
{
    let key = crate::group::key_at(keys, 0);
    let first = with_row(Seq::empty(), key, rows[0]);
    assert(group_from(Seq::<SpecGroup>::empty(), key, 0) is None);
    assert(rows.take(1) =~= seq![rows[0]]);
    assert(first =~= seq![SpecGroup { key, rows: rows.take(1) }]);
    lemma_one_group(rows, keys, key, 1);
}

/// Rows whose key is NULL, in one column or in several, share a group:
/// grouping takes NULL for equal to NULL.
pub proof fn law_null_keys_share_a_group(rows: Seq<Seq<SpecValue>>, keys: Seq<Seq<SpecValue>>, n: nat)
    requires
        rows.len() > 0,
        keys.len() == rows.len(),
        forall|i: int| 0 <= i < keys.len() ==> #[trigger] keys[i] == nulls(n),
    ensures
        grouped(rows, keys) == seq![SpecGroup { key: nulls(n), rows }],
{
    assert forall|i: int| 0 <= i < rows.len() implies same_key(
        crate::group::key_at(keys, 0),
        #[trigger] crate::group::key_at(keys, i),
    ) by {
        assert(keys[i] == nulls(n));
        assert(keys[0] == nulls(n));
    }
    law_equal_keys_one_group(rows, keys);
}

/// Whether every value is NULL.
pub open spec fn all_null(values: Seq<SpecValue>) -> bool {
    forall|i: int| 0 <= i < values.len() ==> #[trigger] values[i] is Null
}

proof fn lemma_nothing_to_aggregate(values: Seq<SpecValue>, greatest: bool, from: int)
    requires
        all_null(values),
    ensures
        count_from(values, from) == 0,
        sum_from(values, None, from) == Ok::<Option<SpecValue>, EngineError>(None),
        extreme_from(greatest, values, None, from) == Ok::<Option<SpecValue>, EngineError>(None),
    decreases values.len() - from,
{
    if 0 <= from < values.len() {
        assert(values[from] is Null);
        lemma_nothing_to_aggregate(values, greatest, from + 1);
    }
}

/// Over a group without a value that is not NULL, and so over an empty
/// group, the count is 0 and the sum, the average, the least and the
/// greatest are NULL.
pub proof fn law_aggregate_of_nothing(values: Seq<SpecValue>)
    requires
        all_null(values),
    ensures
        aggregate(Aggregate::Count, values) == Ok::<SpecValue, EngineError>(
            SpecValue::Integer(0),
        ),
        aggregate(Aggregate::Sum, values) == Ok::<SpecValue, EngineError>(SpecValue::Null),
        aggregate(Aggregate::Avg, values) == Ok::<SpecValue, EngineError>(SpecValue::Null),
        aggregate(Aggregate::Min, values) == Ok::<SpecValue, EngineError>(SpecValue::Null),
        aggregate(Aggregate::Max, values) == Ok::<SpecValue, EngineError>(SpecValue::Null),
{
    lemma_nothing_to_aggregate(values, false, 0);
    lemma_nothing_to_aggregate(values, true, 0);
}

/// The query `SELECT f(*) FROM name`.
pub open spec fn count_query(name: Seq<char>, f: Seq<char>) -> SpecSelect {
    SpecSelect {
        items: seq![
            SpecSelectItem::Expr {
                expr: SpecExpr::FunctionCall { name: f, args: Seq::empty(), star: true },
                alias: None,
            },
        ],
        from: Some(plain(name)),
        joins: Seq::empty(),
        filter: None,
        group_by: Seq::empty(),
        having: None,
        order_by: Seq::empty(),
        limit: None,
    }
}

proof fn lemma_no_keys(
    db: Seq<SpecTable>,
    columns: Seq<SpecBinding>,
    width: nat,
    outer: Seq<SpecValue>,
    rows: Seq<Seq<SpecValue>>,
    i: int,
)
    requires
        0 <= i,
    ensures
        rows_over(db, Seq::empty(), columns, width, outer, rows, i) is Ok,
    decreases rows.len() - i,
{
    if i < rows.len() {
        lemma_no_keys(db, columns, width, outer, rows, i + 1);
        assert(eval_list(db, Seq::empty(), row_scope(columns, width, rows[i], outer), 0) is Ok);
    }
}

/// `SELECT COUNT(*) FROM t` gives one row with the number of rows of `t`: over
/// an empty table one row with 0.
pub proof fn law_count_star(db: Seq<SpecTable>, name: Seq<char>, f: Seq<char>)
    requires
        valid(db),
        find_table(db, name) is Some,
        function_named(f) == Some(Function::Aggregate(Aggregate::Count)),
        db[find_table(db, name)->Some_0].rows.len() <= i64::MAX,
    ensures
        run_select(db, count_query(name, f), no_scope()) is Ok,
        run_select(db, count_query(name, f), no_scope())->Ok_0.rows == seq![
            seq![SpecValue::Integer(db[find_table(db, name)->Some_0].rows.len() as i64)],
        ],
{
    let q = count_query(name, f);
    let i = find_table(db, name)->Some_0;
    lemma_find(db, name, 0);
    let t = db[i];
    let rel = Relation { columns: bindings(t, plain(name)), rows: t.rows };
    let call = SpecExpr::FunctionCall { name: f, args: Seq::empty(), star: true };
    let v = SpecValue::Integer(t.rows.len() as i64);
    assert(base_relation(db, q.from) == Ok::<Relation, EngineError>(rel));
    assert(joined_with(db, q.joins, rel, no_scope(), 0) == Ok::<Relation, EngineError>(rel));
    assert(q.items[0] == (SpecSelectItem::Expr { expr: call, alias: None }));
    assert(has_aggregate(call));
    assert(item_aggregate(q.items, 0));
    assert(is_aggregate(q));
    let columns = rel.columns + no_scope().columns;
    let width = rel.columns.len();
    lemma_no_keys(db, columns, width, no_scope().row, t.rows, 0);
    let keys = rows_over(db, q.group_by, columns, width, no_scope().row, t.rows, 0)->Ok_0;
    let units = group_units(false, t.rows, grouped(t.rows, keys), width);
    let ks = key_columns(q.group_by, columns, 0);
    let sc = unit_scope(columns, width, no_scope().row, ks, units[0]);
    assert(eval(db, call, sc) == Ok::<SpecValue, EngineError>(v));
    assert(project(db, q.items, sc, 1) == Ok::<Seq<SpecValue>, EngineError>(Seq::empty()));
    assert(seq![v] + Seq::<SpecValue>::empty() =~= seq![v]);
    assert(project(db, q.items, sc, 0) == Ok::<Seq<SpecValue>, EngineError>(seq![v]));
    assert(order_values(db, q.order_by, q.items, sc, seq![v], 0) == Ok::<Seq<SpecValue>, EngineError>(
        Seq::empty(),
    ));
    assert(outputs_from(db, q, columns, width, no_scope().row, ks, units, 1) == Ok::<
        Seq<SpecKeyed>,
        EngineError,
    >(Seq::empty()));
    let item = SpecKeyed { keys: Seq::empty(), row: seq![v] };
    assert(seq![item] + Seq::<SpecKeyed>::empty() =~= unkeyed(seq![seq![v]]));
    assert(outputs_from(db, q, columns, width, no_scope().row, ks, units, 0) == Ok::<
        Seq<SpecKeyed>,
        EngineError,
    >(unkeyed(seq![seq![v]])));
    law_sort_without_keys(seq![seq![v]], directions(q.order_by));
}

/// The query `SELECT * FROM a JOIN b`, with a kind of join and a condition.
pub open spec fn join_query(a: Seq<char>, b: Seq<char>, kind: JoinKind, on: Option<SpecExpr>) -> SpecSelect {
    SpecSelect {
        items: seq![SpecSelectItem::Star],
        from: Some(plain(a)),
        joins: seq![SpecJoin { kind, table: plain(b), on }],
        filter: None,
        group_by: Seq::empty(),
        having: None,
        order_by: Seq::empty(),
        limit: None,
    }
}

/// Whether every row has `n` values.
pub open spec fn all_of_width(rows: Seq<Seq<SpecValue>>, n: nat) -> bool {
    forall|k: int| 0 <= k < rows.len() ==> (#[trigger] rows[k]).len() == n
}

proof fn lemma_paired_width(
    left: Seq<SpecValue>,
    right: Seq<Seq<SpecValue>>,
    n: nat,
    from: int,
)
    requires
        0 <= from,
        all_of_width(right, n),
    ensures
        all_of_width(paired_from(left, right, from), left.len() + n),
    decreases right.len() - from,
{
    if from < right.len() {
        lemma_paired_width(left, right, n, from + 1);
        let all = paired_from(left, right, from);
        let rest = paired_from(left, right, from + 1);
        assert forall|k: int| 0 <= k < all.len() implies (#[trigger] all[k]).len() == left.len()
            + n by {
            if k == 0 {
                assert(all[0] == left + right[from]);
            } else {
                assert(all[k] == rest[k - 1]);
            }
        }
    }
}

proof fn lemma_cross_width(
    left: Seq<Seq<SpecValue>>,
    right: Seq<Seq<SpecValue>>,
    m: nat,
    n: nat,
    from: int,
)
    requires
        0 <= from,
        all_of_width(left, m),
        all_of_width(right, n),
    ensures
        all_of_width(cross_from(left, right, from), m + n),
    decreases left.len() - from,
{
    if from < left.len() {
        lemma_cross_width(left, right, m, n, from + 1);
        lemma_paired_width(left[from], right, n, 0);
        let part = paired_from(left[from], right, 0);
        let rest = cross_from(left, right, from + 1);
        let all = cross_from(left, right, from);
        assert forall|k: int| 0 <= k < all.len() implies (#[trigger] all[k]).len() == m + n by {
            if k < part.len() {
                assert(all[k] == part[k]);
            } else {
                assert(all[k] == rest[k - part.len()]);
            }
        }
    }
}

proof fn lemma_table_width(db: Seq<SpecTable>, name: Seq<char>)
    requires
        valid(db),
        find_table(db, name) is Some,
    ensures
        table_relation(db, plain(name)) == Ok::<Relation, EngineError>(
            Relation {
                columns: bindings(db[find_table(db, name)->Some_0], plain(name)),
                rows: db[find_table(db, name)->Some_0].rows,
            },
        ),
        all_of_width(
            db[find_table(db, name)->Some_0].rows,
            db[find_table(db, name)->Some_0].columns.len(),
        ),
        bindings(db[find_table(db, name)->Some_0], plain(name)).len() == db[find_table(
            db,
            name,
        )->Some_0].columns.len(),
{
    lemma_find(db, name, 0);
    let t = db[find_table(db, name)->Some_0];
    assert(valid_table(t));
    assert forall|k: int| 0 <= k < t.rows.len() implies (#[trigger] t.rows[k]).len()
        == t.columns.len() by {
        assert(row_error(t.columns, t.rows[k]) is None);
    }
}

/// `SELECT * FROM a CROSS JOIN b` gives the Cartesian product of the rows of
/// the two tables: with M rows in `a` and N in `b`, exactly M times N rows.
pub proof fn law_cross_join_query(db: Seq<SpecTable>, a: Seq<char>, b: Seq<char>)
    requires
        valid(db),
        find_table(db, a) is Some,
        find_table(db, b) is Some,
    ensures
        run_select(db, join_query(a, b, JoinKind::Cross, None), no_scope()) is Ok,
        run_select(db, join_query(a, b, JoinKind::Cross, None), no_scope())->Ok_0.rows == cross(
            db[find_table(db, a)->Some_0].rows,
            db[find_table(db, b)->Some_0].rows,
        ),
        run_select(db, join_query(a, b, JoinKind::Cross, None), no_scope())->Ok_0.rows.len()
            == db[find_table(db, a)->Some_0].rows.len() * db[find_table(db, b)->Some_0].rows.len(),
{
    let q = join_query(a, b, JoinKind::Cross, None);
    lemma_table_width(db, a);
    lemma_table_width(db, b);
    let left = table_relation(db, plain(a))->Ok_0;
    let right = table_relation(db, plain(b))->Ok_0;
    let rel = Relation {
        columns: left.columns + right.columns,
        rows: cross(left.rows, right.rows),
    };
    assert(q.joins[0] == (SpecJoin { kind: JoinKind::Cross, table: plain(b), on: None }));
    assert(joined_with(db, q.joins, rel, no_scope(), 1) == Ok::<Relation, EngineError>(rel));
    assert(joined_with(db, q.joins, left, no_scope(), 0) == Ok::<Relation, EngineError>(rel));
    lemma_cross_width(left.rows, right.rows, left.columns.len(), right.columns.len(), 0);
    lemma_star_rows(db, q, rel.columns, rel.rows);
    assert(!is_aggregate(q));
    assert(rel.columns + no_scope().columns =~= rel.columns);
    assert(key_columns(q.group_by, rel.columns, 0) =~= Seq::<int>::empty());
    law_cross_join_size(left.rows, right.rows);
}

/// Whether a condition is false of every row, whatever the row holds.
pub open spec fn always_false(db: Seq<SpecTable>, on: SpecExpr) -> bool {
    forall|sc: Scope|
        (#[trigger] eval(db, on, sc)) is Ok && truth_spec(eval(db, on, sc)->Ok_0) == Ok::<
            Truth,
            EngineError,
        >(Truth::False)
}

proof fn lemma_truths_never(values: Seq<SpecValue>, from: int)
    requires
        0 <= from,
        forall|i: int|
            0 <= i < values.len() ==> truth_spec(#[trigger] values[i]) == Ok::<
                Truth,
                EngineError,
            >(Truth::False),
    ensures
        truths_from(values, from) is Ok,
        never(truths_from(values, from)->Ok_0),
    decreases values.len() - from,
{
    if from < values.len() {
        lemma_truths_never(values, from + 1);
        let rest = truths_from(values, from + 1)->Ok_0;
        let all = truths_from(values, from)->Ok_0;
        assert(truth_spec(values[from]) == Ok::<Truth, EngineError>(Truth::False));
        assert(all =~= seq![Truth::False] + rest);
        assert forall|i: int| 0 <= i < all.len() implies #[trigger] all[i] != Truth::True by {
            if i > 0 {
                assert(all[i] == rest[i - 1]);
            }
        }
    }
}

proof fn lemma_values_false(
    db: Seq<SpecTable>,
    on: SpecExpr,
    columns: Seq<SpecBinding>,
    width: nat,
    outer: Seq<SpecValue>,
    rows: Seq<Seq<SpecValue>>,
    i: int,
)
    requires
        0 <= i,
        always_false(db, on),
    ensures
        values_over(db, on, columns, width, outer, rows, i) is Ok,
        forall|k: int|
            0 <= k < values_over(db, on, columns, width, outer, rows, i)->Ok_0.len()
                ==> truth_spec(
                #[trigger] values_over(db, on, columns, width, outer, rows, i)->Ok_0[k],
            ) == Ok::<Truth, EngineError>(Truth::False),
    decreases rows.len() - i,
{
    if i < rows.len() {
        lemma_values_false(db, on, columns, width, outer, rows, i + 1);
        let sc = row_scope(columns, width, rows[i], outer);
        assert(eval(db, on, sc) is Ok);
        let rest = values_over(db, on, columns, width, outer, rows, i + 1)->Ok_0;
        let all = values_over(db, on, columns, width, outer, rows, i)->Ok_0;
        assert(all =~= seq![eval(db, on, sc)->Ok_0] + rest);
        assert forall|k: int| 0 <= k < all.len() implies truth_spec(#[trigger] all[k]) == Ok::<
            Truth,
            EngineError,
        >(Truth::False) by {
            if k > 0 {
                assert(all[k] == rest[k - 1]);
            }
        }
    }
}

/// A join on a condition that is false of every pair of rows: an inner join
/// gives no rows, and a left join gives each row of its left table once,
/// with NULLs in the columns of its right table, so M rows for a left table
/// of M rows.
pub proof fn law_join_never_query(
    db: Seq<SpecTable>,
    a: Seq<char>,
    b: Seq<char>,
    kind: JoinKind,
    on: SpecExpr,
)
    requires
        valid(db),
        find_table(db, a) is Some,
        find_table(db, b) is Some,
        kind != JoinKind::Cross,
        always_false(db, on),
    ensures
        run_select(db, join_query(a, b, kind, Some(on)), no_scope()) is Ok,
        kind == JoinKind::Inner ==> run_select(
            db,
            join_query(a, b, kind, Some(on)),
            no_scope(),
        )->Ok_0.rows.len() == 0,
        kind == JoinKind::Left ==> run_select(
            db,
            join_query(a, b, kind, Some(on)),
            no_scope(),
        )->Ok_0.rows == padded(
            db[find_table(db, a)->Some_0].rows,
            db[find_table(db, b)->Some_0].columns.len(),
        ),
        kind == JoinKind::Left ==> run_select(
            db,
            join_query(a, b, kind, Some(on)),
            no_scope(),
        )->Ok_0.rows.len() == db[find_table(db, a)->Some_0].rows.len(),
{
    let q = join_query(a, b, kind, Some(on));
    lemma_table_width(db, a);
    lemma_table_width(db, b);
    let left = table_relation(db, plain(a))->Ok_0;
    let right = table_relation(db, plain(b))->Ok_0;
    let columns = left.columns + right.columns;
    let candidates = cross(left.rows, right.rows);
    lemma_values_false(
        db,
        on,
        columns + no_scope().columns,
        columns.len(),
        no_scope().row,
        candidates,
        0,
    );
    let values = values_over(
        db,
        on,
        columns + no_scope().columns,
        columns.len(),
        no_scope().row,
        candidates,
        0,
    )->Ok_0;
    lemma_truths_never(values, 0);
    let truths = truths_of(values)->Ok_0;
    let rows = joined(kind, left.rows, right.rows, right.columns.len(), truths);
    let rel = Relation { columns, rows };
    assert(q.joins[0] == (SpecJoin { kind, table: plain(b), on: Some(on) }));
    assert(joined_with(db, q.joins, rel, no_scope(), 1) == Ok::<Relation, EngineError>(rel));
    assert(joined_with(db, q.joins, left, no_scope(), 0) == Ok::<Relation, EngineError>(rel));
    if kind == JoinKind::Inner {
        law_inner_join_never(left.rows, right.rows, right.columns.len(), truths);
    } else {
        law_left_join_never(left.rows, right.rows, right.columns.len(), truths);
        assert forall|k: int| 0 <= k < rows.len() implies (#[trigger] rows[k]).len()
            == columns.len() by {
            assert(rows[k] == left.rows[k] + nulls(right.columns.len()));
        }
    }
    lemma_star_rows(db, q, rel.columns, rel.rows);
    assert(!is_aggregate(q));
    assert(rel.columns + no_scope().columns =~= rel.columns);
    assert(key_columns(q.group_by, rel.columns, 0) =~= Seq::<int>::empty());
}

/// Whether a text holds no line feed.
pub open spec fn one_line(s: Seq<char>) -> bool {
    forall|i: int| 0 <= i < s.len() ==> #[trigger] s[i] != '\n'
}

proof fn lemma_first_word_one_line(sql: Seq<char>)
    ensures
        one_line(first_word_spec(sql)),
{
    reveal_strlit("unknown");
    let rest = sql.skip(run(sql, CharClass::Space) as int);
    let n = run(rest, CharClass::Word);
    if n > 0 {
        let word = first_word_spec(sql);
        crate::text::lemma_run_bound(rest, CharClass::Word);
        assert(word == rest.take(n as int));
        assert forall|i: int| 0 <= i < word.len() implies #[trigger] word[i] != '\n' by {
            lemma_run_all(rest, CharClass::Word, i);
            assert(word[i] == rest[i]);
            assert(is_space('\n'));
        }
    }
}

proof fn lemma_parse_message_one_line(f: ParseErrorKind)
    ensures
        one_line(f.message_spec()),
{
    reveal_strlit("unexpected token");
    reveal_strlit("unterminated literal");
    reveal_strlit("unbalanced parentheses");
    reveal_strlit("unknown statement");
    reveal_strlit("invalid character");
    reveal_strlit("number out of range");
}

proof fn lemma_engine_message_one_line(e: EngineError)
    ensures
        one_line(e.message_spec()),
{
    reveal_strlit("unknown table");
    reveal_strlit("table already exists");
    reveal_strlit("column count mismatch");
    reveal_strlit("type mismatch");
    reveal_strlit("unknown column");
    reveal_strlit("unknown function");
    reveal_strlit("division by zero");
    reveal_strlit("subquery returned more than one row");
    reveal_strlit("misuse of aggregate");
}

/// The report of a failure is one line: the words `Error: ` and the reason,
/// without a line feed among them, then the line feed that ends the line and
/// the one that ends the response.
pub proof fn law_failure_is_one_line(f: Failure, sql: Seq<char>)
    ensures
        failed(f, sql) == ("Error: "@ + reason(f, sql)) + seq!['\n', '\n'],
        one_line("Error: "@ + reason(f, sql)),
{
    reveal_strlit("Error: ");
    reveal_strlit("not implemented - ");
    lemma_first_word_one_line(sql);
    match f {
        Failure::Parse(e) => {
            lemma_parse_message_one_line(e.kind);
        },
        Failure::Engine(e) => {
            lemma_engine_message_one_line(e);
        },
    }
    let head = "Error: "@;
    let r = reason(f, sql);
    assert(one_line(r)) by {
        if f is Parse && f->Parse_0.kind == ParseErrorKind::UnknownKeyword {
            let a = "not implemented - "@;
            let w = first_word_spec(sql);
            assert forall|i: int| 0 <= i < (a + w).len() implies #[trigger] (a + w)[i] != '\n' by {
                if i >= a.len() {
                    assert((a + w)[i] == w[i - a.len()]);
                }
            }
        }
    }
    assert forall|i: int| 0 <= i < (head + r).len() implies #[trigger] (head + r)[i] != '\n' by {
        if i >= head.len() {
            assert((head + r)[i] == r[i - head.len()]);
        }
    }
    assert(failed(f, sql) =~= (head + r) + seq!['\n', '\n']);
}

/// A statement that fails changes no table, and the response to it is the
/// report of the failure. This holds of a statement that is no SQL, such as
/// `SELECT FROM`, which fails before anything is carried out, and of a
/// statement that fails while it is carried out.
pub proof fn law_failure_changes_nothing(db: Seq<SpecTable>, sql: Seq<char>)
    requires
        statement_text(sql).len() > 0,
        run_spec(db, statement_text(sql)).1 is Err,
    ensures
        respond_spec(db, sql) == (db, failed(run_spec(db, statement_text(sql)).1->Err_0, sql)),
        parse_spec(statement_text(sql)) is Err ==> run_spec(db, statement_text(sql)).1
            == Err::<SpecExecResult, Failure>(
            Failure::Parse(parse_spec(statement_text(sql))->Err_0),
        ),
{
}

proof fn lemma_rows_replaced(db: Seq<SpecTable>, i: int, rows: Seq<Seq<SpecValue>>)
    requires
        valid(db),
        0 <= i < db.len(),
        forall|k: int| 0 <= k < rows.len() ==> row_error(db[i].columns, #[trigger] rows[k]) is None,
    ensures
        valid(db.update(i, with_rows(db[i], rows))),
{
    let next = db.update(i, with_rows(db[i], rows));
    assert(valid_table(db[i]));
    assert forall|j: int| 0 <= j < next.len() implies valid_table(#[trigger] next[j]) by {
        if j != i {
            assert(next[j] == db[j]);
        }
    }
    assert forall|a: int, b: int| 0 <= a < b < next.len() implies !same_name(
        (#[trigger] next[a]).name,
        (#[trigger] next[b]).name,
    ) by {
        assert(next[a].name == db[a].name && next[b].name == db[b].name);
    }
}

/// Whatever a statement changes, it leaves the tables well formed: no two
/// tables share a name, no two columns of a table share one, and every row
/// fits the schema of its table.
pub proof fn law_statements_keep_tables_valid(db: Seq<SpecTable>, s: SpecStatement)
    requires
        valid(db),
        execute_spec(db, s) is Ok,
    ensures
        valid(execute_spec(db, s)->Ok_0.0),
{
    let next = execute_spec(db, s)->Ok_0.0;
    match s {
        SpecStatement::CreateTable { name, columns } => {
            law_create_is_valid(db, name, columns);
        },
        SpecStatement::DropTable { name } => {
            lemma_find(db, name, 0);
            let i = find_table(db, name)->Some_0;
            assert forall|j: int| 0 <= j < next.len() implies valid_table(#[trigger] next[j]) by {
                if j < i {
                    assert(next[j] == db[j]);
                } else {
                    assert(next[j] == db[j + 1]);
                }
            }
            assert forall|a: int, b: int| 0 <= a < b < next.len() implies !same_name(
                (#[trigger] next[a]).name,
                (#[trigger] next[b]).name,
            ) by {
                let x = if a < i {
                    a
                } else {
                    a + 1
                };
                let y = if b < i {
                    b
                } else {
                    b + 1
                };
                assert(next[a] == db[x] && next[b] == db[y]);
            }
        },
        SpecStatement::Insert { table, names, rows } => {
            let values = literal_rows(db, rows, 0)->Ok_0;
            let placed = arranged(db, table, names, values)->Ok_0;
            law_insert_appends(db, table, placed);
        },
        SpecStatement::Select(q) => {},
        SpecStatement::Update { table, assignments, filter } => {
            let rel = table_relation(db, plain(table))->Ok_0;
            let changes = changes_from(db, assignments, filter, rel.columns, rel.rows, 0)->Ok_0;
            lemma_find(db, table, 0);
            let i = find_table(db, table)->Some_0;
            lemma_rows_fit(db[i].columns, changed_rows(db[i].rows, changes), 0);
            lemma_rows_replaced(db, i, changed_rows(db[i].rows, changes));
        },
        SpecStatement::Delete { table, filter } => {
            let rel = table_relation(db, plain(table))->Ok_0;
            let marks = marks_from(db, filter, rel.columns, rel.rows, 0)->Ok_0;
            lemma_find(db, table, 0);
            let i = find_table(db, table)->Some_0;
            let rows = kept_rows(db[i].rows, marks, 0);
            lemma_kept_rows(db[i].rows, marks, 0);
            assert(valid_table(db[i]));
            assert forall|k: int| 0 <= k < rows.len() implies row_error(
                db[i].columns,
                #[trigger] rows[k],
            ) is None by {
                let j = choose|j: int| 0 <= j < db[i].rows.len() && db[i].rows[j] == rows[k];
                assert(row_error(db[i].columns, db[i].rows[j]) is None);
            }
            lemma_rows_replaced(db, i, rows);
        },
    }
}

/// The truth tables of three-valued logic: false wins a conjunction and
/// true a disjunction, whatever the other side is; unknown decides where
/// neither does; and negation leaves unknown as it is.
pub proof fn law_three_valued_logic(t: Truth)
    ensures
        Truth::False.and_spec(t) == Truth::False,
        t.and_spec(Truth::False) == Truth::False,
        Truth::True.or_spec(t) == Truth::True,
        t.or_spec(Truth::True) == Truth::True,
        Truth::True.and_spec(t) == t,
        t.and_spec(Truth::True) == t,
        Truth::False.or_spec(t) == t,
        t.or_spec(Truth::False) == t,
        Truth::Unknown.and_spec(Truth::Unknown) == Truth::Unknown,
        Truth::Unknown.or_spec(Truth::Unknown) == Truth::Unknown,
        Truth::Unknown.not_spec() == Truth::Unknown,
        t.not_spec().not_spec() == t,
{
}

} // verus!
