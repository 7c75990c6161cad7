//! What a query and an expression mean: the value of an expression for a
//! row, and the rows of a query over the tables.

use vstd::prelude::*;
use crate::ast::{
    BinaryOperator, SpecExpr, SpecJoin, SpecOrderKey, SpecSelect, SpecSelectItem, SpecTableRef,
    SpecWhenBranch, SubqueryKind, UnaryOperator,
};
use crate::error::EngineError;
use crate::functions::{apply_spec, function_named, member, Function};
use crate::group::{aggregate, grouped, Aggregate, SpecGroup};
use crate::relation::{chosen, cross, joined, limited, nulls, truths_of};
use crate::sort::{rows_of, sorted, SpecKeyed};
use crate::storage::{find_table, SpecTable};
use crate::text::same_name;
use crate::value::{
    arith_spec, compare_spec, fit_integer, truth_spec, ArithOp, Order, SpecValue, Truth,
};

verus! {

/// A column as an expression can name it: by its name, alone or after the
/// name or alias of its table.
pub struct SpecBinding {
    pub table: Seq<char>,
    pub name: Seq<char>,
}

/// What an expression is evaluated in: the columns that it can name with
/// the values of the current row. The first `width` columns are those of the
/// query at hand; after them stand those of the enclosing queries, whose
/// rows are fixed while the query runs. In an aggregate query `group` holds
/// the rows of the current group and `keys` the columns by which rows are
/// grouped.
pub struct Scope {
    pub columns: Seq<SpecBinding>,
    pub row: Seq<SpecValue>,
    pub width: nat,
    pub group: Option<Seq<Seq<SpecValue>>>,
    pub keys: Seq<int>,
}

/// Rows with the columns that name their values.
pub struct Relation {
    pub columns: Seq<SpecBinding>,
    pub rows: Seq<Seq<SpecValue>>,
}

/// The result of a query: the names of its columns and its rows.
pub struct SpecResultSet {
    pub columns: Seq<Seq<char>>,
    pub rows: Seq<Seq<SpecValue>>,
}

/// What the select list is evaluated for: a row, or in an aggregate query a
/// group with the row that stands for it.
pub struct SpecUnit {
    pub row: Seq<SpecValue>,
    pub group: Option<Seq<Seq<SpecValue>>>,
}

/// Whether a column answers to a name, which may be qualified by a table.
pub open spec fn answers(b: SpecBinding, table: Option<Seq<char>>, name: Seq<char>) -> bool {
    same_name(b.name, name) && match table {
        Some(t) => same_name(b.table, t),
        None => true,
    }
}

/// The index of the first column from `from` on that answers to a name: a
/// column of the query at hand before one of an enclosing query.
pub open spec fn resolve_from(
    columns: Seq<SpecBinding>,
    table: Option<Seq<char>>,
    name: Seq<char>,
    from: int,
) -> Option<int>
    decreases columns.len() - from,
{
    if from < 0 || from >= columns.len() {
        None
    } else if answers(columns[from], table, name) {
        Some(from)
    } else {
        resolve_from(columns, table, name, from + 1)
    }
}

/// The index of the column that a name refers to.
pub open spec fn resolve(columns: Seq<SpecBinding>, table: Option<Seq<char>>, name: Seq<char>) -> Option<
    int,
> {
    resolve_from(columns, table, name, 0)
}

/// The value of the column at `i`: an error in an aggregate query where the
/// column belongs to the query at hand and rows are not grouped by it.
pub open spec fn column_value(sc: Scope, i: int) -> Result<SpecValue, EngineError> {
    if sc.group is Some && i < sc.width && !sc.keys.contains(i) {
        Err(EngineError::AggregateMisuse)
    } else if 0 <= i < sc.row.len() {
        Ok(sc.row[i])
    } else {
        Ok(SpecValue::Null)
    }
}

/// The arithmetic operation that a binary operator is, if it is one.
pub open spec fn arithmetic_of(op: BinaryOperator) -> Option<ArithOp> {
    match op {
        BinaryOperator::Add => Some(ArithOp::Add),
        BinaryOperator::Sub => Some(ArithOp::Sub),
        BinaryOperator::Mul => Some(ArithOp::Mul),
        BinaryOperator::Div => Some(ArithOp::Div),
        _ => None,
    }
}

/// Whether a comparison holds of two values that stand in the given order.
pub open spec fn satisfied(op: BinaryOperator, o: Order) -> bool {
    match op {
        BinaryOperator::Eq => o == Order::Equal,
        BinaryOperator::Ne => o != Order::Equal,
        BinaryOperator::Lt => o == Order::Less,
        BinaryOperator::Le => o != Order::Greater,
        BinaryOperator::Gt => o == Order::Greater,
        _ => o != Order::Less,
    }
}

/// The outcome of a comparison: unknown where either value is NULL.
pub open spec fn compared(op: BinaryOperator, a: SpecValue, b: SpecValue) -> Result<
    SpecValue,
    EngineError,
> {
    match compare_spec(a, b) {
        Err(e) => Err(e),
        Ok(None) => Ok(SpecValue::Null),
        Ok(Some(o)) => Ok(Truth::of(satisfied(op, o)).value_spec()),
    }
}

/// `a op b` for an operator that is not `AND` or `OR`.
pub open spec fn binary_value(op: BinaryOperator, a: SpecValue, b: SpecValue) -> Result<
    SpecValue,
    EngineError,
> {
    match arithmetic_of(op) {
        Some(f) => arith_spec(f, a, b),
        None => compared(op, a, b),
    }
}

/// The value of `-v` or `NOT v`.
pub open spec fn unary_value(operator: UnaryOperator, v: SpecValue) -> Result<
    SpecValue,
    EngineError,
> {
    match operator {
        UnaryOperator::Neg => arith_spec(ArithOp::Sub, SpecValue::Integer(0), v),
        UnaryOperator::Not => match truth_spec(v) {
            Ok(t) => Ok(t.not_spec().value_spec()),
            Err(e) => Err(e),
        },
    }
}

/// A truth value, turned round where the test is negated.
pub open spec fn negated_value(t: Truth, negated: bool) -> SpecValue {
    if negated {
        t.not_spec().value_spec()
    } else {
        t.value_spec()
    }
}

/// The outcome of `v [NOT] IN values`.
pub open spec fn membership_value(v: SpecValue, values: Seq<SpecValue>, negated: bool) -> Result<
    SpecValue,
    EngineError,
> {
    match member(v, values) {
        Ok(t) => Ok(negated_value(t, negated)),
        Err(e) => Err(e),
    }
}

/// The value of a scalar subquery: NULL where it has no row, the value of its
/// only row where that has one column.
pub open spec fn scalar_of(rs: SpecResultSet) -> Result<SpecValue, EngineError> {
    if rs.rows.len() == 0 {
        Ok(SpecValue::Null)
    } else if rs.rows.len() > 1 || rs.rows[0].len() != 1 {
        Err(EngineError::SubqueryCardinality)
    } else {
        Ok(rs.rows[0][0])
    }
}

/// The first value of a row, NULL where it has none.
pub open spec fn first_of(row: Seq<SpecValue>) -> SpecValue {
    if row.len() > 0 {
        row[0]
    } else {
        SpecValue::Null
    }
}

/// The values of the only column of a subquery.
pub open spec fn column_of(rs: SpecResultSet) -> Result<Seq<SpecValue>, EngineError> {
    if rs.columns.len() != 1 {
        Err(EngineError::SubqueryCardinality)
    } else {
        Ok(Seq::new(rs.rows.len(), |i: int| first_of(rs.rows[i])))
    }
}

/// The scope of a row of the query at hand.
pub open spec fn row_scope(
    columns: Seq<SpecBinding>,
    width: nat,
    row: Seq<SpecValue>,
    outer: Seq<SpecValue>,
) -> Scope {
    Scope { columns, row: row + outer, width, group: None, keys: Seq::empty() }
}

/// The values that the enclosing queries gave to a scope.
pub open spec fn outer_of(sc: Scope) -> Seq<SpecValue> {
    if sc.width <= sc.row.len() {
        sc.row.skip(sc.width as int)
    } else {
        Seq::empty()
    }
}

/// The value of an expression.
pub open spec fn eval(db: Seq<SpecTable>, e: SpecExpr, sc: Scope) -> Result<SpecValue, EngineError>
    decreases e, 1nat, 0nat,
{
    match e {
        SpecExpr::Literal(v) => Ok(v),
        SpecExpr::ColumnRef { table, name } => match resolve(sc.columns, table, name) {
            Some(i) => column_value(sc, i),
            None => Err(EngineError::UnknownColumn),
        },
        SpecExpr::UnaryOp { operator, operand } => match eval(db, *operand, sc) {
            Ok(v) => unary_value(operator, v),
            Err(e) => Err(e),
        },
        SpecExpr::BinaryOp { op, left, right } => match eval(db, *left, sc) {
            Err(e) => Err(e),
            Ok(a) => if op == BinaryOperator::And || op == BinaryOperator::Or {
                match truth_spec(a) {
                    Err(e) => Err(e),
                    Ok(s) => if s == Truth::of(op == BinaryOperator::Or) {
                        Ok(s.value_spec())
                    } else {
                        match eval(db, *right, sc) {
                            Err(e) => Err(e),
                            Ok(b) => match truth_spec(b) {
                                Err(e) => Err(e),
                                Ok(t) => if op == BinaryOperator::And {
                                    Ok(s.and_spec(t).value_spec())
                                } else {
                                    Ok(s.or_spec(t).value_spec())
                                },
                            },
                        }
                    },
                }
            } else {
                match eval(db, *right, sc) {
                    Err(e) => Err(e),
                    Ok(b) => binary_value(op, a, b),
                }
            },
        },
        SpecExpr::IsNull { operand, negated } => match eval(db, *operand, sc) {
            Ok(v) => Ok(Truth::of((v is Null) != negated).value_spec()),
            Err(e) => Err(e),
        },
        SpecExpr::InList { operand, list, negated } => match eval(db, *operand, sc) {
            Err(e) => Err(e),
            Ok(v) => match eval_list(db, list, sc, 0) {
                Err(e) => Err(e),
                Ok(values) => membership_value(v, values, negated),
            },
        },
        SpecExpr::CaseWhen { branches, otherwise } => match eval_case(db, branches, sc, 0) {
            Err(e) => Err(e),
            Ok(Some(v)) => Ok(v),
            Ok(None) => match otherwise {
                Some(o) => eval(db, *o, sc),
                None => Ok(SpecValue::Null),
            },
        },
        SpecExpr::FunctionCall { name, args, star } => match function_named(name) {
            None => Err(EngineError::UnknownFunction),
            Some(Function::Aggregate(kind)) => match sc.group {
                None => Err(EngineError::AggregateMisuse),
                Some(rows) => if star {
                    if kind == Aggregate::Count && args.len() == 0 {
                        fit_integer(rows.len() as int)
                    } else {
                        Err(EngineError::AggregateMisuse)
                    }
                } else if args.len() != 1 {
                    Err(EngineError::AggregateMisuse)
                } else {
                    match values_over(db, args[0], sc.columns, sc.width, outer_of(sc), rows, 0) {
                        Err(e) => Err(e),
                        Ok(values) => aggregate(kind, values),
                    }
                },
            },
            Some(f) => if star {
                Err(EngineError::UnknownFunction)
            } else {
                match eval_list(db, args, sc, 0) {
                    Err(e) => Err(e),
                    Ok(values) => apply_spec(f, values),
                }
            },
        },
        SpecExpr::Subquery { kind, subject, query, negated } => match kind {
            SubqueryKind::Exists => match run_select(db, *query, sc) {
                Err(e) => Err(e),
                Ok(rs) => Ok(negated_value(Truth::of(rs.rows.len() > 0), negated)),
            },
            SubqueryKind::Scalar => match run_select(db, *query, sc) {
                Err(e) => Err(e),
                Ok(rs) => scalar_of(rs),
            },
            SubqueryKind::In => match subject {
                None => Err(EngineError::SubqueryCardinality),
                Some(s) => match eval(db, *s, sc) {
                    Err(e) => Err(e),
                    Ok(v) => match run_select(db, *query, sc) {
                        Err(e) => Err(e),
                        Ok(rs) => match column_of(rs) {
                            Err(e) => Err(e),
                            Ok(values) => membership_value(v, values, negated),
                        },
                    },
                },
            },
        },
    }
}

/// The values of the expressions of a list from `k` on, in their order; the
/// first error ends the evaluation.
pub open spec fn eval_list(db: Seq<SpecTable>, list: Seq<SpecExpr>, sc: Scope, k: int) -> Result<
    Seq<SpecValue>,
    EngineError,
>
    decreases list, 0nat, list.len() - k,
{
    if k < 0 || k >= list.len() {
        Ok(Seq::empty())
    } else {
        match eval(db, list[k], sc) {
            Err(e) => Err(e),
            Ok(v) => match eval_list(db, list, sc, k + 1) {
                Err(e) => Err(e),
                Ok(rest) => Ok(seq![v] + rest),
            },
        }
    }
}

/// The result of the first branch from `k` on whose condition is true, if
/// one is. The branches after it are not evaluated.
pub open spec fn eval_case(
    db: Seq<SpecTable>,
    branches: Seq<SpecWhenBranch>,
    sc: Scope,
    k: int,
) -> Result<Option<SpecValue>, EngineError>
    decreases branches, 0nat, branches.len() - k,
{
    if k < 0 || k >= branches.len() {
        Ok(None)
    } else {
        match eval(db, branches[k].condition, sc) {
            Err(e) => Err(e),
            Ok(c) => match truth_spec(c) {
                Err(e) => Err(e),
                Ok(Truth::True) => match eval(db, branches[k].result, sc) {
                    Err(e) => Err(e),
                    Ok(v) => Ok(Some(v)),
                },
                Ok(_) => eval_case(db, branches, sc, k + 1),
            },
        }
    }
}

/// The value of an expression for each row from `i` on.
pub open spec fn values_over(
    db: Seq<SpecTable>,
    e: SpecExpr,
    columns: Seq<SpecBinding>,
    width: nat,
    outer: Seq<SpecValue>,
    rows: Seq<Seq<SpecValue>>,
    i: int,
) -> Result<Seq<SpecValue>, EngineError>
    decreases e, 2nat, rows.len() - i,
{
    if i < 0 || i >= rows.len() {
        Ok(Seq::empty())
    } else {
        match eval(db, e, row_scope(columns, width, rows[i], outer)) {
            Err(e) => Err(e),
            Ok(v) => match values_over(db, e, columns, width, outer, rows, i + 1) {
                Err(e) => Err(e),
                Ok(rest) => Ok(seq![v] + rest),
            },
        }
    }
}

/// The values of a list of expressions for each row from `i` on.
pub open spec fn rows_over(
    db: Seq<SpecTable>,
    list: Seq<SpecExpr>,
    columns: Seq<SpecBinding>,
    width: nat,
    outer: Seq<SpecValue>,
    rows: Seq<Seq<SpecValue>>,
    i: int,
) -> Result<Seq<Seq<SpecValue>>, EngineError>
    decreases list, 1nat, rows.len() - i,
{
    if i < 0 || i >= rows.len() {
        Ok(Seq::empty())
    } else {
        match eval_list(db, list, row_scope(columns, width, rows[i], outer), 0) {
            Err(e) => Err(e),
            Ok(v) => match rows_over(db, list, columns, width, outer, rows, i + 1) {
                Err(e) => Err(e),
                Ok(rest) => Ok(seq![v] + rest),
            },
        }
    }
}

/// The values of a select list from item `k` on: for `*` the values of the
/// columns of the query, which an aggregate query does not have.
pub open spec fn project(db: Seq<SpecTable>, items: Seq<SpecSelectItem>, sc: Scope, k: int) -> Result<
    Seq<SpecValue>,
    EngineError,
>
    decreases items, 0nat, items.len() - k,
{
    if k < 0 || k >= items.len() {
        Ok(Seq::empty())
    } else {
        match (match items[k] {
            SpecSelectItem::Star => if sc.group is Some {
                Err(EngineError::AggregateMisuse)
            } else {
                Ok(
                    if sc.width <= sc.row.len() {
                        sc.row.take(sc.width as int)
                    } else {
                        sc.row
                    },
                )
            },
            SpecSelectItem::Expr { expr, alias } => match eval(db, expr, sc) {
                Ok(v) => Ok(seq![v]),
                Err(e) => Err(e),
            },
        }) {
            Err(e) => Err(e),
            Ok(first) => match project(db, items, sc, k + 1) {
                Err(e) => Err(e),
                Ok(rest) => Ok(first + rest),
            },
        }
    }
}

/// The position in the result, counted from 1, of the first entry of the
/// select list from the `k`-th on whose alias is `name`, where the `k`-th
/// entry stands at position `at`: `*` takes as many positions as the query
/// has columns.
pub open spec fn alias_from(
    items: Seq<SpecSelectItem>,
    width: nat,
    name: Seq<char>,
    k: int,
    at: int,
) -> Option<int>
    decreases items.len() - k,
{
    if k < 0 || k >= items.len() {
        None
    } else {
        match items[k] {
            SpecSelectItem::Star => alias_from(items, width, name, k + 1, at + width),
            SpecSelectItem::Expr { expr, alias } => if alias is Some && same_name(
                alias->Some_0,
                name,
            ) {
                Some(at)
            } else {
                alias_from(items, width, name, k + 1, at + 1)
            },
        }
    }
}

/// The column of the result that a sort key names, if it names one: by its
/// position where the key is an integer literal, by its alias where the key
/// is a bare name that is an alias of the select list.
pub open spec fn position_of(e: SpecExpr, items: Seq<SpecSelectItem>, width: nat) -> Option<int> {
    match e {
        SpecExpr::Literal(SpecValue::Integer(p)) => Some(p as int),
        SpecExpr::ColumnRef { table: None, name } => alias_from(items, width, name, 0, 1),
        _ => None,
    }
}

/// The value in a result row at a position counted from 1.
pub open spec fn positioned(row: Seq<SpecValue>, p: int) -> Result<SpecValue, EngineError> {
    if 1 <= p <= row.len() {
        Ok(row[p - 1])
    } else {
        Err(EngineError::UnknownColumn)
    }
}

/// The values of the sort keys from key `k` on: for a key that names a column
/// of the result, the value of that column in the result row `row`; for any
/// other key the value of its expression.
pub open spec fn order_values(
    db: Seq<SpecTable>,
    keys: Seq<SpecOrderKey>,
    items: Seq<SpecSelectItem>,
    sc: Scope,
    row: Seq<SpecValue>,
    k: int,
) -> Result<Seq<SpecValue>, EngineError>
    decreases keys, 0nat, keys.len() - k,
{
    if k < 0 || k >= keys.len() {
        Ok(Seq::empty())
    } else {
        match (match position_of(keys[k].expr, items, sc.width) {
            Some(p) => positioned(row, p),
            None => eval(db, keys[k].expr, sc),
        }) {
            Err(e) => Err(e),
            Ok(v) => match order_values(db, keys, items, sc, row, k + 1) {
                Err(e) => Err(e),
                Ok(rest) => Ok(seq![v] + rest),
            },
        }
    }
}

/// The columns of a table as a query names them: under the alias of the
/// table where it has one, under its name otherwise.
pub open spec fn bindings(t: SpecTable, r: SpecTableRef) -> Seq<SpecBinding> {
    Seq::new(
        t.columns.len(),
        |i: int|
            SpecBinding {
                table: match r.alias {
                    Some(a) => a,
                    None => r.name,
                },
                name: t.columns[i].name,
            },
    )
}

/// The rows of a table with their columns.
pub open spec fn table_relation(db: Seq<SpecTable>, r: SpecTableRef) -> Result<
    Relation,
    EngineError,
> {
    match find_table(db, r.name) {
        None => Err(EngineError::UnknownTable),
        Some(i) => Ok(Relation { columns: bindings(db[i], r), rows: db[i].rows }),
    }
}

/// What a query without joins ranges over: the rows of its table, or one row
/// without columns where it has no `FROM`.
pub open spec fn base_relation(db: Seq<SpecTable>, from: Option<SpecTableRef>) -> Result<
    Relation,
    EngineError,
> {
    match from {
        None => Ok(Relation { columns: Seq::empty(), rows: seq![Seq::empty()] }),
        Some(r) => table_relation(db, r),
    }
}

/// The relation after the joins from `j` on have been applied to `acc`, one
/// after the other from the left: the product with the joined table, of
/// which an inner or left join keeps the rows whose condition is true, and a
/// left join adds each left row without a match, with NULLs at its right.
pub open spec fn joined_with(
    db: Seq<SpecTable>,
    joins: Seq<SpecJoin>,
    acc: Relation,
    outer: Scope,
    j: int,
) -> Result<Relation, EngineError>
    decreases joins, 3nat, joins.len() - j,
{
    if j < 0 || j >= joins.len() {
        Ok(acc)
    } else {
        match table_relation(db, joins[j].table) {
            Err(e) => Err(e),
            Ok(right) => {
                let columns = acc.columns + right.columns;
                match joins[j].on {
                    None => joined_with(
                        db,
                        joins,
                        Relation { columns, rows: cross(acc.rows, right.rows) },
                        outer,
                        j + 1,
                    ),
                    Some(on) => match values_over(
                        db,
                        on,
                        columns + outer.columns,
                        columns.len(),
                        outer.row,
                        cross(acc.rows, right.rows),
                        0,
                    ) {
                        Err(e) => Err(e),
                        Ok(values) => match truths_of(values) {
                            Err(e) => Err(e),
                            Ok(truths) => joined_with(
                                db,
                                joins,
                                Relation {
                                    columns,
                                    rows: joined(
                                        joins[j].kind,
                                        acc.rows,
                                        right.rows,
                                        right.columns.len(),
                                        truths,
                                    ),
                                },
                                outer,
                                j + 1,
                            ),
                        },
                    },
                }
            },
        }
    }
}

/// Whether an expression calls an aggregate function outside any nested
/// query.
pub open spec fn has_aggregate(e: SpecExpr) -> bool
    decreases e, 1nat, 0nat,
{
    match e {
        SpecExpr::Literal(_) => false,
        SpecExpr::ColumnRef { .. } => false,
        SpecExpr::UnaryOp { operand, .. } => has_aggregate(*operand),
        SpecExpr::BinaryOp { left, right, .. } => has_aggregate(*left) || has_aggregate(*right),
        SpecExpr::IsNull { operand, .. } => has_aggregate(*operand),
        SpecExpr::InList { operand, list, .. } => has_aggregate(*operand) || any_aggregate(
            list,
            0,
        ),
        SpecExpr::CaseWhen { branches, otherwise } => any_branch_aggregate(branches, 0)
            || match otherwise {
            Some(o) => has_aggregate(*o),
            None => false,
        },
        SpecExpr::FunctionCall { name, args, .. } => function_named(name) is Some
            && function_named(name)->Some_0 is Aggregate || any_aggregate(args, 0),
        SpecExpr::Subquery { subject, .. } => match subject {
            Some(s) => has_aggregate(*s),
            None => false,
        },
    }
}

/// Whether an expression of a list from `k` on calls an aggregate function.
pub open spec fn any_aggregate(list: Seq<SpecExpr>, k: int) -> bool
    decreases list, 0nat, list.len() - k,
{
    if k < 0 || k >= list.len() {
        false
    } else {
        has_aggregate(list[k]) || any_aggregate(list, k + 1)
    }
}

/// Whether a branch from `k` on calls an aggregate function.
pub open spec fn any_branch_aggregate(branches: Seq<SpecWhenBranch>, k: int) -> bool
    decreases branches, 0nat, branches.len() - k,
{
    if k < 0 || k >= branches.len() {
        false
    } else {
        has_aggregate(branches[k].condition) || has_aggregate(branches[k].result)
            || any_branch_aggregate(branches, k + 1)
    }
}

/// Whether an item of a select list from `k` on calls an aggregate function.
pub open spec fn item_aggregate(items: Seq<SpecSelectItem>, k: int) -> bool
    decreases items.len() - k,
{
    if k < 0 || k >= items.len() {
        false
    } else {
        (match items[k] {
            SpecSelectItem::Star => false,
            SpecSelectItem::Expr { expr, alias } => has_aggregate(expr),
        }) || item_aggregate(items, k + 1)
    }
}

/// Whether a sort key from `k` on calls an aggregate function.
pub open spec fn key_aggregate(keys: Seq<SpecOrderKey>, k: int) -> bool
    decreases keys.len() - k,
{
    if k < 0 || k >= keys.len() {
        false
    } else {
        has_aggregate(keys[k].expr) || key_aggregate(keys, k + 1)
    }
}

/// Whether a query is an aggregate query: it groups its rows, filters
/// groups, or calls an aggregate function in its select list or its sort
/// keys. Such a query gives one row for each group, and one row in all where
/// it has no `GROUP BY`.
pub open spec fn is_aggregate(q: SpecSelect) -> bool {
    q.group_by.len() > 0 || q.having is Some || item_aggregate(q.items, 0) || key_aggregate(
        q.order_by,
        0,
    )
}

/// The columns by which rows are grouped: those that the expressions of the
/// `GROUP BY` from `k` on name.
pub open spec fn key_columns(group_by: Seq<SpecExpr>, columns: Seq<SpecBinding>, k: int) -> Seq<int>
    decreases group_by.len() - k,
{
    if k < 0 || k >= group_by.len() {
        Seq::empty()
    } else {
        (match group_by[k] {
            SpecExpr::ColumnRef { table, name } => match resolve(columns, table, name) {
                Some(i) => seq![i],
                None => Seq::empty(),
            },
            _ => Seq::empty(),
        }) + key_columns(group_by, columns, k + 1)
    }
}

/// Each row as a unit of its own.
pub open spec fn row_units(rows: Seq<Seq<SpecValue>>) -> Seq<SpecUnit> {
    Seq::new(rows.len(), |i: int| SpecUnit { row: rows[i], group: None })
}

/// The first row of a group, which stands for it; a row of NULLs for a group
/// without rows.
pub open spec fn first_row(rows: Seq<Seq<SpecValue>>, width: nat) -> Seq<SpecValue> {
    if rows.len() > 0 {
        rows[0]
    } else {
        nulls(width)
    }
}

/// The units of an aggregate query: one for each group, or where rows are
/// not grouped by key, one that holds every row.
pub open spec fn group_units(
    by_key: bool,
    rows: Seq<Seq<SpecValue>>,
    groups: Seq<SpecGroup>,
    width: nat,
) -> Seq<SpecUnit> {
    if by_key {
        Seq::new(
            groups.len(),
            |i: int|
                SpecUnit { row: first_row(groups[i].rows, width), group: Some(groups[i].rows) },
        )
    } else {
        seq![SpecUnit { row: first_row(rows, width), group: Some(rows) }]
    }
}

/// The scope of a unit.
pub open spec fn unit_scope(
    columns: Seq<SpecBinding>,
    width: nat,
    outer: Seq<SpecValue>,
    keys: Seq<int>,
    u: SpecUnit,
) -> Scope {
    Scope { columns, row: u.row + outer, width, group: u.group, keys }
}

/// The result rows of the units from `i` on, each with the values of its sort
/// keys: for each unit that `HAVING` keeps, the values of the select list.
pub open spec fn outputs_from(
    db: Seq<SpecTable>,
    q: SpecSelect,
    columns: Seq<SpecBinding>,
    width: nat,
    outer: Seq<SpecValue>,
    keys: Seq<int>,
    units: Seq<SpecUnit>,
    i: int,
) -> Result<Seq<SpecKeyed>, EngineError>
    decreases q, 8nat, units.len() - i,
{
    if i < 0 || i >= units.len() {
        Ok(Seq::empty())
    } else {
        let sc = unit_scope(columns, width, outer, keys, units[i]);
        match (match q.having {
            None => Ok(true),
            Some(h) => match eval(db, h, sc) {
                Err(e) => Err(e),
                Ok(v) => match truth_spec(v) {
                    Err(e) => Err(e),
                    Ok(t) => Ok(t == Truth::True),
                },
            },
        }) {
            Err(e) => Err(e),
            Ok(keep) => if !keep {
                outputs_from(db, q, columns, width, outer, keys, units, i + 1)
            } else {
                match project(db, q.items, sc, 0) {
                    Err(e) => Err(e),
                    Ok(row) => match order_values(db, q.order_by, q.items, sc, row, 0) {
                        Err(e) => Err(e),
                        Ok(sort_keys) => match outputs_from(
                            db,
                            q,
                            columns,
                            width,
                            outer,
                            keys,
                            units,
                            i + 1,
                        ) {
                            Err(e) => Err(e),
                            Ok(rest) => Ok(seq![SpecKeyed { keys: sort_keys, row }] + rest),
                        },
                    },
                }
            },
        }
    }
}

/// The names of the result columns for the items from `k` on: for `*` the
/// names of the columns of the query, for an expression its alias, or the
/// name of the column that it is, or nothing.
pub open spec fn names(items: Seq<SpecSelectItem>, columns: Seq<SpecBinding>, k: int) -> Seq<
    Seq<char>,
>
    decreases items.len() - k,
{
    if k < 0 || k >= items.len() {
        Seq::empty()
    } else {
        (match items[k] {
            SpecSelectItem::Star => Seq::new(columns.len(), |i: int| columns[i].name),
            SpecSelectItem::Expr { expr, alias } => match alias {
                Some(a) => seq![a],
                None => match expr {
                    SpecExpr::ColumnRef { table, name } => seq![name],
                    _ => seq![Seq::empty()],
                },
            },
        }) + names(items, columns, k + 1)
    }
}

/// Which sort keys descend.
pub open spec fn directions(keys: Seq<SpecOrderKey>) -> Seq<bool> {
    Seq::new(keys.len(), |i: int| keys[i].descending)
}

/// The rows that `WHERE` keeps.
pub open spec fn filtered(rows: Seq<Seq<SpecValue>>, values: Seq<SpecValue>) -> Result<
    Seq<Seq<SpecValue>>,
    EngineError,
> {
    match truths_of(values) {
        Err(e) => Err(e),
        Ok(t) => Ok(chosen(rows, t)),
    }
}

/// The result of a query inside the scope `outer`, which is empty for a
/// query that stands alone. The rows of the tables are joined from the left,
/// filtered by `WHERE`, grouped in an aggregate query, filtered by `HAVING`,
/// projected on the select list, sorted by the keys of `ORDER BY` with ties
/// left in their order, and cut at `LIMIT`.
pub open spec fn run_select(db: Seq<SpecTable>, q: SpecSelect, outer: Scope) -> Result<
    SpecResultSet,
    EngineError,
>
    decreases q, 9nat, 0nat,
{
    match base_relation(db, q.from) {
        Err(e) => Err(e),
        Ok(base) => match joined_with(db, q.joins, base, outer, 0) {
            Err(e) => Err(e),
            Ok(rel) => {
                let columns = rel.columns + outer.columns;
                let width = rel.columns.len();
                match (match q.filter {
                    None => Ok(rel.rows),
                    Some(w) => match values_over(db, w, columns, width, outer.row, rel.rows, 0) {
                        Err(e) => Err(e),
                        Ok(values) => filtered(rel.rows, values),
                    },
                }) {
                    Err(e) => Err(e),
                    Ok(rows) => match (if is_aggregate(q) {
                        match rows_over(db, q.group_by, columns, width, outer.row, rows, 0) {
                            Err(e) => Err(e),
                            Ok(keys) => Ok(
                                group_units(
                                    q.group_by.len() > 0,
                                    rows,
                                    grouped(rows, keys),
                                    width,
                                ),
                            ),
                        }
                    } else {
                        Ok(row_units(rows))
                    }) {
                        Err(e) => Err(e),
                        Ok(units) => match outputs_from(
                            db,
                            q,
                            columns,
                            width,
                            outer.row,
                            key_columns(q.group_by, columns, 0),
                            units,
                            0,
                        ) {
                            Err(e) => Err(e),
                            Ok(items) => Ok(
                                SpecResultSet {
                                    columns: names(q.items, rel.columns, 0),
                                    rows: limited(
                                        rows_of(sorted(items, directions(q.order_by))),
                                        q.limit,
                                    ),
                                },
                            ),
                        },
                    },
                }
            },
        },
    }
}

/// The scope of a query that stands alone.
pub open spec fn no_scope() -> Scope {
    Scope {
        columns: Seq::empty(),
        row: Seq::empty(),
        width: 0,
        group: None,
        keys: Seq::empty(),
    }
}

} // verus!
