//! The execution of a query: its rows are joined, filtered, grouped,
//! projected, sorted and cut.

use vstd::prelude::*;
use crate::ast::{
    lemma_expr_model, lemma_item_model, lemma_join_model, lemma_key_model, lemma_push_view,
    lemma_select_model, lemma_when_model, Expr, Join, OrderKey, Select, SelectItem, TableRef,
    WhenBranch,
};
use crate::error::EngineError;
use crate::evaluator::{evaluate, evaluate_list, values_for};
use crate::functions::{lookup, Function};
use crate::group::{partition, Group};
use crate::relation::{
    choose_rows, concat, join, limit, lemma_append_view, null_row, product, truths,
};
use crate::scalar::truth;
use crate::scope::{indices, resolve_column, Binding, Context, ResultSet, Rows, Unit};
use crate::semantics::{
    alias_from, any_aggregate, any_branch_aggregate, base_relation, bindings, directions,
    filtered, first_row, group_units, has_aggregate, is_aggregate, item_aggregate, joined_with,
    key_aggregate, key_columns, names, order_values, outputs_from, position_of, project,
    row_scope, row_units, rows_over, run_select, table_relation, unit_scope, SpecUnit,
};
use crate::sequence::{
    after, gives, lemma_after_end, lemma_after_part, lemma_after_start, lemma_after_step,
};
use crate::sort::{sort_rows, strip, Keyed, SpecKeyed};
use crate::storage::{clone_row, Storage};
use crate::value::{SpecValue, Truth, Value};

verus! {

/// Whether an expression calls an aggregate function outside any nested
/// query.
pub fn contains_aggregate(e: &Expr) -> (r: bool)
    ensures
        r == has_aggregate(e.deep_view()),
    decreases e, 1nat, 0nat,
{
    proof {
        lemma_expr_model(*e);
    }
    match e {
        Expr::Literal(_) => false,
        Expr::ColumnRef { .. } => false,
        Expr::UnaryOp { operand, .. } => contains_aggregate(operand),
        Expr::BinaryOp { left, right, .. } => contains_aggregate(left) || contains_aggregate(
            right,
        ),
        Expr::IsNull { operand, .. } => contains_aggregate(operand),
        Expr::InList { operand, list, .. } => contains_aggregate(operand) || list_aggregate(list),
        Expr::CaseWhen { branches, otherwise } => branch_aggregate(branches) || match otherwise {
            Some(o) => contains_aggregate(o),
            None => false,
        },
        Expr::FunctionCall { name, args, .. } => {
            let named = match lookup(name.as_str()) {
                Some(Function::Aggregate(_)) => true,
                _ => false,
            };
            named || list_aggregate(args)
        },
        Expr::Subquery { subject, .. } => match subject {
            Some(s) => contains_aggregate(s),
            None => false,
        },
    }
}

/// Whether an expression of a list calls an aggregate function.
fn list_aggregate(list: &Vec<Expr>) -> (r: bool)
    ensures
        r == any_aggregate(list.deep_view(), 0),
    decreases list, 0nat, 0nat,
{
    let mut k: usize = 0;
    while k < list.len()
        invariant
            k <= list.len(),
            any_aggregate(list.deep_view(), 0) == any_aggregate(list.deep_view(), k as int),
        decreases list.len() - k,
    {
        if contains_aggregate(&list[k]) {
            return true;
        }
        k += 1;
    }
    false
}

/// Whether a branch calls an aggregate function.
fn branch_aggregate(branches: &Vec<WhenBranch>) -> (r: bool)
    ensures
        r == any_branch_aggregate(branches.deep_view(), 0),
    decreases branches, 0nat, 0nat,
{
    let mut k: usize = 0;
    while k < branches.len()
        invariant
            k <= branches.len(),
            any_branch_aggregate(branches.deep_view(), 0) == any_branch_aggregate(
                branches.deep_view(),
                k as int,
            ),
        decreases branches.len() - k,
    {
        proof {
            lemma_when_model(branches[k as int]);
        }
        if contains_aggregate(&branches[k].condition) || contains_aggregate(&branches[k].result) {
            return true;
        }
        k += 1;
    }
    false
}

/// Whether a query is an aggregate query.
pub fn aggregating(q: &Select) -> (r: bool)
    ensures
        r == is_aggregate(q.deep_view()),
{
    proof {
        lemma_select_model(*q);
    }
    if q.group_by.len() > 0 || q.having.is_some() {
        return true;
    }
    let mut k: usize = 0;
    let ghost m = q.deep_view();
    while k < q.items.len()
        invariant
            k <= q.items.len(),
            m == q.deep_view(),
            m.items == q.items.deep_view(),
            m.group_by.len() == 0 && m.having is None,
            item_aggregate(q.items.deep_view(), 0) == item_aggregate(
                q.items.deep_view(),
                k as int,
            ),
        decreases q.items.len() - k,
    {
        proof {
            lemma_item_model(q.items[k as int]);
        }
        let found = match &q.items[k] {
            SelectItem::Star => false,
            SelectItem::Expr { expr, .. } => contains_aggregate(expr),
        };
        if found {
            return true;
        }
        k += 1;
    }
    let mut j: usize = 0;
    while j < q.order_by.len()
        invariant
            j <= q.order_by.len(),
            m == q.deep_view(),
            m.order_by == q.order_by.deep_view(),
            m.group_by.len() == 0 && m.having is None,
            !item_aggregate(m.items, 0),
            key_aggregate(q.order_by.deep_view(), 0) == key_aggregate(
                q.order_by.deep_view(),
                j as int,
            ),
        decreases q.order_by.len() - j,
    {
        proof {
            lemma_key_model(q.order_by[j as int]);
        }
        if contains_aggregate(&q.order_by[j].expr) {
            return true;
        }
        j += 1;
    }
    false
}

/// The columns by which rows are grouped.
pub fn grouping_columns(group_by: &Vec<Expr>, columns: &Vec<Binding>) -> (keys: Vec<usize>)
    ensures
        indices(keys@) == key_columns(group_by.deep_view(), columns.deep_view(), 0),
{
    let mut keys: Vec<usize> = Vec::new();
    let mut k: usize = 0;
    let ghost g = group_by.deep_view();
    let ghost c = columns.deep_view();
    assert(indices(keys@) + key_columns(g, c, 0) =~= key_columns(g, c, 0));
    while k < group_by.len()
        invariant
            k <= group_by.len(),
            g == group_by.deep_view(),
            c == columns.deep_view(),
            key_columns(g, c, 0) == indices(keys@) + key_columns(g, c, k as int),
        decreases group_by.len() - k,
    {
        proof {
            lemma_expr_model(group_by[k as int]);
        }
        let ghost before = keys@;
        match &group_by[k] {
            Expr::ColumnRef { table, name } => match resolve_column(columns, table, name) {
                Some(i) => {
                    keys.push(i);
                    assert(indices(before) + (seq![i as int] + key_columns(g, c, k + 1))
                        =~= indices(keys@) + key_columns(g, c, k + 1));
                },
                None => {
                    assert(indices(before) + (Seq::<int>::empty() + key_columns(g, c, k + 1))
                        =~= indices(keys@) + key_columns(g, c, k + 1));
                },
            },
            _ => {
                assert(indices(before) + (Seq::<int>::empty() + key_columns(g, c, k + 1))
                    =~= indices(keys@) + key_columns(g, c, k + 1));
            },
        }
        k += 1;
    }
    assert(indices(keys@) + Seq::<int>::empty() =~= indices(keys@));
    keys
}

/// Each row as a unit of its own.
pub fn units_of_rows(rows: &Vec<Vec<Value>>) -> (units: Vec<Unit>)
    ensures
        units.deep_view() == row_units(rows.deep_view()),
{
    let mut units: Vec<Unit> = Vec::new();
    let mut i: usize = 0;
    while i < rows.len()
        invariant
            i <= rows.len(),
            units.len() == i,
            forall|j: int|
                0 <= j < i ==> #[trigger] units.deep_view()[j] == (SpecUnit {
                    row: rows.deep_view()[j],
                    group: None,
                }),
        decreases rows.len() - i,
    {
        let ghost before = units;
        let unit = Unit { row: clone_row(&rows[i]), group: None };
        units.push(unit);
        proof {
            lemma_push_view(before, units, unit);
        }
        i += 1;
    }
    assert(units.deep_view() =~= row_units(rows.deep_view()));
    units
}

/// A copy of rows.
pub fn clone_rows(rows: &Vec<Vec<Value>>) -> (copy: Vec<Vec<Value>>)
    ensures
        copy.deep_view() == rows.deep_view(),
{
    let mut copy: Vec<Vec<Value>> = Vec::new();
    let mut i: usize = 0;
    while i < rows.len()
        invariant
            i <= rows.len(),
            copy.len() == i,
            forall|j: int| 0 <= j < i ==> #[trigger] copy.deep_view()[j] == rows.deep_view()[j],
        decreases rows.len() - i,
    {
        let ghost before = copy;
        let row = clone_row(&rows[i]);
        copy.push(row);
        proof {
            lemma_push_view(before, copy, row);
        }
        i += 1;
    }
    assert(copy.deep_view() =~= rows.deep_view());
    copy
}

/// The first row of a group, or a row of NULLs for a group without rows.
fn first_of_rows(rows: &Vec<Vec<Value>>, width: usize) -> (row: Vec<Value>)
    ensures
        row.deep_view() == first_row(rows.deep_view(), width as nat),
{
    if rows.len() > 0 {
        clone_row(&rows[0])
    } else {
        null_row(width)
    }
}

/// The units of an aggregate query.
pub fn units_of_groups(by_key: bool, rows: &Vec<Vec<Value>>, groups: &Vec<Group>, width: usize) -> (units:
    Vec<Unit>)
    ensures
        units.deep_view() == group_units(
            by_key,
            rows.deep_view(),
            groups.deep_view(),
            width as nat,
        ),
{
    let mut units: Vec<Unit> = Vec::new();
    if !by_key {
        let unit = Unit { row: first_of_rows(rows, width), group: Some(clone_rows(rows)) };
        units.push(unit);
        assert(units.deep_view() =~= group_units(
            by_key,
            rows.deep_view(),
            groups.deep_view(),
            width as nat,
        ));
        return units;
    }
    let mut i: usize = 0;
    while i < groups.len()
        invariant
            i <= groups.len(),
            units.len() == i,
            forall|j: int|
                0 <= j < i ==> #[trigger] units.deep_view()[j] == (SpecUnit {
                    row: first_row(groups.deep_view()[j].rows, width as nat),
                    group: Some(groups.deep_view()[j].rows),
                }),
        decreases groups.len() - i,
    {
        let ghost before = units;
        let unit = Unit {
            row: first_of_rows(&groups[i].rows, width),
            group: Some(clone_rows(&groups[i].rows)),
        };
        units.push(unit);
        proof {
            lemma_push_view(before, units, unit);
        }
        i += 1;
    }
    assert(units.deep_view() =~= group_units(
        by_key,
        rows.deep_view(),
        groups.deep_view(),
        width as nat,
    ));
    units
}

/// Which sort keys descend.
pub fn sort_directions(keys: &Vec<OrderKey>) -> (d: Vec<bool>)
    ensures
        d@ == directions(keys.deep_view()),
{
    let mut d: Vec<bool> = Vec::new();
    let mut i: usize = 0;
    while i < keys.len()
        invariant
            i <= keys.len(),
            d.len() == i,
            forall|j: int| 0 <= j < i ==> #[trigger] d@[j] == keys.deep_view()[j].descending,
        decreases keys.len() - i,
    {
        proof {
            lemma_key_model(keys[i as int]);
        }
        d.push(keys[i].descending);
        i += 1;
    }
    assert(d@ =~= directions(keys.deep_view()));
    d
}

/// The names of the result columns.
pub fn column_names(items: &Vec<SelectItem>, columns: &Vec<Binding>) -> (out: Vec<String>)
    ensures
        out.deep_view() == names(items.deep_view(), columns.deep_view(), 0),
{
    let mut out: Vec<String> = Vec::new();
    let mut k: usize = 0;
    let ghost m = items.deep_view();
    let ghost c = columns.deep_view();
    assert(out.deep_view() + names(m, c, 0) =~= names(m, c, 0));
    while k < items.len()
        invariant
            k <= items.len(),
            m == items.deep_view(),
            c == columns.deep_view(),
            names(m, c, 0) == out.deep_view() + names(m, c, k as int),
        decreases items.len() - k,
    {
        proof {
            lemma_item_model(items[k as int]);
        }
        let ghost before = out;
        let mut part: Vec<String> = Vec::new();
        match &items[k] {
            SelectItem::Star => {
                let mut i: usize = 0;
                while i < columns.len()
                    invariant
                        i <= columns.len(),
                        part.len() == i,
                        c == columns.deep_view(),
                        forall|j: int| 0 <= j < i ==> #[trigger] part.deep_view()[j] == c[j].name,
                    decreases columns.len() - i,
                {
                    let ghost held = part;
                    let name = columns[i].name.clone();
                    part.push(name);
                    proof {
                        lemma_push_view(held, part, name);
                    }
                    i += 1;
                }
                assert(part.deep_view() =~= Seq::new(c.len(), |i: int| c[i].name));
            },
            SelectItem::Expr { expr, alias } => {
                proof {
                    lemma_expr_model(*expr);
                }
                let name = match alias {
                    Some(a) => a.clone(),
                    None => match expr {
                        Expr::ColumnRef { name, .. } => name.clone(),
                        _ => String::new(),
                    },
                };
                part.push(name);
                assert(part.deep_view() =~= seq![name@]);
            },
        }
        let ghost added = part;
        out.append(&mut part);
        proof {
            lemma_append_view(before, added, out);
            assert(before.deep_view() + (added.deep_view() + names(m, c, k + 1))
                =~= out.deep_view() + names(m, c, k + 1));
        }
        k += 1;
    }
    assert(out.deep_view() + Seq::<Seq<char>>::empty() =~= out.deep_view());
    out
}

/// The rows of a table with their columns.
pub fn table_rows(db: &Storage, r: &TableRef) -> (out: Result<Rows, EngineError>)
    ensures
        gives(out, table_relation(db@, r.deep_view())),
{
    let t = match db.table(r.name.as_str()) {
        Err(e) => {
            return Err(e);
        },
        Ok(t) => t,
    };
    let mut columns: Vec<Binding> = Vec::new();
    let mut i: usize = 0;
    while i < t.columns.len()
        invariant
            i <= t.columns.len(),
            columns.len() == i,
            forall|j: int|
                0 <= j < i ==> #[trigger] columns.deep_view()[j] == bindings(
                    t.deep_view(),
                    r.deep_view(),
                )[j],
        decreases t.columns.len() - i,
    {
        let ghost before = columns;
        let table = match &r.alias {
            Some(a) => a.clone(),
            None => r.name.clone(),
        };
        let b = Binding { table, name: t.columns[i].name.clone() };
        columns.push(b);
        proof {
            lemma_push_view(before, columns, b);
        }
        i += 1;
    }
    assert(columns.deep_view() =~= bindings(t.deep_view(), r.deep_view()));
    Ok(Rows { columns, rows: clone_rows(&t.rows) })
}

/// What a query without joins ranges over.
pub fn base_rows(db: &Storage, from: &Option<TableRef>) -> (out: Result<Rows, EngineError>)
    ensures
        gives(out, base_relation(db@, from.deep_view())),
{
    match from {
        None => {
            let columns: Vec<Binding> = Vec::new();
            let mut rows: Vec<Vec<Value>> = Vec::new();
            let row: Vec<Value> = Vec::new();
            rows.push(row);
            let out = Rows { columns, rows };
            assert(out.deep_view().columns =~= Seq::empty());
            assert(out.deep_view().rows =~= seq![Seq::<SpecValue>::empty()]) by {
                assert(out.deep_view().rows[0] =~= Seq::<SpecValue>::empty());
            }
            Ok(out)
        },
        Some(r) => table_rows(db, r),
    }
}

/// A copy of columns.
pub fn clone_bindings(columns: &Vec<Binding>) -> (copy: Vec<Binding>)
    ensures
        copy.deep_view() == columns.deep_view(),
{
    let mut copy: Vec<Binding> = Vec::new();
    let mut i: usize = 0;
    while i < columns.len()
        invariant
            i <= columns.len(),
            copy.len() == i,
            forall|j: int|
                0 <= j < i ==> #[trigger] copy.deep_view()[j] == columns.deep_view()[j],
        decreases columns.len() - i,
    {
        let ghost before = copy;
        let b = Binding { table: columns[i].table.clone(), name: columns[i].name.clone() };
        copy.push(b);
        proof {
            lemma_push_view(before, copy, b);
        }
        i += 1;
    }
    assert(copy.deep_view() =~= columns.deep_view());
    copy
}

/// The columns of `a` followed by those of `b`.
pub fn join_bindings(a: &Vec<Binding>, b: &Vec<Binding>) -> (all: Vec<Binding>)
    ensures
        all.deep_view() == a.deep_view() + b.deep_view(),
{
    let mut all = clone_bindings(a);
    let mut rest = clone_bindings(b);
    let ghost first = all;
    let ghost second = rest;
    all.append(&mut rest);
    proof {
        lemma_append_view(first, second, all);
    }
    all
}

/// The values of a list of expressions for each row.
pub fn rows_for(
    db: &Storage,
    list: &Vec<Expr>,
    columns: &Vec<Binding>,
    width: usize,
    outer: &Vec<Value>,
    rows: &Vec<Vec<Value>>,
) -> (r: Result<Vec<Vec<Value>>, EngineError>)
    ensures
        gives(
            r,
            rows_over(
                db@,
                list.deep_view(),
                columns.deep_view(),
                width as nat,
                outer.deep_view(),
                rows.deep_view(),
                0,
            ),
        ),
    decreases list, 1nat, 0nat,
{
    let mut out: Vec<Vec<Value>> = Vec::new();
    let mut i: usize = 0;
    let keys: Vec<usize> = Vec::new();
    let ghost m = list.deep_view();
    let ghost c = columns.deep_view();
    let ghost o = outer.deep_view();
    let ghost t = rows.deep_view();
    proof {
        lemma_after_start(rows_over(db@, m, c, width as nat, o, t, 0));
        assert(out.deep_view() =~= Seq::<Seq<SpecValue>>::empty());
    }
    while i < rows.len()
        invariant
            i <= rows.len(),
            keys@.len() == 0,
            m == list.deep_view(),
            c == columns.deep_view(),
            o == outer.deep_view(),
            t == rows.deep_view(),
            rows_over(db@, m, c, width as nat, o, t, 0) == after(
                out.deep_view(),
                rows_over(db@, m, c, width as nat, o, t, i as int),
            ),
        decreases rows.len() - i,
    {
        let row = concat(&rows[i], outer);
        let sc = Context { columns, row: &row, width, group: None, keys: &keys };
        assert(sc@ == row_scope(c, width as nat, t[i as int], o)) by {
            assert(sc@.keys =~= Seq::<int>::empty());
        }
        match evaluate_list(db, list, &sc) {
            Err(e) => {
                return Err(e);
            },
            Ok(v) => {
                let ghost before = out;
                out.push(v);
                proof {
                    lemma_push_view(before, out, v);
                    lemma_after_step(
                        before.deep_view(),
                        v.deep_view(),
                        rows_over(db@, m, c, width as nat, o, t, i + 1),
                    );
                }
            },
        }
        i += 1;
    }
    proof {
        lemma_after_end::<Seq<SpecValue>, EngineError>(out.deep_view());
    }
    Ok(out)
}

/// The first `width` values of a row, or all where it has fewer.
fn inner_values(row: &Vec<Value>, width: usize) -> (out: Vec<Value>)
    ensures
        out.deep_view() == if width <= row.len() {
            row.deep_view().take(width as int)
        } else {
            row.deep_view()
        },
{
    let n = if width <= row.len() {
        width
    } else {
        row.len()
    };
    let mut out: Vec<Value> = Vec::new();
    let mut i: usize = 0;
    while i < n
        invariant
            i <= n <= row.len(),
            out.len() == i,
            forall|j: int| 0 <= j < i ==> #[trigger] out.deep_view()[j] == row.deep_view()[j],
        decreases n - i,
    {
        let ghost before = out;
        let v = row[i].clone();
        out.push(v);
        proof {
            lemma_push_view(before, out, v);
        }
        i += 1;
    }
    assert(out.deep_view() =~= row.deep_view().take(n as int));
    assert(row.deep_view().take(row.len() as int) =~= row.deep_view());
    out
}

/// The values of a select list.
pub fn project_items(db: &Storage, items: &Vec<SelectItem>, sc: &Context) -> (r: Result<
    Vec<Value>,
    EngineError,
>)
    ensures
        gives(r, project(db@, items.deep_view(), sc@, 0)),
    decreases items, 0nat, 0nat,
{
    let mut out: Vec<Value> = Vec::new();
    let mut k: usize = 0;
    let ghost m = items.deep_view();
    proof {
        lemma_after_start(project(db@, m, sc@, 0));
        assert(out.deep_view() =~= Seq::<SpecValue>::empty());
    }
    while k < items.len()
        invariant
            k <= items.len(),
            m == items.deep_view(),
            project(db@, m, sc@, 0) == after(out.deep_view(), project(db@, m, sc@, k as int)),
        decreases items.len() - k,
    {
        proof {
            lemma_item_model(items[k as int]);
        }
        let mut part = match &items[k] {
            SelectItem::Star => {
                if sc.group.is_some() {
                    return Err(EngineError::AggregateMisuse);
                }
                inner_values(sc.row, sc.width)
            },
            SelectItem::Expr { expr, .. } => match evaluate(db, expr, sc) {
                Err(e) => {
                    return Err(e);
                },
                Ok(v) => {
                    let mut one: Vec<Value> = Vec::new();
                    one.push(v);
                    assert(one.deep_view() =~= seq![v@]);
                    one
                },
            },
        };
        let ghost before = out;
        let ghost added = part;
        out.append(&mut part);
        proof {
            lemma_append_view(before, added, out);
            lemma_after_part(before.deep_view(), added.deep_view(), project(db@, m, sc@, k + 1));
        }
        k += 1;
    }
    proof {
        lemma_after_end::<SpecValue, EngineError>(out.deep_view());
    }
    Ok(out)
}

/// The position in the result of the first entry of the select list whose
/// alias is `name`.
fn alias_position(items: &Vec<SelectItem>, width: usize, name: &String) -> (r: Option<u128>)
    ensures
        match r {
            Some(p) => alias_from(items.deep_view(), width as nat, name@, 0, 1) == Some(p as int),
            None => alias_from(items.deep_view(), width as nat, name@, 0, 1) is None,
        },
        r is Some ==> r->Some_0 >= 1,
{
    let mut k: usize = 0;
    let mut at: u128 = 1;
    let ghost m = items.deep_view();
    let step: u128 = if width > 1 {
        width as u128
    } else {
        1
    };
    while k < items.len()
        invariant
            k <= items.len(),
            m == items.deep_view(),
            1 <= step <= usize::MAX,
            width <= step,
            1 <= at <= 1 + k * step,
            alias_from(m, width as nat, name@, 0, 1) == alias_from(
                m,
                width as nat,
                name@,
                k as int,
                at as int,
            ),
        decreases items.len() - k,
    {
        proof {
            lemma_item_model(items[k as int]);
            assert(1 + k * step + step == 1 + (k + 1) * step) by (nonlinear_arith);
            assert((k + 1) * step <= usize::MAX * usize::MAX) by (nonlinear_arith)
                requires
                    k + 1 <= usize::MAX,
                    1 <= step <= usize::MAX,
            ;
        }
        match &items[k] {
            SelectItem::Star => {
                at = at + width as u128;
            },
            SelectItem::Expr { alias, .. } => {
                let found = match alias {
                    Some(a) => crate::text::strs_match(a.as_str(), name.as_str()),
                    None => false,
                };
                if found {
                    return Some(at);
                }
                at = at + 1;
            },
        }
        k += 1;
    }
    None
}

/// The value of a sort key that names a column of the result, if the key
/// names one.
fn key_value(e: &Expr, items: &Vec<SelectItem>, width: usize, row: &Vec<Value>) -> (r: Option<
    Result<Value, EngineError>,
>)
    ensures
        match position_of(e.deep_view(), items.deep_view(), width as nat) {
            Some(p) => r is Some && crate::scalar::value_result_is(
                r->Some_0,
                crate::semantics::positioned(row.deep_view(), p),
            ),
            None => r is None,
        },
{
    proof {
        lemma_expr_model(*e);
    }
    match e {
        Expr::Literal(Value::Integer(p)) => {
            if 1 <= *p && (*p as u64) <= row.len() as u64 {
                Some(Ok(row[(*p - 1) as usize].clone()))
            } else {
                Some(Err(EngineError::UnknownColumn))
            }
        },
        Expr::ColumnRef { table: None, name } => match alias_position(items, width, name) {
            Some(p) => {
                if p <= row.len() as u128 {
                    Some(Ok(row[(p - 1) as usize].clone()))
                } else {
                    Some(Err(EngineError::UnknownColumn))
                }
            },
            None => None,
        },
        _ => None,
    }
}

/// The values of the sort keys for a result row.
pub fn sort_values(
    db: &Storage,
    keys: &Vec<OrderKey>,
    items: &Vec<SelectItem>,
    sc: &Context,
    row: &Vec<Value>,
) -> (r: Result<Vec<Value>, EngineError>)
    ensures
        gives(
            r,
            order_values(db@, keys.deep_view(), items.deep_view(), sc@, row.deep_view(), 0),
        ),
    decreases keys, 0nat, 0nat,
{
    let mut out: Vec<Value> = Vec::new();
    let mut k: usize = 0;
    let ghost m = keys.deep_view();
    let ghost it = items.deep_view();
    let ghost w = row.deep_view();
    proof {
        lemma_after_start(order_values(db@, m, it, sc@, w, 0));
        assert(out.deep_view() =~= Seq::<SpecValue>::empty());
    }
    while k < keys.len()
        invariant
            k <= keys.len(),
            m == keys.deep_view(),
            it == items.deep_view(),
            w == row.deep_view(),
            order_values(db@, m, it, sc@, w, 0) == after(
                out.deep_view(),
                order_values(db@, m, it, sc@, w, k as int),
            ),
        decreases keys.len() - k,
    {
        proof {
            lemma_key_model(keys[k as int]);
        }
        let found = match key_value(&keys[k].expr, items, sc.width, row) {
            Some(found) => found,
            None => evaluate(db, &keys[k].expr, sc),
        };
        match found {
            Err(e) => {
                return Err(e);
            },
            Ok(v) => {
                let ghost before = out;
                out.push(v);
                proof {
                    lemma_push_view(before, out, v);
                    lemma_after_step(
                        before.deep_view(),
                        v@,
                        order_values(db@, m, it, sc@, w, k + 1),
                    );
                }
            },
        }
        k += 1;
    }
    proof {
        lemma_after_end::<SpecValue, EngineError>(out.deep_view());
    }
    Ok(out)
}

/// Whether `HAVING` keeps a unit.
fn keeps(db: &Storage, q: &Select, sc: &Context) -> (r: Result<bool, EngineError>)
    ensures
        r == (match q.deep_view().having {
            None => Ok(true),
            Some(h) => match crate::semantics::eval(db@, h, sc@) {
                Err(e) => Err(e),
                Ok(v) => match crate::value::truth_spec(v) {
                    Err(e) => Err(e),
                    Ok(t) => Ok(t == Truth::True),
                },
            },
        }),
    decreases q, 7nat, 0nat,
{
    proof {
        lemma_select_model(*q);
    }
    match &q.having {
        None => Ok(true),
        Some(h) => match evaluate(db, h, sc) {
            Err(e) => Err(e),
            Ok(v) => match truth(&v) {
                Err(e) => Err(e),
                Ok(Truth::True) => Ok(true),
                Ok(_) => Ok(false),
            },
        },
    }
}

/// The result rows of the units, each with the values of its sort keys.
pub fn outputs(
    db: &Storage,
    q: &Select,
    columns: &Vec<Binding>,
    width: usize,
    outer: &Vec<Value>,
    keys: &Vec<usize>,
    units: &Vec<Unit>,
) -> (r: Result<Vec<Keyed>, EngineError>)
    ensures
        gives(
            r,
            outputs_from(
                db@,
                q.deep_view(),
                columns.deep_view(),
                width as nat,
                outer.deep_view(),
                indices(keys@),
                units.deep_view(),
                0,
            ),
        ),
    decreases q, 8nat, 0nat,
{
    let mut out: Vec<Keyed> = Vec::new();
    let mut i: usize = 0;
    let ghost m = q.deep_view();
    let ghost c = columns.deep_view();
    let ghost o = outer.deep_view();
    let ghost u = units.deep_view();
    let ghost ks = indices(keys@);
    proof {
        lemma_select_model(*q);
        lemma_after_start(outputs_from(db@, m, c, width as nat, o, ks, u, 0));
        assert(out.deep_view() =~= Seq::<SpecKeyed>::empty());
    }
    while i < units.len()
        invariant
            i <= units.len(),
            m == q.deep_view(),
            m.items == q.items.deep_view(),
            m.order_by == q.order_by.deep_view(),
            c == columns.deep_view(),
            o == outer.deep_view(),
            u == units.deep_view(),
            ks == indices(keys@),
            outputs_from(db@, m, c, width as nat, o, ks, u, 0) == after(
                out.deep_view(),
                outputs_from(db@, m, c, width as nat, o, ks, u, i as int),
            ),
        decreases units.len() - i,
    {
        let row = concat(&units[i].row, outer);
        let group = match &units[i].group {
            Some(g) => Some(g),
            None => None,
        };
        let sc = Context { columns, row: &row, width, group, keys };
        assert(sc@ == unit_scope(c, width as nat, o, ks, u[i as int]));
        let keep = match keeps(db, q, &sc) {
            Err(e) => {
                return Err(e);
            },
            Ok(keep) => keep,
        };
        if keep {
            let values = match project_items(db, &q.items, &sc) {
                Err(e) => {
                    return Err(e);
                },
                Ok(values) => values,
            };
            let sort_keys = match sort_values(db, &q.order_by, &q.items, &sc, &values) {
                Err(e) => {
                    return Err(e);
                },
                Ok(sort_keys) => sort_keys,
            };
            let item = Keyed { keys: sort_keys, row: values };
            let ghost before = out;
            out.push(item);
            proof {
                lemma_push_view(before, out, item);
                lemma_after_step(
                    before.deep_view(),
                    item.deep_view(),
                    outputs_from(db@, m, c, width as nat, o, ks, u, i + 1),
                );
            }
        }
        i += 1;
    }
    proof {
        lemma_after_end::<SpecKeyed, EngineError>(out.deep_view());
    }
    Ok(out)
}

/// The relation after the joins have been applied to `base`, one after the
/// other from the left.
pub fn join_all(db: &Storage, joins: &Vec<Join>, base: Rows, outer: &Context) -> (r: Result<
    Rows,
    EngineError,
>)
    ensures
        gives(r, joined_with(db@, joins.deep_view(), base.deep_view(), outer@, 0)),
    decreases joins, 3nat, 0nat,
{
    let mut acc = base;
    let mut j: usize = 0;
    let ghost m = joins.deep_view();
    while j < joins.len()
        invariant
            j <= joins.len(),
            m == joins.deep_view(),
            joined_with(db@, m, base.deep_view(), outer@, 0) == joined_with(
                db@,
                m,
                acc.deep_view(),
                outer@,
                j as int,
            ),
        decreases joins.len() - j,
    {
        proof {
            lemma_join_model(joins[j as int]);
        }
        let right = match table_rows(db, &joins[j].table) {
            Err(e) => {
                return Err(e);
            },
            Ok(right) => right,
        };
        let columns = join_bindings(&acc.columns, &right.columns);
        let candidates = product(&acc.rows, &right.rows);
        let rows = match &joins[j].on {
            None => candidates,
            Some(on) => {
                let all = join_bindings(&columns, outer.columns);
                let values = match values_for(
                    db,
                    on,
                    &all,
                    columns.len(),
                    outer.row,
                    &candidates,
                ) {
                    Err(e) => {
                        return Err(e);
                    },
                    Ok(values) => values,
                };
                let t = match truths(&values) {
                    Err(e) => {
                        return Err(e);
                    },
                    Ok(t) => t,
                };
                join(joins[j].kind, &acc.rows, &right.rows, right.columns.len(), &t)
            },
        };
        acc = Rows { columns, rows };
        j += 1;
    }
    Ok(acc)
}

/// The result of a query inside a scope.
pub fn select(db: &Storage, q: &Select, outer: &Context) -> (r: Result<ResultSet, EngineError>)
    ensures
        gives(r, run_select(db@, q.deep_view(), outer@)),
    decreases q, 9nat, 0nat,
{
    proof {
        lemma_select_model(*q);
    }
    let base = match base_rows(db, &q.from) {
        Err(e) => {
            return Err(e);
        },
        Ok(base) => base,
    };
    let rel = match join_all(db, &q.joins, base, outer) {
        Err(e) => {
            return Err(e);
        },
        Ok(rel) => rel,
    };
    let width = rel.columns.len();
    let columns = join_bindings(&rel.columns, outer.columns);
    let rows = match &q.filter {
        None => clone_rows(&rel.rows),
        Some(w) => {
            let values = match values_for(db, w, &columns, width, outer.row, &rel.rows) {
                Err(e) => {
                    return Err(e);
                },
                Ok(values) => values,
            };
            match truths(&values) {
                Err(e) => {
                    return Err(e);
                },
                Ok(t) => choose_rows(&rel.rows, &t),
            }
        },
    };
    let units = if aggregating(q) {
        let keys = match rows_for(db, &q.group_by, &columns, width, outer.row, &rows) {
            Err(e) => {
                return Err(e);
            },
            Ok(keys) => keys,
        };
        let groups = partition(&rows, &keys);
        units_of_groups(q.group_by.len() > 0, &rows, &groups, width)
    } else {
        units_of_rows(&rows)
    };
    let key_columns = grouping_columns(&q.group_by, &columns);
    let items = match outputs(db, q, &columns, width, outer.row, &key_columns, &units) {
        Err(e) => {
            return Err(e);
        },
        Ok(items) => items,
    };
    let ordered = sort_rows(&items, &sort_directions(&q.order_by));
    Ok(
        ResultSet {
            columns: column_names(&q.items, &rel.columns),
            rows: limit(strip(ordered), q.limit),
        },
    )
}

} // verus!
