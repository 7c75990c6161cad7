//! The evaluator of expressions and queries.

use vstd::prelude::*;
use crate::ast::{lemma_expr_model, lemma_push_view, BinaryOperator, Expr, SubqueryKind, WhenBranch};
use crate::error::EngineError;
use crate::functions::{apply, lookup, Function};
use crate::group::{aggregate_of, optional_view, Aggregate};
use crate::relation::concat;
use crate::scalar::{to_integer, truth, value_result_is};
use crate::query::select;
use crate::scope::{
    binary, column, membership, negate, only_column, resolve_column, scalar, unary, Context,
};
use crate::semantics::{eval, eval_case, eval_list, outer_of, row_scope, values_over};
use crate::sequence::{after, gives, lemma_after_end, lemma_after_start, lemma_after_step};
use crate::scope::Binding;
use crate::storage::Storage;
use crate::value::{SpecValue, Truth, Value};

verus! {

/// The value of an expression.
pub fn evaluate(db: &Storage, e: &Expr, sc: &Context) -> (r: Result<Value, EngineError>)
    ensures
        value_result_is(r, eval(db@, e.deep_view(), sc@)),
    decreases e, 1nat, 0nat,
{
    proof {
        lemma_expr_model(*e);
    }
    match e {
        Expr::Literal(v) => Ok(v.clone()),
        Expr::ColumnRef { table, name } => match resolve_column(sc.columns, table, name) {
            Some(i) => column(sc, i),
            None => Err(EngineError::UnknownColumn),
        },
        Expr::UnaryOp { operator, operand } => match evaluate(db, operand, sc) {
            Ok(v) => unary(*operator, &v),
            Err(e) => Err(e),
        },
        Expr::BinaryOp { .. } => evaluate_binary(db, e, sc),
        Expr::IsNull { operand, negated } => match evaluate(db, operand, sc) {
            Ok(v) => {
                let null = match v {
                    Value::Null => true,
                    _ => false,
                };
                Ok(Truth::from_bool(null != *negated).to_value())
            },
            Err(e) => Err(e),
        },
        Expr::InList { operand, list, negated } => match evaluate(db, operand, sc) {
            Err(e) => Err(e),
            Ok(v) => match evaluate_list(db, list, sc) {
                Err(e) => Err(e),
                Ok(values) => membership(&v, &values, *negated),
            },
        },
        Expr::CaseWhen { branches, otherwise } => match evaluate_case(db, branches, sc) {
            Err(e) => Err(e),
            Ok(Some(v)) => Ok(v),
            Ok(None) => match otherwise {
                Some(o) => evaluate(db, o, sc),
                None => Ok(Value::Null),
            },
        },
        Expr::FunctionCall { .. } => evaluate_call(db, e, sc),
        Expr::Subquery { kind, subject, query, negated } => match kind {
            SubqueryKind::Exists => match select(db, query, sc) {
                Err(e) => Err(e),
                Ok(rs) => Ok(negate(Truth::from_bool(rs.rows.len() > 0), *negated)),
            },
            SubqueryKind::Scalar => match select(db, query, sc) {
                Err(e) => Err(e),
                Ok(rs) => scalar(&rs),
            },
            SubqueryKind::In => match subject {
                None => Err(EngineError::SubqueryCardinality),
                Some(s) => match evaluate(db, s, sc) {
                    Err(e) => Err(e),
                    Ok(v) => match select(db, query, sc) {
                        Err(e) => Err(e),
                        Ok(rs) => match only_column(&rs) {
                            Err(e) => Err(e),
                            Ok(values) => membership(&v, &values, *negated),
                        },
                    },
                },
            },
        },
    }
}

/// The value of `left op right`. `AND` and `OR` do not evaluate their right
/// operand where the left one decides.
fn evaluate_binary(db: &Storage, e: &Expr, sc: &Context) -> (r: Result<Value, EngineError>)
    requires
        e is BinaryOp,
    ensures
        value_result_is(r, eval(db@, e.deep_view(), sc@)),
    decreases e, 0nat, 0nat,
{
    proof {
        lemma_expr_model(*e);
    }
    let (op, left, right) = match e {
        Expr::BinaryOp { op, left, right } => (*op, left, right),
        _ => {
            return Err(EngineError::TypeMismatch);
        },
    };
    let a = match evaluate(db, left, sc) {
        Err(e) => {
            return Err(e);
        },
        Ok(a) => a,
    };
    let and = match op {
        BinaryOperator::And => true,
        _ => false,
    };
    let or = match op {
        BinaryOperator::Or => true,
        _ => false,
    };
    if and || or {
        let s = match truth(&a) {
            Err(e) => {
                return Err(e);
            },
            Ok(s) => s,
        };
        let decided = match s {
            Truth::True => or,
            Truth::False => and,
            Truth::Unknown => false,
        };
        if decided {
            return Ok(s.to_value());
        }
        let b = match evaluate(db, right, sc) {
            Err(e) => {
                return Err(e);
            },
            Ok(b) => b,
        };
        match truth(&b) {
            Err(e) => Err(e),
            Ok(t) => if and {
                Ok(s.and(t).to_value())
            } else {
                Ok(s.or(t).to_value())
            },
        }
    } else {
        match evaluate(db, right, sc) {
            Err(e) => Err(e),
            Ok(b) => binary(op, &a, &b),
        }
    }
}

/// The value of a call of a function.
fn evaluate_call(db: &Storage, e: &Expr, sc: &Context) -> (r: Result<Value, EngineError>)
    requires
        e is FunctionCall,
    ensures
        value_result_is(r, eval(db@, e.deep_view(), sc@)),
    decreases e, 0nat, 0nat,
{
    proof {
        lemma_expr_model(*e);
    }
    let (name, args, star) = match e {
        Expr::FunctionCall { name, args, star } => (name, args, *star),
        _ => {
            return Err(EngineError::TypeMismatch);
        },
    };
    match lookup(name.as_str()) {
        None => Err(EngineError::UnknownFunction),
        Some(Function::Aggregate(kind)) => match sc.group {
            None => Err(EngineError::AggregateMisuse),
            Some(rows) => {
                let count = match kind {
                    Aggregate::Count => true,
                    _ => false,
                };
                if star {
                    if count && args.len() == 0 {
                        to_integer(rows.len() as i128)
                    } else {
                        Err(EngineError::AggregateMisuse)
                    }
                } else if args.len() != 1 {
                    Err(EngineError::AggregateMisuse)
                } else {
                    let outer = outer_row(sc);
                    match values_for(db, &args[0], sc.columns, sc.width, &outer, rows) {
                        Err(e) => Err(e),
                        Ok(values) => aggregate_of(kind, &values),
                    }
                }
            },
        },
        Some(f) => if star {
            Err(EngineError::UnknownFunction)
        } else {
            match evaluate_list(db, args, sc) {
                Err(e) => Err(e),
                Ok(values) => apply(f, &values),
            }
        },
    }
}

/// The values that the enclosing queries gave to a scope.
fn outer_row(sc: &Context) -> (row: Vec<Value>)
    ensures
        row.deep_view() == outer_of(sc@),
{
    let mut row: Vec<Value> = Vec::new();
    if sc.width > sc.row.len() {
        assert(row.deep_view() =~= Seq::<SpecValue>::empty());
        return row;
    }
    let mut i: usize = sc.width;
    while i < sc.row.len()
        invariant
            sc.width <= i <= sc.row.len(),
            row.len() == i - sc.width,
            forall|j: int|
                0 <= j < i - sc.width ==> #[trigger] row.deep_view()[j] == sc.row.deep_view()[j
                    + sc.width],
        decreases sc.row.len() - i,
    {
        let ghost before = row;
        let v = sc.row[i].clone();
        row.push(v);
        proof {
            lemma_push_view(before, row, v);
        }
        i += 1;
    }
    assert(row.deep_view() =~= outer_of(sc@));
    row
}

/// The values of the expressions of a list.
pub fn evaluate_list(db: &Storage, list: &Vec<Expr>, sc: &Context) -> (r: Result<
    Vec<Value>,
    EngineError,
>)
    ensures
        gives(r, eval_list(db@, list.deep_view(), sc@, 0)),
    decreases list, 0nat, 0nat,
{
    let mut out: Vec<Value> = Vec::new();
    let mut k: usize = 0;
    proof {
        lemma_after_start(eval_list(db@, list.deep_view(), sc@, 0));
        assert(out.deep_view() =~= Seq::<SpecValue>::empty());
    }
    while k < list.len()
        invariant
            k <= list.len(),
            eval_list(db@, list.deep_view(), sc@, 0) == after(
                out.deep_view(),
                eval_list(db@, list.deep_view(), sc@, k as int),
            ),
        decreases list.len() - k,
    {
        match evaluate(db, &list[k], sc) {
            Err(e) => {
                return Err(e);
            },
            Ok(v) => {
                let ghost before = out;
                out.push(v);
                proof {
                    lemma_push_view(before, out, v);
                    lemma_after_step(
                        before.deep_view(),
                        v@,
                        eval_list(db@, list.deep_view(), sc@, k + 1),
                    );
                }
            },
        }
        k += 1;
    }
    proof {
        lemma_after_end::<SpecValue, EngineError>(out.deep_view());
    }
    Ok(out)
}

/// The result of the first branch whose condition is true, if one is.
fn evaluate_case(db: &Storage, branches: &Vec<WhenBranch>, sc: &Context) -> (r: Result<
    Option<Value>,
    EngineError,
>)
    ensures
        match r {
            Ok(v) => eval_case(db@, branches.deep_view(), sc@, 0) == Ok::<
                Option<SpecValue>,
                EngineError,
            >(optional_view(v)),
            Err(e) => eval_case(db@, branches.deep_view(), sc@, 0) == Err::<
                Option<SpecValue>,
                EngineError,
            >(e),
        },
    decreases branches, 0nat, 0nat,
{
    let mut k: usize = 0;
    while k < branches.len()
        invariant
            k <= branches.len(),
            eval_case(db@, branches.deep_view(), sc@, 0) == eval_case(
                db@,
                branches.deep_view(),
                sc@,
                k as int,
            ),
        decreases branches.len() - k,
    {
        proof {
            crate::ast::lemma_when_model(branches[k as int]);
        }
        let c = match evaluate(db, &branches[k].condition, sc) {
            Err(e) => {
                return Err(e);
            },
            Ok(c) => c,
        };
        match truth(&c) {
            Err(e) => {
                return Err(e);
            },
            Ok(Truth::True) => {
                return match evaluate(db, &branches[k].result, sc) {
                    Err(e) => Err(e),
                    Ok(v) => Ok(Some(v)),
                };
            },
            Ok(_) => {},
        }
        k += 1;
    }
    Ok(None)
}

/// The value of an expression for each row.
pub fn values_for(
    db: &Storage,
    e: &Expr,
    columns: &Vec<Binding>,
    width: usize,
    outer: &Vec<Value>,
    rows: &Vec<Vec<Value>>,
) -> (r: Result<Vec<Value>, EngineError>)
    ensures
        gives(
            r,
            values_over(
                db@,
                e.deep_view(),
                columns.deep_view(),
                width as nat,
                outer.deep_view(),
                rows.deep_view(),
                0,
            ),
        ),
    decreases e, 2nat, 0nat,
{
    let mut out: Vec<Value> = Vec::new();
    let mut i: usize = 0;
    let keys: Vec<usize> = Vec::new();
    let ghost m = e.deep_view();
    let ghost c = columns.deep_view();
    let ghost o = outer.deep_view();
    let ghost t = rows.deep_view();
    proof {
        lemma_after_start(values_over(db@, m, c, width as nat, o, t, 0));
        assert(out.deep_view() =~= Seq::<SpecValue>::empty());
    }
    while i < rows.len()
        invariant
            i <= rows.len(),
            keys@.len() == 0,
            m == e.deep_view(),
            c == columns.deep_view(),
            o == outer.deep_view(),
            t == rows.deep_view(),
            values_over(db@, m, c, width as nat, o, t, 0) == after(
                out.deep_view(),
                values_over(db@, m, c, width as nat, o, t, i as int),
            ),
        decreases rows.len() - i,
    {
        let row = concat(&rows[i], outer);
        let sc = Context { columns, row: &row, width, group: None, keys: &keys };
        assert(sc@ == row_scope(c, width as nat, t[i as int], o)) by {
            assert(sc@.keys =~= Seq::<int>::empty());
        }
        match evaluate(db, e, &sc) {
            Err(e) => {
                return Err(e);
            },
            Ok(v) => {
                let ghost before = out;
                out.push(v);
                proof {
                    lemma_push_view(before, out, v);
                    lemma_after_step(
                        before.deep_view(),
                        v@,
                        values_over(db@, m, c, width as nat, o, t, i + 1),
                    );
                }
            },
        }
        i += 1;
    }
    proof {
        lemma_after_end::<SpecValue, EngineError>(out.deep_view());
    }
    Ok(out)
}

} // verus!
