//! The scope of an expression and the operations of the evaluator that
//! evaluate nothing themselves.

use vstd::prelude::*;
use crate::ast::{lemma_push_view, BinaryOperator, UnaryOperator};
use crate::error::EngineError;
use crate::functions::is_member;
use crate::scalar::{arithmetic, compare, truth, value_result_is};
use crate::semantics::{
    binary_value, column_of, column_value, first_of, membership_value, negated_value, resolve,
    resolve_from, satisfied, scalar_of, unary_value, Relation, Scope, SpecBinding, SpecResultSet,
    SpecUnit,
};
use crate::text::strs_match;
use crate::value::{ArithOp, Order, SpecValue, Truth, Value};

verus! {

/// A column as an expression can name it.
#[derive(Debug)]
pub struct Binding {
    pub table: String,
    pub name: String,
}

impl DeepView for Binding {
    type V = SpecBinding;

    open spec fn deep_view(&self) -> SpecBinding {
        SpecBinding { table: self.table@, name: self.name@ }
    }
}

/// The result of a query: the names of its columns and its rows.
#[derive(Debug)]
pub struct ResultSet {
    pub columns: Vec<String>,
    pub rows: Vec<Vec<Value>>,
}

impl DeepView for ResultSet {
    type V = SpecResultSet;

    open spec fn deep_view(&self) -> SpecResultSet {
        SpecResultSet { columns: self.columns.deep_view(), rows: self.rows.deep_view() }
    }
}

/// Rows with the columns that name their values.
#[derive(Debug)]
pub struct Rows {
    pub columns: Vec<Binding>,
    pub rows: Vec<Vec<Value>>,
}

impl DeepView for Rows {
    type V = Relation;

    open spec fn deep_view(&self) -> Relation {
        Relation { columns: self.columns.deep_view(), rows: self.rows.deep_view() }
    }
}

/// What the select list is evaluated for: a row, or a group with the row
/// that stands for it.
#[derive(Debug)]
pub struct Unit {
    pub row: Vec<Value>,
    pub group: Option<Vec<Vec<Value>>>,
}

impl DeepView for Unit {
    type V = SpecUnit;

    open spec fn deep_view(&self) -> SpecUnit {
        SpecUnit { row: self.row.deep_view(), group: self.group.deep_view() }
    }
}

/// The indices of columns as integers.
pub open spec fn indices(keys: Seq<usize>) -> Seq<int> {
    Seq::new(keys.len(), |i: int| keys[i] as int)
}

/// What an expression is evaluated in.
pub struct Context<'a> {
    pub columns: &'a Vec<Binding>,
    pub row: &'a Vec<Value>,
    pub width: usize,
    pub group: Option<&'a Vec<Vec<Value>>>,
    pub keys: &'a Vec<usize>,
}

impl<'a> View for Context<'a> {
    type V = Scope;

    open spec fn view(&self) -> Scope {
        Scope {
            columns: self.columns.deep_view(),
            row: self.row.deep_view(),
            width: self.width as nat,
            group: match self.group {
                Some(g) => Some(g.deep_view()),
                None => None,
            },
            keys: indices(self.keys@),
        }
    }
}

/// The index of the column that a name refers to.
pub fn resolve_column(columns: &Vec<Binding>, table: &Option<String>, name: &String) -> (r: Option<
    usize,
>)
    ensures
        match r {
            Some(i) => i < columns.len() && resolve(
                columns.deep_view(),
                crate::ast::name_view(*table),
                name@,
            ) == Some(i as int),
            None => resolve(columns.deep_view(), crate::ast::name_view(*table), name@) is None,
        },
{
    let mut i: usize = 0;
    while i < columns.len()
        invariant
            i <= columns.len(),
            resolve(columns.deep_view(), crate::ast::name_view(*table), name@) == resolve_from(
                columns.deep_view(),
                crate::ast::name_view(*table),
                name@,
                i as int,
            ),
        decreases columns.len() - i,
    {
        let named = strs_match(columns[i].name.as_str(), name.as_str());
        let qualified = match table {
            Some(t) => strs_match(columns[i].table.as_str(), t.as_str()),
            None => true,
        };
        if named && qualified {
            return Some(i);
        }
        i += 1;
    }
    None
}

/// Whether rows are grouped by column `i`.
fn is_key(keys: &Vec<usize>, i: usize) -> (r: bool)
    ensures
        r == indices(keys@).contains(i as int),
{
    let mut k: usize = 0;
    while k < keys.len()
        invariant
            k <= keys.len(),
            forall|j: int| 0 <= j < k ==> indices(keys@)[j] != i,
        decreases keys.len() - k,
    {
        if keys[k] == i {
            assert(indices(keys@)[k as int] == i);
            return true;
        }
        k += 1;
    }
    false
}

/// The value of the column at `i`.
pub fn column(sc: &Context, i: usize) -> (r: Result<Value, EngineError>)
    ensures
        value_result_is(r, column_value(sc@, i as int)),
{
    if sc.group.is_some() && i < sc.width && !is_key(sc.keys, i) {
        Err(EngineError::AggregateMisuse)
    } else if i < sc.row.len() {
        Ok(sc.row[i].clone())
    } else {
        Ok(Value::Null)
    }
}

/// Whether a comparison holds of two values that stand in the given order.
fn satisfies(op: BinaryOperator, o: Order) -> (r: bool)
    ensures
        r == satisfied(op, o),
{
    match op {
        BinaryOperator::Eq => match o {
            Order::Equal => true,
            _ => false,
        },
        BinaryOperator::Ne => match o {
            Order::Equal => false,
            _ => true,
        },
        BinaryOperator::Lt => match o {
            Order::Less => true,
            _ => false,
        },
        BinaryOperator::Le => match o {
            Order::Greater => false,
            _ => true,
        },
        BinaryOperator::Gt => match o {
            Order::Greater => true,
            _ => false,
        },
        _ => match o {
            Order::Less => false,
            _ => true,
        },
    }
}

/// `a op b` for an operator that is not `AND` or `OR`.
pub fn binary(op: BinaryOperator, a: &Value, b: &Value) -> (r: Result<Value, EngineError>)
    ensures
        value_result_is(r, binary_value(op, a@, b@)),
{
    let f = match op {
        BinaryOperator::Add => Some(ArithOp::Add),
        BinaryOperator::Sub => Some(ArithOp::Sub),
        BinaryOperator::Mul => Some(ArithOp::Mul),
        BinaryOperator::Div => Some(ArithOp::Div),
        _ => None,
    };
    match f {
        Some(f) => arithmetic(f, a, b),
        None => match compare(a, b) {
            Err(e) => Err(e),
            Ok(None) => Ok(Value::Null),
            Ok(Some(o)) => Ok(Truth::from_bool(satisfies(op, o)).to_value()),
        },
    }
}

/// The value of `-v` or `NOT v`.
pub fn unary(operator: UnaryOperator, v: &Value) -> (r: Result<Value, EngineError>)
    ensures
        value_result_is(r, unary_value(operator, v@)),
{
    match operator {
        UnaryOperator::Neg => {
            let zero = Value::Integer(0);
            arithmetic(ArithOp::Sub, &zero, v)
        },
        UnaryOperator::Not => match truth(v) {
            Ok(t) => Ok(t.not().to_value()),
            Err(e) => Err(e),
        },
    }
}

/// A truth value, turned round where the test is negated.
pub fn negate(t: Truth, negated: bool) -> (v: Value)
    ensures
        v@ == negated_value(t, negated),
{
    if negated {
        t.not().to_value()
    } else {
        t.to_value()
    }
}

/// The outcome of `v [NOT] IN values`.
pub fn membership(v: &Value, values: &Vec<Value>, negated: bool) -> (r: Result<Value, EngineError>)
    ensures
        value_result_is(r, membership_value(v@, values.deep_view(), negated)),
{
    match is_member(v, values) {
        Ok(t) => Ok(negate(t, negated)),
        Err(e) => Err(e),
    }
}

/// The value of a scalar subquery.
pub fn scalar(rs: &ResultSet) -> (r: Result<Value, EngineError>)
    ensures
        value_result_is(r, scalar_of(rs.deep_view())),
{
    if rs.rows.len() == 0 {
        Ok(Value::Null)
    } else if rs.rows.len() > 1 || rs.rows[0].len() != 1 {
        Err(EngineError::SubqueryCardinality)
    } else {
        Ok(rs.rows[0][0].clone())
    }
}

/// The values of the only column of a subquery.
pub fn only_column(rs: &ResultSet) -> (r: Result<Vec<Value>, EngineError>)
    ensures
        match r {
            Ok(v) => column_of(rs.deep_view()) == Ok::<Seq<SpecValue>, EngineError>(v.deep_view()),
            Err(e) => column_of(rs.deep_view()) == Err::<Seq<SpecValue>, EngineError>(e),
        },
{
    if rs.columns.len() != 1 {
        return Err(EngineError::SubqueryCardinality);
    }
    let mut out: Vec<Value> = Vec::new();
    let mut i: usize = 0;
    while i < rs.rows.len()
        invariant
            i <= rs.rows.len(),
            out.len() == i,
            forall|j: int|
                0 <= j < i ==> #[trigger] out.deep_view()[j] == first_of(rs.deep_view().rows[j]),
        decreases rs.rows.len() - i,
    {
        let ghost before = out;
        let v = if rs.rows[i].len() > 0 {
            rs.rows[i][0].clone()
        } else {
            Value::Null
        };
        out.push(v);
        proof {
            lemma_push_view(before, out, v);
        }
        i += 1;
    }
    assert(out.deep_view() =~= column_of(rs.deep_view())->Ok_0);
    Ok(out)
}

} // verus!
