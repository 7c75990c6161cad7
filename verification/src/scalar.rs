//! The operations on values: comparison, arithmetic, truth and rendering.

use vstd::prelude::*;
use crate::error::EngineError;
use crate::text::chars_of;
use crate::value::{
    accepts, arith_spec, compare_spec, decimal, digit_char, fit_integer, fit_real, int_order,
    integer_arith, magnitude, real_arith, render_spec, same_group, scaled, sort_order, text_order,
    round_div, trunc_div, truth_spec, ArithOp, ColumnType, Order, SpecValue, Truth, Value,
};

verus! {

/// The order of two integers.
pub fn order_of(a: i128, b: i128) -> (o: Order)
    ensures
        o == int_order(a as int, b as int),
{
    if a < b {
        Order::Less
    } else if a == b {
        Order::Equal
    } else {
        Order::Greater
    }
}

/// The order of two texts.
pub fn order_text(a: &Vec<char>, b: &Vec<char>) -> (o: Order)
    ensures
        o == text_order(a@, b@),
{
    let mut i: usize = 0;
    assert(a@.skip(0) == a@ && b@.skip(0) == b@);
    while i < a.len() && i < b.len()
        invariant
            i <= a.len(),
            i <= b.len(),
            text_order(a@, b@) == text_order(a@.skip(i as int), b@.skip(i as int)),
        decreases a.len() - i,
    {
        assert(a@.skip(i as int)[0] == a@[i as int] && b@.skip(i as int)[0] == b@[i as int]);
        if a[i] < b[i] {
            return Order::Less;
        }
        if a[i] > b[i] {
            return Order::Greater;
        }
        assert(a@.skip(i as int).drop_first() == a@.skip(i + 1));
        assert(b@.skip(i as int).drop_first() == b@.skip(i + 1));
        i += 1;
    }
    if i < b.len() {
        Order::Less
    } else if i < a.len() {
        Order::Greater
    } else {
        Order::Equal
    }
}

/// A number in thousandths.
pub(crate) fn scale(v: &Value) -> (n: i128)
    requires
        v@ is Integer || v@ is Real,
    ensures
        Some(n as int) == scaled(v@),
{
    match v {
        Value::Integer(i) => (*i as i128) * 1000,
        Value::Real(r) => *r as i128,
        _ => 0,
    }
}

/// How `a` stands to `b`.
pub fn compare(a: &Value, b: &Value) -> (r: Result<Option<Order>, EngineError>)
    ensures
        r == compare_spec(a@, b@),
{
    match (a, b) {
        (Value::Null, _) => Ok(None),
        (_, Value::Null) => Ok(None),
        (Value::Text(s), Value::Text(t)) => {
            let x = chars_of(s.as_str());
            let y = chars_of(t.as_str());
            Ok(Some(order_text(&x, &y)))
        },
        (Value::Text(_), _) => Err(EngineError::TypeMismatch),
        (_, Value::Text(_)) => Err(EngineError::TypeMismatch),
        _ => Ok(Some(order_of(scale(a), scale(b)))),
    }
}

/// Division that rounds toward zero.
pub(crate) fn div_trunc(a: i128, b: i128) -> (q: i128)
    requires
        b != 0,
        -0x4000_0000_0000_0000_0000_0000_0000_0000 <= a <= 0x4000_0000_0000_0000_0000_0000_0000_0000,
        -0x4000_0000_0000_0000_0000_0000_0000_0000 <= b <= 0x4000_0000_0000_0000_0000_0000_0000_0000,
    ensures
        q == trunc_div(a as int, b as int),
{
    let x: u128 = if a >= 0 {
        a as u128
    } else {
        (-a) as u128
    };
    let y: u128 = if b >= 0 {
        b as u128
    } else {
        (-b) as u128
    };
    let q: u128 = x / y;
    assert(q <= x) by (nonlinear_arith)
        requires
            q == x / y,
            y >= 1,
    ;
    if (a >= 0) == (b > 0) {
        q as i128
    } else {
        -(q as i128)
    }
}

/// An integer result, where it fits the type.
pub(crate) fn to_integer(n: i128) -> (r: Result<Value, EngineError>)
    ensures
        r is Ok ==> fit_integer(n as int) == Ok::<SpecValue, EngineError>(r->Ok_0@),
        r is Err ==> fit_integer(n as int) == Err::<SpecValue, EngineError>(r->Err_0),
{
    if n < i64::MIN as i128 || n > i64::MAX as i128 {
        Err(EngineError::TypeMismatch)
    } else {
        Ok(Value::Integer(n as i64))
    }
}

/// A real result in thousandths, where it fits the type.
pub(crate) fn to_real(n: i128) -> (r: Result<Value, EngineError>)
    ensures
        r is Ok ==> fit_real(n as int) == Ok::<SpecValue, EngineError>(r->Ok_0@),
        r is Err ==> fit_real(n as int) == Err::<SpecValue, EngineError>(r->Err_0),
{
    if n < i64::MIN as i128 || n > i64::MAX as i128 {
        Err(EngineError::TypeMismatch)
    } else {
        Ok(Value::Real(n as i64))
    }
}

/// Whether an outcome in executable form is the outcome that the model gives.
pub open spec fn value_result_is(
    r: Result<Value, EngineError>,
    expected: Result<SpecValue, EngineError>,
) -> bool {
    match r {
        Ok(v) => expected == Ok::<SpecValue, EngineError>(v@),
        Err(e) => expected == Err::<SpecValue, EngineError>(e),
    }
}

/// Division that rounds to the nearest integer, a half away from zero.
pub(crate) fn div_round(a: i128, b: i128) -> (q: i128)
    requires
        b != 0,
        -0x4000_0000_0000_0000_0000_0000_0000_0000 <= a <= 0x4000_0000_0000_0000_0000_0000_0000_0000,
        -0x4000_0000_0000_0000_0000_0000_0000_0000 <= b <= 0x4000_0000_0000_0000_0000_0000_0000_0000,
    ensures
        q == round_div(a as int, b as int),
{
    let x: u128 = if a >= 0 {
        a as u128
    } else {
        (-a) as u128
    };
    let y: u128 = if b >= 0 {
        b as u128
    } else {
        (-b) as u128
    };
    let q: u128 = (2 * x + y) / (2 * y);
    assert(q <= x) by (nonlinear_arith)
        requires
            q == (2 * x + y) / (2 * y),
            y >= 1,
            x >= 0,
    ;
    if (a >= 0) == (b > 0) {
        q as i128
    } else {
        -(q as i128)
    }
}

proof fn lemma_mul_thousand(k: int)
    ensures
        round_div(k * 1000, 1000) == k,
{
    if k >= 0 {
        assert((2 * (k * 1000) + 1000) / 2000 == k) by (nonlinear_arith)
            requires
                k >= 0,
        ;
    } else {
        assert((2 * (-(k * 1000)) + 1000) / 2000 == -k) by (nonlinear_arith)
            requires
                k < 0,
        ;
    }
}

proof fn lemma_product_bound(x: int, y: int, bx: int, by_: int)
    requires
        -bx <= x <= bx,
        -by_ <= y <= by_,
    ensures
        -(bx * by_) <= x * y <= bx * by_,
{
    assert(-(bx * by_) <= x * y <= bx * by_) by (nonlinear_arith)
        requires
            -bx <= x <= bx,
            -by_ <= y <= by_,
    ;
}

/// `a op b` on two integers.
fn integer_op(op: ArithOp, x: i64, y: i64) -> (r: Result<Value, EngineError>)
    ensures
        value_result_is(r, integer_arith(op, x as int, y as int)),
{
    let a = x as i128;
    let b = y as i128;
    match op {
        ArithOp::Add => to_integer(a + b),
        ArithOp::Sub => to_integer(a - b),
        ArithOp::Mul => {
            proof {
                lemma_product_bound(a as int, b as int, 0x8000_0000_0000_0000, 0x8000_0000_0000_0000);
            }
            to_integer(a * b)
        },
        ArithOp::Div => {
            if y == 0 {
                Err(EngineError::DivisionByZero)
            } else {
                to_integer(div_trunc(a, b))
            }
        },
    }
}

/// `a * b` where at least one operand is a real.
fn real_product(a: &Value, b: &Value) -> (r: Result<Value, EngineError>)
    requires
        a@ is Integer || a@ is Real,
        b@ is Integer || b@ is Real,
        a@ is Real || b@ is Real,
    ensures
        value_result_is(r, real_arith(ArithOp::Mul, scaled(a@).unwrap(), scaled(b@).unwrap())),
{
    match (a, b) {
        (Value::Integer(i), Value::Real(y)) => {
            proof {
                lemma_product_bound(*i as int, *y as int, 0x8000_0000_0000_0000, 0x8000_0000_0000_0000);
                lemma_mul_thousand(*i * *y);
                assert((*i * 1000) * *y == (*i * *y) * 1000) by (nonlinear_arith);
            }
            to_real((*i as i128) * (*y as i128))
        },
        (Value::Real(x), Value::Integer(j)) => {
            proof {
                lemma_product_bound(*x as int, *j as int, 0x8000_0000_0000_0000, 0x8000_0000_0000_0000);
                lemma_mul_thousand(*x * *j);
                assert(*x * (*j * 1000) == (*x * *j) * 1000) by (nonlinear_arith);
            }
            to_real((*x as i128) * (*j as i128))
        },
        (Value::Real(x), Value::Real(y)) => {
            proof {
                lemma_product_bound(*x as int, *y as int, 0x8000_0000_0000_0000, 0x8000_0000_0000_0000);
            }
            to_real(div_round((*x as i128) * (*y as i128), 1000))
        },
        _ => Err(EngineError::TypeMismatch),
    }
}

/// `a op b`.
pub fn arithmetic(op: ArithOp, a: &Value, b: &Value) -> (r: Result<Value, EngineError>)
    ensures
        value_result_is(r, arith_spec(op, a@, b@)),
{
    match (a, b) {
        (Value::Null, _) => Ok(Value::Null),
        (_, Value::Null) => Ok(Value::Null),
        (Value::Text(_), _) => Err(EngineError::TypeMismatch),
        (_, Value::Text(_)) => Err(EngineError::TypeMismatch),
        (Value::Integer(x), Value::Integer(y)) => integer_op(op, *x, *y),
        _ => {
            let x = scale(a);
            let y = scale(b);
            match op {
                ArithOp::Add => to_real(x + y),
                ArithOp::Sub => to_real(x - y),
                ArithOp::Mul => real_product(a, b),
                ArithOp::Div => {
                    if y == 0 {
                        Err(EngineError::DivisionByZero)
                    } else {
                        to_real(div_round(x * 1000, y))
                    }
                },
            }
        },
    }
}

/// The truth value that a value stands for in a condition.
pub fn truth(v: &Value) -> (r: Result<Truth, EngineError>)
    ensures
        r == truth_spec(v@),
{
    match v {
        Value::Null => Ok(Truth::Unknown),
        Value::Integer(i) => Ok(Truth::from_bool(*i != 0)),
        Value::Real(x) => Ok(Truth::from_bool(*x != 0)),
        Value::Text(_) => Err(EngineError::TypeMismatch),
    }
}

/// Whether two values fall into one group.
pub fn group_equal(a: &Value, b: &Value) -> (r: bool)
    ensures
        r == same_group(a@, b@),
{
    match (a, b) {
        (Value::Null, Value::Null) => true,
        (Value::Null, _) => false,
        (_, Value::Null) => false,
        (Value::Text(s), Value::Text(t)) => *s == *t,
        (Value::Text(_), _) => false,
        (_, Value::Text(_)) => false,
        _ => scale(a) == scale(b),
    }
}

/// The order of two values in a sorted result.
pub fn sort_compare(a: &Value, b: &Value) -> (o: Order)
    ensures
        o == sort_order(a@, b@),
{
    match (a, b) {
        (Value::Null, Value::Null) => Order::Equal,
        (Value::Null, _) => Order::Less,
        (_, Value::Null) => Order::Greater,
        (Value::Text(s), Value::Text(t)) => {
            let x = chars_of(s.as_str());
            let y = chars_of(t.as_str());
            order_text(&x, &y)
        },
        (Value::Text(_), _) => Order::Greater,
        (_, Value::Text(_)) => Order::Less,
        _ => order_of(scale(a), scale(b)),
    }
}

/// Whether a column of type `ty` can hold `v`.
pub fn admits(ty: ColumnType, not_null: bool, v: &Value) -> (r: bool)
    ensures
        r == accepts(ty, not_null, v@),
{
    match v {
        Value::Null => !not_null,
        Value::Integer(_) => ty == ColumnType::Integer || ty == ColumnType::Real,
        Value::Real(_) => ty == ColumnType::Real,
        Value::Text(_) => ty == ColumnType::Text,
    }
}

/// The character of a decimal digit.
fn digit(d: u8) -> (c: char)
    requires
        d < 10,
    ensures
        c == digit_char(d as int),
{
    (48 + d) as char
}

/// Appends `n` in decimal notation.
fn push_decimal(n: u64, out: &mut Vec<char>)
    ensures
        final(out)@ == old(out)@ + decimal(n as nat),
    decreases n,
{
    if n >= 10 {
        push_decimal(n / 10, out);
    }
    out.push(digit((n % 10) as u8));
    assert(out@ =~= old(out)@ + decimal(n as nat));
}

/// Appends every character of `s`.
pub fn push_str(out: &mut Vec<char>, s: &str)
    ensures
        final(out)@ == old(out)@ + s@,
{
    let v = chars_of(s);
    let mut i: usize = 0;
    while i < v.len()
        invariant
            i <= v.len(),
            v@ == s@,
            out@ == old(out)@ + v@.take(i as int),
        decreases v.len() - i,
    {
        out.push(v[i]);
        assert(v@.take(i + 1) == v@.take(i as int).push(v@[i as int]));
        i += 1;
    }
    assert(v@.take(v.len() as int) == v@);
}

/// The magnitude of a 64-bit integer.
fn magnitude_of(i: i64) -> (m: u64)
    ensures
        m == magnitude(i as int),
{
    if i < 0 {
        ((-(i as i128)) as u64)
    } else {
        i as u64
    }
}

/// Appends the field that stands for `v` in a result row.
pub fn render_into(v: &Value, out: &mut Vec<char>)
    ensures
        final(out)@ == old(out)@ + render_spec(v@),
{
    match v {
        Value::Integer(i) => {
            if *i < 0 {
                out.push('-');
            }
            push_decimal(magnitude_of(*i), out);
            assert(out@ =~= old(out)@ + render_spec(v@));
        },
        Value::Real(x) => {
            if *x < 0 {
                out.push('-');
            }
            let m = magnitude_of(*x);
            push_decimal(m / 1000, out);
            let frac = m % 1000;
            out.push('.');
            out.push(digit((frac / 100) as u8));
            out.push(digit(((frac / 10) % 10) as u8));
            out.push(digit((frac % 10) as u8));
            assert(out@ =~= old(out)@ + render_spec(v@));
        },
        Value::Text(s) => {
            push_str(out, s.as_str());
        },
        Value::Null => {
            assert(out@ =~= old(out)@ + Seq::<char>::empty());
        },
    }
}

/// The field that stands for `v` in a result row.
pub fn render(v: &Value) -> (s: String)
    ensures
        s@ == render_spec(v@),
{
    let mut out: Vec<char> = Vec::new();
    render_into(v, &mut out);
    assert(out@ =~= render_spec(v@));
    crate::text::string_of(&out)
}

} // verus!
