//! The built-in functions, resolved by name, and the test of membership.

use vstd::prelude::*;
use crate::error::EngineError;
use crate::group::Aggregate;
use crate::scalar::{compare, render_into, to_integer, to_real, value_result_is};
use crate::text::{
    chars_of, is_text, lower, lower_range, lower_text, string_of, to_lower, to_upper, upper,
    upper_text,
};
use crate::value::{
    compare_spec, fit_integer, fit_real, magnitude, render_spec, Order, SpecValue, Truth, Value,
};

verus! {

/// A built-in function.
#[derive(Clone, Copy, PartialEq, Eq, Structural, Debug)]
pub enum Function {
    Abs,
    Coalesce,
    Length,
    Upper,
    Lower,
    Aggregate(Aggregate),
}

/// The function that a name stands for, whatever its case.
pub open spec fn function_named(name: Seq<char>) -> Option<Function> {
    let w = lower_text(name);
    if w == "abs"@ {
        Some(Function::Abs)
    } else if w == "coalesce"@ {
        Some(Function::Coalesce)
    } else if w == "length"@ {
        Some(Function::Length)
    } else if w == "upper"@ {
        Some(Function::Upper)
    } else if w == "lower"@ {
        Some(Function::Lower)
    } else if w == "count"@ {
        Some(Function::Aggregate(Aggregate::Count))
    } else if w == "sum"@ {
        Some(Function::Aggregate(Aggregate::Sum))
    } else if w == "avg"@ {
        Some(Function::Aggregate(Aggregate::Avg))
    } else if w == "min"@ {
        Some(Function::Aggregate(Aggregate::Min))
    } else if w == "max"@ {
        Some(Function::Aggregate(Aggregate::Max))
    } else {
        None
    }
}

/// The first value from `from` on that is not NULL, or NULL.
pub open spec fn first_present(values: Seq<SpecValue>, from: int) -> SpecValue
    decreases values.len() - from,
{
    if from < 0 || from >= values.len() {
        SpecValue::Null
    } else if values[from] is Null {
        first_present(values, from + 1)
    } else {
        values[from]
    }
}

/// A text with each character in upper case, or each in lower case.
pub open spec fn cased(upper_case: bool, s: Seq<char>) -> Seq<char> {
    if upper_case {
        upper_text(s)
    } else {
        lower_text(s)
    }
}

/// A scalar function applied to the values of its arguments. `ABS`,
/// `LENGTH`, `UPPER` and `LOWER` take one argument and give NULL for NULL;
/// `LENGTH`, `UPPER` and `LOWER` take a number by its text. `COALESCE` takes
/// one argument or more and gives the first that is not NULL. Another number
/// of arguments is no function of that name.
pub open spec fn apply_spec(f: Function, values: Seq<SpecValue>) -> Result<
    SpecValue,
    EngineError,
> {
    match f {
        Function::Aggregate(_) => Err(EngineError::AggregateMisuse),
        Function::Coalesce => if values.len() == 0 {
            Err(EngineError::UnknownFunction)
        } else {
            Ok(first_present(values, 0))
        },
        _ => if values.len() != 1 {
            Err(EngineError::UnknownFunction)
        } else if values[0] is Null {
            Ok(SpecValue::Null)
        } else {
            match f {
                Function::Abs => match values[0] {
                    SpecValue::Integer(i) => fit_integer(magnitude(i as int) as int),
                    SpecValue::Real(r) => fit_real(magnitude(r as int) as int),
                    _ => Err(EngineError::TypeMismatch),
                },
                Function::Length => fit_integer(render_spec(values[0]).len() as int),
                Function::Upper => Ok(SpecValue::Text(cased(true, render_spec(values[0])))),
                _ => Ok(SpecValue::Text(cased(false, render_spec(values[0])))),
            }
        },
    }
}

/// Whether `v` is among the values from `from` on: true where one equals it;
/// else unknown where a comparison was unknown, before `from` (`unknown`) or
/// after; else false. Values that cannot be compared fail the test.
pub open spec fn member_from(v: SpecValue, values: Seq<SpecValue>, unknown: bool, from: int) -> Result<
    Truth,
    EngineError,
>
    decreases values.len() - from,
{
    if from < 0 || from >= values.len() {
        if unknown {
            Ok(Truth::Unknown)
        } else {
            Ok(Truth::False)
        }
    } else {
        match compare_spec(v, values[from]) {
            Err(e) => Err(e),
            Ok(Some(Order::Equal)) => Ok(Truth::True),
            Ok(o) => member_from(v, values, unknown || o is None, from + 1),
        }
    }
}

/// Whether `v` is among the values.
pub open spec fn member(v: SpecValue, values: Seq<SpecValue>) -> Result<Truth, EngineError> {
    member_from(v, values, false, 0)
}

/// The function that a name stands for.
pub fn lookup(name: &str) -> (f: Option<Function>)
    ensures
        f == function_named(name@),
{
    let v = chars_of(name);
    let w = lower_range(&v, 0, v.len());
    assert(v@.subrange(0, v.len() as int) =~= v@);
    if is_text(&w, "abs") {
        Some(Function::Abs)
    } else if is_text(&w, "coalesce") {
        Some(Function::Coalesce)
    } else if is_text(&w, "length") {
        Some(Function::Length)
    } else if is_text(&w, "upper") {
        Some(Function::Upper)
    } else if is_text(&w, "lower") {
        Some(Function::Lower)
    } else if is_text(&w, "count") {
        Some(Function::Aggregate(Aggregate::Count))
    } else if is_text(&w, "sum") {
        Some(Function::Aggregate(Aggregate::Sum))
    } else if is_text(&w, "avg") {
        Some(Function::Aggregate(Aggregate::Avg))
    } else if is_text(&w, "min") {
        Some(Function::Aggregate(Aggregate::Min))
    } else if is_text(&w, "max") {
        Some(Function::Aggregate(Aggregate::Max))
    } else {
        None
    }
}

/// The text of a value in upper or lower case.
fn cased_text(upper_case: bool, v: &Value) -> (s: String)
    ensures
        s@ == cased(upper_case, render_spec(v@)),
{
    let mut text: Vec<char> = Vec::new();
    render_into(v, &mut text);
    assert(text@ =~= render_spec(v@));
    let mut out: Vec<char> = Vec::new();
    let mut i: usize = 0;
    while i < text.len()
        invariant
            i <= text.len(),
            out.len() == i,
            forall|j: int|
                0 <= j < i ==> #[trigger] out@[j] == if upper_case {
                    upper(text@[j])
                } else {
                    lower(text@[j])
                },
        decreases text.len() - i,
    {
        let c = if upper_case {
            to_upper(text[i])
        } else {
            to_lower(text[i])
        };
        out.push(c);
        i += 1;
    }
    assert(out@ =~= cased(upper_case, text@));
    string_of(&out)
}

/// The magnitude of a 64-bit integer.
fn magnitude_wide(i: i64) -> (m: i128)
    ensures
        m == magnitude(i as int),
{
    if i < 0 {
        -(i as i128)
    } else {
        i as i128
    }
}

/// A scalar function applied to the values of its arguments.
pub fn apply(f: Function, values: &Vec<Value>) -> (r: Result<Value, EngineError>)
    ensures
        value_result_is(r, apply_spec(f, values.deep_view())),
{
    match f {
        Function::Aggregate(_) => Err(EngineError::AggregateMisuse),
        Function::Coalesce => {
            if values.len() == 0 {
                return Err(EngineError::UnknownFunction);
            }
            let mut i: usize = 0;
            while i < values.len()
                invariant
                    i <= values.len(),
                    f == Function::Coalesce,
                    values.len() > 0,
                    first_present(values.deep_view(), 0) == first_present(
                        values.deep_view(),
                        i as int,
                    ),
                decreases values.len() - i,
            {
                match &values[i] {
                    Value::Null => {},
                    v => {
                        assert(values.deep_view()[i as int] == v@);
                        return Ok(v.clone());
                    },
                }
                i += 1;
            }
            Ok(Value::Null)
        },
        _ => {
            if values.len() != 1 {
                return Err(EngineError::UnknownFunction);
            }
            let v = &values[0];
            assert(values.deep_view()[0] == v@);
            match v {
                Value::Null => Ok(Value::Null),
                _ => match f {
                    Function::Abs => match v {
                        Value::Integer(i) => to_integer(magnitude_wide(*i)),
                        Value::Real(x) => to_real(magnitude_wide(*x)),
                        _ => Err(EngineError::TypeMismatch),
                    },
                    Function::Length => {
                        let mut text: Vec<char> = Vec::new();
                        render_into(v, &mut text);
                        assert(text@ =~= render_spec(v@));
                        to_integer(text.len() as i128)
                    },
                    Function::Upper => Ok(Value::Text(cased_text(true, v))),
                    _ => Ok(Value::Text(cased_text(false, v))),
                },
            }
        },
    }
}

/// Whether `v` is among the values.
pub fn is_member(v: &Value, values: &Vec<Value>) -> (r: Result<Truth, EngineError>)
    ensures
        r == member(v@, values.deep_view()),
{
    let mut unknown = false;
    let mut i: usize = 0;
    while i < values.len()
        invariant
            i <= values.len(),
            member(v@, values.deep_view()) == member_from(
                v@,
                values.deep_view(),
                unknown,
                i as int,
            ),
        decreases values.len() - i,
    {
        match compare(v, &values[i]) {
            Err(e) => {
                return Err(e);
            },
            Ok(Some(Order::Equal)) => {
                return Ok(Truth::True);
            },
            Ok(None) => {
                unknown = true;
            },
            Ok(_) => {},
        }
        i += 1;
    }
    if unknown {
        Ok(Truth::Unknown)
    } else {
        Ok(Truth::False)
    }
}

} // verus!
