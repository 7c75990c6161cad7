//! The scalar domain: integers, reals, text and NULL, with three-valued
//! logic, numeric coercion and the textual form of each value.
//!
//! A real is a decimal fixed-point number with three fractional digits, held
//! as its count of thousandths: `Real(1500)` is 1.5. A product, a quotient
//! and a literal with more digits are rounded to the nearest thousandth, a
//! half away from zero.

use vstd::prelude::*;
use crate::error::EngineError;

verus! {

/// Thousandths in one unit: the scale of a real.
pub const SCALE: i64 = 1000;

/// A scalar of the engine.
#[derive(Debug, PartialEq, Eq)]
pub enum Value {
    Integer(i64),
    /// A real, as its count of thousandths.
    Real(i64),
    Text(String),
    Null,
}

/// The mathematical content of a [`Value`].
pub enum SpecValue {
    Integer(i64),
    Real(i64),
    Text(Seq<char>),
    Null,
}

impl View for Value {
    type V = SpecValue;

    open spec fn view(&self) -> SpecValue {
        match self {
            Value::Integer(i) => SpecValue::Integer(*i),
            Value::Real(r) => SpecValue::Real(*r),
            Value::Text(s) => SpecValue::Text(s@),
            Value::Null => SpecValue::Null,
        }
    }
}

impl DeepView for Value {
    type V = SpecValue;

    open spec fn deep_view(&self) -> SpecValue {
        self@
    }
}

impl Clone for Value {
    fn clone(&self) -> (r: Value)
        ensures
            r == *self,
    {
        match self {
            Value::Integer(i) => Value::Integer(*i),
            Value::Real(x) => Value::Real(*x),
            Value::Text(s) => Value::Text(s.clone()),
            Value::Null => Value::Null,
        }
    }
}

/// A truth value of three-valued logic.
#[derive(Clone, Copy, PartialEq, Eq, Structural, Debug)]
pub enum Truth {
    True,
    False,
    Unknown,
}

/// How one value stands to another.
#[derive(Clone, Copy, PartialEq, Eq, Structural, Debug)]
pub enum Order {
    Less,
    Equal,
    Greater,
}

/// The declared type of a column.
#[derive(Clone, Copy, PartialEq, Eq, Structural, Debug)]
pub enum ColumnType {
    Integer,
    Real,
    Text,
}

/// The four operations of arithmetic.
#[derive(Clone, Copy, PartialEq, Eq, Structural, Debug)]
pub enum ArithOp {
    Add,
    Sub,
    Mul,
    Div,
}

impl Truth {
    /// Conjunction: false wins over unknown, unknown over true.
    pub open spec fn and_spec(self, other: Truth) -> Truth {
        if self == Truth::False || other == Truth::False {
            Truth::False
        } else if self == Truth::True && other == Truth::True {
            Truth::True
        } else {
            Truth::Unknown
        }
    }

    /// Disjunction: true wins over unknown, unknown over false.
    pub open spec fn or_spec(self, other: Truth) -> Truth {
        if self == Truth::True || other == Truth::True {
            Truth::True
        } else if self == Truth::False && other == Truth::False {
            Truth::False
        } else {
            Truth::Unknown
        }
    }

    /// Negation: unknown stays unknown.
    pub open spec fn not_spec(self) -> Truth {
        match self {
            Truth::True => Truth::False,
            Truth::False => Truth::True,
            Truth::Unknown => Truth::Unknown,
        }
    }

    /// The value that stands for a truth value: 1, 0 or NULL.
    pub open spec fn value_spec(self) -> SpecValue {
        match self {
            Truth::True => SpecValue::Integer(1),
            Truth::False => SpecValue::Integer(0),
            Truth::Unknown => SpecValue::Null,
        }
    }

    /// Conjunction: false wins over unknown, unknown over true.
    pub fn and(self, other: Truth) -> (r: Truth)
        ensures
            r == self.and_spec(other),
    {
        match (self, other) {
            (Truth::False, _) => Truth::False,
            (_, Truth::False) => Truth::False,
            (Truth::True, Truth::True) => Truth::True,
            _ => Truth::Unknown,
        }
    }

    /// Disjunction: true wins over unknown, unknown over false.
    pub fn or(self, other: Truth) -> (r: Truth)
        ensures
            r == self.or_spec(other),
    {
        match (self, other) {
            (Truth::True, _) => Truth::True,
            (_, Truth::True) => Truth::True,
            (Truth::False, Truth::False) => Truth::False,
            _ => Truth::Unknown,
        }
    }

    /// Negation: unknown stays unknown.
    pub fn not(self) -> (r: Truth)
        ensures
            r == self.not_spec(),
    {
        match self {
            Truth::True => Truth::False,
            Truth::False => Truth::True,
            Truth::Unknown => Truth::Unknown,
        }
    }

    /// The value that stands for this truth value.
    pub fn to_value(self) -> (v: Value)
        ensures
            v@ == self.value_spec(),
    {
        match self {
            Truth::True => Value::Integer(1),
            Truth::False => Value::Integer(0),
            Truth::Unknown => Value::Null,
        }
    }

    /// A truth value from a test's outcome.
    pub fn from_bool(b: bool) -> (t: Truth)
        ensures
            t == Truth::of(b),
    {
        if b {
            Truth::True
        } else {
            Truth::False
        }
    }

    /// The truth value of a test that is either true or false.
    pub open spec fn of(b: bool) -> Truth {
        if b {
            Truth::True
        } else {
            Truth::False
        }
    }
}

/// The order of two integers.
pub open spec fn int_order(a: int, b: int) -> Order {
    if a < b {
        Order::Less
    } else if a == b {
        Order::Equal
    } else {
        Order::Greater
    }
}

/// The order of two texts: by the first character in which they differ, a
/// proper prefix before the longer text.
pub open spec fn text_order(a: Seq<char>, b: Seq<char>) -> Order
    decreases a.len(),
{
    if a.len() == 0 {
        if b.len() == 0 {
            Order::Equal
        } else {
            Order::Less
        }
    } else if b.len() == 0 {
        Order::Greater
    } else if a[0] < b[0] {
        Order::Less
    } else if a[0] > b[0] {
        Order::Greater
    } else {
        text_order(a.drop_first(), b.drop_first())
    }
}

/// A number in thousandths, or `None` for text and NULL.
pub open spec fn scaled(v: SpecValue) -> Option<int> {
    match v {
        SpecValue::Integer(i) => Some(i * 1000),
        SpecValue::Real(r) => Some(r as int),
        _ => None,
    }
}

/// How `a` stands to `b`: unknown (`None`) where either is NULL; numbers by
/// their numeric value, whatever their types; texts character by character.
/// A number and a text have no order.
pub open spec fn compare_spec(a: SpecValue, b: SpecValue) -> Result<Option<Order>, EngineError> {
    if a is Null || b is Null {
        Ok(None)
    } else if a is Text && b is Text {
        Ok(Some(text_order(a->Text_0, b->Text_0)))
    } else if a is Text || b is Text {
        Err(EngineError::TypeMismatch)
    } else {
        Ok(Some(int_order(scaled(a).unwrap(), scaled(b).unwrap())))
    }
}

/// Division that rounds toward zero.
pub open spec fn trunc_div(a: int, b: int) -> int
    recommends
        b != 0,
{
    if a >= 0 {
        if b > 0 {
            a / b
        } else {
            -(a / (-b))
        }
    } else {
        if b > 0 {
            -((-a) / b)
        } else {
            (-a) / (-b)
        }
    }
}

/// The magnitude of an integer.
pub open spec fn magnitude(i: int) -> nat {
    if i < 0 {
        (-i) as nat
    } else {
        i as nat
    }
}

/// Division that rounds to the nearest integer, a half away from zero.
pub open spec fn round_div(a: int, b: int) -> int
    recommends
        b != 0,
{
    let q = ((2 * magnitude(a) + magnitude(b)) / (2 * magnitude(b))) as int;
    if (a >= 0) == (b > 0) {
        q
    } else {
        -q
    }
}

/// An integer result, where it fits the type.
pub open spec fn fit_integer(n: int) -> Result<SpecValue, EngineError> {
    if i64::MIN <= n <= i64::MAX {
        Ok(SpecValue::Integer(n as i64))
    } else {
        Err(EngineError::TypeMismatch)
    }
}

/// A real result in thousandths, where it fits the type.
pub open spec fn fit_real(n: int) -> Result<SpecValue, EngineError> {
    if i64::MIN <= n <= i64::MAX {
        Ok(SpecValue::Real(n as i64))
    } else {
        Err(EngineError::TypeMismatch)
    }
}

/// Arithmetic on two numbers given in thousandths, with a real result.
pub open spec fn real_arith(op: ArithOp, x: int, y: int) -> Result<SpecValue, EngineError> {
    match op {
        ArithOp::Add => fit_real(x + y),
        ArithOp::Sub => fit_real(x - y),
        ArithOp::Mul => fit_real(round_div(x * y, 1000)),
        ArithOp::Div => if y == 0 {
            Err(EngineError::DivisionByZero)
        } else {
            fit_real(round_div(x * 1000, y))
        },
    }
}

/// Arithmetic on two integers, with an integer result.
pub open spec fn integer_arith(op: ArithOp, x: int, y: int) -> Result<SpecValue, EngineError> {
    match op {
        ArithOp::Add => fit_integer(x + y),
        ArithOp::Sub => fit_integer(x - y),
        ArithOp::Mul => fit_integer(x * y),
        ArithOp::Div => if y == 0 {
            Err(EngineError::DivisionByZero)
        } else {
            fit_integer(trunc_div(x, y))
        },
    }
}

/// `a op b`: NULL where either operand is NULL; no arithmetic on text; an
/// integer where both are integers and a real otherwise. A zero divisor and a
/// result outside the type's range are errors.
pub open spec fn arith_spec(op: ArithOp, a: SpecValue, b: SpecValue) -> Result<
    SpecValue,
    EngineError,
> {
    if a is Null || b is Null {
        Ok(SpecValue::Null)
    } else if a is Text || b is Text {
        Err(EngineError::TypeMismatch)
    } else if a is Integer && b is Integer {
        integer_arith(op, a->Integer_0 as int, b->Integer_0 as int)
    } else {
        real_arith(op, scaled(a).unwrap(), scaled(b).unwrap())
    }
}

/// The truth value that a value stands for in a condition: NULL is unknown,
/// zero is false, any other number is true, and text is no condition.
pub open spec fn truth_spec(v: SpecValue) -> Result<Truth, EngineError> {
    match v {
        SpecValue::Null => Ok(Truth::Unknown),
        SpecValue::Integer(i) => Ok(Truth::of(i != 0)),
        SpecValue::Real(r) => Ok(Truth::of(r != 0)),
        SpecValue::Text(_) => Err(EngineError::TypeMismatch),
    }
}

/// Whether two values fall into one group: NULL with NULL, numbers by their
/// numeric value, texts by their characters.
pub open spec fn same_group(a: SpecValue, b: SpecValue) -> bool {
    if a is Null || b is Null {
        a is Null && b is Null
    } else if a is Text || b is Text {
        a is Text && b is Text && a->Text_0 == b->Text_0
    } else {
        scaled(a) == scaled(b)
    }
}

/// The class of a value in a sorted result: NULL first, then numbers, then
/// text.
pub open spec fn sort_rank(v: SpecValue) -> int {
    match v {
        SpecValue::Null => 0,
        SpecValue::Integer(_) => 1,
        SpecValue::Real(_) => 1,
        SpecValue::Text(_) => 2,
    }
}

/// The total order by which results are sorted.
pub open spec fn sort_order(a: SpecValue, b: SpecValue) -> Order {
    if sort_rank(a) != sort_rank(b) {
        int_order(sort_rank(a), sort_rank(b))
    } else if a is Null {
        Order::Equal
    } else if a is Text {
        text_order(a->Text_0, b->Text_0)
    } else {
        int_order(scaled(a).unwrap(), scaled(b).unwrap())
    }
}

/// Whether a column of type `ty` can hold `v`: NULL unless the column forbids
/// it, an integer in an integer or real column, a real in a real column, a
/// text in a text column.
pub open spec fn accepts(ty: ColumnType, not_null: bool, v: SpecValue) -> bool {
    match v {
        SpecValue::Null => !not_null,
        SpecValue::Integer(_) => ty == ColumnType::Integer || ty == ColumnType::Real,
        SpecValue::Real(_) => ty == ColumnType::Real,
        SpecValue::Text(_) => ty == ColumnType::Text,
    }
}

/// The character of a decimal digit.
pub open spec fn digit_char(d: int) -> char
    recommends
        0 <= d < 10,
{
    ((48 + d) as u8) as char
}

/// A natural number in decimal notation, without leading zeros.
pub open spec fn decimal(n: nat) -> Seq<char>
    decreases n,
{
    if n < 10 {
        seq![digit_char(n as int)]
    } else {
        decimal(n / 10).push(digit_char((n % 10) as int))
    }
}

/// A minus sign for a negative number, nothing otherwise.
pub open spec fn sign_text(i: int) -> Seq<char> {
    if i < 0 {
        seq!['-']
    } else {
        Seq::empty()
    }
}

/// An integer in decimal notation.
pub open spec fn integer_text(i: int) -> Seq<char> {
    sign_text(i) + decimal(magnitude(i))
}

/// A real, given in thousandths, with exactly three fractional digits.
pub open spec fn real_text(m: int) -> Seq<char> {
    let frac = (magnitude(m) % 1000) as int;
    sign_text(m) + decimal(magnitude(m) / 1000) + seq![
        '.',
        digit_char(frac / 100),
        digit_char((frac / 10) % 10),
        digit_char(frac % 10),
    ]
}

/// The field that stands for a value in a result row: an integer in decimal,
/// a real with three fractional digits, a text as it is, NULL as nothing.
pub open spec fn render_spec(v: SpecValue) -> Seq<char> {
    match v {
        SpecValue::Integer(i) => integer_text(i as int),
        SpecValue::Real(r) => real_text(r as int),
        SpecValue::Text(s) => s,
        SpecValue::Null => Seq::empty(),
    }
}

} // verus!
