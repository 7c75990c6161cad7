//! Grouping of rows by key, and the aggregates over a group.

use vstd::prelude::*;
use crate::ast::lemma_push_view;
use crate::error::EngineError;
use crate::scalar::{
    arithmetic, compare, div_round, group_equal, scale, to_integer, to_real, value_result_is,
};
use crate::storage::clone_row;
use crate::value::{
    arith_spec, compare_spec, fit_integer, real_arith, same_group, scaled, ArithOp, Order,
    SpecValue, Value,
};

verus! {

/// The rows that share a key, in their order, with the key of the first.
#[derive(Debug)]
pub struct Group {
    pub key: Vec<Value>,
    pub rows: Vec<Vec<Value>>,
}

/// The mathematical content of a [`Group`].
pub struct SpecGroup {
    pub key: Seq<SpecValue>,
    pub rows: Seq<Seq<SpecValue>>,
}

impl DeepView for Group {
    type V = SpecGroup;

    open spec fn deep_view(&self) -> SpecGroup {
        SpecGroup { key: self.key.deep_view(), rows: self.rows.deep_view() }
    }
}

/// Whether two keys fall into one group: they have the same length and
/// agree value by value, NULL with NULL.
pub open spec fn same_key(a: Seq<SpecValue>, b: Seq<SpecValue>) -> bool {
    a.len() == b.len() && forall|i: int| 0 <= i < a.len() ==> same_group(#[trigger] a[i], b[i])
}

/// The index of the first group from `from` on with the given key.
pub open spec fn group_from(groups: Seq<SpecGroup>, key: Seq<SpecValue>, from: int) -> Option<int>
    decreases groups.len() - from,
{
    if from < 0 || from >= groups.len() {
        None
    } else if same_key(groups[from].key, key) {
        Some(from)
    } else {
        group_from(groups, key, from + 1)
    }
}

/// The groups with one more row: in the group of its key, or in a new group
/// after the others.
pub open spec fn with_row(groups: Seq<SpecGroup>, key: Seq<SpecValue>, row: Seq<SpecValue>) -> Seq<
    SpecGroup,
> {
    match group_from(groups, key, 0) {
        Some(g) => groups.update(
            g,
            SpecGroup { key: groups[g].key, rows: groups[g].rows.push(row) },
        ),
        None => groups.push(SpecGroup { key, rows: seq![row] }),
    }
}

/// The key of row `i`.
pub open spec fn key_at(keys: Seq<Seq<SpecValue>>, i: int) -> Seq<SpecValue> {
    if 0 <= i < keys.len() {
        keys[i]
    } else {
        Seq::empty()
    }
}

/// The groups after the rows from `from` on have joined `groups`.
pub open spec fn grouped_from(
    rows: Seq<Seq<SpecValue>>,
    keys: Seq<Seq<SpecValue>>,
    groups: Seq<SpecGroup>,
    from: int,
) -> Seq<SpecGroup>
    decreases rows.len() - from,
{
    if from < 0 || from >= rows.len() {
        groups
    } else {
        grouped_from(rows, keys, with_row(groups, key_at(keys, from), rows[from]), from + 1)
    }
}

/// The rows in groups by key: the groups in the order in which their first
/// rows come, the rows of each group in their order.
pub open spec fn grouped(rows: Seq<Seq<SpecValue>>, keys: Seq<Seq<SpecValue>>) -> Seq<SpecGroup> {
    grouped_from(rows, keys, Seq::empty(), 0)
}

/// The aggregate functions.
#[derive(Clone, Copy, PartialEq, Eq, Structural, Debug)]
pub enum Aggregate {
    Count,
    Sum,
    Avg,
    Min,
    Max,
}

/// How many of the values from `from` on are not NULL.
pub open spec fn count_from(values: Seq<SpecValue>, from: int) -> nat
    decreases values.len() - from,
{
    if from < 0 || from >= values.len() {
        0
    } else if values[from] is Null {
        count_from(values, from + 1)
    } else {
        1 + count_from(values, from + 1)
    }
}

/// The sum so far with one more value: NULL adds nothing, the first value
/// must be a number, and each further one is added to the sum.
pub open spec fn sum_step(acc: Option<SpecValue>, v: SpecValue) -> Result<
    Option<SpecValue>,
    EngineError,
> {
    if v is Null {
        Ok(acc)
    } else {
        match arith_spec(
            ArithOp::Add,
            match acc {
                Some(a) => a,
                None => SpecValue::Integer(0),
            },
            v,
        ) {
            Ok(s) => Ok(Some(s)),
            Err(e) => Err(e),
        }
    }
}

/// The sum of `acc` and the values from `from` on that are not NULL; `None`
/// where there is nothing to add.
pub open spec fn sum_from(values: Seq<SpecValue>, acc: Option<SpecValue>, from: int) -> Result<
    Option<SpecValue>,
    EngineError,
>
    decreases values.len() - from,
{
    if from < 0 || from >= values.len() {
        Ok(acc)
    } else {
        match sum_step(acc, values[from]) {
            Ok(next) => sum_from(values, next, from + 1),
            Err(e) => Err(e),
        }
    }
}

/// The least or greatest so far with one more value: NULL changes nothing,
/// and a value replaces the one held where it lies beyond it.
pub open spec fn extreme_step(greatest: bool, acc: Option<SpecValue>, v: SpecValue) -> Result<
    Option<SpecValue>,
    EngineError,
> {
    if v is Null {
        Ok(acc)
    } else {
        match acc {
            None => Ok(Some(v)),
            Some(a) => match compare_spec(v, a) {
                Err(e) => Err(e),
                Ok(o) => if o == Some(
                    if greatest {
                        Order::Greater
                    } else {
                        Order::Less
                    },
                ) {
                    Ok(Some(v))
                } else {
                    Ok(Some(a))
                },
            },
        }
    }
}

/// The least or greatest of `acc` and the values from `from` on that are not
/// NULL.
pub open spec fn extreme_from(
    greatest: bool,
    values: Seq<SpecValue>,
    acc: Option<SpecValue>,
    from: int,
) -> Result<Option<SpecValue>, EngineError>
    decreases values.len() - from,
{
    if from < 0 || from >= values.len() {
        Ok(acc)
    } else {
        match extreme_step(greatest, acc, values[from]) {
            Ok(next) => extreme_from(greatest, values, next, from + 1),
            Err(e) => Err(e),
        }
    }
}

/// What an optional result is as a value: NULL where there is none.
pub open spec fn or_null(v: Option<SpecValue>) -> SpecValue {
    match v {
        Some(x) => x,
        None => SpecValue::Null,
    }
}

/// An aggregate over the values of a group. NULLs are passed over: over no
/// other value the count is 0 and every other aggregate is NULL. The average
/// is a real: the sum divided by the count, rounded to the nearest thousandth.
pub open spec fn aggregate(kind: Aggregate, values: Seq<SpecValue>) -> Result<
    SpecValue,
    EngineError,
> {
    match kind {
        Aggregate::Count => fit_integer(count_from(values, 0) as int),
        Aggregate::Sum => match sum_from(values, None, 0) {
            Ok(s) => Ok(or_null(s)),
            Err(e) => Err(e),
        },
        Aggregate::Avg => match sum_from(values, None, 0) {
            Ok(Some(s)) => if count_from(values, 0) == 0 || scaled(s) is None {
                Ok(SpecValue::Null)
            } else {
                real_arith(ArithOp::Div, scaled(s).unwrap(), count_from(values, 0) as int * 1000)
            },
            Ok(None) => Ok(SpecValue::Null),
            Err(e) => Err(e),
        },
        Aggregate::Min => match extreme_from(false, values, None, 0) {
            Ok(s) => Ok(or_null(s)),
            Err(e) => Err(e),
        },
        Aggregate::Max => match extreme_from(true, values, None, 0) {
            Ok(s) => Ok(or_null(s)),
            Err(e) => Err(e),
        },
    }
}

/// The view of an optional value.
pub open spec fn optional_view(v: Option<Value>) -> Option<SpecValue> {
    match v {
        Some(x) => Some(x@),
        None => None,
    }
}

/// Whether two keys fall into one group.
pub fn keys_match(a: &Vec<Value>, b: &Vec<Value>) -> (r: bool)
    ensures
        r == same_key(a.deep_view(), b.deep_view()),
{
    if a.len() != b.len() {
        return false;
    }
    let mut i: usize = 0;
    while i < a.len()
        invariant
            i <= a.len(),
            a.len() == b.len(),
            forall|j: int|
                0 <= j < i ==> same_group(#[trigger] a.deep_view()[j], b.deep_view()[j]),
        decreases a.len() - i,
    {
        if !group_equal(&a[i], &b[i]) {
            assert(!same_group(a.deep_view()[i as int], b.deep_view()[i as int]));
            return false;
        }
        i += 1;
    }
    true
}

/// The index of the first group with the given key.
fn find_group(groups: &Vec<Group>, key: &Vec<Value>) -> (r: Option<usize>)
    ensures
        match r {
            Some(g) => g < groups.len() && group_from(groups.deep_view(), key.deep_view(), 0)
                == Some(g as int),
            None => group_from(groups.deep_view(), key.deep_view(), 0) is None,
        },
{
    let mut i: usize = 0;
    while i < groups.len()
        invariant
            i <= groups.len(),
            group_from(groups.deep_view(), key.deep_view(), 0) == group_from(
                groups.deep_view(),
                key.deep_view(),
                i as int,
            ),
        decreases groups.len() - i,
    {
        if keys_match(&groups[i].key, key) {
            return Some(i);
        }
        i += 1;
    }
    None
}

/// The rows in groups by key.
pub fn partition(rows: &Vec<Vec<Value>>, keys: &Vec<Vec<Value>>) -> (groups: Vec<Group>)
    ensures
        groups.deep_view() == grouped(rows.deep_view(), keys.deep_view()),
{
    let mut groups: Vec<Group> = Vec::new();
    let mut i: usize = 0;
    assert(groups.deep_view() =~= Seq::<SpecGroup>::empty());
    while i < rows.len()
        invariant
            i <= rows.len(),
            grouped(rows.deep_view(), keys.deep_view()) == grouped_from(
                rows.deep_view(),
                keys.deep_view(),
                groups.deep_view(),
                i as int,
            ),
        decreases rows.len() - i,
    {
        let key = if i < keys.len() {
            clone_row(&keys[i])
        } else {
            let empty: Vec<Value> = Vec::new();
            assert(empty.deep_view() =~= Seq::<SpecValue>::empty());
            empty
        };
        let row = clone_row(&rows[i]);
        let ghost before = groups;
        match find_group(&groups, &key) {
            Some(g) => {
                let mut group = groups.remove(g);
                let ghost held = group.rows;
                group.rows.push(row);
                proof {
                    lemma_push_view(held, group.rows, row);
                }
                groups.insert(g, group);
                assert(groups.deep_view() =~= with_row(
                    before.deep_view(),
                    key.deep_view(),
                    row.deep_view(),
                ));
            },
            None => {
                let mut list: Vec<Vec<Value>> = Vec::new();
                list.push(row);
                assert(list.deep_view() =~= seq![row.deep_view()]);
                let group = Group { key, rows: list };
                groups.push(group);
                proof {
                    lemma_push_view(before, groups, group);
                }
            },
        }
        i += 1;
    }
    groups
}

/// How many of the values are not NULL.
pub fn count_present(values: &Vec<Value>) -> (n: usize)
    ensures
        n == count_from(values.deep_view(), 0),
{
    let mut n: usize = 0;
    let mut i: usize = 0;
    while i < values.len()
        invariant
            i <= values.len(),
            n <= i,
            count_from(values.deep_view(), 0) == n + count_from(values.deep_view(), i as int),
        decreases values.len() - i,
    {
        match &values[i] {
            Value::Null => {},
            _ => {
                n += 1;
            },
        }
        i += 1;
    }
    n
}

/// The sum of the values that are not NULL.
pub fn sum(values: &Vec<Value>) -> (r: Result<Option<Value>, EngineError>)
    ensures
        match r {
            Ok(s) => sum_from(values.deep_view(), None, 0) == Ok::<
                Option<SpecValue>,
                EngineError,
            >(optional_view(s)),
            Err(e) => sum_from(values.deep_view(), None, 0) == Err::<
                Option<SpecValue>,
                EngineError,
            >(e),
        },
{
    let mut acc: Option<Value> = None;
    let mut i: usize = 0;
    while i < values.len()
        invariant
            i <= values.len(),
            sum_from(values.deep_view(), None, 0) == sum_from(
                values.deep_view(),
                optional_view(acc),
                i as int,
            ),
        decreases values.len() - i,
    {
        match &values[i] {
            Value::Null => {},
            v => {
                let zero = Value::Integer(0);
                let r = match &acc {
                    Some(a) => arithmetic(ArithOp::Add, a, v),
                    None => arithmetic(ArithOp::Add, &zero, v),
                };
                match r {
                    Ok(s) => {
                        acc = Some(s);
                    },
                    Err(e) => {
                        return Err(e);
                    },
                }
            },
        }
        i += 1;
    }
    Ok(acc)
}

/// The least or greatest of the values that are not NULL.
pub fn extreme(greatest: bool, values: &Vec<Value>) -> (r: Result<Option<Value>, EngineError>)
    ensures
        match r {
            Ok(s) => extreme_from(greatest, values.deep_view(), None, 0) == Ok::<
                Option<SpecValue>,
                EngineError,
            >(optional_view(s)),
            Err(e) => extreme_from(greatest, values.deep_view(), None, 0) == Err::<
                Option<SpecValue>,
                EngineError,
            >(e),
        },
{
    let mut acc: Option<Value> = None;
    let mut i: usize = 0;
    while i < values.len()
        invariant
            i <= values.len(),
            extreme_from(greatest, values.deep_view(), None, 0) == extreme_from(
                greatest,
                values.deep_view(),
                optional_view(acc),
                i as int,
            ),
        decreases values.len() - i,
    {
        match &values[i] {
            Value::Null => {},
            v => {
                let replace = match &acc {
                    None => true,
                    Some(a) => match compare(v, a) {
                        Err(e) => {
                            return Err(e);
                        },
                        Ok(Some(Order::Greater)) => greatest,
                        Ok(Some(Order::Less)) => !greatest,
                        Ok(_) => false,
                    },
                };
                if replace {
                    acc = Some(v.clone());
                }
            },
        }
        i += 1;
    }
    Ok(acc)
}

/// What an optional result is as a value.
fn value_or_null(v: Option<Value>) -> (r: Value)
    ensures
        r@ == or_null(optional_view(v)),
{
    match v {
        Some(x) => x,
        None => Value::Null,
    }
}

/// An aggregate over the values of a group.
pub fn aggregate_of(kind: Aggregate, values: &Vec<Value>) -> (r: Result<Value, EngineError>)
    ensures
        value_result_is(r, aggregate(kind, values.deep_view())),
{
    match kind {
        Aggregate::Count => to_integer(count_present(values) as i128),
        Aggregate::Sum => match sum(values) {
            Ok(s) => Ok(value_or_null(s)),
            Err(e) => Err(e),
        },
        Aggregate::Avg => match sum(values) {
            Ok(Some(s)) => {
                let n = count_present(values);
                match &s {
                    Value::Integer(_) | Value::Real(_) => {
                        if n == 0 {
                            Ok(Value::Null)
                        } else {
                            to_real(div_round(scale(&s) * 1000, (n as i128) * 1000))
                        }
                    },
                    _ => Ok(Value::Null),
                }
            },
            Ok(None) => Ok(Value::Null),
            Err(e) => Err(e),
        },
        Aggregate::Min => match extreme(false, values) {
            Ok(s) => Ok(value_or_null(s)),
            Err(e) => Err(e),
        },
        Aggregate::Max => match extreme(true, values) {
            Ok(s) => Ok(value_or_null(s)),
            Err(e) => Err(e),
        },
    }
}

} // verus!
