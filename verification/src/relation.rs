//! Operations on rows that evaluate no expression: products, the choice of
//! joined and filtered rows, and the truth values that guide them.

use vstd::prelude::*;
use crate::ast::{lemma_push_view, JoinKind};
use crate::error::EngineError;
use crate::scalar::truth;
use crate::storage::clone_row;
use crate::value::{truth_spec, SpecValue, Truth, Value};

verus! {

/// A row of `n` NULLs.
pub open spec fn nulls(n: nat) -> Seq<SpecValue> {
    Seq::new(n, |i: int| SpecValue::Null)
}

/// The truth values that the values from `from` on stand for; the first
/// value that is no condition fails the whole.
pub open spec fn truths_from(values: Seq<SpecValue>, from: int) -> Result<Seq<Truth>, EngineError>
    decreases values.len() - from,
{
    if from < 0 || from >= values.len() {
        Ok(Seq::empty())
    } else {
        match truth_spec(values[from]) {
            Err(e) => Err(e),
            Ok(t) => match truths_from(values, from + 1) {
                Err(e) => Err(e),
                Ok(rest) => Ok(seq![t] + rest),
            },
        }
    }
}

/// The truth values that a sequence of values stands for.
pub open spec fn truths_of(values: Seq<SpecValue>) -> Result<Seq<Truth>, EngineError> {
    truths_from(values, 0)
}

/// Whether the condition of row `i` is true.
pub open spec fn holds(truths: Seq<Truth>, i: int) -> bool {
    0 <= i < truths.len() && truths[i] == Truth::True
}

/// The rows from `from` on whose condition is true, in their order.
pub open spec fn chosen_from(rows: Seq<Seq<SpecValue>>, truths: Seq<Truth>, from: int) -> Seq<
    Seq<SpecValue>,
>
    decreases rows.len() - from,
{
    if from < 0 || from >= rows.len() {
        Seq::empty()
    } else if holds(truths, from) {
        seq![rows[from]] + chosen_from(rows, truths, from + 1)
    } else {
        chosen_from(rows, truths, from + 1)
    }
}

/// The rows whose condition is true: false and unknown both drop a row.
pub open spec fn chosen(rows: Seq<Seq<SpecValue>>, truths: Seq<Truth>) -> Seq<Seq<SpecValue>> {
    chosen_from(rows, truths, 0)
}

/// `left` followed by each row of `right` from `from` on.
pub open spec fn paired_from(left: Seq<SpecValue>, right: Seq<Seq<SpecValue>>, from: int) -> Seq<
    Seq<SpecValue>,
>
    decreases right.len() - from,
{
    if from < 0 || from >= right.len() {
        Seq::empty()
    } else {
        seq![left + right[from]] + paired_from(left, right, from + 1)
    }
}

/// The Cartesian product of the rows of `left` from `from` on with `right`:
/// the rows of `left` in their order, each with every row of `right` in its
/// order.
pub open spec fn cross_from(left: Seq<Seq<SpecValue>>, right: Seq<Seq<SpecValue>>, from: int) -> Seq<
    Seq<SpecValue>,
>
    decreases left.len() - from,
{
    if from < 0 || from >= left.len() {
        Seq::empty()
    } else {
        paired_from(left[from], right, 0) + cross_from(left, right, from + 1)
    }
}

/// The Cartesian product of two sequences of rows.
pub open spec fn cross(left: Seq<Seq<SpecValue>>, right: Seq<Seq<SpecValue>>) -> Seq<
    Seq<SpecValue>,
> {
    cross_from(left, right, 0)
}

/// The first `n` items, or all where there are fewer.
pub open spec fn head<T>(s: Seq<T>, n: nat) -> Seq<T> {
    if n <= s.len() {
        s.take(n as int)
    } else {
        s
    }
}

/// The items after the first `n`.
pub open spec fn tail<T>(s: Seq<T>, n: nat) -> Seq<T> {
    if n <= s.len() {
        s.skip(n as int)
    } else {
        Seq::empty()
    }
}

/// The rows of a join, for the rows of `left` from `from` on: the rows of the
/// product whose condition is true, and for a left join, for each row of
/// `left` that has none, that row followed by `width` NULLs. `truths` holds
/// the conditions of the rows of the product that are still to come, in the
/// product's order.
pub open spec fn joined_from(
    kind: JoinKind,
    left: Seq<Seq<SpecValue>>,
    right: Seq<Seq<SpecValue>>,
    width: nat,
    truths: Seq<Truth>,
    from: int,
) -> Seq<Seq<SpecValue>>
    decreases left.len() - from,
{
    if from < 0 || from >= left.len() {
        Seq::empty()
    } else {
        let matched = chosen(paired_from(left[from], right, 0), head(truths, right.len()));
        let part = if matched.len() == 0 && kind == JoinKind::Left {
            seq![left[from] + nulls(width)]
        } else {
            matched
        };
        part + joined_from(kind, left, right, width, tail(truths, right.len()), from + 1)
    }
}

/// The rows of an inner or left join.
pub open spec fn joined(
    kind: JoinKind,
    left: Seq<Seq<SpecValue>>,
    right: Seq<Seq<SpecValue>>,
    width: nat,
    truths: Seq<Truth>,
) -> Seq<Seq<SpecValue>> {
    joined_from(kind, left, right, width, truths, 0)
}

/// The first `n` rows, or all where there are fewer.
pub open spec fn limited(rows: Seq<Seq<SpecValue>>, n: Option<u64>) -> Seq<Seq<SpecValue>> {
    match n {
        Some(k) => if k < rows.len() {
            rows.take(k as int)
        } else {
            rows
        },
        None => rows,
    }
}

/// The view of two vectors of rows, one after the other.
pub proof fn lemma_append_view<T: DeepView>(first: Vec<T>, second: Vec<T>, both: Vec<T>)
    requires
        both@ == first@ + second@,
    ensures
        both.deep_view() == first.deep_view() + second.deep_view(),
{
    assert(both.deep_view() =~= first.deep_view() + second.deep_view());
}

/// A row of `n` NULLs.
pub fn null_row(n: usize) -> (row: Vec<Value>)
    ensures
        row.deep_view() == nulls(n as nat),
{
    let mut row: Vec<Value> = Vec::new();
    let mut i: usize = 0;
    while i < n
        invariant
            i <= n,
            row.len() == i,
            forall|j: int| 0 <= j < i ==> (#[trigger] row@[j])@ == SpecValue::Null,
        decreases n - i,
    {
        row.push(Value::Null);
        i += 1;
    }
    assert(row.deep_view() =~= nulls(n as nat));
    row
}

/// The values of `a` followed by those of `b`.
pub fn concat(a: &Vec<Value>, b: &Vec<Value>) -> (row: Vec<Value>)
    ensures
        row.deep_view() == a.deep_view() + b.deep_view(),
{
    let mut row = clone_row(a);
    let mut rest = clone_row(b);
    let ghost first = row;
    let ghost second = rest;
    row.append(&mut rest);
    proof {
        lemma_append_view(first, second, row);
    }
    row
}

/// The truth values that a sequence of values stands for.
pub fn truths(values: &Vec<Value>) -> (r: Result<Vec<Truth>, EngineError>)
    ensures
        match r {
            Ok(t) => truths_of(values.deep_view()) == Ok::<Seq<Truth>, EngineError>(t@),
            Err(e) => truths_of(values.deep_view()) == Err::<Seq<Truth>, EngineError>(e),
        },
{
    let mut out: Vec<Truth> = Vec::new();
    let mut i: usize = 0;
    let ghost model = values.deep_view();
    proof {
        if truths_from(model, 0) is Ok {
            assert(out@ + truths_from(model, 0)->Ok_0 =~= truths_from(model, 0)->Ok_0);
        }
    }
    while i < values.len()
        invariant
            i <= values.len(),
            model == values.deep_view(),
            truths_of(model) == match truths_from(model, i as int) {
                Ok(rest) => Ok::<Seq<Truth>, EngineError>(out@ + rest),
                Err(e) => Err::<Seq<Truth>, EngineError>(e),
            },
        decreases values.len() - i,
    {
        match truth(&values[i]) {
            Err(e) => {
                return Err(e);
            },
            Ok(t) => {
                let ghost before = out@;
                out.push(t);
                proof {
                    let rest = truths_from(model, i + 1);
                    if rest is Ok {
                        assert(before + (seq![t] + rest->Ok_0) =~= out@ + rest->Ok_0);
                    }
                }
            },
        }
        i += 1;
    }
    assert(out@ + Seq::<Truth>::empty() =~= out@);
    Ok(out)
}

/// The rows whose condition is true.
pub fn choose_rows(rows: &Vec<Vec<Value>>, truths: &Vec<Truth>) -> (out: Vec<Vec<Value>>)
    ensures
        out.deep_view() == chosen(rows.deep_view(), truths@),
        out.len() <= rows.len(),
{
    let mut out: Vec<Vec<Value>> = Vec::new();
    let mut i: usize = 0;
    let ghost model = rows.deep_view();
    assert(out.deep_view() + chosen_from(model, truths@, 0) =~= chosen_from(model, truths@, 0));
    while i < rows.len()
        invariant
            i <= rows.len(),
            out.len() <= i,
            model == rows.deep_view(),
            chosen(model, truths@) == out.deep_view() + chosen_from(model, truths@, i as int),
        decreases rows.len() - i,
    {
        if i < truths.len() && truths[i] == Truth::True {
            let ghost before = out;
            let row = clone_row(&rows[i]);
            out.push(row);
            proof {
                lemma_push_view(before, out, row);
                assert(before.deep_view() + (seq![model[i as int]] + chosen_from(
                    model,
                    truths@,
                    i + 1,
                )) =~= out.deep_view() + chosen_from(model, truths@, i + 1));
            }
        }
        i += 1;
    }
    assert(out.deep_view() + Seq::<Seq<SpecValue>>::empty() =~= out.deep_view());
    out
}

/// `left` followed by each row of `right`.
pub fn pairs(left: &Vec<Value>, right: &Vec<Vec<Value>>) -> (out: Vec<Vec<Value>>)
    ensures
        out.deep_view() == paired_from(left.deep_view(), right.deep_view(), 0),
        out.len() == right.len(),
{
    let mut out: Vec<Vec<Value>> = Vec::new();
    let mut i: usize = 0;
    let ghost l = left.deep_view();
    let ghost r = right.deep_view();
    assert(out.deep_view() + paired_from(l, r, 0) =~= paired_from(l, r, 0));
    while i < right.len()
        invariant
            i <= right.len(),
            out.len() == i,
            l == left.deep_view(),
            r == right.deep_view(),
            paired_from(l, r, 0) == out.deep_view() + paired_from(l, r, i as int),
        decreases right.len() - i,
    {
        let ghost before = out;
        let row = concat(left, &right[i]);
        out.push(row);
        proof {
            lemma_push_view(before, out, row);
            assert(before.deep_view() + (seq![l + r[i as int]] + paired_from(l, r, i + 1))
                =~= out.deep_view() + paired_from(l, r, i + 1));
        }
        i += 1;
    }
    assert(out.deep_view() + Seq::<Seq<SpecValue>>::empty() =~= out.deep_view());
    out
}

/// The Cartesian product of two sequences of rows.
pub fn product(left: &Vec<Vec<Value>>, right: &Vec<Vec<Value>>) -> (out: Vec<Vec<Value>>)
    ensures
        out.deep_view() == cross(left.deep_view(), right.deep_view()),
{
    let mut out: Vec<Vec<Value>> = Vec::new();
    let mut i: usize = 0;
    let ghost l = left.deep_view();
    let ghost r = right.deep_view();
    assert(out.deep_view() + cross_from(l, r, 0) =~= cross_from(l, r, 0));
    while i < left.len()
        invariant
            i <= left.len(),
            l == left.deep_view(),
            r == right.deep_view(),
            cross(l, r) == out.deep_view() + cross_from(l, r, i as int),
        decreases left.len() - i,
    {
        let ghost before = out;
        let mut part = pairs(&left[i], right);
        let ghost added = part;
        out.append(&mut part);
        proof {
            lemma_append_view(before, added, out);
            assert(before.deep_view() + (paired_from(l[i as int], r, 0) + cross_from(l, r, i + 1))
                =~= out.deep_view() + cross_from(l, r, i + 1));
        }
        i += 1;
    }
    assert(out.deep_view() + Seq::<Seq<SpecValue>>::empty() =~= out.deep_view());
    out
}

/// The `n` truth values from `from` on, as far as there are any.
fn chunk(truths: &Vec<Truth>, from: usize, n: usize) -> (out: Vec<Truth>)
    requires
        from <= truths.len(),
    ensures
        out@ == head(truths@.skip(from as int), n as nat),
{
    let mut out: Vec<Truth> = Vec::new();
    let count = if n <= truths.len() - from {
        n
    } else {
        truths.len() - from
    };
    let mut i: usize = 0;
    while i < count
        invariant
            i <= count,
            from + count <= truths.len(),
            out@ == truths@.skip(from as int).take(i as int),
        decreases count - i,
    {
        out.push(truths[from + i]);
        assert(truths@.skip(from as int).take(i + 1) =~= truths@.skip(from as int).take(
            i as int,
        ).push(truths@[from + i]));
        i += 1;
    }
    assert(out@ =~= head(truths@.skip(from as int), n as nat));
    out
}

/// The rows of an inner or left join.
pub fn join(
    kind: JoinKind,
    left: &Vec<Vec<Value>>,
    right: &Vec<Vec<Value>>,
    width: usize,
    truths: &Vec<Truth>,
) -> (out: Vec<Vec<Value>>)
    ensures
        out.deep_view() == joined(
            kind,
            left.deep_view(),
            right.deep_view(),
            width as nat,
            truths@,
        ),
{
    let mut out: Vec<Vec<Value>> = Vec::new();
    let mut i: usize = 0;
    let mut k: usize = 0;
    let ghost l = left.deep_view();
    let ghost r = right.deep_view();
    let n = right.len();
    assert(truths@.skip(0) =~= truths@);
    assert(out.deep_view() + joined_from(kind, l, r, width as nat, truths@, 0) =~= joined_from(
        kind,
        l,
        r,
        width as nat,
        truths@,
        0,
    ));
    while i < left.len()
        invariant
            i <= left.len(),
            k <= truths.len(),
            n == right.len(),
            l == left.deep_view(),
            r == right.deep_view(),
            joined(kind, l, r, width as nat, truths@) == out.deep_view() + joined_from(
                kind,
                l,
                r,
                width as nat,
                truths@.skip(k as int),
                i as int,
            ),
        decreases left.len() - i,
    {
        let ghost before = out;
        let candidates = pairs(&left[i], right);
        let part_truths = chunk(truths, k, n);
        let matched = choose_rows(&candidates, &part_truths);
        let mut part = if matched.len() == 0 && kind == JoinKind::Left {
            let row = concat(&left[i], &null_row(width));
            let mut one: Vec<Vec<Value>> = Vec::new();
            one.push(row);
            assert(one.deep_view() =~= seq![l[i as int] + nulls(width as nat)]);
            one
        } else {
            matched
        };
        let ghost added = part;
        out.append(&mut part);
        let next = if n <= truths.len() - k {
            k + n
        } else {
            truths.len()
        };
        proof {
            lemma_append_view(before, added, out);
            assert(tail(truths@.skip(k as int), n as nat) =~= truths@.skip(next as int));
            assert(before.deep_view() + (added.deep_view() + joined_from(
                kind,
                l,
                r,
                width as nat,
                truths@.skip(next as int),
                i + 1,
            )) =~= out.deep_view() + joined_from(
                kind,
                l,
                r,
                width as nat,
                truths@.skip(next as int),
                i + 1,
            ));
        }
        k = next;
        i += 1;
    }
    assert(out.deep_view() + Seq::<Seq<SpecValue>>::empty() =~= out.deep_view());
    out
}

/// The first `n` rows, or all where there are fewer.
pub fn limit(rows: Vec<Vec<Value>>, n: Option<u64>) -> (out: Vec<Vec<Value>>)
    ensures
        out.deep_view() == limited(rows.deep_view(), n),
{
    let mut rows = rows;
    match n {
        Some(k) => {
            if k < rows.len() as u64 {
                let ghost before = rows;
                rows.truncate(k as usize);
                assert(rows.deep_view() =~= before.deep_view().take(k as int));
            }
        },
        None => {},
    }
    rows
}

} // verus!
