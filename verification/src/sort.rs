//! The stable sort of result rows by their keys.

use vstd::prelude::*;
use crate::scalar::sort_compare;
use crate::storage::clone_row;
use crate::value::{sort_order, Order, SpecValue, Value};

verus! {

/// A result row with the values of its sort keys.
#[derive(Debug)]
pub struct Keyed {
    pub keys: Vec<Value>,
    pub row: Vec<Value>,
}

/// The mathematical content of a [`Keyed`].
pub struct SpecKeyed {
    pub keys: Seq<SpecValue>,
    pub row: Seq<SpecValue>,
}

impl DeepView for Keyed {
    type V = SpecKeyed;

    open spec fn deep_view(&self) -> SpecKeyed {
        SpecKeyed { keys: self.keys.deep_view(), row: self.row.deep_view() }
    }
}

/// An order turned round.
pub open spec fn flipped(o: Order) -> Order {
    match o {
        Order::Less => Order::Greater,
        Order::Equal => Order::Equal,
        Order::Greater => Order::Less,
    }
}

/// Whether key `i` sorts from the greatest down.
pub open spec fn descends(descending: Seq<bool>, i: int) -> bool {
    0 <= i < descending.len() && descending[i]
}

/// The order of two rows by their keys from `from` on: the first key in
/// which they differ decides, turned round where that key descends.
pub open spec fn key_order(
    a: Seq<SpecValue>,
    b: Seq<SpecValue>,
    descending: Seq<bool>,
    from: int,
) -> Order
    decreases a.len() - from,
{
    if from < 0 || from >= a.len() || from >= b.len() {
        Order::Equal
    } else if sort_order(a[from], b[from]) == Order::Equal {
        key_order(a, b, descending, from + 1)
    } else if descends(descending, from) {
        flipped(sort_order(a[from], b[from]))
    } else {
        sort_order(a[from], b[from])
    }
}

/// Where `x` goes among sorted rows, looking from `from` on: before the first
/// row that it precedes, so after every row with equal keys.
pub open spec fn place_from(sorted: Seq<SpecKeyed>, x: SpecKeyed, descending: Seq<bool>, from: int) -> int
    decreases sorted.len() - from,
{
    if from < 0 || from >= sorted.len() {
        sorted.len() as int
    } else if key_order(x.keys, sorted[from].keys, descending, 0) == Order::Less {
        from
    } else {
        place_from(sorted, x, descending, from + 1)
    }
}

/// The sorted rows after the rows from `from` on have been put in their
/// places, one after the other.
pub open spec fn sorted_from(
    items: Seq<SpecKeyed>,
    descending: Seq<bool>,
    sorted: Seq<SpecKeyed>,
    from: int,
) -> Seq<SpecKeyed>
    decreases items.len() - from,
{
    if from < 0 || from >= items.len() {
        sorted
    } else {
        sorted_from(
            items,
            descending,
            sorted.insert(place_from(sorted, items[from], descending, 0), items[from]),
            from + 1,
        )
    }
}

/// The rows in the order of their keys; rows with equal keys keep the order
/// in which they came.
pub open spec fn sorted(items: Seq<SpecKeyed>, descending: Seq<bool>) -> Seq<SpecKeyed> {
    sorted_from(items, descending, Seq::empty(), 0)
}

/// The rows without their keys.
pub open spec fn rows_of(items: Seq<SpecKeyed>) -> Seq<Seq<SpecValue>> {
    Seq::new(items.len(), |i: int| items[i].row)
}

/// The place of an insertion is within the sequence.
pub proof fn lemma_place_bounds(
    sorted: Seq<SpecKeyed>,
    x: SpecKeyed,
    descending: Seq<bool>,
    from: int,
)
    requires
        0 <= from <= sorted.len(),
    ensures
        from <= place_from(sorted, x, descending, from) <= sorted.len(),
    decreases sorted.len() - from,
{
    if from < sorted.len() {
        lemma_place_bounds(sorted, x, descending, from + 1);
    }
}

/// The order of two rows by their keys.
pub fn order_keys(a: &Vec<Value>, b: &Vec<Value>, descending: &Vec<bool>) -> (o: Order)
    ensures
        o == key_order(a.deep_view(), b.deep_view(), descending@, 0),
{
    let mut i: usize = 0;
    while i < a.len() && i < b.len()
        invariant
            i <= a.len(),
            i <= b.len(),
            key_order(a.deep_view(), b.deep_view(), descending@, 0) == key_order(
                a.deep_view(),
                b.deep_view(),
                descending@,
                i as int,
            ),
        decreases a.len() - i,
    {
        let o = sort_compare(&a[i], &b[i]);
        match o {
            Order::Equal => {},
            _ => {
                if i < descending.len() && descending[i] {
                    return match o {
                        Order::Less => Order::Greater,
                        _ => Order::Less,
                    };
                } else {
                    return o;
                }
            },
        }
        i += 1;
    }
    Order::Equal
}

/// The rows in the order of their keys.
pub fn sort_rows(items: &Vec<Keyed>, descending: &Vec<bool>) -> (out: Vec<Keyed>)
    ensures
        out.deep_view() == sorted(items.deep_view(), descending@),
{
    let mut out: Vec<Keyed> = Vec::new();
    let mut i: usize = 0;
    assert(out.deep_view() =~= Seq::<SpecKeyed>::empty());
    while i < items.len()
        invariant
            i <= items.len(),
            sorted(items.deep_view(), descending@) == sorted_from(
                items.deep_view(),
                descending@,
                out.deep_view(),
                i as int,
            ),
        decreases items.len() - i,
    {
        let item = Keyed { keys: clone_row(&items[i].keys), row: clone_row(&items[i].row) };
        assert(item.deep_view() == items.deep_view()[i as int]);
        let mut at: usize = 0;
        while at < out.len() && !is_less(order_keys(&item.keys, &out[at].keys, descending))
            invariant
                at <= out.len(),
                place_from(out.deep_view(), item.deep_view(), descending@, 0) == place_from(
                    out.deep_view(),
                    item.deep_view(),
                    descending@,
                    at as int,
                ),
            decreases out.len() - at,
        {
            at += 1;
        }
        let ghost before = out;
        out.insert(at, item);
        assert(out.deep_view() =~= before.deep_view().insert(at as int, item.deep_view()));
        i += 1;
    }
    out
}

/// Whether an order is `Less`.
fn is_less(o: Order) -> (r: bool)
    ensures
        r == (o == Order::Less),
{
    match o {
        Order::Less => true,
        _ => false,
    }
}

/// The rows without their keys.
pub fn strip(items: Vec<Keyed>) -> (rows: Vec<Vec<Value>>)
    ensures
        rows.deep_view() == rows_of(items.deep_view()),
{
    let mut rows: Vec<Vec<Value>> = Vec::new();
    let mut i: usize = 0;
    while i < items.len()
        invariant
            i <= items.len(),
            rows.len() == i,
            forall|j: int|
                0 <= j < i ==> (#[trigger] rows.deep_view()[j]) == items.deep_view()[j].row,
        decreases items.len() - i,
    {
        let ghost before = rows;
        let row = clone_row(&items[i].row);
        rows.push(row);
        proof {
            crate::ast::lemma_push_view(before, rows, row);
        }
        i += 1;
    }
    assert(rows.deep_view() =~= rows_of(items.deep_view()));
    rows
}

} // verus!
