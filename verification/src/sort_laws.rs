//! Laws of the sort: its result is in order, holds what went in, and leaves
//! rows with equal keys in the order in which they came.

use vstd::prelude::*;
use crate::sort::{
    flipped, key_order, lemma_place_bounds, place_from, sorted, sorted_from, SpecKeyed,
};
use crate::ast::{SpecOrderKey, SpecSelect};
use crate::semantics::{
    directions, order_values, outputs_from, unit_scope, Scope, SpecBinding, SpecUnit,
};
use crate::storage::SpecTable;
use crate::value::{sort_order, text_order, Order, SpecValue};

verus! {

broadcast use vstd::multiset::group_multiset_axioms;

/// How two orders combine along a chain `a`, `b`, `c`: what the order of `a`
/// and `c` must be, given those of `a` and `b` and of `b` and `c`.
pub open spec fn chained(first: Order, second: Order, whole: Order) -> bool {
    &&& first == Order::Equal ==> whole == second
    &&& second == Order::Equal ==> whole == first
    &&& first == second ==> whole == first
}

proof fn lemma_text_turned(a: Seq<char>, b: Seq<char>)
    ensures
        text_order(b, a) == flipped(text_order(a, b)),
    decreases a.len(),
{
    if a.len() > 0 && b.len() > 0 && !(a[0] < b[0]) && !(a[0] > b[0]) {
        lemma_text_turned(a.drop_first(), b.drop_first());
    }
}

proof fn lemma_text_chained(a: Seq<char>, b: Seq<char>, c: Seq<char>)
    ensures
        chained(text_order(a, b), text_order(b, c), text_order(a, c)),
    decreases a.len(),
{
    if a.len() > 0 && b.len() > 0 && c.len() > 0 {
        if !(a[0] < b[0]) && !(a[0] > b[0]) && !(b[0] < c[0]) && !(b[0] > c[0]) {
            lemma_text_chained(a.drop_first(), b.drop_first(), c.drop_first());
        }
    }
}

proof fn lemma_text_same(a: Seq<char>)
    ensures
        text_order(a, a) == Order::Equal,
    decreases a.len(),
{
    if a.len() > 0 {
        lemma_text_same(a.drop_first());
    }
}

/// The order of values turns round with its arguments.
pub proof fn lemma_value_turned(a: SpecValue, b: SpecValue)
    ensures
        sort_order(b, a) == flipped(sort_order(a, b)),
{
    if a is Text && b is Text {
        lemma_text_turned(a->Text_0, b->Text_0);
    }
}

/// The order of values is transitive, and equal values stand alike to every
/// other value.
pub proof fn lemma_value_chained(a: SpecValue, b: SpecValue, c: SpecValue)
    ensures
        chained(sort_order(a, b), sort_order(b, c), sort_order(a, c)),
{
    if a is Text && b is Text && c is Text {
        lemma_text_chained(a->Text_0, b->Text_0, c->Text_0);
    }
}

/// The order of two rows by their keys turns round with its arguments.
pub proof fn lemma_keys_turned(a: Seq<SpecValue>, b: Seq<SpecValue>, d: Seq<bool>, from: int)
    requires
        0 <= from,
    ensures
        key_order(b, a, d, from) == flipped(key_order(a, b, d, from)),
    decreases a.len() - from,
{
    if from < a.len() && from < b.len() {
        lemma_value_turned(a[from], b[from]);
        lemma_keys_turned(a, b, d, from + 1);
        if from + 1 >= b.len() || from + 1 >= a.len() {
            assert(key_order(b, a, d, from + 1) == Order::Equal);
        }
    }
}

/// The order of rows by their keys is transitive, for keys of one length.
pub proof fn lemma_keys_chained(
    a: Seq<SpecValue>,
    b: Seq<SpecValue>,
    c: Seq<SpecValue>,
    d: Seq<bool>,
    from: int,
)
    requires
        0 <= from,
        a.len() == b.len() == c.len(),
    ensures
        chained(key_order(a, b, d, from), key_order(b, c, d, from), key_order(a, c, d, from)),
    decreases a.len() - from,
{
    if from < a.len() {
        lemma_value_chained(a[from], b[from], c[from]);
        lemma_keys_chained(a, b, c, d, from + 1);
    }
}

/// Whether rows stand in the order of their keys: none before one that
/// precedes it.
pub open spec fn in_order(items: Seq<SpecKeyed>, d: Seq<bool>) -> bool {
    forall|i: int, j: int|
        0 <= i < j < items.len() ==> key_order(
            (#[trigger] items[i]).keys,
            (#[trigger] items[j]).keys,
            d,
            0,
        ) != Order::Greater
}

/// Whether every row has `n` sort keys.
pub open spec fn keyed_alike(items: Seq<SpecKeyed>, n: nat) -> bool {
    forall|i: int| 0 <= i < items.len() ==> (#[trigger] items[i]).keys.len() == n
}

proof fn lemma_place(sorted: Seq<SpecKeyed>, x: SpecKeyed, d: Seq<bool>, from: int)
    requires
        0 <= from <= sorted.len(),
    ensures
        from <= place_from(sorted, x, d, from) <= sorted.len(),
        forall|k: int|
            from <= k < place_from(sorted, x, d, from) ==> key_order(
                x.keys,
                (#[trigger] sorted[k]).keys,
                d,
                0,
            ) != Order::Less,
        place_from(sorted, x, d, from) < sorted.len() ==> key_order(
            x.keys,
            sorted[place_from(sorted, x, d, from)].keys,
            d,
            0,
        ) == Order::Less,
    decreases sorted.len() - from,
{
    if from < sorted.len() {
        lemma_place(sorted, x, d, from + 1);
    }
}

proof fn lemma_insert_in_order(acc: Seq<SpecKeyed>, x: SpecKeyed, d: Seq<bool>, n: nat)
    requires
        in_order(acc, d),
        keyed_alike(acc, n),
        x.keys.len() == n,
    ensures
        in_order(acc.insert(place_from(acc, x, d, 0), x), d),
        keyed_alike(acc.insert(place_from(acc, x, d, 0), x), n),
        acc.insert(place_from(acc, x, d, 0), x).to_multiset() == acc.to_multiset().insert(x),
{
    let p = place_from(acc, x, d, 0);
    lemma_place(acc, x, d, 0);
    let next = acc.insert(p, x);
    assert forall|i: int, j: int| 0 <= i < j < next.len() implies key_order(
        (#[trigger] next[i]).keys,
        (#[trigger] next[j]).keys,
        d,
        0,
    ) != Order::Greater by {
        if j < p {
            assert(next[i] == acc[i] && next[j] == acc[j]);
        } else if j == p {
            assert(next[i] == acc[i] && next[j] == x);
            lemma_keys_turned(x.keys, acc[i].keys, d, 0);
        } else if i < p {
            assert(next[i] == acc[i] && next[j] == acc[j - 1]);
        } else if i == p {
            assert(next[i] == x && next[j] == acc[j - 1]);
            if j - 1 > p {
                assert(key_order(acc[p].keys, acc[j - 1].keys, d, 0) != Order::Greater);
                lemma_keys_chained(x.keys, acc[p].keys, acc[j - 1].keys, d, 0);
            }
        } else {
            assert(next[i] == acc[i - 1] && next[j] == acc[j - 1]);
        }
    }
    assert forall|i: int| 0 <= i < next.len() implies (#[trigger] next[i]).keys.len() == n by {
        if i < p {
            assert(next[i] == acc[i]);
        } else if i > p {
            assert(next[i] == acc[i - 1]);
        }
    }
    assert(next =~= acc.take(p).push(x) + acc.skip(p));
    assert(acc =~= acc.take(p) + acc.skip(p));
    vstd::seq_lib::to_multiset_build(acc.take(p), x);
    vstd::seq_lib::lemma_multiset_commutative(acc.take(p).push(x), acc.skip(p));
    vstd::seq_lib::lemma_multiset_commutative(acc.take(p), acc.skip(p));
    assert(next.to_multiset() =~= acc.to_multiset().insert(x));
}

proof fn lemma_sorted_in_order(
    items: Seq<SpecKeyed>,
    d: Seq<bool>,
    acc: Seq<SpecKeyed>,
    n: nat,
    from: int,
)
    requires
        0 <= from <= items.len(),
        keyed_alike(items, n),
        keyed_alike(acc, n),
        in_order(acc, d),
    ensures
        in_order(sorted_from(items, d, acc, from), d),
        sorted_from(items, d, acc, from).to_multiset() == (acc + items.skip(from)).to_multiset(),
    decreases items.len() - from,
{
    if from < items.len() {
        let x = items[from];
        let rest = items.skip(from + 1);
        lemma_insert_in_order(acc, x, d, n);
        lemma_place_bounds(acc, x, d, 0);
        let next = acc.insert(place_from(acc, x, d, 0), x);
        lemma_sorted_in_order(items, d, next, n, from + 1);
        assert(acc + items.skip(from) =~= acc.push(x) + rest);
        vstd::seq_lib::to_multiset_build(acc, x);
        vstd::seq_lib::lemma_multiset_commutative(next, rest);
        vstd::seq_lib::lemma_multiset_commutative(acc.push(x), rest);
        assert((next + rest).to_multiset() =~= (acc.push(x) + rest).to_multiset());
    } else {
        assert(acc + items.skip(from) =~= acc);
    }
}

/// The sorted rows stand in the order of their keys, and they are the rows
/// that went in, each as often as it went in.
pub proof fn law_sorted_is_in_order(items: Seq<SpecKeyed>, d: Seq<bool>, n: nat)
    requires
        keyed_alike(items, n),
    ensures
        in_order(sorted(items, d), d),
        sorted(items, d).to_multiset() == items.to_multiset(),
        sorted(items, d).len() == items.len(),
{
    lemma_sorted_in_order(items, d, Seq::empty(), n, 0);
    assert(Seq::<SpecKeyed>::empty() + items.skip(0) =~= items);
    vstd::seq_lib::to_multiset_len(sorted(items, d));
    vstd::seq_lib::to_multiset_len(items);
}

/// Whether no row precedes a row that stands before it.
pub open spec fn already_in_order(items: Seq<SpecKeyed>, d: Seq<bool>) -> bool {
    forall|i: int, j: int|
        0 <= i < j < items.len() ==> key_order(
            (#[trigger] items[j]).keys,
            (#[trigger] items[i]).keys,
            d,
            0,
        ) != Order::Less
}

proof fn lemma_place_at_end(acc: Seq<SpecKeyed>, x: SpecKeyed, d: Seq<bool>, from: int)
    requires
        0 <= from <= acc.len(),
        forall|k: int|
            0 <= k < acc.len() ==> key_order(x.keys, (#[trigger] acc[k]).keys, d, 0)
                != Order::Less,
    ensures
        place_from(acc, x, d, from) == acc.len(),
    decreases acc.len() - from,
{
    if from < acc.len() {
        assert(key_order(x.keys, acc[from].keys, d, 0) != Order::Less);
        lemma_place_at_end(acc, x, d, from + 1);
    }
}

proof fn lemma_sorted_stays(items: Seq<SpecKeyed>, d: Seq<bool>, from: int)
    requires
        0 <= from <= items.len(),
        already_in_order(items, d),
    ensures
        sorted_from(items, d, items.take(from), from) == items,
    decreases items.len() - from,
{
    let acc = items.take(from);
    if from < items.len() {
        assert forall|k: int| 0 <= k < acc.len() implies key_order(
            items[from].keys,
            (#[trigger] acc[k]).keys,
            d,
            0,
        ) != Order::Less by {
            assert(acc[k] == items[k]);
        }
        lemma_place_at_end(acc, items[from], d, 0);
        assert(acc.insert(acc.len() as int, items[from]) =~= items.take(from + 1));
        lemma_sorted_stays(items, d, from + 1);
    } else {
        assert(acc =~= items);
    }
}

/// The sort is stable: rows that stand in order already, as rows with equal
/// keys do, keep the order in which they came.
pub proof fn law_sort_keeps_ties(items: Seq<SpecKeyed>, d: Seq<bool>)
    requires
        already_in_order(items, d),
    ensures
        sorted(items, d) == items,
{
    lemma_sorted_stays(items, d, 0);
    assert(items.take(0) =~= Seq::<SpecKeyed>::empty());
}

proof fn lemma_order_values_len(
    db: Seq<SpecTable>,
    keys: Seq<SpecOrderKey>,
    items: Seq<crate::ast::SpecSelectItem>,
    sc: Scope,
    row: Seq<SpecValue>,
    k: int,
)
    requires
        0 <= k <= keys.len(),
        order_values(db, keys, items, sc, row, k) is Ok,
    ensures
        order_values(db, keys, items, sc, row, k)->Ok_0.len() == keys.len() - k,
    decreases keys.len() - k,
{
    if k < keys.len() {
        lemma_order_values_len(db, keys, items, sc, row, k + 1);
    }
}

proof fn lemma_outputs_keyed(
    db: Seq<SpecTable>,
    q: SpecSelect,
    columns: Seq<SpecBinding>,
    width: nat,
    outer: Seq<SpecValue>,
    keys: Seq<int>,
    units: Seq<SpecUnit>,
    i: int,
)
    requires
        0 <= i,
        outputs_from(db, q, columns, width, outer, keys, units, i) is Ok,
    ensures
        keyed_alike(
            outputs_from(db, q, columns, width, outer, keys, units, i)->Ok_0,
            q.order_by.len(),
        ),
    decreases units.len() - i,
{
    if i < units.len() {
        lemma_outputs_keyed(db, q, columns, width, outer, keys, units, i + 1);
        let sc = unit_scope(columns, width, outer, keys, units[i]);
        let all = outputs_from(db, q, columns, width, outer, keys, units, i)->Ok_0;
        let rest = outputs_from(db, q, columns, width, outer, keys, units, i + 1)->Ok_0;
        if all != rest {
            lemma_order_values_len(
                db,
                q.order_by,
                q.items,
                sc,
                crate::semantics::project(db, q.items, sc, 0)->Ok_0,
                0,
            );
            assert forall|k: int| 0 <= k < all.len() implies (#[trigger] all[k]).keys.len()
                == q.order_by.len() by {
                if k > 0 {
                    assert(all[k] == rest[k - 1]);
                }
            }
        }
    }
}

/// The rows of a query come out in the order of its `ORDER BY`: no row
/// before one whose keys precede its own, rows with equal keys in the order
/// in which the query made them, and no row lost or added by the sort.
pub proof fn law_query_is_sorted(
    db: Seq<SpecTable>,
    q: SpecSelect,
    columns: Seq<SpecBinding>,
    width: nat,
    outer: Seq<SpecValue>,
    keys: Seq<int>,
    units: Seq<SpecUnit>,
)
    requires
        outputs_from(db, q, columns, width, outer, keys, units, 0) is Ok,
    ensures
        ({
            let items = outputs_from(db, q, columns, width, outer, keys, units, 0)->Ok_0;
            let d = directions(q.order_by);
            &&& in_order(sorted(items, d), d)
            &&& sorted(items, d).to_multiset() == items.to_multiset()
            &&& already_in_order(items, d) ==> sorted(items, d) == items
        }),
{
    let items = outputs_from(db, q, columns, width, outer, keys, units, 0)->Ok_0;
    let d = directions(q.order_by);
    lemma_outputs_keyed(db, q, columns, width, outer, keys, units, 0);
    law_sorted_is_in_order(items, d, q.order_by.len());
    if already_in_order(items, d) {
        law_sort_keeps_ties(items, d);
    }
}

} // verus!
