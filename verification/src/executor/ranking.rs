//! The total order of values, and sorting by lists of values.

use vstd::prelude::*;
use crate::ordering::{rank_chains, rank_flips, rank_order};
use crate::sorting::{arranged, ascending, covers, sort_positions, strict_order};
use crate::storage::rows_of;
use crate::text::{int_order, order_i64, Order};
use crate::types::{data_of, Datum, Value};

verus! {

/// The place of a value's kind among all values.
pub open spec fn kind_place(d: Datum) -> i64 {
    match d {
        Datum::Null => 0,
        Datum::Int64(_) => 1,
        Datum::Float64(_) => 1,
        Datum::Bool(_) => 2,
        Datum::Text(_) => 3,
    }
}

/// How two values compare: by kind, and then by value.
pub open spec fn full_order(a: Datum, b: Datum) -> Order {
    if kind_place(a) != kind_place(b) {
        int_order(kind_place(a) as int, kind_place(b) as int)
    } else if a is Null {
        Order::Equal
    } else {
        rank_order(a, b)
    }
}

fn place_of(value: &Value) -> (n: i64)
    ensures
        n == kind_place(value@),
{
    match value {
        Value::Null => 0,
        Value::Int64(_) => 1,
        Value::Float64(_) => 1,
        Value::Bool(_) => 2,
        Value::String(_) => 3,
    }
}

/// Compares two values.
pub fn order_values(a: &Value, b: &Value) -> (order: Order)
    ensures
        order == full_order(a@, b@),
{
    let (x, y) = (place_of(a), place_of(b));
    if x != y {
        order_i64(x, y)
    } else if a.is_null() {
        Order::Equal
    } else {
        match a.total_order(b) {
            Ok(order) => order,
            Err(_) => Order::Equal,
        }
    }
}

pub(crate) proof fn full_order_flips(a: Datum, b: Datum)
    ensures
        full_order(b, a) == full_order(a, b).flipped(),
{
    rank_flips(a, b);
}

pub(crate) proof fn full_order_chains(a: Datum, b: Datum, c: Datum)
    requires
        full_order(a, b) != Order::Greater,
        full_order(b, c) != Order::Greater,
    ensures
        full_order(a, c) != Order::Greater,
        full_order(a, b) == Order::Less || full_order(b, c) == Order::Less ==> full_order(a, c)
            == Order::Less,
{
    if kind_place(a) == kind_place(b) && kind_place(b) == kind_place(c) && !(a is Null) {
        rank_chains(a, b, c);
    }
}

/// How two lists of values compare from a position on. Where `down` says so, greater values
/// come first.
pub open spec fn list_order(a: Seq<Datum>, b: Seq<Datum>, down: Seq<bool>, i: int) -> Order
    decreases down.len() - i,
{
    if !(0 <= i < down.len()) {
        Order::Equal
    } else {
        let order = full_order(a[i], b[i]);
        if order != Order::Equal {
            if down[i] {
                order.flipped()
            } else {
                order
            }
        } else {
            list_order(a, b, down, i + 1)
        }
    }
}

proof fn list_order_flips(a: Seq<Datum>, b: Seq<Datum>, down: Seq<bool>, i: int)
    ensures
        list_order(b, a, down, i) == list_order(a, b, down, i).flipped(),
    decreases down.len() - i,
{
    if 0 <= i < down.len() {
        full_order_flips(a[i], b[i]);
        list_order_flips(a, b, down, i + 1);
    }
}

proof fn list_order_chains(a: Seq<Datum>, b: Seq<Datum>, c: Seq<Datum>, down: Seq<bool>, i: int)
    requires
        list_order(a, b, down, i) != Order::Greater,
        list_order(b, c, down, i) != Order::Greater,
    ensures
        list_order(a, c, down, i) != Order::Greater,
        list_order(a, b, down, i) == Order::Less || list_order(b, c, down, i) == Order::Less
            ==> list_order(a, c, down, i) == Order::Less,
    decreases down.len() - i,
{
    if 0 <= i < down.len() {
        full_order_flips(a[i], b[i]);
        full_order_flips(b[i], c[i]);
        full_order_flips(a[i], c[i]);
        if down[i] {
            full_order_chains(c[i], b[i], a[i]);
        } else {
            full_order_chains(a[i], b[i], c[i]);
        }
        if full_order(a[i], b[i]) == Order::Equal && full_order(b[i], c[i]) == Order::Equal {
            full_order_chains(c[i], b[i], a[i]);
            full_order_chains(a[i], b[i], c[i]);
            list_order_chains(a, b, c, down, i + 1);
        }
    }
}

/// Whether the list at `a` comes before the one at `b`: ties go by their ranks.
pub open spec fn list_before(
    lists: Seq<Seq<Datum>>,
    down: Seq<bool>,
    ranks: Seq<usize>,
) -> spec_fn(int, int) -> bool {
    |a: int, b: int|
        match list_order(lists[a], lists[b], down, 0) {
            Order::Less => true,
            Order::Equal => ranks[a] < ranks[b],
            Order::Greater => false,
        }
}

/// Whether no rank occurs twice.
pub open spec fn distinct_ranks(ranks: Seq<usize>) -> bool {
    forall|i: int, j: int| 0 <= i < j < ranks.len() ==> #[trigger] ranks[i] != #[trigger] ranks[j]
}

/// Lists with distinct ranks have a strict order.
pub proof fn list_before_is_strict(lists: Seq<Seq<Datum>>, down: Seq<bool>, ranks: Seq<usize>)
    requires
        ranks.len() == lists.len(),
        distinct_ranks(ranks),
    ensures
        strict_order(list_before(lists, down, ranks), lists.len() as int),
{
    let before = list_before(lists, down, ranks);
    let n = lists.len();
    assert forall|a: int| 0 <= a < n implies !#[trigger] before(a, a) by {
        list_order_flips(lists[a], lists[a], down, 0);
    }
    assert forall|a: int, b: int| 0 <= a < n && 0 <= b < n && a != b implies #[trigger] before(a, b)
        == !before(b, a) by {
        list_order_flips(lists[a], lists[b], down, 0);
        assert(ranks[a] != ranks[b]);
    }
    assert forall|a: int, b: int, c: int|
        0 <= a < n && 0 <= b < n && 0 <= c < n && #[trigger] before(a, b) && #[trigger] before(
            b,
            c,
        ) implies before(a, c) by {
        list_order_chains(lists[a], lists[b], lists[c], down, 0);
    }
}

/// The places of lists in their order.
pub open spec fn ranked_places(lists: Seq<Seq<Datum>>, down: Seq<bool>, ranks: Seq<usize>) -> Seq<
    usize,
> {
    arranged(lists.len() as int, list_before(lists, down, ranks))
}

fn order_lists(a: &Vec<Value>, b: &Vec<Value>, down: &Vec<bool>) -> (order: Order)
    requires
        a.len() == down.len(),
        b.len() == down.len(),
    ensures
        order == list_order(data_of(a@), data_of(b@), down@, 0),
{
    let mut i: usize = 0;
    while i < down.len()
        invariant
            i <= down.len(),
            a.len() == down.len(),
            b.len() == down.len(),
            list_order(data_of(a@), data_of(b@), down@, 0) == list_order(
                data_of(a@),
                data_of(b@),
                down@,
                i as int,
            ),
        decreases down.len() - i,
    {
        let order = order_values(&a[i], &b[i]);
        match order {
            Order::Equal => {},
            _ => return if down[i] {
                order.reverse()
            } else {
                order
            },
        }
        i = i + 1;
    }
    Order::Equal
}

fn comes_before(lists: &Vec<Vec<Value>>, down: &Vec<bool>, ranks: &Vec<usize>, a: usize, b: usize) -> (r:
    bool)
    requires
        forall|k: int| 0 <= k < lists.len() ==> #[trigger] lists[k].len() == down.len(),
        ranks.len() == lists.len(),
        a < lists.len(),
        b < lists.len(),
    ensures
        r == list_before(rows_of(lists@), down@, ranks@)(a as int, b as int),
{
    assert(lists[a as int].len() == down.len() && lists[b as int].len() == down.len());
    assert(rows_of(lists@)[a as int] == data_of(lists[a as int]@));
    assert(rows_of(lists@)[b as int] == data_of(lists[b as int]@));
    match order_lists(&lists[a], &lists[b], down) {
        Order::Less => true,
        Order::Equal => ranks[a] < ranks[b],
        Order::Greater => false,
    }
}

/// Sorts lists of values; ties go by their ranks.
pub fn sort_lists(lists: &Vec<Vec<Value>>, down: &Vec<bool>, ranks: &Vec<usize>) -> (places: Vec<
    usize,
>)
    requires
        forall|k: int| 0 <= k < lists.len() ==> #[trigger] lists[k].len() == down.len(),
        ranks.len() == lists.len(),
        distinct_ranks(ranks@),
    ensures
        places@ == ranked_places(rows_of(lists@), down@, ranks@),
        covers(places@, 0, lists.len() as int),
        ascending(places@, list_before(rows_of(lists@), down@, ranks@)),
{
    proof {
        list_before_is_strict(rows_of(lists@), down@, ranks@);
    }
    let earlier = |a: usize, b: usize| -> (r: bool)
        requires
            a < lists.len(),
            b < lists.len(),
        ensures
            r == list_before(rows_of(lists@), down@, ranks@)(a as int, b as int),
        { comes_before(lists, down, ranks, a, b) };
    sort_positions(lists.len(), &earlier, Ghost(list_before(rows_of(lists@), down@, ranks@)))
}

/// Whether two lists hold equal values.
pub open spec fn lists_match(a: Seq<Datum>, b: Seq<Datum>) -> bool {
    a.len() == b.len() && forall|i: int|
        0 <= i < a.len() ==> full_order(#[trigger] a[i], b[i]) == Order::Equal
}

/// Decides whether two lists hold equal values.
pub fn same_list(a: &Vec<Value>, b: &Vec<Value>) -> (r: bool)
    ensures
        r == lists_match(data_of(a@), data_of(b@)),
{
    if a.len() != b.len() {
        return false;
    }
    let mut i: usize = 0;
    while i < a.len()
        invariant
            i <= a.len(),
            a.len() == b.len(),
            forall|k: int|
                0 <= k < i ==> full_order(#[trigger] data_of(a@)[k], data_of(b@)[k])
                    == Order::Equal,
        decreases a.len() - i,
    {
        match order_values(&a[i], &b[i]) {
            Order::Equal => {},
            _ => {
                assert(full_order(data_of(a@)[i as int], data_of(b@)[i as int]) != Order::Equal);
                return false;
            },
        }
        i = i + 1;
    }
    true
}

} // verus!
