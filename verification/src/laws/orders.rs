//! What comparing and sorting data are for.

use vstd::prelude::*;
use crate::ast::OrderKey;
use crate::float::is_nan;
use crate::ordering::{is_number, key_order, numbers_are_ranked, numeric_rank, row_before, row_order, same_kind};
use crate::sorting::ascending;
use crate::text::{text_order, text_order_from, Order};
use crate::types::{datum_compare, datum_rank, Datum, Fault};

verus! {

/// Whether text comes before other text: it is a proper beginning of it, or its scalar value is
/// the smaller one where the two first differ.
pub open spec fn text_below(a: Seq<char>, b: Seq<char>) -> bool {
    exists|k: int|
        0 <= k <= a.len() && k <= b.len() && #[trigger] a.take(k) == b.take(k) && (if k < a.len()
            && k < b.len() {
            (a[k] as int) < (b[k] as int)
        } else {
            a.len() == k && k < b.len()
        })
}

/// Whether a datum is smaller than another one of its kind.
pub open spec fn below(a: Datum, b: Datum) -> bool {
    match (a, b) {
        (Datum::Int64(x), Datum::Int64(y)) => x < y,
        (Datum::Bool(x), Datum::Bool(y)) => !x && y,
        (Datum::Text(x), Datum::Text(y)) => text_below(x, y),
        _ => is_number(a) && is_number(b) && numeric_rank(a) < numeric_rank(b),
    }
}

proof fn text_first_difference(a: Seq<char>, b: Seq<char>, i: int)
    requires
        0 <= i <= a.len(),
        i <= b.len(),
        a.take(i) == b.take(i),
    ensures
        text_order_from(a, b, i) == Order::Less ==> text_below(a, b),
        text_order_from(a, b, i) == Order::Greater ==> text_below(b, a),
        text_order_from(a, b, i) == Order::Equal ==> a == b,
    decreases a.len() - i,
{
    if i < a.len() && i < b.len() && a[i] == b[i] {
        assert(a.take(i + 1) =~= a.take(i).push(a[i]));
        assert(b.take(i + 1) =~= b.take(i).push(b[i]));
        text_first_difference(a, b, i + 1);
    } else if i == a.len() && i == b.len() {
        assert(a.take(i) =~= a && b.take(i) =~= b);
    } else {
        assert(a.take(i) == b.take(i));
        assert(b.take(i) == a.take(i));
    }
}

/// Text is never both before and after other text, nor before itself.
pub proof fn text_is_before_or_after(a: Seq<char>, b: Seq<char>)
    ensures
        !(text_below(a, b) && text_below(b, a)),
        a == b ==> !text_below(a, b),
        a != b ==> text_below(a, b) || text_below(b, a),
{
    assert(a.take(0) =~= b.take(0));
    text_first_difference(a, b, 0);
    if text_below(a, b) {
        let k = choose|k: int|
            0 <= k <= a.len() && k <= b.len() && #[trigger] a.take(k) == b.take(k) && (if k
                < a.len() && k < b.len() {
                (a[k] as int) < (b[k] as int)
            } else {
                a.len() == k && k < b.len()
            });
        if text_below(b, a) {
            let n = choose|n: int|
                0 <= n <= b.len() && n <= a.len() && #[trigger] b.take(n) == a.take(n) && (if n
                    < b.len() && n < a.len() {
                    (b[n] as int) < (a[n] as int)
                } else {
                    b.len() == n && n < a.len()
                });
            if k < n {
                assert(b.take(n)[k] == a.take(n)[k]);
            } else if n < k {
                assert(a.take(k)[n] == b.take(k)[n]);
            }
        }
    }
}

/// Text compares as it comes before or after.
pub proof fn text_order_is_first_difference(a: Seq<char>, b: Seq<char>)
    ensures
        text_order(a, b) == Order::Less <==> text_below(a, b),
        text_order(a, b) == Order::Greater <==> text_below(b, a),
        text_order(a, b) == Order::Equal <==> a == b,
{
    assert(a.take(0) =~= b.take(0));
    text_first_difference(a, b, 0);
    text_is_before_or_after(a, b);
    text_is_before_or_after(b, a);
}

/// The rank that sorting and extremes use puts the smaller datum first, and exists exactly
/// between two numbers, two truth values or two texts.
pub proof fn rank_puts_the_smaller_first(a: Datum, b: Datum)
    ensures
        datum_rank(a, b) is Ok <==> same_kind(a, b),
        datum_rank(a, b) == Ok::<Order, Fault>(Order::Less) <==> below(a, b),
        datum_rank(a, b) == Ok::<Order, Fault>(Order::Greater) <==> below(b, a),
        below(a, b) ==> same_kind(a, b) && !below(b, a),
{
    match (a, b) {
        (Datum::Text(x), Datum::Text(y)) => text_order_is_first_difference(x, y),
        _ => if is_number(a) && is_number(b) {
            numbers_are_ranked(a, b);
        },
    }
}

/// Whether one floating-point value is less than another, by their bits: signs first, then
/// magnitudes, with both zeros alike.
pub open spec fn bits_below(a: u64, b: u64) -> bool {
    let sign = 0x8000_0000_0000_0000u64;
    if a < sign && b < sign {
        a < b
    } else if a >= sign && b >= sign {
        b < a
    } else {
        a >= sign && !(a == sign && b == 0)
    }
}

/// Floating-point values that are numbers are ordered by sign and magnitude.
pub proof fn floats_are_ordered_by_their_bits(a: u64, b: u64)
    requires
        !is_nan(a),
        !is_nan(b),
    ensures
        datum_rank(Datum::Float64(a), Datum::Float64(b)) == Ok::<Order, Fault>(Order::Less)
            <==> bits_below(a, b),
        datum_rank(Datum::Float64(a), Datum::Float64(b)) == Ok::<Order, Fault>(Order::Greater)
            <==> bits_below(b, a),
        below(Datum::Float64(a), Datum::Float64(b)) <==> bits_below(a, b),
{
    rank_puts_the_smaller_first(Datum::Float64(a), Datum::Float64(b));
}

/// Whether a datum is no number although it is a floating-point value.
pub open spec fn not_a_number(d: Datum) -> bool {
    d matches Datum::Float64(b) && is_nan(b)
}

/// The comparison of SQL operators agrees with the rank, and refuses what is no number.
pub proof fn comparing_agrees_with_the_rank(a: Datum, b: Datum)
    ensures
        not_a_number(a) || not_a_number(b) ==> datum_compare(a, b) is Err,
        !not_a_number(a) && !not_a_number(b) ==> datum_compare(a, b) == datum_rank(a, b),
        datum_compare(a, b) == Ok::<Order, Fault>(Order::Less) ==> below(a, b),
        datum_compare(a, b) == Ok::<Order, Fault>(Order::Greater) ==> below(b, a),
{
    rank_puts_the_smaller_first(a, b);
}

/// Whether a sort key asks for a datum before another one. Without a direction a key goes up;
/// NULL comes last where it goes up and first where it goes down, unless the key says where.
pub open spec fn asked_before(key: OrderKey, a: Datum, b: Datum) -> bool {
    let down = key.ascending == Some(false);
    if a is Null || b is Null {
        let null_first = key.nulls_first == Some(true) || (key.nulls_first is None && down);
        if null_first {
            a is Null && !(b is Null)
        } else {
            b is Null && !(a is Null)
        }
    } else if down {
        below(b, a)
    } else {
        below(a, b)
    }
}

/// Whether neither of two data is asked for before the other.
pub open spec fn tied(a: Datum, b: Datum) -> bool {
    if a is Null || b is Null {
        a is Null && b is Null
    } else {
        !below(a, b) && !below(b, a)
    }
}

/// Two rows of sort keys compare by the first key on which they are not tied.
pub proof fn first_untied_key_decides(
    a: Seq<Datum>,
    b: Seq<Datum>,
    keys: Seq<OrderKey>,
    from: int,
    k: int,
)
    requires
        0 <= from <= k < keys.len(),
        forall|i: int| from <= i < k ==> tied(#[trigger] a[i], b[i]),
        !tied(a[k], b[k]),
    ensures
        row_order(a, b, keys, from) == Order::Less <==> asked_before(keys[k], a[k], b[k]),
        row_order(a, b, keys, from) == Order::Greater <==> asked_before(keys[k], b[k], a[k]),
    decreases k - from,
{
    rank_puts_the_smaller_first(a[from], b[from]);
    if from < k {
        assert(tied(a[from], b[from]));
        first_untied_key_decides(a, b, keys, from + 1, k);
    }
}

/// Rows of sort keys that are tied on every key compare equal.
pub proof fn tied_rows_compare_equal(a: Seq<Datum>, b: Seq<Datum>, keys: Seq<OrderKey>, from: int)
    requires
        0 <= from <= keys.len(),
        forall|i: int| from <= i < keys.len() ==> tied(#[trigger] a[i], b[i]),
    ensures
        row_order(a, b, keys, from) == Order::Equal,
    decreases keys.len() - from,
{
    if from < keys.len() {
        rank_puts_the_smaller_first(a[from], b[from]);
        assert(tied(a[from], b[from]));
        tied_rows_compare_equal(a, b, keys, from + 1);
    }
}

/// Whether rows of sort keys may stand in their order: the first key on which they are not tied
/// asks for it, or they are tied on all keys.
pub open spec fn stand_in_order(a: Seq<Datum>, b: Seq<Datum>, keys: Seq<OrderKey>) -> bool {
    forall|k: int|
        #![trigger keys[k]]
        0 <= k < keys.len() && !tied(a[k], b[k]) && (forall|i: int|
            0 <= i < k ==> tied(#[trigger] a[i], b[i])) ==> asked_before(keys[k], a[k], b[k])
}

/// Rows whose comparison is not the greater one stand in the order that their keys ask for.
proof fn not_greater_is_in_order(a: Seq<Datum>, b: Seq<Datum>, keys: Seq<OrderKey>)
    requires
        row_order(a, b, keys, 0) != Order::Greater,
        forall|k: int|
            0 <= k < keys.len() && !(a[k] is Null) && !(b[k] is Null) ==> same_kind(
                #[trigger] a[k],
                b[k],
            ),
    ensures
        stand_in_order(a, b, keys),
{
    assert forall|k: int|
        #![trigger keys[k]]
        0 <= k < keys.len() && !tied(a[k], b[k]) && (forall|i: int|
            0 <= i < k ==> tied(#[trigger] a[i], b[i])) implies asked_before(keys[k], a[k], b[k]) by {
        first_untied_key_decides(a, b, keys, 0, k);
        rank_puts_the_smaller_first(a[k], b[k]);
    }
}

/// Sorted rows stand in the order that their keys ask for, and rows that are tied on all keys
/// keep their places.
pub proof fn sorted_rows_stand_in_order(
    rows: Seq<Seq<Datum>>,
    keys: Seq<OrderKey>,
    places: Seq<usize>,
    i: int,
    j: int,
)
    requires
        ascending(places, row_before(rows, keys)),
        crate::ordering::sortable(rows, keys.len() as int),
        0 <= i < j < places.len(),
        places[i] < rows.len(),
        places[j] < rows.len(),
    ensures
        stand_in_order(rows[places[i] as int], rows[places[j] as int], keys),
        (forall|k: int|
            0 <= k < keys.len() ==> tied(
                #[trigger] rows[places[i] as int][k],
                rows[places[j] as int][k],
            )) ==> places[i] < places[j],
{
    crate::ordering::sorting_orders_rows(rows, keys, places, i, j);
    let (a, b) = (rows[places[i] as int], rows[places[j] as int]);
    assert forall|k: int|
        0 <= k < keys.len() && !(a[k] is Null) && !(b[k] is Null) implies same_kind(
        #[trigger] a[k],
        b[k],
    ) by {
        assert(same_kind(rows[places[i] as int][k], rows[places[j] as int][k]));
    }
    not_greater_is_in_order(a, b, keys);
    if forall|k: int| 0 <= k < keys.len() ==> tied(#[trigger] a[k], b[k]) {
        tied_rows_compare_equal(a, b, keys, 0);
    }
}

/// With one key, NULL aside, an ascending key never leaves a greater datum before a smaller one,
/// and a descending key never a smaller one before a greater one.
pub proof fn one_key_orders_up_or_down(
    rows: Seq<Seq<Datum>>,
    key: OrderKey,
    places: Seq<usize>,
    i: int,
    j: int,
)
    requires
        ascending(places, row_before(rows, seq![key])),
        crate::ordering::sortable(rows, 1),
        0 <= i < j < places.len(),
        places[i] < rows.len(),
        places[j] < rows.len(),
        !(rows[places[i] as int][0] is Null),
        !(rows[places[j] as int][0] is Null),
    ensures
        key.ascending != Some(false) ==> !below(
            rows[places[j] as int][0],
            rows[places[i] as int][0],
        ),
        key.ascending == Some(false) ==> !below(
            rows[places[i] as int][0],
            rows[places[j] as int][0],
        ),
{
    let keys = seq![key];
    let (a, b) = (rows[places[i] as int], rows[places[j] as int]);
    sorted_rows_stand_in_order(rows, keys, places, i, j);
    rank_puts_the_smaller_first(a[0], b[0]);
    rank_puts_the_smaller_first(b[0], a[0]);
    if !tied(a[0], b[0]) {
        assert(keys[0] == key);
    }
}

/// For data other than NULL, the order under a descending key is that under the ascending one
/// with the sides exchanged, and the ascending one puts the smaller datum first.
pub proof fn descending_exchanges_the_sides(a: Datum, b: Datum, nulls_first: bool, other: bool)
    requires
        !(a is Null),
        !(b is Null),
    ensures
        key_order(a, b, false, nulls_first) == key_order(b, a, true, other),
        key_order(a, b, false, nulls_first) == key_order(a, b, true, other).flipped(),
        key_order(a, b, true, nulls_first) == Order::Less <==> below(a, b),
        key_order(a, b, true, nulls_first) == Order::Greater <==> below(b, a),
        key_order(a, b, false, nulls_first) == Order::Less <==> below(b, a),
        key_order(a, b, false, nulls_first) == Order::Greater <==> below(a, b),
{
    rank_puts_the_smaller_first(a, b);
    rank_puts_the_smaller_first(b, a);
}

} // verus!
