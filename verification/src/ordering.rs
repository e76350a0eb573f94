//! The order of result rows under `ORDER BY`.

use vstd::prelude::*;
use vstd::arithmetic::power2::{lemma_pow2_adds, lemma_pow2_pos, lemma_pow2_strictly_increases, lemma2_to64, lemma2_to64_rest, pow2};
use crate::ast::OrderKey;
use crate::float::{exponent, is_finite, is_negative, magnitude, scaled, significand, EXPONENT_UNIT, INFINITY_BITS};
use crate::sorting::{arranged, ascending, covers, sort_positions, strict_order};
use crate::storage::rows_of;
use crate::text::{int_order, text_order_flip, text_order_from, Order};
use crate::types::{data_of, datum_rank, float_rank, is_null, plain, Datum, Error, Fault, Value};

verus! {

/// A number below which the scaled values of all finite numbers lie.
pub open spec fn beyond() -> int {
    pow2(2100) as int
}

/// A number that orders integers and floating-point values together.
pub open spec fn numeric_rank(d: Datum) -> int {
    match d {
        Datum::Int64(i) => i * pow2(1075),
        Datum::Float64(bits) => if is_finite(bits) {
            scaled(bits)
        } else if is_negative(bits) {
            float_rank(bits) - beyond()
        } else {
            float_rank(bits) + beyond()
        },
        _ => 0,
    }
}

/// Whether a datum is a number.
pub open spec fn is_number(d: Datum) -> bool {
    d is Int64 || d is Float64
}

/// Whether two data can be compared.
pub open spec fn same_kind(a: Datum, b: Datum) -> bool {
    ||| is_number(a) && is_number(b)
    ||| a is Bool && b is Bool
    ||| a is Text && b is Text
}

proof fn magnitudes_scale(a: u64, b: u64)
    requires
        a < b < INFINITY_BITS,
    ensures
        significand(a) * pow2(exponent(a)) < significand(b) * pow2(exponent(b)),
{
    lemma_pow2_pos(exponent(a));
    lemma_pow2_pos(exponent(b));
    let (sa, sb) = (significand(a) as int, significand(b) as int);
    let (pa, pb) = (pow2(exponent(a)) as int, pow2(exponent(b)) as int);
    assert(exponent(a) <= exponent(b));
    if exponent(a) == exponent(b) {
        assert(sa < sb);
        assert(sa * pa < sb * pa) by (nonlinear_arith)
            requires
                sa < sb,
                pa > 0,
        ;
    } else {
        let d = (exponent(b) - exponent(a)) as nat;
        lemma_pow2_adds(d, exponent(a));
        lemma2_to64();
        if d > 1 {
            lemma_pow2_strictly_increases(1, d);
        }
        assert(pow2(d) >= 2);
        assert(pb == pow2(d) * pa);
        assert(sa < 2 * EXPONENT_UNIT);
        assert(sb >= EXPONENT_UNIT);
        assert(sa * pa < sb * pb) by (nonlinear_arith)
            requires
                0 <= sa < 2 * EXPONENT_UNIT,
                sb >= EXPONENT_UNIT,
                pa > 0,
                pb == pow2(d) * pa,
                pow2(d) >= 2,
        ;
    }
}

proof fn scaled_is_bounded(bits: u64)
    requires
        is_finite(bits),
    ensures
        -beyond() < scaled(bits) < beyond(),
        magnitude(bits) == 0 ==> scaled(bits) == 0,
        magnitude(bits) > 0 && is_negative(bits) ==> scaled(bits) < 0,
        magnitude(bits) > 0 && !is_negative(bits) ==> scaled(bits) > 0,
{
    let e = exponent(bits);
    let s = significand(bits) as int;
    lemma_pow2_pos(e);
    lemma2_to64();
    lemma2_to64_rest();
    lemma_pow2_adds(54, e);
    assert(e <= 2046);
    lemma_pow2_strictly_increases(e + 54, 2101);
    if e + 54 < 2100 {
        lemma_pow2_strictly_increases(e + 54, 2100);
    }
    let p = pow2(e) as int;
    assert(0 <= s * p < pow2(54) * p) by (nonlinear_arith)
        requires
            0 <= s < pow2(54),
            p > 0,
    ;
    assert(s > 0 ==> s * p > 0) by (nonlinear_arith)
        requires
            p > 0,
    ;
    assert(0 * p == 0);
}

proof fn floats_rank(a: u64, b: u64)
    ensures
        int_order(float_rank(a), float_rank(b)) == int_order(
            numeric_rank(Datum::Float64(a)),
            numeric_rank(Datum::Float64(b)),
        ),
{
    if is_finite(a) {
        scaled_is_bounded(a);
    }
    if is_finite(b) {
        scaled_is_bounded(b);
    }
    lemma_pow2_pos(2100);
    let (x, y) = (magnitude(a), magnitude(b));
    if is_finite(a) && is_finite(b) {
        assert(significand(x) == significand(a) && exponent(x) == exponent(a));
        assert(significand(y) == significand(b) && exponent(y) == exponent(b));
        if x < y {
            magnitudes_scale(x, y);
        } else if y < x {
            magnitudes_scale(y, x);
        }
    }
}

proof fn int_floats_rank(i: i64, b: u64)
    ensures
        datum_rank(Datum::Int64(i), Datum::Float64(b)) == Ok::<Order, Fault>(
            int_order(numeric_rank(Datum::Int64(i)), numeric_rank(Datum::Float64(b))),
        ),
{
    if !is_finite(b) {
        lemma2_to64();
        lemma2_to64_rest();
        lemma_pow2_pos(1075);
        lemma_pow2_adds(64, 1075);
        lemma_pow2_strictly_increases(1139, 2100);
        let p = pow2(1075) as int;
        assert(-pow2(64) * p < i * p < pow2(64) * p) by (nonlinear_arith)
            requires
                -pow2(64) < i < pow2(64),
                p > 0,
        ;
        assert(-pow2(64) * p == -(pow2(64) * p)) by (nonlinear_arith);
    }
}

/// Numbers are ordered by their rank.
pub proof fn numbers_are_ranked(a: Datum, b: Datum)
    requires
        is_number(a),
        is_number(b),
    ensures
        datum_rank(a, b) == Ok::<Order, Fault>(int_order(numeric_rank(a), numeric_rank(b))),
{
    match (a, b) {
        (Datum::Int64(x), Datum::Int64(y)) => {
            lemma_pow2_pos(1075);
            let p = pow2(1075) as int;
            assert(x < y ==> x * p < y * p) by (nonlinear_arith)
                requires
                    p > 0,
            ;
            assert(x > y ==> x * p > y * p) by (nonlinear_arith)
                requires
                    p > 0,
            ;
        },
        (Datum::Int64(x), Datum::Float64(y)) => int_floats_rank(x, y),
        (Datum::Float64(x), Datum::Int64(y)) => int_floats_rank(y, x),
        (Datum::Float64(x), Datum::Float64(y)) => floats_rank(x, y),
        _ => {},
    }
}

proof fn text_order_chains(a: Seq<char>, b: Seq<char>, c: Seq<char>, i: int)
    requires
        0 <= i,
        text_order_from(a, b, i) != Order::Greater,
        text_order_from(b, c, i) != Order::Greater,
    ensures
        text_order_from(a, c, i) != Order::Greater,
        text_order_from(a, b, i) == Order::Less || text_order_from(b, c, i) == Order::Less ==> text_order_from(
            a,
            c,
            i,
        ) == Order::Less,
    decreases a.len() - i,
{
    if i < a.len() && i < b.len() && i < c.len() && a[i] == b[i] && b[i] == c[i] {
        text_order_chains(a, b, c, i + 1);
    }
}

/// How two data rank; data that cannot be compared are tied.
pub open spec fn rank_order(a: Datum, b: Datum) -> Order {
    match datum_rank(a, b) {
        Ok(order) => order,
        Err(_) => Order::Equal,
    }
}

/// Comparing comparable data the other way round flips the result.
pub proof fn rank_flips(a: Datum, b: Datum)
    ensures
        rank_order(b, a) == rank_order(a, b).flipped(),
        datum_rank(a, b) is Ok <==> same_kind(a, b),
{
    match (a, b) {
        (Datum::Text(x), Datum::Text(y)) => text_order_flip(x, y, 0),
        _ => if is_number(a) && is_number(b) {
            numbers_are_ranked(a, b);
            numbers_are_ranked(b, a);
        },
    }
}

/// The rank of comparable data is transitive.
pub proof fn rank_chains(a: Datum, b: Datum, c: Datum)
    requires
        same_kind(a, b),
        same_kind(b, c),
        rank_order(a, b) != Order::Greater,
        rank_order(b, c) != Order::Greater,
    ensures
        same_kind(a, c),
        rank_order(a, c) != Order::Greater,
        rank_order(a, b) == Order::Less || rank_order(b, c) == Order::Less ==> rank_order(a, c)
            == Order::Less,
{
    match (a, b, c) {
        (Datum::Text(x), Datum::Text(y), Datum::Text(z)) => text_order_chains(x, y, z, 0),
        _ => if is_number(a) && is_number(b) && is_number(c) {
            numbers_are_ranked(a, b);
            numbers_are_ranked(b, c);
            numbers_are_ranked(a, c);
        },
    }
}

/// Whether a sort key goes up.
pub open spec fn goes_up(key: OrderKey) -> bool {
    match key.ascending {
        Some(up) => up,
        None => true,
    }
}

/// Whether a sort key puts NULL first: by default only when it goes down.
pub open spec fn puts_nulls_first(key: OrderKey) -> bool {
    match key.nulls_first {
        Some(first) => first,
        None => !goes_up(key),
    }
}

/// How two data compare under a sort key.
pub open spec fn key_order(a: Datum, b: Datum, up: bool, nulls_first: bool) -> Order {
    if is_null(a) && is_null(b) {
        Order::Equal
    } else if is_null(a) {
        if nulls_first { Order::Less } else { Order::Greater }
    } else if is_null(b) {
        if nulls_first { Order::Greater } else { Order::Less }
    } else if up {
        rank_order(a, b)
    } else {
        rank_order(a, b).flipped()
    }
}

/// How two rows of sort keys compare from the key at `i` on.
pub open spec fn row_order(a: Seq<Datum>, b: Seq<Datum>, keys: Seq<OrderKey>, i: int) -> Order
    decreases keys.len() - i,
{
    if i < 0 || i >= keys.len() {
        Order::Equal
    } else {
        let order = key_order(a[i], b[i], goes_up(keys[i]), puts_nulls_first(keys[i]));
        if order != Order::Equal {
            order
        } else {
            row_order(a, b, keys, i + 1)
        }
    }
}

/// Whether the row at `a` comes before the one at `b`: ties keep their places.
pub open spec fn row_before(rows: Seq<Seq<Datum>>, keys: Seq<OrderKey>) -> spec_fn(int, int) -> bool {
    |a: int, b: int|
        match row_order(rows[a], rows[b], keys, 0) {
            Order::Less => true,
            Order::Equal => a < b,
            Order::Greater => false,
        }
}

/// Whether the data other than NULL at each place of the rows can be compared.
pub open spec fn sortable(rows: Seq<Seq<Datum>>, n: int) -> bool {
    forall|a: int, b: int, i: int|
        #![trigger rows[a][i], rows[b][i]]
        0 <= a < rows.len() && 0 <= b < rows.len() && 0 <= i < n && !is_null(rows[a][i])
            && !is_null(rows[b][i]) ==> same_kind(rows[a][i], rows[b][i])
}

proof fn row_order_flips(a: Seq<Datum>, b: Seq<Datum>, keys: Seq<OrderKey>, i: int)
    ensures
        row_order(b, a, keys, i) == row_order(a, b, keys, i).flipped(),
    decreases keys.len() - i,
{
    if 0 <= i < keys.len() {
        rank_flips(a[i], b[i]);
        row_order_flips(a, b, keys, i + 1);
    }
}

proof fn row_order_chains(a: Seq<Datum>, b: Seq<Datum>, c: Seq<Datum>, keys: Seq<OrderKey>, i: int)
    requires
        forall|k: int|
            #![trigger a[k]]
            #![trigger b[k]]
            #![trigger c[k]]
            0 <= k < keys.len() ==> {
                &&& !is_null(a[k]) && !is_null(b[k]) ==> same_kind(a[k], b[k])
                &&& !is_null(b[k]) && !is_null(c[k]) ==> same_kind(b[k], c[k])
                &&& !is_null(a[k]) && !is_null(c[k]) ==> same_kind(a[k], c[k])
            },
        row_order(a, b, keys, i) != Order::Greater,
        row_order(b, c, keys, i) != Order::Greater,
    ensures
        row_order(a, c, keys, i) != Order::Greater,
        row_order(a, b, keys, i) == Order::Less || row_order(b, c, keys, i) == Order::Less
            ==> row_order(a, c, keys, i) == Order::Less,
    decreases keys.len() - i,
{
    if 0 <= i < keys.len() {
        let (up, first) = (goes_up(keys[i]), puts_nulls_first(keys[i]));
        let (x, y, z) = (a[i], b[i], c[i]);
        if !is_null(x) && !is_null(y) && !is_null(z) {
            rank_flips(x, y);
            rank_flips(y, z);
            rank_flips(x, z);
            if up {
                rank_chains(x, y, z);
            } else {
                rank_chains(z, y, x);
            }
        }
        if key_order(x, y, up, first) == Order::Equal && key_order(y, z, up, first) == Order::Equal {
            if !is_null(x) && !is_null(y) && !is_null(z) {
                rank_chains(z, y, x);
                rank_chains(x, y, z);
            }
            row_order_chains(a, b, c, keys, i + 1);
        }
    }
}

/// The order of sortable rows is strict.
pub proof fn row_before_is_strict(rows: Seq<Seq<Datum>>, keys: Seq<OrderKey>)
    requires
        sortable(rows, keys.len() as int),
    ensures
        strict_order(row_before(rows, keys), rows.len() as int),
{
    let before = row_before(rows, keys);
    let n = rows.len();
    assert forall|a: int| 0 <= a < n implies !#[trigger] before(a, a) by {
        row_order_flips(rows[a], rows[a], keys, 0);
    }
    assert forall|a: int, b: int| 0 <= a < n && 0 <= b < n && a != b implies #[trigger] before(a, b)
        == !before(b, a) by {
        row_order_flips(rows[a], rows[b], keys, 0);
    }
    assert forall|a: int, b: int, c: int|
        0 <= a < n && 0 <= b < n && 0 <= c < n && #[trigger] before(a, b) && #[trigger] before(
            b,
            c,
        ) implies before(a, c) by {
        row_order_chains(rows[a], rows[b], rows[c], keys, 0);
    }
}

/// The first row from `k` on whose datum at place `i` is not NULL.
pub open spec fn first_known(rows: Seq<Seq<Datum>>, i: int, k: int) -> Option<int>
    decreases rows.len() - k,
{
    if k < 0 || k >= rows.len() {
        None
    } else if !is_null(rows[k][i]) {
        Some(k)
    } else {
        first_known(rows, i, k + 1)
    }
}

/// Whether the data at place `i` of the rows from `k` on compare with a datum.
pub open spec fn place_sortable(rows: Seq<Seq<Datum>>, i: int, reference: Datum, k: int) -> Result<
    (),
    Fault,
>
    decreases rows.len() - k,
{
    if k < 0 || k >= rows.len() {
        Ok(())
    } else if is_null(rows[k][i]) {
        place_sortable(rows, i, reference, k + 1)
    } else {
        match datum_rank(reference, rows[k][i]) {
            Err(fault) => Err(fault),
            Ok(_) => place_sortable(rows, i, reference, k + 1),
        }
    }
}

/// Whether the data at each of the places from `i` below `n` of the rows can be compared.
pub open spec fn sort_types(rows: Seq<Seq<Datum>>, n: int, i: int) -> Result<(), Fault>
    decreases n - i,
{
    if i < 0 || i >= n {
        Ok(())
    } else {
        match first_known(rows, i, 0) {
            None => sort_types(rows, n, i + 1),
            Some(k) => match place_sortable(rows, i, rows[k][i], 0) {
                Err(fault) => Err(fault),
                Ok(()) => sort_types(rows, n, i + 1),
            },
        }
    }
}

proof fn first_known_is_first(rows: Seq<Seq<Datum>>, i: int, k: int, r: int)
    requires
        0 <= k <= r < rows.len(),
        !is_null(rows[r][i]),
    ensures
        first_known(rows, i, k) matches Some(w) && k <= w <= r && !is_null(rows[w][i]),
    decreases rows.len() - k,
{
    if is_null(rows[k][i]) {
        first_known_is_first(rows, i, k + 1, r);
    }
}

proof fn place_sortable_at(rows: Seq<Seq<Datum>>, i: int, reference: Datum, k: int, r: int)
    requires
        0 <= k <= r < rows.len(),
        place_sortable(rows, i, reference, k) is Ok,
        !is_null(rows[r][i]),
    ensures
        same_kind(reference, rows[r][i]),
    decreases rows.len() - k,
{
    rank_flips(reference, rows[k][i]);
    if k < r {
        place_sortable_at(rows, i, reference, k + 1, r);
    }
}

proof fn sort_types_at(rows: Seq<Seq<Datum>>, n: int, i: int, at: int, a: int, b: int)
    requires
        0 <= i <= at < n,
        0 <= a < rows.len(),
        0 <= b < rows.len(),
        sort_types(rows, n, i) is Ok,
        !is_null(rows[a][at]),
        !is_null(rows[b][at]),
    ensures
        same_kind(rows[a][at], rows[b][at]),
    decreases n - i,
{
    if i < at {
        sort_types_at(rows, n, i + 1, at, a, b);
    } else {
        first_known_is_first(rows, i, 0, a);
        let k = first_known(rows, i, 0)->Some_0;
        place_sortable_at(rows, i, rows[k][i], 0, a);
        place_sortable_at(rows, i, rows[k][i], 0, b);
    }
}

/// Rows that pass the type check are sortable.
pub proof fn checked_rows_are_sortable(rows: Seq<Seq<Datum>>, n: int)
    requires
        sort_types(rows, n, 0) is Ok,
    ensures
        sortable(rows, n),
{
    assert forall|a: int, b: int, i: int|
        #![trigger rows[a][i], rows[b][i]]
        0 <= a < rows.len() && 0 <= b < rows.len() && 0 <= i < n && !is_null(rows[a][i])
            && !is_null(rows[b][i]) implies same_kind(rows[a][i], rows[b][i]) by {
        sort_types_at(rows, n, 0, i, a, b);
    }
}

/// Checks that rows of sort keys can be compared.
#[verifier::loop_isolation(false)]
pub fn validate_sort_types(rows: &Vec<Vec<Value>>, n: usize) -> (r: Result<(), Error>)
    requires
        forall|a: int| 0 <= a < rows.len() ==> #[trigger] rows[a].len() == n,
    ensures
        plain(r) == sort_types(rows_of(rows@), n as int, 0),
{
    let ghost data = rows_of(rows@);
    let mut i: usize = 0;
    while i < n
        invariant
            i <= n,
            sort_types(data, n as int, 0) == sort_types(data, n as int, i as int),
        decreases n - i,
    {
        let mut k: usize = 0;
        while k < rows.len()
            invariant
                k <= rows.len(),
                first_known(data, i as int, 0) == first_known(data, i as int, k as int),
            decreases rows.len() - k,
        {
            assert(rows[k as int].len() == n);
            assert(data[k as int][i as int] == rows[k as int][i as int]@);
            if !rows[k][i].is_null() {
                break ;
            }
            k = k + 1;
        }
        if k < rows.len() {
            assert(rows[k as int].len() == n);
            assert(data[k as int][i as int] == rows[k as int][i as int]@);
            let reference = &rows[k][i];
            let mut r: usize = 0;
            while r < rows.len()
                invariant
                    r <= rows.len(),
                    place_sortable(data, i as int, reference@, 0) == place_sortable(
                        data,
                        i as int,
                        reference@,
                        r as int,
                    ),
                decreases rows.len() - r,
            {
                assert(rows[r as int].len() == n);
                assert(data[r as int][i as int] == rows[r as int][i as int]@);
                if !rows[r][i].is_null() {
                    let order = reference.total_order(&rows[r][i])?;
                }
                r = r + 1;
            }
        }
        i = i + 1;
    }
    Ok(())
}

/// Compares two rows of sort keys.
#[verifier::loop_isolation(false)]
pub fn compare_projected(left: &Vec<Value>, right: &Vec<Value>, keys: &Vec<OrderKey>) -> (order: Order)
    requires
        left.len() == keys.len(),
        right.len() == keys.len(),
    ensures
        order == row_order(data_of(left@), data_of(right@), keys@, 0),
{
    let ghost (a, b) = (data_of(left@), data_of(right@));
    let mut i: usize = 0;
    while i < keys.len()
        invariant
            i <= keys.len(),
            row_order(a, b, keys@, 0) == row_order(a, b, keys@, i as int),
        decreases keys.len() - i,
    {
        assert(a[i as int] == left[i as int]@ && b[i as int] == right[i as int]@);
        let up = keys[i].ascending.unwrap_or(true);
        let nulls_first = keys[i].nulls_first.unwrap_or(!up);
        let order = match (left[i].is_null(), right[i].is_null()) {
            (true, true) => Order::Equal,
            (true, false) => if nulls_first {
                Order::Less
            } else {
                Order::Greater
            },
            (false, true) => if nulls_first {
                Order::Greater
            } else {
                Order::Less
            },
            (false, false) => {
                let order = match left[i].total_order(&right[i]) {
                    Ok(order) => order,
                    Err(_) => Order::Equal,
                };
                if up {
                    order
                } else {
                    order.reverse()
                }
            },
        };
        match order {
            Order::Equal => {},
            _ => return order,
        }
        i = i + 1;
    }
    Order::Equal
}

/// The places of rows in the order of their sort keys.
pub open spec fn sorted_places(rows: Seq<Seq<Datum>>, keys: Seq<OrderKey>) -> Seq<usize> {
    arranged(rows.len() as int, row_before(rows, keys))
}

/// Whether the row at `a` comes before the one at `b`.
fn comes_before(rows: &Vec<Vec<Value>>, keys: &Vec<OrderKey>, a: usize, b: usize) -> (r: bool)
    requires
        forall|a: int| 0 <= a < rows.len() ==> #[trigger] rows[a].len() == keys.len(),
        a < rows.len(),
        b < rows.len(),
    ensures
        r == row_before(rows_of(rows@), keys@)(a as int, b as int),
{
    assert(rows[a as int].len() == keys.len() && rows[b as int].len() == keys.len());
    assert(rows_of(rows@)[a as int] == data_of(rows[a as int]@));
    assert(rows_of(rows@)[b as int] == data_of(rows[b as int]@));
    match compare_projected(&rows[a], &rows[b], keys) {
        Order::Less => true,
        Order::Equal => a < b,
        Order::Greater => false,
    }
}

/// Sorts rows by their sort keys; ties keep their places.
pub fn sort_rows(rows: &Vec<Vec<Value>>, keys: &Vec<OrderKey>) -> (places: Vec<usize>)
    requires
        forall|a: int| 0 <= a < rows.len() ==> #[trigger] rows[a].len() == keys.len(),
        sortable(rows_of(rows@), keys.len() as int),
    ensures
        places@ == sorted_places(rows_of(rows@), keys@),
        covers(places@, 0, rows.len() as int),
        ascending(places@, row_before(rows_of(rows@), keys@)),
{
    proof {
        row_before_is_strict(rows_of(rows@), keys@);
    }
    let earlier = |a: usize, b: usize| -> (r: bool)
        requires
            a < rows.len(),
            b < rows.len(),
        ensures
            r == row_before(rows_of(rows@), keys@)(a as int, b as int),
        { comes_before(rows, keys, a, b) };
    sort_positions(rows.len(), &earlier, Ghost(row_before(rows_of(rows@), keys@)))
}

/// Sorting leaves the rows in the order of their sort keys, and ties in their places.
pub proof fn sorting_orders_rows(rows: Seq<Seq<Datum>>, keys: Seq<OrderKey>, places: Seq<usize>, i: int, j: int)
    requires
        ascending(places, row_before(rows, keys)),
        0 <= i < j < places.len(),
    ensures
        row_order(rows[places[i] as int], rows[places[j] as int], keys, 0) != Order::Greater,
        row_order(rows[places[i] as int], rows[places[j] as int], keys, 0) == Order::Equal ==> places[i]
            < places[j],
{
    assert(row_before(rows, keys)(places[i] as int, places[j] as int));
}

} // verus!
