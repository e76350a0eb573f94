//! What running a logical plan is for.

use vstd::prelude::*;
use crate::evaluator::ComparisonOperator;
use crate::executor::grouping::{all_results_from, argument_of, first_groups, fresh, group_with, grouping_of, groups_from, groups_with, key_of, opened, results_from, tallied, tallies_from, tally_result, ExecutionFault, Groups, Tally};
use crate::executor::guarantees::keys_differ;
use crate::executor::plan::{aggregate_fits, predicate_holds, AggregateExpression, AggregateFunction, Predicate, ResolvedColumn, Table};
use crate::executor::ranking::{full_order, full_order_chains, full_order_flips, lists_match};
use crate::float::{float_from, float_quotient, float_sum, FloatModel};
use crate::laws::aggregates::integer_sum;
use crate::laws::orders::{below, rank_puts_the_smaller_first};
use crate::text::Order;
use crate::types::{DataType, Datum};

verus! {

/// Whether a datum is smaller than another one where all data are ordered: NULL first, then
/// numbers, truth values and text, and within a kind the smaller ones first.
pub open spec fn smaller(a: Datum, b: Datum) -> bool {
    match (a, b) {
        (Datum::Null, _) => !(b is Null),
        (_, Datum::Null) => false,
        (Datum::Bool(_), Datum::Int64(_)) => false,
        (Datum::Bool(_), Datum::Float64(_)) => false,
        (Datum::Bool(_), Datum::Text(_)) => true,
        (Datum::Text(_), Datum::Text(_)) => below(a, b),
        (Datum::Text(_), _) => false,
        (_, Datum::Text(_)) => true,
        (Datum::Bool(_), Datum::Bool(_)) => below(a, b),
        (_, Datum::Bool(_)) => true,
        _ => below(a, b),
    }
}

/// The order of all data puts the smaller datum first.
pub proof fn full_order_puts_the_smaller_first(a: Datum, b: Datum)
    ensures
        full_order(a, b) == Order::Less <==> smaller(a, b),
        full_order(a, b) == Order::Greater <==> smaller(b, a),
        full_order(a, b) == Order::Equal <==> !smaller(a, b) && !smaller(b, a),
        !(smaller(a, b) && smaller(b, a)),
{
    rank_puts_the_smaller_first(a, b);
}

/// A condition holds exactly where the comparison does, or where its parts do as its operator
/// asks.
pub proof fn conditions_mean_what_they_say(p: Predicate, t: Table, row: int)
    ensures
        match p {
            Predicate::Compare { column, operator, value } => {
                let cell = t.cell(column.index as int, row);
                predicate_holds(p, t, row) <==> match operator {
                    ComparisonOperator::Equal => !smaller(cell, value@) && !smaller(value@, cell),
                    ComparisonOperator::NotEqual => smaller(cell, value@) || smaller(value@, cell),
                    ComparisonOperator::LessThan => smaller(cell, value@),
                    ComparisonOperator::LessThanOrEqual => !smaller(value@, cell),
                    ComparisonOperator::GreaterThan => smaller(value@, cell),
                    ComparisonOperator::GreaterThanOrEqual => !smaller(cell, value@),
                }
            },
            Predicate::And(a, b) => predicate_holds(p, t, row) <==> predicate_holds(*a, t, row)
                && predicate_holds(*b, t, row),
            Predicate::Or(a, b) => predicate_holds(p, t, row) <==> predicate_holds(*a, t, row)
                || predicate_holds(*b, t, row),
            Predicate::Not(a) => predicate_holds(p, t, row) <==> !predicate_holds(*a, t, row),
        },
{
    if let Predicate::Compare { column, operator, value } = p {
        full_order_puts_the_smaller_first(t.cell(column.index as int, row), value@);
    }
}

/// Whether the cells of a row in some columns are equal to a key.
pub open spec fn has_key(t: Table, group_by: Seq<ResolvedColumn>, key: Seq<Datum>, row: usize) -> bool {
    forall|i: int|
        0 <= i < group_by.len() ==> !smaller(
            t.cell((#[trigger] group_by[i]).index as int, row as int),
            key[i],
        ) && !smaller(key[i], t.cell(group_by[i].index as int, row as int))
}

/// The rows with a key.
pub open spec fn members(t: Table, rows: Seq<usize>, group_by: Seq<ResolvedColumn>, key: Seq<Datum>) -> Seq<
    usize,
> {
    rows.filter(|row: usize| has_key(t, group_by, key, row))
}

/// The cells of an aggregate's column in some rows.
pub open spec fn arguments(a: AggregateExpression, t: Table, rows: Seq<usize>) -> Seq<Datum> {
    Seq::new(
        rows.len(),
        |k: int|
            match a.argument {
                Some(c) => t.cell(c.index as int, rows[k] as int),
                None => Datum::Null,
            },
    )
}

/// The floating-point sum of floating-point data, added in their order to zero.
pub open spec fn sum_of_floats(m: FloatModel, data: Seq<Datum>) -> u64
    decreases data.len(),
{
    if data.len() == 0 {
        0
    } else {
        float_sum(m, sum_of_floats(m, data.drop_last()), data.last()->Float64_0)
    }
}

/// Whether a datum is the result of an aggregate over the cells of its column.
pub open spec fn aggregates_to(a: AggregateExpression, cells: Seq<Datum>, d: Datum, m: FloatModel) -> bool {
    let integers = a.argument matches Some(c) && c.data_type == DataType::Int64;
    match a.function {
        AggregateFunction::Count => d is Int64 && d->Int64_0 == cells.len(),
        AggregateFunction::Sum => if integers {
            d is Int64 && d->Int64_0 == integer_sum(cells)
        } else {
            d == Datum::Float64(sum_of_floats(m, cells))
        },
        AggregateFunction::Min => cells.contains(d) && forall|k: int|
            0 <= k < cells.len() ==> !smaller(#[trigger] cells[k], d),
        AggregateFunction::Max => cells.contains(d) && forall|k: int|
            0 <= k < cells.len() ==> !smaller(d, #[trigger] cells[k]),
        AggregateFunction::Avg => {
            let total = if integers {
                float_from(m, integer_sum(cells))
            } else {
                sum_of_floats(m, cells)
            };
            cells.len() > 0 && d == Datum::Float64(
                float_quotient(m, total, float_from(m, cells.len() as int)),
            )
        },
    }
}

/// Whether a state holds what an aggregate needs to know of the cells so far.
spec fn tells(a: AggregateExpression, cells: Seq<Datum>, s: Tally, m: FloatModel) -> bool {
    let integers = a.argument matches Some(c) && c.data_type == DataType::Int64;
    match (a.function, s) {
        (AggregateFunction::Count, Tally::Count(n)) => n == cells.len(),
        (AggregateFunction::Sum, Tally::SumInt(n)) => integers && n == integer_sum(cells),
        (AggregateFunction::Sum, Tally::SumFloat(x)) => !integers && x == sum_of_floats(m, cells),
        (AggregateFunction::Min, Tally::Min(None)) => cells.len() == 0,
        (AggregateFunction::Max, Tally::Max(None)) => cells.len() == 0,
        (AggregateFunction::Min, Tally::Min(Some(d))) => cells.contains(d) && forall|k: int|
            0 <= k < cells.len() ==> !smaller(#[trigger] cells[k], d),
        (AggregateFunction::Max, Tally::Max(Some(d))) => cells.contains(d) && forall|k: int|
            0 <= k < cells.len() ==> !smaller(d, #[trigger] cells[k]),
        (AggregateFunction::Avg, Tally::AvgInt { sum, count }) => integers && sum == integer_sum(
            cells,
        ) && count == cells.len(),
        (AggregateFunction::Avg, Tally::AvgFloat { sum, count }) => !integers && sum
            == sum_of_floats(m, cells) && count == cells.len(),
        _ => false,
    }
}

proof fn sums_grow(m: FloatModel, cells: Seq<Datum>, d: Datum)
    ensures
        integer_sum(cells.push(d)) == integer_sum(cells) + (if d is Int64 {
            d->Int64_0 as int
        } else {
            0
        }),
        sum_of_floats(m, cells.push(d)) == float_sum(m, sum_of_floats(m, cells), d->Float64_0),
{
    assert(cells.push(d).drop_last() =~= cells);
}

/// The order of all data is transitive.
pub proof fn smaller_chains(a: Datum, b: Datum, c: Datum)
    requires
        !smaller(b, a),
        !smaller(c, b),
    ensures
        !smaller(c, a),
{
    full_order_puts_the_smaller_first(a, b);
    full_order_puts_the_smaller_first(b, c);
    full_order_puts_the_smaller_first(a, c);
    full_order_chains(a, b, c);
}

proof fn a_fresh_state_tells_nothing(a: AggregateExpression, m: FloatModel)
    ensures
        tells(a, Seq::empty(), fresh(a), m),
{
}

proof fn a_row_is_told(a: AggregateExpression, cells: Seq<Datum>, s: Tally, d: Datum, m: FloatModel)
    requires
        tells(a, cells, s, m),
        a.function is Sum || a.function is Avg ==> a.argument is Some && match a.argument->Some_0.data_type {
            DataType::Int64 => d is Int64,
            DataType::Float64 => d is Float64,
            _ => false,
        },
    ensures
        tallied(s, d, m) matches Ok(next) ==> tells(a, cells.push(d), next, m),
{
    let more = cells.push(d);
    sums_grow(m, cells, d);
    assert(more[cells.len() as int] == d);
    match s {
        Tally::Min(Some(x)) => {
            full_order_puts_the_smaller_first(d, x);
            full_order_puts_the_smaller_first(d, d);
            let best = if full_order(d, x) == Order::Less {
                d
            } else {
                x
            };
            assert forall|k: int| 0 <= k < more.len() implies !smaller(#[trigger] more[k], best) by {
                if k < cells.len() {
                    assert(!smaller(cells[k], x));
                    smaller_chains(best, x, cells[k]);
                }
            }
            let k = choose|k: int| 0 <= k < cells.len() && cells[k] == x;
            assert(more[k] == x);
        },
        Tally::Max(Some(x)) => {
            full_order_puts_the_smaller_first(d, x);
            full_order_puts_the_smaller_first(d, d);
            let best = if full_order(d, x) == Order::Greater {
                d
            } else {
                x
            };
            assert forall|k: int| 0 <= k < more.len() implies !smaller(best, #[trigger] more[k]) by {
                if k < cells.len() {
                    assert(!smaller(x, cells[k]));
                    smaller_chains(cells[k], x, best);
                }
            }
            let k = choose|k: int| 0 <= k < cells.len() && cells[k] == x;
            assert(more[k] == x);
        },
        Tally::Min(None) => full_order_puts_the_smaller_first(d, d),
        Tally::Max(None) => full_order_puts_the_smaller_first(d, d),
        _ => {},
    }
}

proof fn a_state_that_tells_gives_the_result(
    a: AggregateExpression,
    cells: Seq<Datum>,
    s: Tally,
    m: FloatModel,
)
    requires
        tells(a, cells, s, m),
    ensures
        tally_result(s, m) matches Ok(d) ==> aggregates_to(a, cells, d, m),
{
}

proof fn keys_match_where_rows_have_them(
    t: Table,
    group_by: Seq<ResolvedColumn>,
    key: Seq<Datum>,
    row: usize,
)
    requires
        key.len() == group_by.len(),
    ensures
        has_key(t, group_by, key, row) <==> lists_match(key, key_of(t, group_by, row as int)),
{
    let own = key_of(t, group_by, row as int);
    if lists_match(key, own) {
        assert forall|i: int| 0 <= i < group_by.len() implies !smaller(
            t.cell((#[trigger] group_by[i]).index as int, row as int),
            key[i],
        ) && !smaller(key[i], t.cell(group_by[i].index as int, row as int)) by {
            assert(full_order(key[i], own[i]) == Order::Equal);
            full_order_puts_the_smaller_first(key[i], own[i]);
        }
    }
    if has_key(t, group_by, key, row) {
        assert forall|i: int| 0 <= i < key.len() implies full_order(#[trigger] key[i], own[i])
            == Order::Equal by {
            let c = group_by[i];
            full_order_puts_the_smaller_first(key[i], own[i]);
        }
    }
}

proof fn matches_chain(a: Seq<Datum>, b: Seq<Datum>, c: Seq<Datum>)
    requires
        lists_match(a, c),
        lists_match(b, c),
    ensures
        lists_match(a, b),
{
    assert forall|i: int| 0 <= i < a.len() implies full_order(#[trigger] a[i], b[i])
        == Order::Equal by {
        assert(full_order(b[i], c[i]) == Order::Equal);
        full_order_flips(b[i], c[i]);
        full_order_flips(a[i], c[i]);
        full_order_flips(a[i], b[i]);
        full_order_chains(a[i], c[i], b[i]);
        full_order_chains(b[i], c[i], a[i]);
    }
}

proof fn found_group_matches(keys: Seq<Seq<Datum>>, key: Seq<Datum>, g: int)
    requires
        0 <= g,
    ensures
        match group_with(keys, key, g) {
            Some(k) => g <= k < keys.len() && lists_match(keys[k], key),
            None => forall|k: int| g <= k < keys.len() ==> !lists_match(#[trigger] keys[k], key),
        },
    decreases keys.len() - g,
{
    if g < keys.len() {
        found_group_matches(keys, key, g + 1);
    }
}

/// Whether every row has the key of a group.
#[verifier::opaque]
pub open spec fn rows_have_groups(
    keys: Seq<Seq<Datum>>,
    rows: Seq<usize>,
    t: Table,
    group_by: Seq<ResolvedColumn>,
) -> bool {
    forall|k: int| 0 <= k < rows.len() ==> has_group(keys, #[trigger] rows[k], t, group_by)
}

/// Whether a row has the key of a group.
pub open spec fn has_group(
    keys: Seq<Seq<Datum>>,
    row: usize,
    t: Table,
    group_by: Seq<ResolvedColumn>,
) -> bool {
    exists|g: int| 0 <= g < keys.len() && #[trigger] has_key(t, group_by, keys[g], row)
}

/// Whether every key is that of a row.
#[verifier::opaque]
pub open spec fn groups_have_rows(
    keys: Seq<Seq<Datum>>,
    rows: Seq<usize>,
    t: Table,
    group_by: Seq<ResolvedColumn>,
) -> bool {
    forall|g: int| 0 <= g < keys.len() ==> has_row(#[trigger] keys[g], rows, t, group_by)
}

/// Whether a key is that of a row.
pub open spec fn has_row(
    key: Seq<Datum>,
    rows: Seq<usize>,
    t: Table,
    group_by: Seq<ResolvedColumn>,
) -> bool {
    exists|k: int| 0 <= k < rows.len() && key == key_of(t, group_by, #[trigger] rows[k] as int)
}

proof fn more_rows_have_groups(
    keys: Seq<Seq<Datum>>,
    next: Seq<Seq<Datum>>,
    rows: Seq<usize>,
    row: usize,
    t: Table,
    group_by: Seq<ResolvedColumn>,
    g: int,
)
    requires
        rows_have_groups(keys, rows, t, group_by),
        keys.len() <= next.len(),
        next.take(keys.len() as int) == keys,
        0 <= g < next.len(),
        has_key(t, group_by, next[g], row),
    ensures
        rows_have_groups(next, rows.push(row), t, group_by),
{
    reveal(rows_have_groups);
    let more = rows.push(row);
    assert forall|k: int| 0 <= k < more.len() implies has_group(
        next,
        #[trigger] more[k],
        t,
        group_by,
    ) by {
        if k < rows.len() {
            assert(has_group(keys, rows[k], t, group_by));
            let h = choose|h: int|
                0 <= h < keys.len() && #[trigger] has_key(t, group_by, keys[h], rows[k]);
            assert(next.take(keys.len() as int)[h] == next[h]);
            assert(has_key(t, group_by, next[h], more[k]));
        } else {
            assert(has_key(t, group_by, next[g], more[k]));
        }
    }
}

proof fn more_groups_have_rows(
    keys: Seq<Seq<Datum>>,
    next: Seq<Seq<Datum>>,
    rows: Seq<usize>,
    row: usize,
    t: Table,
    group_by: Seq<ResolvedColumn>,
)
    requires
        groups_have_rows(keys, rows, t, group_by),
        next == keys || next == keys.push(key_of(t, group_by, row as int)),
    ensures
        groups_have_rows(next, rows.push(row), t, group_by),
{
    reveal(groups_have_rows);
    let more = rows.push(row);
    assert forall|h: int| 0 <= h < next.len() implies has_row(
        #[trigger] next[h],
        more,
        t,
        group_by,
    ) by {
        if h < keys.len() {
            assert(next[h] == keys[h]);
            assert(has_row(keys[h], rows, t, group_by));
            let k = choose|k: int|
                0 <= k < rows.len() && keys[h] == key_of(t, group_by, #[trigger] rows[k] as int);
            assert(more[k] == rows[k]);
        } else {
            assert(more[rows.len() as int] == row);
        }
    }
}

proof fn rows_with_a_new_key_are_none(
    keys: Seq<Seq<Datum>>,
    rows: Seq<usize>,
    t: Table,
    group_by: Seq<ResolvedColumn>,
    key: Seq<Datum>,
)
    requires
        rows_have_groups(keys, rows, t, group_by),
        key.len() == group_by.len(),
        forall|g: int| 0 <= g < keys.len() ==> (#[trigger] keys[g]).len() == group_by.len(),
        forall|g: int| 0 <= g < keys.len() ==> !lists_match(#[trigger] keys[g], key),
    ensures
        members(t, rows, group_by, key) == Seq::<usize>::empty(),
{
    reveal(rows_have_groups);
    let keeps = |row: usize| has_key(t, group_by, key, row);
    assert forall|k: int| 0 <= k < rows.len() implies !keeps(#[trigger] rows[k]) by {
        if has_key(t, group_by, key, rows[k]) {
            assert(has_group(keys, rows[k], t, group_by));
            let g = choose|g: int|
                0 <= g < keys.len() && #[trigger] has_key(t, group_by, keys[g], rows[k]);
            keys_match_where_rows_have_them(t, group_by, key, rows[k]);
            keys_match_where_rows_have_them(t, group_by, keys[g], rows[k]);
            matches_chain(keys[g], key, key_of(t, group_by, rows[k] as int));
        }
    }
    nothing_is_kept(rows, keeps);
    assert(members(t, rows, group_by, key) =~= Seq::<usize>::empty());
}

/// Whether groups are those of the rows so far, and their states tell of them.
spec fn told(
    groups: Groups,
    rows: Seq<usize>,
    t: Table,
    group_by: Seq<ResolvedColumn>,
    aggregates: Seq<AggregateExpression>,
    m: FloatModel,
) -> bool {
    &&& keys_differ(groups.keys)
    &&& forall|g: int| 0 <= g < groups.keys.len() ==> (#[trigger] groups.keys[g]).len() == group_by.len()
    &&& groups.tallies.len() == aggregates.len()
    &&& forall|a: int|
        0 <= a < aggregates.len() ==> (#[trigger] groups.tallies[a]).len() == groups.keys.len()
    &&& forall|a: int, g: int|
        0 <= a < aggregates.len() && 0 <= g < groups.keys.len() ==> tells(
            aggregates[a],
            arguments(aggregates[a], t, members(t, rows, group_by, groups.keys[g])),
            #[trigger] groups.tallies[a][g],
            m,
        )
    &&& rows_have_groups(groups.keys, rows, t, group_by)
    &&& group_by.len() > 0 ==> groups_have_rows(groups.keys, rows, t, group_by)
    &&& group_by.len() == 0 ==> groups.keys.len() == 1
}

proof fn members_grow(
    t: Table,
    rows: Seq<usize>,
    row: usize,
    group_by: Seq<ResolvedColumn>,
    key: Seq<Datum>,
    a: AggregateExpression,
)
    ensures
        has_key(t, group_by, key, row) ==> members(t, rows.push(row), group_by, key) == members(
            t,
            rows,
            group_by,
            key,
        ).push(row) && arguments(a, t, members(t, rows.push(row), group_by, key)) == arguments(
            a,
            t,
            members(t, rows, group_by, key),
        ).push(argument_of(a, t, row as int)),
        !has_key(t, group_by, key, row) ==> members(t, rows.push(row), group_by, key) == members(
            t,
            rows,
            group_by,
            key,
        ),
{
    reveal(Seq::filter);
    assert(rows.push(row).drop_last() =~= rows);
    if has_key(t, group_by, key, row) {
        assert(arguments(a, t, members(t, rows.push(row), group_by, key)) =~= arguments(
            a,
            t,
            members(t, rows, group_by, key),
        ).push(argument_of(a, t, row as int)));
    }
}

proof fn states_are_updated(
    tallies: Seq<Seq<Tally>>,
    a: int,
    g: int,
    aggregates: Seq<AggregateExpression>,
    t: Table,
    row: int,
    m: FloatModel,
)
    requires
        0 <= a <= aggregates.len(),
        tallies.len() == aggregates.len(),
        forall|b: int| 0 <= b < aggregates.len() ==> 0 <= g < (#[trigger] tallies[b]).len(),
    ensures
        tallies_from(tallies, a, g, aggregates, t, row, m) matches Ok(after) ==> {
            &&& after.len() == tallies.len()
            &&& forall|b: int|
                0 <= b < aggregates.len() ==> (#[trigger] after[b]).len() == tallies[b].len()
            &&& forall|b: int, h: int|
                0 <= b < aggregates.len() && 0 <= h < tallies[b].len() && (h != g || b < a)
                    ==> #[trigger] after[b][h] == tallies[b][h]
            &&& forall|b: int|
                a <= b < aggregates.len() ==> tallied(
                    tallies[b][g],
                    argument_of(aggregates[b], t, row),
                    m,
                ) == Ok::<Tally, ExecutionFault>(#[trigger] after[b][g])
        },
    decreases aggregates.len() - a,
{
    if a < aggregates.len() {
        if let Ok(s) = tallied(tallies[a][g], argument_of(aggregates[a], t, row), m) {
            let next = tallies.update(a, tallies[a].update(g, s));
            assert forall|b: int| 0 <= b < aggregates.len() implies 0 <= g < (#[trigger] next[b]).len() by {
                assert(0 <= g < tallies[b].len());
            }
            states_are_updated(next, a + 1, g, aggregates, t, row, m);
            if let Ok(after) = tallies_from(next, a + 1, g, aggregates, t, row, m) {
                assert forall|b: int, h: int|
                    0 <= b < aggregates.len() && 0 <= h < tallies[b].len() && (h != g || b < a)
                    implies #[trigger] after[b][h] == tallies[b][h] by {
                    assert(next[b].len() == tallies[b].len());
                    assert(after[b][h] == next[b][h]);
                }
                assert forall|b: int| a <= b < aggregates.len() implies tallied(
                    tallies[b][g],
                    argument_of(aggregates[b], t, row),
                    m,
                ) == Ok::<Tally, ExecutionFault>(#[trigger] after[b][g]) by {
                    if b == a {
                        assert(after[b][g] == next[b][g]);
                    } else {
                        assert(next[b] == tallies[b]);
                    }
                }
            }
        }
    }
}

proof fn an_argument_has_its_type(a: AggregateExpression, t: Table, row: int)
    requires
        aggregate_fits(a, t),
    ensures
        a.function is Sum || a.function is Avg ==> a.argument is Some && match a.argument->Some_0.data_type {
            DataType::Int64 => argument_of(a, t, row) is Int64,
            DataType::Float64 => argument_of(a, t, row) is Float64,
            _ => false,
        },
{
}

proof fn an_opened_group_is_told(
    groups: Groups,
    rows: Seq<usize>,
    row: usize,
    t: Table,
    group_by: Seq<ResolvedColumn>,
    aggregates: Seq<AggregateExpression>,
    m: FloatModel,
)
    requires
        told(groups, rows, t, group_by, aggregates, m),
        group_with(groups.keys, key_of(t, group_by, row as int), 0) is None,
    ensures
        ({
            let next = opened(groups, key_of(t, group_by, row as int), aggregates);
            &&& keys_differ(next.keys)
            &&& forall|g: int|
                0 <= g < next.keys.len() ==> (#[trigger] next.keys[g]).len() == group_by.len()
            &&& next.tallies.len() == aggregates.len()
            &&& forall|a: int|
                0 <= a < aggregates.len() ==> (#[trigger] next.tallies[a]).len() == next.keys.len()
            &&& forall|a: int, g: int|
                0 <= a < aggregates.len() && 0 <= g < next.keys.len() ==> tells(
                    aggregates[a],
                    arguments(aggregates[a], t, members(t, rows, group_by, next.keys[g])),
                    #[trigger] next.tallies[a][g],
                    m,
                )
            &&& group_by.len() > 0
        }),
{
    let key = key_of(t, group_by, row as int);
    let next = opened(groups, key, aggregates);
    found_group_matches(groups.keys, key, 0);
    let n = groups.keys.len() as int;
    if group_by.len() == 0 {
        assert(lists_match(groups.keys[0], key));
    }
    rows_with_a_new_key_are_none(groups.keys, rows, t, group_by, key);
    assert forall|a: int, g: int|
        0 <= a < aggregates.len() && 0 <= g < next.keys.len() implies tells(
        aggregates[a],
        arguments(aggregates[a], t, members(t, rows, group_by, next.keys[g])),
        #[trigger] next.tallies[a][g],
        m,
    ) by {
        if g < n {
            assert(next.keys[g] == groups.keys[g]);
            assert(next.tallies[a][g] == groups.tallies[a][g]);
        } else {
            a_fresh_state_tells_nothing(aggregates[a], m);
            assert(next.keys[g] == key);
            assert(arguments(aggregates[a], t, members(t, rows, group_by, key)) =~= Seq::empty());
        }
    }
}

proof fn nothing_is_kept(rows: Seq<usize>, keeps: spec_fn(usize) -> bool)
    requires
        forall|k: int| 0 <= k < rows.len() ==> !keeps(#[trigger] rows[k]),
    ensures
        rows.filter(keeps).len() == 0,
    decreases rows.len(),
{
    reveal(Seq::filter);
    if rows.len() > 0 {
        assert forall|k: int| 0 <= k < rows.drop_last().len() implies !keeps(
            #[trigger] rows.drop_last()[k],
        ) by {
            assert(!keeps(rows[k]));
        }
        nothing_is_kept(rows.drop_last(), keeps);
        assert(!keeps(rows[rows.len() - 1]));
    }
}

proof fn a_state_goes_on(
    a: AggregateExpression,
    rows: Seq<usize>,
    row: usize,
    t: Table,
    group_by: Seq<ResolvedColumn>,
    key: Seq<Datum>,
    before: Tally,
    after: Tally,
    m: FloatModel,
)
    requires
        aggregate_fits(a, t),
        tells(a, arguments(a, t, members(t, rows, group_by, key)), before, m),
        has_key(t, group_by, key, row) ==> tallied(before, argument_of(a, t, row as int), m) == Ok::<
            Tally,
            ExecutionFault,
        >(after),
        !has_key(t, group_by, key, row) ==> after == before,
    ensures
        tells(a, arguments(a, t, members(t, rows.push(row), group_by, key)), after, m),
{
    members_grow(t, rows, row, group_by, key, a);
    let cells = arguments(a, t, members(t, rows, group_by, key));
    if has_key(t, group_by, key, row) {
        an_argument_has_its_type(a, t, row as int);
        a_row_is_told(a, cells, before, argument_of(a, t, row as int), m);
    }
}

proof fn one_more_row_is_told(
    groups: Groups,
    rows: Seq<usize>,
    row: usize,
    t: Table,
    group_by: Seq<ResolvedColumn>,
    aggregates: Seq<AggregateExpression>,
    m: FloatModel,
)
    requires
        told(groups, rows, t, group_by, aggregates, m),
        forall|a: int| 0 <= a < aggregates.len() ==> aggregate_fits(#[trigger] aggregates[a], t),
    ensures
        groups_with(groups, row as int, t, group_by, aggregates, m) matches Ok(next) ==> told(
            next,
            rows.push(row),
            t,
            group_by,
            aggregates,
            m,
        ),
{
    let key = key_of(t, group_by, row as int);
    let (known, g) = match group_with(groups.keys, key, 0) {
        Some(g) => (groups, g),
        None => (opened(groups, key, aggregates), groups.keys.len() as int),
    };
    found_group_matches(groups.keys, key, 0);
    if group_with(groups.keys, key, 0) is None {
        an_opened_group_is_told(groups, rows, row, t, group_by, aggregates, m);
        assert forall|i: int| 0 <= i < key.len() implies full_order(#[trigger] key[i], key[i])
            == Order::Equal by {
            full_order_flips(key[i], key[i]);
        }
    }
    assert(lists_match(known.keys[g], key));
    keys_match_where_rows_have_them(t, group_by, known.keys[g], row);
    assert forall|b: int| 0 <= b < aggregates.len() implies 0 <= g < (#[trigger] known.tallies[b]).len() by {}
    states_are_updated(known.tallies, 0, g, aggregates, t, row as int, m);
    if let Ok(tallies) = tallies_from(known.tallies, 0, g, aggregates, t, row as int, m) {
        let next = Groups { keys: known.keys, tallies };
        let more = rows.push(row);
        assert forall|a: int|
            0 <= a < aggregates.len() implies (#[trigger] next.tallies[a]).len() == next.keys.len() by {
            assert(known.tallies[a].len() == known.keys.len());
        }
        assert forall|a: int, h: int|
            0 <= a < aggregates.len() && 0 <= h < next.keys.len() implies tells(
            aggregates[a],
            arguments(aggregates[a], t, members(t, more, group_by, next.keys[h])),
            #[trigger] next.tallies[a][h],
            m,
        ) by {
            assert(known.tallies[a].len() == known.keys.len());
            let cells = arguments(aggregates[a], t, members(t, rows, group_by, next.keys[h]));
            assert(tells(aggregates[a], cells, known.tallies[a][h], m));
            if h != g {
                if has_key(t, group_by, next.keys[h], row) {
                    keys_match_where_rows_have_them(t, group_by, next.keys[h], row);
                    matches_chain(next.keys[h], next.keys[g], key);
                    matches_chain(next.keys[g], next.keys[h], key);
                }
                assert(next.tallies[a][h] == known.tallies[a][h]);
            }
            a_state_goes_on(
                aggregates[a],
                rows,
                row,
                t,
                group_by,
                next.keys[h],
                known.tallies[a][h],
                next.tallies[a][h],
                m,
            );
        }
        assert(next.keys.take(groups.keys.len() as int) =~= groups.keys);
        more_rows_have_groups(groups.keys, next.keys, rows, row, t, group_by, g);
        if group_by.len() > 0 {
            more_groups_have_rows(groups.keys, next.keys, rows, row, t, group_by);
        }
        assert(told(next, more, t, group_by, aggregates, m));
    }
}

proof fn all_rows_are_told(
    groups: Groups,
    rows: Seq<usize>,
    i: int,
    t: Table,
    group_by: Seq<ResolvedColumn>,
    aggregates: Seq<AggregateExpression>,
    m: FloatModel,
)
    requires
        0 <= i <= rows.len(),
        told(groups, rows.take(i), t, group_by, aggregates, m),
        forall|a: int| 0 <= a < aggregates.len() ==> aggregate_fits(#[trigger] aggregates[a], t),
    ensures
        groups_from(groups, rows, i, t, group_by, aggregates, m) matches Ok(after) ==> told(
            after,
            rows,
            t,
            group_by,
            aggregates,
            m,
        ),
    decreases rows.len() - i,
{
    if i < rows.len() {
        one_more_row_is_told(groups, rows.take(i), rows[i], t, group_by, aggregates, m);
        assert(rows.take(i + 1) =~= rows.take(i).push(rows[i]));
        if let Ok(next) = groups_with(groups, rows[i] as int, t, group_by, aggregates, m) {
            all_rows_are_told(next, rows, i + 1, t, group_by, aggregates, m);
        }
    } else {
        assert(rows.take(i) =~= rows);
    }
}

proof fn results_are_read(states: Seq<Tally>, g: int, done: Seq<Datum>, m: FloatModel)
    requires
        0 <= g <= states.len(),
        done.len() == g,
    ensures
        results_from(states, g, done, m) matches Ok(list) ==> list.len() == states.len() && (forall|
            k: int,
        |
            0 <= k < g ==> #[trigger] list[k] == done[k]) && forall|k: int|
            g <= k < states.len() ==> tally_result(states[k], m) == Ok::<Datum, ExecutionFault>(
                #[trigger] list[k],
            ),
    decreases states.len() - g,
{
    if g < states.len() {
        if let Ok(d) = tally_result(states[g], m) {
            results_are_read(states, g + 1, done.push(d), m);
        }
    }
}

proof fn all_results_are_read(tallies: Seq<Seq<Tally>>, a: int, done: Seq<Seq<Datum>>, m: FloatModel)
    requires
        0 <= a <= tallies.len(),
        done.len() == a,
    ensures
        all_results_from(tallies, a, done, m) matches Ok(lists) ==> lists.len() == tallies.len()
            && (forall|b: int| 0 <= b < a ==> #[trigger] lists[b] == done[b]) && forall|b: int|
            a <= b < tallies.len() ==> results_from(tallies[b], 0, Seq::empty(), m) == Ok::<
                Seq<Datum>,
                ExecutionFault,
            >(#[trigger] lists[b]),
    decreases tallies.len() - a,
{
    if a < tallies.len() {
        if let Ok(list) = results_from(tallies[a], 0, Seq::empty(), m) {
            all_results_are_read(tallies, a + 1, done.push(list), m);
        }
    }
}

proof fn first_groups_are_told(
    t: Table,
    group_by: Seq<ResolvedColumn>,
    aggregates: Seq<AggregateExpression>,
    m: FloatModel,
)
    ensures
        told(first_groups(group_by, aggregates), Seq::empty(), t, group_by, aggregates, m),
{
    let groups = first_groups(group_by, aggregates);
    reveal(Seq::filter);
    reveal(rows_have_groups);
    reveal(groups_have_rows);
    assert forall|a: int, g: int|
        0 <= a < aggregates.len() && 0 <= g < groups.keys.len() implies tells(
        aggregates[a],
        arguments(aggregates[a], t, members(t, Seq::empty(), group_by, groups.keys[g])),
        #[trigger] groups.tallies[a][g],
        m,
    ) by {
        a_fresh_state_tells_nothing(aggregates[a], m);
        assert(arguments(aggregates[a], t, members(t, Seq::empty(), group_by, groups.keys[g]))
            =~= Seq::<Datum>::empty());
    }
}

/// Grouping puts every row into the group with its key, every group has rows, and the result of
/// an aggregate for a group is that over the cells of the rows of the group: their number,
/// their sum, one of them that none is smaller or greater than, or their average. Without keys
/// all rows form one group.
pub proof fn aggregates_are_those_of_the_rows_of_a_group(
    t: Table,
    rows: Seq<usize>,
    group_by: Seq<ResolvedColumn>,
    aggregates: Seq<AggregateExpression>,
    m: FloatModel,
)
    requires
        forall|a: int| 0 <= a < aggregates.len() ==> aggregate_fits(#[trigger] aggregates[a], t),
        grouping_of(t, rows, group_by, aggregates, m) is Ok,
    ensures
        ({
            let grouping = grouping_of(t, rows, group_by, aggregates, m)->Ok_0;
            &&& grouping.results.len() == aggregates.len()
            &&& forall|a: int|
                0 <= a < aggregates.len() ==> (#[trigger] grouping.results[a]).len()
                    == grouping.keys.len()
            &&& forall|a: int, g: int|
                0 <= a < aggregates.len() && 0 <= g < grouping.keys.len() ==> aggregates_to(
                    aggregates[a],
                    arguments(aggregates[a], t, members(t, rows, group_by, grouping.keys[g])),
                    #[trigger] grouping.results[a][g],
                    m,
                )
            &&& rows_have_groups(grouping.keys, rows, t, group_by)
            &&& group_by.len() > 0 ==> groups_have_rows(grouping.keys, rows, t, group_by)
            &&& group_by.len() == 0 ==> grouping.keys.len() == 1
        }),
{
    let none = first_groups(group_by, aggregates);
    first_groups_are_told(t, group_by, aggregates, m);
    assert(rows.take(0) =~= Seq::<usize>::empty());
    all_rows_are_told(none, rows, 0, t, group_by, aggregates, m);
    let groups = groups_from(none, rows, 0, t, group_by, aggregates, m)->Ok_0;
    all_results_are_read(groups.tallies, 0, Seq::empty(), m);
    let grouping = grouping_of(t, rows, group_by, aggregates, m)->Ok_0;
    assert forall|a: int| 0 <= a < aggregates.len() implies (#[trigger] grouping.results[a]).len()
        == grouping.keys.len() by {
        results_are_read(groups.tallies[a], 0, Seq::empty(), m);
    }
    assert forall|a: int, g: int|
        0 <= a < aggregates.len() && 0 <= g < grouping.keys.len() implies aggregates_to(
        aggregates[a],
        arguments(aggregates[a], t, members(t, rows, group_by, grouping.keys[g])),
        #[trigger] grouping.results[a][g],
        m,
    ) by {
        results_are_read(groups.tallies[a], 0, Seq::empty(), m);
        let cells = arguments(aggregates[a], t, members(t, rows, group_by, grouping.keys[g]));
        assert(tells(aggregates[a], cells, groups.tallies[a][g], m));
        a_state_that_tells_gives_the_result(aggregates[a], cells, groups.tallies[a][g], m);
    }
}

} // verus!
