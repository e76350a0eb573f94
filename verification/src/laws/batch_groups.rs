//! What grouping the rows of a batch is for.

use vstd::prelude::*;
use crate::float::{float_from, float_quotient, float_sum, FloatModel};
use crate::grouping::cell_order_chains;
use crate::kernels::aggregate::{replaces, AggregateExpr, AggregateKind, Aggregated, SumValue};
use crate::kernels::batch::{BatchColumn, BatchType, RecordBatch};
use crate::kernels::group::{aggregates_fault, cell_for, fresh, group_with, grouping_of, key_of, progress_from, progress_with, row_keys, tallied, tallies_from, tally_result, GroupByConfig, GroupData, Progress, Tally};
use crate::kernels::guarantees::keys_differ;
use crate::laws::aggregates::{count_as_one, integer_sum};
use crate::laws::batches::{cell_below, cell_order_puts_the_smaller_first};
use crate::laws::plans::sum_of_floats;
use crate::types::Datum;

verus! {

/// Whether the values of a row in the key columns count as one with keys.
pub open spec fn has_keys(
    parts: Seq<BatchColumn>,
    key_columns: Seq<usize>,
    keys: Seq<Datum>,
    row: int,
) -> bool {
    forall|i: int|
        0 <= i < key_columns.len() ==> count_as_one(
            parts[#[trigger] key_columns[i] as int].cell(row),
            keys[i],
        )
}

/// The selected rows below a number that have some keys.
pub open spec fn member_rows(
    chosen: Seq<bool>,
    parts: Seq<BatchColumn>,
    key_columns: Seq<usize>,
    keys: Seq<Datum>,
    n: int,
) -> Seq<int> {
    Seq::new(n as nat, |r: int| r).filter(
        |r: int| chosen[r] && has_keys(parts, key_columns, keys, r),
    )
}

/// The values other than NULL of a column in some rows.
pub open spec fn known_in(column: BatchColumn, rows: Seq<int>) -> Seq<Datum> {
    rows.map_values(|r: int| column.cell(r)).filter(|d: Datum| !(d is Null))
}

/// Whether a column of numbers holds integers.
pub open spec fn integers(e: AggregateExpr, parts: Seq<BatchColumn>) -> bool {
    e.column matches Some(c) && parts[c as int].kind() == BatchType::Int64
}

/// Whether a result is that of an aggregate over some rows.
pub open spec fn aggregates_rows_to(
    e: AggregateExpr,
    parts: Seq<BatchColumn>,
    rows: Seq<int>,
    result: Aggregated,
    m: FloatModel,
) -> bool {
    let cells = known_in(parts[e.column->Some_0 as int], rows);
    match e.kind {
        AggregateKind::Count => result matches Aggregated::Count(n) && n == (if e.column is Some {
            cells.len()
        } else {
            rows.len()
        }),
        AggregateKind::Sum => if cells.len() == 0 {
            result == Aggregated::Sum(None)
        } else if integers(e, parts) {
            result matches Aggregated::Sum(Some(SumValue::Int128(n))) && n == integer_sum(cells)
        } else {
            result == Aggregated::Sum(Some(SumValue::Float64(sum_of_floats(m, cells))))
        },
        AggregateKind::Min => match result {
            Aggregated::Min(Some(d)) => cells.contains(d) && forall|k: int|
                0 <= k < cells.len() ==> !cell_below(#[trigger] cells[k], d),
            Aggregated::Min(None) => cells.len() == 0,
            _ => false,
        },
        AggregateKind::Max => match result {
            Aggregated::Max(Some(d)) => cells.contains(d) && forall|k: int|
                0 <= k < cells.len() ==> !cell_below(d, #[trigger] cells[k]),
            Aggregated::Max(None) => cells.len() == 0,
            _ => false,
        },
        AggregateKind::Avg => if cells.len() == 0 {
            result == Aggregated::Avg(None)
        } else {
            let total = if integers(e, parts) {
                float_from(m, integer_sum(cells))
            } else {
                sum_of_floats(m, cells)
            };
            result == Aggregated::Avg(
                Some(float_quotient(m, total, float_from(m, cells.len() as int))),
            )
        },
    }
}

/// Whether a state tells of the known values and the number of rows so far.
spec fn tells(
    e: AggregateExpr,
    parts: Seq<BatchColumn>,
    cells: Seq<Datum>,
    rows: nat,
    t: Tally,
    m: FloatModel,
) -> bool {
    match (e.kind, t) {
        (AggregateKind::Count, Tally::Count(n)) => n == (if e.column is Some {
            cells.len()
        } else {
            rows
        }),
        (AggregateKind::Sum, Tally::SumInt { total, seen }) => integers(e, parts) && total
            == integer_sum(cells) && seen == (cells.len() > 0),
        (AggregateKind::Sum, Tally::SumFloat { total, seen }) => !integers(e, parts) && total
            == sum_of_floats(m, cells) && seen == (cells.len() > 0),
        (AggregateKind::Min, Tally::Extreme { least, value }) => least && extreme_so_far(
            cells,
            value,
            true,
        ),
        (AggregateKind::Max, Tally::Extreme { least, value }) => !least && extreme_so_far(
            cells,
            value,
            false,
        ),
        (AggregateKind::Avg, Tally::AvgInt { total, count }) => integers(e, parts) && total
            == integer_sum(cells) && count == cells.len(),
        (AggregateKind::Avg, Tally::AvgFloat { total, count }) => !integers(e, parts) && total
            == sum_of_floats(m, cells) && count == cells.len(),
        _ => false,
    }
}

spec fn extreme_so_far(cells: Seq<Datum>, value: Option<Datum>, least: bool) -> bool {
    match value {
        None => cells.len() == 0,
        Some(d) => !(d is Null) && cells.contains(d) && forall|k: int|
            0 <= k < cells.len() ==> !(if least {
                cell_below(#[trigger] cells[k], d)
            } else {
                cell_below(d, cells[k])
            }),
    }
}

/// Whether a datum may stand in a column.
spec fn typed(column: BatchColumn, d: Datum) -> bool {
    match column {
        BatchColumn::Int64(_) => d is Int64,
        BatchColumn::Float64(_) => d is Float64,
        BatchColumn::Boolean(_) => d is Bool,
        BatchColumn::String(_) => d is Text,
    }
}

proof fn sums_grow(m: FloatModel, cells: Seq<Datum>, d: Datum)
    ensures
        integer_sum(cells.push(d)) == integer_sum(cells) + (if d is Int64 {
            d->Int64_0 as int
        } else {
            0
        }),
        sum_of_floats(m, cells.push(d)) == float_sum(m, sum_of_floats(m, cells), d->Float64_0),
{
    assert(cells.push(d).drop_last() =~= cells);
}

proof fn an_extreme_goes_on(column: BatchColumn, cells: Seq<Datum>, value: Option<Datum>, d: Datum, least: bool)
    requires
        extreme_so_far(cells, value, least),
        forall|k: int| 0 <= k < cells.len() ==> typed(column, #[trigger] cells[k]),
        typed(column, d),
    ensures
        ({
            let next = if value matches Some(x) && !replaces(d, x, least) {
                value
            } else {
                Some(d)
            };
            extreme_so_far(cells.push(d), next, least)
        }),
{
    let more = cells.push(d);
    assert(more[cells.len() as int] == d);
    cell_order_puts_the_smaller_first(d, d);
    if let Some(x) = value {
        let at = choose|k: int| 0 <= k < cells.len() && cells[k] == x;
        assert(typed(column, cells[at]));
        assert(more[at] == x);
        cell_order_puts_the_smaller_first(d, x);
        let best = if replaces(d, x, least) {
            d
        } else {
            x
        };
        assert forall|k: int| 0 <= k < more.len() implies !(if least {
            cell_below(#[trigger] more[k], best)
        } else {
            cell_below(best, more[k])
        }) by {
            if k < cells.len() {
                assert(typed(column, cells[k]));
                cell_order_puts_the_smaller_first(cells[k], x);
                cell_order_puts_the_smaller_first(x, cells[k]);
                cell_order_puts_the_smaller_first(cells[k], best);
                cell_order_puts_the_smaller_first(best, cells[k]);
                if replaces(d, x, least) {
                    cell_order_puts_the_smaller_first(x, d);
                    if least && cell_below(cells[k], d) {
                        cell_order_chains(cells[k], d, x);
                    }
                    if !least && cell_below(d, cells[k]) {
                        cell_order_chains(x, d, cells[k]);
                    }
                }
            }
        }
    }
}

/// Whether an aggregate suits the columns.
spec fn suits(e: AggregateExpr, parts: Seq<BatchColumn>) -> bool {
    &&& e.column is None ==> e.kind is Count
    &&& e.column matches Some(c) ==> (e.kind is Sum || e.kind is Avg ==> parts[c as int].kind()
        == BatchType::Int64 || parts[c as int].kind() == BatchType::Float64)
}

proof fn a_row_is_told(
    e: AggregateExpr,
    parts: Seq<BatchColumn>,
    cells: Seq<Datum>,
    rows: nat,
    t: Tally,
    row: int,
    retained: usize,
    limit: usize,
    m: FloatModel,
)
    requires
        suits(e, parts),
        tells(e, parts, cells, rows, t, m),
        e.column matches Some(c) ==> forall|k: int|
            0 <= k < cells.len() ==> typed(parts[c as int], #[trigger] cells[k]),
    ensures
        tallied(t, cell_for(e, parts, row), retained, limit, m) matches Ok((next, _)) ==> {
            let d = parts[e.column->Some_0 as int].cell(row);
            tells(
                e,
                parts,
                if e.column is Some && !(d is Null) {
                    cells.push(d)
                } else {
                    cells
                },
                rows + 1,
                next,
                m,
            )
        },
{
    if let Some(c) = e.column {
        let d = parts[c as int].cell(row);
        if !(d is Null) {
            sums_grow(m, cells, d);
            if let Tally::Extreme { least, value } = t {
                an_extreme_goes_on(parts[c as int], cells, value, d, least);
            }
        }
    }
}

proof fn fresh_states_tell_nothing(e: AggregateExpr, parts: Seq<BatchColumn>, m: FloatModel)
    requires
        suits(e, parts),
    ensures
        tells(e, parts, Seq::empty(), 0, fresh(e, parts), m),
{
}

proof fn states_give_results(
    e: AggregateExpr,
    parts: Seq<BatchColumn>,
    rows: Seq<int>,
    t: Tally,
    m: FloatModel,
)
    requires
        suits(e, parts),
        tells(e, parts, known_in(parts[e.column->Some_0 as int], rows), rows.len(), t, m),
    ensures
        aggregates_rows_to(e, parts, rows, tally_result(t, m), m),
{
}

proof fn keys_count_as_one(cell: Datum, other: Datum)
    ensures
        count_as_one(cell, key_of(other)) <==> key_of(cell) == key_of(other),
{
}

/// Whether data are the keys of a row.
spec fn keys_of_some_row(parts: Seq<BatchColumn>, key_columns: Seq<usize>, keys: Seq<Datum>) -> bool {
    exists|row: int| keys == #[trigger] row_keys(parts, key_columns, row)
}

proof fn rows_have_equal_keys(
    parts: Seq<BatchColumn>,
    key_columns: Seq<usize>,
    keys: Seq<Datum>,
    row: int,
)
    requires
        keys_of_some_row(parts, key_columns, keys),
    ensures
        has_keys(parts, key_columns, keys, row) <==> row_keys(parts, key_columns, row) == keys,
{
    let other = choose|other: int| keys == #[trigger] row_keys(parts, key_columns, other);
    let own = row_keys(parts, key_columns, row);
    assert forall|i: int| 0 <= i < key_columns.len() implies (count_as_one(
        parts[#[trigger] key_columns[i] as int].cell(row),
        keys[i],
    ) <==> own[i] == keys[i]) by {
        let column = parts[key_columns[i] as int];
        keys_count_as_one(column.cell(row), column.cell(other));
    }
    if has_keys(parts, key_columns, keys, row) {
        assert forall|i: int| 0 <= i < own.len() implies own[i] == keys[i] by {
            let c = key_columns[i];
        }
        assert(own =~= keys);
    }
    if own == keys {
        assert forall|i: int| 0 <= i < key_columns.len() implies count_as_one(
            parts[#[trigger] key_columns[i] as int].cell(row),
            keys[i],
        ) by {
            assert(own[i] == keys[i]);
        }
    }
}

proof fn members_grow(
    chosen: Seq<bool>,
    parts: Seq<BatchColumn>,
    key_columns: Seq<usize>,
    keys: Seq<Datum>,
    n: int,
)
    requires
        0 <= n,
    ensures
        member_rows(chosen, parts, key_columns, keys, n + 1) == (if chosen[n] && has_keys(
            parts,
            key_columns,
            keys,
            n,
        ) {
            member_rows(chosen, parts, key_columns, keys, n).push(n)
        } else {
            member_rows(chosen, parts, key_columns, keys, n)
        }),
{
    reveal(Seq::filter);
    let all = Seq::new((n + 1) as nat, |r: int| r);
    assert(all.drop_last() =~= Seq::new(n as nat, |r: int| r));
    assert(all.last() == n);
}

proof fn known_grow(column: BatchColumn, rows: Seq<int>, row: int)
    ensures
        known_in(column, rows.push(row)) == (if column.cell(row) is Null {
            known_in(column, rows)
        } else {
            known_in(column, rows).push(column.cell(row))
        }),
{
    reveal(Seq::filter);
    let cells = rows.push(row).map_values(|r: int| column.cell(r));
    assert(cells.drop_last() =~= rows.map_values(|r: int| column.cell(r)));
    assert(cells.last() == column.cell(row));
}

proof fn known_are_typed(column: BatchColumn, rows: Seq<int>)
    ensures
        forall|k: int|
            0 <= k < known_in(column, rows).len() ==> typed(column, #[trigger] known_in(column, rows)[k]),
    decreases rows.len(),
{
    if rows.len() > 0 {
        known_are_typed(column, rows.drop_last());
        known_grow(column, rows.drop_last(), rows.last());
        assert(rows.drop_last().push(rows.last()) =~= rows);
    } else {
        reveal(Seq::filter);
        assert(rows.map_values(|r: int| column.cell(r)).len() == 0);
    }
}

/// Whether states tell of the rows of their group.
spec fn group_told(
    g: GroupData,
    es: Seq<AggregateExpr>,
    parts: Seq<BatchColumn>,
    rows: Seq<int>,
    m: FloatModel,
) -> bool {
    g.tallies.len() == es.len() && forall|a: int|
        0 <= a < es.len() ==> tells(
            es[a],
            parts,
            known_in(parts[es[a].column->Some_0 as int], rows),
            rows.len(),
            #[trigger] g.tallies[a],
            m,
        )
}

proof fn states_are_updated(
    tallies: Seq<Tally>,
    es: Seq<AggregateExpr>,
    parts: Seq<BatchColumn>,
    row: int,
    a: int,
    rows: Seq<int>,
    retained: usize,
    limit: usize,
    m: FloatModel,
)
    requires
        0 <= a <= es.len(),
        tallies.len() == es.len(),
        forall|b: int| 0 <= b < es.len() ==> suits(#[trigger] es[b], parts),
        forall|b: int|
            a <= b < es.len() ==> tells(
                es[b],
                parts,
                known_in(parts[es[b].column->Some_0 as int], rows),
                rows.len(),
                #[trigger] tallies[b],
                m,
            ),
        forall|b: int|
            0 <= b < a ==> tells(
                es[b],
                parts,
                known_in(parts[es[b].column->Some_0 as int], rows.push(row)),
                rows.len() + 1,
                #[trigger] tallies[b],
                m,
            ),
    ensures
        tallies_from(tallies, es, parts, row, a, retained, limit, m) matches Ok((after, _))
            ==> after.len() == es.len() && forall|b: int|
            0 <= b < es.len() ==> tells(
                es[b],
                parts,
                known_in(parts[es[b].column->Some_0 as int], rows.push(row)),
                rows.len() + 1,
                #[trigger] after[b],
                m,
            ),
    decreases es.len() - a,
{
    if a < es.len() {
        let e = es[a];
        let column = parts[e.column->Some_0 as int];
        let cells = known_in(column, rows);
        known_are_typed(column, rows);
        known_grow(column, rows, row);
        assert(tells(e, parts, cells, rows.len(), tallies[a], m));
        a_row_is_told(e, parts, cells, rows.len(), tallies[a], row, retained, limit, m);
        if let Ok((t, bytes)) = tallied(
            tallies[a],
            cell_for(e, parts, row),
            retained,
            limit,
            m,
        ) {
            if e.column is None {
                assert(tells(e, parts, known_in(column, rows.push(row)), rows.len() + 1, t, m));
            }
            let next = tallies.update(a, t);
            states_are_updated(next, es, parts, row, a + 1, rows, bytes, limit, m);
        }
    }
}

/// Whether groups are those of the rows so far, and their states tell of them.
spec fn told(
    p: Progress,
    chosen: Seq<bool>,
    parts: Seq<BatchColumn>,
    key_columns: Seq<usize>,
    es: Seq<AggregateExpr>,
    n: int,
    m: FloatModel,
) -> bool {
    &&& keys_differ(p.groups)
    &&& forall|g: int|
        0 <= g < p.groups.len() ==> keys_of_some_row(
            parts,
            key_columns,
            (#[trigger] p.groups[g]).keys,
        )
    &&& forall|g: int|
        0 <= g < p.groups.len() ==> group_told(
            #[trigger] p.groups[g],
            es,
            parts,
            member_rows(chosen, parts, key_columns, p.groups[g].keys, n),
            m,
        )
    &&& forall|r: int|
        0 <= r < n && chosen[r] ==> has_group(p.groups, #[trigger] row_keys(parts, key_columns, r))
}

/// Whether a group has some keys.
pub open spec fn has_group(groups: Seq<GroupData>, keys: Seq<Datum>) -> bool {
    exists|g: int| 0 <= g < groups.len() && (#[trigger] groups[g]).keys == keys
}

proof fn found_group_has_the_keys(groups: Seq<GroupData>, keys: Seq<Datum>, i: int)
    requires
        0 <= i,
    ensures
        match group_with(groups, keys, i) {
            Some(g) => i <= g < groups.len() && groups[g].keys == keys,
            None => forall|g: int| i <= g < groups.len() ==> (#[trigger] groups[g]).keys != keys,
        },
    decreases groups.len() - i,
{
    if i < groups.len() {
        found_group_has_the_keys(groups, keys, i + 1);
    }
}

proof fn a_new_group_has_no_rows(
    groups: Seq<GroupData>,
    chosen: Seq<bool>,
    parts: Seq<BatchColumn>,
    key_columns: Seq<usize>,
    keys: Seq<Datum>,
    n: int,
)
    requires
        0 <= n,
        keys_of_some_row(parts, key_columns, keys),
        !has_group(groups, keys),
        forall|r: int|
            0 <= r < n && chosen[r] ==> has_group(groups, #[trigger] row_keys(parts, key_columns, r)),
    ensures
        member_rows(chosen, parts, key_columns, keys, n) == Seq::<int>::empty(),
    decreases n,
{
    if n > 0 {
        a_new_group_has_no_rows(groups, chosen, parts, key_columns, keys, n - 1);
        members_grow(chosen, parts, key_columns, keys, n - 1);
        rows_have_equal_keys(parts, key_columns, keys, n - 1);
        let own = row_keys(parts, key_columns, n - 1);
    } else {
        reveal(Seq::filter);
        assert(member_rows(chosen, parts, key_columns, keys, n) =~= Seq::<int>::empty());
    }
}

proof fn group_told_at(
    g: GroupData,
    es: Seq<AggregateExpr>,
    parts: Seq<BatchColumn>,
    rows: Seq<int>,
    row: int,
    tallies: Seq<Tally>,
    retained: usize,
    limit: usize,
    m: FloatModel,
)
    requires
        group_told(g, es, parts, rows, m),
        forall|b: int| 0 <= b < es.len() ==> suits(#[trigger] es[b], parts),
    ensures
        tallies_from(g.tallies, es, parts, row, 0, retained, limit, m) matches Ok((after, _))
            ==> group_told(
            GroupData { keys: g.keys, tallies: after },
            es,
            parts,
            rows.push(row),
            m,
        ),
{
    states_are_updated(g.tallies, es, parts, row, 0, rows, retained, limit, m);
}

proof fn one_more_row_is_told(
    p: Progress,
    chosen: Seq<bool>,
    parts: Seq<BatchColumn>,
    key_columns: Seq<usize>,
    es: Seq<AggregateExpr>,
    n: int,
    config: GroupByConfig,
    m: FloatModel,
)
    requires
        0 <= n,
        told(p, chosen, parts, key_columns, es, n, m),
        forall|b: int| 0 <= b < es.len() ==> suits(#[trigger] es[b], parts),
        chosen[n],
    ensures
        progress_with(p, parts, key_columns, es, n, config, m) matches Ok(next) ==> told(
            next,
            chosen,
            parts,
            key_columns,
            es,
            n + 1,
            m,
        ),
{
    let keys = row_keys(parts, key_columns, n);
    let limit = config.memory_limit_bytes;
    found_group_has_the_keys(p.groups, keys, 0);
    assert(keys_of_some_row(parts, key_columns, keys));
    if let Ok(next) = progress_with(p, parts, key_columns, es, n, config, m) {
        let rows = member_rows(chosen, parts, key_columns, keys, n);
        let at = match group_with(p.groups, keys, 0) {
            Some(g) => g,
            None => p.groups.len() as int,
        };
        if at < p.groups.len() {
            assert(group_told(p.groups[at], es, parts, rows, m));
            group_told_at(
                p.groups[at],
                es,
                parts,
                rows,
                n,
                p.groups[at].tallies,
                p.retained,
                limit,
                m,
            );
        } else {
            a_new_group_has_no_rows(p.groups, chosen, parts, key_columns, keys, n);
            let begun = GroupData { keys, tallies: Seq::new(es.len(), |a: int| fresh(es[a], parts)) };
            assert forall|a: int| 0 <= a < es.len() implies tells(
                es[a],
                parts,
                known_in(parts[es[a].column->Some_0 as int], rows),
                rows.len(),
                #[trigger] begun.tallies[a],
                m,
            ) by {
                reveal(Seq::filter);
                fresh_states_tell_nothing(es[a], parts, m);
                assert(known_in(parts[es[a].column->Some_0 as int], rows)
                    =~= Seq::<Datum>::empty());
            }
            group_told_at(
                begun,
                es,
                parts,
                rows,
                n,
                begun.tallies,
                (p.retained + crate::kernels::group::bare_bytes(keys, es.len())) as usize,
                limit,
                m,
            );
        }
        assert(next.groups[at].keys == keys);
        assert(group_told(next.groups[at], es, parts, rows.push(n), m));
        assert forall|g: int| 0 <= g < next.groups.len() implies group_told(
            #[trigger] next.groups[g],
            es,
            parts,
            member_rows(chosen, parts, key_columns, next.groups[g].keys, n + 1),
            m,
        ) && keys_of_some_row(parts, key_columns, next.groups[g].keys) by {
            if g != at {
                assert(next.groups[g] == p.groups[g]);
            }
            members_grow(chosen, parts, key_columns, next.groups[g].keys, n);
            rows_have_equal_keys(parts, key_columns, next.groups[g].keys, n);
        }
        assert forall|r: int| 0 <= r < n + 1 && chosen[r] implies has_group(
            next.groups,
            #[trigger] row_keys(parts, key_columns, r),
        ) by {
            if r < n {
                let g = choose|g: int|
                    0 <= g < p.groups.len() && (#[trigger] p.groups[g]).keys == row_keys(
                        parts,
                        key_columns,
                        r,
                    );
                assert(next.groups[g].keys == p.groups[g].keys);
            }
        }
    }
}

proof fn all_rows_are_told(
    p: Progress,
    chosen: Seq<bool>,
    parts: Seq<BatchColumn>,
    key_columns: Seq<usize>,
    es: Seq<AggregateExpr>,
    n: int,
    config: GroupByConfig,
    m: FloatModel,
)
    requires
        0 <= n <= chosen.len(),
        told(p, chosen, parts, key_columns, es, n, m),
        forall|b: int| 0 <= b < es.len() ==> suits(#[trigger] es[b], parts),
    ensures
        progress_from(p, chosen, parts, key_columns, es, n, config, m) matches Ok(done) ==> told(
            done,
            chosen,
            parts,
            key_columns,
            es,
            chosen.len() as int,
            m,
        ),
    decreases chosen.len() - n,
{
    if n < chosen.len() {
        if chosen[n] {
            one_more_row_is_told(p, chosen, parts, key_columns, es, n, config, m);
            if let Ok(next) = progress_with(p, parts, key_columns, es, n, config, m) {
                all_rows_are_told(next, chosen, parts, key_columns, es, n + 1, config, m);
            }
        } else {
            assert forall|g: int| 0 <= g < p.groups.len() implies group_told(
                #[trigger] p.groups[g],
                es,
                parts,
                member_rows(chosen, parts, key_columns, p.groups[g].keys, n + 1),
                m,
            ) by {
                members_grow(chosen, parts, key_columns, p.groups[g].keys, n);
            }
            all_rows_are_told(p, chosen, parts, key_columns, es, n + 1, config, m);
        }
    }
}

proof fn accepted_aggregates_suit(parts: Seq<BatchColumn>, es: Seq<AggregateExpr>, i: int)
    requires
        0 <= i,
        aggregates_fault(parts, es, i) is None,
    ensures
        forall|b: int| i <= b < es.len() ==> suits(#[trigger] es[b], parts),
    decreases es.len() - i,
{
    if i < es.len() {
        accepted_aggregates_suit(parts, es, i + 1);
    }
}

/// Grouping puts every selected row into the group whose keys its own count as one with, no two
/// groups have the same keys, and the result of an aggregate for a group is that over the rows of
/// the group.
pub proof fn groups_aggregate_their_rows(
    batch: RecordBatch,
    key_columns: Seq<usize>,
    es: Seq<AggregateExpr>,
    config: GroupByConfig,
    m: FloatModel,
)
    requires
        grouping_of(batch, key_columns, es, config, m) is Ok,
    ensures
        ({
            let groups = grouping_of(batch, key_columns, es, config, m)->Ok_0.groups;
            let n = batch.chosen().len() as int;
            &&& keys_differ(groups)
            &&& forall|g: int, a: int|
                0 <= g < groups.len() && 0 <= a < es.len() ==> aggregates_rows_to(
                    es[a],
                    batch.parts(),
                    member_rows(
                        batch.chosen(),
                        batch.parts(),
                        key_columns,
                        (#[trigger] groups[g]).keys,
                        n,
                    ),
                    tally_result(#[trigger] groups[g].tallies[a], m),
                    m,
                )
            &&& forall|r: int|
                0 <= r < n && batch.chosen()[r] ==> has_group(
                    groups,
                    #[trigger] row_keys(batch.parts(), key_columns, r),
                )
        }),
{
    let parts = batch.parts();
    let chosen = batch.chosen();
    let base = crate::kernels::group::base_bytes(config.max_groups) as usize;
    let none = Progress { groups: Seq::empty(), retained: base, peak: base };
    accepted_aggregates_suit(parts, es, 0);
    all_rows_are_told(none, chosen, parts, key_columns, es, 0, config, m);
    let groups = grouping_of(batch, key_columns, es, config, m)->Ok_0.groups;
    let n = chosen.len() as int;
    assert forall|g: int, a: int| 0 <= g < groups.len() && 0 <= a < es.len() implies aggregates_rows_to(
        es[a],
        parts,
        member_rows(chosen, parts, key_columns, (#[trigger] groups[g]).keys, n),
        tally_result(#[trigger] groups[g].tallies[a], m),
        m,
    ) by {
        let rows = member_rows(chosen, parts, key_columns, groups[g].keys, n);
        assert(group_told(groups[g], es, parts, rows, m));
        states_give_results(es[a], parts, rows, groups[g].tallies[a], m);
    }
}

} // verus!
