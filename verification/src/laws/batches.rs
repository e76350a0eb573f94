//! What predicates and aggregates over batches are for.

use vstd::prelude::*;
use crate::float::{float_from, float_quotient, FloatModel};
use crate::grouping::{cell_order, cell_order_separates, same_type};
use crate::kernels::aggregate::{aggregate_result, avg_result, cells_of, count_result, extreme, extreme_is_reached, extreme_result, float_total, int_total, known_cells, replaces, selected_count, sum_result, AggregateExpr, AggregateKind, Aggregated, SumValue};
use crate::kernels::batch::{BatchColumn, BatchType, KernelFault, RecordBatch};
use crate::kernels::predicate::{columns_mask, comparison_mask, nullness_mask, passes, ComparisonOp};
use crate::laws::aggregates::integer_sum;
use crate::laws::orders::{below, comparing_agrees_with_the_rank, not_a_number, rank_puts_the_smaller_first, text_below, text_order_is_first_difference};
use crate::laws::plans::sum_of_floats;
use crate::ordering::same_kind;
use crate::text::Order;
use crate::types::Datum;

verus! {

/// Whether two data stand in the relation that an operator names. NULL stands in none, and beside
/// what is no number only inequality holds.
pub open spec fn related(op: ComparisonOp, a: Datum, b: Datum) -> bool {
    same_kind(a, b) && if not_a_number(a) || not_a_number(b) {
        op is NotEq
    } else {
        match op {
            ComparisonOp::Eq => !below(a, b) && !below(b, a),
            ComparisonOp::NotEq => below(a, b) || below(b, a),
            ComparisonOp::Less => below(a, b),
            ComparisonOp::LessEq => !below(b, a),
            ComparisonOp::Greater => below(b, a),
            ComparisonOp::GreaterEq => !below(a, b),
        }
    }
}

/// A comparison passes exactly the data that stand in its relation.
pub proof fn comparisons_pass_what_is_related(op: ComparisonOp, a: Datum, b: Datum)
    ensures
        passes(op, a, b) <==> related(op, a, b),
{
    comparing_agrees_with_the_rank(a, b);
    rank_puts_the_smaller_first(a, b);
}

/// A mask has exactly the selected rows whose value is related to another one: to a given one, or
/// to that of another column in the same row; or is NULL, or is not.
pub proof fn masks_have_the_rows_that_are_related(
    batch: RecordBatch,
    column: usize,
    other: usize,
    expected: BatchType,
    op: ComparisonOp,
    value: Datum,
    row: int,
)
    requires
        0 <= row < batch.chosen().len(),
    ensures
        comparison_mask(batch, column, expected, op, value) matches Ok(mask) ==> mask.len()
            == batch.chosen().len() && (mask[row] <==> batch.chosen()[row] && related(
            op,
            batch.parts()[column as int].cell(row),
            value,
        )),
        columns_mask(batch, column, op, other) matches Ok(mask) ==> mask.len()
            == batch.chosen().len() && (mask[row] <==> batch.chosen()[row] && related(
            op,
            batch.parts()[column as int].cell(row),
            batch.parts()[other as int].cell(row),
        )),
        nullness_mask(batch, column, true) matches Ok(mask) ==> mask.len() == batch.chosen().len()
            && (mask[row] <==> batch.chosen()[row] && batch.parts()[column as int].cell(row) is Null),
        nullness_mask(batch, column, false) matches Ok(mask) ==> mask.len() == batch.chosen().len()
            && (mask[row] <==> batch.chosen()[row] && !(batch.parts()[column as int].cell(
            row,
        ) is Null)),
{
    comparisons_pass_what_is_related(op, batch.parts()[column as int].cell(row), value);
    comparisons_pass_what_is_related(
        op,
        batch.parts()[column as int].cell(row),
        batch.parts()[other as int].cell(row),
    );
}

/// The selected rows below a number.
pub open spec fn selected_rows(chosen: Seq<bool>, n: int) -> Seq<int> {
    Seq::new(n as nat, |r: int| r).filter(|r: int| chosen[r])
}

/// The selected rows below a number whose value in a column is not NULL.
pub open spec fn known_rows(chosen: Seq<bool>, column: BatchColumn, n: int) -> Seq<int> {
    Seq::new(n as nat, |r: int| r).filter(|r: int| chosen[r] && !(column.cell(r) is Null))
}

proof fn rows_are_counted(chosen: Seq<bool>, column: BatchColumn, n: int)
    requires
        0 <= n,
    ensures
        selected_count(chosen, n) == selected_rows(chosen, n).len(),
        known_cells(chosen, column, n) == known_rows(chosen, column, n).map_values(
            |r: int| column.cell(r),
        ),
    decreases n,
{
    reveal(Seq::filter);
    let all = Seq::new(n as nat, |r: int| r);
    if n > 0 {
        rows_are_counted(chosen, column, n - 1);
        assert(all.drop_last() =~= Seq::new((n - 1) as nat, |r: int| r));
        assert(all.last() == n - 1);
        let before = known_rows(chosen, column, n - 1);
        if chosen[n - 1] && !(column.cell(n - 1) is Null) {
            assert(known_rows(chosen, column, n) == before.push(n - 1));
            assert(before.push(n - 1).map_values(|r: int| column.cell(r)) =~= before.map_values(
                |r: int| column.cell(r),
            ).push(column.cell(n - 1)));
        }
    } else {
        assert(all =~= Seq::<int>::empty());
        assert(known_cells(chosen, column, n) =~= known_rows(chosen, column, n).map_values(
            |r: int| column.cell(r),
        ));
    }
}

/// The values of a column in the selected rows, but for NULL.
pub open spec fn known_values(batch: RecordBatch, column: usize) -> Seq<Datum> {
    let part = batch.parts()[column as int];
    known_rows(batch.chosen(), part, batch.chosen().len() as int).map_values(|r: int| part.cell(r))
}

/// `COUNT(*)` is the number of selected rows, and `COUNT` of a column the number of those in which
/// it is not NULL.
pub proof fn count_is_the_number_of_selected_rows(batch: RecordBatch, column: usize)
    ensures
        count_result(batch, None) == Ok::<nat, KernelFault>(
            selected_rows(batch.chosen(), batch.chosen().len() as int).len(),
        ),
        count_result(batch, Some(column)) matches Ok(n) ==> n == known_values(batch, column).len(),
        count_result(batch, Some(column)) is Ok <==> column < batch.parts().len(),
{
    rows_are_counted(
        batch.chosen(),
        batch.parts()[column as int],
        batch.chosen().len() as int,
    );
}

proof fn totals_are_sums(cells: Seq<Datum>, m: FloatModel)
    ensures
        int_total(cells) == integer_sum(cells),
        (forall|k: int| 0 <= k < cells.len() ==> #[trigger] cells[k] is Float64) ==> float_total(
            cells,
            m,
        ) == sum_of_floats(m, cells),
    decreases cells.len(),
{
    if cells.len() > 0 {
        totals_are_sums(cells.drop_last(), m);
        if forall|k: int| 0 <= k < cells.len() ==> #[trigger] cells[k] is Float64 {
            assert forall|k: int| 0 <= k < cells.drop_last().len() implies #[trigger] cells.drop_last()[k] is Float64 by {
                assert(cells[k] is Float64);
            }
            assert(cells[cells.len() - 1] is Float64);
        }
    }
}

proof fn known_values_have_the_type(batch: RecordBatch, column: usize)
    ensures
        known_values(batch, column) == cells_of(batch, column),
        forall|k: int|
            0 <= k < known_values(batch, column).len() ==> match batch.parts()[column as int] {
                BatchColumn::Int64(_) => #[trigger] known_values(batch, column)[k] is Int64,
                BatchColumn::Float64(_) => known_values(batch, column)[k] is Float64,
                BatchColumn::Boolean(_) => known_values(batch, column)[k] is Bool,
                BatchColumn::String(_) => known_values(batch, column)[k] is Text,
            },
{
    let part = batch.parts()[column as int];
    let n = batch.chosen().len() as int;
    rows_are_counted(batch.chosen(), part, n);
    let keeps = |r: int| batch.chosen()[r] && !(part.cell(r) is Null);
    let all = Seq::new(n as nat, |r: int| r);
    assert forall|k: int| 0 <= k < known_values(batch, column).len() implies match part {
        BatchColumn::Int64(_) => #[trigger] known_values(batch, column)[k] is Int64,
        BatchColumn::Float64(_) => known_values(batch, column)[k] is Float64,
        BatchColumn::Boolean(_) => known_values(batch, column)[k] is Bool,
        BatchColumn::String(_) => known_values(batch, column)[k] is Text,
    } by {
        a_kept_row_keeps(all, keeps, k);
    }
}

proof fn a_kept_row_keeps(rows: Seq<int>, keeps: spec_fn(int) -> bool, i: int)
    requires
        0 <= i < rows.filter(keeps).len(),
    ensures
        keeps(rows.filter(keeps)[i]),
    decreases rows.len(),
{
    reveal(Seq::filter);
    if rows.len() > 0 {
        if i < rows.drop_last().filter(keeps).len() {
            a_kept_row_keeps(rows.drop_last(), keeps, i);
        }
    }
}

/// `SUM` is the sum of the known values of a column of numbers, and NULL where there are none.
pub proof fn sum_adds_the_known_values(batch: RecordBatch, column: usize, m: FloatModel)
    requires
        column < batch.parts().len(),
        i128::MIN <= integer_sum(known_values(batch, column)) <= i128::MAX,
    ensures
        ({
            let cells = known_values(batch, column);
            match batch.parts()[column as int].kind() {
                BatchType::Int64 => sum_result(batch, column, m) matches Ok(sum) && (if cells.len()
                    == 0 {
                    sum is None
                } else {
                    sum matches Some(SumValue::Int128(n)) && n == integer_sum(cells)
                }),
                BatchType::Float64 => sum_result(batch, column, m) matches Ok(sum) && (if cells.len()
                    == 0 {
                    sum is None
                } else {
                    sum == Some(SumValue::Float64(sum_of_floats(m, cells)))
                }),
                _ => sum_result(batch, column, m) is Err,
            }
        }),
{
    known_values_have_the_type(batch, column);
    let cells = known_values(batch, column);
    totals_are_sums(cells, m);
    if batch.parts()[column as int].kind() is Float64 {
        assert forall|k: int| 0 <= k < cells.len() implies #[trigger] cells[k] is Float64 by {}
    }
}

/// `AVG` is the sum of the known values over how many they are, in floating point, and NULL where
/// there are none.
pub proof fn average_divides_the_sum_by_the_count(batch: RecordBatch, column: usize, m: FloatModel)
    requires
        column < batch.parts().len(),
    ensures
        ({
            let cells = known_values(batch, column);
            let n = float_from(m, cells.len() as int);
            match batch.parts()[column as int].kind() {
                BatchType::Int64 => avg_result(batch, column, m) == Ok::<Option<u64>, KernelFault>(
                    if cells.len() == 0 {
                        None
                    } else {
                        Some(float_quotient(m, float_from(m, integer_sum(cells)), n))
                    },
                ),
                BatchType::Float64 => avg_result(batch, column, m) == Ok::<Option<u64>, KernelFault>(
                    if cells.len() == 0 {
                        None
                    } else {
                        Some(float_quotient(m, sum_of_floats(m, cells), n))
                    },
                ),
                _ => avg_result(batch, column, m) is Err,
            }
        }),
{
    known_values_have_the_type(batch, column);
    let cells = known_values(batch, column);
    totals_are_sums(cells, m);
    if batch.parts()[column as int].kind() is Float64 {
        assert forall|k: int| 0 <= k < cells.len() implies #[trigger] cells[k] is Float64 by {}
    }
}

/// Whether a value of a column is smaller than another one. Floating-point values are ordered by
/// their bits: negative ones first, and then by magnitude.
pub open spec fn cell_below(a: Datum, b: Datum) -> bool {
    match (a, b) {
        (Datum::Int64(x), Datum::Int64(y)) => x < y,
        (Datum::Bool(x), Datum::Bool(y)) => !x && y,
        (Datum::Text(x), Datum::Text(y)) => text_below(x, y),
        (Datum::Float64(x), Datum::Float64(y)) => {
            let sign = 0x8000_0000_0000_0000u64;
            if x >= sign && y >= sign {
                x > y
            } else if x < sign && y < sign {
                x < y
            } else {
                x >= sign
            }
        },
        _ => false,
    }
}

/// The order of the values of a column puts the smaller one first.
pub proof fn cell_order_puts_the_smaller_first(a: Datum, b: Datum)
    requires
        same_type(a, b),
    ensures
        cell_order(a, b) == Order::Less <==> cell_below(a, b),
        cell_order(a, b) == Order::Greater <==> cell_below(b, a),
        cell_order(a, b) == Order::Equal <==> a == b,
{
    cell_order_separates(a, b);
    if let (Datum::Text(x), Datum::Text(y)) = (a, b) {
        text_order_is_first_difference(x, y);
    }
}

/// The least of values is one of them and none is smaller; the greatest is one of them and none is
/// greater.
pub proof fn extreme_is_one_that_none_exceeds(cells: Seq<Datum>, least: bool)
    requires
        forall|i: int, j: int|
            0 <= i < cells.len() && 0 <= j < cells.len() ==> same_type(
                #[trigger] cells[i],
                #[trigger] cells[j],
            ),
    ensures
        match extreme(cells, least) {
            None => cells.len() == 0,
            Some(d) => cells.contains(d) && forall|i: int|
                0 <= i < cells.len() ==> !(if least {
                    cell_below(#[trigger] cells[i], d)
                } else {
                    cell_below(d, cells[i])
                }),
        },
{
    if cells.len() > 0 {
        extreme_is_reached(cells, least);
        let d = extreme(cells, least)->Some_0;
        let at = choose|k: int| 0 <= k < cells.len() && cells[k] == d;
        assert forall|i: int| 0 <= i < cells.len() implies !(if least {
            cell_below(#[trigger] cells[i], d)
        } else {
            cell_below(d, cells[i])
        }) by {
            assert(same_type(cells[i], cells[at]));
            assert(!replaces(cells[i], d, least));
            cell_order_puts_the_smaller_first(cells[i], d);
        }
    }
}

/// `MIN` and `MAX` of a column are one of its known values that none is smaller or greater than,
/// and NULL where there are none.
pub proof fn column_extreme_is_one_that_none_exceeds(batch: RecordBatch, column: usize, least: bool)
    requires
        column < batch.parts().len(),
    ensures
        ({
            let cells = known_values(batch, column);
            extreme_result(batch, column, least) matches Ok(found) && match found {
                None => cells.len() == 0,
                Some(d) => cells.contains(d) && forall|i: int|
                    0 <= i < cells.len() ==> !(if least {
                        cell_below(#[trigger] cells[i], d)
                    } else {
                        cell_below(d, cells[i])
                    }),
            }
        }),
{
    known_values_have_the_type(batch, column);
    let cells = known_values(batch, column);
    assert forall|i: int, j: int| 0 <= i < cells.len() && 0 <= j < cells.len() implies same_type(
        #[trigger] cells[i],
        #[trigger] cells[j],
    ) by {
        let (a, b) = (known_values(batch, column)[i], known_values(batch, column)[j]);
    }
    extreme_is_one_that_none_exceeds(cells, least);
}

/// Each kind of aggregate gives its own result.
pub proof fn each_kind_gives_its_own_result(
    batch: RecordBatch,
    e: AggregateExpr,
    column: usize,
    m: FloatModel,
)
    requires
        e.column == Some(column),
        column < batch.parts().len(),
        aggregate_result(batch, e, m) is Ok,
        known_values(batch, column).len() <= u64::MAX,
    ensures
        match e.kind {
            AggregateKind::Count => aggregate_result(batch, e, m) matches Ok(Aggregated::Count(n)) && n
                == known_values(batch, column).len(),
            AggregateKind::Sum => aggregate_result(batch, e, m) == Ok::<Aggregated, KernelFault>(
                Aggregated::Sum(sum_result(batch, column, m)->Ok_0),
            ),
            AggregateKind::Min => aggregate_result(batch, e, m) == Ok::<Aggregated, KernelFault>(
                Aggregated::Min(extreme_result(batch, column, true)->Ok_0),
            ),
            AggregateKind::Max => aggregate_result(batch, e, m) == Ok::<Aggregated, KernelFault>(
                Aggregated::Max(extreme_result(batch, column, false)->Ok_0),
            ),
            AggregateKind::Avg => aggregate_result(batch, e, m) == Ok::<Aggregated, KernelFault>(
                Aggregated::Avg(avg_result(batch, column, m)->Ok_0),
            ),
        },
{
    count_is_the_number_of_selected_rows(batch, column);
}

} // verus!
