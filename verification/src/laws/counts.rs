//! What grouped counts of a column are for.

use vstd::prelude::*;
use crate::executor::plan::{Column, Table};
use crate::grouping::{cell_order, counted_rows, field_named, grouped_counts, groups_count_their_rows, has_group, occurrences, selected_below, RowSelection};
use crate::types::Datum;

verus! {

/// The rows of a table that are counted: those that a selection marks, or all.
pub open spec fn rows_counted(selection: Option<&RowSelection>, rows: usize) -> Seq<usize> {
    let all = Seq::new(rows as nat, |i: int| i as usize);
    match selection {
        Some(s) => all.filter(|row: usize| s.mask@[row as int]),
        None => all,
    }
}

proof fn marked_rows_are_selected(mask: Seq<bool>, n: int)
    requires
        0 <= n <= usize::MAX,
    ensures
        selected_below(mask, n) == Seq::new(n as nat, |i: int| i as usize).filter(
            |row: usize| mask[row as int],
        ),
    decreases n,
{
    reveal(Seq::filter);
    let all = Seq::new(n as nat, |i: int| i as usize);
    if n > 0 {
        marked_rows_are_selected(mask, n - 1);
        assert(all.drop_last() =~= Seq::new((n - 1) as nat, |i: int| i as usize));
        assert(all.last() == (n - 1) as usize);
    } else {
        assert(all =~= Seq::<usize>::empty());
    }
}

/// The rows of a list that hold a value.
pub open spec fn rows_holding(column: Column, rows: Seq<usize>, d: Datum) -> Seq<usize> {
    rows.filter(|row: usize| column.cell(row as int) == d)
}

proof fn occurrences_are_rows(column: Column, rows: Seq<usize>, d: Datum, n: int)
    requires
        0 <= n <= rows.len(),
    ensures
        occurrences(column, rows, d, n) == rows_holding(column, rows.take(n), d).len(),
    decreases n,
{
    reveal(Seq::filter);
    if n > 0 {
        occurrences_are_rows(column, rows, d, n - 1);
        assert(rows.take(n).drop_last() =~= rows.take(n - 1));
        assert(rows.take(n).last() == rows[n - 1]);
    }
}

/// A grouped count tells of each value of the counted rows, smaller values first, in how many of
/// them it stands.
pub proof fn grouped_counts_tell_how_many_rows_hold_a_value(
    t: Table,
    field: Seq<char>,
    selection: Option<&RowSelection>,
    max_groups: usize,
    c: int,
    row: int,
)
    requires
        field_named(t.fields@, field, 0) == Some(c),
        selection matches Some(s) ==> s.mask@.len() == t.rows,
        0 <= row < rows_counted(selection, t.rows).len(),
    ensures
        grouped_counts(t, field, selection, max_groups) matches Ok(groups) ==> {
            let column = t.columns@[c];
            let rows = rows_counted(selection, t.rows);
            &&& forall|k: int|
                0 <= k < groups.len() ==> (#[trigger] groups[k]).1 == rows_holding(
                    column,
                    rows,
                    groups[k].0,
                ).len()
            &&& has_group(groups, column.cell(rows[row] as int))
            &&& forall|j: int, k: int|
                0 <= j < k < groups.len() ==> cell_order(
                    (#[trigger] groups[j]).0,
                    (#[trigger] groups[k]).0,
                ) == crate::text::Order::Less
        },
{
    groups_count_their_rows(t, field, selection, max_groups);
    let rows = rows_counted(selection, t.rows);
    if let Some(s) = selection {
        marked_rows_are_selected(s.mask@, s.mask@.len() as int);
    }
    assert(counted_rows(selection, t.rows) == rows);
    let column = t.columns@[c];
    let n = rows.len() as int;
    assert(rows.take(n) =~= rows);
    if let Ok(groups) = grouped_counts(t, field, selection, max_groups) {
        assert forall|k: int| 0 <= k < groups.len() implies (#[trigger] groups[k]).1 == rows_holding(
            column,
            rows,
            groups[k].0,
        ).len() by {
            occurrences_are_rows(column, rows, groups[k].0, n);
        }
        let d = column.cell(rows[row] as int);
        occurrences_are_rows(column, rows, d, n);
        a_row_is_held(column, rows, d, row);
        assert(occurrences(column, rows, d, n) > 0);
    }
}

proof fn a_row_is_held(column: Column, rows: Seq<usize>, d: Datum, row: int)
    requires
        0 <= row < rows.len(),
        column.cell(rows[row] as int) == d,
    ensures
        rows_holding(column, rows, d).len() > 0,
    decreases rows.len(),
{
    reveal(Seq::filter);
    if row < rows.len() - 1 {
        a_row_is_held(column, rows.drop_last(), d, row);
    }
}

} // verus!
