//! Which rows the nodes of a logical plan hand on, and what they show.

use vstd::prelude::*;
use crate::executor::grouping::Grouping;
use crate::executor::guarantees::kept_rows_satisfy;
use crate::executor::plan::{predicate_holds, LogicalOperator, PlanNode, Predicate, ProjectedColumn, ProjectionExpression, SortExpression, Table};
use crate::executor::ranking::{distinct_ranks, list_before, list_before_is_strict, list_order, ranked_places};
use crate::executor::running::{materialized, shown, sort_directions, sort_values, sorted_selection, stage_of, Stage};
use crate::float::FloatModel;
use crate::laws::plans::{full_order_puts_the_smaller_first, smaller};
use crate::sorting::arrangement_exists;
use crate::text::Order;
use crate::types::Datum;

verus! {

/// A scan hands on all rows of the table, in their order.
pub proof fn scans_hand_on_all_rows(id: usize, table: String, t: Table, m: FloatModel)
    ensures
        stage_of(PlanNode { id, operator: LogicalOperator::Scan { table } }, t, m) matches Ok(stage)
            && stage.selected.len() == t.rows && (forall|k: int|
            0 <= k < t.rows ==> #[trigger] stage.selected[k] == k) && stage.grouping is None,
{
}

/// A filter hands on exactly the rows on which its condition holds, in their order.
pub proof fn filters_hand_on_what_satisfies(
    id: usize,
    input: PlanNode,
    predicate: Predicate,
    t: Table,
    m: FloatModel,
)
    ensures
        ({
            let before = stage_of(input, t, m);
            let after = stage_of(
                PlanNode {
                    id,
                    operator: LogicalOperator::Filter { input: Box::new(input), predicate },
                },
                t,
                m,
            );
            &&& after is Ok <==> before is Ok
            &&& before matches Ok(b) ==> (after matches Ok(a) ==> a.selected == b.selected.filter(
                |row: usize| predicate_holds(predicate, t, row as int),
            ) && a.grouping == b.grouping && a.columns == b.columns)
        }),
{
    if let Ok(before) = stage_of(input, t, m) {
        kept_rows_satisfy(predicate, t, before.selected, 0, Seq::empty());
        assert(before.selected.skip(0) =~= before.selected);
        let kept = before.selected.filter(|row: usize| predicate_holds(predicate, t, row as int));
        assert(Seq::<usize>::empty() + kept =~= kept);
    }
}

/// A limit hands on the first rows, as many as it allows and there are.
pub proof fn limits_hand_on_the_first(id: usize, input: PlanNode, limit: usize, t: Table, m: FloatModel)
    ensures
        ({
            let before = stage_of(input, t, m);
            let after = stage_of(
                PlanNode {
                    id,
                    operator: LogicalOperator::Limit { input: Box::new(input), limit },
                },
                t,
                m,
            );
            &&& after is Ok <==> before is Ok
            &&& before matches Ok(b) ==> (after matches Ok(a) ==> {
                &&& a.selected.len() == (if b.selected.len() < limit {
                    b.selected.len() as int
                } else {
                    limit as int
                })
                &&& forall|k: int|
                    0 <= k < a.selected.len() ==> #[trigger] a.selected[k] == b.selected[k]
                &&& a.grouping == b.grouping && a.columns == b.columns
            })
        }),
{
}

/// An output row shows, column by column, cells of its row of the table; above an aggregation it
/// shows keys and aggregate results of its group.
pub proof fn output_rows_show_their_rows(stage: Stage, t: Table, k: int, c: int)
    requires
        stage.columns is Some,
        0 <= k < stage.selected.len(),
        0 <= c < stage.columns->Some_0.len(),
    ensures
        materialized(stage, t).len() == stage.selected.len(),
        materialized(stage, t)[k].len() == stage.columns->Some_0.len(),
        ({
            let value = materialized(stage, t)[k][c];
            let at = stage.selected[k] as int;
            match (stage.columns->Some_0[c].expression, stage.grouping) {
                (ProjectionExpression::Column { source, .. }, None) => value
                    == t.columns@[source.index as int].cell(at),
                (ProjectionExpression::Column { group_position: Some(p), .. }, Some(g)) => value
                    == g.keys[at][p as int],
                (ProjectionExpression::Aggregate { state }, Some(g)) => value
                    == g.results[state as int][at],
                _ => true,
            }
        }),
{
}

/// Whether neither of two data is smaller.
pub open spec fn tied(a: Datum, b: Datum) -> bool {
    !smaller(a, b) && !smaller(b, a)
}

proof fn lists_compare_by_the_first_difference(
    a: Seq<Datum>,
    b: Seq<Datum>,
    down: Seq<bool>,
    from: int,
    k: int,
)
    requires
        0 <= from <= k < down.len(),
        forall|i: int| from <= i < k ==> tied(#[trigger] a[i], b[i]),
        !tied(a[k], b[k]),
    ensures
        list_order(a, b, down, from) == Order::Less <==> (if down[k] {
            smaller(b[k], a[k])
        } else {
            smaller(a[k], b[k])
        }),
        list_order(a, b, down, from) != Order::Equal,
    decreases k - from,
{
    full_order_puts_the_smaller_first(a[from], b[from]);
    if from < k {
        assert(tied(a[from], b[from]));
        lists_compare_by_the_first_difference(a, b, down, from + 1, k);
    }
}

proof fn tied_lists_compare_equal(a: Seq<Datum>, b: Seq<Datum>, down: Seq<bool>, from: int)
    requires
        0 <= from <= down.len(),
        forall|i: int| from <= i < down.len() ==> tied(#[trigger] a[i], b[i]),
    ensures
        list_order(a, b, down, from) == Order::Equal,
    decreases down.len() - from,
{
    if from < down.len() {
        full_order_puts_the_smaller_first(a[from], b[from]);
        assert(tied(a[from], b[from]));
        tied_lists_compare_equal(a, b, down, from + 1);
    }
}

/// The keys of a group.
pub open spec fn group_keys(grouping: Option<Grouping>, at: int) -> Seq<Datum> {
    match grouping {
        Some(g) => g.keys[at],
        None => Seq::empty(),
    }
}

proof fn sort_values_are_shown(
    grouping: Option<Grouping>,
    t: Table,
    columns: Seq<ProjectedColumn>,
    ordering: Seq<SortExpression>,
    from: int,
    at: int,
    width: nat,
)
    requires
        0 <= from <= ordering.len(),
        forall|i: int| 0 <= i < ordering.len() ==> #[trigger] ordering[i] is Output,
        group_keys(grouping, at).len() == width,
    ensures
        ({
            let values = sort_values(grouping, t, columns, ordering, from, at);
            let down = sort_directions(width, ordering, from);
            let n = ordering.len() - from;
            &&& values.len() == n + width
            &&& down.len() == n + width
            &&& forall|i: int|
                0 <= i < n ==> #[trigger] values[i] == shown(
                    grouping,
                    t,
                    columns[ordering[from + i]->output as int],
                    at,
                )
            &&& forall|i: int| 0 <= i < n ==> #[trigger] down[i] == ordering[from + i]->descending
            &&& forall|i: int|
                n <= i < n + width ==> #[trigger] values[i] == group_keys(grouping, at)[i - n]
            &&& forall|i: int| n <= i < n + width ==> !#[trigger] down[i]
        }),
    decreases ordering.len() - from,
{
    if from < ordering.len() {
        sort_values_are_shown(grouping, t, columns, ordering, from + 1, at, width);
        assert(ordering[from] is Output);
        let values = sort_values(grouping, t, columns, ordering, from, at);
        let rest = sort_values(grouping, t, columns, ordering, from + 1, at);
        let down = sort_directions(width, ordering, from);
        let more = sort_directions(width, ordering, from + 1);
        assert forall|i: int| 1 <= i < values.len() implies #[trigger] values[i] == rest[i - 1] by {}
        assert forall|i: int| 1 <= i < down.len() implies #[trigger] down[i] == more[i - 1] by {}
    }
}

/// Sorting keeps what was selected, each once; one stands before another only if the first sort
/// key on which they differ asks for it, greater values first where it goes down; groups that do
/// not differ there go by their keys, and rows by their places in the table.
pub proof fn sorting_goes_by_the_first_difference(
    stage: Stage,
    t: Table,
    columns: Seq<ProjectedColumn>,
    width: nat,
    ordering: Seq<SortExpression>,
    p: int,
    q: int,
)
    requires
        distinct_ranks(stage.selected),
        stage.selected.len() <= usize::MAX,
        forall|i: int| 0 <= i < ordering.len() ==> #[trigger] ordering[i] is Output,
        forall|k: int|
            0 <= k < stage.selected.len() ==> group_keys(
                stage.grouping,
                #[trigger] stage.selected[k] as int,
            ).len() == width,
        0 <= p < q < stage.selected.len(),
    ensures
        ({
            let sorted = sorted_selection(stage, t, columns, width, ordering);
            let (a, b) = (sorted[p] as int, sorted[q] as int);
            let value = |i: int, at: int|
                shown(stage.grouping, t, columns[ordering[i]->output as int], at);
            let tied_to = |i: int| forall|j: int|
                0 <= j < i ==> tied(#[trigger] value(j, a), value(j, b));
            &&& sorted.len() == stage.selected.len()
            &&& stage.selected.contains(sorted[p])
            &&& sorted[p] != sorted[q]
            &&& forall|i: int|
                0 <= i < ordering.len() && #[trigger] tied_to(i) && !tied(value(i, a), value(i, b))
                    ==> (if ordering[i]->descending {
                    smaller(value(i, b), value(i, a))
                } else {
                    smaller(value(i, a), value(i, b))
                })
            &&& tied_to(ordering.len() as int) ==> {
                let (x, y) = (group_keys(stage.grouping, a), group_keys(stage.grouping, b));
                &&& forall|i: int|
                    #![trigger x[i]]
                    0 <= i < width && !tied(x[i], y[i]) && (forall|j: int|
                        0 <= j < i ==> tied(#[trigger] x[j], y[j])) ==> smaller(x[i], y[i])
                &&& (forall|j: int| 0 <= j < width ==> tied(#[trigger] x[j], y[j])) ==> sorted[p]
                    < sorted[q]
            }
        }),
{
    let lists = Seq::new(
        stage.selected.len(),
        |k: int| sort_values(stage.grouping, t, columns, ordering, 0, stage.selected[k] as int),
    );
    let down = sort_directions(width, ordering, 0);
    let before = list_before(lists, down, stage.selected);
    list_before_is_strict(lists, down, stage.selected);
    arrangement_exists(lists.len() as int, before);
    let places = ranked_places(lists, down, stage.selected);
    let sorted = sorted_selection(stage, t, columns, width, ordering);
    assert(before(places[p] as int, places[q] as int));
    assert(!before(places[q] as int, places[q] as int));
    let (i0, j0) = (places[p] as int, places[q] as int);
    let (a, b) = (sorted[p] as int, sorted[q] as int);
    assert(stage.selected[i0] == sorted[p] && stage.selected[j0] == sorted[q]);
    assert(i0 != j0);
    sort_values_are_shown(stage.grouping, t, columns, ordering, 0, a, width);
    sort_values_are_shown(stage.grouping, t, columns, ordering, 0, b, width);
    let (x, y) = (lists[i0], lists[j0]);
    let n = ordering.len() as int;
    let value = |i: int, at: int|
        shown(stage.grouping, t, columns[ordering[i]->output as int], at);
    let tied_to = |i: int| forall|j: int| 0 <= j < i ==> tied(#[trigger] value(j, a), value(j, b));
    assert forall|i: int| 0 <= i < n implies x[i] == #[trigger] value(i, a) && y[i] == value(i, b) by {}
    assert forall|i: int|
        0 <= i < ordering.len() && #[trigger] tied_to(i) && !tied(value(i, a), value(i, b)) implies (
    if ordering[i]->descending {
        smaller(value(i, b), value(i, a))
    } else {
        smaller(value(i, a), value(i, b))
    }) by {
        assert forall|j: int| 0 <= j < i implies tied(#[trigger] x[j], y[j]) by {
            assert(tied(value(j, a), value(j, b)));
        }
        lists_compare_by_the_first_difference(x, y, down, 0, i);
        assert(down[i] == ordering[i]->descending);
    }
    if tied_to(n) {
        let (u, v) = (group_keys(stage.grouping, a), group_keys(stage.grouping, b));
        assert forall|j: int| 0 <= j < n implies tied(#[trigger] x[j], y[j]) by {
            assert(tied(value(j, a), value(j, b)));
        }
        assert forall|i: int|
            #![trigger u[i]]
            0 <= i < width && !tied(u[i], v[i]) && (forall|j: int|
                0 <= j < i ==> tied(#[trigger] u[j], v[j])) implies smaller(u[i], v[i]) by {
            assert forall|j: int| 0 <= j < n + i implies tied(#[trigger] x[j], y[j]) by {
                if j >= n {
                    assert(tied(u[j - n], v[j - n]));
                }
            }
            assert(x[n + i] == u[i] && y[n + i] == v[i]);
            lists_compare_by_the_first_difference(x, y, down, 0, n + i);
            assert(!down[n + i]);
        }
        if forall|j: int| 0 <= j < width ==> tied(#[trigger] u[j], v[j]) {
            assert forall|j: int| 0 <= j < n + width implies tied(#[trigger] x[j], y[j]) by {
                if j >= n {
                    assert(tied(u[j - n], v[j - n]));
                }
            }
            tied_lists_compare_equal(x, y, down, 0);
        }
    }
}

} // verus!
