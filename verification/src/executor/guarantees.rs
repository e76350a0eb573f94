//! What holds of all plans.

use vstd::prelude::*;
use crate::executor::grouping::{first_groups, group_with, grouping_of, groups_from, groups_with, key_of, opened, Groups};
use crate::executor::plan::{ids_fit, output_shape, predicate_holds, AggregateExpression, LogicalOperator, PlanNode, Predicate, ResolvedColumn, SortExpression, Table};
use crate::executor::ranking::lists_match;
use crate::executor::running::{at_most, count_of, counted, kept_from, materialized, stage_of, time_of, OperatorMetrics, Stage};
use crate::float::FloatModel;
use crate::types::Datum;

verus! {

/// Taking the first rows in an order gives the rows that sorting and then limiting gives.
pub proof fn top_rows_are_the_first_sorted(
    input: PlanNode,
    ordering: Vec<SortExpression>,
    limit: usize,
    ids: (usize, usize, usize),
    t: Table,
    m: FloatModel,
)
    requires
        output_shape(input, t) is Some,
    ensures
        stage_of(
            PlanNode {
                id: ids.0,
                operator: LogicalOperator::TopK { input: Box::new(input), ordering, limit },
            },
            t,
            m,
        ) == stage_of(
            PlanNode {
                id: ids.1,
                operator: LogicalOperator::Limit {
                    input: Box::new(
                        PlanNode {
                            id: ids.2,
                            operator: LogicalOperator::Sort { input: Box::new(input), ordering },
                        },
                    ),
                    limit,
                },
            },
            t,
            m,
        ),
{
    let sort = PlanNode {
        id: ids.2,
        operator: LogicalOperator::Sort { input: Box::new(input), ordering },
    };
    let limited = PlanNode {
        id: ids.1,
        operator: LogicalOperator::Limit { input: Box::new(sort), limit },
    };
    assert(stage_of(limited, t, m) == match stage_of(sort, t, m) {
        Err(fault) => Err(fault),
        Ok(stage) => Ok(Stage { selected: at_most(stage.selected, limit), ..stage }),
    });
}

/// A filter keeps rows that satisfy its condition, all of them, in their order.
pub proof fn kept_rows_satisfy(
    p: Predicate,
    t: Table,
    rows: Seq<usize>,
    i: int,
    done: Seq<usize>,
)
    requires
        0 <= i <= rows.len(),
    ensures
        kept_from(p, t, rows, i, done) == done + rows.skip(i).filter(
            |row: usize| predicate_holds(p, t, row as int),
        ),
    decreases rows.len() - i,
{
    let keeps = |row: usize| predicate_holds(p, t, row as int);
    reveal(Seq::filter);
    if i < rows.len() {
        let rest = rows.skip(i);
        assert(rest =~= seq![rows[i]] + rows.skip(i + 1));
        Seq::filter_distributes_over_add(seq![rows[i]], rows.skip(i + 1), keeps);
        assert(seq![rows[i]].filter(keeps) =~= if keeps(rows[i]) {
            seq![rows[i]]
        } else {
            Seq::empty()
        }) by {
            reveal_with_fuel(Seq::filter, 2);
            assert(seq![rows[i]].drop_last() =~= Seq::<usize>::empty());
        }
        if keeps(rows[i]) {
            kept_rows_satisfy(p, t, rows, i + 1, done.push(rows[i]));
            assert(done.push(rows[i]) + rows.skip(i + 1).filter(keeps) =~= done + rest.filter(keeps));
        } else {
            kept_rows_satisfy(p, t, rows, i + 1, done);
            assert(done + rows.skip(i + 1).filter(keeps) =~= done + rest.filter(keeps));
        }
    } else {
        assert(rows.skip(i) =~= Seq::<usize>::empty());
        assert(done + rows.skip(i).filter(keeps) =~= done);
    }
}

/// Whether no two keys are equal.
pub open spec fn keys_differ(keys: Seq<Seq<Datum>>) -> bool {
    forall|i: int, j: int|
        #![trigger keys[i], keys[j]]
        0 <= i < j < keys.len() ==> !lists_match(keys[i], keys[j])
}

proof fn absent_keys_differ(keys: Seq<Seq<Datum>>, key: Seq<Datum>, g: int)
    requires
        0 <= g,
        group_with(keys, key, g) is None,
    ensures
        forall|k: int| g <= k < keys.len() ==> !lists_match(#[trigger] keys[k], key),
    decreases keys.len() - g,
{
    if g < keys.len() {
        absent_keys_differ(keys, key, g + 1);
    }
}

proof fn groups_stay_apart(
    groups: Groups,
    rows: Seq<usize>,
    i: int,
    t: Table,
    group_by: Seq<ResolvedColumn>,
    aggregates: Seq<AggregateExpression>,
    m: FloatModel,
)
    requires
        keys_differ(groups.keys),
        0 <= i,
    ensures
        groups_from(groups, rows, i, t, group_by, aggregates, m) matches Ok(after) ==> keys_differ(
            after.keys,
        ),
    decreases rows.len() - i,
{
    if i < rows.len() {
        let key = key_of(t, group_by, rows[i] as int);
        if group_with(groups.keys, key, 0) is None {
            absent_keys_differ(groups.keys, key, 0);
            assert(keys_differ(opened(groups, key, aggregates).keys));
        }
        match groups_with(groups, rows[i] as int, t, group_by, aggregates, m) {
            Ok(next) => groups_stay_apart(next, rows, i + 1, t, group_by, aggregates, m),
            Err(_) => {},
        }
    }
}

/// No two groups have equal keys.
pub proof fn groups_are_distinct(
    t: Table,
    rows: Seq<usize>,
    group_by: Seq<ResolvedColumn>,
    aggregates: Seq<AggregateExpression>,
    m: FloatModel,
)
    ensures
        grouping_of(t, rows, group_by, aggregates, m) matches Ok(grouping) ==> keys_differ(
            grouping.keys,
        ),
{
    groups_stay_apart(first_groups(group_by, aggregates), rows, 0, t, group_by, aggregates, m);
}

/// The count of the uppermost node is the number of output rows.
pub proof fn output_rows_are_counted(
    node: PlanNode,
    t: Table,
    m: FloatModel,
    before: Seq<OperatorMetrics>,
    readings: Seq<u64>,
)
    requires
        ids_fit(node, before.len()),
        stage_of(node, t, m) matches Ok(stage) && stage.columns is Some && stage.selected.len()
            <= usize::MAX,
    ensures
        counted(node, t, m, before, readings)[node.id as int].rows == materialized(
            stage_of(node, t, m)->Ok_0,
            t,
        ).len(),
{
    counts_keep_their_number(node, t, m, before, readings);
}

proof fn counts_keep_their_number(
    node: PlanNode,
    t: Table,
    m: FloatModel,
    before: Seq<OperatorMetrics>,
    readings: Seq<u64>,
)
    requires
        ids_fit(node, before.len()),
    ensures
        counted(node, t, m, before, readings).len() == before.len(),
        counted(node, t, m, before, readings)[node.id as int]
            == (OperatorMetrics {
            rows: count_of(node, t, m),
            elapsed: time_of(node, readings),
        }),
    decreases node,
{
    match node.operator {
        LogicalOperator::Scan { .. } => {},
        LogicalOperator::Filter { input, .. } => counts_keep_their_number(*input, t, m, before, readings),
        LogicalOperator::Aggregation { input, .. } => counts_keep_their_number(*input, t, m, before, readings),
        LogicalOperator::Projection { input, .. } => counts_keep_their_number(*input, t, m, before, readings),
        LogicalOperator::Sort { input, .. } => counts_keep_their_number(*input, t, m, before, readings),
        LogicalOperator::TopK { input, .. } => counts_keep_their_number(*input, t, m, before, readings),
        LogicalOperator::Limit { input, .. } => counts_keep_their_number(*input, t, m, before, readings),
    }
}

} // verus!
