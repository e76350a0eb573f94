//! Running a plan node by node.

use vstd::prelude::*;
use crate::executor::grouping::{execute_grouped, grouping_of, ExecutionError, ExecutionFault, GroupedData, Grouping};
use crate::executor::plan::{ids_fit, input_shape, output_shape, plan_fits, predicate_fits, predicate_holds, projection_fits, sort_fits, AggregateExpression, LogicalOperator, LogicalPlan, PlanNode, Predicate, ProjectedColumn, ProjectionExpression, ResolvedColumn, Shape, SortExpression, Table};
use crate::executor::ranking::{distinct_ranks, ranked_places, sort_lists};
use crate::float::{answers_floats, float_model, FloatModel, FloatReply, FloatRequest};
use crate::storage::rows_of;
use crate::types::{data_of, Datum, Value};

verus! {

/// What a node hands on: rows of the table or groups, which of them in which order, and the
/// output columns once they are chosen.
pub struct Stage {
    pub grouping: Option<Grouping>,
    pub selected: Seq<usize>,
    pub columns: Option<Seq<ProjectedColumn>>,
}

/// The numbers below a bound.
pub open spec fn numbers(n: nat) -> Seq<usize> {
    Seq::new(n, |i: int| i as usize)
}

/// The rows from a position on that satisfy a condition, behind `done`.
pub open spec fn kept_from(p: Predicate, t: Table, rows: Seq<usize>, i: int, done: Seq<usize>) -> Seq<
    usize,
>
    decreases rows.len() - i,
{
    if !(0 <= i < rows.len()) {
        done
    } else if predicate_holds(p, t, rows[i] as int) {
        kept_from(p, t, rows, i + 1, done.push(rows[i]))
    } else {
        kept_from(p, t, rows, i + 1, done)
    }
}

/// The value of an output column for a row or a group.
pub open spec fn shown(grouping: Option<Grouping>, t: Table, c: ProjectedColumn, at: int) -> Datum {
    match (grouping, c.expression) {
        (None, ProjectionExpression::Column { source, .. }) => t.cell(source.index as int, at),
        (Some(g), ProjectionExpression::Column { group_position: Some(p), .. }) => g.keys[at][p as int],
        (Some(g), ProjectionExpression::Aggregate { state }) => g.results[state as int][at],
        _ => Datum::Null,
    }
}

/// The values that a row or a group is sorted by, from a sort key on. Groups are sorted by
/// their keys at last.
pub open spec fn sort_values(
    grouping: Option<Grouping>,
    t: Table,
    columns: Seq<ProjectedColumn>,
    ordering: Seq<SortExpression>,
    i: int,
    at: int,
) -> Seq<Datum>
    decreases ordering.len() - i,
{
    let keys = match grouping {
        Some(g) => g.keys[at],
        None => Seq::empty(),
    };
    if !(0 <= i < ordering.len()) {
        keys
    } else {
        let first = match ordering[i] {
            SortExpression::Output { output, .. } => seq![
                shown(grouping, t, columns[output as int], at),
            ],
            SortExpression::GroupKey => keys,
        };
        first + sort_values(grouping, t, columns, ordering, i + 1, at)
    }
}

/// Which of the values that are sorted by go down, from a sort key on.
pub open spec fn sort_directions(width: nat, ordering: Seq<SortExpression>, i: int) -> Seq<bool>
    decreases ordering.len() - i,
{
    let keys = Seq::new(width, |k: int| false);
    if !(0 <= i < ordering.len()) {
        keys
    } else {
        let first = match ordering[i] {
            SortExpression::Output { descending, .. } => seq![descending],
            SortExpression::GroupKey => keys,
        };
        first + sort_directions(width, ordering, i + 1)
    }
}

/// The number of keys of groups.
pub open spec fn key_width(shape: Shape) -> nat {
    match shape {
        Shape::Source => 0,
        Shape::Grouped { keys, .. } => keys,
    }
}

/// The selection in the order of sort keys. Ties between rows go by their places in the
/// table.
pub open spec fn sorted_selection(
    stage: Stage,
    t: Table,
    columns: Seq<ProjectedColumn>,
    width: nat,
    ordering: Seq<SortExpression>,
) -> Seq<usize> {
    let lists = Seq::new(
        stage.selected.len(),
        |k: int|
            sort_values(stage.grouping, t, columns, ordering, 0, stage.selected[k] as int),
    );
    let places = ranked_places(lists, sort_directions(width, ordering, 0), stage.selected);
    Seq::new(places.len(), |k: int| stage.selected[places[k] as int])
}

/// The first elements of a list.
pub open spec fn at_most(list: Seq<usize>, limit: usize) -> Seq<usize> {
    if limit < list.len() {
        list.take(limit as int)
    } else {
        list
    }
}

/// What a stage hands on in the order of sort keys.
pub open spec fn sorted_stage(
    input: PlanNode,
    stage: Stage,
    t: Table,
    ordering: Seq<SortExpression>,
    limit: Option<usize>,
) -> Stage {
    match output_shape(input, t) {
        None => stage,
        Some((columns, shape)) => {
            let sorted = sorted_selection(stage, t, columns, key_width(shape), ordering);
            Stage {
                selected: match limit {
                    Some(n) => at_most(sorted, n),
                    None => sorted,
                },
                ..stage
            }
        },
    }
}

/// What a node hands on.
pub open spec fn stage_of(node: PlanNode, t: Table, m: FloatModel) -> Result<Stage, ExecutionFault>
    decreases node,
{
    match node.operator {
        LogicalOperator::Scan { .. } => Ok(
            Stage { grouping: None, selected: numbers(t.rows as nat), columns: None },
        ),
        LogicalOperator::Filter { input, predicate } => match stage_of(*input, t, m) {
            Err(fault) => Err(fault),
            Ok(stage) => Ok(
                Stage {
                    selected: kept_from(predicate, t, stage.selected, 0, Seq::empty()),
                    ..stage
                },
            ),
        },
        LogicalOperator::Aggregation { input, group_by, aggregates } => match stage_of(
            *input,
            t,
            m,
        ) {
            Err(fault) => Err(fault),
            Ok(stage) => match grouping_of(t, stage.selected, group_by@, aggregates@, m) {
                Err(fault) => Err(fault),
                Ok(grouping) => Ok(
                    Stage {
                        grouping: Some(grouping),
                        selected: numbers(grouping.keys.len()),
                        columns: None,
                    },
                ),
            },
        },
        LogicalOperator::Projection { input, columns } => match stage_of(*input, t, m) {
            Err(fault) => Err(fault),
            Ok(stage) => Ok(Stage { columns: Some(columns@), ..stage }),
        },
        LogicalOperator::Sort { input, ordering } => match stage_of(*input, t, m) {
            Err(fault) => Err(fault),
            Ok(stage) => Ok(sorted_stage(*input, stage, t, ordering@, None)),
        },
        LogicalOperator::TopK { input, ordering, limit } => match stage_of(*input, t, m) {
            Err(fault) => Err(fault),
            Ok(stage) => Ok(sorted_stage(*input, stage, t, ordering@, Some(limit))),
        },
        LogicalOperator::Limit { input, limit } => match stage_of(*input, t, m) {
            Err(fault) => Err(fault),
            Ok(stage) => Ok(Stage { selected: at_most(stage.selected, limit), ..stage }),
        },
    }
}

/// The number of rows that a node hands on.
pub open spec fn count_of(node: PlanNode, t: Table, m: FloatModel) -> usize {
    match stage_of(node, t, m) {
        Ok(stage) => stage.selected.len() as usize,
        Err(_) => 0,
    }
}

/// The number of nodes of a plan from a node down.
pub open spec fn nodes_in(node: PlanNode) -> nat
    decreases node,
{
    match node.operator {
        LogicalOperator::Scan { .. } => 1,
        LogicalOperator::Filter { input, .. } => nodes_in(*input) + 1,
        LogicalOperator::Aggregation { input, .. } => nodes_in(*input) + 1,
        LogicalOperator::Projection { input, .. } => nodes_in(*input) + 1,
        LogicalOperator::Sort { input, .. } => nodes_in(*input) + 1,
        LogicalOperator::TopK { input, .. } => nodes_in(*input) + 1,
        LogicalOperator::Limit { input, .. } => nodes_in(*input) + 1,
    }
}

/// The time between two readings of a clock. A clock that went back measures none.
pub open spec fn time_between(started: u64, ended: u64) -> u64 {
    if started <= ended {
        (ended - started) as u64
    } else {
        0
    }
}

/// The sum of two times, which stays at the largest time in range.
pub open spec fn times_together(a: u64, b: u64) -> u64 {
    if a + b <= u64::MAX {
        (a + b) as u64
    } else {
        u64::MAX
    }
}

/// The time that a node takes by the readings of a clock: it is read before and after the work
/// of each node, the lowest node first.
pub open spec fn time_of(node: PlanNode, readings: Seq<u64>) -> u64 {
    let k = nodes_in(node) as int;
    time_between(readings[2 * k - 2], readings[2 * k - 1])
}

/// What is measured with what a node and the nodes below it measure.
pub open spec fn counted(
    node: PlanNode,
    t: Table,
    m: FloatModel,
    before: Seq<OperatorMetrics>,
    readings: Seq<u64>,
) -> Seq<OperatorMetrics>
    decreases node,
{
    let below = match node.operator {
        LogicalOperator::Scan { .. } => before,
        LogicalOperator::Filter { input, .. } => counted(*input, t, m, before, readings),
        LogicalOperator::Aggregation { input, .. } => counted(*input, t, m, before, readings),
        LogicalOperator::Projection { input, .. } => counted(*input, t, m, before, readings),
        LogicalOperator::Sort { input, .. } => counted(*input, t, m, before, readings),
        LogicalOperator::TopK { input, .. } => counted(*input, t, m, before, readings),
        LogicalOperator::Limit { input, .. } => counted(*input, t, m, before, readings),
    };
    below.update(
        node.id as int,
        OperatorMetrics { rows: count_of(node, t, m), elapsed: time_of(node, readings) },
    )
}

/// The number of the node that chooses the output columns.
pub open spec fn projection_of(node: PlanNode) -> usize
    decreases node,
{
    match node.operator {
        LogicalOperator::Sort { input, .. } => projection_of(*input),
        LogicalOperator::TopK { input, .. } => projection_of(*input),
        LogicalOperator::Limit { input, .. } => projection_of(*input),
        _ => node.id,
    }
}

/// What running a plan measures. The time of making the output rows counts for the node that
/// chooses the output columns: the clock is read before and after that as well.
pub open spec fn measured(
    root: PlanNode,
    t: Table,
    m: FloatModel,
    before: Seq<OperatorMetrics>,
    readings: Seq<u64>,
) -> Seq<OperatorMetrics> {
    let ran = counted(root, t, m, before, readings);
    let p = projection_of(root) as int;
    let k = nodes_in(root) as int;
    ran.update(
        p,
        OperatorMetrics {
            rows: ran[p].rows,
            elapsed: times_together(
                ran[p].elapsed,
                time_between(readings[2 * k], readings[2 * k + 1]),
            ),
        },
    )
}

/// Whether readings came from a clock.
pub open spec fn read_from<C: Fn() -> u64>(clock: C, readings: Seq<u64>) -> bool {
    forall|i: int| 0 <= i < readings.len() ==> call_ensures(clock, (), #[trigger] readings[i])
}

/// The output rows of a stage.
pub open spec fn materialized(stage: Stage, t: Table) -> Seq<Seq<Datum>> {
    match stage.columns {
        None => Seq::empty(),
        Some(columns) => Seq::new(
            stage.selected.len(),
            |k: int|
                Seq::new(
                    columns.len(),
                    |c: int| shown(stage.grouping, t, columns[c], stage.selected[k] as int),
                ),
        ),
    }
}

/// What running a node measures.
#[derive(Clone, Copy, Debug, PartialEq, Eq)]
pub struct OperatorMetrics {
    /// The number of rows that the node hands on.
    pub rows: usize,
    /// The time that the node takes, in nanoseconds.
    pub elapsed: u64,
}

struct Working<'p> {
    grouped: Option<GroupedData>,
    selected: Vec<usize>,
    columns: Option<&'p Vec<ProjectedColumn>>,
    width: usize,
}

spec fn grouping_in(grouped: Option<GroupedData>) -> Option<Grouping> {
    match grouped {
        Some(g) => Some(g@),
        None => None,
    }
}

/// Whether the selection names rows or groups that are there, none twice.
spec fn selects(selected: Seq<usize>, height: nat) -> bool {
    distinct_ranks(selected) && forall|i: int| 0 <= i < selected.len() ==> #[trigger] selected[i]
        < height
}

spec fn height_of(grouped: Option<GroupedData>, t: Table) -> nat {
    match grouped {
        Some(g) => g.keys@.len(),
        None => t.rows as nat,
    }
}

spec fn has_shape(grouped: Option<GroupedData>, shape: Shape) -> bool {
    match (grouped, shape) {
        (None, Shape::Source) => true,
        (Some(g), Shape::Grouped { keys, aggregates }) => g.wf(keys, aggregates),
        _ => false,
    }
}

impl<'p> Working<'p> {
    spec fn stage(&self) -> Stage {
        Stage {
            grouping: grouping_in(self.grouped),
            selected: self.selected@,
            columns: match self.columns {
                Some(columns) => Some(columns@),
                None => None,
            },
        }
    }

    spec fn wf(&self, node: PlanNode, t: Table) -> bool {
        &&& selects(self.selected@, height_of(self.grouped, t))
        &&& match input_shape(node, t) {
            Some(shape) => {
                &&& self.columns is None
                &&& has_shape(self.grouped, shape)
                &&& self.width == key_width(shape)
            },
            None => match output_shape(node, t) {
                Some((columns, shape)) => {
                    &&& self.columns is Some
                    &&& self.columns.unwrap()@ == columns
                    &&& has_shape(self.grouped, shape)
                    &&& self.width == key_width(shape)
                },
                None => false,
            },
        }
    }
}

fn count_up(n: usize) -> (list: Vec<usize>)
    ensures
        list@ == numbers(n as nat),
        selects(list@, n as nat),
{
    let mut list: Vec<usize> = Vec::new();
    let mut i: usize = 0;
    while i < n
        invariant
            i <= n,
            list@.len() == i,
            forall|k: int| 0 <= k < i ==> #[trigger] list@[k] == k,
        decreases n - i,
    {
        list.push(i);
        i = i + 1;
    }
    assert(list@ =~= numbers(n as nat));
    list
}

#[verifier::loop_isolation(false)]
fn keep_rows(predicate: &Predicate, table: &Table, rows: &Vec<usize>) -> (kept: Vec<usize>)
    requires
        table.wf(),
        predicate_fits(*predicate, *table),
        selects(rows@, table.rows as nat),
    ensures
        kept@ == kept_from(*predicate, *table, rows@, 0, Seq::empty()),
        selects(kept@, table.rows as nat),
{
    let mut kept: Vec<usize> = Vec::new();
    let mut i: usize = 0;
    while i < rows.len()
        invariant
            i <= rows.len(),
            kept_from(*predicate, *table, rows@, 0, Seq::empty()) == kept_from(
                *predicate,
                *table,
                rows@,
                i as int,
                kept@,
            ),
            selects(kept@, table.rows as nat),
            forall|k: int, j: int|
                0 <= k < kept@.len() && i <= j < rows@.len() ==> #[trigger] kept@[k]
                    != #[trigger] rows@[j],
        decreases rows.len() - i,
    {
        if predicate.evaluate(table, rows[i]) {
            kept.push(rows[i]);
        }
        i = i + 1;
    }
    kept
}

fn show(grouped: &Option<GroupedData>, table: &Table, column: &ProjectedColumn, at: usize, Ghost(shape): Ghost<Shape>) -> (value: Value)
    requires
        table.wf(),
        has_shape(*grouped, shape),
        projection_fits(*column, shape, *table),
        at < height_of(*grouped, *table),
    ensures
        value@ == shown(grouping_in(*grouped), *table, *column, at as int),
{
    match (grouped, &column.expression) {
        (None, ProjectionExpression::Column { source, group_position: _ }) => {
            table.columns[source.index].value(at)
        },
        (Some(g), ProjectionExpression::Column { source: _, group_position: Some(p) }) => {
            assert(g.keys@[at as int]@.len() > *p);
            assert(g@.keys[at as int] == data_of(g.keys@[at as int]@));
            g.keys[at][*p].clone()
        },
        (Some(g), ProjectionExpression::Aggregate { state }) => {
            assert(g.aggregates@[*state as int]@.len() == g.keys@.len());
            assert(g@.results[*state as int] == data_of(g.aggregates@[*state as int]@));
            g.aggregates[*state][at].clone()
        },
        _ => Value::Null,
    }
}

proof fn lists_are_as_long(
    grouping: Option<Grouping>,
    t: Table,
    columns: Seq<ProjectedColumn>,
    ordering: Seq<SortExpression>,
    i: int,
    at: int,
    width: nat,
)
    requires
        match grouping {
            Some(g) => g.keys[at].len() == width,
            None => width == 0,
        },
    ensures
        sort_values(grouping, t, columns, ordering, i, at).len() == sort_directions(
            width,
            ordering,
            i,
        ).len(),
    decreases ordering.len() - i,
{
    if 0 <= i < ordering.len() {
        lists_are_as_long(grouping, t, columns, ordering, i + 1, at, width);
    }
}

fn copy_values(from: &Vec<Value>, to: &mut Vec<Value>)
    ensures
        data_of(final(to)@) == data_of(old(to)@) + data_of(from@),
{
    let ghost start = to@;
    let mut i: usize = 0;
    while i < from.len()
        invariant
            i <= from.len(),
            to@.len() == start.len() + i,
            forall|k: int| 0 <= k < start.len() ==> #[trigger] to@[k] == start[k],
            forall|k: int| 0 <= k < i ==> to@[start.len() + k] == #[trigger] from@[k],
        decreases from.len() - i,
    {
        to.push(from[i].clone());
        i = i + 1;
    }
    assert(data_of(to@) =~= data_of(start) + data_of(from@)) by {
        assert forall|k: int| 0 <= k < from@.len() implies data_of(to@)[start.len() + k] == (
        #[trigger] data_of(from@)[k]) by {
            assert(to@[start.len() + k] == from@[k]);
        }
    }
}

#[verifier::loop_isolation(false)]
fn sort_list(
    grouped: &Option<GroupedData>,
    table: &Table,
    columns: &Vec<ProjectedColumn>,
    ordering: &Vec<SortExpression>,
    at: usize,
    Ghost(shape): Ghost<Shape>,
) -> (list: Vec<Value>)
    requires
        table.wf(),
        has_shape(*grouped, shape),
        at < height_of(*grouped, *table),
        forall|i: int|
            0 <= i < columns@.len() ==> projection_fits(#[trigger] columns@[i], shape, *table),
        forall|i: int|
            0 <= i < ordering@.len() ==> sort_fits(#[trigger] ordering@[i], shape, columns@.len()),
    ensures
        data_of(list@) == sort_values(
            grouping_in(*grouped),
            *table,
            columns@,
            ordering@,
            0,
            at as int,
        ),
{
    let ghost grouping = grouping_in(*grouped);
    let mut list: Vec<Value> = Vec::new();
    assert(data_of(list@) =~= Seq::<Datum>::empty());
    let ghost goal = sort_values(grouping, *table, columns@, ordering@, 0, at as int);
    assert(goal =~= data_of(list@) + goal);
    let mut i: usize = 0;
    while i < ordering.len()
        invariant
            i <= ordering.len(),
            goal == data_of(list@) + sort_values(
                grouping,
                *table,
                columns@,
                ordering@,
                i as int,
                at as int,
            ),
        decreases ordering.len() - i,
    {
        let ghost before = data_of(list@);
        let ghost rest = sort_values(grouping, *table, columns@, ordering@, i + 1, at as int);
        assert(sort_fits(ordering@[i as int], shape, columns@.len()));
        match &ordering[i] {
            SortExpression::Output { output, descending: _ } => {
                assert(projection_fits(columns@[*output as int], shape, *table));
                let value = show(grouped, table, &columns[*output], at, Ghost(shape));
                list.push(value);
                assert(data_of(list@) =~= before + seq![value@]);
                assert(goal =~= data_of(list@) + rest);
            },
            SortExpression::GroupKey => {
                if let Some(g) = grouped {
                    assert(g@.keys[at as int] == data_of(g.keys@[at as int]@));
                    copy_values(&g.keys[at], &mut list);
                }
                assert(goal =~= data_of(list@) + rest);
            },
        }
        i = i + 1;
    }
    let ghost before = data_of(list@);
    match grouped {
        Some(g) => {
            assert(g@.keys[at as int] == data_of(g.keys@[at as int]@));
            copy_values(&g.keys[at], &mut list);
        },
        None => {
            assert(goal =~= before);
        },
    }
    list
}

#[verifier::loop_isolation(false)]
fn directions(width: usize, ordering: &Vec<SortExpression>) -> (down: Vec<bool>)
    ensures
        down@ == sort_directions(width as nat, ordering@, 0),
{
    let mut down: Vec<bool> = Vec::new();
    let ghost goal = sort_directions(width as nat, ordering@, 0);
    let ghost keys = Seq::new(width as nat, |k: int| false);
    assert(goal =~= down@ + goal);
    let mut i: usize = 0;
    while i < ordering.len()
        invariant
            i <= ordering.len(),
            goal == down@ + sort_directions(width as nat, ordering@, i as int),
        decreases ordering.len() - i,
    {
        let ghost before = down@;
        let ghost rest = sort_directions(width as nat, ordering@, i + 1);
        match &ordering[i] {
            SortExpression::Output { output: _, descending } => {
                down.push(*descending);
                assert(down@ =~= before + seq![*descending]);
            },
            SortExpression::GroupKey => {
                ascend(width, &mut down);
            },
        }
        assert(goal =~= down@ + rest);
        i = i + 1;
    }
    ascend(width, &mut down);
    down
}

fn ascend(width: usize, down: &mut Vec<bool>)
    ensures
        final(down)@ == old(down)@ + Seq::new(width as nat, |k: int| false),
{
    let ghost start = down@;
    let mut i: usize = 0;
    while i < width
        invariant
            i <= width,
            down@ == start + Seq::new(i as nat, |k: int| false),
        decreases width - i,
    {
        down.push(false);
        i = i + 1;
        assert(down@ =~= start + Seq::new(i as nat, |k: int| false));
    }
}

fn shorten(list: Vec<usize>, limit: usize) -> (r: Vec<usize>)
    ensures
        r@ == at_most(list@, limit),
{
    let mut r = list;
    r.truncate(limit);
    r
}

#[verifier::loop_isolation(false)]
fn sort_selected(
    grouped: &Option<GroupedData>,
    selected: &Vec<usize>,
    table: &Table,
    columns: &Vec<ProjectedColumn>,
    ordering: &Vec<SortExpression>,
    width: usize,
    Ghost(shape): Ghost<Shape>,
) -> (r: Vec<usize>)
    requires
        table.wf(),
        has_shape(*grouped, shape),
        key_width(shape) == width,
        selects(selected@, height_of(*grouped, *table)),
        forall|i: int|
            0 <= i < columns@.len() ==> projection_fits(#[trigger] columns@[i], shape, *table),
        forall|i: int|
            0 <= i < ordering@.len() ==> sort_fits(#[trigger] ordering@[i], shape, columns@.len()),
    ensures
        r@ == sorted_selection(
            Stage { grouping: grouping_in(*grouped), selected: selected@, columns: None },
            *table,
            columns@,
            width as nat,
            ordering@,
        ),
        selects(r@, height_of(*grouped, *table)),
{
    let ghost grouping = grouping_in(*grouped);
    let down = directions(width, ordering);
    let mut lists: Vec<Vec<Value>> = Vec::new();
    let mut i: usize = 0;
    while i < selected.len()
        invariant
            i <= selected.len(),
            lists@.len() == i,
            forall|k: int|
                0 <= k < i ==> data_of((#[trigger] lists@[k])@) == sort_values(
                    grouping,
                    *table,
                    columns@,
                    ordering@,
                    0,
                    selected@[k] as int,
                ) && lists@[k]@.len() == down@.len(),
        decreases selected.len() - i,
    {
        let at = selected[i];
        let list = sort_list(grouped, table, columns, ordering, at, Ghost(shape));
        proof {
            if let Some(g) = grouped {
                assert(g@.keys[at as int] == data_of(g.keys@[at as int]@));
            }
            lists_are_as_long(grouping, *table, columns@, ordering@, 0, at as int, width as nat);
            assert(data_of(list@).len() == list@.len());
        }
        lists.push(list);
        i = i + 1;
    }
    let ghost goal = Seq::new(
        selected@.len(),
        |k: int| sort_values(grouping, *table, columns@, ordering@, 0, selected@[k] as int),
    );
    assert(rows_of(lists@) =~= goal);
    let places = sort_lists(&lists, &down, selected);
    let mut r: Vec<usize> = Vec::new();
    let mut k: usize = 0;
    while k < places.len()
        invariant
            k <= places.len(),
            r@.len() == k,
            forall|j: int| 0 <= j < k ==> #[trigger] r@[j] == selected@[places@[j] as int],
        decreases places.len() - k,
    {
        r.push(selected[places[k]]);
        k = k + 1;
    }
    proof {
        crate::executor::ranking::list_before_is_strict(goal, down@, selected@);
        let before = crate::executor::ranking::list_before(goal, down@, selected@);
        assert forall|a: int, b: int| 0 <= a < b < r@.len() implies #[trigger] r@[a]
            != #[trigger] r@[b] by {
            assert(before(places@[a] as int, places@[b] as int));
            assert(places@[a] != places@[b]);
        }
        assert(r@ =~= sorted_selection(
            Stage { grouping, selected: selected@, columns: None },
            *table,
            columns@,
            width as nat,
            ordering@,
        ));
    }
    r
}

proof fn output_columns_fit(node: PlanNode, t: Table)
    ensures
        output_shape(node, t) matches Some((columns, shape)) ==> forall|i: int|
            0 <= i < columns.len() ==> projection_fits(#[trigger] columns[i], shape, t),
    decreases node,
{
    match node.operator {
        LogicalOperator::Sort { input, .. } => output_columns_fit(*input, t),
        LogicalOperator::TopK { input, .. } => output_columns_fit(*input, t),
        LogicalOperator::Limit { input, .. } => output_columns_fit(*input, t),
        _ => {},
    }
}

/// Whether running a node gave what is stated, and measured it by readings of a clock.
spec fn ran<C: Fn() -> u64>(
    r: Result<(Working, Ghost<Seq<u64>>), ExecutionError>,
    node: PlanNode,
    t: Table,
    m: FloatModel,
    before: Seq<OperatorMetrics>,
    after: Seq<OperatorMetrics>,
    clock: C,
) -> bool {
    match r {
        Ok((working, readings)) => {
            &&& stage_of(node, t, m) == Ok::<_, ExecutionFault>(working.stage())
            &&& working.wf(node, t)
            &&& readings@.len() == 2 * nodes_in(node)
            &&& read_from(clock, readings@)
            &&& after == counted(node, t, m, before, readings@)
        },
        Err(e) => stage_of(node, t, m) == Err::<Stage, _>(e@),
    }
}

proof fn later_readings_leave_measures(
    node: PlanNode,
    t: Table,
    m: FloatModel,
    before: Seq<OperatorMetrics>,
    readings: Seq<u64>,
    more: Seq<u64>,
)
    requires
        2 * nodes_in(node) <= readings.len() <= more.len(),
        forall|i: int| 0 <= i < readings.len() ==> readings[i] == more[i],
    ensures
        counted(node, t, m, before, readings) == counted(node, t, m, before, more),
    decreases node,
{
    match node.operator {
        LogicalOperator::Scan { .. } => {},
        LogicalOperator::Filter { input, .. } => {
            later_readings_leave_measures(*input, t, m, before, readings, more)
        },
        LogicalOperator::Aggregation { input, .. } => {
            later_readings_leave_measures(*input, t, m, before, readings, more)
        },
        LogicalOperator::Projection { input, .. } => {
            later_readings_leave_measures(*input, t, m, before, readings, more)
        },
        LogicalOperator::Sort { input, .. } => {
            later_readings_leave_measures(*input, t, m, before, readings, more)
        },
        LogicalOperator::TopK { input, .. } => {
            later_readings_leave_measures(*input, t, m, before, readings, more)
        },
        LogicalOperator::Limit { input, .. } => {
            later_readings_leave_measures(*input, t, m, before, readings, more)
        },
    }
}

/// The node that a node takes its rows from.
spec fn input_of(node: PlanNode) -> Option<PlanNode> {
    match node.operator {
        LogicalOperator::Scan { .. } => None,
        LogicalOperator::Filter { input, .. } => Some(*input),
        LogicalOperator::Aggregation { input, .. } => Some(*input),
        LogicalOperator::Projection { input, .. } => Some(*input),
        LogicalOperator::Sort { input, .. } => Some(*input),
        LogicalOperator::TopK { input, .. } => Some(*input),
        LogicalOperator::Limit { input, .. } => Some(*input),
    }
}

/// What is measured below a node.
spec fn counted_below(
    node: PlanNode,
    t: Table,
    m: FloatModel,
    before: Seq<OperatorMetrics>,
    readings: Seq<u64>,
) -> Seq<OperatorMetrics> {
    match input_of(node) {
        Some(input) => counted(input, t, m, before, readings),
        None => before,
    }
}

proof fn node_adds_its_measure(
    node: PlanNode,
    t: Table,
    m: FloatModel,
    before: Seq<OperatorMetrics>,
    readings: Seq<u64>,
    more: Seq<u64>,
)
    requires
        readings.len() + 2 == 2 * nodes_in(node),
        readings.len() <= more.len(),
        forall|i: int| 0 <= i < readings.len() ==> readings[i] == more[i],
    ensures
        counted(node, t, m, before, more) == counted_below(node, t, m, before, readings).update(
            node.id as int,
            OperatorMetrics { rows: count_of(node, t, m), elapsed: time_of(node, more) },
        ),
{
    if let Some(input) = input_of(node) {
        later_readings_leave_measures(input, t, m, before, readings, more);
    }
}

fn sort_and_limit<'p>(
    working: Working<'p>,
    table: &Table,
    ordering: &Vec<SortExpression>,
    limit: Option<usize>,
    Ghost(input): Ghost<PlanNode>,
) -> (r: Working<'p>)
    requires
        table.wf(),
        output_shape(input, *table) is Some,
        input_shape(input, *table) is None,
        working.wf(input, *table),
        ({
            let (columns, shape) = output_shape(input, *table).unwrap();
            forall|i: int|
                0 <= i < ordering@.len() ==> sort_fits(
                    #[trigger] ordering@[i],
                    shape,
                    columns.len(),
                )
        }),
    ensures
        r.stage() == sorted_stage(input, working.stage(), *table, ordering@, limit),
        r.wf(input, *table),
{
    let ghost (columns, shape) = output_shape(input, *table).unwrap();
    proof {
        output_columns_fit(input, *table);
    }
    let sorted = match working.columns {
        Some(output) => sort_selected(
            &working.grouped,
            &working.selected,
            table,
            output,
            ordering,
            working.width,
            Ghost(shape),
        ),
        None => Vec::new(),
    };
    let selected = match limit {
        Some(n) => shorten(sorted, n),
        None => sorted,
    };
    Working {
        grouped: working.grouped,
        selected,
        columns: working.columns,
        width: working.width,
    }
}

/// The time between two readings of a clock.
pub fn elapsed_between(started: u64, ended: u64) -> (elapsed: u64)
    ensures
        elapsed == time_between(started, ended),
{
    if started <= ended {
        ended - started
    } else {
        0
    }
}

fn record(node: &PlanNode, rows: usize, elapsed: u64, metrics: &mut Vec<OperatorMetrics>)
    requires
        node.id < old(metrics)@.len(),
    ensures
        final(metrics)@ == old(metrics)@.update(node.id as int, OperatorMetrics { rows, elapsed }),
{
    metrics.set(node.id, OperatorMetrics { rows, elapsed });
}

fn projection_id(node: &PlanNode) -> (id: usize)
    ensures
        id == projection_of(*node),
    decreases node,
{
    match &node.operator {
        LogicalOperator::Sort { input, ordering: _ } => projection_id(input),
        LogicalOperator::TopK { input, ordering: _, limit: _ } => projection_id(input),
        LogicalOperator::Limit { input, limit: _ } => projection_id(input),
        _ => node.id,
    }
}

proof fn projection_is_numbered(node: PlanNode, n: nat)
    requires
        ids_fit(node, n),
    ensures
        projection_of(node) < n,
    decreases node,
{
    match node.operator {
        LogicalOperator::Sort { input, .. } => projection_is_numbered(*input, n),
        LogicalOperator::TopK { input, .. } => projection_is_numbered(*input, n),
        LogicalOperator::Limit { input, .. } => projection_is_numbered(*input, n),
        _ => {},
    }
}

/// Whether the work so far is the stage of a node.
spec fn stands_at(working: Working, node: PlanNode, t: Table, m: FloatModel) -> bool {
    &&& stage_of(node, t, m) == Ok::<_, ExecutionFault>(working.stage())
    &&& working.wf(node, t)
}

/// Whether a node belongs to a plan for a table.
spec fn belongs(node: PlanNode, t: Table) -> bool {
    input_shape(node, t) is Some || output_shape(node, t) is Some
}

fn run_filter<'p>(
    table: &Table,
    node: &'p PlanNode,
    predicate: &Predicate,
    working: Working<'p>,
    Ghost(m): Ghost<FloatModel>,
) -> (r: Working<'p>)
    requires
        table.wf(),
        belongs(*node, *table),
        node.operator matches LogicalOperator::Filter { input, predicate: p } && p == *predicate
            && stands_at(working, *input, *table, m),
    ensures
        stands_at(r, *node, *table, m),
{
    let selected = keep_rows(predicate, table, &working.selected);
    Working { grouped: working.grouped, selected, columns: None, width: working.width }
}

fn run_aggregation<'p, F: Fn(FloatRequest) -> FloatReply>(
    table: &Table,
    node: &'p PlanNode,
    group_by: &Vec<ResolvedColumn>,
    aggregates: &Vec<AggregateExpression>,
    working: Working<'p>,
    f: &F,
) -> (r: Result<Working<'p>, ExecutionError>)
    requires
        table.wf(),
        belongs(*node, *table),
        answers_floats(*f),
        node.operator matches LogicalOperator::Aggregation { input, group_by: g, aggregates: a }
            && g == *group_by && a == *aggregates && stands_at(
            working,
            *input,
            *table,
            float_model(*f),
        ),
    ensures
        match r {
            Ok(r) => stands_at(r, *node, *table, float_model(*f)),
            Err(e) => stage_of(*node, *table, float_model(*f)) == Err::<Stage, _>(e@),
        },
{
    let grouped = execute_grouped(table, &working.selected, group_by, aggregates, f)?;
    let selected = count_up(grouped.keys.len());
    Ok(Working { grouped: Some(grouped), selected, columns: None, width: group_by.len() })
}

fn run_projection<'p>(
    table: &Table,
    node: &'p PlanNode,
    columns: &'p Vec<ProjectedColumn>,
    working: Working<'p>,
    Ghost(m): Ghost<FloatModel>,
) -> (r: Working<'p>)
    requires
        belongs(*node, *table),
        node.operator matches LogicalOperator::Projection { input, columns: c } && c == *columns
            && stands_at(working, *input, *table, m),
    ensures
        stands_at(r, *node, *table, m),
        r.selected@ == working.selected@,
{
    Working {
        grouped: working.grouped,
        selected: working.selected,
        columns: Some(columns),
        width: working.width,
    }
}

fn run_sort<'p>(
    table: &Table,
    node: &'p PlanNode,
    input: &'p PlanNode,
    ordering: &Vec<SortExpression>,
    limit: Option<usize>,
    working: Working<'p>,
    Ghost(m): Ghost<FloatModel>,
) -> (r: Working<'p>)
    requires
        table.wf(),
        belongs(*node, *table),
        stands_at(working, *input, *table, m),
        match (node.operator, limit) {
            (LogicalOperator::Sort { input: i, ordering: o }, None) => *i == *input && o == *ordering,
            (LogicalOperator::TopK { input: i, ordering: o, limit: n }, Some(k)) => *i == *input && o
                == *ordering && n == k,
            _ => false,
        },
    ensures
        stands_at(r, *node, *table, m),
{
    sort_and_limit(working, table, ordering, limit, Ghost(*input))
}

fn run_limit<'p>(
    table: &Table,
    node: &'p PlanNode,
    limit: usize,
    working: Working<'p>,
    Ghost(m): Ghost<FloatModel>,
) -> (r: Working<'p>)
    requires
        belongs(*node, *table),
        node.operator matches LogicalOperator::Limit { input, limit: n } && n == limit && stands_at(
            working,
            *input,
            *table,
            m,
        ),
    ensures
        stands_at(r, *node, *table, m),
{
    let selected = shorten(working.selected, limit);
    Working { grouped: working.grouped, selected, columns: working.columns, width: working.width }
}

fn find_input(node: &PlanNode) -> (input: Option<&PlanNode>)
    ensures
        match input {
            Some(input) => input_of(*node) == Some(*input) && decreases_to!(node => input),
            None => input_of(*node) is None,
        },
{
    match &node.operator {
        LogicalOperator::Scan { table: _ } => None,
        LogicalOperator::Filter { input, predicate: _ } => Some(input),
        LogicalOperator::Aggregation { input, group_by: _, aggregates: _ } => Some(input),
        LogicalOperator::Projection { input, columns: _ } => Some(input),
        LogicalOperator::Sort { input, ordering: _ } => Some(input),
        LogicalOperator::TopK { input, ordering: _, limit: _ } => Some(input),
        LogicalOperator::Limit { input, limit: _ } => Some(input),
    }
}

fn run_node<'p, F: Fn(FloatRequest) -> FloatReply>(
    table: &Table,
    node: &'p PlanNode,
    below: Option<Working<'p>>,
    f: &F,
) -> (r: Result<Working<'p>, ExecutionError>)
    requires
        table.wf(),
        belongs(*node, *table),
        answers_floats(*f),
        match input_of(*node) {
            Some(input) => below is Some && stands_at(
                below.unwrap(),
                input,
                *table,
                float_model(*f),
            ),
            None => true,
        },
    ensures
        match r {
            Ok(r) => stands_at(r, *node, *table, float_model(*f)),
            Err(e) => stage_of(*node, *table, float_model(*f)) == Err::<Stage, _>(e@),
        },
{
    let ghost m = float_model(*f);
    let working = match below {
        Some(working) => working,
        None => Working { grouped: None, selected: Vec::new(), columns: None, width: 0 },
    };
    match &node.operator {
        LogicalOperator::Scan { table: _ } => {
            let selected = count_up(table.rows);
            Ok(Working { grouped: None, selected, columns: None, width: 0 })
        },
        LogicalOperator::Filter { input: _, predicate } => Ok(
            run_filter(table, node, predicate, working, Ghost(m)),
        ),
        LogicalOperator::Aggregation { input: _, group_by, aggregates } => run_aggregation(
            table,
            node,
            group_by,
            aggregates,
            working,
            f,
        ),
        LogicalOperator::Projection { input: _, columns } => Ok(
            run_projection(table, node, columns, working, Ghost(m)),
        ),
        LogicalOperator::Sort { input, ordering } => Ok(
            run_sort(table, node, input, ordering, None, working, Ghost(m)),
        ),
        LogicalOperator::TopK { input, ordering, limit } => Ok(
            run_sort(table, node, input, ordering, Some(*limit), working, Ghost(m)),
        ),
        LogicalOperator::Limit { input: _, limit } => Ok(
            run_limit(table, node, *limit, working, Ghost(m)),
        ),
    }
}

#[verifier::spinoff_prover]
fn execute_node<'p, F: Fn(FloatRequest) -> FloatReply, C: Fn() -> u64>(
    table: &Table,
    node: &'p PlanNode,
    metrics: &mut Vec<OperatorMetrics>,
    f: &F,
    clock: &C,
) -> (r: Result<(Working<'p>, Ghost<Seq<u64>>), ExecutionError>)
    requires
        table.wf(),
        belongs(*node, *table),
        ids_fit(*node, old(metrics)@.len()),
        answers_floats(*f),
        call_requires(*clock, ()),
    ensures
        ran(r, *node, *table, float_model(*f), old(metrics)@, final(metrics)@, *clock),
        final(metrics)@.len() == old(metrics)@.len(),
    decreases node,
{
    let ghost m = float_model(*f);
    let ghost mut readings: Seq<u64> = Seq::empty();
    let below = match find_input(node) {
        Some(input) => {
            let (working, Ghost(read)) = execute_node(table, input, metrics, f, clock)?;
            proof {
                readings = read;
            }
            Some(working)
        },
        None => None,
    };
    let started = clock();
    let done = run_node(table, node, below, f)?;
    let ended = clock();
    let ghost through = readings.push(started).push(ended);
    proof {
        node_adds_its_measure(*node, *table, m, old(metrics)@, readings, through);
    }
    record(node, done.selected.len(), elapsed_between(started, ended), metrics);
    Ok((done, Ghost(through)))
}

/// The output rows of a plan, and what running it measured.
#[derive(Debug)]
pub struct ExecutionOutput {
    pub rows: Vec<Vec<Value>>,
    pub metrics: Vec<OperatorMetrics>,
}

/// The measures before any node has run.
pub open spec fn no_counts(n: nat) -> Seq<OperatorMetrics> {
    Seq::new(n, |i: int| OperatorMetrics { rows: 0, elapsed: 0 })
}

#[verifier::loop_isolation(false)]
fn materialize(working: &Working, table: &Table, Ghost(node): Ghost<PlanNode>) -> (rows: Vec<
    Vec<Value>,
>)
    requires
        table.wf(),
        output_shape(node, *table) is Some,
        input_shape(node, *table) is None,
        working.wf(node, *table),
    ensures
        rows_of(rows@) == materialized(working.stage(), *table),
{
    let ghost (output, shape) = output_shape(node, *table).unwrap();
    let ghost goal = materialized(working.stage(), *table);
    proof {
        output_columns_fit(node, *table);
    }
    let mut rows: Vec<Vec<Value>> = Vec::new();
    if let Some(columns) = working.columns {
        let mut k: usize = 0;
        while k < working.selected.len()
            invariant
                k <= working.selected.len(),
                rows@.len() == k,
                forall|j: int| 0 <= j < k ==> data_of((#[trigger] rows@[j])@) == goal[j],
            decreases working.selected.len() - k,
        {
            let at = working.selected[k];
            let mut row: Vec<Value> = Vec::new();
            let mut c: usize = 0;
            while c < columns.len()
                invariant
                    c <= columns.len(),
                    row@.len() == c,
                    forall|j: int| 0 <= j < c ==> (#[trigger] row@[j])@ == goal[k as int][j],
                decreases columns.len() - c,
            {
                assert(projection_fits(columns@[c as int], shape, *table));
                row.push(show(&working.grouped, table, &columns[c], at, Ghost(shape)));
                c = c + 1;
            }
            assert(data_of(row@) =~= goal[k as int]);
            rows.push(row);
            k = k + 1;
        }
    }
    assert(rows_of(rows@) =~= goal);
    rows
}

/// Runs a plan on a table, and measures each node by a clock that counts nanoseconds.
pub fn execute<F: Fn(FloatRequest) -> FloatReply, C: Fn() -> u64>(
    table: &Table,
    plan: &LogicalPlan,
    f: &F,
    clock: &C,
) -> (r: Result<ExecutionOutput, ExecutionError>)
    requires
        table.wf(),
        plan_fits(*plan, *table),
        answers_floats(*f),
        call_requires(*clock, ()),
    ensures
        match r {
            Ok(output) => {
                &&& stage_of(plan.root, *table, float_model(*f)) matches Ok(stage)
                &&& rows_of(output.rows@) == materialized(stage, *table)
                &&& exists|readings: Seq<u64>|
                    #[trigger] read_from(*clock, readings) && readings.len() == 2 * nodes_in(
                        plan.root,
                    ) + 2 && output.metrics@ == measured(
                        plan.root,
                        *table,
                        float_model(*f),
                        no_counts(plan.nodes as nat),
                        readings,
                    )
            },
            Err(e) => stage_of(plan.root, *table, float_model(*f)) == Err::<Stage, _>(e@),
        },
{
    let mut metrics: Vec<OperatorMetrics> = Vec::new();
    let mut i: usize = 0;
    while i < plan.nodes
        invariant
            i <= plan.nodes,
            metrics@ == no_counts(i as nat),
        decreases plan.nodes - i,
    {
        metrics.push(OperatorMetrics { rows: 0, elapsed: 0 });
        i = i + 1;
        assert(metrics@ =~= no_counts(i as nat));
    }
    let (working, Ghost(below)) = execute_node(table, &plan.root, &mut metrics, f, clock)?;
    let started = clock();
    let rows = materialize(&working, table, Ghost(plan.root));
    let ended = clock();
    let ghost readings = below.push(started).push(ended);
    proof {
        later_readings_leave_measures(
            plan.root,
            *table,
            float_model(*f),
            no_counts(plan.nodes as nat),
            below,
            readings,
        );
        projection_is_numbered(plan.root, plan.nodes as nat);
    }
    let id = projection_id(&plan.root);
    let own = metrics[id];
    let making = elapsed_between(started, ended);
    let elapsed = match own.elapsed.checked_add(making) {
        Some(sum) => sum,
        None => u64::MAX,
    };
    metrics.set(id, OperatorMetrics { rows: own.rows, elapsed });
    assert(read_from(*clock, readings));
    Ok(ExecutionOutput { rows, metrics })
}

} // verus!
