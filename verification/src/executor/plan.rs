//! Typed columns and logical plans over them.

use vstd::prelude::*;
use crate::evaluator::ComparisonOperator;
use crate::executor::ranking::{full_order, order_values};
use crate::text::same_text;
use crate::types::{DataType, Datum, Value};

verus! {

/// A column without NULL. Floating-point values are held as their bit patterns.
#[derive(Debug)]
pub enum Column {
    Int64(Vec<i64>),
    Float64(Vec<u64>),
    Bool(Vec<bool>),
    String(Vec<String>),
}

impl Column {
    /// The number of values.
    pub open spec fn height(self) -> nat {
        match self {
            Column::Int64(values) => values@.len(),
            Column::Float64(values) => values@.len(),
            Column::Bool(values) => values@.len(),
            Column::String(values) => values@.len(),
        }
    }

    /// The type of the values.
    pub open spec fn kind(self) -> DataType {
        match self {
            Column::Int64(_) => DataType::Int64,
            Column::Float64(_) => DataType::Float64,
            Column::Bool(_) => DataType::Bool,
            Column::String(_) => DataType::String,
        }
    }

    /// The value of a row.
    pub open spec fn cell(self, row: int) -> Datum {
        match self {
            Column::Int64(values) => Datum::Int64(values@[row]),
            Column::Float64(values) => Datum::Float64(values@[row]),
            Column::Bool(values) => Datum::Bool(values@[row]),
            Column::String(values) => Datum::Text(values@[row]@),
        }
    }

    /// The number of values.
    pub fn len(&self) -> (n: usize)
        ensures
            n == self.height(),
    {
        match self {
            Column::Int64(values) => values.len(),
            Column::Float64(values) => values.len(),
            Column::Bool(values) => values.len(),
            Column::String(values) => values.len(),
        }
    }

    /// The type of the values.
    pub fn data_type(&self) -> (t: DataType)
        ensures
            t == self.kind(),
    {
        match self {
            Column::Int64(_) => DataType::Int64,
            Column::Float64(_) => DataType::Float64,
            Column::Bool(_) => DataType::Bool,
            Column::String(_) => DataType::String,
        }
    }

    /// The value of a row.
    pub fn value(&self, row: usize) -> (value: Value)
        requires
            row < self.height(),
        ensures
            value@ == self.cell(row as int),
    {
        match self {
            Column::Int64(values) => Value::Int64(values[row]),
            Column::Float64(values) => Value::Float64(values[row]),
            Column::Bool(values) => Value::Bool(values[row]),
            Column::String(values) => Value::String(values[row].clone()),
        }
    }
}

/// A table of columns of one height.
#[derive(Debug)]
pub struct Table {
    pub name: String,
    /// The names of the columns.
    pub fields: Vec<String>,
    pub columns: Vec<Column>,
    pub rows: usize,
}

impl Table {
    /// Whether every column has a name, and a value for every row.
    pub open spec fn wf(self) -> bool {
        &&& self.fields@.len() == self.columns@.len()
        &&& forall|i: int|
            0 <= i < self.columns@.len() ==> (#[trigger] self.columns@[i]).height() == self.rows
    }

    /// The value of a row in a column.
    pub open spec fn cell(self, column: int, row: int) -> Datum {
        self.columns@[column].cell(row)
    }

    /// Makes a table where every column has a name, and a value for every row.
    pub fn new(name: String, fields: Vec<String>, columns: Vec<Column>, rows: usize) -> (r: Option<
        Table,
    >)
        ensures
            match r {
                Some(t) => t == (Table { name, fields, columns, rows }) && t.wf(),
                None => !(Table { name, fields, columns, rows }).wf(),
            },
    {
        if fields.len() != columns.len() {
            return None;
        }
        let mut i: usize = 0;
        while i < columns.len()
            invariant
                i <= columns.len(),
                forall|k: int| 0 <= k < i ==> (#[trigger] columns@[k]).height() == rows,
            decreases columns.len() - i,
        {
            if columns[i].len() != rows {
                assert((Table { name, fields, columns, rows }).columns@[i as int].height() != rows);
                return None;
            }
            i = i + 1;
        }
        Some(Table { name, fields, columns, rows })
    }
}

/// A column of the table that a plan was made for.
#[derive(Debug)]
pub struct ResolvedColumn {
    pub name: String,
    pub index: usize,
    pub data_type: DataType,
}

/// Whether a table has a resolved column.
pub open spec fn column_fits(c: ResolvedColumn, t: Table) -> bool {
    c.index < t.columns@.len() && t.columns@[c.index as int].kind() == c.data_type
}

/// Conditions on rows.
#[derive(Debug)]
pub enum Predicate {
    /// A comparison of a column with a value.
    Compare { column: ResolvedColumn, operator: ComparisonOperator, value: Value },
    And(Box<Predicate>, Box<Predicate>),
    Or(Box<Predicate>, Box<Predicate>),
    Not(Box<Predicate>),
}

/// Whether a table has the columns of a condition.
pub open spec fn predicate_fits(p: Predicate, t: Table) -> bool
    decreases p,
{
    match p {
        Predicate::Compare { column, .. } => column_fits(column, t),
        Predicate::And(a, b) => predicate_fits(*a, t) && predicate_fits(*b, t),
        Predicate::Or(a, b) => predicate_fits(*a, t) && predicate_fits(*b, t),
        Predicate::Not(a) => predicate_fits(*a, t),
    }
}

/// Whether a condition holds of a row.
pub open spec fn predicate_holds(p: Predicate, t: Table, row: int) -> bool
    decreases p,
{
    match p {
        Predicate::Compare { column, operator, value } => operator.holds(
            full_order(t.cell(column.index as int, row), value@),
        ),
        Predicate::And(a, b) => predicate_holds(*a, t, row) && predicate_holds(*b, t, row),
        Predicate::Or(a, b) => predicate_holds(*a, t, row) || predicate_holds(*b, t, row),
        Predicate::Not(a) => !predicate_holds(*a, t, row),
    }
}

impl Predicate {
    /// Decides whether the condition holds of a row.
    pub fn evaluate(&self, table: &Table, row: usize) -> (r: bool)
        requires
            table.wf(),
            predicate_fits(*self, *table),
            row < table.rows,
        ensures
            r == predicate_holds(*self, *table, row as int),
        decreases self,
    {
        match self {
            Predicate::Compare { column, operator, value } => {
                let cell = table.columns[column.index].value(row);
                operator.apply(order_values(&cell, value))
            },
            Predicate::And(a, b) => a.evaluate(table, row) && b.evaluate(table, row),
            Predicate::Or(a, b) => a.evaluate(table, row) || b.evaluate(table, row),
            Predicate::Not(a) => !a.evaluate(table, row),
        }
    }
}

/// Aggregate functions.
#[derive(Clone, Copy, Debug, PartialEq, Eq, Structural)]
pub enum AggregateFunction {
    Count,
    Sum,
    Min,
    Max,
    Avg,
}

/// An aggregate of a plan. Only `COUNT` has no argument.
#[derive(Debug)]
pub struct AggregateExpression {
    pub function: AggregateFunction,
    pub argument: Option<ResolvedColumn>,
}

/// Whether a table has what an aggregate needs.
pub open spec fn aggregate_fits(a: AggregateExpression, t: Table) -> bool {
    match a.function {
        AggregateFunction::Count => a.argument matches Some(c) ==> column_fits(c, t),
        AggregateFunction::Min | AggregateFunction::Max => a.argument matches Some(c)
            && column_fits(c, t),
        _ => a.argument matches Some(c) && column_fits(c, t) && (c.data_type == DataType::Int64
            || c.data_type == DataType::Float64),
    }
}

/// What an output column shows.
#[derive(Debug)]
pub enum ProjectionExpression {
    /// A column of the table; above an aggregation, the key at a position.
    Column { source: ResolvedColumn, group_position: Option<usize> },
    /// The result of the aggregate at a position.
    Aggregate { state: usize },
}

/// An output column.
#[derive(Debug)]
pub struct ProjectedColumn {
    pub name: String,
    pub expression: ProjectionExpression,
}

/// A sort key.
#[derive(Debug)]
pub enum SortExpression {
    /// The output column at a position.
    Output { output: usize, descending: bool },
    /// All keys of the groups, smaller ones first.
    GroupKey,
}

/// A node of a plan.
#[derive(Debug)]
pub struct PlanNode {
    pub id: usize,
    pub operator: LogicalOperator,
}

/// Operators of a plan.
#[derive(Debug)]
pub enum LogicalOperator {
    Scan { table: String },
    Filter { input: Box<PlanNode>, predicate: Predicate },
    Aggregation {
        input: Box<PlanNode>,
        group_by: Vec<ResolvedColumn>,
        aggregates: Vec<AggregateExpression>,
    },
    Projection { input: Box<PlanNode>, columns: Vec<ProjectedColumn> },
    Sort { input: Box<PlanNode>, ordering: Vec<SortExpression> },
    TopK { input: Box<PlanNode>, ordering: Vec<SortExpression>, limit: usize },
    Limit { input: Box<PlanNode>, limit: usize },
}

/// A plan of one `SELECT`.
#[derive(Debug)]
pub struct LogicalPlan {
    pub root: PlanNode,
    /// The number of nodes.
    pub nodes: usize,
}

/// The shape of the rows that a node hands on.
pub enum Shape {
    /// Rows of the table.
    Source,
    /// Groups with some keys and some aggregates.
    Grouped { keys: nat, aggregates: nat },
}

/// Whether an output column can be read from rows of a shape.
pub open spec fn projection_fits(c: ProjectedColumn, shape: Shape, t: Table) -> bool {
    match (c.expression, shape) {
        (ProjectionExpression::Column { source, .. }, Shape::Source) => column_fits(source, t),
        (ProjectionExpression::Column { group_position, .. }, Shape::Grouped { keys, .. }) =>
        group_position matches Some(p) && p < keys,
        (ProjectionExpression::Aggregate { state }, Shape::Grouped { aggregates, .. }) => state
            < aggregates,
        _ => false,
    }
}

/// Whether a sort key can be read from rows of a shape.
pub open spec fn sort_fits(s: SortExpression, shape: Shape, width: nat) -> bool {
    match s {
        SortExpression::Output { output, .. } => output < width,
        SortExpression::GroupKey => shape is Grouped,
    }
}

/// The shape of a node's rows below their projection, where the node is fit to hand on rows
/// of the table or groups.
pub open spec fn input_shape(node: PlanNode, t: Table) -> Option<Shape>
    decreases node,
{
    match node.operator {
        LogicalOperator::Scan { table } => if table@ == t.name@ {
            Some(Shape::Source)
        } else {
            None
        },
        LogicalOperator::Filter { input, predicate } => match input_shape(*input, t) {
            Some(Shape::Source) if predicate_fits(predicate, t) => Some(Shape::Source),
            _ => None,
        },
        LogicalOperator::Aggregation { input, group_by, aggregates } => match input_shape(
            *input,
            t,
        ) {
            Some(Shape::Source) if (forall|i: int|
                0 <= i < group_by@.len() ==> column_fits(#[trigger] group_by@[i], t)) && (forall|
                i: int,
            |
                0 <= i < aggregates@.len() ==> aggregate_fits(#[trigger] aggregates@[i], t)) => Some(
                Shape::Grouped { keys: group_by@.len(), aggregates: aggregates@.len() },
            ),
            _ => None,
        },
        _ => None,
    }
}

/// The output columns of a node and the shape of its rows below them, where the node is fit
/// to hand on projected rows.
pub open spec fn output_shape(node: PlanNode, t: Table) -> Option<(Seq<ProjectedColumn>, Shape)>
    decreases node,
{
    match node.operator {
        LogicalOperator::Projection { input, columns } => match input_shape(*input, t) {
            Some(shape) if (forall|i: int|
                0 <= i < columns@.len() ==> projection_fits(
                    #[trigger] columns@[i],
                    shape,
                    t,
                )) => Some((columns@, shape)),
            _ => None,
        },
        LogicalOperator::Sort { input, ordering } => match output_shape(*input, t) {
            Some((columns, shape)) if (forall|i: int|
                0 <= i < ordering@.len() ==> sort_fits(
                    #[trigger] ordering@[i],
                    shape,
                    columns.len(),
                )) => Some((columns, shape)),
            _ => None,
        },
        LogicalOperator::TopK { input, ordering, .. } => match output_shape(*input, t) {
            Some((columns, shape)) if (forall|i: int|
                0 <= i < ordering@.len() ==> sort_fits(
                    #[trigger] ordering@[i],
                    shape,
                    columns.len(),
                )) => Some((columns, shape)),
            _ => None,
        },
        LogicalOperator::Limit { input, .. } => output_shape(*input, t),
        _ => None,
    }
}

/// Whether the numbers of a node and of those below it are less than a bound.
pub open spec fn ids_fit(node: PlanNode, bound: nat) -> bool
    decreases node,
{
    node.id < bound && match node.operator {
        LogicalOperator::Scan { .. } => true,
        LogicalOperator::Filter { input, .. } => ids_fit(*input, bound),
        LogicalOperator::Aggregation { input, .. } => ids_fit(*input, bound),
        LogicalOperator::Projection { input, .. } => ids_fit(*input, bound),
        LogicalOperator::Sort { input, .. } => ids_fit(*input, bound),
        LogicalOperator::TopK { input, .. } => ids_fit(*input, bound),
        LogicalOperator::Limit { input, .. } => ids_fit(*input, bound),
    }
}

/// Whether a plan can be executed on a table: a scan under filters, under at most one
/// aggregation, under one projection, under sorts and limits.
pub open spec fn plan_fits(plan: LogicalPlan, t: Table) -> bool {
    output_shape(plan.root, t) is Some && ids_fit(plan.root, plan.nodes as nat)
}

impl ResolvedColumn {
    fn fits(&self, t: &Table) -> (r: bool)
        ensures
            r == column_fits(*self, *t),
    {
        self.index < t.columns.len() && t.columns[self.index].data_type() == self.data_type
    }
}

impl Predicate {
    fn fits(&self, t: &Table) -> (r: bool)
        ensures
            r == predicate_fits(*self, *t),
        decreases self,
    {
        match self {
            Predicate::Compare { column, .. } => column.fits(t),
            Predicate::And(a, b) => a.fits(t) && b.fits(t),
            Predicate::Or(a, b) => a.fits(t) && b.fits(t),
            Predicate::Not(a) => a.fits(t),
        }
    }
}

impl AggregateExpression {
    fn fits(&self, t: &Table) -> (r: bool)
        ensures
            r == aggregate_fits(*self, *t),
    {
        match (self.function, &self.argument) {
            (AggregateFunction::Count, None) => true,
            (AggregateFunction::Count, Some(c)) => c.fits(t),
            (_, None) => false,
            (AggregateFunction::Min, Some(c)) => c.fits(t),
            (AggregateFunction::Max, Some(c)) => c.fits(t),
            (_, Some(c)) => c.fits(t) && (c.data_type == DataType::Int64 || c.data_type
                == DataType::Float64),
        }
    }
}

/// The keys and aggregates of groups, or nothing for rows of the table.
spec fn shape_of(groups: Option<(usize, usize)>) -> Shape {
    match groups {
        None => Shape::Source,
        Some((keys, aggregates)) => Shape::Grouped {
            keys: keys as nat,
            aggregates: aggregates as nat,
        },
    }
}

impl PlanNode {
    fn find_input_shape(&self, t: &Table) -> (r: Option<Option<(usize, usize)>>)
        ensures
            match r {
                Some(groups) => input_shape(*self, *t) == Some(shape_of(groups)),
                None => input_shape(*self, *t) is None,
            },
        decreases self,
    {
        match &self.operator {
            LogicalOperator::Scan { table } => {
                if same_text(table.as_str(), t.name.as_str()) {
                    Some(None)
                } else {
                    None
                }
            },
            LogicalOperator::Filter { input, predicate } => {
                match input.find_input_shape(t) {
                    Some(None) => {
                        if predicate.fits(t) {
                            Some(None)
                        } else {
                            None
                        }
                    },
                    _ => None,
                }
            },
            LogicalOperator::Aggregation { input, group_by, aggregates } => {
                match input.find_input_shape(t) {
                    Some(None) => {},
                    _ => return None,
                }
                let mut i: usize = 0;
                while i < group_by.len()
                    invariant
                        i <= group_by.len(),
                        forall|k: int| 0 <= k < i ==> column_fits(#[trigger] group_by@[k], *t),
                        self.operator == (LogicalOperator::Aggregation {
                            input: *input,
                            group_by: *group_by,
                            aggregates: *aggregates,
                        }),
                    decreases group_by.len() - i,
                {
                    if !group_by[i].fits(t) {
                        assert(!column_fits(group_by@[i as int], *t));
                        return None;
                    }
                    i = i + 1;
                }
                let mut i: usize = 0;
                while i < aggregates.len()
                    invariant
                        i <= aggregates.len(),
                        forall|k: int| 0 <= k < i ==> aggregate_fits(#[trigger] aggregates@[k], *t),
                        self.operator == (LogicalOperator::Aggregation {
                            input: *input,
                            group_by: *group_by,
                            aggregates: *aggregates,
                        }),
                    decreases aggregates.len() - i,
                {
                    if !aggregates[i].fits(t) {
                        assert(!aggregate_fits(aggregates@[i as int], *t));
                        return None;
                    }
                    i = i + 1;
                }
                Some(Some((group_by.len(), aggregates.len())))
            },
            _ => None,
        }
    }

    fn find_output_shape(&self, t: &Table) -> (r: Option<(usize, Option<(usize, usize)>)>)
        ensures
            match r {
                Some((width, groups)) => output_shape(*self, *t) matches Some((columns, shape))
                    && columns.len() == width && shape == shape_of(groups),
                None => output_shape(*self, *t) is None,
            },
        decreases self,
    {
        match &self.operator {
            LogicalOperator::Projection { input, columns } => {
                let groups = match input.find_input_shape(t) {
                    Some(groups) => groups,
                    None => return None,
                };
                let mut i: usize = 0;
                while i < columns.len()
                    invariant
                        i <= columns.len(),
                        forall|k: int|
                            0 <= k < i ==> projection_fits(
                                #[trigger] columns@[k],
                                shape_of(groups),
                                *t,
                            ),
                        input_shape(**input, *t) == Some(shape_of(groups)),
                        self.operator == (LogicalOperator::Projection {
                            input: *input,
                            columns: *columns,
                        }),
                    decreases columns.len() - i,
                {
                    let fits = match (&columns[i].expression, groups) {
                        (ProjectionExpression::Column { source, .. }, None) => source.fits(t),
                        (ProjectionExpression::Column { group_position, .. }, Some((keys, _))) => {
                            match group_position {
                                Some(p) => *p < keys,
                                None => false,
                            }
                        },
                        (ProjectionExpression::Aggregate { state }, Some((_, aggregates))) => *state
                            < aggregates,
                        _ => false,
                    };
                    if !fits {
                        assert(!projection_fits(columns@[i as int], shape_of(groups), *t));
                        return None;
                    }
                    i = i + 1;
                }
                Some((columns.len(), groups))
            },
            LogicalOperator::Sort { input, ordering } => {
                match input.find_output_shape(t) {
                    None => None,
                    Some((width, groups)) => {
                        if keys_fit(ordering, width, groups) {
                            Some((width, groups))
                        } else {
                            None
                        }
                    },
                }
            },
            LogicalOperator::TopK { input, ordering, .. } => {
                match input.find_output_shape(t) {
                    None => None,
                    Some((width, groups)) => {
                        if keys_fit(ordering, width, groups) {
                            Some((width, groups))
                        } else {
                            None
                        }
                    },
                }
            },
            LogicalOperator::Limit { input, .. } => input.find_output_shape(t),
            _ => None,
        }
    }

    fn ids_stay_below(&self, bound: usize) -> (r: bool)
        ensures
            r == ids_fit(*self, bound as nat),
        decreases self,
    {
        if self.id >= bound {
            return false;
        }
        match &self.operator {
            LogicalOperator::Scan { .. } => true,
            LogicalOperator::Filter { input, .. } => input.ids_stay_below(bound),
            LogicalOperator::Aggregation { input, .. } => input.ids_stay_below(bound),
            LogicalOperator::Projection { input, .. } => input.ids_stay_below(bound),
            LogicalOperator::Sort { input, .. } => input.ids_stay_below(bound),
            LogicalOperator::TopK { input, .. } => input.ids_stay_below(bound),
            LogicalOperator::Limit { input, .. } => input.ids_stay_below(bound),
        }
    }
}

fn keys_fit(ordering: &Vec<SortExpression>, width: usize, groups: Option<(usize, usize)>) -> (r: bool)
    ensures
        r == forall|i: int|
            0 <= i < ordering@.len() ==> sort_fits(
                #[trigger] ordering@[i],
                shape_of(groups),
                width as nat,
            ),
{
    let mut i: usize = 0;
    while i < ordering.len()
        invariant
            i <= ordering.len(),
            forall|k: int|
                0 <= k < i ==> sort_fits(#[trigger] ordering@[k], shape_of(groups), width as nat),
        decreases ordering.len() - i,
    {
        let fits = match &ordering[i] {
            SortExpression::Output { output, .. } => *output < width,
            SortExpression::GroupKey => groups.is_some(),
        };
        if !fits {
            assert(!sort_fits(ordering@[i as int], shape_of(groups), width as nat));
            return false;
        }
        i = i + 1;
    }
    true
}

impl LogicalPlan {
    /// Decides whether the plan can be executed on a table.
    pub fn fits(&self, table: &Table) -> (r: bool)
        ensures
            r == plan_fits(*self, *table),
    {
        self.root.find_output_shape(table).is_some() && self.root.ids_stay_below(self.nodes)
    }
}

} // verus!
