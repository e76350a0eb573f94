//! Groups of rows and their aggregates.

use vstd::prelude::*;
use crate::executor::plan::{aggregate_fits, column_fits, AggregateExpression, AggregateFunction, ResolvedColumn, Table};
use crate::executor::ranking::{full_order, lists_match, order_values, same_list};
use crate::float::{answers_floats, ask_bits, finite, float_from, float_model, float_quotient, float_sum, is_finite, FloatModel, FloatReply, FloatRequest};
use crate::storage::rows_of;
use crate::text::Order;
use crate::types::{data_of, DataType, Datum, Value};

verus! {

/// A failure of an execution.
#[derive(Debug)]
pub enum ExecutionError {
    /// A number is out of range.
    NumericOverflow(String),
    /// The query has no result.
    InvalidQuery(String),
}

/// The content of a failure.
pub enum ExecutionFault {
    NumericOverflow(Seq<char>),
    InvalidQuery(Seq<char>),
}

impl View for ExecutionError {
    type V = ExecutionFault;

    open spec fn view(&self) -> ExecutionFault {
        match *self {
            ExecutionError::NumericOverflow(s) => ExecutionFault::NumericOverflow(s@),
            ExecutionError::InvalidQuery(s) => ExecutionFault::InvalidQuery(s@),
        }
    }
}

fn overflow(what: &str) -> (e: ExecutionError)
    ensures
        e@ == ExecutionFault::NumericOverflow(what@),
{
    ExecutionError::NumericOverflow(what.to_owned())
}

/// The state of an aggregate between rows.
#[derive(Debug)]
pub enum AggregateState {
    Count(i64),
    SumInt(i64),
    SumFloat(u64),
    Min(Option<Value>),
    Max(Option<Value>),
    AvgInt { sum: i128, count: u64 },
    AvgFloat { sum: u64, count: u64 },
}

/// The content of an aggregate's state.
pub enum Tally {
    Count(i64),
    SumInt(i64),
    SumFloat(u64),
    Min(Option<Datum>),
    Max(Option<Datum>),
    AvgInt { sum: i128, count: u64 },
    AvgFloat { sum: u64, count: u64 },
}

impl View for AggregateState {
    type V = Tally;

    open spec fn view(&self) -> Tally {
        match *self {
            AggregateState::Count(n) => Tally::Count(n),
            AggregateState::SumInt(n) => Tally::SumInt(n),
            AggregateState::SumFloat(bits) => Tally::SumFloat(bits),
            AggregateState::Min(Some(v)) => Tally::Min(Some(v@)),
            AggregateState::Min(None) => Tally::Min(None),
            AggregateState::Max(Some(v)) => Tally::Max(Some(v@)),
            AggregateState::Max(None) => Tally::Max(None),
            AggregateState::AvgInt { sum, count } => Tally::AvgInt { sum, count },
            AggregateState::AvgFloat { sum, count } => Tally::AvgFloat { sum, count },
        }
    }
}

/// Whether the argument of an aggregate is a column of integers.
pub open spec fn over_integers(a: AggregateExpression) -> bool {
    a.argument matches Some(c) && c.data_type == DataType::Int64
}

/// The state of an aggregate before any row.
pub open spec fn fresh(a: AggregateExpression) -> Tally {
    match a.function {
        AggregateFunction::Count => Tally::Count(0),
        AggregateFunction::Sum => if over_integers(a) {
            Tally::SumInt(0)
        } else {
            Tally::SumFloat(0)
        },
        AggregateFunction::Min => Tally::Min(None),
        AggregateFunction::Max => Tally::Max(None),
        AggregateFunction::Avg => if over_integers(a) {
            Tally::AvgInt { sum: 0, count: 0 }
        } else {
            Tally::AvgFloat { sum: 0, count: 0 }
        },
    }
}

/// The value of an aggregate's argument in a row.
pub open spec fn argument_of(a: AggregateExpression, t: Table, row: int) -> Datum {
    match a.argument {
        Some(c) => t.cell(c.index as int, row),
        None => Datum::Null,
    }
}

/// The state of an aggregate behind a row with a value.
pub open spec fn tallied(s: Tally, d: Datum, m: FloatModel) -> Result<Tally, ExecutionFault> {
    match (s, d) {
        (Tally::Count(n), _) => if n == i64::MAX {
            Err(ExecutionFault::NumericOverflow("COUNT"@))
        } else {
            Ok(Tally::Count((n + 1) as i64))
        },
        (Tally::SumInt(n), Datum::Int64(i)) => if i64::MIN <= n + i <= i64::MAX {
            Ok(Tally::SumInt((n + i) as i64))
        } else {
            Err(ExecutionFault::NumericOverflow("SUM(Int64)"@))
        },
        (Tally::SumFloat(x), Datum::Float64(y)) => if is_finite(float_sum(m, x, y)) {
            Ok(Tally::SumFloat(float_sum(m, x, y)))
        } else {
            Err(ExecutionFault::NumericOverflow("SUM(Float64)"@))
        },
        (Tally::Min(Some(x)), _) => Ok(
            Tally::Min(
                Some(
                    if full_order(d, x) == Order::Less {
                        d
                    } else {
                        x
                    },
                ),
            ),
        ),
        (Tally::Min(None), _) => Ok(Tally::Min(Some(d))),
        (Tally::Max(Some(x)), _) => Ok(
            Tally::Max(
                Some(
                    if full_order(d, x) == Order::Greater {
                        d
                    } else {
                        x
                    },
                ),
            ),
        ),
        (Tally::Max(None), _) => Ok(Tally::Max(Some(d))),
        (Tally::AvgInt { sum, count }, Datum::Int64(i)) => if !(i128::MIN <= sum + i <= i128::MAX) {
            Err(ExecutionFault::NumericOverflow("AVG(Int64) sum"@))
        } else if count == u64::MAX {
            Err(ExecutionFault::NumericOverflow("AVG count"@))
        } else {
            Ok(Tally::AvgInt { sum: (sum + i) as i128, count: (count + 1) as u64 })
        },
        (Tally::AvgFloat { sum, count }, Datum::Float64(y)) => if count == u64::MAX {
            Err(ExecutionFault::NumericOverflow("AVG count"@))
        } else if !is_finite(float_sum(m, sum, y)) {
            Err(ExecutionFault::NumericOverflow("AVG(Float64) sum"@))
        } else {
            Ok(Tally::AvgFloat { sum: float_sum(m, sum, y), count: (count + 1) as u64 })
        },
        _ => Ok(s),
    }
}

/// The result of an aggregate.
pub open spec fn tally_result(s: Tally, m: FloatModel) -> Result<Datum, ExecutionFault> {
    match s {
        Tally::Count(n) => Ok(Datum::Int64(n)),
        Tally::SumInt(n) => Ok(Datum::Int64(n)),
        Tally::SumFloat(bits) => Ok(Datum::Float64(bits)),
        Tally::Min(Some(d)) => Ok(d),
        Tally::Max(Some(d)) => Ok(d),
        Tally::Min(None) => Err(
            ExecutionFault::InvalidQuery("MIN is undefined for an empty input"@),
        ),
        Tally::Max(None) => Err(
            ExecutionFault::InvalidQuery("MAX is undefined for an empty input"@),
        ),
        Tally::AvgInt { sum, count } => if count > 0 {
            Ok(
                Datum::Float64(
                    float_quotient(m, float_from(m, sum as int), float_from(m, count as int)),
                ),
            )
        } else {
            Err(ExecutionFault::InvalidQuery("AVG is undefined for an empty input"@))
        },
        Tally::AvgFloat { sum, count } => if count > 0 {
            Ok(Datum::Float64(float_quotient(m, sum, float_from(m, count as int))))
        } else {
            Err(ExecutionFault::InvalidQuery("AVG is undefined for an empty input"@))
        },
    }
}

impl AggregateState {
    /// The state before any row.
    pub fn new(spec: &AggregateExpression) -> (state: AggregateState)
        ensures
            state@ == fresh(*spec),
    {
        let integers = match &spec.argument {
            Some(c) => matches!(c.data_type, DataType::Int64),
            None => false,
        };
        match spec.function {
            AggregateFunction::Count => AggregateState::Count(0),
            AggregateFunction::Sum => if integers {
                AggregateState::SumInt(0)
            } else {
                AggregateState::SumFloat(0)
            },
            AggregateFunction::Min => AggregateState::Min(None),
            AggregateFunction::Max => AggregateState::Max(None),
            AggregateFunction::Avg => if integers {
                AggregateState::AvgInt { sum: 0, count: 0 }
            } else {
                AggregateState::AvgFloat { sum: 0, count: 0 }
            },
        }
    }

    /// The state behind a row.
    pub fn update<F: Fn(FloatRequest) -> FloatReply>(
        self,
        spec: &AggregateExpression,
        table: &Table,
        row: usize,
        f: &F,
    ) -> (r: Result<AggregateState, ExecutionError>)
        requires
            table.wf(),
            row < table.rows,
            aggregate_fits(*spec, *table),
            answers_floats(*f),
        ensures
            match r {
                Ok(state) => tallied(
                    self@,
                    argument_of(*spec, *table, row as int),
                    float_model(*f),
                ) == Ok::<_, ExecutionFault>(state@),
                Err(e) => tallied(self@, argument_of(*spec, *table, row as int), float_model(*f))
                    == Err::<Tally, _>(e@),
            },
    {
        let value = match &spec.argument {
            Some(c) => table.columns[c.index].value(row),
            None => Value::Null,
        };
        match self {
            AggregateState::Count(n) => match n.checked_add(1) {
                Some(n) => Ok(AggregateState::Count(n)),
                None => Err(overflow("COUNT")),
            },
            AggregateState::SumInt(n) => match value {
                Value::Int64(i) => match n.checked_add(i) {
                    Some(n) => Ok(AggregateState::SumInt(n)),
                    None => Err(overflow("SUM(Int64)")),
                },
                _ => Ok(AggregateState::SumInt(n)),
            },
            AggregateState::SumFloat(x) => match value {
                Value::Float64(y) => {
                    let sum = ask_bits(f, FloatRequest::Sum(x, y));
                    if finite(sum) {
                        Ok(AggregateState::SumFloat(sum))
                    } else {
                        Err(overflow("SUM(Float64)"))
                    }
                },
                _ => Ok(AggregateState::SumFloat(x)),
            },
            AggregateState::Min(Some(x)) => match order_values(&value, &x) {
                Order::Less => Ok(AggregateState::Min(Some(value))),
                _ => Ok(AggregateState::Min(Some(x))),
            },
            AggregateState::Min(None) => Ok(AggregateState::Min(Some(value))),
            AggregateState::Max(Some(x)) => match order_values(&value, &x) {
                Order::Greater => Ok(AggregateState::Max(Some(value))),
                _ => Ok(AggregateState::Max(Some(x))),
            },
            AggregateState::Max(None) => Ok(AggregateState::Max(Some(value))),
            AggregateState::AvgInt { sum, count } => match value {
                Value::Int64(i) => match sum.checked_add(i as i128) {
                    Some(sum) => match count.checked_add(1) {
                        Some(count) => Ok(AggregateState::AvgInt { sum, count }),
                        None => Err(overflow("AVG count")),
                    },
                    None => Err(overflow("AVG(Int64) sum")),
                },
                _ => Ok(AggregateState::AvgInt { sum, count }),
            },
            AggregateState::AvgFloat { sum, count } => match value {
                Value::Float64(y) => match count.checked_add(1) {
                    Some(count) => {
                        let sum = ask_bits(f, FloatRequest::Sum(sum, y));
                        if finite(sum) {
                            Ok(AggregateState::AvgFloat { sum, count })
                        } else {
                            Err(overflow("AVG(Float64) sum"))
                        }
                    },
                    None => Err(overflow("AVG count")),
                },
                _ => Ok(AggregateState::AvgFloat { sum, count }),
            },
        }
    }

    /// The result of the aggregate.
    pub fn finish<F: Fn(FloatRequest) -> FloatReply>(&self, f: &F) -> (r: Result<
        Value,
        ExecutionError,
    >)
        requires
            answers_floats(*f),
        ensures
            match r {
                Ok(v) => tally_result(self@, float_model(*f)) == Ok::<_, ExecutionFault>(v@),
                Err(e) => tally_result(self@, float_model(*f)) == Err::<Datum, _>(e@),
            },
    {
        let empty = match self {
            AggregateState::Count(n) => return Ok(Value::Int64(*n)),
            AggregateState::SumInt(n) => return Ok(Value::Int64(*n)),
            AggregateState::SumFloat(bits) => return Ok(Value::Float64(*bits)),
            AggregateState::Min(Some(v)) => return Ok(v.clone()),
            AggregateState::Max(Some(v)) => return Ok(v.clone()),
            AggregateState::Min(None) => "MIN is undefined for an empty input",
            AggregateState::Max(None) => "MAX is undefined for an empty input",
            AggregateState::AvgInt { sum, count } => {
                if *count > 0 {
                    let total = ask_bits(f, FloatRequest::FromInteger(*sum));
                    let rows = ask_bits(f, FloatRequest::FromInteger(*count as i128));
                    return Ok(Value::Float64(ask_bits(f, FloatRequest::Quotient(total, rows))));
                }
                "AVG is undefined for an empty input"
            },
            AggregateState::AvgFloat { sum, count } => {
                if *count > 0 {
                    let rows = ask_bits(f, FloatRequest::FromInteger(*count as i128));
                    return Ok(Value::Float64(ask_bits(f, FloatRequest::Quotient(*sum, rows))));
                }
                "AVG is undefined for an empty input"
            },
        };
        Err(ExecutionError::InvalidQuery(empty.to_owned()))
    }
}

/// The keys of groups and the states of their aggregates: `tallies[a][g]` is the state of the
/// aggregate `a` in the group `g`.
pub struct Groups {
    pub keys: Seq<Seq<Datum>>,
    pub tallies: Seq<Seq<Tally>>,
}

/// The key of a row.
pub open spec fn key_of(t: Table, group_by: Seq<ResolvedColumn>, row: int) -> Seq<Datum> {
    Seq::new(group_by.len(), |i: int| t.cell(group_by[i].index as int, row))
}

/// The groups before any row. Without keys there is one group.
pub open spec fn first_groups(group_by: Seq<ResolvedColumn>, aggregates: Seq<AggregateExpression>) -> Groups {
    if group_by.len() == 0 {
        Groups {
            keys: seq![Seq::empty()],
            tallies: Seq::new(aggregates.len(), |a: int| seq![fresh(aggregates[a])]),
        }
    } else {
        Groups {
            keys: Seq::empty(),
            tallies: Seq::new(aggregates.len(), |a: int| Seq::<Tally>::empty()),
        }
    }
}

/// The first group from a position on with a key.
pub open spec fn group_with(keys: Seq<Seq<Datum>>, key: Seq<Datum>, g: int) -> Option<int>
    decreases keys.len() - g,
{
    if !(0 <= g < keys.len()) {
        None
    } else if lists_match(keys[g], key) {
        Some(g)
    } else {
        group_with(keys, key, g + 1)
    }
}

/// The groups with one more.
pub open spec fn opened(groups: Groups, key: Seq<Datum>, aggregates: Seq<AggregateExpression>) -> Groups {
    Groups {
        keys: groups.keys.push(key),
        tallies: Seq::new(
            aggregates.len(),
            |a: int| groups.tallies[a].push(fresh(aggregates[a])),
        ),
    }
}

/// The states behind a row of a group, from an aggregate on.
pub open spec fn tallies_from(
    tallies: Seq<Seq<Tally>>,
    a: int,
    g: int,
    aggregates: Seq<AggregateExpression>,
    t: Table,
    row: int,
    m: FloatModel,
) -> Result<Seq<Seq<Tally>>, ExecutionFault>
    decreases aggregates.len() - a,
{
    if !(0 <= a < aggregates.len()) {
        Ok(tallies)
    } else {
        match tallied(tallies[a][g], argument_of(aggregates[a], t, row), m) {
            Err(fault) => Err(fault),
            Ok(s) => tallies_from(
                tallies.update(a, tallies[a].update(g, s)),
                a + 1,
                g,
                aggregates,
                t,
                row,
                m,
            ),
        }
    }
}

/// The groups behind one row.
pub open spec fn groups_with(
    groups: Groups,
    row: int,
    t: Table,
    group_by: Seq<ResolvedColumn>,
    aggregates: Seq<AggregateExpression>,
    m: FloatModel,
) -> Result<Groups, ExecutionFault> {
    let key = key_of(t, group_by, row);
    let (known, g) = match group_with(groups.keys, key, 0) {
        Some(g) => (groups, g),
        None => (opened(groups, key, aggregates), groups.keys.len() as int),
    };
    match tallies_from(known.tallies, 0, g, aggregates, t, row, m) {
        Err(fault) => Err(fault),
        Ok(tallies) => Ok(Groups { keys: known.keys, tallies }),
    }
}

/// The groups behind the rows from a position on.
pub open spec fn groups_from(
    groups: Groups,
    rows: Seq<usize>,
    i: int,
    t: Table,
    group_by: Seq<ResolvedColumn>,
    aggregates: Seq<AggregateExpression>,
    m: FloatModel,
) -> Result<Groups, ExecutionFault>
    decreases rows.len() - i,
{
    if !(0 <= i < rows.len()) {
        Ok(groups)
    } else {
        match groups_with(groups, rows[i] as int, t, group_by, aggregates, m) {
            Err(fault) => Err(fault),
            Ok(next) => groups_from(next, rows, i + 1, t, group_by, aggregates, m),
        }
    }
}

/// The results of the states from a group on, behind `done`.
pub open spec fn results_from(states: Seq<Tally>, g: int, done: Seq<Datum>, m: FloatModel) -> Result<
    Seq<Datum>,
    ExecutionFault,
>
    decreases states.len() - g,
{
    if !(0 <= g < states.len()) {
        Ok(done)
    } else {
        match tally_result(states[g], m) {
            Err(fault) => Err(fault),
            Ok(d) => results_from(states, g + 1, done.push(d), m),
        }
    }
}

/// The results of the aggregates from a position on, behind `done`.
pub open spec fn all_results_from(
    tallies: Seq<Seq<Tally>>,
    a: int,
    done: Seq<Seq<Datum>>,
    m: FloatModel,
) -> Result<Seq<Seq<Datum>>, ExecutionFault>
    decreases tallies.len() - a,
{
    if !(0 <= a < tallies.len()) {
        Ok(done)
    } else {
        match results_from(tallies[a], 0, Seq::empty(), m) {
            Err(fault) => Err(fault),
            Ok(list) => all_results_from(tallies, a + 1, done.push(list), m),
        }
    }
}

/// The keys of groups and the results of their aggregates.
pub struct Grouping {
    pub keys: Seq<Seq<Datum>>,
    pub results: Seq<Seq<Datum>>,
}

/// The grouping of rows: groups stand in the order of their first rows.
pub open spec fn grouping_of(
    t: Table,
    rows: Seq<usize>,
    group_by: Seq<ResolvedColumn>,
    aggregates: Seq<AggregateExpression>,
    m: FloatModel,
) -> Result<Grouping, ExecutionFault> {
    match groups_from(first_groups(group_by, aggregates), rows, 0, t, group_by, aggregates, m) {
        Err(fault) => Err(fault),
        Ok(groups) => match all_results_from(groups.tallies, 0, Seq::empty(), m) {
            Err(fault) => Err(fault),
            Ok(results) => Ok(Grouping { keys: groups.keys, results }),
        },
    }
}

/// The contents of states.
pub open spec fn tallies_of(states: Seq<AggregateState>) -> Seq<Tally> {
    Seq::new(states.len(), |g: int| states[g]@)
}

/// The contents of states by aggregate.
pub open spec fn all_tallies(states: Seq<Vec<AggregateState>>) -> Seq<Seq<Tally>> {
    Seq::new(states.len(), |a: int| tallies_of(states[a]@))
}

/// Groups and the results of their aggregates: `aggregates[a][g]` is the result of the
/// aggregate `a` in the group `g`.
#[derive(Debug)]
pub struct GroupedData {
    pub keys: Vec<Vec<Value>>,
    pub aggregates: Vec<Vec<Value>>,
}

impl View for GroupedData {
    type V = Grouping;

    open spec fn view(&self) -> Grouping {
        Grouping { keys: rows_of(self.keys@), results: rows_of(self.aggregates@) }
    }
}

impl GroupedData {
    /// Whether every key has the same width and every group has a result of every aggregate.
    pub open spec fn wf(&self, width: nat, aggregates: nat) -> bool {
        &&& self.aggregates@.len() == aggregates
        &&& forall|g: int| 0 <= g < self.keys@.len() ==> (#[trigger] self.keys@[g])@.len() == width
        &&& forall|a: int|
            0 <= a < self.aggregates@.len() ==> (#[trigger] self.aggregates@[a])@.len()
                == self.keys@.len()
    }
}

/// The groups while rows are read.
struct GroupTable {
    keys: Vec<Vec<Value>>,
    states: Vec<Vec<AggregateState>>,
}

impl GroupTable {
    spec fn content(&self) -> Groups {
        Groups { keys: rows_of(self.keys@), tallies: all_tallies(self.states@) }
    }

    spec fn wf(&self, width: nat, aggregates: nat) -> bool {
        &&& self.states@.len() == aggregates
        &&& forall|g: int|
            0 <= g < self.keys@.len() ==> (#[trigger] self.keys@[g])@.len() == width
        &&& forall|a: int|
            0 <= a < self.states@.len() ==> (#[trigger] self.states@[a])@.len() == self.keys@.len()
    }

    #[verifier::loop_isolation(false)]
    fn new(group_by: &Vec<ResolvedColumn>, aggregates: &Vec<AggregateExpression>) -> (groups:
        GroupTable)
        ensures
            groups.wf(group_by@.len(), aggregates@.len()),
            groups.content() == first_groups(group_by@, aggregates@),
            group_by@.len() == 0 ==> groups.keys@.len() == 1,
    {
        let global = group_by.len() == 0;
        let mut keys: Vec<Vec<Value>> = Vec::new();
        if global {
            let key: Vec<Value> = Vec::new();
            assert(data_of(key@) =~= Seq::<Datum>::empty());
            keys.push(key);
        }
        let mut states: Vec<Vec<AggregateState>> = Vec::new();
        let mut a: usize = 0;
        while a < aggregates.len()
            invariant
                a <= aggregates.len(),
                states@.len() == a,
                forall|k: int|
                    0 <= k < a ==> tallies_of((#[trigger] states@[k])@)
                        == first_groups(group_by@, aggregates@).tallies[k] && states@[k]@.len()
                        == keys@.len(),
            decreases aggregates.len() - a,
        {
            let mut list: Vec<AggregateState> = Vec::new();
            if global {
                list.push(AggregateState::new(&aggregates[a]));
            }
            assert(tallies_of(list@) =~= first_groups(group_by@, aggregates@).tallies[a as int]);
            states.push(list);
            a = a + 1;
        }
        let groups = GroupTable { keys, states };
        assert(groups.content().tallies =~= first_groups(group_by@, aggregates@).tallies);
        assert(groups.content().keys =~= first_groups(group_by@, aggregates@).keys);
        groups
    }

    fn find(&self, key: &Vec<Value>) -> (r: Option<usize>)
        ensures
            match r {
                Some(g) => g < self.keys@.len() && group_with(
                    self.content().keys,
                    data_of(key@),
                    0,
                ) == Some(g as int),
                None => group_with(self.content().keys, data_of(key@), 0) is None,
            },
    {
        let mut g: usize = 0;
        while g < self.keys.len()
            invariant
                g <= self.keys.len(),
                group_with(self.content().keys, data_of(key@), 0) == group_with(
                    self.content().keys,
                    data_of(key@),
                    g as int,
                ),
            decreases self.keys.len() - g,
        {
            assert(self.content().keys[g as int] == data_of(self.keys@[g as int]@));
            if same_list(&self.keys[g], key) {
                return Some(g);
            }
            g = g + 1;
        }
        None
    }

    #[verifier::loop_isolation(false)]
    fn open(&mut self, key: Vec<Value>, aggregates: &Vec<AggregateExpression>)
        requires
            old(self).wf(key@.len(), aggregates@.len()),
        ensures
            final(self).wf(key@.len(), aggregates@.len()),
            final(self).content() == opened(old(self).content(), data_of(key@), aggregates@),
            final(self).keys@.len() == old(self).keys@.len() + 1,
    {
        let ghost before = *self;
        let ghost target = opened(before.content(), data_of(key@), aggregates@);
        let mut a: usize = 0;
        while a < aggregates.len()
            invariant
                a <= aggregates.len(),
                self.keys == before.keys,
                self.states@.len() == aggregates@.len(),
                forall|k: int|
                    a <= k < aggregates@.len() ==> #[trigger] self.states@[k] == before.states@[k],
                forall|k: int|
                    0 <= k < a ==> tallies_of((#[trigger] self.states@[k])@) == target.tallies[k]
                        && self.states@[k]@.len() == before.keys@.len() + 1,
            decreases aggregates.len() - a,
        {
            assert(self.states@[a as int] == before.states@[a as int]);
            let mut list: Vec<AggregateState> = Vec::new();
            std::mem::swap(&mut list, &mut self.states[a]);
            assert(list@ == before.states@[a as int]@);
            list.push(AggregateState::new(&aggregates[a]));
            assert(tallies_of(list@) =~= target.tallies[a as int]);
            self.states[a] = list;
            a = a + 1;
        }
        self.keys.push(key);
        assert(self.content().tallies =~= target.tallies);
        assert(self.content().keys =~= target.keys);
    }

    #[verifier::loop_isolation(false)]
    fn tally<F: Fn(FloatRequest) -> FloatReply>(
        &mut self,
        Ghost(width): Ghost<nat>,
        g: usize,
        aggregates: &Vec<AggregateExpression>,
        table: &Table,
        row: usize,
        f: &F,
    ) -> (r: Result<(), ExecutionError>)
        requires
            old(self).wf(width, aggregates@.len()),
            g < old(self).keys@.len(),
            table.wf(),
            row < table.rows,
            forall|a: int|
                0 <= a < aggregates@.len() ==> aggregate_fits(#[trigger] aggregates@[a], *table),
            answers_floats(*f),
        ensures
            match r {
                Ok(_) => {
                    &&& final(self).wf(width, aggregates@.len())
                    &&& final(self).keys == old(self).keys
                    &&& tallies_from(
                        old(self).content().tallies,
                        0,
                        g as int,
                        aggregates@,
                        *table,
                        row as int,
                        float_model(*f),
                    ) == Ok::<_, ExecutionFault>(final(self).content().tallies)
                },
                Err(e) => tallies_from(
                    old(self).content().tallies,
                    0,
                    g as int,
                    aggregates@,
                    *table,
                    row as int,
                    float_model(*f),
                ) == Err::<Seq<Seq<Tally>>, _>(e@),
            },
    {
        let ghost m = float_model(*f);
        let ghost before = *self;
        let mut a: usize = 0;
        while a < aggregates.len()
            invariant
                a <= aggregates.len(),
                self.wf(width, aggregates@.len()),
                self.keys == before.keys,
                tallies_from(
                    before.content().tallies,
                    0,
                    g as int,
                    aggregates@,
                    *table,
                    row as int,
                    m,
                ) == tallies_from(
                    self.content().tallies,
                    a as int,
                    g as int,
                    aggregates@,
                    *table,
                    row as int,
                    m,
                ),
            decreases aggregates.len() - a,
        {
            let ghost now = *self;
            assert(now.states@[a as int]@.len() == now.keys@.len());
            let mut list: Vec<AggregateState> = Vec::new();
            std::mem::swap(&mut list, &mut self.states[a]);
            assert(list@ == now.states@[a as int]@);
            let mut state = AggregateState::Count(0);
            std::mem::swap(&mut state, &mut list[g]);
            assert(state == now.states@[a as int]@[g as int]);
            assert(now.content().tallies[a as int][g as int] == state@);
            assert(aggregate_fits(aggregates@[a as int], *table));
            let next = state.update(&aggregates[a], table, row, f)?;
            list[g] = next;
            assert(tallies_of(list@) =~= now.content().tallies[a as int].update(
                g as int,
                next@,
            ));
            self.states[a] = list;
            assert(self.content().tallies =~= now.content().tallies.update(
                a as int,
                tallies_of(list@),
            ));
            a = a + 1;
        }
        Ok(())
    }
}

#[verifier::loop_isolation(false)]
fn row_key(table: &Table, group_by: &Vec<ResolvedColumn>, row: usize) -> (key: Vec<Value>)
    requires
        table.wf(),
        row < table.rows,
        forall|i: int| 0 <= i < group_by@.len() ==> column_fits(#[trigger] group_by@[i], *table),
    ensures
        data_of(key@) == key_of(*table, group_by@, row as int),
        key@.len() == group_by@.len(),
{
    let mut key: Vec<Value> = Vec::new();
    let mut i: usize = 0;
    while i < group_by.len()
        invariant
            i <= group_by.len(),
            key@.len() == i,
            forall|k: int|
                0 <= k < i ==> (#[trigger] key@[k])@ == key_of(*table, group_by@, row as int)[k],
        decreases group_by.len() - i,
    {
        assert(column_fits(group_by@[i as int], *table));
        key.push(table.columns[group_by[i].index].value(row));
        i = i + 1;
    }
    assert(data_of(key@) =~= key_of(*table, group_by@, row as int));
    key
}

#[verifier::loop_isolation(false)]
fn finish_states<F: Fn(FloatRequest) -> FloatReply>(states: &Vec<AggregateState>, f: &F) -> (r:
    Result<Vec<Value>, ExecutionError>)
    requires
        answers_floats(*f),
    ensures
        match r {
            Ok(values) => results_from(tallies_of(states@), 0, Seq::empty(), float_model(*f))
                == Ok::<_, ExecutionFault>(data_of(values@)) && values@.len() == states@.len(),
            Err(e) => results_from(tallies_of(states@), 0, Seq::empty(), float_model(*f)) == Err::<
                Seq<Datum>,
                _,
            >(e@),
        },
{
    let ghost list = tallies_of(states@);
    let mut values: Vec<Value> = Vec::new();
    assert(data_of(values@) =~= Seq::<Datum>::empty());
    let mut g: usize = 0;
    while g < states.len()
        invariant
            g <= states.len(),
            values@.len() == g,
            results_from(list, 0, Seq::empty(), float_model(*f)) == results_from(
                list,
                g as int,
                data_of(values@),
                float_model(*f),
            ),
        decreases states.len() - g,
    {
        assert(list[g as int] == states@[g as int]@);
        let value = states[g].finish(f)?;
        let ghost before = data_of(values@);
        values.push(value);
        assert(data_of(values@) =~= before.push(value@));
        g = g + 1;
    }
    Ok(values)
}

/// Groups rows and computes the aggregates of each group.
#[verifier::loop_isolation(false)]
pub fn execute_grouped<F: Fn(FloatRequest) -> FloatReply>(
    table: &Table,
    rows: &Vec<usize>,
    group_by: &Vec<ResolvedColumn>,
    aggregates: &Vec<AggregateExpression>,
    f: &F,
) -> (r: Result<GroupedData, ExecutionError>)
    requires
        table.wf(),
        forall|i: int| 0 <= i < rows@.len() ==> #[trigger] rows@[i] < table.rows,
        forall|i: int| 0 <= i < group_by@.len() ==> column_fits(#[trigger] group_by@[i], *table),
        forall|i: int|
            0 <= i < aggregates@.len() ==> aggregate_fits(#[trigger] aggregates@[i], *table),
        answers_floats(*f),
    ensures
        match r {
            Ok(data) => grouping_of(*table, rows@, group_by@, aggregates@, float_model(*f)) == Ok::<
                _,
                ExecutionFault,
            >(data@) && data.wf(group_by@.len(), aggregates@.len()),
            Err(e) => grouping_of(*table, rows@, group_by@, aggregates@, float_model(*f)) == Err::<
                Grouping,
                _,
            >(e@),
        },
{
    let ghost m = float_model(*f);
    let mut groups = GroupTable::new(group_by, aggregates);
    let ghost first = groups.content();
    let mut i: usize = 0;
    while i < rows.len()
        invariant
            i <= rows.len(),
            groups.wf(group_by@.len(), aggregates@.len()),
            groups_from(first, rows@, 0, *table, group_by@, aggregates@, m) == groups_from(
                groups.content(),
                rows@,
                i as int,
                *table,
                group_by@,
                aggregates@,
                m,
            ),
        decreases rows.len() - i,
    {
        let row = rows[i];
        let key = row_key(table, group_by, row);
        let g = match groups.find(&key) {
            Some(g) => g,
            None => {
                let g = groups.keys.len();
                groups.open(key, aggregates);
                g
            },
        };
        groups.tally(Ghost(group_by@.len()), g, aggregates, table, row, f)?;
        i = i + 1;
    }
    let ghost tallies = groups.content().tallies;
    let mut results: Vec<Vec<Value>> = Vec::new();
    assert(rows_of(results@) =~= Seq::<Seq<Datum>>::empty());
    let mut a: usize = 0;
    while a < groups.states.len()
        invariant
            a <= groups.states.len(),
            results@.len() == a,
            forall|k: int| 0 <= k < a ==> (#[trigger] results@[k])@.len() == groups.keys@.len(),
            all_results_from(tallies, 0, Seq::empty(), m) == all_results_from(
                tallies,
                a as int,
                rows_of(results@),
                m,
            ),
        decreases groups.states.len() - a,
    {
        assert(tallies[a as int] == tallies_of(groups.states@[a as int]@));
        let list = finish_states(&groups.states[a], f)?;
        let ghost before = rows_of(results@);
        results.push(list);
        assert(rows_of(results@) =~= before.push(data_of(list@)));
        a = a + 1;
    }
    Ok(GroupedData { keys: groups.keys, aggregates: results })
}

} // verus!
