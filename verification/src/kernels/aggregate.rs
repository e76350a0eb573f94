//! Aggregates over batches.

use vstd::prelude::*;
use crate::float::{answers_floats, ask_bits, float_from, float_model, float_quotient, float_sum, FloatModel, FloatReply, FloatRequest};
use crate::grouping::{cell_order, cell_order_chains, cell_order_separates, order_cells, same_type};
use crate::kernels::batch::{missing_column, BatchColumn, BatchType, KernelError, KernelFault, RecordBatch};
use crate::text::{byte_len, same_text, utf8_len, Order};
use crate::types::{equal_data, equal_floats, same_float, Datum, Value};

verus! {

/// Kinds of aggregates.
#[derive(Clone, Copy, Debug, PartialEq, Eq, Structural)]
pub enum AggregateKind {
    Count,
    Sum,
    Min,
    Max,
    Avg,
}

impl AggregateKind {
    /// The name of the aggregate.
    pub open spec fn text(self) -> Seq<char> {
        match self {
            AggregateKind::Count => "COUNT"@,
            AggregateKind::Sum => "SUM"@,
            AggregateKind::Min => "MIN"@,
            AggregateKind::Max => "MAX"@,
            AggregateKind::Avg => "AVG"@,
        }
    }

    /// The name of the aggregate.
    pub fn name(self) -> (s: &'static str)
        ensures
            s@ == self.text(),
    {
        match self {
            AggregateKind::Count => "COUNT",
            AggregateKind::Sum => "SUM",
            AggregateKind::Min => "MIN",
            AggregateKind::Max => "MAX",
            AggregateKind::Avg => "AVG",
        }
    }
}

/// An aggregate of a column. Only `COUNT` goes without a column.
#[derive(Clone, Copy, Debug, PartialEq, Eq)]
pub struct AggregateExpr {
    pub kind: AggregateKind,
    pub column: Option<usize>,
}

impl AggregateExpr {
    /// Makes an aggregate of a column.
    pub fn new(kind: AggregateKind, column: usize) -> (e: AggregateExpr)
        ensures
            e == (AggregateExpr { kind, column: Some(column) }),
    {
        AggregateExpr { kind, column: Some(column) }
    }

    /// Makes `COUNT(*)`.
    pub fn count_all() -> (e: AggregateExpr)
        ensures
            e == (AggregateExpr { kind: AggregateKind::Count, column: None }),
    {
        AggregateExpr { kind: AggregateKind::Count, column: None }
    }
}

/// A value that is not NULL. A floating-point value is held as its bit pattern.
#[derive(Clone, Debug)]
pub enum ScalarValue {
    Int64(i64),
    Float64(u64),
    Boolean(bool),
    String(String),
}

impl View for ScalarValue {
    type V = Datum;

    open spec fn view(&self) -> Datum {
        match *self {
            ScalarValue::Int64(i) => Datum::Int64(i),
            ScalarValue::Float64(b) => Datum::Float64(b),
            ScalarValue::Boolean(b) => Datum::Bool(b),
            ScalarValue::String(s) => Datum::Text(s@),
        }
    }
}

/// The bytes that a value holds outside itself.
pub open spec fn held_bytes(d: Datum) -> nat {
    match d {
        Datum::Text(s) => utf8_len(s),
        _ => 0,
    }
}

impl ScalarValue {
    /// The bytes that the value holds outside itself.
    pub fn retained_bytes(&self) -> (n: usize)
        ensures
            n == held_bytes(self@),
    {
        match self {
            ScalarValue::String(s) => byte_len(s.as_str()),
            _ => 0,
        }
    }

    pub(crate) fn of(value: Value) -> (r: Option<ScalarValue>)
        ensures
            match r {
                Some(s) => s@ == value@ && !(value@ is Null),
                None => value@ is Null,
            },
    {
        match value {
            Value::Null => None,
            Value::Int64(i) => Some(ScalarValue::Int64(i)),
            Value::Float64(b) => Some(ScalarValue::Float64(b)),
            Value::Bool(b) => Some(ScalarValue::Boolean(b)),
            Value::String(s) => Some(ScalarValue::String(s)),
        }
    }
}

/// A sum.
#[derive(Clone, Copy, Debug)]
pub enum SumValue {
    Int128(i128),
    Float64(u64),
}

/// The result of an aggregate. Over no values all but a count are NULL.
#[derive(Clone, Debug)]
pub enum AggregateResult {
    Count(u64),
    Sum(Option<SumValue>),
    Min(Option<ScalarValue>),
    Max(Option<ScalarValue>),
    Avg(Option<u64>),
}

/// Two values are equal where they are of one type and hold one value. A floating-point value
/// that is not a number equals none, and zeros are equal whatever their signs.
impl PartialEq for ScalarValue {
    fn eq(&self, other: &Self) -> (r: bool) {
        match (self, other) {
            (ScalarValue::Int64(x), ScalarValue::Int64(y)) => *x == *y,
            (ScalarValue::Float64(x), ScalarValue::Float64(y)) => same_float(*x, *y),
            (ScalarValue::Boolean(x), ScalarValue::Boolean(y)) => *x == *y,
            (ScalarValue::String(x), ScalarValue::String(y)) => same_text(x.as_str(), y.as_str()),
            _ => false,
        }
    }
}

impl vstd::std_specs::cmp::PartialEqSpecImpl for ScalarValue {
    open spec fn obeys_eq_spec() -> bool {
        true
    }

    open spec fn eq_spec(&self, other: &Self) -> bool {
        equal_data(self@, other@)
    }
}

/// Whether two sums are equal.
pub open spec fn equal_sums(a: SumValue, b: SumValue) -> bool {
    match (a, b) {
        (SumValue::Int128(x), SumValue::Int128(y)) => x == y,
        (SumValue::Float64(x), SumValue::Float64(y)) => equal_floats(x, y),
        _ => false,
    }
}

impl PartialEq for SumValue {
    fn eq(&self, other: &Self) -> (r: bool) {
        match (*self, *other) {
            (SumValue::Int128(x), SumValue::Int128(y)) => x == y,
            (SumValue::Float64(x), SumValue::Float64(y)) => same_float(x, y),
            _ => false,
        }
    }
}

impl vstd::std_specs::cmp::PartialEqSpecImpl for SumValue {
    open spec fn obeys_eq_spec() -> bool {
        true
    }

    open spec fn eq_spec(&self, other: &Self) -> bool {
        equal_sums(*self, *other)
    }
}

impl PartialEq for AggregateResult {
    fn eq(&self, other: &Self) -> (r: bool) {
        match (self, other) {
            (AggregateResult::Count(x), AggregateResult::Count(y)) => *x == *y,
            (AggregateResult::Sum(Some(x)), AggregateResult::Sum(Some(y))) => x.eq(y),
            (AggregateResult::Sum(None), AggregateResult::Sum(None)) => true,
            (AggregateResult::Min(Some(x)), AggregateResult::Min(Some(y))) => x.eq(y),
            (AggregateResult::Min(None), AggregateResult::Min(None)) => true,
            (AggregateResult::Max(Some(x)), AggregateResult::Max(Some(y))) => x.eq(y),
            (AggregateResult::Max(None), AggregateResult::Max(None)) => true,
            (AggregateResult::Avg(Some(x)), AggregateResult::Avg(Some(y))) => same_float(*x, *y),
            (AggregateResult::Avg(None), AggregateResult::Avg(None)) => true,
            _ => false,
        }
    }
}

impl vstd::std_specs::cmp::PartialEqSpecImpl for AggregateResult {
    open spec fn obeys_eq_spec() -> bool {
        true
    }

    open spec fn eq_spec(&self, other: &Self) -> bool {
        match (self@, other@) {
            (Aggregated::Count(x), Aggregated::Count(y)) => x == y,
            (Aggregated::Sum(Some(x)), Aggregated::Sum(Some(y))) => equal_sums(x, y),
            (Aggregated::Sum(None), Aggregated::Sum(None)) => true,
            (Aggregated::Min(Some(x)), Aggregated::Min(Some(y))) => equal_data(x, y),
            (Aggregated::Min(None), Aggregated::Min(None)) => true,
            (Aggregated::Max(Some(x)), Aggregated::Max(Some(y))) => equal_data(x, y),
            (Aggregated::Max(None), Aggregated::Max(None)) => true,
            (Aggregated::Avg(Some(x)), Aggregated::Avg(Some(y))) => equal_floats(x, y),
            (Aggregated::Avg(None), Aggregated::Avg(None)) => true,
            _ => false,
        }
    }
}

/// The content of a result.
pub enum Aggregated {
    Count(u64),
    Sum(Option<SumValue>),
    Min(Option<Datum>),
    Max(Option<Datum>),
    Avg(Option<u64>),
}

impl View for AggregateResult {
    type V = Aggregated;

    open spec fn view(&self) -> Aggregated {
        match *self {
            AggregateResult::Count(n) => Aggregated::Count(n),
            AggregateResult::Sum(sum) => Aggregated::Sum(sum),
            AggregateResult::Min(Some(v)) => Aggregated::Min(Some(v@)),
            AggregateResult::Min(None) => Aggregated::Min(None),
            AggregateResult::Max(Some(v)) => Aggregated::Max(Some(v@)),
            AggregateResult::Max(None) => Aggregated::Max(None),
            AggregateResult::Avg(avg) => Aggregated::Avg(avg),
        }
    }
}

impl AggregateResult {
    /// The bytes that the result holds outside itself.
    pub fn retained_bytes(&self) -> (n: usize)
        ensures
            n == match self@ {
                Aggregated::Min(Some(d)) => held_bytes(d),
                Aggregated::Max(Some(d)) => held_bytes(d),
                _ => 0,
            },
    {
        match self {
            AggregateResult::Min(Some(value)) => value.retained_bytes(),
            AggregateResult::Max(Some(value)) => value.retained_bytes(),
            _ => 0,
        }
    }
}

/// The values of the selected rows below `n` that are not NULL.
pub open spec fn known_cells(chosen: Seq<bool>, column: BatchColumn, n: int) -> Seq<Datum>
    decreases n,
{
    if n <= 0 {
        Seq::empty()
    } else if chosen[n - 1] && !(column.cell(n - 1) is Null) {
        known_cells(chosen, column, n - 1).push(column.cell(n - 1))
    } else {
        known_cells(chosen, column, n - 1)
    }
}

/// The number of selected rows below `n`.
pub open spec fn selected_count(chosen: Seq<bool>, n: int) -> nat
    decreases n,
{
    if n <= 0 {
        0
    } else {
        selected_count(chosen, n - 1) + if chosen[n - 1] { 1nat } else { 0 }
    }
}

/// The sum of integers.
pub open spec fn int_total(cells: Seq<Datum>) -> int
    decreases cells.len(),
{
    if cells.len() == 0 {
        0
    } else {
        int_total(cells.drop_last()) + match cells.last() {
            Datum::Int64(i) => i as int,
            _ => 0,
        }
    }
}

/// The sum of floating-point values, added in their order.
pub open spec fn float_total(cells: Seq<Datum>, m: FloatModel) -> u64
    decreases cells.len(),
{
    if cells.len() == 0 {
        0
    } else {
        match cells.last() {
            Datum::Float64(b) => float_sum(m, float_total(cells.drop_last(), m), b),
            _ => float_total(cells.drop_last(), m),
        }
    }
}

/// Whether a value takes the place of an extreme.
pub open spec fn replaces(candidate: Datum, current: Datum, least: bool) -> bool {
    cell_order(candidate, current) == (if least {
        Order::Less
    } else {
        Order::Greater
    })
}

/// The least or the greatest of values.
pub open spec fn extreme(cells: Seq<Datum>, least: bool) -> Option<Datum>
    decreases cells.len(),
{
    if cells.len() == 0 {
        None
    } else {
        match extreme(cells.drop_last(), least) {
            None => Some(cells.last()),
            Some(current) => Some(
                if replaces(cells.last(), current, least) {
                    cells.last()
                } else {
                    current
                },
            ),
        }
    }
}

/// The failure of an aggregate over a column of some type.
pub open spec fn unsupported(kind: AggregateKind, column: BatchColumn) -> KernelFault {
    KernelFault::UnsupportedAggregate { aggregate: kind.text(), data_type: column.kind().text() }
}

/// The values of a column that an aggregate reads.
pub open spec fn cells_of(batch: RecordBatch, column: usize) -> Seq<Datum> {
    known_cells(batch.chosen(), batch.parts()[column as int], batch.chosen().len() as int)
}

/// The result of `COUNT`.
pub open spec fn count_result(batch: RecordBatch, column: Option<usize>) -> Result<nat, KernelFault> {
    match column {
        None => Ok(selected_count(batch.chosen(), batch.chosen().len() as int)),
        Some(c) => if c >= batch.parts().len() {
            Err(missing_column(c, batch.parts().len()))
        } else {
            Ok(cells_of(batch, c).len())
        },
    }
}

/// The result of `SUM`.
pub open spec fn sum_result(batch: RecordBatch, column: usize, m: FloatModel) -> Result<
    Option<SumValue>,
    KernelFault,
> {
    if column >= batch.parts().len() {
        Err(missing_column(column, batch.parts().len()))
    } else {
        let cells = cells_of(batch, column);
        match batch.parts()[column as int].kind() {
            BatchType::Int64 => Ok(
                if cells.len() == 0 {
                    None
                } else {
                    Some(SumValue::Int128(int_total(cells) as i128))
                },
            ),
            BatchType::Float64 => Ok(
                if cells.len() == 0 {
                    None
                } else {
                    Some(SumValue::Float64(float_total(cells, m)))
                },
            ),
            _ => Err(unsupported(AggregateKind::Sum, batch.parts()[column as int])),
        }
    }
}

/// The result of `MIN` or `MAX`.
pub open spec fn extreme_result(batch: RecordBatch, column: usize, least: bool) -> Result<
    Option<Datum>,
    KernelFault,
> {
    if column >= batch.parts().len() {
        Err(missing_column(column, batch.parts().len()))
    } else {
        Ok(extreme(cells_of(batch, column), least))
    }
}

/// The result of `AVG`.
pub open spec fn avg_result(batch: RecordBatch, column: usize, m: FloatModel) -> Result<
    Option<u64>,
    KernelFault,
> {
    if column >= batch.parts().len() {
        Err(missing_column(column, batch.parts().len()))
    } else {
        let cells = cells_of(batch, column);
        let n = float_from(m, cells.len() as int);
        match batch.parts()[column as int].kind() {
            BatchType::Int64 => Ok(
                if cells.len() == 0 {
                    None
                } else {
                    Some(float_quotient(m, float_from(m, int_total(cells)), n))
                },
            ),
            BatchType::Float64 => Ok(
                if cells.len() == 0 {
                    None
                } else {
                    Some(float_quotient(m, float_total(cells, m), n))
                },
            ),
            _ => Err(unsupported(AggregateKind::Avg, batch.parts()[column as int])),
        }
    }
}

/// Counts the selected rows, or those of them whose value is not NULL.
#[verifier::loop_isolation(false)]
pub fn count(batch: &RecordBatch, column: Option<usize>) -> (r: Result<u64, KernelError>)
    requires
        batch.wf(),
    ensures
        match r {
            Ok(n) => count_result(*batch, column) == Ok::<_, KernelFault>(n as nat),
            Err(e) => count_result(*batch, column) == Err::<nat, _>(e@),
        },
{
    let n = batch.len();
    let mut total: u64 = 0;
    let mut row: usize = 0;
    match column {
        None => {
            while row < n
                invariant
                    row <= n,
                    total <= row,
                    total == selected_count(batch.chosen(), row as int),
                decreases n - row,
            {
                if batch.is_selected(row) {
                    total = total + 1;
                }
                row = row + 1;
            }
        },
        Some(c) => {
            let array = batch.column(c)?;
            proof {
                batch.columns_have_all_rows();
            }
            while row < n
                invariant
                    row <= n,
                    total <= row,
                    total == known_cells(batch.chosen(), *array, row as int).len(),
                decreases n - row,
            {
                if batch.is_selected(row) && array.is_valid(row) {
                    total = total + 1;
                }
                row = row + 1;
            }
        },
    }
    Ok(total)
}

/// Adds integers up, and counts them.
#[verifier::loop_isolation(false)]
fn add_integers(batch: &RecordBatch, values: &Vec<Option<i64>>) -> (r: (i128, u64))
    requires
        batch.wf(),
        values@.len() == batch.chosen().len(),
    ensures
        ({
            let column = BatchColumn::Int64(*values);
            let cells = known_cells(batch.chosen(), column, batch.chosen().len() as int);
            r.0 == int_total(cells) && r.1 == cells.len()
        }),
{
    let ghost column = BatchColumn::Int64(*values);
    let n = batch.len();
    let mut total: i128 = 0;
    let mut count: u64 = 0;
    let mut row: usize = 0;
    while row < n
        invariant
            row <= n,
            count <= row,
            count == known_cells(batch.chosen(), column, row as int).len(),
            total == int_total(known_cells(batch.chosen(), column, row as int)),
            -(0x8000_0000_0000_0000 * row) <= total <= 0x8000_0000_0000_0000 * row,
        decreases n - row,
    {
        if batch.is_selected(row) {
            if let Some(x) = values[row] {
                proof {
                    let before = known_cells(batch.chosen(), column, row as int);
                    assert(before.push(Datum::Int64(x)).drop_last() =~= before);
                }
                total = total + x as i128;
                count = count + 1;
            }
        }
        row = row + 1;
    }
    (total, count)
}

/// Adds floating-point values up, and counts them.
#[verifier::loop_isolation(false)]
fn add_floats<F: Fn(FloatRequest) -> FloatReply>(batch: &RecordBatch, values: &Vec<Option<u64>>, f: &F) -> (r:
    (u64, u64))
    requires
        batch.wf(),
        values@.len() == batch.chosen().len(),
        answers_floats(*f),
    ensures
        ({
            let column = BatchColumn::Float64(*values);
            let cells = known_cells(batch.chosen(), column, batch.chosen().len() as int);
            r.0 == float_total(cells, float_model(*f)) && r.1 == cells.len()
        }),
{
    let ghost column = BatchColumn::Float64(*values);
    let ghost m = float_model(*f);
    let n = batch.len();
    let mut total: u64 = 0;
    let mut count: u64 = 0;
    let mut row: usize = 0;
    while row < n
        invariant
            row <= n,
            count <= row,
            count == known_cells(batch.chosen(), column, row as int).len(),
            total == float_total(known_cells(batch.chosen(), column, row as int), m),
        decreases n - row,
    {
        if batch.is_selected(row) {
            if let Some(x) = values[row] {
                proof {
                    let before = known_cells(batch.chosen(), column, row as int);
                    assert(before.push(Datum::Float64(x)).drop_last() =~= before);
                }
                total = ask_bits(f, FloatRequest::Sum(total, x));
                count = count + 1;
            }
        }
        row = row + 1;
    }
    (total, count)
}

/// Sums the selected values of a column.
pub fn sum<F: Fn(FloatRequest) -> FloatReply>(batch: &RecordBatch, column: usize, f: &F) -> (r: Result<
    Option<SumValue>,
    KernelError,
>)
    requires
        batch.wf(),
        answers_floats(*f),
    ensures
        match r {
            Ok(sum) => sum_result(*batch, column, float_model(*f)) == Ok::<_, KernelFault>(sum),
            Err(e) => sum_result(*batch, column, float_model(*f)) == Err::<Option<SumValue>, _>(e@),
        },
{
    proof {
        batch.columns_have_all_rows();
    }
    let array = batch.column(column)?;
    match array {
        BatchColumn::Int64(values) => {
            let (total, count) = add_integers(batch, values);
            Ok(
                if count == 0 {
                    None
                } else {
                    Some(SumValue::Int128(total))
                },
            )
        },
        BatchColumn::Float64(values) => {
            let (total, count) = add_floats(batch, values, f);
            Ok(
                if count == 0 {
                    None
                } else {
                    Some(SumValue::Float64(total))
                },
            )
        },
        _ => Err(
            KernelError::UnsupportedAggregate {
                aggregate: "SUM",
                data_type: array.data_type().name(),
            },
        ),
    }
}

/// The content of an optional value.
pub open spec fn scalar_of(r: Option<ScalarValue>) -> Option<Datum> {
    match r {
        Some(v) => Some(v@),
        None => None,
    }
}

#[verifier::loop_isolation(false)]
fn min_max(batch: &RecordBatch, column: usize, least: bool) -> (r: Result<
    Option<ScalarValue>,
    KernelError,
>)
    requires
        batch.wf(),
    ensures
        match r {
            Ok(v) => extreme_result(*batch, column, least) == Ok::<_, KernelFault>(scalar_of(v)),
            Err(e) => extreme_result(*batch, column, least) == Err::<Option<Datum>, _>(e@),
        },
{
    proof {
        batch.columns_have_all_rows();
    }
    let array = batch.column(column)?;
    let n = batch.len();
    let mut best: Option<Value> = None;
    let mut row: usize = 0;
    while row < n
        invariant
            row <= n,
            match best {
                Some(v) => extreme(known_cells(batch.chosen(), *array, row as int), least) == Some(
                    v@,
                ) && !(v@ is Null),
                None => extreme(known_cells(batch.chosen(), *array, row as int), least) is None,
            },
        decreases n - row,
    {
        if batch.is_selected(row) && array.is_valid(row) {
            let candidate = array.value(row);
            proof {
                let before = known_cells(batch.chosen(), *array, row as int);
                assert(before.push(candidate@).drop_last() =~= before);
            }
            let replace = match &best {
                None => true,
                Some(current) => match order_cells(&candidate, current) {
                    Order::Less => least,
                    Order::Greater => !least,
                    Order::Equal => false,
                },
            };
            if replace {
                best = Some(candidate);
            }
        }
        row = row + 1;
    }
    Ok(
        match best {
            Some(value) => ScalarValue::of(value),
            None => None,
        },
    )
}

/// Finds the least selected value of a column.
pub fn min(batch: &RecordBatch, column: usize) -> (r: Result<Option<ScalarValue>, KernelError>)
    requires
        batch.wf(),
    ensures
        match r {
            Ok(v) => extreme_result(*batch, column, true) == Ok::<_, KernelFault>(scalar_of(v)),
            Err(e) => extreme_result(*batch, column, true) == Err::<Option<Datum>, _>(e@),
        },
{
    min_max(batch, column, true)
}

/// Finds the greatest selected value of a column.
pub fn max(batch: &RecordBatch, column: usize) -> (r: Result<Option<ScalarValue>, KernelError>)
    requires
        batch.wf(),
    ensures
        match r {
            Ok(v) => extreme_result(*batch, column, false) == Ok::<_, KernelFault>(scalar_of(v)),
            Err(e) => extreme_result(*batch, column, false) == Err::<Option<Datum>, _>(e@),
        },
{
    min_max(batch, column, false)
}

/// Averages the selected values of a column.
pub fn avg<F: Fn(FloatRequest) -> FloatReply>(batch: &RecordBatch, column: usize, f: &F) -> (r: Result<
    Option<u64>,
    KernelError,
>)
    requires
        batch.wf(),
        answers_floats(*f),
    ensures
        match r {
            Ok(avg) => avg_result(*batch, column, float_model(*f)) == Ok::<_, KernelFault>(avg),
            Err(e) => avg_result(*batch, column, float_model(*f)) == Err::<Option<u64>, _>(e@),
        },
{
    proof {
        batch.columns_have_all_rows();
    }
    let array = batch.column(column)?;
    match array {
        BatchColumn::Int64(values) => {
            let (total, count) = add_integers(batch, values);
            if count == 0 {
                return Ok(None);
            }
            let x = ask_bits(f, FloatRequest::FromInteger(total));
            let y = ask_bits(f, FloatRequest::FromInteger(count as i128));
            Ok(Some(ask_bits(f, FloatRequest::Quotient(x, y))))
        },
        BatchColumn::Float64(values) => {
            let (total, count) = add_floats(batch, values, f);
            if count == 0 {
                return Ok(None);
            }
            let y = ask_bits(f, FloatRequest::FromInteger(count as i128));
            Ok(Some(ask_bits(f, FloatRequest::Quotient(total, y))))
        },
        _ => Err(
            KernelError::UnsupportedAggregate {
                aggregate: "AVG",
                data_type: array.data_type().name(),
            },
        ),
    }
}

/// The result of an aggregate.
pub open spec fn aggregate_result(batch: RecordBatch, e: AggregateExpr, m: FloatModel) -> Result<
    Aggregated,
    KernelFault,
> {
    match (e.kind, e.column) {
        (AggregateKind::Count, column) => match count_result(batch, column) {
            Ok(n) => Ok(Aggregated::Count(n as u64)),
            Err(fault) => Err(fault),
        },
        (kind, None) => Err(
            KernelFault::InvalidAggregate {
                aggregate: kind.text(),
                reason: "a column is required"@,
            },
        ),
        (AggregateKind::Sum, Some(c)) => match sum_result(batch, c, m) {
            Ok(sum) => Ok(Aggregated::Sum(sum)),
            Err(fault) => Err(fault),
        },
        (AggregateKind::Min, Some(c)) => match extreme_result(batch, c, true) {
            Ok(d) => Ok(Aggregated::Min(d)),
            Err(fault) => Err(fault),
        },
        (AggregateKind::Max, Some(c)) => match extreme_result(batch, c, false) {
            Ok(d) => Ok(Aggregated::Max(d)),
            Err(fault) => Err(fault),
        },
        (AggregateKind::Avg, Some(c)) => match avg_result(batch, c, m) {
            Ok(avg) => Ok(Aggregated::Avg(avg)),
            Err(fault) => Err(fault),
        },
    }
}

/// Computes an aggregate of the selected rows.
pub fn aggregate<F: Fn(FloatRequest) -> FloatReply>(
    batch: &RecordBatch,
    expression: AggregateExpr,
    f: &F,
) -> (r: Result<AggregateResult, KernelError>)
    requires
        batch.wf(),
        answers_floats(*f),
    ensures
        match r {
            Ok(result) => aggregate_result(*batch, expression, float_model(*f)) == Ok::<
                _,
                KernelFault,
            >(result@),
            Err(e) => aggregate_result(*batch, expression, float_model(*f)) == Err::<
                Aggregated,
                _,
            >(e@),
        },
{
    let column = match (expression.kind, expression.column) {
        (AggregateKind::Count, column) => return Ok(AggregateResult::Count(count(batch, column)?)),
        (kind, None) => return Err(
            KernelError::InvalidAggregate {
                aggregate: kind.name(),
                reason: "a column is required",
            },
        ),
        (_, Some(column)) => column,
    };
    match expression.kind {
        AggregateKind::Sum => Ok(AggregateResult::Sum(sum(batch, column, f)?)),
        AggregateKind::Min => Ok(AggregateResult::Min(min(batch, column)?)),
        AggregateKind::Max => Ok(AggregateResult::Max(max(batch, column)?)),
        _ => Ok(AggregateResult::Avg(avg(batch, column, f)?)),
    }
}

/// The extreme of values of one type is one of them, and none of them lies beyond it.
pub proof fn extreme_is_reached(cells: Seq<Datum>, least: bool)
    requires
        cells.len() > 0,
        forall|i: int, j: int|
            0 <= i < cells.len() && 0 <= j < cells.len() ==> same_type(
                #[trigger] cells[i],
                #[trigger] cells[j],
            ),
    ensures
        extreme(cells, least) matches Some(d) && cells.contains(d) && forall|i: int|
            0 <= i < cells.len() ==> !replaces(#[trigger] cells[i], d, least),
    decreases cells.len(),
{
    let first = cells.drop_last();
    let last = cells.last();
    assert(cells[cells.len() - 1] == last);
    cell_order_separates(last, last);
    if first.len() > 0 {
        assert forall|i: int, j: int| 0 <= i < first.len() && 0 <= j < first.len() implies same_type(
            #[trigger] first[i],
            #[trigger] first[j],
        ) by {
            assert(same_type(cells[i], cells[j]));
        }
        extreme_is_reached(first, least);
        let current = extreme(first, least).unwrap();
        let k = choose|k: int| 0 <= k < first.len() && first[k] == current;
        assert(cells[k] == current);
        let d = extreme(cells, least).unwrap();
        assert forall|i: int| 0 <= i < cells.len() implies !replaces(#[trigger] cells[i], d, least) by {
            if i < first.len() {
                assert(first[i] == cells[i]);
                assert(!replaces(first[i], current, least));
                cell_order_separates(cells[i], current);
                cell_order_separates(cells[i], last);
                cell_order_separates(last, current);
                if replaces(last, current, least) && replaces(cells[i], last, least) {
                    if least {
                        cell_order_chains(cells[i], last, current);
                    } else {
                        cell_order_chains(current, last, cells[i]);
                    }
                }
            }
        }
    }
}

} // verus!
