//! Grouping of the selected rows of a batch, within bounds on groups and memory.

use vstd::prelude::*;
use vstd::layout::size_of;
use crate::float::{answers_floats, ask_bits, canonical, canonical_bits, float_from, float_model, float_quotient, float_sum, FloatModel, FloatReply, FloatRequest};
use crate::grouping::order_cells;
use crate::kernels::aggregate::{held_bytes, replaces, AggregateExpr, AggregateKind, AggregateResult, Aggregated, ScalarValue, SumValue};
use crate::kernels::batch::{missing_column, BatchColumn, BatchType, KernelError, KernelFault, RecordBatch};
use crate::kernels::slots::SlotTable;
use crate::stable_hash::{mix, mix_bytes, mix_word, mixed_data, mixed_datum, FNV_OFFSET};
use crate::bytes::text_bytes;
use crate::text::{byte_len, same_text, Order};
use crate::types::{Datum, Value};

verus! {

/// Bounds of a grouping.
#[derive(Clone, Copy, Debug, PartialEq, Eq)]
pub struct GroupByConfig {
    pub max_groups: usize,
    pub memory_limit_bytes: usize,
}

impl GroupByConfig {
    /// Makes bounds.
    pub fn new(max_groups: usize, memory_limit_bytes: usize) -> (config: GroupByConfig)
        ensures
            config == (GroupByConfig { max_groups, memory_limit_bytes }),
    {
        GroupByConfig { max_groups, memory_limit_bytes }
    }

    /// Makes a bound on groups alone.
    pub fn unlimited(max_groups: usize) -> (config: GroupByConfig)
        ensures
            config == (GroupByConfig { max_groups, memory_limit_bytes: usize::MAX }),
    {
        GroupByConfig { max_groups, memory_limit_bytes: usize::MAX }
    }
}

/// A key of a group. NULLs form one group, and so do zeros of both signs and NaNs.
#[derive(Debug, Clone, PartialEq, Eq)]
pub enum GroupKey {
    Null,
    Int64(i64),
    Float64(u64),
    Boolean(bool),
    String(String),
}

impl View for GroupKey {
    type V = Datum;

    open spec fn view(&self) -> Datum {
        match *self {
            GroupKey::Null => Datum::Null,
            GroupKey::Int64(i) => Datum::Int64(i),
            GroupKey::Float64(b) => Datum::Float64(b),
            GroupKey::Boolean(b) => Datum::Bool(b),
            GroupKey::String(s) => Datum::Text(s@),
        }
    }
}

/// The key that a value has.
pub open spec fn key_of(d: Datum) -> Datum {
    match d {
        Datum::Float64(b) => Datum::Float64(canonical_bits(b)),
        _ => d,
    }
}

impl GroupKey {
    /// The bit pattern of a floating-point key.
    pub fn as_f64(&self) -> (r: Option<u64>)
        ensures
            r == match self@ {
                Datum::Float64(b) => Some(b),
                _ => None,
            },
    {
        match self {
            GroupKey::Float64(b) => Some(*b),
            _ => None,
        }
    }

    /// The bytes that the key holds outside itself.
    pub fn retained_bytes(&self) -> (n: usize)
        ensures
            n == held_bytes(self@),
    {
        match self {
            GroupKey::String(s) => byte_len(s.as_str()),
            _ => 0,
        }
    }

    fn of(value: Value) -> (key: GroupKey)
        ensures
            key@ == key_of(value@),
    {
        match value {
            Value::Null => GroupKey::Null,
            Value::Int64(i) => GroupKey::Int64(i),
            Value::Float64(b) => GroupKey::Float64(canonical(b)),
            Value::Bool(b) => GroupKey::Boolean(b),
            Value::String(s) => GroupKey::String(s),
        }
    }

    fn same(&self, other: &GroupKey) -> (r: bool)
        ensures
            r == (self@ == other@),
    {
        match (self, other) {
            (GroupKey::Null, GroupKey::Null) => true,
            (GroupKey::Int64(x), GroupKey::Int64(y)) => *x == *y,
            (GroupKey::Float64(x), GroupKey::Float64(y)) => *x == *y,
            (GroupKey::Boolean(x), GroupKey::Boolean(y)) => *x == *y,
            (GroupKey::String(x), GroupKey::String(y)) => same_text(x.as_str(), y.as_str()),
            _ => false,
        }
    }

    fn mix_into(&self, hash: u64) -> (r: u64)
        ensures
            r == mixed_datum(hash, self@),
    {
        match self {
            GroupKey::Null => mix(hash, 0),
            GroupKey::Int64(i) => mix_word(mix(hash, 1), *i as u64),
            GroupKey::Float64(bits) => mix_word(mix(hash, 2), *bits),
            GroupKey::Boolean(b) => mix(mix(hash, 3), if *b { 1 } else { 0 }),
            GroupKey::String(s) => {
                let bytes = text_bytes(s.as_str());
                mix_bytes(mix_word(mix(hash, 4), bytes.len() as u64), &bytes)
            },
        }
    }
}

/// The contents of keys.
pub open spec fn keys_of(keys: Seq<GroupKey>) -> Seq<Datum> {
    Seq::new(keys.len(), |i: int| keys[i]@)
}

/// The state of an aggregate in a group.
#[derive(Debug)]
pub enum Accumulator {
    Count(u64),
    SumInt { total: i128, seen: bool },
    SumFloat { total: u64, seen: bool },
    Extreme { least: bool, value: Option<Value> },
    AvgInt { total: i128, count: u64 },
    AvgFloat { total: u64, count: u64 },
}

/// The content of a state.
pub enum Tally {
    Count(u64),
    SumInt { total: i128, seen: bool },
    SumFloat { total: u64, seen: bool },
    Extreme { least: bool, value: Option<Datum> },
    AvgInt { total: i128, count: u64 },
    AvgFloat { total: u64, count: u64 },
}

impl View for Accumulator {
    type V = Tally;

    open spec fn view(&self) -> Tally {
        match *self {
            Accumulator::Count(n) => Tally::Count(n),
            Accumulator::SumInt { total, seen } => Tally::SumInt { total, seen },
            Accumulator::SumFloat { total, seen } => Tally::SumFloat { total, seen },
            Accumulator::Extreme { least, value: Some(v) } => Tally::Extreme {
                least,
                value: Some(v@),
            },
            Accumulator::Extreme { least, value: None } => Tally::Extreme { least, value: None },
            Accumulator::AvgInt { total, count } => Tally::AvgInt { total, count },
            Accumulator::AvgFloat { total, count } => Tally::AvgFloat { total, count },
        }
    }
}

/// The state of an aggregate before any row.
pub open spec fn fresh(e: AggregateExpr, parts: Seq<BatchColumn>) -> Tally {
    let integers = e.column matches Some(c) && parts[c as int].kind() == BatchType::Int64;
    match e.kind {
        AggregateKind::Count => Tally::Count(0),
        AggregateKind::Sum => if integers {
            Tally::SumInt { total: 0, seen: false }
        } else {
            Tally::SumFloat { total: 0, seen: false }
        },
        AggregateKind::Min => Tally::Extreme { least: true, value: None },
        AggregateKind::Max => Tally::Extreme { least: false, value: None },
        AggregateKind::Avg => if integers {
            Tally::AvgInt { total: 0, count: 0 }
        } else {
            Tally::AvgFloat { total: 0, count: 0 }
        },
    }
}

/// The failure of memory that is not allowed.
pub open spec fn memory_fault(required: usize, limit: usize) -> KernelFault {
    KernelFault::MemoryLimitExceeded { operator: "hash grouping"@, required, limit }
}

/// The bytes in use once a text has taken the place of another.
pub open spec fn exchanged(retained: usize, before: nat, after: nat, limit: usize) -> Result<
    usize,
    KernelFault,
> {
    if before > retained || retained - before + after > usize::MAX {
        Err(memory_fault(usize::MAX, limit))
    } else if retained - before + after > limit {
        Err(memory_fault((retained - before + after) as usize, limit))
    } else {
        Ok((retained - before + after) as usize)
    }
}

/// The bytes of an optional value.
pub open spec fn held_by(value: Option<Datum>) -> nat {
    match value {
        Some(d) => held_bytes(d),
        None => 0,
    }
}

/// The state of an aggregate behind a row, and the bytes in use. Without a column the row
/// itself counts.
pub open spec fn tallied(t: Tally, cell: Option<Datum>, retained: usize, limit: usize, m: FloatModel) -> Result<
    (Tally, usize),
    KernelFault,
> {
    match (t, cell) {
        (_, Some(Datum::Null)) => Ok((t, retained)),
        (Tally::Count(n), _) => if n == u64::MAX {
            Err(KernelFault::ArithmeticOverflow { aggregate: "COUNT"@ })
        } else {
            Ok((Tally::Count((n + 1) as u64), retained))
        },
        (Tally::SumInt { total, .. }, Some(Datum::Int64(x))) => if i128::MIN <= total + x
            <= i128::MAX {
            Ok((Tally::SumInt { total: (total + x) as i128, seen: true }, retained))
        } else {
            Err(KernelFault::ArithmeticOverflow { aggregate: "SUM"@ })
        },
        (Tally::SumFloat { total, .. }, Some(Datum::Float64(x))) => Ok(
            (Tally::SumFloat { total: float_sum(m, total, x), seen: true }, retained),
        ),
        (Tally::Extreme { least, value }, Some(d)) => if value matches Some(current) && !replaces(
            d,
            current,
            least,
        ) {
            Ok((t, retained))
        } else {
            match d {
                Datum::Text(_) => match exchanged(retained, held_by(value), held_bytes(d), limit) {
                    Ok(bytes) => Ok((Tally::Extreme { least, value: Some(d) }, bytes)),
                    Err(fault) => Err(fault),
                },
                _ => Ok((Tally::Extreme { least, value: Some(d) }, retained)),
            }
        },
        (Tally::AvgInt { total, count }, Some(Datum::Int64(x))) => if !(i128::MIN <= total + x
            <= i128::MAX) || count == u64::MAX {
            Err(KernelFault::ArithmeticOverflow { aggregate: "AVG"@ })
        } else {
            Ok((Tally::AvgInt { total: (total + x) as i128, count: (count + 1) as u64 }, retained))
        },
        (Tally::AvgFloat { total, count }, Some(Datum::Float64(x))) => if count == u64::MAX {
            Err(KernelFault::ArithmeticOverflow { aggregate: "AVG"@ })
        } else {
            Ok(
                (
                    Tally::AvgFloat { total: float_sum(m, total, x), count: (count + 1) as u64 },
                    retained,
                ),
            )
        },
        _ => Ok((t, retained)),
    }
}

/// The result of a state.
pub open spec fn tally_result(t: Tally, m: FloatModel) -> Aggregated {
    match t {
        Tally::Count(n) => Aggregated::Count(n),
        Tally::SumInt { total, seen } => Aggregated::Sum(
            if seen {
                Some(SumValue::Int128(total))
            } else {
                None
            },
        ),
        Tally::SumFloat { total, seen } => Aggregated::Sum(
            if seen {
                Some(SumValue::Float64(total))
            } else {
                None
            },
        ),
        Tally::Extreme { least, value } => {
            let known = match value {
                Some(Datum::Null) => None,
                _ => value,
            };
            if least {
                Aggregated::Min(known)
            } else {
                Aggregated::Max(known)
            }
        },
        Tally::AvgInt { total, count } => Aggregated::Avg(
            if count == 0 {
                None
            } else {
                Some(float_quotient(m, float_from(m, total as int), float_from(m, count as int)))
            },
        ),
        Tally::AvgFloat { total, count } => Aggregated::Avg(
            if count == 0 {
                None
            } else {
                Some(float_quotient(m, total, float_from(m, count as int)))
            },
        ),
    }
}

fn memory_error(required: usize, limit: usize) -> (e: KernelError)
    ensures
        e@ == memory_fault(required, limit),
{
    KernelError::MemoryLimitExceeded { operator: "hash grouping", required, limit }
}

fn value_bytes(value: &Value) -> (n: usize)
    ensures
        n == held_bytes(value@),
{
    match value {
        Value::String(s) => byte_len(s.as_str()),
        _ => 0,
    }
}

fn exchange(retained: usize, before: usize, after: usize, limit: usize) -> (r: Result<
    usize,
    KernelError,
>)
    ensures
        match r {
            Ok(bytes) => exchanged(retained, before as nat, after as nat, limit) == Ok::<
                _,
                KernelFault,
            >(bytes),
            Err(e) => exchanged(retained, before as nat, after as nat, limit) == Err::<usize, _>(e@),
        },
{
    if before > retained {
        return Err(memory_error(usize::MAX, limit));
    }
    match (retained - before).checked_add(after) {
        None => Err(memory_error(usize::MAX, limit)),
        Some(required) => if required > limit {
            Err(memory_error(required, limit))
        } else {
            Ok(required)
        },
    }
}

/// The content of an optional value.
spec fn cell_view(cell: Option<Value>) -> Option<Datum> {
    match cell {
        Some(v) => Some(v@),
        None => None,
    }
}

impl Accumulator {
    fn new(e: &AggregateExpr, batch: &RecordBatch) -> (a: Accumulator)
        requires
            e.column matches Some(c) ==> c < batch.parts().len(),
        ensures
            a@ == fresh(*e, batch.parts()),
    {
        let integers = match e.column {
            Some(c) => match batch.column(c) {
                Ok(column) => column.data_type() == BatchType::Int64,
                Err(_) => false,
            },
            None => false,
        };
        match e.kind {
            AggregateKind::Count => Accumulator::Count(0),
            AggregateKind::Sum => if integers {
                Accumulator::SumInt { total: 0, seen: false }
            } else {
                Accumulator::SumFloat { total: 0, seen: false }
            },
            AggregateKind::Min => Accumulator::Extreme { least: true, value: None },
            AggregateKind::Max => Accumulator::Extreme { least: false, value: None },
            AggregateKind::Avg => if integers {
                Accumulator::AvgInt { total: 0, count: 0 }
            } else {
                Accumulator::AvgFloat { total: 0, count: 0 }
            },
        }
    }

    fn update<F: Fn(FloatRequest) -> FloatReply>(
        self,
        cell: Option<Value>,
        retained: usize,
        limit: usize,
        f: &F,
    ) -> (r: Result<(Accumulator, usize), KernelError>)
        requires
            answers_floats(*f),
        ensures
            match r {
                Ok((a, bytes)) => tallied(
                    self@,
                    cell_view(cell),
                    retained,
                    limit,
                    float_model(*f),
                ) == Ok::<_, KernelFault>((a@, bytes)),
                Err(e) => tallied(self@, cell_view(cell), retained, limit, float_model(*f))
                    == Err::<(Tally, usize), _>(e@),
            },
    {
        if let Some(Value::Null) = &cell {
            return Ok((self, retained));
        }
        match (self, cell) {
            (Accumulator::Count(n), _) => match n.checked_add(1) {
                Some(n) => Ok((Accumulator::Count(n), retained)),
                None => Err(KernelError::ArithmeticOverflow { aggregate: "COUNT" }),
            },
            (Accumulator::SumInt { total, seen: _ }, Some(Value::Int64(x))) => {
                match total.checked_add(x as i128) {
                    Some(total) => Ok((Accumulator::SumInt { total, seen: true }, retained)),
                    None => Err(KernelError::ArithmeticOverflow { aggregate: "SUM" }),
                }
            },
            (Accumulator::SumFloat { total, seen: _ }, Some(Value::Float64(x))) => {
                let total = ask_bits(f, FloatRequest::Sum(total, x));
                Ok((Accumulator::SumFloat { total, seen: true }, retained))
            },
            (Accumulator::Extreme { least, value }, Some(candidate)) => {
                let replace = match &value {
                    None => true,
                    Some(current) => match order_cells(&candidate, current) {
                        Order::Less => least,
                        Order::Greater => !least,
                        Order::Equal => false,
                    },
                };
                if !replace {
                    return Ok((Accumulator::Extreme { least, value }, retained));
                }
                let mut bytes = retained;
                if let Value::String(s) = &candidate {
                    let before = match &value {
                        Some(current) => value_bytes(current),
                        None => 0,
                    };
                    bytes = exchange(retained, before, byte_len(s.as_str()), limit)?;
                }
                Ok((Accumulator::Extreme { least, value: Some(candidate) }, bytes))
            },
            (Accumulator::AvgInt { total, count }, Some(Value::Int64(x))) => {
                match (total.checked_add(x as i128), count.checked_add(1)) {
                    (Some(total), Some(count)) => Ok(
                        (Accumulator::AvgInt { total, count }, retained),
                    ),
                    _ => Err(KernelError::ArithmeticOverflow { aggregate: "AVG" }),
                }
            },
            (Accumulator::AvgFloat { total, count }, Some(Value::Float64(x))) => {
                match count.checked_add(1) {
                    Some(count) => {
                        let total = ask_bits(f, FloatRequest::Sum(total, x));
                        Ok((Accumulator::AvgFloat { total, count }, retained))
                    },
                    None => Err(KernelError::ArithmeticOverflow { aggregate: "AVG" }),
                }
            },
            (state, _) => Ok((state, retained)),
        }
    }

    fn result<F: Fn(FloatRequest) -> FloatReply>(&self, f: &F) -> (r: AggregateResult)
        requires
            answers_floats(*f),
        ensures
            r@ == tally_result(self@, float_model(*f)),
    {
        match self {
            Accumulator::Count(n) => AggregateResult::Count(*n),
            Accumulator::SumInt { total, seen } => AggregateResult::Sum(
                if *seen {
                    Some(SumValue::Int128(*total))
                } else {
                    None
                },
            ),
            Accumulator::SumFloat { total, seen } => AggregateResult::Sum(
                if *seen {
                    Some(SumValue::Float64(*total))
                } else {
                    None
                },
            ),
            Accumulator::Extreme { least, value } => {
                let known = match value {
                    Some(v) => ScalarValue::of(v.clone()),
                    None => None,
                };
                if *least {
                    AggregateResult::Min(known)
                } else {
                    AggregateResult::Max(known)
                }
            },
            Accumulator::AvgInt { total, count } => {
                if *count == 0 {
                    return AggregateResult::Avg(None);
                }
                let x = ask_bits(f, FloatRequest::FromInteger(*total));
                let y = ask_bits(f, FloatRequest::FromInteger(*count as i128));
                AggregateResult::Avg(Some(ask_bits(f, FloatRequest::Quotient(x, y))))
            },
            Accumulator::AvgFloat { total, count } => {
                if *count == 0 {
                    return AggregateResult::Avg(None);
                }
                let y = ask_bits(f, FloatRequest::FromInteger(*count as i128));
                AggregateResult::Avg(Some(ask_bits(f, FloatRequest::Quotient(*total, y))))
            },
        }
    }
}

/// `Vec::into_boxed_slice`: the elements, in their order, without spare room behind them.
#[verifier::external_body]
fn boxed<T>(items: Vec<T>) -> (slice: Box<[T]>)
    ensures
        slice@ == items@,
{
    items.into_boxed_slice()
}

/// A group: its keys, their hash, and the states of its aggregates.
#[derive(Debug)]
pub struct Group {
    hash: u64,
    keys: Box<[GroupKey]>,
    accumulators: Box<[Accumulator]>,
}

/// The content of a group.
pub struct GroupData {
    pub keys: Seq<Datum>,
    pub tallies: Seq<Tally>,
}

/// The contents of states.
pub open spec fn tallies_of(list: Seq<Accumulator>) -> Seq<Tally> {
    Seq::new(list.len(), |i: int| list[i]@)
}

impl View for Group {
    type V = GroupData;

    closed spec fn view(&self) -> GroupData {
        GroupData { keys: keys_of(self.keys@), tallies: tallies_of(self.accumulators@) }
    }
}

/// The contents of groups.
pub open spec fn groups_of(groups: Seq<Group>) -> Seq<GroupData> {
    Seq::new(groups.len(), |i: int| groups[i]@)
}

/// The bytes of a key itself.
pub open spec fn key_size() -> nat {
    size_of::<GroupKey>()
}

/// The bytes of a state itself.
pub open spec fn state_size() -> nat {
    size_of::<Accumulator>()
}

/// The bytes of a place for a group number.
pub open spec fn slot_size() -> nat {
    size_of::<Option<usize>>()
}

/// The bytes of a place for a group.
pub open spec fn group_size() -> nat {
    size_of::<Option<Group>>()
}

/// What grouping has found: the groups in the order of their first rows, and the bytes in use
/// now and at most.
pub struct Progress {
    pub groups: Seq<GroupData>,
    pub retained: usize,
    pub peak: usize,
}

/// The keys of a row.
pub open spec fn row_keys(parts: Seq<BatchColumn>, key_columns: Seq<usize>, row: int) -> Seq<Datum> {
    Seq::new(key_columns.len(), |i: int| key_of(parts[key_columns[i] as int].cell(row)))
}

/// The value of a row that an aggregate reads.
pub open spec fn cell_for(e: AggregateExpr, parts: Seq<BatchColumn>, row: int) -> Option<Datum> {
    match e.column {
        Some(c) => Some(parts[c as int].cell(row)),
        None => None,
    }
}

/// The first group from a position on with some keys.
pub open spec fn group_with(groups: Seq<GroupData>, keys: Seq<Datum>, i: int) -> Option<int>
    decreases groups.len() - i,
{
    if !(0 <= i < groups.len()) {
        None
    } else if groups[i].keys == keys {
        Some(i)
    } else {
        group_with(groups, keys, i + 1)
    }
}

/// The states behind a row from an aggregate on, and the bytes in use.
pub open spec fn tallies_from(
    tallies: Seq<Tally>,
    es: Seq<AggregateExpr>,
    parts: Seq<BatchColumn>,
    row: int,
    a: int,
    retained: usize,
    limit: usize,
    m: FloatModel,
) -> Result<(Seq<Tally>, usize), KernelFault>
    decreases es.len() - a,
{
    if !(0 <= a < es.len()) {
        Ok((tallies, retained))
    } else {
        match tallied(tallies[a], cell_for(es[a], parts, row), retained, limit, m) {
            Err(fault) => Err(fault),
            Ok((t, bytes)) => tallies_from(
                tallies.update(a, t),
                es,
                parts,
                row,
                a + 1,
                bytes,
                limit,
                m,
            ),
        }
    }
}

/// The bytes of the first `n` keys of a list.
pub open spec fn keys_bytes(keys: Seq<Datum>, n: int) -> nat
    decreases n,
{
    if n <= 0 {
        0
    } else {
        keys_bytes(keys, n - 1) + held_bytes(keys[n - 1])
    }
}

/// The bytes of the texts that the first `n` aggregates keep of a row.
pub open spec fn kept_bytes(es: Seq<AggregateExpr>, parts: Seq<BatchColumn>, row: int, n: int) -> nat
    decreases n,
{
    if n <= 0 {
        0
    } else {
        let e = es[n - 1];
        kept_bytes(es, parts, row, n - 1) + if e.kind == AggregateKind::Min || e.kind
            == AggregateKind::Max {
            held_by(cell_for(e, parts, row))
        } else {
            0
        }
    }
}

/// The bytes of a new group but for the texts that its aggregates keep.
pub open spec fn bare_bytes(keys: Seq<Datum>, es: nat) -> nat {
    keys.len() * key_size() + keys_bytes(keys, keys.len() as int) + es * state_size()
}

/// What grouping has found behind one more row.
pub open spec fn progress_with(
    p: Progress,
    parts: Seq<BatchColumn>,
    key_columns: Seq<usize>,
    es: Seq<AggregateExpr>,
    row: int,
    config: GroupByConfig,
    m: FloatModel,
) -> Result<Progress, KernelFault> {
    let keys = row_keys(parts, key_columns, row);
    let limit = config.memory_limit_bytes;
    match group_with(p.groups, keys, 0) {
        Some(g) => match tallies_from(
            p.groups[g].tallies,
            es,
            parts,
            row,
            0,
            p.retained,
            limit,
            m,
        ) {
            Err(fault) => Err(fault),
            Ok((tallies, bytes)) => Ok(
                Progress {
                    groups: p.groups.update(g, GroupData { keys: p.groups[g].keys, tallies }),
                    retained: bytes,
                    peak: if bytes > p.peak {
                        bytes
                    } else {
                        p.peak
                    },
                },
            ),
        },
        None => {
            let bare = bare_bytes(keys, es.len());
            let estimate = bare + kept_bytes(es, parts, row, es.len() as int);
            if p.groups.len() == config.max_groups {
                Err(KernelFault::GroupLimitExceeded { max_groups: config.max_groups })
            } else if estimate > usize::MAX {
                Err(memory_fault(usize::MAX, usize::MAX))
            } else if p.retained + estimate > usize::MAX {
                Err(memory_fault(usize::MAX, limit))
            } else if p.retained + estimate > limit {
                Err(memory_fault((p.retained + estimate) as usize, limit))
            } else {
                match tallies_from(
                    Seq::new(es.len(), |a: int| fresh(es[a], parts)),
                    es,
                    parts,
                    row,
                    0,
                    (p.retained + bare) as usize,
                    limit,
                    m,
                ) {
                    Err(fault) => Err(fault),
                    Ok((tallies, bytes)) => Ok(
                        Progress {
                            groups: p.groups.push(GroupData { keys, tallies }),
                            retained: bytes,
                            peak: if bytes > p.peak {
                                bytes
                            } else {
                                p.peak
                            },
                        },
                    ),
                }
            }
        },
    }
}

/// What grouping has found behind the selected rows from a position on.
pub open spec fn progress_from(
    p: Progress,
    chosen: Seq<bool>,
    parts: Seq<BatchColumn>,
    key_columns: Seq<usize>,
    es: Seq<AggregateExpr>,
    row: int,
    config: GroupByConfig,
    m: FloatModel,
) -> Result<Progress, KernelFault>
    decreases chosen.len() - row,
{
    if !(0 <= row < chosen.len()) {
        Ok(p)
    } else if !chosen[row] {
        progress_from(p, chosen, parts, key_columns, es, row + 1, config, m)
    } else {
        match progress_with(p, parts, key_columns, es, row, config, m) {
            Err(fault) => Err(fault),
            Ok(next) => progress_from(next, chosen, parts, key_columns, es, row + 1, config, m),
        }
    }
}

/// The first power of two from `p` on that is no less than a number.
pub open spec fn power_from(p: nat, x: nat) -> nat
    decreases
            (if p < x {
                x - p
            } else {
                0
            }),
{
    if p >= x || p == 0 {
        p
    } else {
        power_from(2 * p, x)
    }
}

/// The number of places for group numbers: a power of two, at least two for each group.
pub open spec fn slot_count(max_groups: usize) -> nat {
    power_from(1, 2 * (if max_groups == 0 { 1 } else { max_groups as nat }))
}

/// The bytes of a grouping without groups.
pub open spec fn base_bytes(max_groups: usize) -> nat {
    slot_count(max_groups) * slot_size() + max_groups as nat * group_size()
}

/// What the keys from a position on are refused for.
pub open spec fn keys_fault(parts: Seq<BatchColumn>, key_columns: Seq<usize>, i: int) -> Option<
    KernelFault,
>
    decreases key_columns.len() - i,
{
    if !(0 <= i < key_columns.len()) {
        None
    } else if key_columns[i] >= parts.len() {
        Some(missing_column(key_columns[i], parts.len()))
    } else {
        keys_fault(parts, key_columns, i + 1)
    }
}

/// What an aggregate is refused for.
pub open spec fn aggregate_fault(parts: Seq<BatchColumn>, e: AggregateExpr) -> Option<KernelFault> {
    match e.column {
        None => if e.kind == AggregateKind::Count {
            None
        } else {
            Some(
                KernelFault::InvalidAggregate {
                    aggregate: e.kind.text(),
                    reason: "a column is required"@,
                },
            )
        },
        Some(c) => if c >= parts.len() {
            Some(missing_column(c, parts.len()))
        } else if (e.kind == AggregateKind::Sum || e.kind == AggregateKind::Avg) && !(
        parts[c as int].kind() == BatchType::Int64 || parts[c as int].kind()
            == BatchType::Float64) {
            Some(
                KernelFault::UnsupportedAggregate {
                    aggregate: e.kind.text(),
                    data_type: parts[c as int].kind().text(),
                },
            )
        } else {
            None
        },
    }
}

/// What the aggregates from a position on are refused for.
pub open spec fn aggregates_fault(parts: Seq<BatchColumn>, es: Seq<AggregateExpr>, i: int) -> Option<
    KernelFault,
>
    decreases es.len() - i,
{
    if !(0 <= i < es.len()) {
        None
    } else {
        match aggregate_fault(parts, es[i]) {
            Some(fault) => Some(fault),
            None => aggregates_fault(parts, es, i + 1),
        }
    }
}

/// The grouping of the selected rows of a batch.
pub open spec fn grouping_of(
    batch: RecordBatch,
    key_columns: Seq<usize>,
    es: Seq<AggregateExpr>,
    config: GroupByConfig,
    m: FloatModel,
) -> Result<Progress, KernelFault> {
    let parts = batch.parts();
    let base = base_bytes(config.max_groups);
    match keys_fault(parts, key_columns, 0) {
        Some(fault) => Err(fault),
        None => match aggregates_fault(parts, es, 0) {
            Some(fault) => Err(fault),
            None => if slot_count(config.max_groups) > usize::MAX || base > usize::MAX {
                Err(KernelFault::InvalidCapacity { capacity: config.max_groups })
            } else if base > config.memory_limit_bytes {
                Err(memory_fault(base as usize, config.memory_limit_bytes))
            } else {
                progress_from(
                    Progress {
                        groups: Seq::empty(),
                        retained: base as usize,
                        peak: base as usize,
                    },
                    batch.chosen(),
                    parts,
                    key_columns,
                    es,
                    0,
                    config,
                    m,
                )
            },
        },
    }
}

/// The groups of a batch.
#[derive(Debug)]
pub struct GroupedResults {
    slots: SlotTable,
    groups: Vec<Group>,
    retained_bytes: usize,
    peak_retained_bytes: usize,
    memory_limit_bytes: usize,
}

/// One group of a grouping.
#[derive(Debug, Clone, Copy)]
pub struct GroupView<'a> {
    group: &'a Group,
}

impl<'a> GroupView<'a> {
    /// The content of the group.
    pub closed spec fn data(&self) -> GroupData {
        self.group@
    }

    /// The keys of the group.
    pub fn keys(&self) -> (keys: &'a [GroupKey])
        ensures
            keys_of(keys@) == self.data().keys,
    {
        &self.group.keys
    }

    /// The number of aggregates.
    pub fn aggregate_count(&self) -> (n: usize)
        ensures
            n == self.data().tallies.len(),
    {
        self.group.accumulators.len()
    }

    /// The result of an aggregate.
    pub fn aggregate<F: Fn(FloatRequest) -> FloatReply>(&self, index: usize, f: &F) -> (r: Option<
        AggregateResult,
    >)
        requires
            answers_floats(*f),
        ensures
            match r {
                Some(result) => index < self.data().tallies.len() && result@ == tally_result(
                    self.data().tallies[index as int],
                    float_model(*f),
                ),
                None => index >= self.data().tallies.len(),
            },
    {
        if index < self.group.accumulators.len() {
            Some(self.group.accumulators[index].result(f))
        } else {
            None
        }
    }
}

impl View for GroupedResults {
    type V = Progress;

    closed spec fn view(&self) -> Progress {
        Progress {
            groups: groups_of(self.groups@),
            retained: self.retained_bytes,
            peak: self.peak_retained_bytes,
        }
    }
}

impl GroupedResults {
    /// The memory limit.
    pub closed spec fn limit(&self) -> usize {
        self.memory_limit_bytes
    }

    /// The number of groups.
    pub fn len(&self) -> (n: usize)
        ensures
            n == self@.groups.len(),
    {
        self.groups.len()
    }

    /// Whether there are no groups.
    pub fn is_empty(&self) -> (r: bool)
        ensures
            r == (self@.groups.len() == 0),
    {
        self.groups.len() == 0
    }

    /// The groups in the order of their first rows.
    pub fn iter(&self) -> (views: Vec<GroupView<'_>>)
        ensures
            views@.len() == self@.groups.len(),
            forall|i: int| 0 <= i < views@.len() ==> (#[trigger] views@[i]).data() == self@.groups[i],
    {
        let mut views: Vec<GroupView<'_>> = Vec::new();
        let mut i: usize = 0;
        while i < self.groups.len()
            invariant
                i <= self.groups.len(),
                views@.len() == i,
                forall|k: int|
                    0 <= k < i ==> (#[trigger] views@[k]).data() == self@.groups[k],
            decreases self.groups.len() - i,
        {
            views.push(GroupView { group: &self.groups[i] });
            i = i + 1;
        }
        views
    }

    /// The bytes in use.
    pub fn retained_bytes(&self) -> (n: usize)
        ensures
            n == self@.retained,
    {
        self.retained_bytes
    }

    /// The bytes in use at most.
    pub fn peak_retained_bytes(&self) -> (n: usize)
        ensures
            n == self@.peak,
    {
        self.peak_retained_bytes
    }

    /// The memory limit.
    pub fn memory_limit_bytes(&self) -> (n: usize)
        ensures
            n == self.limit(),
    {
        self.memory_limit_bytes
    }

    spec fn hashes(&self) -> Seq<u64> {
        Seq::new(self.groups@.len(), |i: int| self.groups@[i].hash)
    }

    spec fn wf(&self, config: GroupByConfig, es: nat) -> bool {
        &&& self.slots.wf(self.hashes())
        &&& self.slots.size() >= 2 * config.max_groups
        &&& self.slots.size() >= 2
        &&& self.slots.size() <= u64::MAX
        &&& self.groups@.len() <= config.max_groups
        &&& self.memory_limit_bytes == config.memory_limit_bytes
        &&& forall|g: int|
            #![trigger self.groups@[g]]
            0 <= g < self.groups@.len() ==> self.groups@[g].hash == mixed_data(
                FNV_OFFSET,
                self.groups@[g]@.keys,
                self.groups@[g]@.keys.len() as int,
            ) && self.groups@[g].accumulators@.len() == es
        &&& forall|g: int, h: int|
            #![trigger self.groups@[g], self.groups@[h]]
            0 <= g < h < self.groups@.len() ==> self.groups@[g]@.keys != self.groups@[h]@.keys
    }
}

proof fn powers_grow(p: nat, x: nat)
    requires
        p > 0,
    ensures
        power_from(p, x) >= p,
        power_from(p, x) >= x,
    decreases
            (if p < x {
                x - p
            } else {
                0
            }),
{
    if p < x {
        powers_grow(2 * p, x);
    }
}

fn count_slots(max_groups: usize) -> (r: Option<usize>)
    ensures
        match r {
            Some(n) => n == slot_count(max_groups),
            None => slot_count(max_groups) > usize::MAX,
        },
{
    let groups = if max_groups == 0 {
        1
    } else {
        max_groups
    };
    let mut p: usize = 1;
    let ghost x = 2 * groups as nat;
    while p < groups || p - groups < groups
        invariant
            p > 0,
            groups == (if max_groups == 0 {
                1
            } else {
                max_groups
            }),
            x == 2 * groups,
            power_from(1, x) == power_from(p as nat, x),
        decreases
                (if p < x {
                    x - p
                } else {
                    0
                }),
    {
        if p > usize::MAX / 2 {
            proof {
                powers_grow((2 * p) as nat, x);
            }
            return None;
        }
        p = 2 * p;
    }
    Some(p)
}

/// A number of bytes, where it is in range.
spec fn in_range(n: nat) -> Option<usize> {
    if n <= usize::MAX {
        Some(n as usize)
    } else {
        None
    }
}

fn plus(a: Option<usize>, b: usize, Ghost(n): Ghost<nat>) -> (r: Option<usize>)
    requires
        a == in_range(n),
    ensures
        r == in_range(n + b as nat),
{
    match a {
        Some(a) => a.checked_add(b),
        None => None,
    }
}

fn times(a: usize, b: usize) -> (r: Option<usize>)
    ensures
        r == in_range(a as nat * b as nat),
{
    a.checked_mul(b)
}

fn both(a: Option<usize>, b: Option<usize>, Ghost(x): Ghost<nat>, Ghost(y): Ghost<nat>) -> (r: Option<
    usize,
>)
    requires
        a == in_range(x),
        b == in_range(y),
    ensures
        r == in_range(x + y),
{
    match (a, b) {
        (Some(a), Some(b)) => a.checked_add(b),
        _ => None,
    }
}

fn base_retained(max_groups: usize) -> (r: Option<(usize, usize)>)
    ensures
        match r {
            Some((slots, base)) => slots == slot_count(max_groups) && base == base_bytes(max_groups),
            None => slot_count(max_groups) > usize::MAX || base_bytes(max_groups) > usize::MAX,
        },
{
    let slots = match count_slots(max_groups) {
        Some(n) => n,
        None => return None,
    };
    let places = times(slots, core::mem::size_of::<Option<usize>>());
    let room = times(max_groups, core::mem::size_of::<Option<Group>>());
    match both(
        places,
        room,
        Ghost(slots as nat * slot_size()),
        Ghost(max_groups as nat * group_size()),
    ) {
        Some(base) => Some((slots, base)),
        None => None,
    }
}

/// Whether the columns of keys and aggregates are there.
spec fn fits(parts: Seq<BatchColumn>, key_columns: Seq<usize>, es: Seq<AggregateExpr>) -> bool {
    &&& forall|i: int| 0 <= i < key_columns.len() ==> #[trigger] key_columns[i] < parts.len()
    &&& forall|i: int|
        0 <= i < es.len() ==> ((#[trigger] es[i]).column matches Some(c) ==> c < parts.len())
}

#[verifier::loop_isolation(false)]
fn validate(batch: &RecordBatch, key_columns: &Vec<usize>, es: &Vec<AggregateExpr>) -> (r: Result<
    (),
    KernelError,
>)
    ensures
        match r {
            Ok(_) => keys_fault(batch.parts(), key_columns@, 0) is None && aggregates_fault(
                batch.parts(),
                es@,
                0,
            ) is None && fits(batch.parts(), key_columns@, es@),
            Err(e) => match keys_fault(batch.parts(), key_columns@, 0) {
                Some(fault) => e@ == fault,
                None => aggregates_fault(batch.parts(), es@, 0) == Some(e@),
            },
        },
{
    let ghost parts = batch.parts();
    let mut i: usize = 0;
    while i < key_columns.len()
        invariant
            i <= key_columns.len(),
            keys_fault(parts, key_columns@, 0) == keys_fault(parts, key_columns@, i as int),
            forall|k: int| 0 <= k < i ==> #[trigger] key_columns@[k] < parts.len(),
        decreases key_columns.len() - i,
    {
        let _ = batch.column(key_columns[i])?;
        i = i + 1;
    }
    let mut a: usize = 0;
    while a < es.len()
        invariant
            a <= es.len(),
            aggregates_fault(parts, es@, 0) == aggregates_fault(parts, es@, a as int),
            forall|k: int|
                0 <= k < a ==> ((#[trigger] es@[k]).column matches Some(c) ==> c < parts.len()),
        decreases es.len() - a,
    {
        match es[a].column {
            None => {
                if es[a].kind != AggregateKind::Count {
                    return Err(
                        KernelError::InvalidAggregate {
                            aggregate: es[a].kind.name(),
                            reason: "a column is required",
                        },
                    );
                }
            },
            Some(c) => {
                let column = batch.column(c)?;
                let numeric = column.data_type() == BatchType::Int64 || column.data_type()
                    == BatchType::Float64;
                if (es[a].kind == AggregateKind::Sum || es[a].kind == AggregateKind::Avg)
                    && !numeric {
                    return Err(
                        KernelError::UnsupportedAggregate {
                            aggregate: es[a].kind.name(),
                            data_type: column.data_type().name(),
                        },
                    );
                }
            },
        }
        a = a + 1;
    }
    Ok(())
}

fn cell_of(batch: &RecordBatch, column: usize, row: usize) -> (value: Value)
    requires
        batch.wf(),
        column < batch.parts().len(),
        row < batch.chosen().len(),
    ensures
        value@ == batch.parts()[column as int].cell(row as int),
{
    proof {
        batch.columns_have_all_rows();
    }
    match batch.column(column) {
        Ok(array) => array.value(row),
        Err(_) => Value::Null,
    }
}

#[verifier::loop_isolation(false)]
fn build_keys(batch: &RecordBatch, row: usize, key_columns: &Vec<usize>) -> (keys: Vec<GroupKey>)
    requires
        batch.wf(),
        row < batch.chosen().len(),
        forall|i: int| 0 <= i < key_columns@.len() ==> #[trigger] key_columns@[i] < batch.parts().len(),
    ensures
        keys_of(keys@) == row_keys(batch.parts(), key_columns@, row as int),
{
    let ghost goal = row_keys(batch.parts(), key_columns@, row as int);
    let mut keys: Vec<GroupKey> = Vec::new();
    let mut i: usize = 0;
    while i < key_columns.len()
        invariant
            i <= key_columns.len(),
            keys@.len() == i,
            forall|k: int| 0 <= k < i ==> (#[trigger] keys@[k])@ == goal[k],
        decreases key_columns.len() - i,
    {
        keys.push(GroupKey::of(cell_of(batch, key_columns[i], row)));
        i = i + 1;
    }
    assert(keys_of(keys@) =~= goal);
    keys
}

fn hash_keys(keys: &Vec<GroupKey>) -> (hash: u64)
    ensures
        hash == mixed_data(FNV_OFFSET, keys_of(keys@), keys@.len() as int),
{
    let mut hash: u64 = FNV_OFFSET;
    let mut i: usize = 0;
    while i < keys.len()
        invariant
            i <= keys.len(),
            hash == mixed_data(FNV_OFFSET, keys_of(keys@), i as int),
        decreases keys.len() - i,
    {
        assert(keys_of(keys@)[i as int] == keys@[i as int]@);
        hash = keys[i].mix_into(hash);
        i = i + 1;
    }
    hash
}

fn same_keys(a: &[GroupKey], b: &[GroupKey]) -> (r: bool)
    ensures
        r == (keys_of(a@) == keys_of(b@)),
{
    if a.len() != b.len() {
        assert(keys_of(a@).len() != keys_of(b@).len());
        return false;
    }
    let mut i: usize = 0;
    while i < a.len()
        invariant
            i <= a.len(),
            a.len() == b.len(),
            forall|k: int| 0 <= k < i ==> (#[trigger] a@[k])@ == b@[k]@,
        decreases a.len() - i,
    {
        if !a[i].same(&b[i]) {
            assert(keys_of(a@)[i as int] != keys_of(b@)[i as int]);
            return false;
        }
        i = i + 1;
    }
    assert(keys_of(a@) =~= keys_of(b@));
    true
}

#[verifier::loop_isolation(false)]
fn estimate_group_bytes(
    batch: &RecordBatch,
    row: usize,
    keys: &Vec<GroupKey>,
    es: &Vec<AggregateExpr>,
) -> (r: (Option<usize>, Option<usize>))
    requires
        batch.wf(),
        row < batch.chosen().len(),
        forall|i: int|
            0 <= i < es@.len() ==> ((#[trigger] es@[i]).column matches Some(c) ==> c
                < batch.parts().len()),
    ensures
        r.0 == in_range(bare_bytes(keys_of(keys@), es@.len())),
        r.1 == in_range(
            bare_bytes(keys_of(keys@), es@.len()) + kept_bytes(
                es@,
                batch.parts(),
                row as int,
                es@.len() as int,
            ),
        ),
{
    let ghost parts = batch.parts();
    let ghost list = keys_of(keys@);
    let mut texts: Option<usize> = Some(0);
    let mut i: usize = 0;
    while i < keys.len()
        invariant
            i <= keys.len(),
            texts == in_range(keys_bytes(list, i as int)),
        decreases keys.len() - i,
    {
        assert(list[i as int] == keys@[i as int]@);
        texts = plus(texts, keys[i].retained_bytes(), Ghost(keys_bytes(list, i as int)));
        i = i + 1;
    }
    let own = times(keys.len(), core::mem::size_of::<GroupKey>());
    let states = times(es.len(), core::mem::size_of::<Accumulator>());
    let ghost own_bytes = keys@.len() * key_size();
    let ghost state_bytes = es@.len() * state_size();
    let ghost text_bytes = keys_bytes(list, keys@.len() as int);
    let with_texts = both(own, texts, Ghost(own_bytes), Ghost(text_bytes));
    let bare = both(with_texts, states, Ghost(own_bytes + text_bytes), Ghost(state_bytes));
    let mut kept: Option<usize> = Some(0);
    let mut a: usize = 0;
    while a < es.len()
        invariant
            a <= es.len(),
            kept == in_range(kept_bytes(es@, parts, row as int, a as int)),
        decreases es.len() - a,
    {
        if es[a].kind == AggregateKind::Min || es[a].kind == AggregateKind::Max {
            if let Some(c) = es[a].column {
                assert(es@[a as int].column == Some(c));
                let value = cell_of(batch, c, row);
                kept = plus(
                    kept,
                    value_bytes(&value),
                    Ghost(kept_bytes(es@, parts, row as int, a as int)),
                );
            }
        }
        a = a + 1;
    }
    let all = both(
        bare,
        kept,
        Ghost(own_bytes + text_bytes + state_bytes),
        Ghost(kept_bytes(es@, parts, row as int, es@.len() as int)),
    );
    (bare, all)
}

#[verifier::loop_isolation(false)]
fn update_all<F: Fn(FloatRequest) -> FloatReply>(
    list: Vec<Accumulator>,
    batch: &RecordBatch,
    row: usize,
    es: &Vec<AggregateExpr>,
    retained: usize,
    limit: usize,
    f: &F,
) -> (r: Result<(Vec<Accumulator>, usize), KernelError>)
    requires
        batch.wf(),
        row < batch.chosen().len(),
        list@.len() == es@.len(),
        forall|i: int|
            0 <= i < es@.len() ==> ((#[trigger] es@[i]).column matches Some(c) ==> c
                < batch.parts().len()),
        answers_floats(*f),
    ensures
        match r {
            Ok((after, bytes)) => tallies_from(
                tallies_of(list@),
                es@,
                batch.parts(),
                row as int,
                0,
                retained,
                limit,
                float_model(*f),
            ) == Ok::<_, KernelFault>((tallies_of(after@), bytes)) && after@.len() == es@.len(),
            Err(e) => tallies_from(
                tallies_of(list@),
                es@,
                batch.parts(),
                row as int,
                0,
                retained,
                limit,
                float_model(*f),
            ) == Err::<(Seq<Tally>, usize), _>(e@),
        },
{
    let ghost m = float_model(*f);
    let ghost parts = batch.parts();
    let ghost first = tallies_of(list@);
    let mut after = list;
    let mut bytes = retained;
    let mut a: usize = 0;
    while a < es.len()
        invariant
            a <= es.len(),
            after@.len() == es@.len(),
            tallies_from(first, es@, parts, row as int, 0, retained, limit, m) == tallies_from(
                tallies_of(after@),
                es@,
                parts,
                row as int,
                a as int,
                bytes,
                limit,
                m,
            ),
        decreases es.len() - a,
    {
        let ghost before = tallies_of(after@);
        let cell = match es[a].column {
            Some(c) => {
                assert(es@[a as int].column == Some(c));
                Some(cell_of(batch, c, row))
            },
            None => None,
        };
        let mut state = Accumulator::Count(0);
        std::mem::swap(&mut state, &mut after[a]);
        assert(before[a as int] == state@);
        let (next, used) = state.update(cell, bytes, limit, f)?;
        after[a] = next;
        assert(tallies_of(after@) =~= before.update(a as int, next@));
        bytes = used;
        a = a + 1;
    }
    Ok((after, bytes))
}

proof fn group_is_found(groups: Seq<GroupData>, keys: Seq<Datum>, i: int, g: int)
    requires
        0 <= i <= g < groups.len(),
        groups[g].keys == keys,
        forall|k: int| i <= k < g ==> (#[trigger] groups[k]).keys != keys,
    ensures
        group_with(groups, keys, i) == Some(g),
    decreases g - i,
{
    if i < g {
        assert(groups[i].keys != keys);
        group_is_found(groups, keys, i + 1, g);
    }
}

proof fn group_is_absent(groups: Seq<GroupData>, keys: Seq<Datum>, i: int)
    requires
        0 <= i,
        forall|k: int| i <= k < groups.len() ==> (#[trigger] groups[k]).keys != keys,
    ensures
        group_with(groups, keys, i) is None,
    decreases groups.len() - i,
{
    if i < groups.len() {
        assert(groups[i].keys != keys);
        group_is_absent(groups, keys, i + 1);
    }
}

impl GroupedResults {
    #[verifier::loop_isolation(false)]
    fn lookup(&self, hash: u64, keys: &Vec<GroupKey>, Ghost(config): Ghost<GroupByConfig>, Ghost(es): Ghost<nat>) -> (r:
        Result<usize, usize>)
        requires
            self.wf(config, es),
            hash == mixed_data(FNV_OFFSET, keys_of(keys@), keys@.len() as int),
        ensures
            match r {
                Ok(g) => g < self.groups@.len() && group_with(self@.groups, keys_of(keys@), 0)
                    == Some(g as int) && self.groups@[g as int]@.keys == keys_of(keys@),
                Err(step) => {
                    &&& step < self.slots.size()
                    &&& self.slots.at(hash, step as int) is None
                    &&& forall|e: int| 0 <= e < step ==> (#[trigger] self.slots.at(hash, e)) is Some
                    &&& group_with(self@.groups, keys_of(keys@), 0) is None
                    &&& forall|k: int|
                        0 <= k < self.groups@.len() ==> (#[trigger] self.groups@[k])@.keys
                            != keys_of(keys@)
                },
            },
    {
        let ghost wanted = keys_of(keys@);
        let ghost hashes = self.hashes();
        let places = self.slots.len();
        let mut step: usize = 0;
        loop
            invariant
                step <= places,
                forall|e: int|
                    0 <= e < step ==> ((#[trigger] self.slots.at(hash, e)) matches Some(g) && (g
                        < self.groups@.len() ==> self.groups@[g as int]@.keys != wanted)),
            decreases places - step,
        {
            proof {
                self.slots.probes_end(hashes, hash, step as int);
            }
            match self.slots.probe(hash, step) {
                Some(g) => {
                    if g < self.groups.len() && self.groups[g].hash == hash && same_keys(
                        &self.groups[g].keys,
                        keys,
                    ) {
                        proof {
                            let groups = self@.groups;
                            assert(groups[g as int] == self.groups@[g as int]@);
                            assert forall|k: int| 0 <= k < g implies (#[trigger] groups[k]).keys
                                != wanted by {
                                assert(groups[k] == self.groups@[k]@);
                            }
                            group_is_found(groups, wanted, 0, g as int);
                        }
                        return Ok(g);
                    }
                    proof {
                        if g < self.groups@.len() && self.groups@[g as int]@.keys == wanted {
                            assert(self.groups@[g as int].hash == hash);
                        }
                    }
                    step = step + 1;
                },
                None => {
                    proof {
                        let groups = self@.groups;
                        assert forall|k: int| 0 <= k < self.groups@.len() implies (
                        #[trigger] self.groups@[k])@.keys != wanted by {
                            if self.groups@[k]@.keys == wanted {
                                assert(hashes[k] == hash);
                                let met = self.slots.groups_are_met(hashes, k);
                                if met < step {
                                    assert(self.slots.at(hash, met) is Some);
                                } else if met > step {
                                    assert(self.slots.at(hash, step as int) is Some);
                                }
                            }
                        }
                        assert forall|k: int| 0 <= k < groups.len() implies (#[trigger] groups[k]).keys
                            != wanted by {
                            assert(groups[k] == self.groups@[k]@);
                        }
                        group_is_absent(groups, wanted, 0);
                    }
                    return Err(step);
                },
            }
        }
    }

    fn update_existing<F: Fn(FloatRequest) -> FloatReply>(
        &mut self,
        g: usize,
        batch: &RecordBatch,
        row: usize,
        es: &Vec<AggregateExpr>,
        f: &F,
        Ghost(config): Ghost<GroupByConfig>,
    ) -> (r: Result<(), KernelError>)
        requires
            old(self).wf(config, es@.len()),
            g < old(self).groups@.len(),
            batch.wf(),
            row < batch.chosen().len(),
            forall|i: int|
                0 <= i < es@.len() ==> ((#[trigger] es@[i]).column matches Some(c) ==> c
                    < batch.parts().len()),
            answers_floats(*f),
        ensures
            ({
                let p = old(self)@;
                let stated = tallies_from(
                    p.groups[g as int].tallies,
                    es@,
                    batch.parts(),
                    row as int,
                    0,
                    p.retained,
                    config.memory_limit_bytes,
                    float_model(*f),
                );
                match r {
                    Ok(_) => {
                        &&& final(self).wf(config, es@.len())
                        &&& stated matches Ok((tallies, bytes))
                        &&& final(self)@.groups == p.groups.update(
                            g as int,
                            GroupData { keys: p.groups[g as int].keys, tallies },
                        )
                        &&& final(self)@.retained == bytes
                        &&& final(self)@.peak == (if bytes > p.peak {
                            bytes
                        } else {
                            p.peak
                        })
                    },
                    Err(e) => stated == Err::<(Seq<Tally>, usize), _>(e@),
                }
            }),
    {
        let ghost start = *self;
        let ghost before = self@.groups;
        assert(before[g as int] == self.groups@[g as int]@);
        let mut group = Group {
            hash: 0,
            keys: boxed(Vec::new()),
            accumulators: boxed(Vec::new()),
        };
        std::mem::swap(&mut group, &mut self.groups[g]);
        assert(group == start.groups@[g as int]);
        let Group { hash, keys, accumulators } = group;
        let (after, bytes) = update_all(
            accumulators.into_vec(),
            batch,
            row,
            es,
            self.retained_bytes,
            self.memory_limit_bytes,
            f,
        )?;
        let updated = Group { hash, keys, accumulators: boxed(after) };
        self.groups[g] = updated;
        self.retained_bytes = bytes;
        if bytes > self.peak_retained_bytes {
            self.peak_retained_bytes = bytes;
        }
        proof {
            assert(self.groups@ =~= start.groups@.update(g as int, updated));
            assert(self@.groups =~= before.update(
                g as int,
                GroupData { keys: before[g as int].keys, tallies: tallies_of(after@) },
            ));
            assert(self.hashes() =~= start.hashes());
            assert forall|a: int, b: int|
                #![trigger self.groups@[a], self.groups@[b]]
                0 <= a < b < self.groups@.len() implies self.groups@[a]@.keys
                != self.groups@[b]@.keys by {
                assert(start.groups@[a]@.keys != start.groups@[b]@.keys);
            }
        }
        Ok(())
    }

    #[verifier::loop_isolation(false)]
    fn insert_or_update<F: Fn(FloatRequest) -> FloatReply>(
        &mut self,
        batch: &RecordBatch,
        row: usize,
        key_columns: &Vec<usize>,
        es: &Vec<AggregateExpr>,
        config: GroupByConfig,
        f: &F,
    ) -> (r: Result<(), KernelError>)
        requires
            old(self).wf(config, es@.len()),
            batch.wf(),
            row < batch.chosen().len(),
            fits(batch.parts(), key_columns@, es@),
            answers_floats(*f),
        ensures
            match r {
                Ok(_) => final(self).wf(config, es@.len()) && progress_with(
                    old(self)@,
                    batch.parts(),
                    key_columns@,
                    es@,
                    row as int,
                    config,
                    float_model(*f),
                ) == Ok::<_, KernelFault>(final(self)@),
                Err(e) => progress_with(
                    old(self)@,
                    batch.parts(),
                    key_columns@,
                    es@,
                    row as int,
                    config,
                    float_model(*f),
                ) == Err::<Progress, _>(e@),
            },
    {
        let ghost start = *self;
        let ghost m = float_model(*f);
        let ghost parts = batch.parts();
        let limit = config.memory_limit_bytes;
        let keys = build_keys(batch, row, key_columns);
        let hash = hash_keys(&keys);
        let step = match self.lookup(hash, &keys, Ghost(config), Ghost(es@.len())) {
            Ok(g) => {
                assert(start@.groups[g as int] == start.groups@[g as int]@);
                return self.update_existing(g, batch, row, es, f, Ghost(config));
            },
            Err(step) => step,
        };
        if self.groups.len() == config.max_groups {
            return Err(KernelError::GroupLimitExceeded { max_groups: config.max_groups });
        }
        let (bare, all) = estimate_group_bytes(batch, row, &keys, es);
        let estimate = match all {
            Some(n) => n,
            None => return Err(memory_error(usize::MAX, usize::MAX)),
        };
        let required = match self.retained_bytes.checked_add(estimate) {
            Some(n) => n,
            None => return Err(memory_error(usize::MAX, limit)),
        };
        if required > limit {
            return Err(memory_error(required, limit));
        }
        let own = match bare {
            Some(n) => n,
            None => 0,
        };
        let mut list: Vec<Accumulator> = Vec::new();
        let ghost goal = Seq::new(es@.len(), |a: int| fresh(es@[a], parts));
        let mut a: usize = 0;
        while a < es.len()
            invariant
                a <= es.len(),
                *self == start,
                list@.len() == a,
                forall|k: int| 0 <= k < a ==> (#[trigger] list@[k])@ == goal[k],
            decreases es.len() - a,
        {
            assert(es@[a as int].column matches Some(c) ==> c < parts.len());
            list.push(Accumulator::new(&es[a], batch));
            a = a + 1;
        }
        assert(tallies_of(list@) =~= goal);
        let (accumulators, bytes) = update_all(
            list,
            batch,
            row,
            es,
            self.retained_bytes + own,
            limit,
            f,
        )?;
        let g = self.groups.len();
        let group = Group { hash, keys: boxed(keys), accumulators: boxed(accumulators) };
        assert(start.hashes().len() == g);
        self.slots.insert(hash, step, g, Ghost(start.hashes()));
        self.groups.push(group);
        self.retained_bytes = bytes;
        if bytes > self.peak_retained_bytes {
            self.peak_retained_bytes = bytes;
        }
        proof {
            assert(self.hashes() =~= start.hashes().push(hash));
            assert(self@.groups =~= start@.groups.push(group@));
            assert forall|x: int, y: int|
                #![trigger self.groups@[x], self.groups@[y]]
                0 <= x < y < self.groups@.len() implies self.groups@[x]@.keys
                != self.groups@[y]@.keys by {
                assert(self.groups@[x] == start.groups@[x]);
                if y < g {
                    assert(self.groups@[y] == start.groups@[y]);
                }
            }
        }
        Ok(())
    }
}

/// No groups yet, with room for all of them where so many bytes can be addressed.
fn places(max_groups: usize, bytes: usize) -> (groups: Vec<Group>)
    ensures
        groups@.len() == 0,
{
    if bytes <= isize::MAX as usize {
        Vec::with_capacity(max_groups)
    } else {
        Vec::new()
    }
}

/// Groups the selected rows of a batch by keys, and computes aggregates of each group.
///
/// Groups stand in the order of their first rows. The number of groups and the bytes in use
/// never exceed their bounds.
#[verifier::loop_isolation(false)]
pub fn hash_group<F: Fn(FloatRequest) -> FloatReply>(
    batch: &RecordBatch,
    key_columns: &Vec<usize>,
    aggregates: &Vec<AggregateExpr>,
    config: GroupByConfig,
    f: &F,
) -> (r: Result<GroupedResults, KernelError>)
    requires
        batch.wf(),
        answers_floats(*f),
    ensures
        match r {
            Ok(results) => grouping_of(
                *batch,
                key_columns@,
                aggregates@,
                config,
                float_model(*f),
            ) == Ok::<_, KernelFault>(results@) && results.limit() == config.memory_limit_bytes,
            Err(e) => grouping_of(*batch, key_columns@, aggregates@, config, float_model(*f))
                == Err::<Progress, _>(e@),
        },
{
    let ghost m = float_model(*f);
    let ghost parts = batch.parts();
    validate(batch, key_columns, aggregates)?;
    let (slots, base) = match base_retained(config.max_groups) {
        Some(found) => found,
        None => return Err(KernelError::InvalidCapacity { capacity: config.max_groups }),
    };
    if base > config.memory_limit_bytes {
        return Err(memory_error(base, config.memory_limit_bytes));
    }
    proof {
        powers_grow(1, 2 * (if config.max_groups == 0 { 1 } else { config.max_groups as nat }));
    }
    let mut results = GroupedResults {
        slots: SlotTable::new(slots),
        groups: places(config.max_groups, base),
        retained_bytes: base,
        peak_retained_bytes: base,
        memory_limit_bytes: config.memory_limit_bytes,
    };
    let ghost first = results@;
    proof {
        assert(results.hashes() =~= Seq::<u64>::empty());
        assert(first.groups =~= Seq::<GroupData>::empty());
    }
    let n = batch.len();
    let mut row: usize = 0;
    while row < n
        invariant
            row <= n,
            results.wf(config, aggregates@.len()),
            progress_from(first, batch.chosen(), parts, key_columns@, aggregates@, 0, config, m)
                == progress_from(
                results@,
                batch.chosen(),
                parts,
                key_columns@,
                aggregates@,
                row as int,
                config,
                m,
            ),
        decreases n - row,
    {
        if batch.is_selected(row) {
            results.insert_or_update(batch, row, key_columns, aggregates, config, f)?;
        }
        row = row + 1;
    }
    Ok(results)
}

} // verus!
