//! Aggregate functions over evaluated values.

use vstd::prelude::*;
use crate::budget::{check_fits, datum_bytes, fits, sat_add, sat_mul, sat_product, sat_sum, text_bytes, value_bytes, Budget, FLOAT_BYTES, KEY_BYTES, LIST_BYTES};
use crate::float::{answers_floats, ask_bits, canonical, canonical_bits, finite, float_difference, float_from, float_model, float_product, float_quotient, float_sum, is_finite, FloatModel, FloatReply, FloatRequest};
use crate::scalar::{finite_datum, finite_float};
use crate::text::{byte_len, concat2, same_text, Order};
use crate::types::{data_of, datum_rank, datum_type_text, outcome, Datum, Error, Fault, Value};

verus! {

/// The bit pattern of one.
pub const ONE_BITS: u64 = 0x3ff0_0000_0000_0000;

/// The datum that stands for all data that group together.
pub open spec fn key_of(d: Datum) -> Datum {
    match d {
        Datum::Float64(b) => Datum::Float64(canonical_bits(b)),
        _ => d,
    }
}

/// Makes the value that stands for all values that group together.
pub fn value_key(value: &Value) -> (key: Value)
    ensures
        key@ == key_of(value@),
{
    match value {
        Value::Float64(b) => Value::Float64(canonical(*b)),
        _ => value.clone(),
    }
}

/// Bytes accounted for a grouping key.
pub open spec fn key_bytes(d: Datum) -> usize {
    sat_sum(KEY_BYTES, text_bytes(d))
}

/// Returns the bytes accounted for a grouping key.
pub fn key_value_bytes(key: &Value) -> (n: usize)
    ensures
        n == key_bytes(key@),
{
    match key {
        Value::String(s) => sat_add(KEY_BYTES, byte_len(s.as_str())),
        _ => sat_add(KEY_BYTES, 0),
    }
}

/// Decides whether two values hold the same datum.
pub fn same_value(a: &Value, b: &Value) -> (r: bool)
    ensures
        r == (a@ == b@),
{
    match (a, b) {
        (Value::Null, Value::Null) => true,
        (Value::Int64(x), Value::Int64(y)) => *x == *y,
        (Value::Float64(x), Value::Float64(y)) => *x == *y,
        (Value::Bool(x), Value::Bool(y)) => *x == *y,
        (Value::String(x), Value::String(y)) => same_text(x.as_str(), y.as_str()),
        _ => false,
    }
}

/// Decides whether a list of values holds a datum.
pub fn contains_value(values: &Vec<Value>, value: &Value) -> (r: bool)
    ensures
        r == data_of(values@).contains(value@),
{
    let mut i: usize = 0;
    while i < values.len()
        invariant
            i <= values.len(),
            forall|j: int| 0 <= j < i ==> data_of(values@)[j] != value@,
        decreases values.len() - i,
    {
        if same_value(&values[i], value) {
            assert(data_of(values@)[i as int] == value@);
            return true;
        }
        i += 1;
    }
    false
}

/// Whether one of the data from `i` on is a floating-point value.
pub open spec fn any_float(data: Seq<Datum>, i: int) -> bool
    decreases data.len() - i,
{
    0 <= i < data.len() && (data[i] is Float64 || any_float(data, i + 1))
}

/// A number as a floating-point value.
pub open spec fn number_bits(m: FloatModel, d: Datum) -> Option<u64> {
    match d {
        Datum::Int64(i) => Some(float_from(m, i as int)),
        Datum::Float64(b) => Some(b),
        _ => None,
    }
}

/// The floating-point sum of the data from `i` on, added to `total` one by one.
pub open spec fn float_total(m: FloatModel, data: Seq<Datum>, i: int, total: u64) -> Result<
    Datum,
    Fault,
>
    decreases data.len() - i,
{
    if i < 0 || i >= data.len() {
        finite_datum(total, "SUM result"@)
    } else {
        match number_bits(m, data[i]) {
            Some(b) => float_total(m, data, i + 1, float_sum(m, total, b)),
            None => Err(Fault::Type("SUM does not accept "@ + datum_type_text(data[i]))),
        }
    }
}

/// The integer sum of the data from `i` on, added to `total` one by one.
pub open spec fn int_total(data: Seq<Datum>, i: int, total: i64) -> Result<Datum, Fault>
    decreases data.len() - i,
{
    if i < 0 || i >= data.len() {
        Ok(Datum::Int64(total))
    } else {
        match data[i] {
            Datum::Int64(n) => if i64::MIN <= total + n <= i64::MAX {
                int_total(data, i + 1, (total + n) as i64)
            } else {
                Err(Fault::Type("SUM Int64 overflow"@))
            },
            d => Err(Fault::Type("SUM does not accept "@ + datum_type_text(d))),
        }
    }
}

/// The sum of data; floating-point as soon as one of them is.
pub open spec fn sum_datum(m: FloatModel, data: Seq<Datum>) -> Result<Datum, Fault> {
    if data.len() == 0 {
        Ok(Datum::Null)
    } else if any_float(data, 0) {
        float_total(m, data, 0, 0)
    } else {
        int_total(data, 0, 0)
    }
}

fn bits_of<F: Fn(FloatRequest) -> FloatReply>(value: &Value, f: &F) -> (r: Option<u64>)
    requires
        answers_floats(*f),
    ensures
        r == number_bits(float_model(*f), value@),
{
    match value {
        Value::Int64(i) => Some(ask_bits(f, FloatRequest::FromInteger(*i as i128))),
        Value::Float64(b) => Some(*b),
        _ => None,
    }
}

/// Sums values.
pub fn aggregate_sum<F: Fn(FloatRequest) -> FloatReply>(values: &Vec<Value>, f: &F) -> (r: Result<
    Value,
    Error,
>)
    requires
        answers_floats(*f),
    ensures
        outcome(r) == sum_datum(float_model(*f), data_of(values@)),
{
    let ghost data = data_of(values@);
    let ghost m = float_model(*f);
    if values.len() == 0 {
        return Ok(Value::Null);
    }
    let mut has_float = false;
    let mut k: usize = 0;
    while k < values.len()
        invariant
            k <= values.len(),
            data == data_of(values@),
            any_float(data, 0) == (has_float || any_float(data, k as int)),
        decreases values.len() - k,
    {
        assert(data[k as int] == values[k as int]@);
        if matches!(&values[k], Value::Float64(_)) {
            has_float = true;
        }
        k += 1;
    }
    let mut i: usize = 0;
    if has_float {
        let mut total: u64 = 0;
        while i < values.len()
            invariant
                i <= values.len(),
                data == data_of(values@),
                m == float_model(*f),
                answers_floats(*f),
                sum_datum(m, data) == float_total(m, data, i as int, total),
            decreases values.len() - i,
        {
            assert(data[i as int] == values[i as int]@);
            match bits_of(&values[i], f) {
                Some(b) => {
                    total = ask_bits(f, FloatRequest::Sum(total, b));
                },
                None => {
                    return Err(
                        Error::Type(concat2("SUM does not accept ", values[i].kind_name())),
                    );
                },
            }
            i += 1;
        }
        finite_float(total, "SUM result")
    } else {
        let mut total: i64 = 0;
        while i < values.len()
            invariant
                i <= values.len(),
                data == data_of(values@),
                m == float_model(*f),
                sum_datum(m, data) == int_total(data, i as int, total),
            decreases values.len() - i,
        {
            assert(data[i as int] == values[i as int]@);
            match &values[i] {
                Value::Int64(n) => match total.checked_add(*n) {
                    Some(sum) => {
                        total = sum;
                    },
                    None => {
                        return Err(Error::Type("SUM Int64 overflow".to_owned()));
                    },
                },
                _ => {
                    return Err(
                        Error::Type(concat2("SUM does not accept ", values[i].kind_name())),
                    );
                },
            }
            i += 1;
        }
        Ok(Value::Int64(total))
    }
}

/// The data from `i` on as floating-point values, behind those already converted.
pub open spec fn all_bits(m: FloatModel, data: Seq<Datum>, i: int, read: Seq<u64>) -> Result<
    Seq<u64>,
    Fault,
>
    decreases data.len() - i,
{
    if i < 0 || i >= data.len() {
        Ok(read)
    } else {
        match number_bits(m, data[i]) {
            Some(b) => all_bits(m, data, i + 1, read.push(b)),
            None => Err(Fault::Type("AVG does not accept "@ + datum_type_text(data[i]))),
        }
    }
}

/// The running sum of the values from `i` on, while it stays finite.
pub open spec fn finite_sum(m: FloatModel, bits: Seq<u64>, i: int, sum: u64) -> Option<u64>
    decreases bits.len() - i,
{
    if i < 0 || i >= bits.len() {
        Some(sum)
    } else {
        let next = float_sum(m, sum, bits[i]);
        if is_finite(next) {
            finite_sum(m, bits, i + 1, next)
        } else {
            None
        }
    }
}

/// The mean after one more value.
pub open spec fn next_mean(m: FloatModel, mean: u64, index: int, bits: u64) -> u64 {
    let count = float_from(m, index + 1);
    float_sum(
        m,
        float_product(m, mean, float_quotient(m, float_difference(m, count, ONE_BITS), count)),
        float_quotient(m, bits, count),
    )
}

/// The mean of the values from `i` on, updated value by value.
pub open spec fn running_mean(m: FloatModel, bits: Seq<u64>, i: int, mean: u64) -> u64
    decreases bits.len() - i,
{
    if i < 0 || i >= bits.len() {
        mean
    } else {
        running_mean(m, bits, i + 1, next_mean(m, mean, i, bits[i]))
    }
}

/// The average of data: their sum over their number, or the running mean where the sum
/// overflows.
pub open spec fn avg_datum(m: FloatModel, data: Seq<Datum>, memory: Budget) -> Result<Datum, Fault> {
    if data.len() == 0 {
        Ok(Datum::Null)
    } else {
        match fits(
            Some(memory),
            sat_sum(LIST_BYTES, sat_product(data.len() as usize, FLOAT_BYTES)),
        ) {
            Err(fault) => Err(fault),
            Ok(()) => match all_bits(m, data, 0, Seq::empty()) {
                Err(fault) => Err(fault),
                Ok(bits) => match finite_sum(m, bits, 0, 0) {
                    Some(sum) => finite_datum(
                        float_quotient(m, sum, float_from(m, bits.len() as int)),
                        "AVG result"@,
                    ),
                    None => finite_datum(running_mean(m, bits, 0, 0), "AVG result"@),
                },
            },
        }
    }
}

/// Averages values.
pub fn aggregate_avg<F: Fn(FloatRequest) -> FloatReply>(
    values: &Vec<Value>,
    memory: Budget,
    f: &F,
) -> (r: Result<Value, Error>)
    requires
        answers_floats(*f),
    ensures
        outcome(r) == avg_datum(float_model(*f), data_of(values@), memory),
{
    let ghost data = data_of(values@);
    let ghost m = float_model(*f);
    if values.len() == 0 {
        return Ok(Value::Null);
    }
    check_fits(Some(memory), sat_add(LIST_BYTES, sat_mul(values.len(), FLOAT_BYTES)))?;
    let mut bits: Vec<u64> = Vec::new();
    let mut i: usize = 0;
    while i < values.len()
        invariant
            i <= values.len(),
            data == data_of(values@),
            m == float_model(*f),
            answers_floats(*f),
            all_bits(m, data, 0, Seq::empty()) == all_bits(m, data, i as int, bits@),
            bits.len() == i,
            data.len() > 0,
            fits(
                Some(memory),
                sat_sum(LIST_BYTES, sat_product(data.len() as usize, FLOAT_BYTES)),
            ) is Ok,
        decreases values.len() - i,
    {
        assert(data[i as int] == values[i as int]@);
        match bits_of(&values[i], f) {
            Some(b) => {
                bits.push(b);
            },
            None => {
                return Err(Error::Type(concat2("AVG does not accept ", values[i].kind_name())));
            },
        }
        i += 1;
    }
    let mut sum: u64 = 0;
    let mut k: usize = 0;
    let mut overflowed = false;
    while k < bits.len() && !overflowed
        invariant
            k <= bits.len(),
            m == float_model(*f),
            answers_floats(*f),
            finite_sum(m, bits@, 0, 0) == (if overflowed {
                None
            } else {
                finite_sum(m, bits@, k as int, sum)
            }),
        decreases bits.len() - k,
    {
        sum = ask_bits(f, FloatRequest::Sum(sum, bits[k]));
        if !finite(sum) {
            overflowed = true;
        }
        k += 1;
    }
    if !overflowed {
        let count = ask_bits(f, FloatRequest::FromInteger(bits.len() as i128));
        return finite_float(ask_bits(f, FloatRequest::Quotient(sum, count)), "AVG result");
    }
    let mut mean: u64 = 0;
    let mut j: usize = 0;
    while j < bits.len()
        invariant
            j <= bits.len(),
            m == float_model(*f),
            answers_floats(*f),
            running_mean(m, bits@, 0, 0) == running_mean(m, bits@, j as int, mean),
        decreases bits.len() - j,
    {
        let count = ask_bits(f, FloatRequest::FromInteger(j as i128 + 1));
        let before = ask_bits(f, FloatRequest::Difference(count, ONE_BITS));
        let weight = ask_bits(f, FloatRequest::Quotient(before, count));
        let kept = ask_bits(f, FloatRequest::Product(mean, weight));
        let added = ask_bits(f, FloatRequest::Quotient(bits[j], count));
        mean = ask_bits(f, FloatRequest::Sum(kept, added));
        j += 1;
    }
    finite_float(mean, "AVG result")
}

/// The position of the extreme of the data from `i` on and of the datum at `best`.
pub open spec fn extreme_from(data: Seq<Datum>, maximum: bool, i: int, best: int) -> Result<int, Fault>
    decreases data.len() - i,
{
    if i < 0 || i >= data.len() {
        Ok(best)
    } else {
        match datum_rank(data[i], data[best]) {
            Err(fault) => Err(fault),
            Ok(order) => if (maximum && order == Order::Greater) || (!maximum && order
                == Order::Less) {
                extreme_from(data, maximum, i + 1, i)
            } else {
                extreme_from(data, maximum, i + 1, best)
            },
        }
    }
}

/// The smallest or largest of the data.
pub open spec fn extreme_datum(data: Seq<Datum>, maximum: bool, memory: Budget) -> Result<
    Datum,
    Fault,
> {
    if data.len() == 0 {
        Ok(Datum::Null)
    } else {
        match extreme_from(data, maximum, 1, 0) {
            Err(fault) => Err(fault),
            Ok(k) => match fits(Some(memory), datum_bytes(data[k])) {
                Err(fault) => Err(fault),
                Ok(()) => Ok(data[k]),
            },
        }
    }
}

/// Finds the smallest or largest value.
pub fn aggregate_extreme(values: &Vec<Value>, maximum: bool, memory: Budget) -> (r: Result<
    Value,
    Error,
>)
    ensures
        outcome(r) == extreme_datum(data_of(values@), maximum, memory),
{
    let ghost data = data_of(values@);
    if values.len() == 0 {
        return Ok(Value::Null);
    }
    let mut best: usize = 0;
    let mut i: usize = 1;
    while i < values.len()
        invariant
            1 <= i <= values.len(),
            best < values.len(),
            data == data_of(values@),
            extreme_from(data, maximum, 1, 0) == extreme_from(
                data,
                maximum,
                i as int,
                best as int,
            ),
        decreases values.len() - i,
    {
        assert(data[i as int] == values[i as int]@);
        assert(data[best as int] == values[best as int]@);
        let order = values[i].total_order(&values[best])?;
        if (maximum && matches!(order, Order::Greater)) || (!maximum && matches!(
            order,
            Order::Less
        )) {
            best = i;
        }
        i += 1;
    }
    assert(data[best as int] == values[best as int]@);
    check_fits(Some(memory), value_bytes(&values[best]))?;
    Ok(values[best].clone())
}

} // verus!
