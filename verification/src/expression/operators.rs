//! Operators of scalar expressions.

use vstd::prelude::*;
use crate::expression::fault::{ExpressionError, ExpressionFault};
use crate::expression::tree::{BinaryOperator, UnaryOperator};
use crate::float::{answers_floats, ask_bits, compare_floats, compare_int_float, float_difference, float_from, float_model, float_order, float_product, float_quotient, float_remainder, float_sum, int_float_order, is_zero, negate, negated, zero, FloatModel, FloatReply, FloatRequest};
use crate::scalar::{and3, as_floats, cast_datum, cast_value, or3, rem_i64, to_floats, truncated_rem, truth_datum};
use crate::text::{bool_order, concat3, int_order, order_bool, order_i64, order_text, text_order, Order};
use crate::types::{datum_type_text, DataType, Datum, Error, Fault, Value};

verus! {

/// The content of an evaluation.
pub open spec fn evaluated(r: Result<Value, ExpressionError>) -> Result<Datum, ExpressionFault> {
    match r {
        Ok(v) => Ok(v@),
        Err(e) => Err(e@),
    }
}

/// The failure of a value with the wrong type.
pub open spec fn type_fault(operation: Seq<char>, expected: Seq<char>, actual: Datum) -> ExpressionFault {
    ExpressionFault::Type { operation, expected, actual: datum_type_text(actual) }
}

pub(crate) fn type_error(operation: &str, expected: &str, actual: &Value) -> (e: ExpressionError)
    ensures
        e@ == type_fault(operation@, expected@, actual@),
{
    ExpressionError::Type {
        operation: operation.to_owned(),
        expected: expected.to_owned(),
        actual: actual.kind_name().to_owned(),
    }
}

/// The failure of two values that do not go together.
pub open spec fn pair_fault(operation: Seq<char>, expected: Seq<char>, a: Datum, b: Datum) -> ExpressionFault {
    ExpressionFault::Type {
        operation,
        expected,
        actual: datum_type_text(a) + " and "@ + datum_type_text(b),
    }
}

fn pair_error(operation: &str, expected: &str, a: &Value, b: &Value) -> (e: ExpressionError)
    ensures
        e@ == pair_fault(operation@, expected@, a@, b@),
{
    ExpressionError::Type {
        operation: operation.to_owned(),
        expected: expected.to_owned(),
        actual: concat3(a.kind_name(), " and ", b.kind_name()),
    }
}

/// The name of an operator.
pub open spec fn unary_text(operator: UnaryOperator) -> Seq<char> {
    match operator {
        UnaryOperator::Plus => "unary +"@,
        UnaryOperator::Minus => "unary -"@,
        UnaryOperator::Not => "NOT"@,
    }
}

fn unary_name(operator: UnaryOperator) -> (s: &'static str)
    ensures
        s@ == unary_text(operator),
{
    match operator {
        UnaryOperator::Plus => "unary +",
        UnaryOperator::Minus => "unary -",
        UnaryOperator::Not => "NOT",
    }
}

/// The name of an operator.
pub open spec fn binary_text(operator: BinaryOperator) -> Seq<char> {
    match operator {
        BinaryOperator::Add => "+"@,
        BinaryOperator::Subtract => "-"@,
        BinaryOperator::Multiply => "*"@,
        BinaryOperator::Divide => "/"@,
        BinaryOperator::Modulo => "%"@,
        BinaryOperator::Equal => "="@,
        BinaryOperator::NotEqual => "<>"@,
        BinaryOperator::Less => "<"@,
        BinaryOperator::LessOrEqual => "<="@,
        BinaryOperator::Greater => ">"@,
        BinaryOperator::GreaterOrEqual => ">="@,
        BinaryOperator::And => "AND"@,
        BinaryOperator::Or => "OR"@,
    }
}

fn binary_name(operator: BinaryOperator) -> (s: &'static str)
    ensures
        s@ == binary_text(operator),
{
    match operator {
        BinaryOperator::Add => "+",
        BinaryOperator::Subtract => "-",
        BinaryOperator::Multiply => "*",
        BinaryOperator::Divide => "/",
        BinaryOperator::Modulo => "%",
        BinaryOperator::Equal => "=",
        BinaryOperator::NotEqual => "<>",
        BinaryOperator::Less => "<",
        BinaryOperator::LessOrEqual => "<=",
        BinaryOperator::Greater => ">",
        BinaryOperator::GreaterOrEqual => ">=",
        BinaryOperator::And => "AND",
        BinaryOperator::Or => "OR",
    }
}

/// The result of an operator with one operand.
pub open spec fn unary_value(operator: UnaryOperator, d: Datum) -> Result<Datum, ExpressionFault> {
    match (operator, d) {
        (_, Datum::Null) => Ok(Datum::Null),
        (UnaryOperator::Plus, Datum::Int64(_)) => Ok(d),
        (UnaryOperator::Plus, Datum::Float64(_)) => Ok(d),
        (UnaryOperator::Minus, Datum::Int64(i)) => if i == i64::MIN {
            Err(ExpressionFault::Overflow { operation: "unary -"@ })
        } else {
            Ok(Datum::Int64((-i) as i64))
        },
        (UnaryOperator::Minus, Datum::Float64(b)) => Ok(Datum::Float64(negated(b))),
        (UnaryOperator::Not, Datum::Bool(b)) => Ok(Datum::Bool(!b)),
        (UnaryOperator::Not, _) => Err(type_fault("NOT"@, "Bool or NULL"@, d)),
        _ => Err(type_fault(unary_text(operator), "numeric or NULL"@, d)),
    }
}

pub(crate) fn evaluate_unary(operator: UnaryOperator, value: Value) -> (r: Result<Value, ExpressionError>)
    ensures
        evaluated(r) == unary_value(operator, value@),
{
    match (operator, value) {
        (_, Value::Null) => Ok(Value::Null),
        (UnaryOperator::Plus, Value::Int64(i)) => Ok(Value::Int64(i)),
        (UnaryOperator::Plus, Value::Float64(b)) => Ok(Value::Float64(b)),
        (UnaryOperator::Minus, Value::Int64(i)) => if i == i64::MIN {
            Err(ExpressionError::Overflow { operation: "unary -".to_owned() })
        } else {
            Ok(Value::Int64(-i))
        },
        (UnaryOperator::Minus, Value::Float64(b)) => Ok(Value::Float64(negate(b))),
        (UnaryOperator::Not, Value::Bool(b)) => Ok(Value::Bool(!b)),
        (UnaryOperator::Not, value) => Err(type_error("NOT", "Bool or NULL", &value)),
        (operator, value) => Err(type_error(unary_name(operator), "numeric or NULL", &value)),
    }
}

/// The truth of a value: `None` is unknown.
pub open spec fn truth(d: Datum, operation: Seq<char>) -> Result<Option<bool>, ExpressionFault> {
    match d {
        Datum::Null => Ok(None),
        Datum::Bool(b) => Ok(Some(b)),
        _ => Err(type_fault(operation, "Bool or NULL"@, d)),
    }
}

pub(crate) fn sql_truth(value: &Value, operation: &str) -> (r: Result<Option<bool>, ExpressionError>)
    ensures
        match r {
            Ok(t) => truth(value@, operation@) == Ok::<_, ExpressionFault>(t),
            Err(e) => truth(value@, operation@) == Err::<Option<bool>, _>(e@),
        },
{
    match value {
        Value::Null => Ok(None),
        Value::Bool(b) => Ok(Some(*b)),
        value => Err(type_error(operation, "Bool or NULL", value)),
    }
}

/// The result of `AND` or `OR` on two values.
pub open spec fn logical_value(a: Datum, conjunction: bool, b: Datum) -> Result<Datum, ExpressionFault> {
    let operation = if conjunction { "AND"@ } else { "OR"@ };
    match (truth(a, operation), truth(b, operation)) {
        (Err(fault), _) => Err(fault),
        (_, Err(fault)) => Err(fault),
        (Ok(x), Ok(y)) => Ok(truth_datum(if conjunction { and3(x, y) } else { or3(x, y) })),
    }
}

fn logical(a: &Value, conjunction: bool, b: &Value) -> (r: Result<Value, ExpressionError>)
    ensures
        evaluated(r) == logical_value(a@, conjunction, b@),
{
    let operation = if conjunction { "AND" } else { "OR" };
    let x = sql_truth(a, operation)?;
    let y = sql_truth(b, operation)?;
    if x == Some(!conjunction) || y == Some(!conjunction) {
        Ok(Value::Bool(!conjunction))
    } else if x == Some(conjunction) && y == Some(conjunction) {
        Ok(Value::Bool(conjunction))
    } else {
        Ok(Value::Null)
    }
}

/// The exact result of an integer operation.
pub open spec fn exact_value(a: i64, operator: BinaryOperator, b: i64) -> int {
    match operator {
        BinaryOperator::Add => a + b,
        BinaryOperator::Subtract => a - b,
        _ => a * b,
    }
}

/// The result of arithmetic on integers.
pub open spec fn integer_value(m: FloatModel, a: i64, operator: BinaryOperator, b: i64) -> Result<
    Datum,
    ExpressionFault,
> {
    let overflow = ExpressionFault::Overflow { operation: binary_text(operator) };
    match operator {
        BinaryOperator::Divide => if b == 0 {
            Err(ExpressionFault::DivideByZero)
        } else {
            Ok(
                Datum::Float64(
                    float_quotient(m, float_from(m, a as int), float_from(m, b as int)),
                ),
            )
        },
        BinaryOperator::Modulo => if b == 0 {
            Err(ExpressionFault::DivideByZero)
        } else if a == i64::MIN && b == -1 {
            Err(overflow)
        } else {
            Ok(Datum::Int64(truncated_rem(a as int, b as int) as i64))
        },
        _ => {
            let n = exact_value(a, operator, b);
            if i64::MIN <= n <= i64::MAX {
                Ok(Datum::Int64(n as i64))
            } else {
                Err(overflow)
            }
        },
    }
}

fn integer_arithmetic<F: Fn(FloatRequest) -> FloatReply>(
    a: i64,
    operator: BinaryOperator,
    b: i64,
    f: &F,
) -> (r: Result<Value, ExpressionError>)
    requires
        answers_floats(*f),
    ensures
        evaluated(r) == integer_value(float_model(*f), a, operator, b),
{
    let n = match operator {
        BinaryOperator::Add => a.checked_add(b),
        BinaryOperator::Subtract => a.checked_sub(b),
        BinaryOperator::Divide => {
            if b == 0 {
                return Err(ExpressionError::DivideByZero);
            }
            let x = ask_bits(f, FloatRequest::FromInteger(a as i128));
            let y = ask_bits(f, FloatRequest::FromInteger(b as i128));
            return Ok(Value::Float64(ask_bits(f, FloatRequest::Quotient(x, y))));
        },
        BinaryOperator::Modulo => {
            if b == 0 {
                return Err(ExpressionError::DivideByZero);
            }
            if a == i64::MIN && b == -1 {
                None
            } else {
                Some(rem_i64(a, b))
            }
        },
        _ => a.checked_mul(b),
    };
    match n {
        Some(n) => Ok(Value::Int64(n)),
        None => Err(ExpressionError::Overflow { operation: binary_name(operator).to_owned() }),
    }
}

/// The result of arithmetic on floating-point values.
pub open spec fn float_value(m: FloatModel, a: u64, operator: BinaryOperator, b: u64) -> Result<
    Datum,
    ExpressionFault,
> {
    if (operator is Divide || operator is Modulo) && is_zero(b) {
        Err(ExpressionFault::DivideByZero)
    } else {
        Ok(
            Datum::Float64(
                match operator {
                    BinaryOperator::Add => float_sum(m, a, b),
                    BinaryOperator::Subtract => float_difference(m, a, b),
                    BinaryOperator::Divide => float_quotient(m, a, b),
                    BinaryOperator::Modulo => float_remainder(m, a, b),
                    _ => float_product(m, a, b),
                },
            ),
        )
    }
}

fn float_arithmetic<F: Fn(FloatRequest) -> FloatReply>(
    a: u64,
    operator: BinaryOperator,
    b: u64,
    f: &F,
) -> (r: Result<Value, ExpressionError>)
    requires
        answers_floats(*f),
    ensures
        evaluated(r) == float_value(float_model(*f), a, operator, b),
{
    if (operator == BinaryOperator::Divide || operator == BinaryOperator::Modulo) && zero(b) {
        return Err(ExpressionError::DivideByZero);
    }
    let request = match operator {
        BinaryOperator::Add => FloatRequest::Sum(a, b),
        BinaryOperator::Subtract => FloatRequest::Difference(a, b),
        BinaryOperator::Divide => FloatRequest::Quotient(a, b),
        BinaryOperator::Modulo => FloatRequest::Remainder(a, b),
        _ => FloatRequest::Product(a, b),
    };
    Ok(Value::Float64(ask_bits(f, request)))
}

/// The result of arithmetic.
pub open spec fn arithmetic_value(m: FloatModel, a: Datum, operator: BinaryOperator, b: Datum) -> Result<
    Datum,
    ExpressionFault,
> {
    match (a, b) {
        (Datum::Null, _) => Ok(Datum::Null),
        (_, Datum::Null) => Ok(Datum::Null),
        (Datum::Int64(x), Datum::Int64(y)) => integer_value(m, x, operator, y),
        _ => match as_floats(m, a, b) {
            Some((x, y)) => float_value(m, x, operator, y),
            None => Err(pair_fault(binary_text(operator), "two numeric values or NULL"@, a, b)),
        },
    }
}

fn arithmetic<F: Fn(FloatRequest) -> FloatReply>(
    left: &Value,
    operator: BinaryOperator,
    right: &Value,
    f: &F,
) -> (r: Result<Value, ExpressionError>)
    requires
        answers_floats(*f),
    ensures
        evaluated(r) == arithmetic_value(float_model(*f), left@, operator, right@),
{
    if left.is_null() || right.is_null() {
        return Ok(Value::Null);
    }
    if let (Value::Int64(x), Value::Int64(y)) = (left, right) {
        return integer_arithmetic(*x, operator, *y, f);
    }
    match to_floats(left, right, f) {
        Some((x, y)) => float_arithmetic(x, operator, y, f),
        None => Err(pair_error(binary_name(operator), "two numeric values or NULL", left, right)),
    }
}

/// How two values compare: the outer `None` says that their types do not go together, the
/// inner one that one of them is no number.
pub open spec fn comparison(a: Datum, b: Datum) -> Option<Option<Order>> {
    match (a, b) {
        (Datum::Int64(x), Datum::Int64(y)) => Some(Some(int_order(x as int, y as int))),
        (Datum::Int64(x), Datum::Float64(y)) => Some(int_float_order(x, y)),
        (Datum::Float64(x), Datum::Int64(y)) => Some(
            match int_float_order(y, x) {
                Some(order) => Some(order.flipped()),
                None => None,
            },
        ),
        (Datum::Float64(x), Datum::Float64(y)) => Some(float_order(x, y)),
        (Datum::Bool(x), Datum::Bool(y)) => Some(Some(bool_order(x, y))),
        (Datum::Text(x), Datum::Text(y)) => Some(Some(text_order(x, y))),
        _ => None,
    }
}

/// Whether a comparison operator holds. Beside no number only inequality holds.
pub open spec fn holds(operator: BinaryOperator, order: Option<Order>) -> bool {
    match operator {
        BinaryOperator::Equal => order == Some(Order::Equal),
        BinaryOperator::NotEqual => order != Some(Order::Equal),
        BinaryOperator::Less => order == Some(Order::Less),
        BinaryOperator::LessOrEqual => order == Some(Order::Less) || order == Some(Order::Equal),
        BinaryOperator::Greater => order == Some(Order::Greater),
        _ => order == Some(Order::Greater) || order == Some(Order::Equal),
    }
}

/// The result of a comparison.
pub open spec fn compare_value(a: Datum, operator: BinaryOperator, b: Datum) -> Result<
    Datum,
    ExpressionFault,
> {
    match (a, b) {
        (Datum::Null, _) => Ok(Datum::Null),
        (_, Datum::Null) => Ok(Datum::Null),
        _ => match comparison(a, b) {
            Some(order) => Ok(Datum::Bool(holds(operator, order))),
            None => Err(
                pair_fault(
                    binary_text(operator),
                    "comparable values of the same type, or two numeric values"@,
                    a,
                    b,
                ),
            ),
        },
    }
}

pub(crate) fn compare(left: &Value, operator: BinaryOperator, right: &Value) -> (r: Result<
    Value,
    ExpressionError,
>)
    ensures
        evaluated(r) == compare_value(left@, operator, right@),
{
    if left.is_null() || right.is_null() {
        return Ok(Value::Null);
    }
    let order = match (left, right) {
        (Value::Int64(x), Value::Int64(y)) => Some(order_i64(*x, *y)),
        (Value::Int64(x), Value::Float64(y)) => compare_int_float(*x, *y),
        (Value::Float64(x), Value::Int64(y)) => match compare_int_float(*y, *x) {
            Some(order) => Some(order.reverse()),
            None => None,
        },
        (Value::Float64(x), Value::Float64(y)) => compare_floats(*x, *y),
        (Value::Bool(x), Value::Bool(y)) => Some(order_bool(*x, *y)),
        (Value::String(x), Value::String(y)) => Some(order_text(x.as_str(), y.as_str())),
        _ => {
            return Err(
                pair_error(
                    binary_name(operator),
                    "comparable values of the same type, or two numeric values",
                    left,
                    right,
                ),
            );
        },
    };
    let less = matches!(order, Some(Order::Less));
    let equal = matches!(order, Some(Order::Equal));
    let greater = matches!(order, Some(Order::Greater));
    Ok(
        Value::Bool(
            match operator {
                BinaryOperator::Equal => equal,
                BinaryOperator::NotEqual => !equal,
                BinaryOperator::Less => less,
                BinaryOperator::LessOrEqual => less || equal,
                BinaryOperator::Greater => greater,
                _ => greater || equal,
            },
        ),
    )
}

/// The result of an operator on two values.
pub open spec fn binary_value(m: FloatModel, a: Datum, operator: BinaryOperator, b: Datum) -> Result<
    Datum,
    ExpressionFault,
> {
    match operator {
        BinaryOperator::And => logical_value(a, true, b),
        BinaryOperator::Or => logical_value(a, false, b),
        BinaryOperator::Add | BinaryOperator::Subtract | BinaryOperator::Multiply
        | BinaryOperator::Divide | BinaryOperator::Modulo => arithmetic_value(m, a, operator, b),
        _ => compare_value(a, operator, b),
    }
}

pub(crate) fn evaluate_binary<F: Fn(FloatRequest) -> FloatReply>(
    left: &Value,
    operator: BinaryOperator,
    right: &Value,
    f: &F,
) -> (r: Result<Value, ExpressionError>)
    requires
        answers_floats(*f),
    ensures
        evaluated(r) == binary_value(float_model(*f), left@, operator, right@),
{
    match operator {
        BinaryOperator::And => logical(left, true, right),
        BinaryOperator::Or => logical(left, false, right),
        BinaryOperator::Add | BinaryOperator::Subtract | BinaryOperator::Multiply
        | BinaryOperator::Divide | BinaryOperator::Modulo => arithmetic(left, operator, right, f),
        _ => compare(left, operator, right),
    }
}

/// The failure of a cast.
pub open spec fn cast_fault(fault: Fault) -> ExpressionFault {
    match fault {
        Fault::Type(message) => ExpressionFault::Cast { message },
        _ => ExpressionFault::Cast { message: Seq::empty() },
    }
}

/// The result of a cast.
pub open spec fn casted(m: FloatModel, d: Datum, target: DataType) -> Result<Datum, ExpressionFault> {
    match cast_datum(m, d, target) {
        Ok(v) => Ok(v),
        Err(fault) => Err(cast_fault(fault)),
    }
}

pub(crate) fn cast_to<F: Fn(FloatRequest) -> FloatReply>(value: Value, target: DataType, f: &F) -> (r: Result<
    Value,
    ExpressionError,
>)
    requires
        answers_floats(*f),
    ensures
        evaluated(r) == casted(float_model(*f), value@, target),
{
    match cast_value(value, target, f) {
        Ok(v) => Ok(v),
        Err(Error::Type(message)) => Err(ExpressionError::Cast { message }),
        Err(_) => {
            let message = String::new();
            assert(message@ =~= Seq::<char>::empty());
            Err(ExpressionError::Cast { message })
        },
    }
}

} // verus!
