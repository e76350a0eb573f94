//! Scalar operations on values: literals, operators, casts, patterns and functions.

use vstd::prelude::*;
use crate::ast::{BinaryKind, CastForm, CastTarget, LiteralKind, PatternMatch, SqlExpr, SqlLiteral, SqlUnary, UnaryKind};
use crate::budget::{check_fits, fits, sat_add, sat_sum, Budget, VALUE_BYTES};
use crate::float::{answers_floats, ask_bits, finite, float_difference, float_from, float_model, float_parsed, float_product, float_quotient, float_remainder, float_sum, float_to_i64, is_finite, is_zero, magnitude, negate, negated, parse_float, truncate_to_i64, zero, FloatModel, FloatReply, FloatRequest};
use crate::pattern::{escape_of, like, like_escape_char, like_matches, like_tokens, optional_text, tokens_from, LikeToken};
use crate::text::{byte_len, chars_of, concat2, concat4, contains_char, debug_text, i64_value, lower, parse_i64, quote_text, same_text, string_from, to_lower, utf8_len, Order};
use crate::types::{datum_compare, datum_text, datum_truth, datum_type_text, is_null, outcome, plain, DataType, Datum, Error, Fault, Value};

verus! {

/// The first `n` characters without their spaces.
pub open spec fn spaceless(s: Seq<char>, n: int) -> Seq<char>
    decreases n,
{
    if n <= 0 {
        Seq::empty()
    } else if s[n - 1] == ' ' {
        spaceless(s, n - 1)
    } else {
        spaceless(s, n - 1).push(s[n - 1])
    }
}

/// The lower-case text without its spaces.
pub open spec fn compact(s: Seq<char>) -> Seq<char> {
    spaceless(lower(s), s.len() as int)
}

/// The type that a compact lower-case name denotes.
pub open spec fn named_type(name: Seq<char>) -> Option<DataType> {
    if name == "tinyint"@ || name == "smallint"@ || name == "int"@ || name == "integer"@ || name
        == "bigint"@ || name == "int8"@ || name == "int16"@ || name == "int32"@ || name
        == "int64"@ {
        Some(DataType::Int64)
    } else if name == "float"@ || name == "float32"@ || name == "float64"@ || name == "double"@
        || name == "doubleprecision"@ || name == "real"@ {
        Some(DataType::Float64)
    } else if name == "bool"@ || name == "boolean"@ {
        Some(DataType::Bool)
    } else if name == "string"@ || name == "text"@ || name == "varchar"@ || name == "char"@ {
        Some(DataType::String)
    } else {
        None
    }
}

/// Whether a compact type is wrapped in `nullable(..)`.
pub open spec fn is_nullable(name: Seq<char>) -> bool {
    name.len() > 9 && name.take(9) == "nullable("@ && name.last() == ')'
}

/// The type and the nullability that SQL text declares.
pub open spec fn parsed_data_type(sql: Seq<char>) -> Result<(DataType, bool), Fault> {
    let name = compact(sql);
    let (inner, nullable) = if is_nullable(name) {
        (name.subrange(9, name.len() - 1), true)
    } else {
        (name, false)
    };
    match named_type(inner) {
        Some(t) => Ok((t, nullable)),
        None => Err(Fault::Unsupported("data type "@ + sql)),
    }
}

pub(crate) fn type_named(name: &str) -> (r: Option<DataType>)
    ensures
        r == named_type(name@),
{
    if same_text(name, "tinyint") || same_text(name, "smallint") || same_text(name, "int")
        || same_text(name, "integer") || same_text(name, "bigint") || same_text(name, "int8")
        || same_text(name, "int16") || same_text(name, "int32") || same_text(name, "int64") {
        Some(DataType::Int64)
    } else if same_text(name, "float") || same_text(name, "float32") || same_text(name, "float64")
        || same_text(name, "double") || same_text(name, "doubleprecision") || same_text(
        name,
        "real",
    ) {
        Some(DataType::Float64)
    } else if same_text(name, "bool") || same_text(name, "boolean") {
        Some(DataType::Bool)
    } else if same_text(name, "string") || same_text(name, "text") || same_text(name, "varchar")
        || same_text(name, "char") {
        Some(DataType::String)
    } else {
        None
    }
}

/// Reads the type and the nullability that SQL text declares.
pub fn parse_data_type(sql: &str) -> (r: Result<(DataType, bool), Error>)
    ensures
        plain(r) == parsed_data_type(sql@),
{
    let folded = to_lower(sql);
    let chars = chars_of(folded.as_str());
    let mut name: Vec<char> = Vec::new();
    let mut i: usize = 0;
    while i < chars.len()
        invariant
            chars@ == lower(sql@),
            i <= chars.len(),
            name@ == spaceless(lower(sql@), i as int),
        decreases chars.len() - i,
    {
        if chars[i] != ' ' {
            name.push(chars[i]);
        }
        i += 1;
    }
    let n = name.len();
    let mut nullable = false;
    if n > 9 && name[n - 1] == ')' {
        let prefix = string_from(&name, 0, 9);
        assert(prefix@ == name@.take(9));
        nullable = same_text(prefix.as_str(), "nullable(");
    }
    let inner = if nullable {
        string_from(&name, 9, n - 1)
    } else {
        assert(name@.subrange(0, n as int) =~= name@);
        string_from(&name, 0, n)
    };
    match type_named(inner.as_str()) {
        Some(t) => Ok((t, nullable)),
        None => Err(Error::Unsupported(concat2("data type ", sql))),
    }
}

/// A floating-point result that must be finite.
pub open spec fn finite_datum(bits: u64, context: Seq<char>) -> Result<Datum, Fault> {
    if is_finite(bits) {
        Ok(Datum::Float64(bits))
    } else {
        Err(Fault::Type(context + " is not finite"@))
    }
}

/// Accepts a floating-point result if it is finite.
pub fn finite_float(bits: u64, context: &str) -> (r: Result<Value, Error>)
    ensures
        outcome(r) == finite_datum(bits, context@),
{
    if finite(bits) {
        Ok(Value::Float64(bits))
    } else {
        Err(Error::Type(concat2(context, " is not finite")))
    }
}

/// Whether the text of a number denotes a floating-point value.
pub open spec fn is_float_text(s: Seq<char>) -> bool {
    s.contains('.') || s.contains('e') || s.contains('E')
}

/// Decides whether the text of a number denotes a floating-point value.
pub fn has_float_mark(s: &str) -> (r: bool)
    ensures
        r == is_float_text(s@),
{
    contains_char(s, '.') || contains_char(s, 'e') || contains_char(s, 'E')
}

/// The datum that a number literal denotes.
pub open spec fn number_datum(m: FloatModel, s: Seq<char>) -> Result<Datum, Fault> {
    if is_float_text(s) {
        match float_parsed(m, s) {
            Some(bits) => finite_datum(bits, "Float64 literal"@),
            None => Err(Fault::Type("invalid Float64 literal "@ + s)),
        }
    } else {
        match i64_value(s) {
            Some(i) => Ok(Datum::Int64(i)),
            None => Err(Fault::Type("invalid Int64 literal "@ + s)),
        }
    }
}

/// Text that fits into the allowance.
pub open spec fn text_datum(s: Seq<char>, memory: Option<Budget>) -> Result<Datum, Fault> {
    match fits(memory, sat_sum(VALUE_BYTES, utf8_len(s) as usize)) {
        Ok(()) => Ok(Datum::Text(s)),
        Err(fault) => Err(fault),
    }
}

fn text_value(s: &String, memory: Option<Budget>) -> (r: Result<Value, Error>)
    ensures
        outcome(r) == text_datum(s@, memory),
{
    check_fits(memory, sat_add(VALUE_BYTES, byte_len(s.as_str())))?;
    Ok(Value::String(s.clone()))
}

/// The datum that a literal denotes; text must fit into the allowance.
pub open spec fn literal_datum(
    m: FloatModel,
    literal: SqlLiteral,
    memory: Option<Budget>,
) -> Result<Datum, Fault> {
    match literal.kind {
        LiteralKind::Number(s) => number_datum(m, s@),
        LiteralKind::SingleQuoted(s) => text_datum(s@, memory),
        LiteralKind::DoubleQuoted(s) => text_datum(s@, memory),
        LiteralKind::Escaped(s) => text_datum(s@, memory),
        LiteralKind::National(s) => text_datum(s@, memory),
        LiteralKind::Unprocessed(s) => text_datum(s@, memory),
        LiteralKind::Boolean(b) => Ok(Datum::Bool(b)),
        LiteralKind::Null => Ok(Datum::Null),
        LiteralKind::Other => Err(Fault::Unsupported("literal "@ + literal.text@)),
    }
}

/// Evaluates a literal.
pub fn sql_value_with_memory<F: Fn(FloatRequest) -> FloatReply>(
    literal: &SqlLiteral,
    memory: Option<Budget>,
    f: &F,
) -> (r: Result<Value, Error>)
    requires
        answers_floats(*f),
    ensures
        outcome(r) == literal_datum(float_model(*f), *literal, memory),
{
    match &literal.kind {
        LiteralKind::Number(s) => {
            if has_float_mark(s.as_str()) {
                match parse_float(f, s.as_str()) {
                    Some(bits) => finite_float(bits, "Float64 literal"),
                    None => Err(Error::Type(concat2("invalid Float64 literal ", s.as_str()))),
                }
            } else {
                match parse_i64(s.as_str()) {
                    Some(i) => Ok(Value::Int64(i)),
                    None => Err(Error::Type(concat2("invalid Int64 literal ", s.as_str()))),
                }
            }
        },
        LiteralKind::SingleQuoted(s) => text_value(s, memory),
        LiteralKind::DoubleQuoted(s) => text_value(s, memory),
        LiteralKind::Escaped(s) => text_value(s, memory),
        LiteralKind::National(s) => text_value(s, memory),
        LiteralKind::Unprocessed(s) => text_value(s, memory),
        LiteralKind::Boolean(b) => Ok(Value::Bool(*b)),
        LiteralKind::Null => Ok(Value::Null),
        LiteralKind::Other => Err(Error::Unsupported(concat2("literal ", literal.text.as_str()))),
    }
}

/// The expression inside all surrounding parentheses.
pub open spec fn unwrapped(e: SqlExpr) -> SqlExpr
    decreases e,
{
    match e {
        SqlExpr::Nested(inner) => unwrapped(*inner),
        _ => e,
    }
}

/// Whether a negation is applied to the magnitude of the smallest integer.
pub open spec fn is_minimum(op: SqlUnary, e: SqlExpr) -> bool {
    op.kind == UnaryKind::Minus && (unwrapped(e) matches SqlExpr::Value(literal)
        && literal.kind matches LiteralKind::Number(s) && s@ == "9223372036854775808"@)
}

/// Decides whether a negation denotes the smallest integer.
pub fn minimum_int_literal(op: &SqlUnary, e: &SqlExpr) -> (r: bool)
    ensures
        r == is_minimum(*op, *e),
    decreases *e,
{
    if !matches!(op.kind, UnaryKind::Minus) {
        return false;
    }
    match e {
        SqlExpr::Nested(inner) => minimum_int_literal(op, inner),
        SqlExpr::Value(literal) => match &literal.kind {
            LiteralKind::Number(s) => same_text(s.as_str(), "9223372036854775808"),
            _ => false,
        },
        _ => false,
    }
}

/// The result of a unary operator.
pub open spec fn unary_datum(op: SqlUnary, d: Datum) -> Result<Datum, Fault> {
    if is_null(d) {
        Ok(Datum::Null)
    } else {
        match (op.kind, d) {
            (UnaryKind::Plus, Datum::Int64(_)) => Ok(d),
            (UnaryKind::Plus, Datum::Float64(_)) => Ok(d),
            (UnaryKind::Minus, Datum::Int64(i)) => if i == i64::MIN {
                Err(Fault::Type("Int64 negation overflow"@))
            } else {
                Ok(Datum::Int64((-i) as i64))
            },
            (UnaryKind::Minus, Datum::Float64(b)) => Ok(Datum::Float64(negated(b))),
            (UnaryKind::Not, Datum::Bool(b)) => Ok(Datum::Bool(!b)),
            _ => Err(
                Fault::Type(
                    "operator "@ + op.text@ + " does not accept "@ + datum_type_text(d),
                ),
            ),
        }
    }
}

/// Applies a unary operator.
pub fn eval_unary(op: &SqlUnary, value: Value) -> (r: Result<Value, Error>)
    ensures
        outcome(r) == unary_datum(*op, value@),
{
    if value.is_null() {
        return Ok(Value::Null);
    }
    match (op.kind, &value) {
        (UnaryKind::Plus, Value::Int64(_)) => Ok(value),
        (UnaryKind::Plus, Value::Float64(_)) => Ok(value),
        (UnaryKind::Minus, Value::Int64(i)) => if *i == i64::MIN {
            Err(Error::Type("Int64 negation overflow".to_owned()))
        } else {
            Ok(Value::Int64(-*i))
        },
        (UnaryKind::Minus, Value::Float64(b)) => Ok(Value::Float64(negate(*b))),
        (UnaryKind::Not, Value::Bool(b)) => Ok(Value::Bool(!*b)),
        _ => Err(
            Error::Type(
                concat4("operator ", op.text.as_str(), " does not accept ", value.kind_name()),
            ),
        ),
    }
}

/// The negation of a truth value; unknown stays unknown.
pub open spec fn negated_truth(d: Datum) -> Result<Datum, Fault> {
    match d {
        Datum::Null => Ok(Datum::Null),
        Datum::Bool(b) => Ok(Datum::Bool(!b)),
        _ => Err(Fault::Type("operator NOT does not accept "@ + datum_type_text(d))),
    }
}

/// Negates a truth value.
pub fn eval_not(value: Value) -> (r: Result<Value, Error>)
    ensures
        outcome(r) == negated_truth(value@),
{
    match &value {
        Value::Null => Ok(Value::Null),
        Value::Bool(b) => Ok(Value::Bool(!*b)),
        _ => Err(Error::Type(concat2("operator NOT does not accept ", value.kind_name()))),
    }
}

/// Conjunction in three-valued logic.
pub open spec fn and3(a: Option<bool>, b: Option<bool>) -> Option<bool> {
    if a == Some(false) || b == Some(false) {
        Some(false)
    } else if a == Some(true) && b == Some(true) {
        Some(true)
    } else {
        None
    }
}

/// Disjunction in three-valued logic.
pub open spec fn or3(a: Option<bool>, b: Option<bool>) -> Option<bool> {
    if a == Some(true) || b == Some(true) {
        Some(true)
    } else if a == Some(false) && b == Some(false) {
        Some(false)
    } else {
        None
    }
}

/// The datum of a truth value.
pub open spec fn truth_datum(t: Option<bool>) -> Datum {
    match t {
        Some(b) => Datum::Bool(b),
        None => Datum::Null,
    }
}

/// The result of `AND` or `OR`.
pub open spec fn boolean_datum(a: Datum, conjunction: bool, b: Datum) -> Result<Datum, Fault> {
    match datum_truth(a) {
        Err(fault) => Err(fault),
        Ok(x) => match datum_truth(b) {
            Err(fault) => Err(fault),
            Ok(y) => Ok(truth_datum(if conjunction { and3(x, y) } else { or3(x, y) })),
        },
    }
}

/// Applies `AND` or `OR`.
pub fn eval_boolean(left: &Value, conjunction: bool, right: &Value) -> (r: Result<Value, Error>)
    ensures
        outcome(r) == boolean_datum(left@, conjunction, right@),
{
    let left = left.sql_bool()?;
    let right = right.sql_bool()?;
    let result = if conjunction {
        match (left, right) {
            (Some(false), _) => Some(false),
            (_, Some(false)) => Some(false),
            (Some(true), Some(true)) => Some(true),
            _ => None,
        }
    } else {
        match (left, right) {
            (Some(true), _) => Some(true),
            (_, Some(true)) => Some(true),
            (Some(false), Some(false)) => Some(false),
            _ => None,
        }
    };
    match result {
        Some(b) => Ok(Value::Bool(b)),
        None => Ok(Value::Null),
    }
}

/// Whether a comparison operator holds for an order.
pub open spec fn comparison_holds(kind: BinaryKind, order: Order) -> bool {
    match kind {
        BinaryKind::Eq => order == Order::Equal,
        BinaryKind::NotEq => order != Order::Equal,
        BinaryKind::Gt => order == Order::Greater,
        BinaryKind::GtEq => order != Order::Less,
        BinaryKind::Lt => order == Order::Less,
        BinaryKind::LtEq => order != Order::Greater,
        _ => false,
    }
}

/// The exact integer result of an arithmetic operator.
pub open spec fn exact(kind: BinaryKind, a: i64, b: i64) -> int {
    match kind {
        BinaryKind::Plus => a + b,
        BinaryKind::Minus => a - b,
        _ => a * b,
    }
}

/// The floating-point result of an arithmetic operator.
pub open spec fn float_arithmetic(m: FloatModel, kind: BinaryKind, a: u64, b: u64) -> u64 {
    match kind {
        BinaryKind::Plus => float_sum(m, a, b),
        BinaryKind::Minus => float_difference(m, a, b),
        _ => float_product(m, a, b),
    }
}

/// The error of an operator that cannot combine two types.
pub open spec fn cannot_combine(what: Seq<char>, a: Datum, b: Datum) -> Fault {
    Fault::Type(what + " cannot combine "@ + datum_type_text(a) + " and "@ + datum_type_text(b))
}

/// Two numbers as floating-point values.
pub open spec fn as_floats(m: FloatModel, a: Datum, b: Datum) -> Option<(u64, u64)> {
    match (a, b) {
        (Datum::Int64(x), Datum::Int64(y)) => Some((float_from(m, x as int), float_from(m, y as int))),
        (Datum::Int64(x), Datum::Float64(y)) => Some((float_from(m, x as int), y)),
        (Datum::Float64(x), Datum::Int64(y)) => Some((x, float_from(m, y as int))),
        (Datum::Float64(x), Datum::Float64(y)) => Some((x, y)),
        _ => None,
    }
}

/// The result of addition, subtraction or multiplication.
pub open spec fn arithmetic_datum(m: FloatModel, kind: BinaryKind, a: Datum, b: Datum) -> Result<
    Datum,
    Fault,
> {
    match (a, b) {
        (Datum::Int64(x), Datum::Int64(y)) => {
            let n = exact(kind, x, y);
            if i64::MIN <= n <= i64::MAX {
                Ok(Datum::Int64(n as i64))
            } else {
                Err(Fault::Type("Int64 arithmetic overflow"@))
            }
        },
        _ => match as_floats(m, a, b) {
            Some((x, y)) => finite_datum(
                float_arithmetic(m, kind, x, y),
                "Float64 arithmetic result"@,
            ),
            None => Err(cannot_combine("numeric operator"@, a, b)),
        },
    }
}

/// The result of division.
pub open spec fn divide_datum(m: FloatModel, a: Datum, b: Datum) -> Result<Datum, Fault> {
    match as_floats(m, a, b) {
        Some((x, y)) => if is_zero(y) {
            Err(Fault::Type("division by zero"@))
        } else {
            finite_datum(float_quotient(m, x, y), "Float64 division result"@)
        },
        None => Err(cannot_combine("division"@, a, b)),
    }
}

/// The remainder of truncating division.
pub open spec fn truncated_rem(a: int, b: int) -> int {
    if a >= 0 {
        a % (if b >= 0 { b } else { -b })
    } else {
        -((-a) % (if b >= 0 { b } else { -b }))
    }
}

/// The result of the remainder operator.
pub open spec fn modulo_datum(m: FloatModel, a: Datum, b: Datum) -> Result<Datum, Fault> {
    match (a, b) {
        (Datum::Int64(x), Datum::Int64(y)) => if y == 0 {
            Err(Fault::Type("modulo by zero"@))
        } else if x == i64::MIN && y == -1 {
            Err(Fault::Type("Int64 modulo overflow"@))
        } else {
            Ok(Datum::Int64(truncated_rem(x as int, y as int) as i64))
        },
        (Datum::Float64(_), Datum::Int64(0)) => Err(Fault::Type("modulo by zero"@)),
        _ => match as_floats(m, a, b) {
            Some((x, y)) => if b is Float64 && is_zero(y) {
                Err(Fault::Type("modulo by zero"@))
            } else {
                finite_datum(float_remainder(m, x, y), "Float64 modulo result"@)
            },
            None => Err(cannot_combine("modulo"@, a, b)),
        },
    }
}

/// The result of concatenation; the text must fit into the allowance.
pub open spec fn concat_datum(a: Datum, b: Datum, memory: Option<Budget>) -> Result<Datum, Fault> {
    match (a, b) {
        (Datum::Text(x), Datum::Text(y)) => {
            let length = sat_sum(utf8_len(x) as usize, utf8_len(y) as usize);
            match fits(memory, sat_sum(VALUE_BYTES, length)) {
                Ok(()) => Ok(Datum::Text(x + y)),
                Err(fault) => Err(fault),
            }
        },
        _ => Err(
            Fault::Type(
                "cannot concatenate "@ + datum_type_text(a) + " and "@ + datum_type_text(b),
            ),
        ),
    }
}

/// The result of a binary operator of a known kind; `text` shows an unsupported one.
pub open spec fn binary_datum(
    m: FloatModel,
    a: Datum,
    kind: BinaryKind,
    text: Seq<char>,
    b: Datum,
    memory: Option<Budget>,
) -> Result<Datum, Fault> {
    match kind {
        BinaryKind::And => boolean_datum(a, true, b),
        BinaryKind::Or => boolean_datum(a, false, b),
        _ => if is_null(a) || is_null(b) {
            Ok(Datum::Null)
        } else {
            match kind {
                BinaryKind::Eq | BinaryKind::NotEq | BinaryKind::Gt | BinaryKind::GtEq
                | BinaryKind::Lt | BinaryKind::LtEq => match datum_compare(a, b) {
                    Ok(order) => Ok(Datum::Bool(comparison_holds(kind, order))),
                    Err(fault) => Err(fault),
                },
                BinaryKind::Plus | BinaryKind::Minus | BinaryKind::Multiply => arithmetic_datum(
                    m,
                    kind,
                    a,
                    b,
                ),
                BinaryKind::Divide => divide_datum(m, a, b),
                BinaryKind::Modulo => modulo_datum(m, a, b),
                BinaryKind::Concat => concat_datum(a, b, memory),
                _ => Err(Fault::Unsupported("operator "@ + text)),
            }
        },
    }
}

fn combine_error(what: &str, left: &Value, right: &Value) -> (e: Error)
    ensures
        e@ == cannot_combine(what@, left@, right@),
{
    let head = concat2(what, " cannot combine ");
    Error::Type(concat4(head.as_str(), left.kind_name(), " and ", right.kind_name()))
}

pub(crate) fn to_floats<F: Fn(FloatRequest) -> FloatReply>(left: &Value, right: &Value, f: &F) -> (r: Option<
    (u64, u64),
>)
    requires
        answers_floats(*f),
    ensures
        r == as_floats(float_model(*f), left@, right@),
{
    match (left, right) {
        (Value::Int64(x), Value::Int64(y)) => {
            let a = ask_bits(f, FloatRequest::FromInteger(*x as i128));
            let b = ask_bits(f, FloatRequest::FromInteger(*y as i128));
            Some((a, b))
        },
        (Value::Int64(x), Value::Float64(y)) => {
            let a = ask_bits(f, FloatRequest::FromInteger(*x as i128));
            Some((a, *y))
        },
        (Value::Float64(x), Value::Int64(y)) => {
            let b = ask_bits(f, FloatRequest::FromInteger(*y as i128));
            Some((*x, b))
        },
        (Value::Float64(x), Value::Float64(y)) => Some((*x, *y)),
        _ => None,
    }
}

/// Adds, subtracts or multiplies.
pub fn numeric_arithmetic<F: Fn(FloatRequest) -> FloatReply>(
    kind: BinaryKind,
    left: &Value,
    right: &Value,
    f: &F,
) -> (r: Result<Value, Error>)
    requires
        answers_floats(*f),
    ensures
        outcome(r) == arithmetic_datum(float_model(*f), kind, left@, right@),
{
    if let (Value::Int64(x), Value::Int64(y)) = (left, right) {
        let n = match kind {
            BinaryKind::Plus => x.checked_add(*y),
            BinaryKind::Minus => x.checked_sub(*y),
            _ => x.checked_mul(*y),
        };
        return match n {
            Some(n) => Ok(Value::Int64(n)),
            None => Err(Error::Type("Int64 arithmetic overflow".to_owned())),
        };
    }
    match to_floats(left, right, f) {
        Some((x, y)) => {
            let bits = match kind {
                BinaryKind::Plus => ask_bits(f, FloatRequest::Sum(x, y)),
                BinaryKind::Minus => ask_bits(f, FloatRequest::Difference(x, y)),
                _ => ask_bits(f, FloatRequest::Product(x, y)),
            };
            finite_float(bits, "Float64 arithmetic result")
        },
        None => Err(combine_error("numeric operator", left, right)),
    }
}

/// Divides.
pub fn numeric_divide<F: Fn(FloatRequest) -> FloatReply>(left: &Value, right: &Value, f: &F) -> (r:
    Result<Value, Error>)
    requires
        answers_floats(*f),
    ensures
        outcome(r) == divide_datum(float_model(*f), left@, right@),
{
    match to_floats(left, right, f) {
        Some((x, y)) => {
            if zero(y) {
                Err(Error::Type("division by zero".to_owned()))
            } else {
                finite_float(ask_bits(f, FloatRequest::Quotient(x, y)), "Float64 division result")
            }
        },
        None => Err(combine_error("division", left, right)),
    }
}

pub(crate) fn rem_i64(x: i64, y: i64) -> (r: i64)
    requires
        y != 0,
        !(x == i64::MIN && y == -1),
    ensures
        r == truncated_rem(x as int, y as int),
{
    let a: i128 = if x >= 0 { x as i128 } else { -(x as i128) };
    let b: i128 = if y >= 0 { y as i128 } else { -(y as i128) };
    let m = a % b;
    proof {
        vstd::arithmetic::div_mod::lemma_mod_bound(a as int, b as int);
        vstd::arithmetic::div_mod::lemma_mod_decreases(a as nat, b as nat);
    }
    if x >= 0 {
        m as i64
    } else {
        (-m) as i64
    }
}

/// Computes the remainder.
pub fn numeric_modulo<F: Fn(FloatRequest) -> FloatReply>(left: &Value, right: &Value, f: &F) -> (r:
    Result<Value, Error>)
    requires
        answers_floats(*f),
    ensures
        outcome(r) == modulo_datum(float_model(*f), left@, right@),
{
    match (left, right) {
        (Value::Int64(x), Value::Int64(y)) => {
            if *y == 0 {
                return Err(Error::Type("modulo by zero".to_owned()));
            }
            if *x == i64::MIN && *y == -1 {
                return Err(Error::Type("Int64 modulo overflow".to_owned()));
            }
            return Ok(Value::Int64(rem_i64(*x, *y)));
        },
        (Value::Float64(_), Value::Int64(y)) => {
            if *y == 0 {
                return Err(Error::Type("modulo by zero".to_owned()));
            }
        },
        _ => {},
    }
    match to_floats(left, right, f) {
        Some((x, y)) => {
            if matches!(right, Value::Float64(_)) && zero(y) {
                Err(Error::Type("modulo by zero".to_owned()))
            } else {
                finite_float(ask_bits(f, FloatRequest::Remainder(x, y)), "Float64 modulo result")
            }
        },
        None => Err(combine_error("modulo", left, right)),
    }
}

/// Applies a binary operator.
pub fn eval_binary_with_memory<F: Fn(FloatRequest) -> FloatReply>(
    left: &Value,
    kind: BinaryKind,
    text: &str,
    right: &Value,
    memory: Option<Budget>,
    f: &F,
) -> (r: Result<Value, Error>)
    requires
        answers_floats(*f),
    ensures
        outcome(r) == binary_datum(float_model(*f), left@, kind, text@, right@, memory),
{
    match kind {
        BinaryKind::And => return eval_boolean(left, true, right),
        BinaryKind::Or => return eval_boolean(left, false, right),
        _ => {},
    }
    if left.is_null() || right.is_null() {
        return Ok(Value::Null);
    }
    match kind {
        BinaryKind::Eq | BinaryKind::NotEq | BinaryKind::Gt | BinaryKind::GtEq | BinaryKind::Lt
        | BinaryKind::LtEq => {
            let order = left.sql_order(right)?;
            let holds = match kind {
                BinaryKind::Eq => matches!(order, Order::Equal),
                BinaryKind::NotEq => !matches!(order, Order::Equal),
                BinaryKind::Gt => matches!(order, Order::Greater),
                BinaryKind::GtEq => !matches!(order, Order::Less),
                BinaryKind::Lt => matches!(order, Order::Less),
                _ => !matches!(order, Order::Greater),
            };
            Ok(Value::Bool(holds))
        },
        BinaryKind::Plus | BinaryKind::Minus | BinaryKind::Multiply => numeric_arithmetic(
            kind,
            left,
            right,
            f,
        ),
        BinaryKind::Divide => numeric_divide(left, right, f),
        BinaryKind::Modulo => numeric_modulo(left, right, f),
        BinaryKind::Concat => match (left, right) {
            (Value::String(x), Value::String(y)) => {
                let length = sat_add(byte_len(x.as_str()), byte_len(y.as_str()));
                check_fits(memory, sat_add(VALUE_BYTES, length))?;
                Ok(Value::String(concat2(x.as_str(), y.as_str())))
            },
            _ => Err(
                Error::Type(
                    concat4("cannot concatenate ", left.kind_name(), " and ", right.kind_name()),
                ),
            ),
        },
        _ => Err(Error::Unsupported(concat2("operator ", text))),
    }
}

/// The error for text that cannot be cast.
pub open spec fn cannot_cast_text(s: Seq<char>, target: Seq<char>) -> Fault {
    Fault::Type("cannot cast "@ + debug_text(s) + " to "@ + target)
}

/// The error for a type that cannot be cast.
pub open spec fn cannot_cast(source: Seq<char>, target: DataType) -> Fault {
    Fault::Type("cannot cast "@ + source + " to "@ + target.text())
}

/// The result of a cast.
pub open spec fn cast_datum(m: FloatModel, d: Datum, target: DataType) -> Result<Datum, Fault> {
    match (d, target) {
        (Datum::Null, _) => Ok(d),
        (Datum::Int64(_), DataType::Int64) => Ok(d),
        (Datum::Float64(_), DataType::Float64) => Ok(d),
        (Datum::Bool(_), DataType::Bool) => Ok(d),
        (_, DataType::String) => Ok(Datum::Text(datum_text(m, d))),
        (Datum::Int64(i), DataType::Float64) => Ok(Datum::Float64(float_from(m, i as int))),
        (Datum::Float64(b), DataType::Int64) => match float_to_i64(b) {
            Some(i) => Ok(Datum::Int64(i)),
            None => Err(cannot_cast(datum_type_text(d), target)),
        },
        (Datum::Text(s), DataType::Int64) => match i64_value(s) {
            Some(i) => Ok(Datum::Int64(i)),
            None => Err(cannot_cast_text(s, "Int64"@)),
        },
        (Datum::Text(s), DataType::Float64) => match float_parsed(m, s) {
            Some(bits) => finite_datum(bits, "Float64 cast result"@),
            None => Err(cannot_cast_text(s, "Float64"@)),
        },
        (Datum::Text(s), DataType::Bool) => if s == "true"@ {
            Ok(Datum::Bool(true))
        } else if s == "false"@ {
            Ok(Datum::Bool(false))
        } else {
            Err(cannot_cast_text(s, "Bool"@))
        },
        _ => Err(cannot_cast(datum_type_text(d), target)),
    }
}

fn text_cast_error(s: &str, target: &str) -> (e: Error)
    ensures
        e@ == cannot_cast_text(s@, target@),
{
    let shown = quote_text(s);
    Error::Type(concat4("cannot cast ", shown.as_str(), " to ", target))
}

/// Casts a value.
pub fn cast_value<F: Fn(FloatRequest) -> FloatReply>(value: Value, target: DataType, f: &F) -> (r:
    Result<Value, Error>)
    requires
        answers_floats(*f),
    ensures
        outcome(r) == cast_datum(float_model(*f), value@, target),
{
    match (&value, target) {
        (Value::Null, _) => Ok(value),
        (Value::Int64(_), DataType::Int64) => Ok(value),
        (Value::Float64(_), DataType::Float64) => Ok(value),
        (Value::Bool(_), DataType::Bool) => Ok(value),
        (_, DataType::String) => Ok(Value::String(value.display(f))),
        (Value::Int64(i), DataType::Float64) => Ok(
            Value::Float64(ask_bits(f, FloatRequest::FromInteger(*i as i128))),
        ),
        (Value::Float64(b), DataType::Int64) => match truncate_to_i64(*b) {
            Some(i) => Ok(Value::Int64(i)),
            None => Err(
                Error::Type(concat4("cannot cast ", value.kind_name(), " to ", target.name())),
            ),
        },
        (Value::String(s), DataType::Int64) => match parse_i64(s.as_str()) {
            Some(i) => Ok(Value::Int64(i)),
            None => Err(text_cast_error(s.as_str(), "Int64")),
        },
        (Value::String(s), DataType::Float64) => match parse_float(f, s.as_str()) {
            Some(bits) => finite_float(bits, "Float64 cast result"),
            None => Err(text_cast_error(s.as_str(), "Float64")),
        },
        (Value::String(s), DataType::Bool) => if same_text(s.as_str(), "true") {
            Ok(Value::Bool(true))
        } else if same_text(s.as_str(), "false") {
            Ok(Value::Bool(false))
        } else {
            Err(text_cast_error(s.as_str(), "Bool"))
        },
        _ => Err(Error::Type(concat4("cannot cast ", value.kind_name(), " to ", target.name()))),
    }
}

/// Whether a failing cast of this form yields NULL.
pub open spec fn is_lenient(form: CastForm) -> bool {
    form == CastForm::TryCast || form == CastForm::SafeCast
}

/// The result of a cast expression on an evaluated operand.
pub open spec fn cast_expr_datum(m: FloatModel, target: CastTarget, d: Datum) -> Result<Datum, Fault> {
    match parsed_data_type(target.data_type@) {
        Err(fault) => Err(fault),
        Ok((t, _)) => if target.has_format {
            Err(Fault::Unsupported("CAST FORMAT"@))
        } else {
            match cast_datum(m, d, t) {
                Ok(v) => Ok(v),
                Err(fault) => if is_lenient(target.kind) {
                    Ok(Datum::Null)
                } else {
                    Err(fault)
                },
            }
        },
    }
}

/// Evaluates a cast expression on an evaluated operand.
pub fn eval_cast<F: Fn(FloatRequest) -> FloatReply>(target: &CastTarget, value: Value, f: &F) -> (r:
    Result<Value, Error>)
    requires
        answers_floats(*f),
    ensures
        outcome(r) == cast_expr_datum(float_model(*f), *target, value@),
{
    let (t, nullable) = parse_data_type(target.data_type.as_str())?;
    if target.has_format {
        return Err(Error::Unsupported("CAST FORMAT".to_owned()));
    }
    match cast_value(value, t, f) {
        Ok(v) => Ok(v),
        Err(e) => match target.kind {
            CastForm::TryCast => Ok(Value::Null),
            CastForm::SafeCast => Ok(Value::Null),
            _ => Err(e),
        },
    }
}

/// The lower-case form of one character, by Unicode.
pub uninterp spec fn char_lowercase(c: char) -> Seq<char>;

/// The upper-case form of one character, by Unicode.
pub uninterp spec fn char_uppercase(c: char) -> Seq<char>;

/// The lower-case form of text, by Unicode and its context rules.
pub uninterp spec fn text_lowercase(s: Seq<char>) -> Seq<char>;

/// The upper-case form of text, by Unicode.
pub uninterp spec fn text_uppercase(s: Seq<char>) -> Seq<char>;

/// `char::to_lowercase`: a function of the character alone.
#[verifier::external_body]
fn lowercase_char(c: char) -> (r: Vec<char>)
    ensures
        r@ == char_lowercase(c),
{
    c.to_lowercase().collect()
}

/// `char::to_uppercase`: a function of the character alone.
#[verifier::external_body]
fn uppercase_char(c: char) -> (r: Vec<char>)
    ensures
        r@ == char_uppercase(c),
{
    c.to_uppercase().collect()
}

/// `str::to_lowercase`: a function of the text alone.
#[verifier::external_body]
pub(crate) fn lowercase_text(s: &str) -> (r: String)
    ensures
        r@ == text_lowercase(s@),
{
    s.to_lowercase()
}

/// `str::to_uppercase`: a function of the text alone.
#[verifier::external_body]
pub(crate) fn uppercase_text(s: &str) -> (r: String)
    ensures
        r@ == text_uppercase(s@),
{
    s.to_uppercase()
}

/// The first `n` characters, each in its lower or upper case.
pub open spec fn cased(s: Seq<char>, upper: bool, n: int) -> Seq<char>
    decreases n,
{
    if n <= 0 {
        Seq::empty()
    } else {
        cased(s, upper, n - 1) + if upper { char_uppercase(s[n - 1]) } else { char_lowercase(s[n - 1]) }
    }
}

/// The number of bytes that a character takes in UTF-8.
pub open spec fn char_bytes(c: char) -> usize {
    if (c as u32) < 0x80 {
        1
    } else if (c as u32) < 0x800 {
        2
    } else if (c as u32) < 0x10000 {
        3
    } else {
        4
    }
}

/// The bytes of the first `n` characters, held at the largest machine integer.
pub open spec fn chars_bytes(s: Seq<char>, n: int) -> usize
    decreases n,
{
    if n <= 0 {
        0
    } else {
        sat_sum(chars_bytes(s, n - 1), char_bytes(s[n - 1]))
    }
}

fn bytes_of_char(c: char) -> (n: usize)
    ensures
        n == char_bytes(c),
{
    if (c as u32) < 0x80 {
        1
    } else if (c as u32) < 0x800 {
        2
    } else if (c as u32) < 0x10000 {
        3
    } else {
        4
    }
}

/// The result of `LOWER` or `UPPER`; the text must fit into the allowance.
pub open spec fn cased_datum(s: Seq<char>, upper: bool, memory: Option<Budget>) -> Result<
    Datum,
    Fault,
> {
    let text = cased(s, upper, s.len() as int);
    match fits(memory, sat_sum(VALUE_BYTES, chars_bytes(text, text.len() as int))) {
        Ok(()) => Ok(Datum::Text(text)),
        Err(fault) => Err(fault),
    }
}

/// Converts text to lower or upper case, character by character.
pub fn case_with_memory(s: &str, upper: bool, memory: Option<Budget>) -> (r: Result<Value, Error>)
    ensures
        outcome(r) == cased_datum(s@, upper, memory),
{
    let chars = chars_of(s);
    let mut text: Vec<char> = Vec::new();
    let mut length: usize = 0;
    let mut i: usize = 0;
    while i < chars.len()
        invariant
            chars@ == s@,
            i <= chars.len(),
            text@ == cased(s@, upper, i as int),
            length == chars_bytes(text@, text.len() as int),
        decreases chars.len() - i,
    {
        let part = if upper { uppercase_char(chars[i]) } else { lowercase_char(chars[i]) };
        let ghost before = text@;
        let mut k: usize = 0;
        while k < part.len()
            invariant
                k <= part.len(),
                text@ == before + part@.take(k as int),
                length == chars_bytes(text@, text.len() as int),
            decreases part.len() - k,
        {
            let ghost shorter = text@;
            text.push(part[k]);
            length = sat_add(length, bytes_of_char(part[k]));
            proof {
                bytes_of_prefix(shorter, text@, shorter.len() as int);
                assert(before + part@.take(k as int).push(part[k as int]) =~= before + part@.take(
                    k + 1,
                ));
                assert(part@.take(k + 1) =~= part@.take(k as int).push(part[k as int]));
            }
            k += 1;
        }
        assert(part@.take(k as int) =~= part@);
        i += 1;
    }
    check_fits(memory, sat_add(VALUE_BYTES, length))?;
    assert(text@.subrange(0, text.len() as int) =~= text@);
    Ok(Value::String(string_from(&text, 0, text.len())))
}

/// The byte count of a prefix does not depend on what follows it.
proof fn bytes_of_prefix(a: Seq<char>, b: Seq<char>, n: int)
    requires
        n <= a.len(),
        n <= b.len(),
        forall|i: int| 0 <= i < n ==> a[i] == b[i],
    ensures
        chars_bytes(a, n) == chars_bytes(b, n),
    decreases n,
{
    if n > 0 {
        bytes_of_prefix(a, b, n - 1);
    }
}

/// A character as a literal pattern element.
pub open spec fn literal_token(c: char) -> LikeToken {
    LikeToken::Literal(c)
}

/// Characters as literal pattern elements.
pub open spec fn literal_tokens(s: Seq<char>) -> Seq<LikeToken> {
    Seq::new(s.len(), |i: int| literal_token(s[i]))
}

/// The first `n` pattern elements with their literals in lower case.
pub open spec fn folded_tokens(tokens: Seq<LikeToken>, n: int) -> Seq<LikeToken>
    decreases n,
{
    if n <= 0 {
        Seq::empty()
    } else {
        folded_tokens(tokens, n - 1) + match tokens[n - 1] {
            LikeToken::Literal(c) => literal_tokens(char_lowercase(c)),
            token => seq![token],
        }
    }
}

fn fold_tokens(tokens: &Vec<LikeToken>) -> (r: Vec<LikeToken>)
    ensures
        r@ == folded_tokens(tokens@, tokens.len() as int),
{
    let mut r: Vec<LikeToken> = Vec::new();
    let mut i: usize = 0;
    while i < tokens.len()
        invariant
            i <= tokens.len(),
            r@ == folded_tokens(tokens@, i as int),
        decreases tokens.len() - i,
    {
        let ghost before = r@;
        match tokens[i] {
            LikeToken::Literal(c) => {
                let part = lowercase_char(c);
                let ghost whole = literal_tokens(part@);
                assert(whole.len() == part@.len());
                let mut k: usize = 0;
                while k < part.len()
                    invariant
                        k <= part.len(),
                        whole == literal_tokens(part@),
                        whole.len() == part.len(),
                        r@ == before + whole.take(k as int),
                    decreases part.len() - k,
                {
                    r.push(LikeToken::Literal(part[k]));
                    assert(whole.take(k + 1) =~= whole.take(k as int).push(whole[k as int]));
                    assert(r@ =~= before + whole.take(k + 1));
                    k += 1;
                }
                assert(whole.take(k as int) =~= whole);
            },
            token => {
                r.push(token);
                assert(r@ =~= before + seq![token]);
            },
        }
        i += 1;
    }
    r
}

/// The result of a pattern match on evaluated operands.
pub open spec fn like_datum(value: Datum, pattern: Datum, matching: PatternMatch) -> Result<
    Datum,
    Fault,
> {
    if is_null(value) || is_null(pattern) {
        Ok(Datum::Null)
    } else {
        match (value, pattern) {
            (Datum::Text(v), Datum::Text(p)) => match escape_of(optional_text(matching.escape)) {
                Err(fault) => Err(fault),
                Ok(escape) => match tokens_from(p, escape, 0, Seq::empty()) {
                    Err(fault) => Err(fault),
                    Ok(tokens) => {
                        let matched = if matching.insensitive {
                            like(text_lowercase(v), folded_tokens(tokens, tokens.len() as int))
                        } else {
                            like(v, tokens)
                        };
                        Ok(Datum::Bool(matched != matching.negated))
                    },
                },
            },
            _ => Err(Fault::Type("LIKE expects String operands"@)),
        }
    }
}

/// Evaluates a pattern match on evaluated operands.
pub fn eval_like(value: &Value, pattern: &Value, matching: &PatternMatch) -> (r: Result<
    Value,
    Error,
>)
    ensures
        outcome(r) == like_datum(value@, pattern@, *matching),
{
    if value.is_null() || pattern.is_null() {
        return Ok(Value::Null);
    }
    match (value, pattern) {
        (Value::String(v), Value::String(p)) => {
            let escape = like_escape_char(&matching.escape)?;
            let tokens = like_tokens(p.as_str(), escape)?;
            let matched = if matching.insensitive {
                let folded = lowercase_text(v.as_str());
                let tokens = fold_tokens(&tokens);
                like_matches(&chars_of(folded.as_str()), &tokens)
            } else {
                like_matches(&chars_of(v.as_str()), &tokens)
            };
            Ok(Value::Bool(matched != matching.negated))
        },
        _ => Err(Error::Type("LIKE expects String operands".to_owned())),
    }
}

} // verus!
