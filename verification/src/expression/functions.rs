//! Functions of scalar expressions.

use vstd::prelude::*;
use crate::expression::fault::{ExpressionError, ExpressionFault};
use crate::expression::operators::{evaluated, type_error, type_fault};
use crate::scalar::{lowercase_text, text_lowercase, text_uppercase, uppercase_text};
use crate::text::{chars_of, concat4, int_text, same_text, space_end, space_start, string_from, trim, trim_end, trim_start, trimmed, usize_text};
use crate::types::{data_of, Datum, Value};

verus! {

/// The failure of a number of arguments.
pub open spec fn count_fault(function: Seq<char>, expected: Seq<char>, count: int) -> ExpressionFault {
    ExpressionFault::InvalidArgument {
        function,
        message: "expected "@ + expected + " arguments, got "@ + int_text(count),
    }
}

pub(crate) fn count_error(function: &str, expected: &str, count: usize) -> (e: ExpressionError)
    ensures
        e@ == count_fault(function@, expected@, count as int),
{
    ExpressionError::InvalidArgument {
        function: function.to_owned(),
        message: concat4("expected ", expected, " arguments, got ", usize_text(count).as_str()),
    }
}

/// The failure of an argument.
pub open spec fn argument_fault(function: Seq<char>, message: Seq<char>) -> ExpressionFault {
    ExpressionFault::InvalidArgument { function, message }
}

pub(crate) fn argument_error(function: &str, message: &str) -> (e: ExpressionError)
    ensures
        e@ == argument_fault(function@, message@),
{
    ExpressionError::InvalidArgument { function: function.to_owned(), message: message.to_owned() }
}

/// Whether a function takes one text.
pub open spec fn takes_text(name: Seq<char>) -> bool {
    name == "lower"@ || name == "upper"@ || name == "length"@ || name == "char_length"@ || name
        == "trim"@ || name == "ltrim"@ || name == "rtrim"@
}

pub(crate) fn is_text_function(name: &str) -> (r: bool)
    ensures
        r == takes_text(name@),
{
    same_text(name, "lower") || same_text(name, "upper") || same_text(name, "length") || same_text(
        name,
        "char_length",
    ) || same_text(name, "trim") || same_text(name, "ltrim") || same_text(name, "rtrim")
}

/// What a function of one text gives.
pub open spec fn text_result(name: Seq<char>, s: Seq<char>) -> Datum {
    if name == "lower"@ {
        Datum::Text(text_lowercase(s))
    } else if name == "upper"@ {
        Datum::Text(text_uppercase(s))
    } else if name == "length"@ || name == "char_length"@ {
        Datum::Int64(s.len() as i64)
    } else if name == "trim"@ {
        Datum::Text(trimmed(s))
    } else if name == "ltrim"@ {
        Datum::Text(s.skip(space_end(s, 0)))
    } else {
        Datum::Text(s.take(space_start(s, s.len() as int)))
    }
}

/// The result of a function of one text on a value.
pub open spec fn text_value(name: Seq<char>, d: Datum) -> Result<Datum, ExpressionFault> {
    match d {
        Datum::Null => Ok(Datum::Null),
        Datum::Text(s) => Ok(text_result(name, s)),
        _ => Err(type_fault(name, "String or NULL"@, d)),
    }
}

/// Applies a function of one text: `lower`, `upper`, `length`, `char_length`, `trim`, `ltrim`
/// or `rtrim`. A length counts characters.
pub fn text_function(name: &str, value: Value) -> (r: Result<Value, ExpressionError>)
    ensures
        evaluated(r) == text_value(name@, value@),
{
    match value {
        Value::Null => Ok(Value::Null),
        Value::String(s) => if same_text(name, "lower") {
            Ok(Value::String(lowercase_text(s.as_str())))
        } else if same_text(name, "upper") {
            Ok(Value::String(uppercase_text(s.as_str())))
        } else if same_text(name, "length") || same_text(name, "char_length") {
            Ok(Value::Int64(chars_of(s.as_str()).len() as i64))
        } else if same_text(name, "trim") {
            Ok(Value::String(trim(s.as_str())))
        } else if same_text(name, "ltrim") {
            Ok(Value::String(trim_start(s.as_str())))
        } else {
            Ok(Value::String(trim_end(s.as_str())))
        },
        value => Err(type_error(name, "String or NULL", &value)),
    }
}

/// Whether one of the first `n` values is NULL.
pub open spec fn any_null(values: Seq<Datum>) -> bool {
    exists|i: int| 0 <= i < values.len() && (#[trigger] values[i]) is Null
}

fn has_null(values: &Vec<Value>) -> (r: bool)
    ensures
        r == any_null(data_of(values@)),
{
    let ghost list = data_of(values@);
    let mut i: usize = 0;
    while i < values.len()
        invariant
            i <= values.len(),
            list == data_of(values@),
            forall|k: int| 0 <= k < i ==> !((#[trigger] list[k]) is Null),
        decreases values.len() - i,
    {
        assert(list[i as int] == values@[i as int]@);
        if values[i].is_null() {
            return true;
        }
        i = i + 1;
    }
    false
}

/// The texts from a position on behind `done`, or the first value that is no text.
pub open spec fn texts_from(values: Seq<Datum>, i: int, done: Seq<char>) -> Result<Seq<char>, Datum>
    decreases values.len() - i,
{
    if !(0 <= i < values.len()) {
        Ok(done)
    } else {
        match values[i] {
            Datum::Text(s) => texts_from(values, i + 1, done + s),
            d => Err(d),
        }
    }
}

/// The result of `concat` on values.
pub open spec fn concat_value(values: Seq<Datum>) -> Result<Datum, ExpressionFault> {
    if any_null(values) {
        Ok(Datum::Null)
    } else {
        match texts_from(values, 0, Seq::empty()) {
            Ok(s) => Ok(Datum::Text(s)),
            Err(d) => Err(type_fault("concat"@, "String or NULL"@, d)),
        }
    }
}

/// Joins texts.
#[verifier::loop_isolation(false)]
pub fn concat(values: &Vec<Value>) -> (r: Result<Value, ExpressionError>)
    ensures
        evaluated(r) == concat_value(data_of(values@)),
{
    if has_null(values) {
        return Ok(Value::Null);
    }
    let ghost list = data_of(values@);
    let mut output = String::new();
    assert(output@ =~= Seq::<char>::empty());
    let mut i: usize = 0;
    while i < values.len()
        invariant
            i <= values.len(),
            texts_from(list, 0, Seq::empty()) == texts_from(list, i as int, output@),
        decreases values.len() - i,
    {
        assert(list[i as int] == values@[i as int]@);
        match &values[i] {
            Value::String(s) => {
                output.append(s.as_str());
            },
            value => return Err(type_error("concat", "String or NULL", value)),
        }
        i = i + 1;
    }
    Ok(Value::String(output))
}

/// The part of a text from a start that counts from one, with at most `length` characters.
pub open spec fn part(s: Seq<char>, start: int, length: Option<int>) -> Seq<char> {
    if start > s.len() {
        Seq::empty()
    } else {
        let rest = s.skip(start - 1);
        match length {
            Some(n) if n < rest.len() => rest.take(n),
            _ => rest,
        }
    }
}

/// The result of `substring` on two or three values.
pub open spec fn substring_value(name: Seq<char>, values: Seq<Datum>) -> Result<
    Datum,
    ExpressionFault,
> {
    if any_null(values) {
        Ok(Datum::Null)
    } else {
        match (values[0], values[1]) {
            (Datum::Text(s), Datum::Int64(start)) => if start < 1 {
                Err(argument_fault(name, "start must be at least 1"@))
            } else if values.len() < 3 {
                Ok(Datum::Text(part(s, start as int, None)))
            } else {
                match values[2] {
                    Datum::Int64(length) => if length < 0 {
                        Err(argument_fault(name, "length cannot be negative"@))
                    } else {
                        Ok(Datum::Text(part(s, start as int, Some(length as int))))
                    },
                    d => Err(type_fault(name, "an Int64 length"@, d)),
                }
            },
            (Datum::Text(_), d) => Err(type_fault(name, "an Int64 start"@, d)),
            (d, _) => Err(type_fault(name, "a String first argument"@, d)),
        }
    }
}

fn text_part(s: &str, start: i64, length: Option<i64>) -> (r: String)
    requires
        start >= 1,
        length matches Some(n) ==> n >= 0,
    ensures
        r@ == part(
            s@,
            start as int,
            match length {
                Some(n) => Some(n as int),
                None => None,
            },
        ),
{
    let chars = chars_of(s);
    let count = chars.len();
    if start as u64 > count as u64 {
        let r = String::new();
        assert(r@ =~= Seq::<char>::empty());
        return r;
    }
    let from = (start - 1) as usize;
    let mut to = count;
    if let Some(n) = length {
        if (n as u64) < (count - from) as u64 {
            to = from + n as usize;
        }
    }
    let r = string_from(&chars, from, to);
    assert(r@ =~= part(
        s@,
        start as int,
        match length {
            Some(n) => Some(n as int),
            None => None,
        },
    ));
    r
}

/// Takes a part of a text by characters. The start counts from one.
pub fn substring(name: &str, values: &Vec<Value>) -> (r: Result<Value, ExpressionError>)
    requires
        2 <= values.len() <= 3,
    ensures
        evaluated(r) == substring_value(name@, data_of(values@)),
{
    if has_null(values) {
        return Ok(Value::Null);
    }
    let ghost list = data_of(values@);
    assert(list[0] == values@[0]@ && list[1] == values@[1]@);
    let s = match &values[0] {
        Value::String(s) => s,
        value => return Err(type_error(name, "a String first argument", value)),
    };
    let start = match &values[1] {
        Value::Int64(start) => *start,
        value => return Err(type_error(name, "an Int64 start", value)),
    };
    if start < 1 {
        return Err(argument_error(name, "start must be at least 1"));
    }
    let length = if values.len() == 3 {
        assert(list[2] == values@[2]@);
        match &values[2] {
            Value::Int64(length) => {
                if *length < 0 {
                    return Err(argument_error(name, "length cannot be negative"));
                }
                Some(*length)
            },
            value => return Err(type_error(name, "an Int64 length", value)),
        }
    } else {
        None
    };
    Ok(Value::String(text_part(s.as_str(), start, length)))
}

} // verus!
