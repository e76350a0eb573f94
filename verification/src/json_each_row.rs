//! One JSON object per line, read as a row of a table.
//!
//! Fields may stand in any order and in any case; a field that is missing has the default of
//! its type.

use vstd::prelude::*;
use vstd::utf8::{char_u32_cast, decode_utf8, valid_utf8};
use crate::bytes::{decode_text, utf8_failure};
use crate::error::{storage_text, StorageError, StorageFault};
use crate::float::{answers_floats, finite, float_model, float_parsed, is_finite, parse_float, FloatModel, FloatReply, FloatRequest};
use crate::insert::{blank, definition_fault, is_blank, row_fault, values_fault, RowField, RowTable};
use crate::lexer::{char_at, digit_at, digits_end, offset, offsets_grow, pair_at, Scanner};
use crate::text::{char_from, chars_of, contains_char, concat2, concat3, concat4, concat5, i64_value, int_text, lower, parse_i64, same_ignoring_case, string_from, usize_text};
use crate::types::{data_of, datum_type, DataType, Datum, Value};

verus! {

/// The largest record in bytes, without the end of its line.
pub const MAX_RECORD_BYTES: usize = 16_777_216;

/// A message with the byte that it is about.
pub open spec fn at_byte(message: Seq<char>, position: int) -> Seq<char> {
    message + " at byte "@ + int_text(position)
}

/// The value of a hexadecimal digit.
pub open spec fn hex_value(c: char) -> Option<int> {
    if '0' <= c <= '9' {
        Some(c as int - 48)
    } else if 'a' <= c <= 'f' {
        Some(c as int - 87)
    } else if 'A' <= c <= 'F' {
        Some(c as int - 55)
    } else {
        None
    }
}

/// Whether four hexadecimal digits stand at a position.
pub open spec fn quad_stands(s: Seq<char>, i: int) -> bool {
    &&& 0 <= i
    &&& i + 4 <= s.len()
    &&& hex_value(s[i]) is Some
    &&& hex_value(s[i + 1]) is Some
    &&& hex_value(s[i + 2]) is Some
    &&& hex_value(s[i + 3]) is Some
}

/// The number that four hexadecimal digits denote.
pub open spec fn quad_at(s: Seq<char>, i: int) -> Result<int, Seq<char>> {
    if offset(s, i) + 4 > offset(s, s.len() as int) {
        Err(at_byte("incomplete Unicode escape"@, offset(s, i)))
    } else if !quad_stands(s, i) {
        Err(at_byte("invalid Unicode escape"@, offset(s, i)))
    } else {
        Ok(
            hex_value(s[i])->0 * 4096 + hex_value(s[i + 1])->0 * 256 + hex_value(s[i + 2])->0 * 16
                + hex_value(s[i + 3])->0,
        )
    }
}

/// The character that an escape with its digits at a position stands for, and the position
/// behind it.
pub open spec fn escape_at(s: Seq<char>, i: int) -> Result<(char, int), Seq<char>> {
    let unpaired = "high surrogate must be followed by a low surrogate"@;
    match quad_at(s, i) {
        Err(fault) => Err(fault),
        Ok(first) => if 0xd800 <= first <= 0xdbff {
            if !pair_at(s, i + 4, '\\', 'u') {
                Err(at_byte(unpaired, offset(s, i + 4)))
            } else {
                match quad_at(s, i + 6) {
                    Err(fault) => Err(fault),
                    Ok(second) => if !(0xdc00 <= second <= 0xdfff) {
                        Err(at_byte(unpaired, offset(s, i + 10)))
                    } else {
                        Ok(
                            (
                                (0x10000 + (first - 0xd800) * 1024 + (second - 0xdc00)) as char,
                                i + 10,
                            ),
                        )
                    },
                }
            }
        } else if 0xdc00 <= first <= 0xdfff {
            Err(at_byte("low surrogate is missing a leading high surrogate"@, offset(s, i + 4)))
        } else {
            Ok((first as char, i + 4))
        },
    }
}

/// The character that a short escape stands for.
pub open spec fn escape_of(c: char) -> Option<char> {
    match c {
        '"' => Some('"'),
        '\\' => Some('\\'),
        '/' => Some('/'),
        'b' => Some('\u{8}'),
        'f' => Some('\u{c}'),
        'n' => Some('\n'),
        'r' => Some('\r'),
        't' => Some('\t'),
        _ => None,
    }
}

/// The rest of a string behind characters that are decoded, and the position behind it.
pub open spec fn string_tail(s: Seq<char>, i: int, done: Seq<char>) -> Result<
    (Seq<char>, int),
    Seq<char>,
>
    decreases
            if i < s.len() {
                s.len() - i
            } else {
                0
            },
{
    if !(0 <= i < s.len()) {
        Err(at_byte("unterminated JSON string"@, offset(s, i)))
    } else if s[i] == '"' {
        Ok((done, i + 1))
    } else if s[i] == '\\' {
        if i + 1 >= s.len() {
            Err(at_byte("unterminated JSON string escape"@, offset(s, i + 1)))
        } else if s[i + 1] == 'u' {
            match escape_at(s, i + 2) {
                Err(fault) => Err(fault),
                Ok((c, q)) => string_tail(s, q, done.push(c)),
            }
        } else {
            match escape_of(s[i + 1]) {
                Some(c) => string_tail(s, i + 2, done.push(c)),
                None => Err(at_byte("invalid JSON string escape"@, offset(s, i + 1) + 1)),
            }
        }
    } else if (s[i] as u32) < 32 {
        Err(at_byte("unescaped control character in JSON string"@, offset(s, i)))
    } else {
        string_tail(s, i + 1, done.push(s[i]))
    }
}

/// The string at a position, and the position behind it.
pub open spec fn string_at(s: Seq<char>, i: int) -> Result<(Seq<char>, int), Seq<char>> {
    if !char_at(s, i, '"') {
        Err(at_byte("expected a JSON string"@, offset(s, i)))
    } else {
        string_tail(s, i + 1, Seq::empty())
    }
}

/// The position behind the whole part of a number.
pub open spec fn whole_end(s: Seq<char>, i: int) -> Result<int, Seq<char>> {
    if char_at(s, i, '0') {
        if digit_at(s, i + 1) {
            Err(at_byte("invalid JSON number with a leading zero"@, offset(s, i + 1)))
        } else {
            Ok(i + 1)
        }
    } else if digit_at(s, i) {
        Ok(digits_end(s, i))
    } else {
        Err(at_byte("expected a JSON number"@, offset(s, i)))
    }
}

/// The position behind a fraction, if one stands at a position.
pub open spec fn fraction_end(s: Seq<char>, i: int) -> Result<int, Seq<char>> {
    if !char_at(s, i, '.') {
        Ok(i)
    } else if !digit_at(s, i + 1) {
        Err(at_byte("expected a digit after the decimal point"@, offset(s, i + 1)))
    } else {
        Ok(digits_end(s, i + 1))
    }
}

/// The position behind an exponent, if one stands at a position.
pub open spec fn exponent_end(s: Seq<char>, i: int) -> Result<int, Seq<char>> {
    if !char_at(s, i, 'e') && !char_at(s, i, 'E') {
        Ok(i)
    } else {
        let j = if char_at(s, i + 1, '+') || char_at(s, i + 1, '-') { i + 2 } else { i + 1 };
        if !digit_at(s, j) {
            Err(at_byte("expected an exponent digit"@, offset(s, j)))
        } else {
            Ok(digits_end(s, j))
        }
    }
}

/// The position behind a number.
pub open spec fn numeral_end(s: Seq<char>, i: int) -> Result<int, Seq<char>> {
    match whole_end(s, if char_at(s, i, '-') { i + 1 } else { i }) {
        Err(fault) => Err(fault),
        Ok(j) => match fraction_end(s, j) {
            Err(fault) => Err(fault),
            Ok(k) => exponent_end(s, k),
        },
    }
}

/// Whether a keyword stands at a position.
pub open spec fn word_at(s: Seq<char>, i: int, word: Seq<char>) -> bool {
    0 <= i && i + word.len() <= s.len() && s.subrange(i, i + word.len()) == word
}

/// The failure of a value that has not the type of its column.
pub open spec fn type_fault(field: RowField, position: int) -> Seq<char> {
    at_byte(
        "field '"@ + field.name@ + "' has the wrong JSON type; expected "@
            + field.data_type.text(),
        position,
    )
}

/// The number at a position for a column, as a text, and the position behind it.
pub open spec fn number_for(s: Seq<char>, i: int, field: RowField) -> Result<
    (Seq<char>, int),
    Seq<char>,
> {
    if !char_at(s, i, '-') && !digit_at(s, i) {
        Err(type_fault(field, offset(s, i)))
    } else {
        match numeral_end(s, i) {
            Err(fault) => Err("field '"@ + field.name@ + "': "@ + fault),
            Ok(j) => Ok((s.subrange(i, j), j)),
        }
    }
}

/// Whether a number has a fraction or an exponent.
pub open spec fn is_fractional(text: Seq<char>) -> bool {
    text.contains('.') || text.contains('e') || text.contains('E')
}

/// The value at a position for a column, and the position behind it.
pub open spec fn value_at(s: Seq<char>, i: int, table: Seq<char>, field: RowField, m: FloatModel) -> Result<
    (Datum, int),
    Seq<char>,
> {
    let name = field.name@;
    if word_at(s, i, "null"@) {
        Err(
            at_byte(
                "field '"@ + name + "' is null but column '"@ + table + "."@ + name
                    + "' is not nullable"@,
                offset(s, i + 4),
            ),
        )
    } else {
        match field.data_type {
            DataType::String => if !char_at(s, i, '"') {
                Err(type_fault(field, offset(s, i)))
            } else {
                match string_at(s, i) {
                    Err(fault) => Err(fault),
                    Ok((text, j)) => Ok((Datum::Text(text), j)),
                }
            },
            DataType::Bool => if word_at(s, i, "true"@) {
                Ok((Datum::Bool(true), i + 4))
            } else if word_at(s, i, "false"@) {
                Ok((Datum::Bool(false), i + 5))
            } else {
                Err(type_fault(field, offset(s, i)))
            },
            DataType::Int64 => match number_for(s, i, field) {
                Err(fault) => Err(fault),
                Ok((text, j)) => if is_fractional(text) {
                    Err(type_fault(field, offset(s, j)))
                } else {
                    match i64_value(text) {
                        Some(n) => Ok((Datum::Int64(n), j)),
                        None => Err(
                            at_byte(
                                "field '"@ + name
                                    + "' contains an Int64 outside the supported range"@,
                                offset(s, j),
                            ),
                        ),
                    }
                },
            },
            DataType::Float64 => match number_for(s, i, field) {
                Err(fault) => Err(fault),
                Ok((text, j)) => match float_parsed(m, text) {
                    None => Err(
                        at_byte("field '"@ + name + "' is not a valid Float64"@, offset(s, j)),
                    ),
                    Some(bits) => if is_finite(bits) {
                        Ok((Datum::Float64(bits), j))
                    } else {
                        Err(
                            at_byte(
                                "field '"@ + name + "' contains a non-finite Float64"@,
                                offset(s, j),
                            ),
                        )
                    },
                },
            },
        }
    }
}

/// The position behind white space.
pub open spec fn past_space(s: Seq<char>, i: int) -> int
    decreases s.len() - i,
{
    if 0 <= i < s.len() && (s[i] == ' ' || s[i] == '\n' || s[i] == '\r' || s[i] == '\t') {
        past_space(s, i + 1)
    } else {
        i
    }
}

/// The last of the first `n` columns with a name, whatever its case.
pub open spec fn column_named(fields: Seq<RowField>, name: Seq<char>, n: int) -> Option<int>
    decreases n,
{
    if n <= 0 {
        None
    } else if lower(fields[n - 1].name@) == lower(name) {
        Some(n - 1)
    } else {
        column_named(fields, name, n - 1)
    }
}

/// The value of a field that is missing.
pub open spec fn default_datum(data_type: DataType) -> Datum {
    match data_type {
        DataType::Int64 => Datum::Int64(0),
        DataType::Float64 => Datum::Float64(0),
        DataType::Bool => Datum::Bool(false),
        DataType::String => Datum::Text(Seq::empty()),
    }
}

/// The row of some values, with defaults for those that are missing.
pub open spec fn completed(values: Seq<Option<Datum>>, fields: Seq<RowField>) -> Seq<Datum> {
    Seq::new(
        fields.len(),
        |k: int|
            match values[k] {
                Some(d) => d,
                None => default_datum(fields[k].data_type),
            },
    )
}

/// The end of a record behind its object.
pub open spec fn record_end(s: Seq<char>, i: int, values: Seq<Option<Datum>>, fields: Seq<RowField>) -> Result<
    Seq<Datum>,
    Seq<char>,
> {
    let e = past_space(s, i);
    if e != s.len() {
        Err(at_byte("unexpected content after JSON object"@, offset(s, e)))
    } else {
        Ok(completed(values, fields))
    }
}

/// A field of an object: its column, its value, and the position behind it and white space.
pub open spec fn field_at(
    s: Seq<char>,
    i: int,
    values: Seq<Option<Datum>>,
    table: Seq<char>,
    fields: Seq<RowField>,
    m: FloatModel,
) -> Result<(int, Datum, int), Seq<char>> {
    let p = past_space(s, i);
    if !char_at(s, p, '"') {
        Err(at_byte("expected a quoted object field name"@, offset(s, p)))
    } else {
        match string_at(s, p) {
            Err(fault) => Err(fault),
            Ok((name, q)) => {
                let colon = past_space(s, q);
                if !char_at(s, colon, ':') {
                    Err(at_byte("expected ':' after object field name"@, offset(s, colon)))
                } else {
                    let v = past_space(s, colon + 1);
                    match column_named(fields, name, fields.len() as int) {
                        None => Err(
                            at_byte(
                                "unknown field '"@ + name + "' for table '"@ + table + "'"@,
                                offset(s, v),
                            ),
                        ),
                        Some(column) => if values[column] is Some {
                            Err(at_byte("duplicate field '"@ + name + "'"@, offset(s, v)))
                        } else {
                            match value_at(s, v, table, fields[column], m) {
                                Err(fault) => Err(fault),
                                Ok((d, w)) => Ok((column, d, past_space(s, w))),
                            }
                        },
                    }
                }
            },
        }
    }
}

/// The fields of an object from a position on, and the end of the record.
pub open spec fn fields_from(
    s: Seq<char>,
    i: int,
    values: Seq<Option<Datum>>,
    table: Seq<char>,
    fields: Seq<RowField>,
    m: FloatModel,
) -> Result<Seq<Datum>, Seq<char>>
    decreases
            if i < s.len() {
                s.len() - i
            } else {
                0
            },
{
    match field_at(s, i, values, table, fields, m) {
        Err(fault) => Err(fault),
        Ok((column, d, w)) => {
            let next = values.update(column, Some(d));
            if char_at(s, w, '}') {
                record_end(s, w + 1, next, fields)
            } else if char_at(s, w, ',') && i < w {
                fields_from(s, w + 1, next, table, fields, m)
            } else {
                Err(at_byte("expected ',' or '}' after object field"@, offset(s, w)))
            }
        },
    }
}

/// The row that a record holds.
pub open spec fn record_of(s: Seq<char>, table: Seq<char>, fields: Seq<RowField>, m: FloatModel) -> Result<
    Seq<Datum>,
    Seq<char>,
> {
    let p = past_space(s, 0);
    let values = Seq::new(fields.len(), |k: int| None::<Datum>);
    if !char_at(s, p, '{') {
        Err(at_byte("expected a JSON object"@, offset(s, p)))
    } else {
        let q = past_space(s, p + 1);
        if char_at(s, q, '}') {
            record_end(s, q + 1, values, fields)
        } else {
            fields_from(s, q, values, table, fields, m)
        }
    }
}

fn fault_at(message: &str, position: usize) -> (s: String)
    ensures
        s@ == at_byte(message@, position as int),
{
    concat3(message, " at byte ", usize_text(position).as_str())
}

fn digit_of(c: char) -> (r: Option<u32>)
    ensures
        match r {
            Some(n) => hex_value(c) == Some(n as int) && n < 16,
            None => hex_value(c) is None,
        },
{
    if '0' <= c && c <= '9' {
        Some(c as u32 - 48)
    } else if 'a' <= c && c <= 'f' {
        Some(c as u32 - 87)
    } else if 'A' <= c && c <= 'F' {
        Some(c as u32 - 55)
    } else {
        None
    }
}

fn parse_hex_quad(text: &Scanner, i: usize) -> (r: Result<u32, String>)
    requires
        text.wf(),
        i <= text.chars.len(),
    ensures
        match r {
            Ok(n) => quad_at(text.chars@, i as int) == Ok::<int, Seq<char>>(n as int) && n < 0x10000
                && i + 4 <= text.chars.len(),
            Err(e) => quad_at(text.chars@, i as int) == Err::<int, Seq<char>>(e@),
        },
{
    let ghost s = text.chars@;
    let total = text.chars.len();
    proof {
        offsets_grow(s, i as int, total as int);
    }
    let position = text.position(i);
    if text.position(total) - position < 4 {
        return Err(fault_at("incomplete Unicode escape", position));
    }
    if total - i >= 4 {
        let a = digit_of(text.chars[i]);
        let b = digit_of(text.chars[i + 1]);
        let c = digit_of(text.chars[i + 2]);
        let d = digit_of(text.chars[i + 3]);
        match (a, b, c, d) {
            (Some(a), Some(b), Some(c), Some(d)) => {
                return Ok(a * 4096 + b * 256 + c * 16 + d);
            },
            _ => {},
        }
    }
    Err(fault_at("invalid Unicode escape", position))
}

fn parse_unicode_escape(text: &Scanner, i: usize) -> (r: Result<(char, usize), String>)
    requires
        text.wf(),
        i <= text.chars.len(),
    ensures
        match r {
            Ok((c, j)) => escape_at(text.chars@, i as int) == Ok::<(char, int), Seq<char>>(
                (c, j as int),
            ) && i < j <= text.chars.len(),
            Err(e) => escape_at(text.chars@, i as int) == Err::<(char, int), Seq<char>>(e@),
        },
{
    let unpaired = "high surrogate must be followed by a low surrogate";
    let first = parse_hex_quad(text, i)?;
    let mut code = first;
    let mut end = i + 4;
    if 0xd800 <= first && first <= 0xdbff {
        if !text.pair(i + 4, '\\', 'u') {
            return Err(fault_at(unpaired, text.position(i + 4)));
        }
        let second = parse_hex_quad(text, i + 6)?;
        if !(0xdc00 <= second && second <= 0xdfff) {
            return Err(fault_at(unpaired, text.position(i + 10)));
        }
        code = 0x10000 + (first - 0xd800) * 1024 + (second - 0xdc00);
        end = i + 10;
    } else if 0xdc00 <= first && first <= 0xdfff {
        return Err(
            fault_at(
                "low surrogate is missing a leading high surrogate",
                text.position(i + 4),
            ),
        );
    }
    match char_from(code) {
        Some(c) => {
            proof {
                char_u32_cast(c, code);
            }
            Ok((c, end))
        },
        None => Err(fault_at("invalid Unicode escape", text.position(end))),
    }
}

fn unescape(c: char) -> (r: Option<char>)
    ensures
        r == escape_of(c),
{
    match c {
        '"' => Some('"'),
        '\\' => Some('\\'),
        '/' => Some('/'),
        'b' => Some('\u{8}'),
        'f' => Some('\u{c}'),
        'n' => Some('\n'),
        'r' => Some('\r'),
        't' => Some('\t'),
        _ => None,
    }
}

#[verifier::loop_isolation(false)]
fn parse_string(text: &Scanner, start: usize) -> (r: Result<(String, usize), String>)
    requires
        text.wf(),
        start <= text.chars.len(),
    ensures
        match r {
            Ok((value, j)) => string_at(text.chars@, start as int) == Ok::<
                (Seq<char>, int),
                Seq<char>,
            >((value@, j as int)) && start < j <= text.chars.len(),
            Err(e) => string_at(text.chars@, start as int) == Err::<(Seq<char>, int), Seq<char>>(
                e@,
            ),
        },
{
    let ghost s = text.chars@;
    if !text.one(start, '"') {
        return Err(fault_at("expected a JSON string", text.position(start)));
    }
    let mut value = String::new();
    assert(value@ =~= Seq::<char>::empty());
    let mut i = start + 1;
    while i < text.chars.len()
        invariant
            start < i <= text.chars.len(),
            string_tail(s, start + 1, Seq::empty()) == string_tail(s, i as int, value@),
        decreases text.chars.len() - i,
    {
        let c = text.chars[i];
        if c == '"' {
            return Ok((value, i + 1));
        } else if c == '\\' {
            if i + 1 >= text.chars.len() {
                return Err(fault_at("unterminated JSON string escape", text.position(i + 1)));
            }
            let escaped = text.chars[i + 1];
            if escaped == 'u' {
                let (c, j) = parse_unicode_escape(text, i + 2)?;
                value.push(c);
                i = j;
            } else {
                match unescape(escaped) {
                    Some(c) => {
                        value.push(c);
                        i = i + 2;
                    },
                    None => {
                        proof {
                            offsets_grow(s, i + 1, i + 2);
                        }
                        let position = text.position(i + 1);
                        let after = text.position(i + 2);
                        assert(position < after);
                        return Err(fault_at("invalid JSON string escape", position + 1));
                    },
                }
            }
        } else if (c as u32) < 32 {
            return Err(
                fault_at("unescaped control character in JSON string", text.position(i)),
            );
        } else {
            value.push(c);
            i = i + 1;
        }
    }
    Err(fault_at("unterminated JSON string", text.position(i)))
}

fn parse_number(text: &Scanner, start: usize) -> (r: Result<usize, String>)
    requires
        text.wf(),
        start <= text.chars.len(),
    ensures
        match r {
            Ok(j) => numeral_end(text.chars@, start as int) == Ok::<int, Seq<char>>(j as int) && start
                < j <= text.chars.len(),
            Err(e) => numeral_end(text.chars@, start as int) == Err::<int, Seq<char>>(e@),
        },
{
    let mut i = start;
    if text.one(i, '-') {
        i = i + 1;
    }
    if text.one(i, '0') {
        i = i + 1;
        if text.digit(i) {
            return Err(
                fault_at("invalid JSON number with a leading zero", text.position(i)),
            );
        }
    } else if text.digit(i) {
        i = text.skip_digits(i);
    } else {
        return Err(fault_at("expected a JSON number", text.position(i)));
    }
    if text.one(i, '.') {
        if !text.digit(i + 1) {
            return Err(
                fault_at("expected a digit after the decimal point", text.position(i + 1)),
            );
        }
        i = text.skip_digits(i + 1);
    }
    if text.one(i, 'e') || text.one(i, 'E') {
        i = i + 1;
        if text.one(i, '+') || text.one(i, '-') {
            i = i + 1;
        }
        if !text.digit(i) {
            return Err(fault_at("expected an exponent digit", text.position(i)));
        }
        i = text.skip_digits(i);
    }
    Ok(i)
}

fn word(text: &Scanner, i: usize, keyword: &str) -> (r: bool)
    requires
        i <= text.chars.len(),
    ensures
        r == word_at(text.chars@, i as int, keyword@),
{
    let letters = chars_of(keyword);
    if text.chars.len() - i < letters.len() {
        return false;
    }
    let mut k: usize = 0;
    while k < letters.len()
        invariant
            k <= letters.len(),
            letters@ == keyword@,
            i + letters.len() <= text.chars.len(),
            forall|j: int| 0 <= j < k ==> text.chars@[i + j] == #[trigger] keyword@[j],
        decreases letters.len() - k,
    {
        if text.chars[i + k] != letters[k] {
            assert(text.chars@.subrange(i as int, i + keyword@.len())[k as int] != keyword@[k as int]);
            return false;
        }
        k = k + 1;
    }
    assert(text.chars@.subrange(i as int, i + keyword@.len()) =~= keyword@);
    true
}

fn type_error(field: &RowField, position: usize) -> (s: String)
    ensures
        s@ == type_fault(*field, position as int),
{
    let message = concat4(
        "field '",
        field.name.as_str(),
        "' has the wrong JSON type; expected ",
        field.data_type.name(),
    );
    fault_at(message.as_str(), position)
}

fn parse_number_for(text: &Scanner, i: usize, field: &RowField) -> (r: Result<
    (String, usize),
    String,
>)
    requires
        text.wf(),
        i <= text.chars.len(),
    ensures
        match r {
            Ok((number, j)) => number_for(text.chars@, i as int, *field) == Ok::<
                (Seq<char>, int),
                Seq<char>,
            >((number@, j as int)) && i < j <= text.chars.len(),
            Err(e) => number_for(text.chars@, i as int, *field) == Err::<
                (Seq<char>, int),
                Seq<char>,
            >(e@),
        },
{
    if !text.one(i, '-') && !text.digit(i) {
        return Err(type_error(field, text.position(i)));
    }
    match parse_number(text, i) {
        Err(message) => Err(
            concat4("field '", field.name.as_str(), "': ", message.as_str()),
        ),
        Ok(j) => Ok((string_from(&text.chars, i, j), j)),
    }
}

/// The content of a result that holds a value and the position behind it.
pub open spec fn value_read(r: Result<(Value, usize), String>) -> Result<(Datum, int), Seq<char>> {
    match r {
        Ok((v, j)) => Ok((v@, j as int)),
        Err(e) => Err(e@),
    }
}

fn parse_value<F: Fn(FloatRequest) -> FloatReply>(
    text: &Scanner,
    i: usize,
    table: &str,
    field: &RowField,
    f: &F,
) -> (r: Result<(Value, usize), String>)
    requires
        text.wf(),
        i <= text.chars.len(),
        answers_floats(*f),
    ensures
        value_read(r) == value_at(text.chars@, i as int, table@, *field, float_model(*f)),
        r matches Ok((_, j)) ==> i < j <= text.chars.len(),
{
    proof {
        reveal_strlit("null");
        reveal_strlit("true");
        reveal_strlit("false");
    }
    let name = field.name.as_str();
    if word(text, i, "null") {
        let begin = concat5("field '", name, "' is null but column '", table, ".");
        let message = concat3(begin.as_str(), name, "' is not nullable");
        return Err(fault_at(message.as_str(), text.position(i + 4)));
    }
    match field.data_type {
        DataType::String => {
            if !text.one(i, '"') {
                return Err(type_error(field, text.position(i)));
            }
            let (value, j) = parse_string(text, i)?;
            Ok((Value::String(value), j))
        },
        DataType::Bool => {
            if word(text, i, "true") {
                Ok((Value::Bool(true), i + 4))
            } else if word(text, i, "false") {
                Ok((Value::Bool(false), i + 5))
            } else {
                Err(type_error(field, text.position(i)))
            }
        },
        DataType::Int64 => {
            let (number, j) = parse_number_for(text, i, field)?;
            if contains_char(number.as_str(), '.') || contains_char(number.as_str(), 'e')
                || contains_char(number.as_str(), 'E') {
                return Err(type_error(field, text.position(j)));
            }
            match parse_i64(number.as_str()) {
                Some(n) => Ok((Value::Int64(n), j)),
                None => {
                    let message = concat3(
                        "field '",
                        name,
                        "' contains an Int64 outside the supported range",
                    );
                    Err(fault_at(message.as_str(), text.position(j)))
                },
            }
        },
        DataType::Float64 => {
            let (number, j) = parse_number_for(text, i, field)?;
            match parse_float(f, number.as_str()) {
                None => {
                    let message = concat3("field '", name, "' is not a valid Float64");
                    Err(fault_at(message.as_str(), text.position(j)))
                },
                Some(bits) => {
                    if finite(bits) {
                        Ok((Value::Float64(bits), j))
                    } else {
                        let message = concat3("field '", name, "' contains a non-finite Float64");
                        Err(fault_at(message.as_str(), text.position(j)))
                    }
                },
            }
        },
    }
}

fn skip_whitespace(text: &Scanner, start: usize) -> (i: usize)
    requires
        start <= text.chars.len(),
    ensures
        i == past_space(text.chars@, start as int),
        start <= i <= text.chars.len(),
{
    let mut i = start;
    while i < text.chars.len() && (text.chars[i] == ' ' || text.chars[i] == '\n' || text.chars[i]
        == '\r' || text.chars[i] == '\t')
        invariant
            start <= i <= text.chars.len(),
            past_space(text.chars@, start as int) == past_space(text.chars@, i as int),
        decreases text.chars.len() - i,
    {
        i = i + 1;
    }
    i
}

fn find_column(fields: &Vec<RowField>, name: &str) -> (r: Option<usize>)
    ensures
        match r {
            Some(k) => column_named(fields@, name@, fields@.len() as int) == Some(k as int) && k
                < fields@.len(),
            None => column_named(fields@, name@, fields@.len() as int) is None,
        },
{
    let mut n: usize = fields.len();
    while n > 0
        invariant
            n <= fields.len(),
            column_named(fields@, name@, fields@.len() as int) == column_named(
                fields@,
                name@,
                n as int,
            ),
        decreases n,
    {
        if same_ignoring_case(fields[n - 1].name.as_str(), name) {
            return Some(n - 1);
        }
        n = n - 1;
    }
    None
}

/// The contents of some values.
pub open spec fn slots_of(values: Seq<Option<Value>>) -> Seq<Option<Datum>> {
    Seq::new(
        values.len(),
        |k: int|
            match values[k] {
                Some(v) => Some(v@),
                None => None,
            },
    )
}

fn parse_field<F: Fn(FloatRequest) -> FloatReply>(
    text: &Scanner,
    i: usize,
    values: &Vec<Option<Value>>,
    table: &str,
    fields: &Vec<RowField>,
    f: &F,
) -> (r: Result<(usize, Value, usize), String>)
    requires
        text.wf(),
        i <= text.chars.len(),
        values@.len() == fields@.len(),
        answers_floats(*f),
    ensures
        ({
            let found = field_at(
                text.chars@,
                i as int,
                slots_of(values@),
                table@,
                fields@,
                float_model(*f),
            );
            match r {
                Ok((column, v, w)) => found == Ok::<(int, Datum, int), Seq<char>>(
                    (column as int, v@, w as int),
                ) && column < fields@.len() && i < w <= text.chars.len(),
                Err(e) => found == Err::<(int, Datum, int), Seq<char>>(e@),
            }
        }),
{
    let ghost m = float_model(*f);
    let p = skip_whitespace(text, i);
    if !text.one(p, '"') {
        return Err(fault_at("expected a quoted object field name", text.position(p)));
    }
    let (name, q) = parse_string(text, p)?;
    let colon = skip_whitespace(text, q);
    if !text.one(colon, ':') {
        return Err(fault_at("expected ':' after object field name", text.position(colon)));
    }
    let start = skip_whitespace(text, colon + 1);
    let column = match find_column(fields, name.as_str()) {
        Some(column) => column,
        None => {
            let message = concat5("unknown field '", name.as_str(), "' for table '", table, "'");
            return Err(fault_at(message.as_str(), text.position(start)));
        },
    };
    assert(slots_of(values@)[column as int] is Some == values@[column as int] is Some);
    if values[column].is_some() {
        let message = concat3("duplicate field '", name.as_str(), "'");
        return Err(fault_at(message.as_str(), text.position(start)));
    }
    let ghost found = value_at(text.chars@, start as int, table@, fields@[column as int], m);
    match parse_value(text, start, table, &fields[column], f) {
        Err(e) => Err(e),
        Ok((v, j)) => {
            assert(found == Ok::<(Datum, int), Seq<char>>((v@, j as int)));
            Ok((column, v, skip_whitespace(text, j)))
        },
    }
}

fn default_value(data_type: DataType) -> (v: Value)
    ensures
        v@ == default_datum(data_type),
{
    match data_type {
        DataType::Int64 => Value::Int64(0),
        DataType::Float64 => Value::Float64(0),
        DataType::Bool => Value::Bool(false),
        DataType::String => {
            let text = String::new();
            assert(text@ =~= Seq::<char>::empty());
            Value::String(text)
        },
    }
}

#[verifier::loop_isolation(false)]
fn complete(values: Vec<Option<Value>>, fields: &Vec<RowField>) -> (row: Vec<Value>)
    requires
        values@.len() == fields@.len(),
    ensures
        data_of(row@) == completed(slots_of(values@), fields@),
{
    let ghost goal = completed(slots_of(values@), fields@);
    let mut left = values;
    let mut row: Vec<Value> = Vec::new();
    let mut k: usize = 0;
    while k < fields.len()
        invariant
            k <= fields.len(),
            left@.len() == fields@.len(),
            row@.len() == k,
            forall|j: int| k <= j < fields@.len() ==> #[trigger] left@[j] == values@[j],
            forall|j: int| 0 <= j < k ==> (#[trigger] row@[j])@ == goal[j],
        decreases fields.len() - k,
    {
        let mut slot: Option<Value> = None;
        std::mem::swap(&mut slot, &mut left[k]);
        assert(slot == values@[k as int]);
        assert(slots_of(values@)[k as int] == (match values@[k as int] {
            Some(v) => Some(v@),
            None => None,
        }));
        match slot {
            Some(v) => row.push(v),
            None => row.push(default_value(fields[k].data_type)),
        }
        k = k + 1;
    }
    assert(data_of(row@) =~= goal);
    row
}

/// The content of a parsed record.
pub open spec fn row_read(r: Result<Vec<Value>, String>) -> Result<Seq<Datum>, Seq<char>> {
    match r {
        Ok(row) => Ok(data_of(row@)),
        Err(e) => Err(e@),
    }
}

fn finish_record(text: &Scanner, i: usize, values: Vec<Option<Value>>, fields: &Vec<RowField>) -> (r:
    Result<Vec<Value>, String>)
    requires
        text.wf(),
        i <= text.chars.len(),
        values@.len() == fields@.len(),
    ensures
        row_read(r) == record_end(text.chars@, i as int, slots_of(values@), fields@),
{
    let end = skip_whitespace(text, i);
    if end != text.chars.len() {
        return Err(fault_at("unexpected content after JSON object", text.position(end)));
    }
    Ok(complete(values, fields))
}

/// Parses a record as a row of a table.
///
/// Every failure names the byte where the record breaks off.
#[verifier::loop_isolation(false)]
pub fn parse_record<F: Fn(FloatRequest) -> FloatReply>(
    input: &str,
    table: &str,
    fields: &Vec<RowField>,
    f: &F,
) -> (r: Result<Vec<Value>, String>)
    requires
        answers_floats(*f),
    ensures
        row_read(r) == record_of(input@, table@, fields@, float_model(*f)),
{
    let ghost m = float_model(*f);
    let text = Scanner::new(input);
    let ghost s = text.chars@;
    let p = skip_whitespace(&text, 0);
    if !text.one(p, '{') {
        return Err(fault_at("expected a JSON object", text.position(p)));
    }
    let mut i = skip_whitespace(&text, p + 1);
    let mut values: Vec<Option<Value>> = Vec::new();
    let mut k: usize = 0;
    while k < fields.len()
        invariant
            k <= fields.len(),
            values@.len() == k,
            forall|j: int| 0 <= j < k ==> (#[trigger] values@[j]) is None,
        decreases fields.len() - k,
    {
        values.push(None);
        k = k + 1;
    }
    assert(slots_of(values@) =~= Seq::new(fields@.len(), |k: int| None::<Datum>));
    if text.one(i, '}') {
        return finish_record(&text, i + 1, values, fields);
    }
    let ghost goal = fields_from(s, i as int, slots_of(values@), table@, fields@, m);
    loop
        invariant
            i <= text.chars.len(),
            values@.len() == fields@.len(),
            goal == fields_from(s, i as int, slots_of(values@), table@, fields@, m),
        decreases text.chars.len() - i,
    {
        let (column, value, w) = parse_field(&text, i, &values, table, fields, f)?;
        let ghost before = slots_of(values@);
        let ghost d = value@;
        values.set(column, Some(value));
        assert(slots_of(values@) =~= before.update(column as int, Some(d)));
        if text.one(w, '}') {
            return finish_record(&text, w + 1, values, fields);
        }
        if !text.one(w, ',') {
            return Err(fault_at("expected ',' or '}' after object field", text.position(w)));
        }
        i = w + 1;
    }
}

/// Why a table could not be read.
#[derive(Debug)]
pub enum EachRowError {
    /// The table cannot be defined.
    Table(StorageError),
    /// A record of a source is no row of the table.
    Record { path: String, record: usize, message: String },
}

/// The content of a failure.
pub enum EachRowFault {
    Table(StorageFault),
    Record { path: Seq<char>, record: usize, message: Seq<char> },
}

impl View for EachRowError {
    type V = EachRowFault;

    open spec fn view(&self) -> EachRowFault {
        match *self {
            EachRowError::Table(e) => EachRowFault::Table(e@),
            EachRowError::Record { path, record, message } => EachRowFault::Record {
                path: path@,
                record,
                message: message@,
            },
        }
    }
}

/// A line without its end.
pub open spec fn bare_line(line: Seq<u8>) -> Seq<u8> {
    let n = line.len() as int;
    if n > 0 && line[n - 1] == 10 {
        if n > 1 && line[n - 2] == 13 {
            line.take(n - 2)
        } else {
            line.take(n - 1)
        }
    } else {
        line
    }
}

/// The row that a line adds to a table, if it is not blank, or why it is refused.
pub open spec fn line_row(
    line: Seq<u8>,
    table: Seq<char>,
    fields: Seq<RowField>,
    limit: usize,
    rows: nat,
    m: FloatModel,
) -> Result<Option<Seq<Datum>>, Seq<char>> {
    let bytes = bare_line(line);
    let text = decode_utf8(bytes);
    if bytes.len() > MAX_RECORD_BYTES {
        Err("record exceeds the "@ + int_text(MAX_RECORD_BYTES as int) + "-byte limit"@)
    } else if !valid_utf8(bytes) {
        Err("record is not UTF-8: "@ + utf8_failure(bytes))
    } else if is_blank(text) {
        Ok(None)
    } else {
        match record_of(text, table, fields, m) {
            Err(fault) => Err(fault),
            Ok(row) => match row_fault(table, fields, limit, rows, row) {
                Some(fault) => Err(storage_text(fault)),
                None => Ok(Some(row)),
            },
        }
    }
}

/// A table that is being read from a source, one line at a time.
#[derive(Debug)]
pub struct EachRowLoader {
    path: String,
    table: RowTable,
    record: usize,
}

impl EachRowLoader {
    /// The path of the source.
    pub closed spec fn source(&self) -> Seq<char> {
        self.path@
    }

    /// The table with the rows so far.
    pub closed spec fn staged(&self) -> RowTable {
        self.table
    }

    /// The number of lines so far.
    pub closed spec fn lines(&self) -> usize {
        self.record
    }

    /// Starts with an empty table.
    pub fn new(path: &str, table_name: &str, fields: Vec<RowField>, limit: usize) -> (r: Result<
        EachRowLoader,
        EachRowError,
    >)
        ensures
            match r {
                Ok(loader) => {
                    &&& definition_fault(table_name@, fields@) is None
                    &&& loader.source() == path@
                    &&& loader.lines() == 0
                    &&& loader.staged().title() == table_name@
                    &&& loader.staged().columns() == fields@
                    &&& loader.staged().capacity() == limit
                    &&& loader.staged().content() == Seq::<Seq<Datum>>::empty()
                },
                Err(e) => definition_fault(table_name@, fields@) is Some && e@
                    == EachRowFault::Table(definition_fault(table_name@, fields@)->0),
            },
    {
        match RowTable::new(table_name.to_owned(), fields, limit) {
            Ok(table) => Ok(EachRowLoader { path: path.to_owned(), table, record: 0 }),
            Err(e) => Err(EachRowError::Table(e)),
        }
    }

    fn refuse(&self, message: String) -> (e: EachRowError)
        ensures
            e@ == (EachRowFault::Record {
                path: self.source(),
                record: self.lines(),
                message: message@,
            }),
    {
        EachRowError::Record { path: self.path.clone(), record: self.record, message }
    }

    /// Reads one line, with its end unless the source has none there.
    ///
    /// A blank line adds no row, but counts as a record.
    pub fn line<F: Fn(FloatRequest) -> FloatReply>(&mut self, line: Vec<u8>, f: &F) -> (r: Result<
        (),
        EachRowError,
    >)
        requires
            old(self).lines() < usize::MAX,
            answers_floats(*f),
        ensures
            final(self).source() == old(self).source(),
            final(self).lines() == old(self).lines() + 1,
            final(self).staged().title() == old(self).staged().title(),
            final(self).staged().columns() == old(self).staged().columns(),
            final(self).staged().capacity() == old(self).staged().capacity(),
            ({
                let rows = old(self).staged().content();
                let found = line_row(
                    line@,
                    old(self).staged().title(),
                    old(self).staged().columns(),
                    old(self).staged().capacity(),
                    rows.len(),
                    float_model(*f),
                );
                match r {
                    Ok(_) => found matches Ok(row) && final(self).staged().content() == (
                    match row {
                        Some(row) => rows.push(row),
                        None => rows,
                    }),
                    Err(e) => found matches Err(message) && final(self).staged().content() == rows
                        && e@ == (EachRowFault::Record {
                        path: old(self).source(),
                        record: (old(self).lines() + 1) as usize,
                        message,
                    }),
                }
            }),
    {
        let mut bytes = line;
        self.record = self.record + 1;
        let n = bytes.len();
        if n > 0 && bytes[n - 1] == 10 {
            if n > 1 && bytes[n - 2] == 13 {
                bytes.truncate(n - 2);
                assert(bytes@ =~= line@.take(n - 2));
            } else {
                bytes.truncate(n - 1);
                assert(bytes@ =~= line@.take(n - 1));
            }
        }
        assert(bytes@ == bare_line(line@));
        if bytes.len() > MAX_RECORD_BYTES {
            return Err(
                self.refuse(
                    concat3(
                        "record exceeds the ",
                        usize_text(MAX_RECORD_BYTES).as_str(),
                        "-byte limit",
                    ),
                ),
            );
        }
        let text = match decode_text(&bytes) {
            Ok(text) => text,
            Err(e) => return Err(self.refuse(concat2("record is not UTF-8: ", e.as_str()))),
        };
        if blank(text.as_str()) {
            return Ok(());
        }
        let row = match parse_record(text.as_str(), self.table.name(), self.table.fields(), f) {
            Ok(row) => row,
            Err(message) => return Err(self.refuse(message)),
        };
        match self.table.insert_row(row) {
            Ok(_) => Ok(()),
            Err(e) => Err(self.refuse(e.message())),
        }
    }

    /// The table that was read.
    pub fn finish(self) -> (table: RowTable)
        ensures
            table == self.staged(),
    {
        self.table
    }
}

proof fn columns_are_found(fields: Seq<RowField>, name: Seq<char>, n: int)
    requires
        n <= fields.len(),
    ensures
        column_named(fields, name, n) matches Some(k) ==> 0 <= k < n,
    decreases n,
{
    if n > 0 {
        columns_are_found(fields, name, n - 1);
    }
}

/// Whether the values so far have the types of their columns.
spec fn slots_suit(values: Seq<Option<Datum>>, fields: Seq<RowField>) -> bool {
    &&& values.len() == fields.len()
    &&& forall|k: int|
        0 <= k < fields.len() && (#[trigger] values[k]) is Some ==> suits(values[k]->0, fields[k])
}

/// Whether a value can stand in a column.
pub open spec fn suits(d: Datum, field: RowField) -> bool {
    &&& datum_type(d) == Some(field.data_type)
    &&& d matches Datum::Float64(bits) ==> is_finite(bits)
}

/// Whether the values of a row can stand in the columns of a table.
pub open spec fn row_suits(row: Seq<Datum>, fields: Seq<RowField>) -> bool {
    &&& row.len() == fields.len()
    &&& forall|k: int| 0 <= k < fields.len() ==> suits(#[trigger] row[k], fields[k])
}

proof fn completed_rows_suit(values: Seq<Option<Datum>>, fields: Seq<RowField>)
    requires
        slots_suit(values, fields),
    ensures
        row_suits(completed(values, fields), fields),
{
    assert(is_finite(0)) by {
        assert(0u64 % crate::float::SIGN_BIT < crate::float::INFINITY_BITS);
    }
}

proof fn fields_suit(
    s: Seq<char>,
    i: int,
    values: Seq<Option<Datum>>,
    table: Seq<char>,
    fields: Seq<RowField>,
    m: FloatModel,
)
    requires
        slots_suit(values, fields),
    ensures
        fields_from(s, i, values, table, fields, m) matches Ok(row) ==> row_suits(row, fields),
    decreases
            if i < s.len() {
                s.len() - i
            } else {
                0
            },
{
    match field_at(s, i, values, table, fields, m) {
        Err(_) => {},
        Ok((column, d, w)) => {
            let (name, _) = string_at(s, past_space(s, i))->Ok_0;
            columns_are_found(fields, name, fields.len() as int);
            let next = values.update(column, Some(d));
            assert(slots_suit(next, fields));
            completed_rows_suit(next, fields);
            if char_at(s, w, ',') && i < w {
                fields_suit(s, w + 1, next, table, fields, m);
            }
        },
    }
}

/// A record that can be read gives a row that the table takes, as long as the table is not full.
pub proof fn records_suit_their_table(
    s: Seq<char>,
    table: Seq<char>,
    fields: Seq<RowField>,
    m: FloatModel,
)
    ensures
        record_of(s, table, fields, m) matches Ok(row) ==> row_suits(row, fields) && values_fault(
            table,
            fields,
            row,
            0,
        ) is None,
{
    let values = Seq::new(fields.len(), |k: int| None::<Datum>);
    completed_rows_suit(values, fields);
    let q = past_space(s, past_space(s, 0) + 1);
    fields_suit(s, q, values, table, fields, m);
    if let Ok(row) = record_of(s, table, fields, m) {
        suiting_rows_pass(table, fields, row, 0);
    }
}

proof fn suiting_rows_pass(table: Seq<char>, fields: Seq<RowField>, row: Seq<Datum>, i: int)
    requires
        row_suits(row, fields),
    ensures
        values_fault(table, fields, row, i) is None,
    decreases fields.len() - i,
{
    if 0 <= i < fields.len() {
        assert(suits(row[i], fields[i]));
        suiting_rows_pass(table, fields, row, i + 1);
    }
}

} // verus!
