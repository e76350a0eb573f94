//! One JSON object per record, parsed within limits.

use vstd::prelude::*;
use vstd::utf8::{char_u32_cast, decode_utf8, is_ascii_chars_encode_utf8, valid_utf8};
use crate::bytes::{append_bytes, text_bytes, text_from_utf8, utf8};
use crate::formats::limits::{limit_error, over, FormatError, FormatFault, FormatLimits, LimitKind, MAX_JSON_NESTING_DEPTH};
use crate::text::{char_from, concat3, int_text, usize_text};

verus! {

/// A JSON value as far as a column can hold it.
#[derive(Debug)]
pub enum JsonValue {
    Null,
    Bool(bool),
    Number(String),
    String(String),
    Complex,
}

/// The mathematical content of a JSON value.
pub enum JsonData {
    Null,
    Bool(bool),
    Number(Seq<char>),
    Text(Seq<char>),
    Complex,
}

impl View for JsonValue {
    type V = JsonData;

    open spec fn view(&self) -> JsonData {
        match *self {
            JsonValue::Null => JsonData::Null,
            JsonValue::Bool(b) => JsonData::Bool(b),
            JsonValue::Number(s) => JsonData::Number(s@),
            JsonValue::String(s) => JsonData::Text(s@),
            JsonValue::Complex => JsonData::Complex,
        }
    }
}

/// How a value is named in a failure.
pub open spec fn json_description(value: JsonData) -> Seq<char> {
    match value {
        JsonData::Null => "null"@,
        JsonData::Bool(b) => if b { "true"@ } else { "false"@ },
        JsonData::Number(s) => s,
        JsonData::Text(s) => s,
        JsonData::Complex => "nested JSON value"@,
    }
}

impl JsonValue {
    /// How the value is named in a failure.
    pub fn description(&self) -> (s: String)
        ensures
            s@ == json_description(self@),
    {
        match self {
            JsonValue::Null => "null".to_owned(),
            JsonValue::Bool(b) => if *b { "true".to_owned() } else { "false".to_owned() },
            JsonValue::Number(s) => s.clone(),
            JsonValue::String(s) => s.clone(),
            JsonValue::Complex => "nested JSON value".to_owned(),
        }
    }
}

/// The failure of a record that breaks the grammar at a byte.
pub open spec fn malformed(message: Seq<char>, position: int, row: u64) -> FormatFault {
    FormatFault::JsonSyntax { row, message: message + " at byte "@ + int_text(position) }
}

fn syntax(message: &str, position: usize, row: u64) -> (e: FormatError)
    ensures
        e@ == malformed(message@, position as int, row),
{
    FormatError::JsonSyntax {
        row,
        message: concat3(message, " at byte ", usize_text(position).as_str()),
    }
}

/// Whether a byte is white space between tokens.
pub open spec fn is_blank(b: u8) -> bool {
    b == 32 || b == 9 || b == 13 || b == 10
}

/// The position behind white space.
pub open spec fn past_blanks(bytes: Seq<u8>, p: int) -> int
    decreases bytes.len() - p,
{
    if 0 <= p < bytes.len() && is_blank(bytes[p]) {
        past_blanks(bytes, p + 1)
    } else {
        p
    }
}

/// Whether a byte stands at a position.
pub open spec fn stands(bytes: Seq<u8>, p: int, b: u8) -> bool {
    0 <= p < bytes.len() && bytes[p] == b
}

fn skip_blanks(bytes: &Vec<u8>, p: usize) -> (q: usize)
    requires
        p <= bytes.len(),
    ensures
        q == past_blanks(bytes@, p as int),
        p <= q <= bytes.len(),
{
    let mut q = p;
    while q < bytes.len() && (bytes[q] == 32 || bytes[q] == 9 || bytes[q] == 13 || bytes[q] == 10)
        invariant
            p <= q <= bytes.len(),
            past_blanks(bytes@, p as int) == past_blanks(bytes@, q as int),
        decreases bytes.len() - q,
    {
        q = q + 1;
    }
    q
}

fn at(bytes: &Vec<u8>, p: usize, b: u8) -> (r: bool)
    ensures
        r == stands(bytes@, p as int, b),
{
    p < bytes.len() && bytes[p] == b
}

/// The value of a hexadecimal digit.
pub open spec fn hex_digit_value(b: u8) -> Option<int> {
    if 48 <= b <= 57 {
        Some(b - 48)
    } else if 97 <= b <= 102 {
        Some(b - 87)
    } else if 65 <= b <= 70 {
        Some(b - 55)
    } else {
        None
    }
}

/// The number that four hexadecimal digits denote, from digit `i` on, behind `value`, or the
/// position where they break off.
pub open spec fn hex_quad_from(bytes: Seq<u8>, p: int, i: int, value: int) -> Result<int, int>
    decreases 4 - i,
{
    if i >= 4 {
        Ok(value)
    } else if p + i >= bytes.len() {
        Err(p + i)
    } else {
        match hex_digit_value(bytes[p + i]) {
            None => Err(p + i + 1),
            Some(digit) => hex_quad_from(bytes, p, i + 1, value * 16 + digit),
        }
    }
}

/// The number that four hexadecimal digits denote.
pub open spec fn hex_quad(bytes: Seq<u8>, p: int, row: u64) -> Result<int, FormatFault> {
    match hex_quad_from(bytes, p, 0, 0) {
        Ok(value) => Ok(value),
        Err(at) => Err(malformed("invalid \\u escape"@, at, row)),
    }
}

fn digit_value(b: u8) -> (r: Option<u32>)
    ensures
        match r {
            Some(n) => hex_digit_value(b) == Some(n as int) && n < 16,
            None => hex_digit_value(b) is None,
        },
{
    if 48 <= b && b <= 57 {
        Some((b - 48) as u32)
    } else if 97 <= b && b <= 102 {
        Some((b - 87) as u32)
    } else if 65 <= b && b <= 70 {
        Some((b - 55) as u32)
    } else {
        None
    }
}

fn parse_hex_quad(bytes: &Vec<u8>, p: usize, row: u64) -> (r: Result<u32, FormatError>)
    requires
        p <= bytes.len(),
    ensures
        match r {
            Ok(value) => hex_quad(bytes@, p as int, row) == Ok::<int, FormatFault>(value as int)
                && value < 0x10000 && p + 4 <= bytes.len(),
            Err(e) => hex_quad(bytes@, p as int, row) == Err::<int, FormatFault>(e@),
        },
{
    let mut value: u32 = 0;
    let mut i: usize = 0;
    while i < 4
        invariant
            i <= 4,
            p + i <= bytes.len(),
            i == 0 ==> value == 0,
            i == 1 ==> value < 0x10,
            i == 2 ==> value < 0x100,
            i == 3 ==> value < 0x1000,
            i == 4 ==> value < 0x10000,
            hex_quad_from(bytes@, p as int, 0, 0) == hex_quad_from(
                bytes@,
                p as int,
                i as int,
                value as int,
            ),
        decreases 4 - i,
    {
        let q = p + i;
        if q >= bytes.len() {
            return Err(syntax("invalid \\u escape", q, row));
        }
        match digit_value(bytes[q]) {
            None => return Err(syntax("invalid \\u escape", q + 1, row)),
            Some(digit) => {
                value = value * 16 + digit;
            },
        }
        i = i + 1;
    }
    Ok(value)
}

/// Whether a number is a high surrogate.
pub open spec fn is_high(n: int) -> bool {
    0xd800 <= n <= 0xdbff
}

/// Whether a number is a low surrogate.
pub open spec fn is_low(n: int) -> bool {
    0xdc00 <= n <= 0xdfff
}

/// The scalar value of an escape with its digits at a position, and the position behind it.
pub open spec fn escaped_scalar(bytes: Seq<u8>, p: int, row: u64) -> Result<(int, int), FormatFault> {
    let q = p + 4;
    match hex_quad(bytes, p, row) {
        Err(fault) => Err(fault),
        Ok(first) => if is_high(first) {
            let message = "high UTF-16 surrogate must be followed by a low surrogate"@;
            if q >= bytes.len() {
                Err(malformed(message, q, row))
            } else if bytes[q] != 92 || q + 1 >= bytes.len() {
                Err(malformed(message, q + 1, row))
            } else if bytes[q + 1] != 117 {
                Err(malformed(message, q + 2, row))
            } else {
                match hex_quad(bytes, q + 2, row) {
                    Err(fault) => Err(fault),
                    Ok(second) => if !is_low(second) {
                        Err(malformed("invalid low UTF-16 surrogate"@, q + 6, row))
                    } else {
                        Ok((0x10000 + (first - 0xd800) * 1024 + (second - 0xdc00), q + 6))
                    },
                }
            }
        } else if is_low(first) {
            Err(malformed("unexpected low UTF-16 surrogate"@, q, row))
        } else {
            Ok((first, q))
        },
    }
}

fn parse_escaped_scalar(bytes: &Vec<u8>, p: usize, row: u64) -> (r: Result<(u32, usize), FormatError>)
    requires
        p <= bytes.len(),
    ensures
        match r {
            Ok((scalar, q)) => {
                &&& escaped_scalar(bytes@, p as int, row) == Ok::<(int, int), FormatFault>(
                    (scalar as int, q as int),
                )
                &&& scalar <= 0xd7ff || 0xe000 <= scalar <= 0x10ffff
                &&& p < q <= bytes.len()
            },
            Err(e) => escaped_scalar(bytes@, p as int, row) == Err::<(int, int), FormatFault>(e@),
        },
{
    let first = match parse_hex_quad(bytes, p, row) {
        Err(e) => return Err(e),
        Ok(first) => first,
    };
    let q = p + 4;
    if 0xd800 <= first && first <= 0xdbff {
        let message = "high UTF-16 surrogate must be followed by a low surrogate";
        if q >= bytes.len() {
            return Err(syntax(message, q, row));
        }
        if bytes[q] != 92 || q + 1 >= bytes.len() {
            return Err(syntax(message, q + 1, row));
        }
        if bytes[q + 1] != 117 {
            return Err(syntax(message, q + 2, row));
        }
        let second = match parse_hex_quad(bytes, q + 2, row) {
            Err(e) => return Err(e),
            Ok(second) => second,
        };
        if !(0xdc00 <= second && second <= 0xdfff) {
            return Err(syntax("invalid low UTF-16 surrogate", q + 6, row));
        }
        return Ok((0x10000 + (first - 0xd800) * 1024 + (second - 0xdc00), q + 6));
    }
    if 0xdc00 <= first && first <= 0xdfff {
        return Err(syntax("unexpected low UTF-16 surrogate", q, row));
    }
    Ok((first, q))
}

/// The byte that a short escape stands for.
pub open spec fn short_escape(b: u8) -> Option<u8> {
    if b == 34 || b == 92 || b == 47 {
        Some(b)
    } else if b == 98 {
        Some(8)
    } else if b == 102 {
        Some(12)
    } else if b == 110 {
        Some(10)
    } else if b == 114 {
        Some(13)
    } else if b == 116 {
        Some(9)
    } else {
        None
    }
}

/// A character or an escape of a string: the bytes that it stands for, and the position behind
/// it.
pub open spec fn string_unit(bytes: Seq<u8>, p: int, row: u64) -> Result<(Seq<u8>, int), FormatFault> {
    let b = bytes[p];
    if b == 92 {
        if p + 1 >= bytes.len() {
            Err(malformed("unterminated JSON escape"@, p + 1, row))
        } else if bytes[p + 1] == 117 {
            match escaped_scalar(bytes, p + 2, row) {
                Err(fault) => Err(fault),
                Ok((scalar, q)) => Ok((utf8(seq![scalar as char]), q)),
            }
        } else {
            match short_escape(bytes[p + 1]) {
                None => Err(malformed("invalid JSON string escape"@, p + 2, row)),
                Some(c) => Ok((seq![c], p + 2)),
            }
        }
    } else if b < 32 {
        Err(malformed("unescaped control byte in JSON string"@, p + 1, row))
    } else {
        Ok((seq![b], p + 1))
    }
}

/// The rest of a string behind bytes that are decoded: its text, and the position behind it.
pub open spec fn string_from(bytes: Seq<u8>, p: int, decoded: Seq<u8>, limits: FormatLimits, row: u64) -> Result<
    (Seq<char>, int),
    FormatFault,
>
    decreases bytes.len() - p,
{
    if !(0 <= p < bytes.len()) {
        Err(malformed("unterminated JSON string"@, p, row))
    } else if bytes[p] == 34 {
        if valid_utf8(decoded) {
            Ok((decode_utf8(decoded), p + 1))
        } else {
            Err(malformed("JSON string is not valid UTF-8"@, p + 1, row))
        }
    } else {
        match string_unit(bytes, p, row) {
            Err(fault) => Err(fault),
            Ok((unit, q)) => if decoded.len() + unit.len() > limits.max_string_bytes {
                Err(over(LimitKind::StringBytes, limits.max_string_bytes, row))
            } else if p < q <= bytes.len() {
                string_from(bytes, q, decoded + unit, limits, row)
            } else {
                Err(malformed("unterminated JSON string"@, p, row))
            },
        }
    }
}

/// The string at a position: its text, and the position behind it.
pub open spec fn string_at(bytes: Seq<u8>, p: int, limits: FormatLimits, row: u64) -> Result<
    (Seq<char>, int),
    FormatFault,
> {
    if !stands(bytes, p, 34) {
        Err(malformed("expected a JSON string"@, p, row))
    } else {
        string_from(bytes, p + 1, Seq::empty(), limits, row)
    }
}

/// The content of a result that holds a text and the position behind it.
pub open spec fn text_read(r: Result<(String, usize), FormatError>) -> Result<
    (Seq<char>, int),
    FormatFault,
> {
    match r {
        Ok((s, p)) => Ok((s@, p as int)),
        Err(e) => Err(e@),
    }
}

fn parse_string_unit(bytes: &Vec<u8>, p: usize, row: u64) -> (r: Result<(Vec<u8>, usize), FormatError>)
    requires
        p < bytes.len(),
    ensures
        match r {
            Ok((unit, q)) => {
                &&& string_unit(bytes@, p as int, row) == Ok::<(Seq<u8>, int), FormatFault>(
                    (unit@, q as int),
                )
                &&& p < q <= bytes.len()
            },
            Err(e) => string_unit(bytes@, p as int, row) == Err::<(Seq<u8>, int), FormatFault>(e@),
        },
{
    let b = bytes[p];
    let mut unit: Vec<u8> = Vec::new();
    if b == 92 {
        if p + 1 >= bytes.len() {
            return Err(syntax("unterminated JSON escape", p + 1, row));
        }
        let e = bytes[p + 1];
        if e == 117 {
            let (scalar, q) = match parse_escaped_scalar(bytes, p + 2, row) {
                Err(e) => return Err(e),
                Ok(found) => found,
            };
            let mut text = String::new();
            match char_from(scalar) {
                Some(c) => {
                    text.push(c);
                    proof {
                        char_u32_cast(c, scalar);
                    }
                    assert(text@ =~= seq![scalar as char]);
                },
                None => {
                    assert(false);
                },
            }
            return Ok((text_bytes(text.as_str()), q));
        }
        let c: u8 = if e == 34 || e == 92 || e == 47 {
            e
        } else if e == 98 {
            8
        } else if e == 102 {
            12
        } else if e == 110 {
            10
        } else if e == 114 {
            13
        } else if e == 116 {
            9
        } else {
            return Err(syntax("invalid JSON string escape", p + 2, row));
        };
        unit.push(c);
        assert(unit@ =~= seq![c]);
        return Ok((unit, p + 2));
    }
    if b < 32 {
        return Err(syntax("unescaped control byte in JSON string", p + 1, row));
    }
    unit.push(b);
    assert(unit@ =~= seq![b]);
    Ok((unit, p + 1))
}

#[verifier::loop_isolation(false)]
fn parse_string(bytes: &Vec<u8>, p: usize, limits: &FormatLimits, row: u64) -> (r: Result<
    (String, usize),
    FormatError,
>)
    requires
        p <= bytes.len(),
    ensures
        text_read(r) == string_at(bytes@, p as int, *limits, row),
        r matches Ok((_, q)) ==> p < q <= bytes.len(),
{
    if !at(bytes, p, 34) {
        return Err(syntax("expected a JSON string", p, row));
    }
    let mut decoded: Vec<u8> = Vec::new();
    let mut q = p + 1;
    assert(decoded@ =~= Seq::<u8>::empty());
    loop
        invariant
            p < q <= bytes.len(),
            string_from(bytes@, p + 1, Seq::empty(), *limits, row) == string_from(
                bytes@,
                q as int,
                decoded@,
                *limits,
                row,
            ),
        decreases bytes.len() - q,
    {
        if q >= bytes.len() {
            return Err(syntax("unterminated JSON string", q, row));
        }
        if bytes[q] == 34 {
            return match text_from_utf8(decoded) {
                Some(text) => Ok((text, q + 1)),
                None => Err(syntax("JSON string is not valid UTF-8", q + 1, row)),
            };
        }
        match parse_string_unit(bytes, q, row) {
            Err(e) => return Err(e),
            Ok((unit, next)) => {
                if unit.len() > limits.max_string_bytes || decoded.len() > limits.max_string_bytes
                    - unit.len() {
                    return Err(limit_error(LimitKind::StringBytes, limits.max_string_bytes, row));
                }
                append_bytes(&mut decoded, &unit);
                q = next;
            },
        }
    }
}

/// Whether a decimal digit stands at a position.
pub open spec fn digit_stands(bytes: Seq<u8>, p: int) -> bool {
    0 <= p < bytes.len() && 48 <= bytes[p] <= 57
}

/// The position behind decimal digits.
pub open spec fn past_digits(bytes: Seq<u8>, p: int) -> int
    decreases bytes.len() - p,
{
    if digit_stands(bytes, p) {
        past_digits(bytes, p + 1)
    } else {
        p
    }
}

fn skip_digits(bytes: &Vec<u8>, p: usize) -> (q: usize)
    requires
        p <= bytes.len(),
    ensures
        q == past_digits(bytes@, p as int),
        p <= q <= bytes.len(),
{
    let mut q = p;
    while q < bytes.len() && 48 <= bytes[q] && bytes[q] <= 57
        invariant
            p <= q <= bytes.len(),
            past_digits(bytes@, p as int) == past_digits(bytes@, q as int),
        decreases bytes.len() - q,
    {
        q = q + 1;
    }
    q
}

/// The position behind the digits in front of a fraction.
pub open spec fn whole_end(bytes: Seq<u8>, p: int, row: u64) -> Result<int, FormatFault> {
    let q = if stands(bytes, p, 45) { p + 1 } else { p };
    if !digit_stands(bytes, q) {
        Err(malformed("invalid JSON number"@, q, row))
    } else if bytes[q] == 48 {
        if digit_stands(bytes, q + 1) {
            Err(malformed("leading zero in JSON number"@, q + 1, row))
        } else {
            Ok(q + 1)
        }
    } else {
        Ok(past_digits(bytes, q))
    }
}

/// The position behind a fraction, if there is one.
pub open spec fn fraction_end(bytes: Seq<u8>, p: int, row: u64) -> Result<int, FormatFault> {
    if !stands(bytes, p, 46) {
        Ok(p)
    } else if past_digits(bytes, p + 1) == p + 1 {
        Err(malformed("JSON fraction requires a digit"@, p + 1, row))
    } else {
        Ok(past_digits(bytes, p + 1))
    }
}

/// The position behind an exponent, if there is one.
pub open spec fn exponent_end(bytes: Seq<u8>, p: int, row: u64) -> Result<int, FormatFault> {
    let q = if stands(bytes, p + 1, 43) || stands(bytes, p + 1, 45) { p + 2 } else { p + 1 };
    if !(stands(bytes, p, 101) || stands(bytes, p, 69)) {
        Ok(p)
    } else if past_digits(bytes, q) == q {
        Err(malformed("JSON exponent requires a digit"@, q, row))
    } else {
        Ok(past_digits(bytes, q))
    }
}

/// The position behind a number.
pub open spec fn number_end(bytes: Seq<u8>, p: int, row: u64) -> Result<int, FormatFault> {
    match whole_end(bytes, p, row) {
        Err(fault) => Err(fault),
        Ok(q) => match fraction_end(bytes, q, row) {
            Err(fault) => Err(fault),
            Ok(q) => exponent_end(bytes, q, row),
        },
    }
}

/// The text of the number at a position, and the position behind it.
pub open spec fn number_at(bytes: Seq<u8>, p: int, row: u64) -> Result<(Seq<char>, int), FormatFault> {
    match number_end(bytes, p, row) {
        Err(fault) => Err(fault),
        Ok(q) => Ok((ascii_text(bytes.subrange(p, q)), q)),
    }
}

/// ASCII bytes as characters.
pub open spec fn ascii_text(bytes: Seq<u8>) -> Seq<char> {
    Seq::new(bytes.len(), |i: int| bytes[i] as char)
}

fn ascii_string(bytes: &Vec<u8>, p: usize, q: usize) -> (s: String)
    requires
        p <= q <= bytes.len(),
    ensures
        s@ == ascii_text(bytes@.subrange(p as int, q as int)),
{
    let mut s = String::new();
    let mut i = p;
    while i < q
        invariant
            p <= i <= q <= bytes.len(),
            s@ == ascii_text(bytes@.subrange(p as int, i as int)),
        decreases q - i,
    {
        s.push(bytes[i] as char);
        assert(s@ =~= ascii_text(bytes@.subrange(p as int, i + 1)));
        i = i + 1;
    }
    s
}

fn parse_number(bytes: &Vec<u8>, p: usize, row: u64) -> (r: Result<(String, usize), FormatError>)
    requires
        p <= bytes.len(),
    ensures
        text_read(r) == number_at(bytes@, p as int, row),
        r matches Ok((_, q)) ==> p < q <= bytes.len(),
{
    let mut q = p;
    if at(bytes, q, 45) {
        q = q + 1;
    }
    if q >= bytes.len() || bytes[q] < 48 || bytes[q] > 57 {
        return Err(syntax("invalid JSON number", q, row));
    }
    if bytes[q] == 48 {
        q = q + 1;
        if q < bytes.len() && 48 <= bytes[q] && bytes[q] <= 57 {
            return Err(syntax("leading zero in JSON number", q, row));
        }
    } else {
        q = skip_digits(bytes, q + 1);
    }
    assert(whole_end(bytes@, p as int, row) == Ok::<int, FormatFault>(q as int));
    if at(bytes, q, 46) {
        let start = q + 1;
        q = skip_digits(bytes, start);
        if q == start {
            return Err(syntax("JSON fraction requires a digit", start, row));
        }
    }
    if at(bytes, q, 101) || at(bytes, q, 69) {
        let mut start = q + 1;
        if at(bytes, start, 43) || at(bytes, start, 45) {
            start = start + 1;
        }
        q = skip_digits(bytes, start);
        if q == start {
            return Err(syntax("JSON exponent requires a digit", start, row));
        }
    }
    Ok((ascii_string(bytes, p, q), q))
}

/// Whether a word stands at a position.
pub open spec fn word_stands(bytes: Seq<u8>, p: int, word: Seq<u8>) -> bool {
    0 <= p && p + word.len() <= bytes.len() && bytes.subrange(p, p + word.len()) == word
}

/// The value of a word at a position, and the position behind it.
pub open spec fn word_at(bytes: Seq<u8>, p: int, word: Seq<char>, value: JsonData, row: u64) -> Result<
    (JsonData, int),
    FormatFault,
> {
    if word_stands(bytes, p, utf8(word)) {
        Ok((value, p + utf8(word).len()))
    } else {
        Err(malformed("invalid JSON literal"@, p, row))
    }
}

/// The content of a result that holds a value and the position behind it.
pub open spec fn value_read(r: Result<(JsonValue, usize), FormatError>) -> Result<
    (JsonData, int),
    FormatFault,
> {
    match r {
        Ok((v, p)) => Ok((v@, p as int)),
        Err(e) => Err(e@),
    }
}

fn parse_word(bytes: &Vec<u8>, p: usize, word: &str, value: JsonValue, row: u64) -> (r: Result<
    (JsonValue, usize),
    FormatError,
>)
    requires
        p < bytes.len(),
        utf8(word@).len() > 0,
    ensures
        value_read(r) == word_at(bytes@, p as int, word@, value@, row),
        r matches Ok((_, q)) ==> p < q <= bytes.len(),
{
    let expected = text_bytes(word);
    if bytes.len() - p < expected.len() {
        return Err(syntax("invalid JSON literal", p, row));
    }
    let mut i: usize = 0;
    while i < expected.len()
        invariant
            i <= expected.len(),
            expected@ == utf8(word@),
            p + expected.len() <= bytes.len(),
            forall|k: int| 0 <= k < i ==> bytes@[p + k] == #[trigger] expected@[k],
        decreases expected.len() - i,
    {
        if bytes[p + i] != expected[i] {
            assert(bytes@.subrange(p as int, p + expected.len())[i as int] != expected@[i as int]);
            return Err(syntax("invalid JSON literal", p, row));
        }
        i = i + 1;
    }
    assert(bytes@.subrange(p as int, p + expected.len()) =~= expected@);
    Ok((value, p + expected.len()))
}

/// The value at a position that is not white space, and the position behind it. `depth` counts
/// the containers around it.
pub open spec fn value_here(bytes: Seq<u8>, q: int, depth: int, limits: FormatLimits, row: u64) -> Result<
    (JsonData, int),
    FormatFault,
>
    decreases bytes.len() - q, 1int,
{
    if !(0 <= q < bytes.len()) {
        Err(malformed("unexpected end of JSON value"@, q, row))
    } else if bytes[q] == 34 {
        match string_at(bytes, q, limits, row) {
            Err(fault) => Err(fault),
            Ok((text, e)) => Ok((JsonData::Text(text), e)),
        }
    } else if bytes[q] == 116 {
        word_at(bytes, q, "true"@, JsonData::Bool(true), row)
    } else if bytes[q] == 102 {
        word_at(bytes, q, "false"@, JsonData::Bool(false), row)
    } else if bytes[q] == 110 {
        word_at(bytes, q, "null"@, JsonData::Null, row)
    } else if bytes[q] == 123 {
        match object_at(bytes, q, depth + 1, limits, row) {
            Err(fault) => Err(fault),
            Ok(e) => Ok((JsonData::Complex, e)),
        }
    } else if bytes[q] == 91 {
        match array_at(bytes, q, depth + 1, limits, row) {
            Err(fault) => Err(fault),
            Ok(e) => Ok((JsonData::Complex, e)),
        }
    } else if bytes[q] == 45 || digit_stands(bytes, q) {
        match number_at(bytes, q, row) {
            Err(fault) => Err(fault),
            Ok((text, e)) => Ok((JsonData::Number(text), e)),
        }
    } else {
        Err(malformed("expected a JSON value"@, q, row))
    }
}

/// The position behind an object inside a record.
pub open spec fn object_at(bytes: Seq<u8>, q: int, depth: int, limits: FormatLimits, row: u64) -> Result<
    int,
    FormatFault,
>
    decreases bytes.len() - q, 0int,
{
    let r = past_blanks(bytes, q + 1);
    if depth > limits.max_nesting_depth {
        Err(over(LimitKind::NestingDepth, limits.max_nesting_depth, row))
    } else if stands(bytes, r, 125) {
        Ok(r + 1)
    } else if 0 <= q < r <= bytes.len() {
        object_fields(bytes, r, depth, 0, limits, row)
    } else {
        Err(malformed("unexpected end of JSON value"@, q, row))
    }
}

/// The position behind the fields of an object that has `count` fields in front of them.
pub open spec fn object_fields(
    bytes: Seq<u8>,
    p: int,
    depth: int,
    count: int,
    limits: FormatLimits,
    row: u64,
) -> Result<int, FormatFault>
    decreases bytes.len() - p, 2int,
{
    if count == limits.max_fields_per_row {
        Err(over(LimitKind::FieldsPerRow, limits.max_fields_per_row, row))
    } else {
        match string_at(bytes, p, limits, row) {
            Err(fault) => Err(fault),
            Ok((_, a)) => {
                let colon = past_blanks(bytes, a);
                let start = past_blanks(bytes, colon + 1);
                if !stands(bytes, colon, 58) {
                    Err(malformed("expected ':' after object field name"@, colon, row))
                } else if !(0 <= p < start <= bytes.len()) {
                    Err(malformed("unexpected end of JSON value"@, p, row))
                } else {
                    match value_here(bytes, start, depth, limits, row) {
                        Err(fault) => Err(fault),
                        Ok((_, e)) => {
                            let end = past_blanks(bytes, e);
                            let next = past_blanks(bytes, end + 1);
                            if stands(bytes, end, 125) {
                                Ok(end + 1)
                            } else if !stands(bytes, end, 44) {
                                Err(malformed("expected ',' or '}' after object field"@, end, row))
                            } else if !(p < next <= bytes.len()) {
                                Err(malformed("unexpected end of JSON value"@, p, row))
                            } else {
                                object_fields(bytes, next, depth, count + 1, limits, row)
                            }
                        },
                    }
                }
            },
        }
    }
}

/// The position behind an array.
pub open spec fn array_at(bytes: Seq<u8>, q: int, depth: int, limits: FormatLimits, row: u64) -> Result<
    int,
    FormatFault,
>
    decreases bytes.len() - q, 0int,
{
    let r = past_blanks(bytes, q + 1);
    if depth > limits.max_nesting_depth {
        Err(over(LimitKind::NestingDepth, limits.max_nesting_depth, row))
    } else if stands(bytes, r, 93) {
        Ok(r + 1)
    } else if 0 <= q < r <= bytes.len() {
        array_items(bytes, r, depth, limits, row)
    } else {
        Err(malformed("unexpected end of JSON value"@, q, row))
    }
}

/// The position behind the items of an array.
pub open spec fn array_items(bytes: Seq<u8>, p: int, depth: int, limits: FormatLimits, row: u64) -> Result<
    int,
    FormatFault,
>
    decreases bytes.len() - p, 2int,
{
    match value_here(bytes, p, depth, limits, row) {
        Err(fault) => Err(fault),
        Ok((_, e)) => {
            let end = past_blanks(bytes, e);
            let next = past_blanks(bytes, end + 1);
            if stands(bytes, end, 93) {
                Ok(end + 1)
            } else if !stands(bytes, end, 44) {
                Err(malformed("expected ',' or ']' after array value"@, end, row))
            } else if !(0 <= p < next <= bytes.len()) {
                Err(malformed("unexpected end of JSON value"@, p, row))
            } else {
                array_items(bytes, next, depth, limits, row)
            }
        },
    }
}

proof fn words_are_not_empty()
    ensures
        utf8("true"@).len() > 0,
        utf8("false"@).len() > 0,
        utf8("null"@).len() > 0,
{
    reveal_strlit("true");
    reveal_strlit("false");
    reveal_strlit("null");
    is_ascii_chars_encode_utf8("true"@);
    is_ascii_chars_encode_utf8("false"@);
    is_ascii_chars_encode_utf8("null"@);
}

fn parse_value(bytes: &Vec<u8>, q: usize, depth: usize, limits: &FormatLimits, row: u64) -> (r: Result<
    (JsonValue, usize),
    FormatError,
>)
    requires
        q <= bytes.len(),
        depth <= limits.max_nesting_depth <= MAX_JSON_NESTING_DEPTH,
    ensures
        value_read(r) == value_here(bytes@, q as int, depth as int, *limits, row),
        r matches Ok((_, e)) ==> q < e <= bytes.len(),
    decreases bytes.len() - q, 1int,
{
    if q >= bytes.len() {
        return Err(syntax("unexpected end of JSON value", q, row));
    }
    proof {
        words_are_not_empty();
    }
    let b = bytes[q];
    if b == 34 {
        match parse_string(bytes, q, limits, row) {
            Err(e) => Err(e),
            Ok((text, e)) => Ok((JsonValue::String(text), e)),
        }
    } else if b == 116 {
        parse_word(bytes, q, "true", JsonValue::Bool(true), row)
    } else if b == 102 {
        parse_word(bytes, q, "false", JsonValue::Bool(false), row)
    } else if b == 110 {
        parse_word(bytes, q, "null", JsonValue::Null, row)
    } else if b == 123 {
        match parse_nested_object(bytes, q, depth + 1, limits, row) {
            Err(e) => Err(e),
            Ok(e) => Ok((JsonValue::Complex, e)),
        }
    } else if b == 91 {
        match parse_array(bytes, q, depth + 1, limits, row) {
            Err(e) => Err(e),
            Ok(e) => Ok((JsonValue::Complex, e)),
        }
    } else if b == 45 || (48 <= b && b <= 57) {
        match parse_number(bytes, q, row) {
            Err(e) => Err(e),
            Ok((text, e)) => Ok((JsonValue::Number(text), e)),
        }
    } else {
        Err(syntax("expected a JSON value", q, row))
    }
}

/// The content of a result that holds a position.
pub open spec fn position_read(r: Result<usize, FormatError>) -> Result<int, FormatFault> {
    match r {
        Ok(p) => Ok(p as int),
        Err(e) => Err(e@),
    }
}

#[verifier::loop_isolation(false)]
fn parse_nested_object(bytes: &Vec<u8>, q: usize, depth: usize, limits: &FormatLimits, row: u64) -> (r:
    Result<usize, FormatError>)
    requires
        q < bytes.len(),
        limits.max_nesting_depth <= MAX_JSON_NESTING_DEPTH,
    ensures
        position_read(r) == object_at(bytes@, q as int, depth as int, *limits, row),
        r matches Ok(e) ==> q < e <= bytes.len(),
    decreases bytes.len() - q, 0int,
{
    if depth > limits.max_nesting_depth {
        return Err(limit_error(LimitKind::NestingDepth, limits.max_nesting_depth, row));
    }
    let first = skip_blanks(bytes, q + 1);
    if at(bytes, first, 125) {
        return Ok(first + 1);
    }
    let mut p = first;
    let mut count: usize = 0;
    loop
        invariant
            q < p <= bytes.len(),
            count < p,
            object_fields(bytes@, first as int, depth as int, 0, *limits, row) == object_fields(
                bytes@,
                p as int,
                depth as int,
                count as int,
                *limits,
                row,
            ),
        decreases bytes.len() - p,
    {
        if count == limits.max_fields_per_row {
            return Err(limit_error(LimitKind::FieldsPerRow, limits.max_fields_per_row, row));
        }
        let a = match parse_string(bytes, p, limits, row) {
            Err(e) => return Err(e),
            Ok((_, a)) => a,
        };
        let colon = skip_blanks(bytes, a);
        if !at(bytes, colon, 58) {
            return Err(syntax("expected ':' after object field name", colon, row));
        }
        let start = skip_blanks(bytes, colon + 1);
        let e = match parse_value(bytes, start, depth, limits, row) {
            Err(e) => return Err(e),
            Ok((_, e)) => e,
        };
        let end = skip_blanks(bytes, e);
        if at(bytes, end, 125) {
            return Ok(end + 1);
        }
        if !at(bytes, end, 44) {
            return Err(syntax("expected ',' or '}' after object field", end, row));
        }
        p = skip_blanks(bytes, end + 1);
        count = count + 1;
    }
}

#[verifier::loop_isolation(false)]
fn parse_array(bytes: &Vec<u8>, q: usize, depth: usize, limits: &FormatLimits, row: u64) -> (r: Result<
    usize,
    FormatError,
>)
    requires
        q < bytes.len(),
        limits.max_nesting_depth <= MAX_JSON_NESTING_DEPTH,
    ensures
        position_read(r) == array_at(bytes@, q as int, depth as int, *limits, row),
        r matches Ok(e) ==> q < e <= bytes.len(),
    decreases bytes.len() - q, 0int,
{
    if depth > limits.max_nesting_depth {
        return Err(limit_error(LimitKind::NestingDepth, limits.max_nesting_depth, row));
    }
    let first = skip_blanks(bytes, q + 1);
    if at(bytes, first, 93) {
        return Ok(first + 1);
    }
    let mut p = first;
    loop
        invariant
            q < p <= bytes.len(),
            array_items(bytes@, first as int, depth as int, *limits, row) == array_items(
                bytes@,
                p as int,
                depth as int,
                *limits,
                row,
            ),
        decreases bytes.len() - p,
    {
        let e = match parse_value(bytes, p, depth, limits, row) {
            Err(e) => return Err(e),
            Ok((_, e)) => e,
        };
        let end = skip_blanks(bytes, e);
        if at(bytes, end, 93) {
            return Ok(end + 1);
        }
        if !at(bytes, end, 44) {
            return Err(syntax("expected ',' or ']' after array value", end, row));
        }
        p = skip_blanks(bytes, end + 1);
    }
}

/// A field of a record: its name and its value.
pub struct JsonField {
    pub name: Seq<char>,
    pub value: JsonData,
}

/// The fields of a record from a position on, behind `done`, and the position behind the
/// record.
pub open spec fn record_fields(
    bytes: Seq<u8>,
    p: int,
    done: Seq<JsonField>,
    limits: FormatLimits,
    row: u64,
) -> Result<(Seq<JsonField>, int), FormatFault>
    decreases bytes.len() - p,
{
    if done.len() == limits.max_fields_per_row {
        Err(over(LimitKind::FieldsPerRow, limits.max_fields_per_row, row))
    } else {
        match string_at(bytes, p, limits, row) {
            Err(fault) => Err(fault),
            Ok((name, a)) => {
                let colon = past_blanks(bytes, a);
                let start = past_blanks(bytes, colon + 1);
                if !stands(bytes, colon, 58) {
                    Err(malformed("expected ':' after object field name"@, colon, row))
                } else {
                    match value_here(bytes, start, 1, limits, row) {
                        Err(fault) => Err(fault),
                        Ok((value, e)) => {
                            let end = past_blanks(bytes, e);
                            let next = past_blanks(bytes, end + 1);
                            let more = done.push(JsonField { name, value });
                            if e - start > limits.max_field_bytes {
                                Err(over(LimitKind::FieldBytes, limits.max_field_bytes, row))
                            } else if stands(bytes, end, 125) {
                                Ok((more, end + 1))
                            } else if !stands(bytes, end, 44) {
                                Err(malformed("expected ',' or '}' after object field"@, end, row))
                            } else if !(0 <= p < next <= bytes.len()) {
                                Err(malformed("unexpected end of JSON value"@, p, row))
                            } else {
                                record_fields(bytes, next, more, limits, row)
                            }
                        },
                    }
                }
            },
        }
    }
}

/// The fields of a record, which is one object with nothing behind it.
pub open spec fn record_object(bytes: Seq<u8>, limits: FormatLimits, row: u64) -> Result<
    Seq<JsonField>,
    FormatFault,
> {
    let q = past_blanks(bytes, 0);
    let r = past_blanks(bytes, q + 1);
    if !stands(bytes, q, 123) {
        Err(malformed("each NDJSON record must be a JSON object"@, q, row))
    } else if limits.max_nesting_depth < 1 {
        Err(over(LimitKind::NestingDepth, limits.max_nesting_depth, row))
    } else {
        match (if stands(bytes, r, 125) {
            Ok((Seq::empty(), r + 1))
        } else {
            record_fields(bytes, r, Seq::empty(), limits, row)
        }) {
            Err(fault) => Err(fault),
            Ok((fields, e)) => if past_blanks(bytes, e) != bytes.len() {
                Err(malformed("trailing bytes after JSON object"@, past_blanks(bytes, e), row))
            } else {
                Ok(fields)
            },
        }
    }
}

/// The contents of fields.
pub open spec fn fields_read(list: Seq<(String, JsonValue)>) -> Seq<JsonField> {
    Seq::new(list.len(), |i: int| JsonField { name: list[i].0@, value: list[i].1@ })
}

/// The content of a result that holds fields.
pub open spec fn fields_formatted(r: Result<Vec<(String, JsonValue)>, FormatError>) -> Result<
    Seq<JsonField>,
    FormatFault,
> {
    match r {
        Ok(list) => Ok(fields_read(list@)),
        Err(e) => Err(e@),
    }
}

/// Parses a record.
#[verifier::loop_isolation(false)]
pub fn parse_root_object(bytes: &Vec<u8>, limits: &FormatLimits, row: u64) -> (r: Result<
    Vec<(String, JsonValue)>,
    FormatError,
>)
    requires
        limits.max_nesting_depth <= MAX_JSON_NESTING_DEPTH,
    ensures
        fields_formatted(r) == record_object(bytes@, *limits, row),
{
    let q = skip_blanks(bytes, 0);
    if !at(bytes, q, 123) {
        return Err(syntax("each NDJSON record must be a JSON object", q, row));
    }
    if limits.max_nesting_depth < 1 {
        return Err(limit_error(LimitKind::NestingDepth, limits.max_nesting_depth, row));
    }
    let first = skip_blanks(bytes, q + 1);
    let mut fields: Vec<(String, JsonValue)> = Vec::new();
    let mut behind = first;
    assert(fields_read(fields@) =~= Seq::<JsonField>::empty());
    if at(bytes, first, 125) {
        behind = first + 1;
    } else {
        let mut p = first;
        let mut open = true;
        while open
            invariant
                p <= bytes.len(),
                behind <= bytes.len(),
                open ==> record_fields(bytes@, first as int, Seq::empty(), *limits, row)
                    == record_fields(bytes@, p as int, fields_read(fields@), *limits, row),
                !open ==> record_fields(bytes@, first as int, Seq::empty(), *limits, row) == Ok::<
                    (Seq<JsonField>, int),
                    FormatFault,
                >((fields_read(fields@), behind as int)),
            decreases (if open { 1nat } else { 0nat }), bytes.len() - p,
        {
            if fields.len() == limits.max_fields_per_row {
                return Err(limit_error(LimitKind::FieldsPerRow, limits.max_fields_per_row, row));
            }
            let (name, a) = match parse_string(bytes, p, limits, row) {
                Err(e) => return Err(e),
                Ok(found) => found,
            };
            let colon = skip_blanks(bytes, a);
            if !at(bytes, colon, 58) {
                return Err(syntax("expected ':' after object field name", colon, row));
            }
            let start = skip_blanks(bytes, colon + 1);
            let (value, e) = match parse_value(bytes, start, 1, limits, row) {
                Err(e) => return Err(e),
                Ok(found) => found,
            };
            if e - start > limits.max_field_bytes {
                return Err(limit_error(LimitKind::FieldBytes, limits.max_field_bytes, row));
            }
            let ghost before = fields_read(fields@);
            fields.push((name, value));
            assert(fields_read(fields@) =~= before.push(JsonField { name: name@, value: value@ }));
            let end = skip_blanks(bytes, e);
            if at(bytes, end, 125) {
                behind = end + 1;
                open = false;
            } else {
                if !at(bytes, end, 44) {
                    return Err(syntax("expected ',' or '}' after object field", end, row));
                }
                p = skip_blanks(bytes, end + 1);
            }
        }
    }
    let t = skip_blanks(bytes, behind);
    if t != bytes.len() {
        return Err(syntax("trailing bytes after JSON object", t, row));
    }
    Ok(fields)
}

} // verus!
