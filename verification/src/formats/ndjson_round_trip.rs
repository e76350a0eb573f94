//! What is read of JSON lines that were written.

use vstd::prelude::*;
use vstd::utf8::{char_u32_cast, encode_utf8_decode_utf8, encode_utf8_valid_utf8, is_ascii_chars, is_ascii_chars_encode_utf8};
use crate::columnar::{field_from, row_suits, suits, Field};
use crate::float::{float_parsed, float_text, is_finite, FloatModel};
use crate::formats::ndjson::{json_cell, json_cells, json_row, line_done, line_from, line_next, lines_from, ndjson_ingested, ndjson_written, no_values, placed, written_lines, written_members, written_value, LineCursor, NdjsonOptions};
use crate::bytes::{utf8, utf8_ascii, utf8_concat};
use crate::formats::json_record::{ascii_text, digit_stands, escaped_scalar, fraction_end, hex_quad_from, number_at, number_end, is_blank, past_blanks, past_digits, record_fields, record_object, short_escape, string_at, string_from, value_here, whole_end, JsonData, JsonField};
use crate::formats::limits::{json_limits_check, row_behind, FormatFault, FormatLimits};
use crate::lexer::{char_at, digit_at, digits_end};
use crate::text::{decimal_round_trip, digits, int_text, is_digit};
use crate::types::{DataType, Datum};
use crate::json_text::{hex_digit, json_body, json_escaped, json_quoted};

verus! {

proof fn ascii_char(c: char)
    requires
        (c as u32) < 128,
    ensures
        '\0' <= c <= '\u{7f}',
{
}

proof fn ascii_bytes(s: Seq<char>)
    requires
        forall|k: int| 0 <= k < s.len() ==> ((#[trigger] s[k]) as u32) < 128,
    ensures
        utf8(s).len() == s.len(),
        forall|k: int| 0 <= k < s.len() ==> #[trigger] utf8(s)[k] == s[k] as u8,
{
    assert forall|i: int| 0 <= i < s.len() implies '\0' <= #[trigger] s[i] <= '\u{7f}' by {
        ascii_char(s[i]);
    }
    assert(is_ascii_chars(s));
    is_ascii_chars_encode_utf8(s);
}

proof fn wide_bytes(c: char)
    requires
        c as u32 >= 128,
    ensures
        utf8(seq![c]).len() >= 1,
        forall|k: int| 0 <= k < utf8(seq![c]).len() ==> #[trigger] utf8(seq![c])[k] >= 128,
{
    let s = seq![c];
    assert(s.drop_first() =~= Seq::<char>::empty());
    assert(utf8(s.drop_first()) =~= Seq::<u8>::empty());
    assert(forall|x: u8| #[trigger] (0xC0u8 | x) >= 128) by (bit_vector);
    assert(forall|x: u8| #[trigger] (0xE0u8 | x) >= 128) by (bit_vector);
    assert(forall|x: u8| #[trigger] (0xF0u8 | x) >= 128) by (bit_vector);
    assert(forall|x: u8| #[trigger] (0x80u8 | x) >= 128) by (bit_vector);
}

/// Whether a character stands for itself in a JSON string.
spec fn is_plain(c: char) -> bool {
    c as u32 >= 32 && c != '"' && c != '\\'
}

proof fn plain_bytes(c: char)
    requires
        is_plain(c),
    ensures
        utf8(seq![c]).len() >= 1,
        forall|k: int|
            0 <= k < utf8(seq![c]).len() ==> #[trigger] utf8(seq![c])[k] >= 32 && utf8(seq![c])[k]
                != 34 && utf8(seq![c])[k] != 92,
{
    if (c as u32) < 128 {
        utf8_ascii(c);
    } else {
        wide_bytes(c);
    }
}

proof fn raw_bytes_read(
    bytes: Seq<u8>,
    p: int,
    w: Seq<u8>,
    k: int,
    decoded: Seq<u8>,
    limits: FormatLimits,
    row: u64,
)
    requires
        0 <= k <= w.len(),
        0 <= p,
        p + w.len() <= bytes.len(),
        bytes.subrange(p, p + w.len()) == w,
        forall|i: int| 0 <= i < w.len() ==> #[trigger] w[i] >= 32 && w[i] != 34 && w[i] != 92,
        decoded.len() + w.len() <= limits.max_string_bytes,
    ensures
        string_from(bytes, p + k, decoded + w.take(k), limits, row) == string_from(
            bytes,
            p + w.len(),
            decoded + w,
            limits,
            row,
        ),
    decreases w.len() - k,
{
    if k < w.len() {
        assert(bytes.subrange(p, p + w.len())[k] == bytes[p + k]);
        assert(w[k] >= 32);
        assert((decoded + w.take(k)) + seq![w[k]] =~= decoded + w.take(k + 1));
        raw_bytes_read(bytes, p, w, k + 1, decoded, limits, row);
    } else {
        assert(w.take(k) =~= w);
    }
}

proof fn short_escape_reads(
    bytes: Seq<u8>,
    p: int,
    mark: u8,
    b: u8,
    decoded: Seq<u8>,
    limits: FormatLimits,
    row: u64,
)
    requires
        0 <= p,
        p + 2 <= bytes.len(),
        bytes[p] == 92,
        bytes[p + 1] == mark,
        short_escape(mark) == Some(b),
        mark != 117,
        decoded.len() + 1 <= limits.max_string_bytes,
    ensures
        string_from(bytes, p, decoded, limits, row) == string_from(
            bytes,
            p + 2,
            decoded + seq![b],
            limits,
            row,
        ),
{
}

proof fn control_escape_reads(
    bytes: Seq<u8>,
    p: int,
    c: char,
    decoded: Seq<u8>,
    limits: FormatLimits,
    row: u64,
)
    requires
        0 <= p,
        p + 6 <= bytes.len(),
        (c as u32) < 32,
        bytes[p] == 92,
        bytes[p + 1] == 117,
        bytes[p + 2] == 48,
        bytes[p + 3] == 48,
        bytes[p + 4] == hex_digit(c as u32 as int / 16) as u8,
        bytes[p + 5] == hex_digit(c as u32 as int % 16) as u8,
        decoded.len() + 1 <= limits.max_string_bytes,
    ensures
        string_from(bytes, p, decoded, limits, row) == string_from(
            bytes,
            p + 6,
            decoded + utf8(seq![c]),
            limits,
            row,
        ),
{
    let code = c as u32;
    let high = code as int / 16;
    let low = code as int % 16;
    assert(0 <= high <= 1);
    assert(high * 16 + low == code);
    assert(hex_quad_from(bytes, p + 2, 0, 0) == Ok::<int, int>(code as int)) by {
        reveal_with_fuel(hex_quad_from, 5);
    }
    char_u32_cast(c, code);
    utf8_ascii(c);
    assert(escaped_scalar(bytes, p + 2, row) == Ok::<(int, int), FormatFault>((code as int, p + 6)));
}

proof fn pair_bytes(a: char, b: char)
    requires
        (a as u32) < 128,
        (b as u32) < 128,
    ensures
        utf8(seq![a, b]) == seq![a as u8, b as u8],
{
    ascii_bytes(seq![a, b]);
    assert(utf8(seq![a, b]) =~= seq![a as u8, b as u8]);
}

/// The letter of the short escape of a character.
spec fn mark_of(c: char) -> char {
    if c == '\n' {
        'n'
    } else if c == '\r' {
        'r'
    } else if c == '\t' {
        't'
    } else if c as u32 == 8 {
        'b'
    } else if c as u32 == 12 {
        'f'
    } else {
        c
    }
}

/// Whether a character has a short escape.
spec fn is_short(c: char) -> bool {
    c == '"' || c == '\\' || c == '\n' || c == '\r' || c == '\t' || c as u32 == 8 || c as u32 == 12
}

proof fn short_form(c: char)
    requires
        is_short(c),
    ensures
        utf8(json_escaped(c)) == seq![92u8, mark_of(c) as u8],
        short_escape(mark_of(c) as u8) == Some(c as u8),
        mark_of(c) as u8 != 117,
        utf8(seq![c]) == seq![c as u8],
{
    assert(json_escaped(c) =~= seq!['\\', mark_of(c)]);
    pair_bytes('\\', mark_of(c));
    utf8_ascii(c);
}

proof fn control_form(c: char)
    requires
        (c as u32) < 32,
        !is_short(c),
    ensures
        utf8(json_escaped(c)) == seq![
            92u8,
            117,
            48,
            48,
            hex_digit(c as u32 as int / 16) as u8,
            hex_digit(c as u32 as int % 16) as u8,
        ],
        utf8(seq![c]) == seq![c as u8],
{
    let e = json_escaped(c);
    let a = hex_digit(c as u32 as int / 16);
    let b = hex_digit(c as u32 as int % 16);
    assert(e =~= seq!['\\', 'u', '0', '0', a, b]);
    assert(e.len() == 6);
    ascii_bytes(e);
    utf8_ascii(c);
    assert(utf8(e) =~= seq![92u8, 117, 48, 48, a as u8, b as u8]);
}

proof fn unit_reads(
    bytes: Seq<u8>,
    p: int,
    c: char,
    decoded: Seq<u8>,
    limits: FormatLimits,
    row: u64,
)
    requires
        0 <= p,
        p + utf8(json_escaped(c)).len() <= bytes.len(),
        bytes.subrange(p, p + utf8(json_escaped(c)).len()) == utf8(json_escaped(c)),
        decoded.len() + utf8(seq![c]).len() <= limits.max_string_bytes,
    ensures
        string_from(bytes, p, decoded, limits, row) == string_from(
            bytes,
            p + utf8(json_escaped(c)).len(),
            decoded + utf8(seq![c]),
            limits,
            row,
        ),
{
    let e = utf8(json_escaped(c));
    let part = bytes.subrange(p, p + e.len());
    if is_short(c) {
        short_form(c);
        assert(part[0] == bytes[p] && part[1] == bytes[p + 1]);
        short_escape_reads(bytes, p, mark_of(c) as u8, c as u8, decoded, limits, row);
    } else if (c as u32) < 32 {
        control_form(c);
        assert(part[0] == bytes[p] && part[1] == bytes[p + 1] && part[2] == bytes[p + 2] && part[3]
            == bytes[p + 3] && part[4] == bytes[p + 4] && part[5] == bytes[p + 5]);
        control_escape_reads(bytes, p, c, decoded, limits, row);
    } else {
        plain_bytes(c);
        assert(json_escaped(c) =~= seq![c]);
        assert(decoded + e.take(0) =~= decoded);
        raw_bytes_read(bytes, p, e, 0, decoded, limits, row);
    }
}

/// The number of bytes of the first `k` characters of a text in a JSON string.
spec fn body_len(s: Seq<char>, k: int) -> int {
    utf8(json_body(s, k)).len() as int
}

proof fn body_grows(s: Seq<char>, k: int, n: int)
    requires
        0 <= k <= n <= s.len(),
    ensures
        body_len(s, k) <= body_len(s, n),
        utf8(json_body(s, n)).take(body_len(s, k)) == utf8(json_body(s, k)),
        k < n ==> utf8(json_body(s, k + 1)) == utf8(json_body(s, k)) + utf8(json_escaped(s[k])),
    decreases n - k,
{
    if k < n {
        body_grows(s, k, n - 1);
        utf8_concat(json_body(s, n - 1), json_escaped(s[n - 1]));
        utf8_concat(json_body(s, k), json_escaped(s[k]));
        let a = body_len(s, k);
        assert(utf8(json_body(s, n)).take(a) =~= utf8(json_body(s, n - 1)).take(a));
    } else {
        assert(utf8(json_body(s, n)).take(body_len(s, n)) =~= utf8(json_body(s, n)));
    }
}

#[verifier::spinoff_prover]
#[verifier::rlimit(60)]
proof fn body_reads(
    bytes: Seq<u8>,
    p: int,
    s: Seq<char>,
    k: int,
    limits: FormatLimits,
    row: u64,
)
    requires
        0 <= k <= s.len(),
        0 <= p,
        p + body_len(s, s.len() as int) < bytes.len(),
        bytes.subrange(p, p + body_len(s, s.len() as int)) == utf8(json_body(s, s.len() as int)),
        bytes[p + body_len(s, s.len() as int)] == 34,
        utf8(s).len() <= limits.max_string_bytes,
    ensures
        string_from(bytes, p + body_len(s, k), utf8(s.take(k)), limits, row) == Ok::<
            (Seq<char>, int),
            FormatFault,
        >((s, p + body_len(s, s.len() as int) + 1)),
    decreases s.len() - k,
{
    let n = s.len() as int;
    let whole = utf8(json_body(s, n));
    if k < n {
        let e = utf8(json_escaped(s[k]));
        let a = body_len(s, k);
        body_grows(s, k, n);
        body_grows(s, k + 1, n);
        assert(bytes.subrange(p + a, p + a + e.len()) =~= whole.take(body_len(s, k + 1)).skip(a))
            by {
            assert(bytes.subrange(p, p + whole.len()) == whole);
        }
        assert(utf8(json_body(s, k + 1)).skip(a) =~= e);
        assert(s.take(k + 1) =~= s.take(k) + seq![s[k]]);
        utf8_concat(s.take(k), seq![s[k]]);
        assert(s =~= s.take(k + 1) + s.skip(k + 1));
        utf8_concat(s.take(k + 1), s.skip(k + 1));
        unit_reads(bytes, p + a, s[k], utf8(s.take(k)), limits, row);
        body_reads(bytes, p, s, k + 1, limits, row);
    } else {
        assert(s.take(k) =~= s);
        encode_utf8_valid_utf8(s);
        encode_utf8_decode_utf8(s);
    }
}

proof fn quoted_bytes(s: Seq<char>)
    ensures
        utf8(json_quoted(s)) == seq![34u8] + utf8(json_body(s, s.len() as int)) + seq![34u8],
{
    let body = json_body(s, s.len() as int);
    utf8_ascii('"');
    utf8_concat(seq!['"'], body);
    utf8_concat(seq!['"'] + body, seq!['"']);
}

/// A string that was written is read as its text.
proof fn string_reads(bytes: Seq<u8>, p: int, s: Seq<char>, limits: FormatLimits, row: u64)
    requires
        0 <= p,
        p + utf8(json_quoted(s)).len() <= bytes.len(),
        bytes.subrange(p, p + utf8(json_quoted(s)).len()) == utf8(json_quoted(s)),
        utf8(s).len() <= limits.max_string_bytes,
    ensures
        string_at(bytes, p, limits, row) == Ok::<(Seq<char>, int), FormatFault>(
            (s, p + utf8(json_quoted(s)).len()),
        ),
{
    quoted_bytes(s);
    let n = s.len() as int;
    let q = utf8(json_quoted(s));
    let part = bytes.subrange(p, p + q.len());
    let body = utf8(json_body(s, n));
    assert(part[0] == bytes[p]);
    assert(part[q.len() - 1] == bytes[p + q.len() - 1]);
    assert(bytes.subrange(p + 1, p + 1 + body.len()) =~= part.subrange(1, 1 + body.len() as int));
    assert(q.subrange(1, 1 + body.len() as int) =~= body);
    assert(s.take(0) =~= Seq::<char>::empty());
    assert(utf8(s.take(0)) =~= Seq::<u8>::empty());
    body_grows(s, 0, n);
    assert(body_len(s, 0) == 0);
    body_reads(bytes, p + 1, s, 0, limits, row);
}

/// Whether a text is a decimal number without an exponent, as JSON has it.
pub open spec fn is_decimal(t: Seq<char>) -> bool {
    let a = if char_at(t, 0, '-') { 1int } else { 0 };
    let b = digits_end(t, a);
    &&& a < b
    &&& t[a] == '0' ==> b == a + 1
    &&& b == t.len() || (t[b] == '.' && b + 1 < digits_end(t, b + 1) && digits_end(t, b + 1)
        == t.len())
}

proof fn digits_stand(t: Seq<char>, i: int)
    requires
        0 <= i <= t.len(),
    ensures
        i <= digits_end(t, i) <= t.len(),
        forall|k: int| i <= k < digits_end(t, i) ==> is_digit(#[trigger] t[k]),
    decreases t.len() - i,
{
    if digit_at(t, i) {
        digits_stand(t, i + 1);
    }
}

proof fn all_digits_end(t: Seq<char>, i: int)
    requires
        0 <= i <= t.len(),
        forall|k: int| i <= k < t.len() ==> is_digit(#[trigger] t[k]),
    ensures
        digits_end(t, i) == t.len(),
    decreases t.len() - i,
{
    if i < t.len() {
        assert(is_digit(t[i]));
        all_digits_end(t, i + 1);
    }
}

proof fn decimal_bytes(t: Seq<char>)
    requires
        is_decimal(t),
    ensures
        utf8(t).len() == t.len(),
        t.len() >= 1,
        forall|k: int|
            0 <= k < t.len() ==> #[trigger] utf8(t)[k] == t[k] as u8 && (is_digit(t[k]) || t[k] == '-'
                || t[k] == '.'),
{
    let a = if char_at(t, 0, '-') { 1int } else { 0 };
    let b = digits_end(t, a);
    assert(a <= t.len());
    digits_stand(t, a);
    if b < t.len() {
        digits_stand(t, b + 1);
    }
    assert forall|k: int| 0 <= k < t.len() implies ((#[trigger] t[k]) as u32) < 128 && (is_digit(t[k])
        || t[k] == '-' || t[k] == '.') by {
        if k < a {
        } else if k < b {
            assert(is_digit(t[k]));
        } else if k > b {
            assert(is_digit(t[k]));
        }
    }
    ascii_bytes(t);
}

proof fn digits_read(bytes: Seq<u8>, p: int, t: Seq<char>, i: int)
    requires
        0 <= i <= t.len(),
        0 <= p,
        p + t.len() < bytes.len(),
        !(48 <= bytes[p + t.len()] <= 57),
        forall|k: int| 0 <= k < t.len() ==> bytes[p + k] == (#[trigger] t[k]) as u8,
        forall|k: int| 0 <= k < t.len() ==> ((#[trigger] t[k]) as u32) < 128,
    ensures
        past_digits(bytes, p + i) == p + digits_end(t, i),
    decreases t.len() - i,
{
    if i < t.len() {
        ascii_char(t[i]);
        assert(bytes[p + i] == t[i] as u8);
        if digit_at(t, i) {
            digits_read(bytes, p, t, i + 1);
        }
    }
}

proof fn decimal_reads(bytes: Seq<u8>, p: int, t: Seq<char>, row: u64)
    requires
        is_decimal(t),
        0 <= p,
        p + t.len() < bytes.len(),
        bytes.subrange(p, p + t.len()) == utf8(t),
        bytes[p + t.len()] == 44 || bytes[p + t.len()] == 125,
    ensures
        number_at(bytes, p, row) == Ok::<(Seq<char>, int), FormatFault>((t, p + t.len())),
        bytes[p] == 45 || digit_stands(bytes, p),
{
    decimal_bytes(t);
    let part = bytes.subrange(p, p + t.len());
    assert forall|k: int| 0 <= k < t.len() implies bytes[p + k] == (#[trigger] t[k]) as u8 && (t[k]
        as u32) < 128 by {
        assert(part[k] == bytes[p + k]);
        assert(utf8(t)[k] == t[k] as u8);
        assert(is_digit(t[k]) || t[k] == '-' || t[k] == '.');
    }
    let a = if char_at(t, 0, '-') { 1int } else { 0 };
    let b = digits_end(t, a);
    assert(a <= t.len());
    digits_stand(t, a);
    digits_read(bytes, p, t, a);
    assert(t[0] as u8 == bytes[p]);
    ascii_char(t[0]);
    assert(is_digit(t[a]));
    assert(bytes[p + a] == t[a] as u8);
    if a + 1 < t.len() {
        ascii_char(t[a + 1]);
        assert(bytes[p + a + 1] == t[a + 1] as u8);
    }
    assert(whole_end(bytes, p, row) == Ok::<int, FormatFault>(p + b));
    if b < t.len() {
        assert(bytes[p + b] == t[b] as u8);
        digits_read(bytes, p, t, b + 1);
    }
    assert(fraction_end(bytes, p + b, row) == Ok::<int, FormatFault>(p + t.len()));
    assert(number_end(bytes, p, row) == Ok::<int, FormatFault>(p + t.len()));
    assert(ascii_text(part) =~= t) by {
        assert forall|k: int| 0 <= k < t.len() implies ascii_text(part)[k] == #[trigger] t[k] by {
            ascii_char(t[k]);
            assert(part[k] == bytes[p + k]);
            narrow_char(t[k]);
        }
    }
}

proof fn narrow_char(c: char)
    requires
        (c as u32) < 128,
    ensures
        (c as u8) as char == c,
{
}

proof fn digits_have_shape(n: nat)
    ensures
        digits(n).len() >= 1,
        forall|k: int| 0 <= k < digits(n).len() ==> is_digit(#[trigger] digits(n)[k]),
        digits(n)[0] == '0' ==> digits(n).len() == 1,
        n > 0 ==> digits(n)[0] != '0',
    decreases n,
{
    if n >= 10 {
        digits_have_shape(n / 10);
        assert(n / 10 > 0);
    }
}

proof fn integers_are_decimal(n: int)
    ensures
        is_decimal(int_text(n)),
{
    let t = int_text(n);
    if n < 0 {
        let d = digits((-n) as nat);
        digits_have_shape((-n) as nat);
        assert(t =~= seq!['-'] + d);
        assert(t[0] == '-');
        assert forall|k: int| 1 <= k < t.len() implies is_digit(#[trigger] t[k]) by {
            assert(t[k] == d[k - 1]);
        }
        assert(t[1] == d[0]);
        all_digits_end(t, 1);
    } else {
        digits_have_shape(n as nat);
        assert(is_digit(t[0]));
        all_digits_end(t, 0);
    }
}

/// Whether the text of a cell, where it holds a floating-point value, is a JSON number that is
/// read as that value.
pub open spec fn survives_as_decimal(cell: Datum, m: FloatModel) -> bool {
    cell matches Datum::Float64(bits) ==> float_parsed(m, float_text(m, bits)) == Some(bits)
        && is_decimal(float_text(m, bits))
}

/// Whether the texts of the floating-point values in a row are JSON numbers that are read as
/// those values.
pub open spec fn floats_survive_as_decimals(cells: Seq<Datum>, m: FloatModel) -> bool {
    forall|c: int| 0 <= c < cells.len() ==> survives_as_decimal(#[trigger] cells[c], m)
}

/// The JSON value of a cell.
pub open spec fn json_of(cell: Datum, m: FloatModel) -> JsonData {
    match cell {
        Datum::Null => JsonData::Null,
        Datum::Int64(n) => JsonData::Number(int_text(n as int)),
        Datum::Float64(bits) => JsonData::Number(float_text(m, bits)),
        Datum::Bool(b) => JsonData::Bool(b),
        Datum::Text(s) => JsonData::Text(s),
    }
}

/// The bytes of a cell in a record.
pub open spec fn value_bytes(cell: Datum, m: FloatModel) -> Seq<u8> {
    match cell {
        Datum::Null => utf8("null"@),
        Datum::Int64(n) => utf8(int_text(n as int)),
        Datum::Float64(bits) => utf8(float_text(m, bits)),
        Datum::Bool(b) => utf8(if b { "true"@ } else { "false"@ }),
        Datum::Text(s) => utf8(json_quoted(s)),
    }
}

/// Whether a cell can be written, and read back within a limit on strings.
spec fn survives(cell: Datum, limits: FormatLimits) -> bool {
    match cell {
        Datum::Float64(bits) => is_finite(bits),
        Datum::Text(s) => utf8(s).len() <= limits.max_string_bytes,
        _ => true,
    }
}

proof fn words_are_ascii()
    ensures
        utf8("null"@).len() == 4 && utf8("null"@)[0] == 110,
        utf8("true"@).len() == 4 && utf8("true"@)[0] == 116,
        utf8("false"@).len() == 5 && utf8("false"@)[0] == 102,
        visible(utf8("null"@)),
        visible(utf8("true"@)),
        visible(utf8("false"@)),
{
    reveal_strlit("null");
    reveal_strlit("true");
    reveal_strlit("false");
    ascii_bytes("null"@);
    ascii_bytes("true"@);
    ascii_bytes("false"@);
}

/// Whether no byte is a control character.
spec fn visible(bytes: Seq<u8>) -> bool {
    forall|k: int| 0 <= k < bytes.len() ==> #[trigger] bytes[k] >= 32
}

proof fn values_read(bytes: Seq<u8>, p: int, cell: Datum, m: FloatModel, limits: FormatLimits, row: u64)
    requires
        0 <= p,
        p + value_bytes(cell, m).len() < bytes.len(),
        bytes.subrange(p, p + value_bytes(cell, m).len()) == value_bytes(cell, m),
        ({
            let next = bytes[p + value_bytes(cell, m).len()];
            next == 44 || next == 125
        }),
        survives(cell, limits),
        survives_as_decimal(cell, m),
    ensures
        value_here(bytes, p, 1, limits, row) == Ok::<(JsonData, int), FormatFault>(
            (json_of(cell, m), p + value_bytes(cell, m).len()),
        ),
        !is_blank(bytes[p]),
{
    let v = value_bytes(cell, m);
    let part = bytes.subrange(p, p + v.len());
    words_are_ascii();
    match cell {
        Datum::Null => {
            assert(part[0] == bytes[p]);
        },
        Datum::Bool(_) => {
            assert(part[0] == bytes[p]);
        },
        Datum::Int64(n) => {
            integers_are_decimal(n as int);
            decimal_bytes(int_text(n as int));
            decimal_reads(bytes, p, int_text(n as int), row);
        },
        Datum::Float64(bits) => {
            assert(float_parsed(m, float_text(m, bits)) == Some(bits));
            decimal_bytes(float_text(m, bits));
            decimal_reads(bytes, p, float_text(m, bits), row);
        },
        Datum::Text(s) => {
            quoted_bytes(s);
            assert(part[0] == bytes[p]);
            string_reads(bytes, p, s, limits, row);
        },
    }
}

proof fn cells_survive(cell: Datum, field: Field, row: u64, m: FloatModel, limits: FormatLimits)
    requires
        suits(cell, field.data_type),
        cell is Null ==> field.nullable,
        survives(cell, limits),
        survives_as_decimal(cell, m),
    ensures
        json_cell(Some(json_of(cell, m)), field, row, m) == Ok::<Datum, FormatFault>(cell),
{
    match cell {
        Datum::Int64(n) => {
            decimal_round_trip(n);
        },
        Datum::Float64(bits) => {
            assert(float_parsed(m, float_text(m, bits)) == Some(bits));
        },
        _ => {},
    }
}

proof fn escapes_are_visible(c: char)
    ensures
        visible(utf8(json_escaped(c))),
{
    if is_short(c) {
        short_form(c);
        assert(mark_of(c) as u8 >= 32);
    } else if (c as u32) < 32 {
        control_form(c);
        assert(hex_digit(c as u32 as int / 16) as u8 >= 48);
        assert(hex_digit(c as u32 as int % 16) as u8 >= 48);
    } else {
        plain_bytes(c);
        assert(json_escaped(c) =~= seq![c]);
    }
}

proof fn bodies_are_visible(s: Seq<char>, n: int)
    requires
        n <= s.len(),
    ensures
        visible(utf8(json_body(s, n))),
    decreases n,
{
    if n > 0 {
        bodies_are_visible(s, n - 1);
        escapes_are_visible(s[n - 1]);
        utf8_concat(json_body(s, n - 1), json_escaped(s[n - 1]));
    } else {
        assert(utf8(json_body(s, n)) =~= Seq::<u8>::empty());
    }
}

proof fn strings_are_visible(s: Seq<char>)
    ensures
        visible(utf8(json_quoted(s))),
{
    bodies_are_visible(s, s.len() as int);
    quoted_bytes(s);
}

proof fn values_are_visible(cell: Datum, m: FloatModel)
    requires
        cell matches Datum::Float64(bits) ==> is_finite(bits),
        survives_as_decimal(cell, m),
    ensures
        visible(value_bytes(cell, m)),
{
    words_are_ascii();
    match cell {
        Datum::Int64(n) => {
            integers_are_decimal(n as int);
            decimal_bytes(int_text(n as int));
        },
        Datum::Float64(bits) => {
            assert(float_parsed(m, float_text(m, bits)) == Some(bits));
            decimal_bytes(float_text(m, bits));
        },
        Datum::Text(s) => {
            strings_are_visible(s);
        },
        _ => {},
    }
}

/// A field of a record.
pub open spec fn member_bytes(cell: Datum, field: Field, m: FloatModel) -> Seq<u8> {
    utf8(json_quoted(field.name@)) + seq![58u8] + value_bytes(cell, m)
}

/// The rest of a record from a field on.
pub open spec fn record_tail(cells: Seq<Datum>, fields: Seq<Field>, m: FloatModel, c: int) -> Seq<u8>
    decreases cells.len() - c,
{
    if !(0 <= c < cells.len()) {
        seq![125u8]
    } else {
        member_bytes(cells[c], fields[c], m) + (if c + 1 < cells.len() {
            seq![44u8] + record_tail(cells, fields, m, c + 1)
        } else {
            seq![125u8]
        })
    }
}

/// The record of a row.
pub open spec fn record_bytes(cells: Seq<Datum>, fields: Seq<Field>, m: FloatModel) -> Seq<u8> {
    seq![123u8] + record_tail(cells, fields, m, 0)
}

/// Whether a row is within the limits of reading.
pub open spec fn record_within(
    cells: Seq<Datum>,
    fields: Seq<Field>,
    limits: FormatLimits,
    m: FloatModel,
) -> bool {
    &&& cells.len() == fields.len()
    &&& cells.len() <= limits.max_fields_per_row
    &&& record_bytes(cells, fields, m).len() <= limits.max_record_bytes
    &&& forall|c: int|
        0 <= c < cells.len() ==> {
            &&& (#[trigger] cells[c]) matches Datum::Text(s) ==> utf8(s).len()
                <= limits.max_string_bytes
            &&& value_bytes(cells[c], m).len() <= limits.max_field_bytes
            &&& utf8(fields[c].name@).len() <= limits.max_string_bytes
        }
}

/// Whether the floating-point values of a row are finite.
pub open spec fn all_finite(cells: Seq<Datum>) -> bool {
    forall|c: int|
        0 <= c < cells.len() ==> ((#[trigger] cells[c]) matches Datum::Float64(bits) ==> is_finite(
            bits,
        ))
}

/// The fields that a record is read as.
pub open spec fn json_fields(cells: Seq<Datum>, fields: Seq<Field>, m: FloatModel) -> Seq<JsonField> {
    Seq::new(
        cells.len(),
        |c: int| JsonField { name: fields[c].name@, value: json_of(cells[c], m) },
    )
}

proof fn members_extend(
    cells: Seq<Datum>,
    fields: Seq<Field>,
    row: int,
    m: FloatModel,
    c: int,
    done: Seq<u8>,
)
    requires
        0 <= c <= cells.len(),
        cells.len() == fields.len(),
        written_members(cells, fields, row, m, c, done) is Ok,
    ensures
        forall|k: int|
            c <= k < cells.len() ==> ((#[trigger] cells[k]) matches Datum::Float64(bits)
                ==> is_finite(bits)),
        written_members(cells, fields, row, m, c, done)->Ok_0.push(125) == done + (if 0 < c
            < cells.len() {
            seq![44u8] + record_tail(cells, fields, m, c)
        } else if c < cells.len() {
            record_tail(cells, fields, m, c)
        } else {
            seq![125u8]
        }),
    decreases cells.len() - c,
{
    if c < cells.len() {
        let text = written_value(cells[c], fields[c], row, m)->Ok_0;
        assert(utf8(text) == value_bytes(cells[c], m));
        let head = if c == 0 { done } else { done.push(44) };
        let member = member_bytes(cells[c], fields[c], m);
        let more = head + utf8(json_quoted(fields[c].name@)) + seq![58u8] + utf8(text);
        assert(more =~= head + member);
        members_extend(cells, fields, row, m, c + 1, more);
        let rest = if c + 1 < cells.len() {
            seq![44u8] + record_tail(cells, fields, m, c + 1)
        } else {
            seq![125u8]
        };
        assert(record_tail(cells, fields, m, c) == member + rest);
        assert(more + rest =~= head + (member + rest));
        if c > 0 {
            assert(done.push(44) + (member + rest) =~= done + (seq![44u8] + (member + rest)));
        }
    } else {
        assert(done.push(125) =~= done + seq![125u8]);
    }
}

proof fn member_stands(bytes: Seq<u8>, p: int, q: Seq<u8>, v: Seq<u8>, rest: Seq<u8>)
    requires
        0 <= p,
        rest.len() >= 1,
        q.len() >= 1,
        p + (q + seq![58u8] + v + rest).len() <= bytes.len(),
        bytes.subrange(p, p + (q + seq![58u8] + v + rest).len()) == q + seq![58u8] + v + rest,
    ensures
        bytes[p] == q[0],
        bytes.subrange(p, p + q.len()) == q,
        bytes[p + q.len()] == 58,
        bytes.subrange(p + q.len() + 1, p + q.len() + 1 + v.len()) == v,
        bytes[p + q.len() + 1 + v.len()] == rest[0],
        bytes.subrange(
            p + q.len() + 1 + v.len(),
            p + q.len() + 1 + v.len() + rest.len(),
        ) == rest,
{
    let whole = q + seq![58u8] + v + rest;
    let part = bytes.subrange(p, p + whole.len());
    assert forall|k: int| 0 <= k < whole.len() implies bytes[p + k] == #[trigger] whole[k] by {
        assert(part[k] == bytes[p + k]);
    }
    assert(whole[0] == q[0]);
    assert(bytes.subrange(p, p + q.len()) =~= q) by {
        assert forall|k: int| 0 <= k < q.len() implies bytes[p + k] == #[trigger] q[k] by {
            assert(whole[k] == q[k]);
        }
    }
    assert(whole[q.len() as int] == 58);
    let at = q.len() + 1int;
    assert(bytes.subrange(p + at, p + at + v.len()) =~= v) by {
        assert forall|k: int| 0 <= k < v.len() implies bytes[p + at + k] == #[trigger] v[k] by {
            assert(whole[at + k] == v[k]);
        }
    }
    let behind = at + v.len();
    assert(whole[behind] == rest[0]);
    assert(bytes.subrange(p + behind, p + behind + rest.len()) =~= rest) by {
        assert forall|k: int| 0 <= k < rest.len() implies bytes[p + behind + k] == #[trigger] rest[k] by {
            assert(whole[behind + k] == rest[k]);
        }
    }
}

proof fn one_field_reads(
    bytes: Seq<u8>,
    p: int,
    name: Seq<char>,
    value: JsonData,
    a: int,
    e: int,
    done: Seq<JsonField>,
    limits: FormatLimits,
    row: u64,
)
    requires
        0 <= p < a < e < bytes.len(),
        string_at(bytes, p, limits, row) == Ok::<(Seq<char>, int), FormatFault>((name, a)),
        bytes[a] == 58,
        value_here(bytes, a + 1, 1, limits, row) == Ok::<(JsonData, int), FormatFault>((value, e)),
        !is_blank(bytes[a + 1]),
        e - (a + 1) <= limits.max_field_bytes,
        done.len() < limits.max_fields_per_row,
        bytes[e] == 125 || (bytes[e] == 44 && e + 1 < bytes.len() && bytes[e + 1] == 34),
    ensures
        record_fields(bytes, p, done, limits, row) == (if bytes[e] == 125 {
            Ok((done.push(JsonField { name, value }), e + 1))
        } else {
            record_fields(bytes, e + 1, done.push(JsonField { name, value }), limits, row)
        }),
{
    assert(past_blanks(bytes, a) == a);
    assert(past_blanks(bytes, a + 1) == a + 1);
    assert(past_blanks(bytes, e) == e);
    if bytes[e] == 44 {
        assert(past_blanks(bytes, e + 1) == e + 1);
    }
}

/// What follows a field of a record.
spec fn behind_member(cells: Seq<Datum>, fields: Seq<Field>, m: FloatModel, c: int) -> Seq<u8> {
    if c + 1 < cells.len() {
        seq![44u8] + record_tail(cells, fields, m, c + 1)
    } else {
        seq![125u8]
    }
}

/// Whether the fields from a position on are read as the rest of a list.
#[verifier::opaque]
spec fn reads_to(
    bytes: Seq<u8>,
    p: int,
    done: Seq<JsonField>,
    limits: FormatLimits,
    row: u64,
    all: Seq<JsonField>,
    end: int,
) -> bool {
    record_fields(bytes, p, done, limits, row) == Ok::<(Seq<JsonField>, int), FormatFault>(
        (all, end),
    )
}

proof fn member_rest_stands(
    bytes: Seq<u8>,
    p: int,
    cell: Datum,
    field: Field,
    rest: Seq<u8>,
    m: FloatModel,
)
    requires
        0 <= p,
        p + (member_bytes(cell, field, m) + rest).len() <= bytes.len(),
        bytes.subrange(p, p + (member_bytes(cell, field, m) + rest).len()) == member_bytes(
            cell,
            field,
            m,
        ) + rest,
        rest.len() >= 1,
    ensures
        ({
            let e = p + member_bytes(cell, field, m).len();
            bytes.subrange(e, e + rest.len()) == rest
        }),
{
    let name = field.name@;
    let q = utf8(json_quoted(name));
    let v = value_bytes(cell, m);
    quoted_bytes(name);
    assert(member_bytes(cell, field, m) + rest =~= q + seq![58u8] + v + rest);
    member_stands(bytes, p, q, v, rest);
}

proof fn member_is_read(
    bytes: Seq<u8>,
    p: int,
    cell: Datum,
    field: Field,
    rest: Seq<u8>,
    done: Seq<JsonField>,
    m: FloatModel,
    limits: FormatLimits,
    row: u64,
    all: Seq<JsonField>,
    end: int,
)
    requires
        0 <= p,
        p + (member_bytes(cell, field, m) + rest).len() <= bytes.len(),
        bytes.subrange(p, p + (member_bytes(cell, field, m) + rest).len()) == member_bytes(
            cell,
            field,
            m,
        ) + rest,
        rest.len() >= 1,
        rest[0] == 125 || (rest[0] == 44 && rest.len() >= 2 && rest[1] == 34),
        survives(cell, limits),
        survives_as_decimal(cell, m),
        utf8(field.name@).len() <= limits.max_string_bytes,
        value_bytes(cell, m).len() <= limits.max_field_bytes,
        done.len() < limits.max_fields_per_row,
        ({
            let e = p + member_bytes(cell, field, m).len();
            let more = done.push(JsonField { name: field.name@, value: json_of(cell, m) });
            if rest[0] == 125 {
                all == more && end == e + 1
            } else {
                reads_to(bytes, e + 1, more, limits, row, all, end)
            }
        }),
    ensures
        reads_to(bytes, p, done, limits, row, all, end),
{
    let name = field.name@;
    let q = utf8(json_quoted(name));
    let v = value_bytes(cell, m);
    quoted_bytes(name);
    assert(member_bytes(cell, field, m) + rest =~= q + seq![58u8] + v + rest);
    member_stands(bytes, p, q, v, rest);
    let a = p + q.len();
    let e = a + 1 + v.len();
    if rest[0] == 44 {
        assert(bytes.subrange(e, e + rest.len())[1] == bytes[e + 1]);
    }
    string_reads(bytes, p, name, limits, row);
    values_read(bytes, a + 1, cell, m, limits, row);
    one_field_reads(bytes, p, name, json_of(cell, m), a, e, done, limits, row);
    reveal(reads_to);
}

proof fn tails_begin(cells: Seq<Datum>, fields: Seq<Field>, m: FloatModel, c: int)
    requires
        0 <= c < cells.len(),
    ensures
        record_tail(cells, fields, m, c) == member_bytes(cells[c], fields[c], m) + behind_member(
            cells,
            fields,
            m,
            c,
        ),
        record_tail(cells, fields, m, c).len() >= 1,
        record_tail(cells, fields, m, c)[0] == 34,
{
    quoted_bytes(fields[c].name@);
    assert(member_bytes(cells[c], fields[c], m)[0] == 34);
}

proof fn fields_read(
    bytes: Seq<u8>,
    p: int,
    cells: Seq<Datum>,
    fields: Seq<Field>,
    m: FloatModel,
    c: int,
    limits: FormatLimits,
    row: u64,
)
    requires
        0 <= c < cells.len(),
        0 <= p,
        p + record_tail(cells, fields, m, c).len() <= bytes.len(),
        bytes.subrange(p, p + record_tail(cells, fields, m, c).len()) == record_tail(
            cells,
            fields,
            m,
            c,
        ),
        record_within(cells, fields, limits, m),
        all_finite(cells),
        floats_survive_as_decimals(cells, m),
    ensures
        reads_to(
            bytes,
            p,
            json_fields(cells, fields, m).take(c),
            limits,
            row,
            json_fields(cells, fields, m),
            p + record_tail(cells, fields, m, c).len(),
        ),
    decreases cells.len() - c,
{
    let all = json_fields(cells, fields, m);
    let rest = behind_member(cells, fields, m, c);
    let member = member_bytes(cells[c], fields[c], m);
    tails_begin(cells, fields, m, c);
    if c + 1 < cells.len() {
        tails_begin(cells, fields, m, c + 1);
    }
    assert(cells[c] matches Datum::Text(s) ==> utf8(s).len() <= limits.max_string_bytes);
    assert(cells[c] matches Datum::Float64(bits) ==> is_finite(bits));
    assert(survives_as_decimal(cells[c], m));
    let e = p + member.len();
    let end = p + record_tail(cells, fields, m, c).len();
    member_rest_stands(bytes, p, cells[c], fields[c], rest, m);
    assert(all.take(c).push(all[c]) =~= all.take(c + 1));
    if c + 1 < cells.len() {
        let next = record_tail(cells, fields, m, c + 1);
        assert(bytes.subrange(e, e + rest.len()).skip(1) =~= bytes.subrange(
            e + 1,
            e + 1 + next.len(),
        ));
        assert(rest.skip(1) =~= next);
        fields_read(bytes, e + 1, cells, fields, m, c + 1, limits, row);
    } else {
        assert(all.take(c + 1) =~= all);
    }
    member_is_read(bytes, p, cells[c], fields[c], rest, all.take(c), m, limits, row, all, end);
}

proof fn record_reads(cells: Seq<Datum>, fields: Seq<Field>, m: FloatModel, limits: FormatLimits, row: u64)
    requires
        record_within(cells, fields, limits, m),
        all_finite(cells),
        floats_survive_as_decimals(cells, m),
        limits.max_nesting_depth >= 1,
    ensures
        record_object(record_bytes(cells, fields, m), limits, row) == Ok::<
            Seq<JsonField>,
            FormatFault,
        >(json_fields(cells, fields, m)),
{
    let bytes = record_bytes(cells, fields, m);
    let tail = record_tail(cells, fields, m, 0);
    let all = json_fields(cells, fields, m);
    assert(bytes[0] == 123);
    if cells.len() > 0 {
        assert(bytes.subrange(1, 1int + tail.len()) =~= tail);
        assert(all.take(0) =~= Seq::<JsonField>::empty());
        fields_read(bytes, 1, cells, fields, m, 0, limits, row);
        tails_begin(cells, fields, m, 0);
        reveal(reads_to);
    } else {
        assert(bytes[1] == 125);
        assert(all =~= Seq::<JsonField>::empty());
    }
}

/// Whether the names of columns differ.
pub open spec fn names_differ(fields: Seq<Field>) -> bool {
    forall|i: int, j: int|
        0 <= i < j < fields.len() ==> (#[trigger] fields[i]).name@ != (#[trigger] fields[j]).name@
}

proof fn name_is_found(fields: Seq<Field>, c: int, i: int)
    requires
        0 <= i <= c < fields.len(),
        names_differ(fields),
    ensures
        field_from(fields, fields[c].name@, i) == Some(c),
    decreases c - i,
{
    if i < c {
        assert(fields[i].name@ != fields[c].name@);
        name_is_found(fields, c, i + 1);
    }
}

/// The values of the first `i` columns.
spec fn first_slots(cells: Seq<Datum>, m: FloatModel, i: int) -> Seq<Option<JsonData>> {
    Seq::new(
        cells.len(),
        |k: int|
            if k < i {
                Some(json_of(cells[k], m))
            } else {
                None
            },
    )
}

proof fn fields_are_placed(cells: Seq<Datum>, fields: Seq<Field>, m: FloatModel, row: u64, i: int)
    requires
        0 <= i <= cells.len(),
        cells.len() == fields.len(),
        names_differ(fields),
    ensures
        placed(json_fields(cells, fields, m), fields, row, i, first_slots(cells, m, i)) == Ok::<
            Seq<Option<JsonData>>,
            FormatFault,
        >(first_slots(cells, m, cells.len() as int)),
    decreases cells.len() - i,
{
    if i < cells.len() {
        name_is_found(fields, i, 0);
        assert(first_slots(cells, m, i).update(i, Some(json_of(cells[i], m))) =~= first_slots(
            cells,
            m,
            i + 1,
        ));
        fields_are_placed(cells, fields, m, row, i + 1);
    }
}

proof fn row_survives(
    cells: Seq<Datum>,
    fields: Seq<Field>,
    m: FloatModel,
    limits: FormatLimits,
    row: u64,
    c: int,
)
    requires
        0 <= c <= cells.len(),
        row_suits(cells, fields),
        record_within(cells, fields, limits, m),
        all_finite(cells),
        floats_survive_as_decimals(cells, m),
    ensures
        json_cells(
            first_slots(cells, m, cells.len() as int),
            fields,
            row,
            m,
            c,
            cells.take(c),
        ) == Ok::<Seq<Datum>, FormatFault>(cells),
    decreases cells.len() - c,
{
    if c < cells.len() {
        assert(suits(cells[c], fields[c].data_type));
        cells_survive(cells[c], fields[c], row, m, limits);
        assert(cells.take(c).push(cells[c]) =~= cells.take(c + 1));
        row_survives(cells, fields, m, limits, row, c + 1);
    } else {
        assert(cells.take(c) =~= cells);
    }
}

proof fn tails_are_visible(cells: Seq<Datum>, fields: Seq<Field>, m: FloatModel, c: int)
    requires
        0 <= c,
        all_finite(cells),
        floats_survive_as_decimals(cells, m),
    ensures
        visible(record_tail(cells, fields, m, c)),
        record_tail(cells, fields, m, c).len() >= 1,
        record_tail(cells, fields, m, c).last() == 125,
    decreases cells.len() - c,
{
    if c < cells.len() {
        strings_are_visible(fields[c].name@);
        values_are_visible(cells[c], m);
        assert(visible(member_bytes(cells[c], fields[c], m)));
        if c + 1 < cells.len() {
            tails_are_visible(cells, fields, m, c + 1);
        }
    }
}

proof fn line_reads(
    input: Seq<u8>,
    p: int,
    w: Seq<u8>,
    k: int,
    limits: FormatLimits,
    row: u64,
)
    requires
        0 <= k <= w.len(),
        0 <= p,
        p + w.len() < input.len() <= limits.max_input_bytes,
        input.subrange(p, p + w.len()) == w,
        input[p + w.len()] == 10,
        visible(w),
        w.len() <= limits.max_record_bytes,
    ensures
        line_from(input, p + k, w.take(k), limits, row) == line_done(w, p + w.len() + 1, row),
    decreases w.len() - k,
{
    if k < w.len() {
        assert(input.subrange(p, p + w.len())[k] == input[p + k]);
        assert(w[k] >= 32);
        assert(w.take(k).push(w[k]) =~= w.take(k + 1));
        line_reads(input, p, w, k + 1, limits, row);
    } else {
        assert(w.take(k) =~= w);
    }
}

/// The lines of rows from one on.
spec fn lines_of(rows: Seq<Seq<Datum>>, fields: Seq<Field>, m: FloatModel, r: int) -> Seq<u8>
    decreases rows.len() - r,
{
    if !(0 <= r < rows.len()) {
        Seq::empty()
    } else {
        record_bytes(rows[r], fields, m) + seq![10u8] + lines_of(rows, fields, m, r + 1)
    }
}

proof fn lines_extend(
    rows: Seq<Seq<Datum>>,
    fields: Seq<Field>,
    m: FloatModel,
    r: int,
    done: Seq<u8>,
)
    requires
        0 <= r <= rows.len(),
        forall|i: int| 0 <= i < rows.len() ==> (#[trigger] rows[i]).len() == fields.len(),
        written_lines(rows, fields, m, r, done) is Ok,
    ensures
        written_lines(rows, fields, m, r, done)->Ok_0 == done + lines_of(rows, fields, m, r),
        forall|i: int| r <= i < rows.len() ==> all_finite(#[trigger] rows[i]),
    decreases rows.len() - r,
{
    if r < rows.len() {
        let bytes = written_members(rows[r], fields, r, m, 0, done.push(123))->Ok_0;
        members_extend(rows[r], fields, r, m, 0, done.push(123));
        let record = record_bytes(rows[r], fields, m);
        assert(bytes.push(125) =~= done + record);
        let more = bytes.push(125).push(10);
        lines_extend(rows, fields, m, r + 1, more);
        assert(more + lines_of(rows, fields, m, r + 1) =~= done + (record + seq![10u8] + lines_of(
            rows,
            fields,
            m,
            r + 1,
        )));
    } else {
        assert(done + lines_of(rows, fields, m, r) =~= done);
    }
}

proof fn one_line_survives(
    input: Seq<u8>,
    p: int,
    cells: Seq<Datum>,
    fields: Seq<Field>,
    options: NdjsonOptions,
    m: FloatModel,
    r: int,
)
    requires
        0 <= p,
        0 <= r < options.limits.max_rows,
        p + record_bytes(cells, fields, m).len() < input.len() <= options.limits.max_input_bytes,
        input.subrange(p, p + record_bytes(cells, fields, m).len()) == record_bytes(
            cells,
            fields,
            m,
        ),
        input[p + record_bytes(cells, fields, m).len()] == 10,
        options.limits.max_nesting_depth >= 1,
        names_differ(fields),
        floats_survive_as_decimals(cells, m),
        row_suits(cells, fields),
        all_finite(cells),
        record_within(cells, fields, options.limits, m),
    ensures
        line_next(
            input,
            fields,
            options,
            m,
            LineCursor { position: p, rows_read: r as u64 },
        ) == Ok::<Option<(Seq<Datum>, LineCursor)>, FormatFault>(
            Some(
                (
                    cells,
                    LineCursor {
                        position: p + record_bytes(cells, fields, m).len() + 1,
                        rows_read: (r + 1) as u64,
                    },
                ),
            ),
        ),
{
    let limits = options.limits;
    let row = row_behind(r as u64);
    let w = record_bytes(cells, fields, m);
    tails_are_visible(cells, fields, m, 0);
    assert(visible(w));
    assert(w.take(0) =~= Seq::<u8>::empty());
    line_reads(input, p, w, 0, limits, row);
    assert(w.last() == 125);
    record_reads(cells, fields, m, limits, row);
    assert(first_slots(cells, m, 0) =~= no_values(fields.len()));
    fields_are_placed(cells, fields, m, row, 0);
    assert(cells.take(0) =~= Seq::<Datum>::empty());
    row_survives(cells, fields, m, limits, row, 0);
    assert(json_row(w, fields, options, row, m) == Ok::<Seq<Datum>, FormatFault>(cells));
}

/// Whether the lines from a cursor on are read as the rest of a list.
#[verifier::opaque]
spec fn lines_read_to(
    input: Seq<u8>,
    fields: Seq<Field>,
    options: NdjsonOptions,
    m: FloatModel,
    c: LineCursor,
    done: Seq<Seq<Datum>>,
    all: Seq<Seq<Datum>>,
) -> bool {
    lines_from(input, fields, options, m, c, done) == Ok::<Seq<Seq<Datum>>, FormatFault>(all)
}

proof fn line_continues(
    input: Seq<u8>,
    fields: Seq<Field>,
    options: NdjsonOptions,
    m: FloatModel,
    c: LineCursor,
    cells: Seq<Datum>,
    next: LineCursor,
    done: Seq<Seq<Datum>>,
    all: Seq<Seq<Datum>>,
)
    requires
        line_next(input, fields, options, m, c) == Ok::<
            Option<(Seq<Datum>, LineCursor)>,
            FormatFault,
        >(Some((cells, next))),
        c.position < next.position <= input.len(),
        lines_read_to(input, fields, options, m, next, done.push(cells), all),
    ensures
        lines_read_to(input, fields, options, m, c, done, all),
{
    reveal(lines_read_to);
}

proof fn lines_end(
    input: Seq<u8>,
    fields: Seq<Field>,
    options: NdjsonOptions,
    m: FloatModel,
    c: LineCursor,
    all: Seq<Seq<Datum>>,
)
    requires
        c.position == input.len(),
    ensures
        lines_read_to(input, fields, options, m, c, all, all),
{
    reveal(lines_read_to);
}

proof fn line_stands(input: Seq<u8>, p: int, w: Seq<u8>, next: Seq<u8>)
    requires
        0 <= p,
        p + w.len() + 1 + next.len() == input.len(),
        input.skip(p) == w + seq![10u8] + next,
    ensures
        input.subrange(p, p + w.len()) == w,
        input[p + w.len()] == 10,
        input.skip(p + w.len() + 1) == next,
{
    let rest = w + seq![10u8] + next;
    assert(input.subrange(p, p + w.len()) =~= input.skip(p).take(w.len() as int));
    assert(rest.take(w.len() as int) =~= w);
    assert(input[p + w.len()] == input.skip(p)[w.len() as int]);
    assert(input.skip(p + w.len() + 1) =~= input.skip(p).skip(w.len() + 1int));
    assert(rest.skip(w.len() + 1int) =~= next);
}

proof fn lines_survive(
    input: Seq<u8>,
    p: int,
    rows: Seq<Seq<Datum>>,
    fields: Seq<Field>,
    options: NdjsonOptions,
    m: FloatModel,
    r: int,
)
    requires
        0 <= r <= rows.len(),
        0 <= p,
        p + lines_of(rows, fields, m, r).len() == input.len(),
        input.len() <= options.limits.max_input_bytes,
        input.skip(p) == lines_of(rows, fields, m, r),
        rows.len() <= options.limits.max_rows,
        options.limits.max_nesting_depth >= 1,
        names_differ(fields),
        forall|i: int| 0 <= i < rows.len() ==> floats_survive_as_decimals(#[trigger] rows[i], m),
        forall|i: int| 0 <= i < rows.len() ==> row_suits(#[trigger] rows[i], fields),
        forall|i: int| 0 <= i < rows.len() ==> all_finite(#[trigger] rows[i]),
        forall|i: int|
            0 <= i < rows.len() ==> record_within(#[trigger] rows[i], fields, options.limits, m),
    ensures
        lines_read_to(
            input,
            fields,
            options,
            m,
            LineCursor { position: p, rows_read: r as u64 },
            rows.take(r),
            rows,
        ),
    decreases rows.len() - r,
{
    let here = LineCursor { position: p, rows_read: r as u64 };
    if r < rows.len() {
        let cells = rows[r];
        let w = record_bytes(cells, fields, m);
        let next = lines_of(rows, fields, m, r + 1);
        let q = p + w.len() + 1;
        let there = LineCursor { position: q, rows_read: (r + 1) as u64 };
        assert(all_finite(cells) && row_suits(cells, fields));
        assert(floats_survive_as_decimals(cells, m));
        assert(record_within(cells, fields, options.limits, m));
        line_stands(input, p, w, next);
        one_line_survives(input, p, cells, fields, options, m, r);
        assert(rows.take(r).push(cells) =~= rows.take(r + 1));
        lines_survive(input, q, rows, fields, options, m, r + 1);
        line_continues(input, fields, options, m, here, cells, there, rows.take(r), rows);
    } else {
        assert(rows.take(r) =~= rows);
        lines_end(input, fields, options, m, here, rows);
    }
}

/// Reading back the lines that were written gives the same rows: for rows of a schema with
/// different names, within the limits of reading, where the texts of their floating-point
/// values read as those values.
pub proof fn written_ndjson_reads_back(
    rows: Seq<Seq<Datum>>,
    fields: Seq<Field>,
    options: NdjsonOptions,
    m: FloatModel,
)
    requires
        names_differ(fields),
        forall|i: int| 0 <= i < rows.len() ==> row_suits(#[trigger] rows[i], fields),
        ndjson_written(rows, fields, m) is Ok,
        forall|i: int| 0 <= i < rows.len() ==> floats_survive_as_decimals(#[trigger] rows[i], m),
        rows.len() <= options.limits.max_rows,
        json_limits_check(options.limits, fields.len()) is Ok,
        ndjson_written(rows, fields, m)->Ok_0.len() <= options.limits.max_input_bytes,
        forall|i: int|
            0 <= i < rows.len() ==> record_within(#[trigger] rows[i], fields, options.limits, m),
    ensures
        ndjson_ingested(ndjson_written(rows, fields, m)->Ok_0, fields, options, m) == Ok::<
            Seq<Seq<Datum>>,
            FormatFault,
        >(rows),
{
    let input = ndjson_written(rows, fields, m)->Ok_0;
    lines_extend(rows, fields, m, 0, Seq::empty());
    assert(Seq::<u8>::empty() + lines_of(rows, fields, m, 0) =~= lines_of(rows, fields, m, 0));
    assert(input.skip(0) =~= input);
    assert(rows.take(0) =~= Seq::<Seq<Datum>>::empty());
    lines_survive(input, 0, rows, fields, options, m, 0);
    reveal(lines_read_to);
}

/// Rows of a schema without floating-point columns read back whatever texts such values have.
pub proof fn ndjson_without_floats_reads_back(
    rows: Seq<Seq<Datum>>,
    fields: Seq<Field>,
    options: NdjsonOptions,
    m: FloatModel,
)
    requires
        names_differ(fields),
        forall|c: int| 0 <= c < fields.len() ==> (#[trigger] fields[c]).data_type != DataType::Float64,
        forall|i: int| 0 <= i < rows.len() ==> row_suits(#[trigger] rows[i], fields),
        ndjson_written(rows, fields, m) is Ok,
        rows.len() <= options.limits.max_rows,
        json_limits_check(options.limits, fields.len()) is Ok,
        ndjson_written(rows, fields, m)->Ok_0.len() <= options.limits.max_input_bytes,
        forall|i: int|
            0 <= i < rows.len() ==> record_within(#[trigger] rows[i], fields, options.limits, m),
    ensures
        ndjson_ingested(ndjson_written(rows, fields, m)->Ok_0, fields, options, m) == Ok::<
            Seq<Seq<Datum>>,
            FormatFault,
        >(rows),
{
    assert forall|i: int| 0 <= i < rows.len() implies floats_survive_as_decimals(
        #[trigger] rows[i],
        m,
    ) by {
        let cells = rows[i];
        assert(row_suits(cells, fields));
        assert forall|c: int| 0 <= c < cells.len() implies survives_as_decimal(
            #[trigger] cells[c],
            m,
        ) by {
            assert(suits(cells[c], fields[c].data_type));
            assert(fields[c].data_type != DataType::Float64);
        }
    }
    written_ndjson_reads_back(rows, fields, options, m);
}

} // verus!
