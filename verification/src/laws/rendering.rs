//! What rendering results as text is for.

use vstd::prelude::*;
use crate::float::FloatModel;
use crate::format::{csv_field_text, csv_value, has_csv_special, json_value, quotes_doubled};
use crate::json_text::{hex_digit, json_body, json_escaped, json_quoted};
use crate::text::{decimal_round_trip, i64_value};
use crate::types::Datum;

verus! {

/// Text in which two quotes stand for one, read from the front.
pub open spec fn quotes_read(s: Seq<char>) -> Seq<char>
    decreases s.len(),
{
    if s.len() == 0 {
        Seq::empty()
    } else if s.len() >= 2 && s[0] == '"' && s[1] == '"' {
        seq!['"'] + quotes_read(s.skip(2))
    } else {
        seq![s[0]] + quotes_read(s.skip(1))
    }
}

/// What a CSV field holds: within quotes two quotes stand for one.
pub open spec fn field_read(field: Seq<char>) -> Seq<char> {
    if field.len() >= 2 && field[0] == '"' && field.last() == '"' {
        quotes_read(field.subrange(1, field.len() - 1))
    } else {
        field
    }
}

proof fn doubled_quotes_are_read(s: Seq<char>, n: int, rest: Seq<char>)
    requires
        0 <= n <= s.len(),
    ensures
        quotes_read(quotes_doubled(s, n) + rest) == s.take(n) + quotes_read(rest),
    decreases n,
{
    if n > 0 {
        let c = s[n - 1];
        let piece = if c == '"' {
            seq!['"', '"']
        } else {
            seq![c]
        };
        let behind = piece + rest;
        assert(quotes_doubled(s, n) + rest =~= quotes_doubled(s, n - 1) + behind);
        doubled_quotes_are_read(s, n - 1, behind);
        if c == '"' {
            assert(behind[0] == '"' && behind[1] == '"');
            assert(behind.skip(2) =~= rest);
        } else {
            assert(behind[0] == c);
            assert(behind.skip(1) =~= rest);
        }
        assert(quotes_read(behind) == seq![c] + quotes_read(rest));
        assert(s.take(n - 1) + (seq![c] + quotes_read(rest)) =~= s.take(n) + quotes_read(rest));
    } else {
        assert(quotes_doubled(s, n) + rest =~= rest);
        assert(s.take(n) + quotes_read(rest) =~= quotes_read(rest));
    }
}

/// A CSV field holds the text that was written; it stands in quotes where the text could be
/// taken for more than one field; and it is never what stands for NULL.
pub proof fn csv_fields_hold_their_text(s: Seq<char>, m: FloatModel)
    ensures
        field_read(csv_field_text(s)) == s,
        (s.contains(',') || s.contains('"') || s.contains('\n') || s.contains('\r'))
            ==> csv_field_text(s).len() >= 2 && csv_field_text(s)[0] == '"' && csv_field_text(
            s,
        ).last() == '"',
        csv_field_text(s) != csv_value(Datum::Null, m),
        csv_value(Datum::Text(s), m) == csv_field_text(s),
{
    reveal_strlit("\\N");
    let field = csv_field_text(s);
    if has_csv_special(s) || s == "\\N"@ {
        let inner = quotes_doubled(s, s.len() as int);
        assert(field.subrange(1, field.len() - 1) =~= inner);
        doubled_quotes_are_read(s, s.len() as int, Seq::empty());
        assert(inner + Seq::<char>::empty() =~= inner);
        assert(s.take(s.len() as int) + quotes_read(Seq::empty()) =~= s);
        assert(field[0] == '"');
        assert("\\N"@[0] == '\\');
    } else if s.len() > 0 {
        assert(s.contains(s[0]));
        assert(s[0] != '"');
    }
}

/// An integer is rendered as decimal digits that read back as it; truth values and NULL by their
/// names.
pub proof fn plain_values_are_rendered(i: i64, b: bool, m: FloatModel)
    ensures
        i64_value(csv_value(Datum::Int64(i), m)) == Some(i),
        i64_value(json_value(Datum::Int64(i), m)) == Some(i),
        csv_value(Datum::Bool(true), m) == "true"@,
        csv_value(Datum::Bool(false), m) == "false"@,
        json_value(Datum::Bool(true), m) == "true"@,
        json_value(Datum::Bool(false), m) == "false"@,
        csv_value(Datum::Null, m) == "\\N"@,
        json_value(Datum::Null, m) == "null"@,
{
    decimal_round_trip(i);
}

/// The number that a hexadecimal digit stands for.
pub open spec fn hex_value(c: char) -> int {
    if '0' <= c && c <= '9' {
        c as int - 48
    } else {
        c as int - 87
    }
}

/// The character that a letter behind a backslash stands for.
pub open spec fn escape_read(c: char) -> char {
    if c == 'n' {
        '\n'
    } else if c == 'r' {
        '\r'
    } else if c == 't' {
        '\t'
    } else if c == 'b' {
        8u8 as char
    } else if c == 'f' {
        12u8 as char
    } else {
        c
    }
}

/// The content of a JSON string, read from the front.
pub open spec fn string_read(s: Seq<char>) -> Seq<char>
    decreases s.len(),
{
    if s.len() == 0 {
        Seq::empty()
    } else if s[0] != '\\' {
        seq![s[0]] + string_read(s.skip(1))
    } else if s.len() >= 6 && s[1] == 'u' {
        let code = hex_value(s[2]) * 4096 + hex_value(s[3]) * 256 + hex_value(s[4]) * 16
            + hex_value(s[5]);
        seq![code as char] + string_read(s.skip(6))
    } else if s.len() >= 2 {
        seq![escape_read(s[1])] + string_read(s.skip(2))
    } else {
        Seq::empty()
    }
}

proof fn hex_digits_are_read(n: int)
    requires
        0 <= n < 16,
    ensures
        hex_value(hex_digit(n)) == n,
{
}

proof fn an_escape_is_read(c: char, rest: Seq<char>)
    ensures
        string_read(json_escaped(c) + rest) == seq![c] + string_read(rest),
{
    let piece = json_escaped(c);
    let s = piece + rest;
    let code = c as int;
    assert(s[0] == piece[0]);
    if piece.len() == 1 {
        assert(s.skip(1) =~= rest);
    } else if piece.len() == 2 {
        assert(s[1] == piece[1]);
        assert(s.skip(2) =~= rest);
        assert(piece[1] != 'u');
        assert(escape_read(piece[1]) == c);
    } else {
        let (hi, lo) = (code / 16, code % 16);
        hex_digits_are_read(hi);
        hex_digits_are_read(lo);
        assert(s[1] == 'u' && s[2] == '0' && s[3] == '0' && s[4] == piece[4] && s[5] == piece[5]);
        assert(s.skip(6) =~= rest);
        assert(hex_value('0') == 0);
        assert(hi * 16 + lo == code);
    }
}

proof fn a_body_is_read(s: Seq<char>, n: int, rest: Seq<char>)
    requires
        0 <= n <= s.len(),
    ensures
        string_read(json_body(s, n) + rest) == s.take(n) + string_read(rest),
    decreases n,
{
    if n > 0 {
        let c = s[n - 1];
        let behind = json_escaped(c) + rest;
        assert(json_body(s, n) + rest =~= json_body(s, n - 1) + behind);
        a_body_is_read(s, n - 1, behind);
        an_escape_is_read(c, rest);
        assert(s.take(n - 1) + (seq![c] + string_read(rest)) =~= s.take(n) + string_read(rest));
    } else {
        assert(json_body(s, n) + rest =~= rest);
        assert(s.take(n) + string_read(rest) =~= string_read(rest));
    }
}

/// A JSON string stands in quotes and reads back as the text that was written.
pub proof fn json_strings_hold_their_text(s: Seq<char>, m: FloatModel)
    ensures
        ({
            let shown = json_quoted(s);
            &&& shown.len() >= 2 && shown[0] == '"' && shown.last() == '"'
            &&& string_read(shown.subrange(1, shown.len() - 1)) == s
            &&& json_value(Datum::Text(s), m) == shown
        }),
{
    let shown = json_quoted(s);
    let body = json_body(s, s.len() as int);
    assert(shown.subrange(1, shown.len() - 1) =~= body);
    a_body_is_read(s, s.len() as int, Seq::empty());
    assert(body + Seq::<char>::empty() =~= body);
    assert(s.take(s.len() as int) + string_read(Seq::empty()) =~= s);
}

} // verus!
