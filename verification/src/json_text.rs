//! Text as JSON strings.

use vstd::prelude::*;
use crate::text::chars_of;

verus! {

/// The lowercase hexadecimal digit of a number below sixteen.
pub open spec fn hex_digit(n: int) -> char {
    if n < 10 {
        (48 + n) as char
    } else {
        (87 + n) as char
    }
}

/// How a character stands in a JSON string.
pub open spec fn json_escaped(c: char) -> Seq<char> {
    let code = c as u32;
    if c == '"' {
        seq!['\\', '"']
    } else if c == '\\' {
        seq!['\\', '\\']
    } else if c == '\n' {
        seq!['\\', 'n']
    } else if c == '\r' {
        seq!['\\', 'r']
    } else if c == '\t' {
        seq!['\\', 't']
    } else if code == 8 {
        seq!['\\', 'b']
    } else if code == 12 {
        seq!['\\', 'f']
    } else if code < 32 {
        seq!['\\', 'u', '0', '0', hex_digit(code as int / 16), hex_digit(code as int % 16)]
    } else {
        seq![c]
    }
}

/// The first `n` characters of a text as they stand in a JSON string.
pub open spec fn json_body(s: Seq<char>, n: int) -> Seq<char>
    decreases n,
{
    if n <= 0 {
        Seq::empty()
    } else {
        json_body(s, n - 1) + json_escaped(s[n - 1])
    }
}

/// A text as a JSON string.
pub open spec fn json_quoted(s: Seq<char>) -> Seq<char> {
    seq!['"'] + json_body(s, s.len() as int) + seq!['"']
}

fn hex_char(n: u32) -> (c: char)
    requires
        n < 16,
    ensures
        c == hex_digit(n as int),
{
    match n {
        0 => '0',
        1 => '1',
        2 => '2',
        3 => '3',
        4 => '4',
        5 => '5',
        6 => '6',
        7 => '7',
        8 => '8',
        9 => '9',
        10 => 'a',
        11 => 'b',
        12 => 'c',
        13 => 'd',
        14 => 'e',
        _ => 'f',
    }
}

fn push_pair(target: &mut String, c: char)
    ensures
        final(target)@ == old(target)@ + seq!['\\', c],
{
    target.push('\\');
    target.push(c);
    assert(target@ =~= old(target)@ + seq!['\\', c]);
}

/// Appends a character as it stands in a JSON string.
pub fn push_json_char(target: &mut String, c: char)
    ensures
        final(target)@ == old(target)@ + json_escaped(c),
{
    let code = c as u32;
    if c == '"' || c == '\\' {
        push_pair(target, c);
    } else if c == '\n' {
        push_pair(target, 'n');
    } else if c == '\r' {
        push_pair(target, 'r');
    } else if c == '\t' {
        push_pair(target, 't');
    } else if code == 8 {
        push_pair(target, 'b');
    } else if code == 12 {
        push_pair(target, 'f');
    } else if code < 32 {
        push_pair(target, 'u');
        target.push('0');
        target.push('0');
        target.push(hex_char(code / 16));
        target.push(hex_char(code % 16));
        assert(target@ =~= old(target)@ + json_escaped(c));
    } else {
        target.push(c);
        assert(target@ =~= old(target)@ + seq![c]);
    }
}

/// Appends a text as a JSON string.
pub fn push_json_string(target: &mut String, s: &str)
    ensures
        final(target)@ == old(target)@ + json_quoted(s@),
{
    let ghost before = target@;
    let chars = chars_of(s);
    target.push('"');
    assert(target@ =~= before + (seq!['"'] + json_body(s@, 0)));
    let mut i: usize = 0;
    while i < chars.len()
        invariant
            i <= chars.len(),
            chars@ == s@,
            target@ == before + (seq!['"'] + json_body(s@, i as int)),
        decreases chars.len() - i,
    {
        push_json_char(target, chars[i]);
        assert(target@ =~= before + (seq!['"'] + json_body(s@, i + 1)));
        i = i + 1;
    }
    target.push('"');
    assert(target@ =~= before + json_quoted(s@));
}

/// Returns a text as a JSON string.
pub fn json_string(s: &str) -> (r: String)
    ensures
        r@ == json_quoted(s@),
{
    let mut r = String::new();
    push_json_string(&mut r, s);
    assert(r@ =~= json_quoted(s@));
    r
}

} // verus!
