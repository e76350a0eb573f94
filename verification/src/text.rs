//! Character sequences: construction, ASCII case folding, ordering and decimal numbers.

use vstd::prelude::*;
use vstd::utf8::encode_utf8;

verus! {

/// `String::push` appends one character to the end of the string.
pub assume_specification[ std::string::String::push ](target: &mut std::string::String, ch: char)
    ensures
        final(target)@ == old(target)@.push(ch),
;

/// Number of bytes that the UTF-8 encoding of `s` takes.
pub open spec fn utf8_len(s: Seq<char>) -> nat {
    encode_utf8(s).len()
}

/// Returns the length of `s` in bytes.
pub fn byte_len(s: &str) -> (n: usize)
    ensures
        n == utf8_len(s@),
{
    s.as_bytes().len()
}

/// Collects the characters of `s`.
pub fn chars_of(s: &str) -> (chars: Vec<char>)
    ensures
        chars@ == s@,
{
    let mut chars: Vec<char> = Vec::new();
    for c in it: s.chars()
        invariant
            chars@ == s@.take(it.index() as int),
            it.seq() == s@,
    {
        chars.push(c);
        assert(s@.take(it.index() as int).push(c) =~= s@.take(it.index() + 1));
    }
    assert(s@.take(s@.len() as int) =~= s@);
    chars
}

/// Builds a string from the characters in `chars[from..to]`.
pub fn string_from(chars: &Vec<char>, from: usize, to: usize) -> (s: String)
    requires
        from <= to <= chars.len(),
    ensures
        s@ == chars@.subrange(from as int, to as int),
{
    let mut s = String::new();
    let mut i: usize = from;
    while i < to
        invariant
            from <= i <= to <= chars.len(),
            s@ == chars@.subrange(from as int, i as int),
        decreases to - i,
    {
        s.push(chars[i]);
        assert(chars@.subrange(from as int, i as int).push(chars[i as int])
            =~= chars@.subrange(from as int, i + 1));
        i += 1;
    }
    s
}

/// Concatenates two pieces of text.
pub fn concat2(a: &str, b: &str) -> (s: String)
    ensures
        s@ == a@ + b@,
{
    let mut s = a.to_owned();
    s.append(b);
    s
}

/// Concatenates three pieces of text.
pub fn concat3(a: &str, b: &str, c: &str) -> (s: String)
    ensures
        s@ == a@ + b@ + c@,
{
    let mut s = concat2(a, b);
    s.append(c);
    s
}

/// Concatenates four pieces of text.
pub fn concat4(a: &str, b: &str, c: &str, d: &str) -> (s: String)
    ensures
        s@ == a@ + b@ + c@ + d@,
{
    let mut s = concat3(a, b, c);
    s.append(d);
    s
}

/// Concatenates five pieces of text.
pub fn concat5(a: &str, b: &str, c: &str, d: &str, e: &str) -> (s: String)
    ensures
        s@ == a@ + b@ + c@ + d@ + e@,
{
    let mut s = concat4(a, b, c, d);
    s.append(e);
    s
}

/// Decides whether two pieces of text hold the same characters.
pub fn same_text(a: &str, b: &str) -> (same: bool)
    ensures
        same == (a@ == b@),
{
    let left = chars_of(a);
    let right = chars_of(b);
    if left.len() != right.len() {
        return false;
    }
    let mut i: usize = 0;
    while i < left.len()
        invariant
            left@ == a@,
            right@ == b@,
            left.len() == right.len(),
            i <= left.len(),
            forall|j: int| 0 <= j < i ==> left[j] == right[j],
        decreases left.len() - i,
    {
        if left[i] != right[i] {
            return false;
        }
        i += 1;
    }
    assert(a@ =~= b@);
    true
}

/// The ASCII lower-case form of one character; other characters stay as they are.
pub open spec fn lower_char(c: char) -> char {
    if 'A' <= c && c <= 'Z' {
        ((c as u8) + 32) as char
    } else {
        c
    }
}

/// The text with every ASCII capital letter replaced by its small letter.
pub open spec fn lower(s: Seq<char>) -> Seq<char> {
    Seq::new(s.len(), |i: int| lower_char(s[i]))
}

/// Folds one character to ASCII lower case.
pub fn fold_char(c: char) -> (r: char)
    ensures
        r == lower_char(c),
{
    if 'A' <= c && c <= 'Z' {
        ((c as u8) + 32) as char
    } else {
        c
    }
}

/// Folds text to ASCII lower case.
pub fn to_lower(s: &str) -> (r: String)
    ensures
        r@ == lower(s@),
{
    let chars = chars_of(s);
    let mut r = String::new();
    let mut i: usize = 0;
    while i < chars.len()
        invariant
            chars@ == s@,
            i <= chars.len(),
            r@ == lower(s@).take(i as int),
        decreases chars.len() - i,
    {
        r.push(fold_char(chars[i]));
        assert(lower(s@).take(i as int).push(lower_char(s@[i as int])) =~= lower(s@).take(i + 1));
        i += 1;
    }
    assert(lower(s@).take(i as int) =~= lower(s@));
    r
}

/// Decides whether two pieces of text are equal up to ASCII case.
pub fn same_ignoring_case(a: &str, b: &str) -> (same: bool)
    ensures
        same == (lower(a@) == lower(b@)),
{
    let left = to_lower(a);
    let right = to_lower(b);
    same_text(left.as_str(), right.as_str())
}

/// The outcome of comparing two values.
#[derive(Clone, Copy, Debug, PartialEq, Eq, Structural)]
pub enum Order {
    Less,
    Equal,
    Greater,
}

impl Order {
    /// The outcome with the two sides exchanged.
    pub open spec fn flipped(self) -> Order {
        match self {
            Order::Less => Order::Greater,
            Order::Equal => Order::Equal,
            Order::Greater => Order::Less,
        }
    }

    /// Exchanges the two sides of the comparison.
    pub fn reverse(self) -> (r: Order)
        ensures
            r == self.flipped(),
    {
        match self {
            Order::Less => Order::Greater,
            Order::Equal => Order::Equal,
            Order::Greater => Order::Less,
        }
    }
}

/// How two integers compare.
pub open spec fn int_order(a: int, b: int) -> Order {
    if a < b {
        Order::Less
    } else if a == b {
        Order::Equal
    } else {
        Order::Greater
    }
}

/// Lexicographic order by Unicode scalar value from position `i` on.
pub open spec fn text_order_from(a: Seq<char>, b: Seq<char>, i: int) -> Order
    decreases a.len() - i,
{
    if i >= a.len() || i >= b.len() {
        int_order(a.len() as int, b.len() as int)
    } else if a[i] != b[i] {
        int_order(a[i] as int, b[i] as int)
    } else {
        text_order_from(a, b, i + 1)
    }
}

/// Lexicographic order of text by Unicode scalar value.
pub open spec fn text_order(a: Seq<char>, b: Seq<char>) -> Order {
    text_order_from(a, b, 0)
}

/// Compares two signed integers.
pub fn order_i64(a: i64, b: i64) -> (r: Order)
    ensures
        r == int_order(a as int, b as int),
{
    if a < b {
        Order::Less
    } else if a == b {
        Order::Equal
    } else {
        Order::Greater
    }
}

/// Compares two booleans, `false` first.
pub fn order_bool(a: bool, b: bool) -> (r: Order)
    ensures
        r == bool_order(a, b),
{
    if a == b {
        Order::Equal
    } else if b {
        Order::Less
    } else {
        Order::Greater
    }
}

/// How two booleans compare, `false` first.
pub open spec fn bool_order(a: bool, b: bool) -> Order {
    if a == b {
        Order::Equal
    } else if b {
        Order::Less
    } else {
        Order::Greater
    }
}

/// Compares text lexicographically by Unicode scalar value.
pub fn order_text(a: &str, b: &str) -> (r: Order)
    ensures
        r == text_order(a@, b@),
{
    let left = chars_of(a);
    let right = chars_of(b);
    let mut i: usize = 0;
    while i < left.len() && i < right.len()
        invariant
            left@ == a@,
            right@ == b@,
            i <= left.len(),
            i <= right.len(),
            text_order(a@, b@) == text_order_from(a@, b@, i as int),
        decreases left.len() - i,
    {
        if left[i] != right[i] {
            return if left[i] < right[i] {
                Order::Less
            } else {
                Order::Greater
            };
        }
        i += 1;
    }
    if left.len() < right.len() {
        Order::Less
    } else if left.len() == right.len() {
        Order::Equal
    } else {
        Order::Greater
    }
}

/// Text compares equal exactly when it is the same text.
pub proof fn text_order_equal(a: Seq<char>, b: Seq<char>, i: int)
    requires
        0 <= i <= a.len(),
        i <= b.len(),
        forall|j: int| 0 <= j < i ==> a[j] == b[j],
    ensures
        text_order_from(a, b, i) == Order::Equal <==> a == b,
    decreases a.len() - i,
{
    if i >= a.len() || i >= b.len() {
        if a.len() == b.len() {
            assert(a =~= b);
        }
    } else if a[i] == b[i] {
        text_order_equal(a, b, i + 1);
    }
}

/// Exchanging the sides flips the comparison of text.
pub proof fn text_order_flip(a: Seq<char>, b: Seq<char>, i: int)
    ensures
        text_order_from(b, a, i) == text_order_from(a, b, i).flipped(),
    decreases a.len() - i,
{
    if i >= a.len() || i >= b.len() {
    } else if a[i] == b[i] {
        text_order_flip(a, b, i + 1);
    }
}

/// The decimal digit character of a number below ten.
pub open spec fn digit_char(n: nat) -> char {
    (n + 48) as char
}

/// The decimal digits of a natural number, without leading zeros.
pub open spec fn digits(n: nat) -> Seq<char>
    decreases n,
{
    if n < 10 {
        seq![digit_char(n)]
    } else {
        digits(n / 10).push(digit_char(n % 10))
    }
}

/// The decimal form of an integer.
pub open spec fn int_text(i: int) -> Seq<char> {
    if i < 0 {
        seq!['-'] + digits((-i) as nat)
    } else {
        digits(i as nat)
    }
}

/// Writes a natural number in decimal.
pub fn u128_text(n: u128) -> (s: String)
    ensures
        s@ == digits(n as nat),
    decreases n,
{
    if n < 10 {
        let mut s = String::new();
        s.push(((n as u8) + 48) as char);
        assert(s@ =~= digits(n as nat));
        s
    } else {
        let mut s = u128_text(n / 10);
        s.push((((n % 10) as u8) + 48) as char);
        s
    }
}

/// Writes a machine-sized natural number in decimal.
pub fn usize_text(n: usize) -> (s: String)
    ensures
        s@ == digits(n as nat),
{
    u128_text(n as u128)
}

/// Writes a 64-bit natural number in decimal.
pub fn u64_text(n: u64) -> (s: String)
    ensures
        s@ == digits(n as nat),
{
    u128_text(n as u128)
}

/// Writes a signed integer in decimal.
pub fn i128_text(n: i128) -> (s: String)
    requires
        n > i128::MIN,
    ensures
        s@ == int_text(n as int),
{
    if n < 0 {
        let magnitude = u128_text((-n) as u128);
        let mut s = String::new();
        s.push('-');
        s.append(magnitude.as_str());
        assert(s@ =~= int_text(n as int));
        s
    } else {
        u128_text(n as u128)
    }
}

/// Writes a signed 64-bit integer in decimal.
pub fn i64_text(n: i64) -> (s: String)
    ensures
        s@ == int_text(n as int),
{
    i128_text(n as i128)
}

/// Whether a character is an ASCII decimal digit.
pub open spec fn is_digit(c: char) -> bool {
    '0' <= c && c <= '9'
}

/// Whether every character is an ASCII decimal digit.
pub open spec fn all_digits(s: Seq<char>) -> bool {
    forall|i: int| 0 <= i < s.len() ==> is_digit(#[trigger] s[i])
}

/// The number that a sequence of decimal digits denotes.
pub open spec fn digits_value(s: Seq<char>) -> nat
    decreases s.len(),
{
    if s.len() == 0 {
        0
    } else {
        digits_value(s.drop_last()) * 10 + (s.last() as int - 48) as nat
    }
}

/// The integer that `s` denotes: digits behind an optional sign.
pub open spec fn signed_value(s: Seq<char>) -> Option<int> {
    if s.len() > 0 && (s[0] == '-' || s[0] == '+') {
        let rest = s.skip(1);
        if rest.len() > 0 && all_digits(rest) {
            Some(if s[0] == '-' { -digits_value(rest) } else { digits_value(rest) as int })
        } else {
            None
        }
    } else if s.len() > 0 && all_digits(s) {
        Some(digits_value(s) as int)
    } else {
        None
    }
}

/// The value of `s` read as a signed 64-bit integer.
pub open spec fn i64_value(s: Seq<char>) -> Option<i64> {
    match signed_value(s) {
        Some(n) if i64::MIN <= n <= i64::MAX => Some(n as i64),
        _ => None,
    }
}

/// The value of `s` read as an unsigned machine integer; a minus sign is refused.
pub open spec fn usize_value(s: Seq<char>) -> Option<usize> {
    if s.len() > 0 && s[0] == '-' {
        None
    } else {
        match signed_value(s) {
            Some(n) if n <= usize::MAX => Some(n as usize),
            _ => None,
        }
    }
}

/// A prefix of digits never denotes a larger number than the whole.
pub proof fn digits_value_grows(s: Seq<char>, i: int)
    requires
        all_digits(s),
        0 <= i <= s.len(),
    ensures
        digits_value(s.take(i)) <= digits_value(s),
    decreases s.len() - i,
{
    if i < s.len() {
        let next = s.take(i + 1);
        assert(next.drop_last() =~= s.take(i));
        assert(is_digit(s[i]));
        digits_value_grows(s, i + 1);
    } else {
        assert(s.take(i) =~= s);
    }
}

/// Reads the digits `chars[from..]` as a number, if there are any and they fit.
fn digits_from(chars: &Vec<char>, from: usize, max: u128) -> (r: Option<u128>)
    requires
        from <= chars.len(),
        max < 0x1_0000_0000_0000_0000_0000,
    ensures
        r matches Some(n) ==> {
            &&& chars@.skip(from as int).len() > 0
            &&& all_digits(chars@.skip(from as int))
            &&& n == digits_value(chars@.skip(from as int))
            &&& n <= max
        },
        r is None ==> chars@.skip(from as int).len() == 0 || !all_digits(
            chars@.skip(from as int),
        ) || digits_value(chars@.skip(from as int)) > max,
{
    let ghost body = chars@.skip(from as int);
    if from == chars.len() {
        return None;
    }
    let mut n: u128 = 0;
    let mut i: usize = from;
    while i < chars.len()
        invariant
            body == chars@.skip(from as int),
            from <= i <= chars.len(),
            max < 0x1_0000_0000_0000_0000_0000,
            n <= max,
            n == digits_value(body.take(i - from)),
            forall|j: int| 0 <= j < i - from ==> is_digit(#[trigger] body[j]),
        decreases chars.len() - i,
    {
        let c = chars[i];
        assert(c == body[i - from]);
        if !('0' <= c && c <= '9') {
            assert(!is_digit(body[i - from]));
            return None;
        }
        proof {
            assert(body.take(i - from + 1).drop_last() =~= body.take(i - from));
        }
        n = n * 10 + ((c as u8) - 48) as u128;
        assert(n == digits_value(body.take(i - from + 1)));
        if n > max {
            proof {
                if all_digits(body) {
                    digits_value_grows(body, i - from + 1);
                }
            }
            return None;
        }
        i += 1;
    }
    assert(body.take(i - from) =~= body);
    Some(n)
}

/// Whether `s` consists of decimal digits and denotes at most `max`.
pub open spec fn is_within(s: Seq<char>, max: int) -> bool {
    s.len() > 0 && all_digits(s) && digits_value(s) <= max
}

/// Decides whether a text consists of decimal digits and denotes at most `max`.
pub fn digits_within(s: &str, max: u64) -> (r: bool)
    ensures
        r == is_within(s@, max as int),
{
    let chars = chars_of(s);
    assert(chars@.skip(0) =~= chars@);
    digits_from(&chars, 0, max as u128).is_some()
}

/// Reads a signed 64-bit decimal integer with an optional sign.
pub fn parse_i64(s: &str) -> (r: Option<i64>)
    ensures
        r == i64_value(s@),
{
    let chars = chars_of(s);
    if chars.len() > 0 && chars[0] == '-' {
        match digits_from(&chars, 1, 0x8000_0000_0000_0000) {
            Some(n) => Some((-(n as i128)) as i64),
            None => None,
        }
    } else if chars.len() > 0 && chars[0] == '+' {
        match digits_from(&chars, 1, 0x7fff_ffff_ffff_ffff) {
            Some(n) => Some(n as i64),
            None => None,
        }
    } else {
        assert(chars@.skip(0) =~= chars@);
        match digits_from(&chars, 0, 0x7fff_ffff_ffff_ffff) {
            Some(n) => Some(n as i64),
            None => None,
        }
    }
}

/// Reads an unsigned decimal machine integer with an optional plus sign.
pub fn parse_usize(s: &str) -> (r: Option<usize>)
    ensures
        r == usize_value(s@),
{
    let chars = chars_of(s);
    if chars.len() > 0 && chars[0] == '-' {
        None
    } else if chars.len() > 0 && chars[0] == '+' {
        match digits_from(&chars, 1, usize::MAX as u128) {
            Some(n) => Some(n as usize),
            None => None,
        }
    } else {
        assert(chars@.skip(0) =~= chars@);
        match digits_from(&chars, 0, usize::MAX as u128) {
            Some(n) => Some(n as usize),
            None => None,
        }
    }
}

/// Decimal digits denote the number that they were written from.
pub proof fn digits_round_trip(n: nat)
    ensures
        digits(n).len() > 0,
        all_digits(digits(n)),
        digits_value(digits(n)) == n,
    decreases n,
{
    if n < 10 {
        let s = digits(n);
        assert(s.drop_last() =~= Seq::<char>::empty());
        assert(digits_value(s.drop_last()) == 0);
    } else {
        digits_round_trip(n / 10);
        let s = digits(n);
        assert(s.drop_last() =~= digits(n / 10));
        assert forall|i: int| 0 <= i < s.len() implies is_digit(#[trigger] s[i]) by {
            if i < s.len() - 1 {
                assert(s[i] == digits(n / 10)[i]);
            }
        }
    }
}

/// Reading the decimal form of a signed 64-bit integer gives that integer back.
pub proof fn decimal_round_trip(n: i64)
    ensures
        i64_value(int_text(n as int)) == Some(n),
{
    if n < 0 {
        digits_round_trip((-n) as nat);
        assert(int_text(n as int).skip(1) =~= digits((-n) as nat));
    } else {
        digits_round_trip(n as nat);
        assert(is_digit(digits(n as nat)[0]));
    }
}

/// Decides whether `needle` occurs in `s`.
pub fn contains_char(s: &str, needle: char) -> (r: bool)
    ensures
        r == s@.contains(needle),
{
    let chars = chars_of(s);
    let mut i: usize = 0;
    while i < chars.len()
        invariant
            chars@ == s@,
            i <= chars.len(),
            forall|j: int| 0 <= j < i ==> chars[j] != needle,
        decreases chars.len() - i,
    {
        if chars[i] == needle {
            assert(s@[i as int] == needle);
            return true;
        }
        i += 1;
    }
    false
}

/// Whether `char::is_whitespace` holds of a character outside ASCII.
pub uninterp spec fn white_space_beyond_ascii(c: char) -> bool;

/// Whether a character is white space.
pub open spec fn is_space(c: char) -> bool {
    if (c as u32) < 128 {
        c == ' ' || 9 <= c as u32 <= 13
    } else {
        white_space_beyond_ascii(c)
    }
}

/// Calls `char::is_whitespace`, which holds of the space, the tab, the line feed, the
/// vertical tab, the form feed and the carriage return, of no other ASCII character, and
/// beyond ASCII of the characters that have Unicode's `White_Space` property.
#[verifier::external_body]
pub(crate) fn char_is_space(c: char) -> (r: bool)
    ensures
        r == is_space(c),
        (c as u32) >= 128 ==> r == white_space_beyond_ascii(c),
{
    c.is_whitespace()
}

/// The number of leading characters from `i` on that are white space, plus `i`.
pub open spec fn space_end(s: Seq<char>, i: int) -> int
    decreases s.len() - i,
{
    if 0 <= i < s.len() && is_space(s[i]) {
        space_end(s, i + 1)
    } else {
        i
    }
}

/// The position behind the last character below `n` that is not white space.
pub open spec fn space_start(s: Seq<char>, n: int) -> int
    decreases n,
{
    if 0 < n <= s.len() && is_space(s[n - 1]) {
        space_start(s, n - 1)
    } else {
        n
    }
}

/// The text without white space at its ends.
pub open spec fn trimmed(s: Seq<char>) -> Seq<char> {
    let from = space_end(s, 0);
    if from >= s.len() {
        Seq::empty()
    } else {
        s.subrange(from, space_start(s, s.len() as int))
    }
}

proof fn space_ends(s: Seq<char>, i: int, n: int)
    requires
        0 <= i < n <= s.len(),
        !is_space(s[i]),
    ensures
        i < space_start(s, n) <= n,
    decreases n,
{
    if is_space(s[n - 1]) {
        space_ends(s, i, n - 1);
    }
}

/// Removes white space at the ends.
pub fn trim(s: &str) -> (r: String)
    ensures
        r@ == trimmed(s@),
{
    let chars = chars_of(s);
    let mut from: usize = 0;
    while from < chars.len() && char_is_space(chars[from])
        invariant
            from <= chars.len(),
            chars@ == s@,
            space_end(s@, 0) == space_end(s@, from as int),
        decreases chars.len() - from,
    {
        from = from + 1;
    }
    if from == chars.len() {
        return String::new();
    }
    proof {
        space_ends(s@, from as int, chars.len() as int);
    }
    let mut to: usize = chars.len();
    while to > 0 && char_is_space(chars[to - 1])
        invariant
            to <= chars.len(),
            chars@ == s@,
            space_start(s@, chars.len() as int) == space_start(s@, to as int),
        decreases to,
    {
        to = to - 1;
    }
    string_from(&chars, from, to)
}

/// Removes white space at the start.
pub fn trim_start(s: &str) -> (r: String)
    ensures
        r@ == s@.skip(space_end(s@, 0)),
{
    let chars = chars_of(s);
    let mut from: usize = 0;
    while from < chars.len() && char_is_space(chars[from])
        invariant
            from <= chars.len(),
            chars@ == s@,
            space_end(s@, 0) == space_end(s@, from as int),
        decreases chars.len() - from,
    {
        from = from + 1;
    }
    let r = string_from(&chars, from, chars.len());
    assert(r@ =~= s@.skip(from as int));
    r
}

/// Removes white space at the end.
pub fn trim_end(s: &str) -> (r: String)
    ensures
        r@ == s@.take(space_start(s@, s@.len() as int)),
{
    let chars = chars_of(s);
    let mut to: usize = chars.len();
    while to > 0 && char_is_space(chars[to - 1])
        invariant
            to <= chars.len(),
            chars@ == s@,
            space_start(s@, chars.len() as int) == space_start(s@, to as int),
        decreases to,
    {
        to = to - 1;
    }
    let r = string_from(&chars, 0, to);
    assert(r@ =~= s@.take(to as int));
    r
}

/// Whether `char::is_alphabetic` holds of a character outside ASCII.
pub uninterp spec fn alphabetic_beyond_ascii(c: char) -> bool;

/// Whether a character is alphabetic.
pub open spec fn is_letter(c: char) -> bool {
    if (c as u32) < 128 {
        'a' <= c <= 'z' || 'A' <= c <= 'Z'
    } else {
        alphabetic_beyond_ascii(c)
    }
}

/// Calls `char::is_alphabetic`, which holds of the ASCII letters, of no other ASCII character,
/// and beyond ASCII of the characters that have Unicode's `Alphabetic` property.
#[verifier::external_body]
pub(crate) fn char_is_letter(c: char) -> (r: bool)
    ensures
        r == is_letter(c),
        (c as u32) >= 128 ==> r == alphabetic_beyond_ascii(c),
{
    c.is_alphabetic()
}

/// Whether `char::is_numeric` holds of a character outside ASCII.
pub uninterp spec fn numeric_beyond_ascii(c: char) -> bool;

/// Whether a character is numeric.
pub open spec fn is_numeric(c: char) -> bool {
    if (c as u32) < 128 {
        is_digit(c)
    } else {
        numeric_beyond_ascii(c)
    }
}

/// Calls `char::is_numeric`, which holds of the ASCII digits, of no other ASCII character, and
/// beyond ASCII of the characters of Unicode's general categories for numbers.
#[verifier::external_body]
pub(crate) fn char_is_numeric(c: char) -> (r: bool)
    ensures
        r == is_numeric(c),
        (c as u32) >= 128 ==> r == numeric_beyond_ascii(c),
{
    c.is_numeric()
}

/// Calls `char::from_u32`, which gives the character of a Unicode scalar value, and nothing
/// for any other number.
#[verifier::external_body]
pub(crate) fn char_from(code: u32) -> (r: Option<char>)
    ensures
        r is Some == (code <= 0xd7ff || 0xe000 <= code <= 0x10ffff),
        r matches Some(c) ==> c as u32 == code,
{
    char::from_u32(code)
}

/// The text that the `Debug` format of `str` gives.
pub uninterp spec fn debug_text(s: Seq<char>) -> Seq<char>;

/// Formats a text with `Debug` for `str`, which quotes it and escapes its special
/// characters; what it escapes and how is not stated, only that the text alone decides.
#[verifier::external_body]
pub(crate) fn quote_text(s: &str) -> (r: String)
    ensures
        r@ == debug_text(s@),
{
    format!("{:?}", s)
}

/// The text that the `Debug` format of `char` gives.
pub uninterp spec fn debug_char(c: char) -> Seq<char>;

/// Formats a character with `Debug` for `char`, which quotes it and escapes special
/// characters; what it escapes and how is not stated, only that the character alone decides.
#[verifier::external_body]
pub(crate) fn quote_char(c: char) -> (r: String)
    ensures
        r@ == debug_char(c),
{
    format!("{:?}", c)
}

/// Texts with a separator between them, from position `i` on.
pub open spec fn joined_from(list: Seq<Seq<char>>, separator: Seq<char>, i: int) -> Seq<char>
    decreases list.len() - i,
{
    if !(0 <= i < list.len()) {
        Seq::empty()
    } else if i + 1 == list.len() {
        list[i]
    } else {
        list[i] + separator + joined_from(list, separator, i + 1)
    }
}

} // verus!
