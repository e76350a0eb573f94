//! A bounded lexer for SQL.
//!
//! Tokens own their values. Their spans are half-open byte ranges of the input.

use vstd::prelude::*;
use std::ops::Range;
use crate::bytes::{utf8, utf8_concat};
use crate::text::{byte_len, char_is_letter, char_is_numeric, char_is_space, chars_of, concat2, concat3, concat4, debug_char, int_text, is_digit, is_letter, is_numeric, is_space, lower, quote_char, string_from, to_lower, same_text, usize_text, utf8_len};

verus! {

/// A half-open byte range of the input.
#[derive(Clone, Copy, Debug, Eq, Hash, PartialEq)]
pub struct Span {
    pub start: usize,
    pub end: usize,
}

impl Span {
    /// Makes a span.
    pub fn new(start: usize, end: usize) -> (s: Span)
        ensures
            s == (Span { start, end }),
    {
        Span { start, end }
    }

    /// The number of bytes.
    pub fn len(self) -> (n: usize)
        requires
            self.start <= self.end,
        ensures
            n == self.end - self.start,
    {
        self.end - self.start
    }

    /// Whether the span has no bytes.
    pub fn is_empty(self) -> (r: bool)
        ensures
            r == (self.start == self.end),
    {
        self.start == self.end
    }

    /// The span as a range.
    pub fn as_range(self) -> (r: Range<usize>)
        ensures
            r.start == self.start,
            r.end == self.end,
    {
        self.start..self.end
    }
}

/// Resource limits of lexing.
#[derive(Clone, Copy, Debug, Eq, PartialEq)]
pub struct LexerLimits {
    /// Maximum input size in bytes.
    pub max_input_bytes: usize,
    /// Maximum number of tokens.
    pub max_tokens: usize,
    /// Maximum size of a decoded string or of a number in bytes.
    pub max_literal_bytes: usize,
}

impl LexerLimits {
    /// Makes limits.
    pub fn new(max_input_bytes: usize, max_tokens: usize, max_literal_bytes: usize) -> (limits:
        LexerLimits)
        ensures
            limits == (LexerLimits { max_input_bytes, max_tokens, max_literal_bytes }),
    {
        LexerLimits { max_input_bytes, max_tokens, max_literal_bytes }
    }
}

impl Default for LexerLimits {
    fn default() -> (limits: LexerLimits)
        ensures
            limits == (LexerLimits {
                max_input_bytes: 1_048_576,
                max_tokens: 100_000,
                max_literal_bytes: 1_048_576,
            }),
    {
        LexerLimits::new(1_048_576, 100_000, 1_048_576)
    }
}

/// A token and its span in the input.
#[derive(Clone, Debug, Eq, PartialEq)]
pub struct Token {
    pub kind: TokenKind,
    pub span: Span,
}

/// Categories of tokens.
#[derive(Clone, Debug, Eq, PartialEq)]
pub enum TokenKind {
    /// An unquoted or decoded double-quoted identifier.
    Identifier(String),
    Literal(Literal),
    Operator(Operator),
    Delimiter(Delimiter),
}

/// Literals.
#[derive(Clone, Debug, Eq, PartialEq)]
pub enum Literal {
    /// The spelling of an integer, decimal or exponent-form number.
    Number(String),
    /// A decoded single-quoted string. Two adjacent quotes decode to one quote.
    String(String),
    Boolean(bool),
    Null,
}

/// Symbolic operators.
#[derive(Clone, Copy, Debug, Eq, PartialEq, Structural)]
pub enum Operator {
    Equal,
    NotEqual,
    Less,
    LessOrEqual,
    Greater,
    GreaterOrEqual,
    Plus,
    Minus,
    Multiply,
    Divide,
    Modulo,
    Concat,
    Cast,
}

/// Punctuation.
#[derive(Clone, Copy, Debug, Eq, PartialEq, Structural)]
pub enum Delimiter {
    LeftParenthesis,
    RightParenthesis,
    LeftBracket,
    RightBracket,
    Comma,
    Dot,
    Semicolon,
}

/// The mathematical content of a token's category.
pub enum Lexeme {
    Identifier(Seq<char>),
    Number(Seq<char>),
    Text(Seq<char>),
    Boolean(bool),
    Null,
    Operator(Operator),
    Delimiter(Delimiter),
}

/// The mathematical content of a token.
pub struct Marked {
    pub lexeme: Lexeme,
    pub start: int,
    pub end: int,
}

impl View for TokenKind {
    type V = Lexeme;

    open spec fn view(&self) -> Lexeme {
        match *self {
            TokenKind::Identifier(s) => Lexeme::Identifier(s@),
            TokenKind::Literal(Literal::Number(s)) => Lexeme::Number(s@),
            TokenKind::Literal(Literal::String(s)) => Lexeme::Text(s@),
            TokenKind::Literal(Literal::Boolean(b)) => Lexeme::Boolean(b),
            TokenKind::Literal(Literal::Null) => Lexeme::Null,
            TokenKind::Operator(operator) => Lexeme::Operator(operator),
            TokenKind::Delimiter(delimiter) => Lexeme::Delimiter(delimiter),
        }
    }
}

impl View for Token {
    type V = Marked;

    open spec fn view(&self) -> Marked {
        Marked { lexeme: self.kind@, start: self.span.start as int, end: self.span.end as int }
    }
}

/// The contents of tokens.
pub open spec fn marked(tokens: Seq<Token>) -> Seq<Marked> {
    Seq::new(tokens.len(), |i: int| tokens[i]@)
}

/// A failure with the byte position where it was found.
#[derive(Clone, Debug, Eq, PartialEq)]
pub struct LexError {
    pub kind: LexErrorKind,
    pub position: usize,
}

/// Why lexing can fail.
#[derive(Clone, Copy, Debug, Eq, PartialEq)]
pub enum LexErrorKind {
    InputTooLarge { length: usize, limit: usize },
    TokenLimitExceeded { limit: usize },
    LiteralTooLarge { length: usize, limit: usize },
    UnterminatedString,
    UnterminatedQuotedIdentifier,
    UnterminatedBlockComment,
    InvalidNumber,
    UnexpectedCharacter(char),
}

/// The text of a failure without its position.
pub open spec fn reason(kind: LexErrorKind) -> Seq<char> {
    match kind {
        LexErrorKind::InputTooLarge { length, limit } => "input has "@ + int_text(length as int)
            + " bytes, limit is "@ + int_text(limit as int),
        LexErrorKind::TokenLimitExceeded { limit } => "token limit of "@ + int_text(limit as int)
            + " exceeded"@,
        LexErrorKind::LiteralTooLarge { length, limit } => "literal has "@ + int_text(length as int)
            + " bytes, limit is "@ + int_text(limit as int),
        LexErrorKind::UnterminatedString => "unterminated string literal"@,
        LexErrorKind::UnterminatedQuotedIdentifier => "unterminated quoted identifier"@,
        LexErrorKind::UnterminatedBlockComment => "unterminated block comment"@,
        LexErrorKind::InvalidNumber => "invalid numeric literal"@,
        LexErrorKind::UnexpectedCharacter(c) => "unexpected character "@ + debug_char(c),
    }
}

impl LexError {
    /// The text of the failure.
    pub fn message(&self) -> (s: String)
        ensures
            s@ == "SQL lexer error at byte "@ + int_text(self.position as int) + ": "@ + reason(
                self.kind,
            ),
    {
        let text = match self.kind {
            LexErrorKind::InputTooLarge { length, limit } => concat4(
                "input has ",
                usize_text(length).as_str(),
                " bytes, limit is ",
                usize_text(limit).as_str(),
            ),
            LexErrorKind::TokenLimitExceeded { limit } => concat3(
                "token limit of ",
                usize_text(limit).as_str(),
                " exceeded",
            ),
            LexErrorKind::LiteralTooLarge { length, limit } => concat4(
                "literal has ",
                usize_text(length).as_str(),
                " bytes, limit is ",
                usize_text(limit).as_str(),
            ),
            LexErrorKind::UnterminatedString => "unterminated string literal".to_owned(),
            LexErrorKind::UnterminatedQuotedIdentifier =>
                "unterminated quoted identifier".to_owned(),
            LexErrorKind::UnterminatedBlockComment => "unterminated block comment".to_owned(),
            LexErrorKind::InvalidNumber => "invalid numeric literal".to_owned(),
            LexErrorKind::UnexpectedCharacter(c) => concat2(
                "unexpected character ",
                quote_char(c).as_str(),
            ),
        };
        concat4(
            "SQL lexer error at byte ",
            usize_text(self.position).as_str(),
            ": ",
            text.as_str(),
        )
    }
}

/// The byte position of a character.
pub open spec fn offset(s: Seq<char>, i: int) -> int {
    utf8_len(s.take(i)) as int
}

/// Whether a character begins an identifier.
pub open spec fn begins_identifier(c: char) -> bool {
    c == '_' || is_letter(c)
}

/// Whether a character continues an identifier.
pub open spec fn continues_identifier(c: char) -> bool {
    c == '_' || c == '$' || is_letter(c) || is_numeric(c)
}

/// Whether two characters stand at a position.
pub open spec fn pair_at(s: Seq<char>, i: int, a: char, b: char) -> bool {
    0 <= i && i + 1 < s.len() && s[i] == a && s[i + 1] == b
}

/// The position behind the end of a line.
pub open spec fn line_end(s: Seq<char>, i: int) -> int
    decreases s.len() - i,
{
    if !(0 <= i < s.len()) {
        i
    } else if s[i] == '\n' || s[i] == '\r' {
        i + 1
    } else {
        line_end(s, i + 1)
    }
}

/// The position behind nested block comments that are open `depth` times.
pub open spec fn comment_end(s: Seq<char>, i: int, depth: nat) -> Option<int>
    decreases s.len() - i,
{
    if !(0 <= i < s.len()) {
        None
    } else if pair_at(s, i, '/', '*') {
        comment_end(s, i + 2, depth + 1)
    } else if pair_at(s, i, '*', '/') {
        if depth <= 1 {
            Some(i + 2)
        } else {
            comment_end(s, i + 2, (depth - 1) as nat)
        }
    } else {
        comment_end(s, i + 1, depth)
    }
}

/// The position behind white space and comments, or where an unterminated comment begins.
pub open spec fn trivia_end(s: Seq<char>, i: int) -> Result<int, int>
    decreases s.len() - i,
{
    if !(0 <= i < s.len()) {
        Ok(i)
    } else if is_space(s[i]) {
        trivia_end(s, i + 1)
    } else if pair_at(s, i, '-', '-') {
        let j = line_end(s, i + 2);
        if i < j <= s.len() {
            trivia_end(s, j)
        } else {
            Ok(i)
        }
    } else if pair_at(s, i, '/', '*') {
        match comment_end(s, i + 2, 1) {
            None => Err(i),
            Some(j) => if i < j <= s.len() {
                trivia_end(s, j)
            } else {
                Ok(i)
            },
        }
    } else {
        Ok(i)
    }
}

/// The rest of a quoted text behind what is decoded, and the position behind its closing
/// quote.
pub open spec fn quoted_end(s: Seq<char>, i: int, quote: char, decoded: Seq<char>) -> Option<
    (Seq<char>, int),
>
    decreases s.len() - i,
{
    if !(0 <= i < s.len()) {
        None
    } else if s[i] != quote {
        quoted_end(s, i + 1, quote, decoded.push(s[i]))
    } else if pair_at(s, i, quote, quote) {
        quoted_end(s, i + 2, quote, decoded.push(quote))
    } else {
        Some((decoded, i + 1))
    }
}

/// Whether an ASCII digit stands at a position.
pub open spec fn digit_at(s: Seq<char>, i: int) -> bool {
    0 <= i < s.len() && is_digit(s[i])
}

/// Whether a character stands at a position.
pub open spec fn char_at(s: Seq<char>, i: int, c: char) -> bool {
    0 <= i < s.len() && s[i] == c
}

/// The position behind ASCII digits.
pub open spec fn digits_end(s: Seq<char>, i: int) -> int
    decreases s.len() - i,
{
    if digit_at(s, i) {
        digits_end(s, i + 1)
    } else {
        i
    }
}

/// The position behind the digits of a number and its fraction.
pub open spec fn mantissa_end(s: Seq<char>, i: int) -> int {
    if char_at(s, i, '.') {
        digits_end(s, i + 1)
    } else {
        let j = digits_end(s, i);
        if char_at(s, j, '.') {
            digits_end(s, j + 1)
        } else {
            j
        }
    }
}

/// The position behind a number, or where it is wrong.
pub open spec fn number_end(s: Seq<char>, i: int) -> Result<int, int> {
    let j = mantissa_end(s, i);
    let digits = if char_at(s, j + 1, '+') || char_at(s, j + 1, '-') { j + 2 } else { j + 1 };
    let exponent = char_at(s, j, 'e') || char_at(s, j, 'E');
    let end = if exponent { digits_end(s, digits) } else { j };
    if exponent && !digit_at(s, digits) {
        Err(j)
    } else if 0 <= end < s.len() && begins_identifier(s[end]) {
        Err(end)
    } else {
        Ok(end)
    }
}

/// The position behind an identifier.
pub open spec fn identifier_end(s: Seq<char>, i: int) -> int
    decreases s.len() - i,
{
    if 0 <= i < s.len() && continues_identifier(s[i]) {
        identifier_end(s, i + 1)
    } else {
        i
    }
}

/// The symbol at a position, and the position behind it.
pub open spec fn symbol_at(s: Seq<char>, i: int) -> Option<(Lexeme, int)> {
    let c = s[i];
    if pair_at(s, i, '!', '=') || pair_at(s, i, '<', '>') {
        Some((Lexeme::Operator(Operator::NotEqual), i + 2))
    } else if pair_at(s, i, '<', '=') {
        Some((Lexeme::Operator(Operator::LessOrEqual), i + 2))
    } else if pair_at(s, i, '>', '=') {
        Some((Lexeme::Operator(Operator::GreaterOrEqual), i + 2))
    } else if pair_at(s, i, '|', '|') {
        Some((Lexeme::Operator(Operator::Concat), i + 2))
    } else if pair_at(s, i, ':', ':') {
        Some((Lexeme::Operator(Operator::Cast), i + 2))
    } else if c == '=' {
        Some((Lexeme::Operator(Operator::Equal), i + 1))
    } else if c == '<' {
        Some((Lexeme::Operator(Operator::Less), i + 1))
    } else if c == '>' {
        Some((Lexeme::Operator(Operator::Greater), i + 1))
    } else if c == '+' {
        Some((Lexeme::Operator(Operator::Plus), i + 1))
    } else if c == '-' {
        Some((Lexeme::Operator(Operator::Minus), i + 1))
    } else if c == '*' {
        Some((Lexeme::Operator(Operator::Multiply), i + 1))
    } else if c == '/' {
        Some((Lexeme::Operator(Operator::Divide), i + 1))
    } else if c == '%' {
        Some((Lexeme::Operator(Operator::Modulo), i + 1))
    } else if c == '(' {
        Some((Lexeme::Delimiter(Delimiter::LeftParenthesis), i + 1))
    } else if c == ')' {
        Some((Lexeme::Delimiter(Delimiter::RightParenthesis), i + 1))
    } else if c == '[' {
        Some((Lexeme::Delimiter(Delimiter::LeftBracket), i + 1))
    } else if c == ']' {
        Some((Lexeme::Delimiter(Delimiter::RightBracket), i + 1))
    } else if c == ',' {
        Some((Lexeme::Delimiter(Delimiter::Comma), i + 1))
    } else if c == '.' {
        Some((Lexeme::Delimiter(Delimiter::Dot), i + 1))
    } else if c == ';' {
        Some((Lexeme::Delimiter(Delimiter::Semicolon), i + 1))
    } else {
        None
    }
}

/// The failure of a literal that is too large.
pub open spec fn too_large(length: int, limits: LexerLimits, position: int) -> LexError {
    LexError {
        kind: LexErrorKind::LiteralTooLarge {
            length: length as usize,
            limit: limits.max_literal_bytes,
        },
        position: position as usize,
    }
}

/// The token at a position, and the position behind it.
pub open spec fn token_at(s: Seq<char>, i: int, limits: LexerLimits) -> Result<
    (Lexeme, int),
    LexError,
> {
    let c = s[i];
    let start = offset(s, i);
    if c == '\'' {
        match quoted_end(s, i + 1, '\'', Seq::empty()) {
            None => Err(
                LexError { kind: LexErrorKind::UnterminatedString, position: start as usize },
            ),
            Some((text, end)) => if utf8_len(text) > limits.max_literal_bytes {
                Err(too_large(utf8_len(text) as int, limits, start))
            } else {
                Ok((Lexeme::Text(text), end))
            },
        }
    } else if c == '"' {
        match quoted_end(s, i + 1, '"', Seq::empty()) {
            None => Err(
                LexError {
                    kind: LexErrorKind::UnterminatedQuotedIdentifier,
                    position: start as usize,
                },
            ),
            Some((text, end)) => Ok((Lexeme::Identifier(text), end)),
        }
    } else if is_digit(c) || (c == '.' && digit_at(s, i + 1)) {
        match number_end(s, i) {
            Err(at) => Err(
                LexError {
                    kind: LexErrorKind::InvalidNumber,
                    position: offset(s, at) as usize,
                },
            ),
            Ok(end) => if offset(s, end) - start > limits.max_literal_bytes {
                Err(too_large(offset(s, end) - start, limits, start))
            } else {
                Ok((Lexeme::Number(s.subrange(i, end)), end))
            },
        }
    } else if begins_identifier(c) {
        let end = identifier_end(s, i + 1);
        let word = lower(s.subrange(i, end));
        let length = offset(s, end) - start;
        if word == "true"@ || word == "false"@ || word == "null"@ {
            if length > limits.max_literal_bytes {
                Err(too_large(length, limits, start))
            } else if word == "true"@ {
                Ok((Lexeme::Boolean(true), end))
            } else if word == "false"@ {
                Ok((Lexeme::Boolean(false), end))
            } else {
                Ok((Lexeme::Null, end))
            }
        } else {
            Ok((Lexeme::Identifier(s.subrange(i, end)), end))
        }
    } else {
        match symbol_at(s, i) {
            Some(found) => Ok(found),
            None => Err(
                LexError {
                    kind: LexErrorKind::UnexpectedCharacter(c),
                    position: start as usize,
                },
            ),
        }
    }
}

/// The tokens from a position on, behind `done`.
pub open spec fn tokens_from(s: Seq<char>, i: int, limits: LexerLimits, done: Seq<Marked>) -> Result<
    Seq<Marked>,
    LexError,
>
    decreases s.len() - i,
{
    match trivia_end(s, i) {
        Err(at) => Err(
            LexError {
                kind: LexErrorKind::UnterminatedBlockComment,
                position: offset(s, at) as usize,
            },
        ),
        Ok(j) => if !(0 <= j < s.len()) {
            Ok(done)
        } else {
            match token_at(s, j, limits) {
                Err(e) => Err(e),
                Ok((lexeme, end)) => if done.len() >= limits.max_tokens {
                    Err(
                        LexError {
                            kind: LexErrorKind::TokenLimitExceeded { limit: limits.max_tokens },
                            position: offset(s, j) as usize,
                        },
                    )
                } else if !(i <= j < end <= s.len()) {
                    Ok(done)
                } else {
                    tokens_from(
                        s,
                        end,
                        limits,
                        done.push(
                            Marked { lexeme, start: offset(s, j), end: offset(s, end) },
                        ),
                    )
                },
            }
        },
    }
}

/// The tokens of an input.
pub open spec fn tokens_of(s: Seq<char>, limits: LexerLimits) -> Result<Seq<Marked>, LexError> {
    if utf8_len(s) > limits.max_input_bytes {
        Err(
            LexError {
                kind: LexErrorKind::InputTooLarge {
                    length: utf8_len(s) as usize,
                    limit: limits.max_input_bytes,
                },
                position: limits.max_input_bytes,
            },
        )
    } else {
        tokens_from(s, 0, limits, Seq::empty())
    }
}

/// The bytes of one character.
pub proof fn one_char_bytes(c: char)
    ensures
        utf8_len(seq![c]) == (if (c as u32) < 0x80 {
            1nat
        } else if (c as u32) < 0x800 {
            2nat
        } else if (c as u32) < 0x10000 {
            3nat
        } else {
            4nat
        }),
{
    let s = seq![c];
    assert(s.drop_first() =~= Seq::<char>::empty());
    assert(s[0] == c);
    reveal_with_fuel(vstd::utf8::encode_utf8, 2);
    vstd::utf8::char_is_scalar(c);
}

proof fn offset_step(s: Seq<char>, i: int)
    requires
        0 <= i < s.len(),
    ensures
        offset(s, i + 1) == offset(s, i) + utf8_len(seq![s[i]]),
        offset(s, i) < offset(s, i + 1),
{
    assert(s.take(i + 1) =~= s.take(i) + seq![s[i]]);
    utf8_concat(s.take(i), seq![s[i]]);
    one_char_bytes(s[i]);
}

/// Byte positions grow with the position of characters.
pub proof fn offsets_grow(s: Seq<char>, i: int, j: int)
    requires
        0 <= i <= j <= s.len(),
    ensures
        offset(s, i) <= offset(s, j),
        i < j ==> offset(s, i) < offset(s, j),
        offset(s, j) <= utf8_len(s),
    decreases j - i,
{
    if i < j {
        offset_step(s, j - 1);
        offsets_grow(s, i, j - 1);
    }
    if j < s.len() {
        assert(s =~= s.take(j) + s.skip(j));
        utf8_concat(s.take(j), s.skip(j));
    } else {
        assert(s.take(j) =~= s);
    }
}

/// The bytes of a part of a text lie between its byte positions.
proof fn part_bytes(s: Seq<char>, i: int, j: int)
    requires
        0 <= i <= j <= s.len(),
    ensures
        utf8_len(s.subrange(i, j)) == offset(s, j) - offset(s, i),
{
    assert(s.take(j) =~= s.take(i) + s.subrange(i, j));
    utf8_concat(s.take(i), s.subrange(i, j));
}

fn char_bytes(c: char) -> (n: usize)
    ensures
        n == utf8_len(seq![c]),
{
    proof {
        one_char_bytes(c);
    }
    let code = c as u32;
    if code < 0x80 {
        1
    } else if code < 0x800 {
        2
    } else if code < 0x10000 {
        3
    } else {
        4
    }
}

/// The characters of an input with their byte positions.
pub(crate) struct Scanner {
    pub(crate) chars: Vec<char>,
    pub(crate) offsets: Vec<usize>,
}

impl Scanner {
    pub(crate) closed spec fn wf(&self) -> bool {
        &&& self.offsets@.len() == self.chars@.len() + 1
        &&& forall|i: int|
            0 <= i <= self.chars@.len() ==> #[trigger] self.offsets@[i] == offset(self.chars@, i)
    }

    pub(crate) fn new(input: &str) -> (scanner: Scanner)
        ensures
            scanner.wf(),
            scanner.chars@ == input@,
    {
        let chars = chars_of(input);
        let total = byte_len(input);
        let mut offsets: Vec<usize> = Vec::new();
        let mut at: usize = 0;
        offsets.push(0);
        assert(chars@.take(0) =~= Seq::<char>::empty());
        let mut i: usize = 0;
        while i < chars.len()
            invariant
                i <= chars.len(),
                chars@ == input@,
                total == utf8_len(chars@),
                at == offset(chars@, i as int),
                offsets@.len() == i + 1,
                forall|k: int| 0 <= k <= i ==> #[trigger] offsets@[k] == offset(chars@, k),
            decreases chars.len() - i,
        {
            proof {
                offset_step(chars@, i as int);
                offsets_grow(chars@, i + 1, chars.len() as int);
            }
            at = at + char_bytes(chars[i]);
            offsets.push(at);
            i = i + 1;
        }
        Scanner { chars, offsets }
    }

    pub(crate) fn position(&self, i: usize) -> (at: usize)
        requires
            self.wf(),
            i <= self.chars.len(),
        ensures
            at == offset(self.chars@, i as int),
    {
        self.offsets[i]
    }

    pub(crate) fn pair(&self, i: usize, a: char, b: char) -> (r: bool)
        requires
            i <= self.chars.len(),
        ensures
            r == pair_at(self.chars@, i as int, a, b),
    {
        i < self.chars.len() && self.chars[i] == a && i + 1 < self.chars.len() && self.chars[i + 1] == b
    }

    pub(crate) fn one(&self, i: usize, c: char) -> (r: bool)
        ensures
            r == char_at(self.chars@, i as int, c),
    {
        i < self.chars.len() && self.chars[i] == c
    }

    pub(crate) fn digit(&self, i: usize) -> (r: bool)
        ensures
            r == digit_at(self.chars@, i as int),
    {
        i < self.chars.len() && '0' <= self.chars[i] && self.chars[i] <= '9'
    }

    fn block_comment(&self, start: usize) -> (r: Option<usize>)
        requires
            start <= self.chars.len(),
        ensures
            match r {
                None => comment_end(self.chars@, start as int, 1) is None,
                Some(j) => comment_end(self.chars@, start as int, 1) == Some(j as int) && start < j
                    <= self.chars.len(),
            },
    {
        let mut i = start;
        let mut depth: usize = 1;
        while i < self.chars.len()
            invariant
                start <= i <= self.chars.len(),
                1 <= depth <= i + 1,
                comment_end(self.chars@, start as int, 1) == comment_end(
                    self.chars@,
                    i as int,
                    depth as nat,
                ),
            decreases self.chars.len() - i,
        {
            if self.pair(i, '/', '*') {
                depth = depth + 1;
                i = i + 2;
            } else if self.pair(i, '*', '/') {
                depth = depth - 1;
                i = i + 2;
                if depth == 0 {
                    return Some(i);
                }
            } else {
                i = i + 1;
            }
        }
        None
    }

    fn line_comment(&self, start: usize) -> (j: usize)
        requires
            start <= self.chars.len(),
        ensures
            j == line_end(self.chars@, start as int),
            start <= j <= self.chars.len(),
    {
        let mut i = start;
        while i < self.chars.len()
            invariant
                start <= i <= self.chars.len(),
                line_end(self.chars@, start as int) == line_end(self.chars@, i as int),
            decreases self.chars.len() - i,
        {
            let c = self.chars[i];
            i = i + 1;
            if c == '\n' || c == '\r' {
                return i;
            }
        }
        i
    }

    fn skip_trivia(&self, start: usize) -> (r: Result<usize, usize>)
        requires
            start <= self.chars.len(),
        ensures
            match r {
                Ok(j) => trivia_end(self.chars@, start as int) == Ok::<int, int>(j as int) && start <= j
                    <= self.chars.len(),
                Err(at) => trivia_end(self.chars@, start as int) == Err::<int, int>(at as int) && at
                    < self.chars.len(),
            },
    {
        let mut i = start;
        while i < self.chars.len()
            invariant
                start <= i <= self.chars.len(),
                trivia_end(self.chars@, start as int) == trivia_end(self.chars@, i as int),
            decreases self.chars.len() - i,
        {
            if char_is_space(self.chars[i]) {
                i = i + 1;
            } else if self.pair(i, '-', '-') {
                i = self.line_comment(i + 2);
            } else if self.pair(i, '/', '*') {
                match self.block_comment(i + 2) {
                    None => return Err(i),
                    Some(j) => {
                        i = j;
                    },
                }
            } else {
                return Ok(i);
            }
        }
        Ok(i)
    }

    pub(crate) fn quoted(&self, start: usize, quote: char) -> (r: Option<(String, usize)>)
        requires
            start <= self.chars.len(),
        ensures
            match r {
                None => quoted_end(self.chars@, start as int, quote, Seq::empty()) is None,
                Some((text, end)) => {
                    &&& quoted_end(self.chars@, start as int, quote, Seq::empty()) == Some(
                        (text@, end as int),
                    )
                    &&& start < end <= self.chars.len()
                },
            },
    {
        let mut text = String::new();
        let mut i = start;
        assert(text@ =~= Seq::<char>::empty());
        while i < self.chars.len()
            invariant
                start <= i <= self.chars.len(),
                quoted_end(self.chars@, start as int, quote, Seq::empty()) == quoted_end(
                    self.chars@,
                    i as int,
                    quote,
                    text@,
                ),
            decreases self.chars.len() - i,
        {
            let c = self.chars[i];
            if c != quote {
                text.push(c);
                i = i + 1;
            } else if self.pair(i, quote, quote) {
                text.push(quote);
                i = i + 2;
            } else {
                return Some((text, i + 1));
            }
        }
        None
    }

    pub(crate) fn skip_digits(&self, start: usize) -> (j: usize)
        requires
            start <= self.chars.len(),
        ensures
            j == digits_end(self.chars@, start as int),
            start <= j <= self.chars.len(),
            digit_at(self.chars@, start as int) ==> start < j,
    {
        let mut i = start;
        while self.digit(i)
            invariant
                start <= i <= self.chars.len(),
                i == start || digit_at(self.chars@, start as int),
                digits_end(self.chars@, start as int) == digits_end(self.chars@, i as int),
            decreases self.chars.len() - i,
        {
            i = i + 1;
        }
        i
    }

    fn number(&self, start: usize) -> (r: Result<usize, usize>)
        requires
            start < self.chars.len(),
            is_digit(self.chars@[start as int]) || (self.chars@[start as int] == '.' && digit_at(
                self.chars@,
                start + 1,
            )),
        ensures
            match r {
                Ok(j) => number_end(self.chars@, start as int) == Ok::<int, int>(j as int) && start < j
                    <= self.chars.len(),
                Err(at) => number_end(self.chars@, start as int) == Err::<int, int>(at as int) && at
                    <= self.chars.len(),
            },
    {
        let mut j = start;
        if self.one(start, '.') {
            j = self.skip_digits(start + 1);
        } else {
            j = self.skip_digits(start);
            if self.one(j, '.') {
                j = self.skip_digits(j + 1);
            }
        }
        assert(j == mantissa_end(self.chars@, start as int));
        let mut end = j;
        if self.one(j, 'e') || self.one(j, 'E') {
            let mut digits = j + 1;
            if self.one(digits, '+') || self.one(digits, '-') {
                digits = digits + 1;
            }
            if !self.digit(digits) {
                return Err(j);
            }
            end = self.skip_digits(digits);
        }
        if end < self.chars.len() && (self.chars[end] == '_' || char_is_letter(self.chars[end])) {
            return Err(end);
        }
        Ok(end)
    }

    fn word(&self, start: usize) -> (j: usize)
        requires
            start <= self.chars.len(),
        ensures
            j == identifier_end(self.chars@, start as int),
            start <= j <= self.chars.len(),
    {
        let mut i = start;
        while i < self.chars.len() && (self.chars[i] == '_' || self.chars[i] == '$' || char_is_letter(
            self.chars[i],
        ) || char_is_numeric(self.chars[i]))
            invariant
                start <= i <= self.chars.len(),
                identifier_end(self.chars@, start as int) == identifier_end(self.chars@, i as int),
            decreases self.chars.len() - i,
        {
            i = i + 1;
        }
        i
    }

    fn symbol(&self, i: usize) -> (r: Option<(TokenKind, usize)>)
        requires
            i < self.chars.len(),
        ensures
            match r {
                None => symbol_at(self.chars@, i as int) is None,
                Some((kind, end)) => symbol_at(self.chars@, i as int) == Some((kind@, end as int))
                    && i < end <= self.chars.len(),
            },
    {
        let c = self.chars[i];
        if self.pair(i, '!', '=') || self.pair(i, '<', '>') {
            return Some((TokenKind::Operator(Operator::NotEqual), i + 2));
        }
        if self.pair(i, '<', '=') {
            return Some((TokenKind::Operator(Operator::LessOrEqual), i + 2));
        }
        if self.pair(i, '>', '=') {
            return Some((TokenKind::Operator(Operator::GreaterOrEqual), i + 2));
        }
        if self.pair(i, '|', '|') {
            return Some((TokenKind::Operator(Operator::Concat), i + 2));
        }
        if self.pair(i, ':', ':') {
            return Some((TokenKind::Operator(Operator::Cast), i + 2));
        }
        let kind = match c {
            '=' => TokenKind::Operator(Operator::Equal),
            '<' => TokenKind::Operator(Operator::Less),
            '>' => TokenKind::Operator(Operator::Greater),
            '+' => TokenKind::Operator(Operator::Plus),
            '-' => TokenKind::Operator(Operator::Minus),
            '*' => TokenKind::Operator(Operator::Multiply),
            '/' => TokenKind::Operator(Operator::Divide),
            '%' => TokenKind::Operator(Operator::Modulo),
            '(' => TokenKind::Delimiter(Delimiter::LeftParenthesis),
            ')' => TokenKind::Delimiter(Delimiter::RightParenthesis),
            '[' => TokenKind::Delimiter(Delimiter::LeftBracket),
            ']' => TokenKind::Delimiter(Delimiter::RightBracket),
            ',' => TokenKind::Delimiter(Delimiter::Comma),
            '.' => TokenKind::Delimiter(Delimiter::Dot),
            ';' => TokenKind::Delimiter(Delimiter::Semicolon),
            _ => return None,
        };
        Some((kind, i + 1))
    }

    fn literal_too_large(&self, limits: LexerLimits, length: usize, position: usize) -> (e: LexError)
        ensures
            e == too_large(length as int, limits, position as int),
    {
        LexError {
            kind: LexErrorKind::LiteralTooLarge { length, limit: limits.max_literal_bytes },
            position,
        }
    }

    fn token(&self, i: usize, limits: LexerLimits) -> (r: Result<(TokenKind, usize), LexError>)
        requires
            self.wf(),
            i < self.chars.len(),
        ensures
            match r {
                Ok((kind, end)) => {
                    &&& token_at(self.chars@, i as int, limits) == Ok::<(Lexeme, int), LexError>(
                        (kind@, end as int),
                    )
                    &&& i < end <= self.chars.len()
                },
                Err(e) => token_at(self.chars@, i as int, limits) == Err::<
                    (Lexeme, int),
                    LexError,
                >(e),
            },
    {
        let c = self.chars[i];
        let start = self.offsets[i];
        if c == '\'' {
            return match self.quoted(i + 1, c) {
                None => Err(LexError { kind: LexErrorKind::UnterminatedString, position: start }),
                Some((text, end)) => {
                    let length = byte_len(text.as_str());
                    if length > limits.max_literal_bytes {
                        Err(self.literal_too_large(limits, length, start))
                    } else {
                        Ok((TokenKind::Literal(Literal::String(text)), end))
                    }
                },
            };
        }
        if c == '"' {
            return match self.quoted(i + 1, c) {
                None => Err(
                    LexError {
                        kind: LexErrorKind::UnterminatedQuotedIdentifier,
                        position: start,
                    },
                ),
                Some((text, end)) => Ok((TokenKind::Identifier(text), end)),
            };
        }
        if self.digit(i) || (c == '.' && self.digit(i + 1)) {
            let end = match self.number(i) {
                Err(at) => return Err(
                    LexError { kind: LexErrorKind::InvalidNumber, position: self.offsets[at] },
                ),
                Ok(end) => end,
            };
            proof {
                offsets_grow(self.chars@, i as int, end as int);
            }
            let length = self.offsets[end] - start;
            if length > limits.max_literal_bytes {
                return Err(self.literal_too_large(limits, length, start));
            }
            let text = string_from(&self.chars, i, end);
            return Ok((TokenKind::Literal(Literal::Number(text)), end));
        }
        if c == '_' || char_is_letter(c) {
            let end = self.word(i + 1);
            proof {
                offsets_grow(self.chars@, i as int, end as int);
            }
            let length = self.offsets[end] - start;
            let text = string_from(&self.chars, i, end);
            let word = to_lower(text.as_str());
            let is_true = same_text(word.as_str(), "true");
            let is_false = same_text(word.as_str(), "false");
            if is_true || is_false || same_text(word.as_str(), "null") {
                if length > limits.max_literal_bytes {
                    return Err(self.literal_too_large(limits, length, start));
                }
                let literal = if is_true {
                    Literal::Boolean(true)
                } else if is_false {
                    Literal::Boolean(false)
                } else {
                    Literal::Null
                };
                return Ok((TokenKind::Literal(literal), end));
            }
            return Ok((TokenKind::Identifier(text), end));
        }
        match self.symbol(i) {
            Some(found) => Ok(found),
            None => Err(
                LexError { kind: LexErrorKind::UnexpectedCharacter(c), position: start },
            ),
        }
    }
}

/// The content of a result of lexing.
pub open spec fn lexed(r: Result<Vec<Token>, LexError>) -> Result<Seq<Marked>, LexError> {
    match r {
        Ok(tokens) => Ok(marked(tokens@)),
        Err(e) => Err(e),
    }
}

/// Splits an input into tokens within limits.
///
/// White space and `--` or nested `/* ... */` comments are skipped. Keywords remain
/// identifiers; `TRUE`, `FALSE` and `NULL` are literals.
#[verifier::loop_isolation(false)]
pub fn lex(input: &str, limits: LexerLimits) -> (r: Result<Vec<Token>, LexError>)
    ensures
        lexed(r) == tokens_of(input@, limits),
{
    let length = byte_len(input);
    if length > limits.max_input_bytes {
        return Err(
            LexError {
                kind: LexErrorKind::InputTooLarge { length, limit: limits.max_input_bytes },
                position: limits.max_input_bytes,
            },
        );
    }
    let scanner = Scanner::new(input);
    let ghost s = input@;
    let mut tokens: Vec<Token> = Vec::new();
    let mut i: usize = 0;
    assert(marked(tokens@) =~= Seq::<Marked>::empty());
    loop
        invariant
            i <= scanner.chars.len(),
            tokens_from(s, 0, limits, Seq::empty()) == tokens_from(
                s,
                i as int,
                limits,
                marked(tokens@),
            ),
        decreases scanner.chars.len() - i,
    {
        let j = match scanner.skip_trivia(i) {
            Err(at) => return Err(
                LexError {
                    kind: LexErrorKind::UnterminatedBlockComment,
                    position: scanner.offsets[at],
                },
            ),
            Ok(j) => j,
        };
        if j >= scanner.chars.len() {
            return Ok(tokens);
        }
        let (kind, end) = match scanner.token(j, limits) {
            Err(e) => return Err(e),
            Ok(found) => found,
        };
        if tokens.len() >= limits.max_tokens {
            return Err(
                LexError {
                    kind: LexErrorKind::TokenLimitExceeded { limit: limits.max_tokens },
                    position: scanner.offsets[j],
                },
            );
        }
        let ghost before = marked(tokens@);
        let token = Token { kind, span: Span::new(scanner.offsets[j], scanner.offsets[end]) };
        tokens.push(token);
        assert(marked(tokens@) =~= before.push(token@));
        i = end;
    }
}

/// Whether tokens have spans with bytes, one behind the other, and all before a position.
pub open spec fn well_placed(tokens: Seq<Marked>, before: int) -> bool {
    &&& forall|i: int|
        0 <= i < tokens.len() ==> 0 <= (#[trigger] tokens[i]).start < tokens[i].end <= before
    &&& forall|i: int, j: int|
        #![trigger tokens[i], tokens[j]]
        0 <= i < j < tokens.len() ==> tokens[i].end <= tokens[j].start
}

/// Whether literals are within the limit.
pub open spec fn literals_fit(tokens: Seq<Marked>, limits: LexerLimits) -> bool {
    forall|i: int|
        0 <= i < tokens.len() ==> match (#[trigger] tokens[i]).lexeme {
            Lexeme::Text(s) => utf8_len(s) <= limits.max_literal_bytes,
            Lexeme::Number(s) => utf8_len(s) <= limits.max_literal_bytes,
            _ => true,
        }
}

proof fn tokens_are_placed(s: Seq<char>, i: int, limits: LexerLimits, done: Seq<Marked>)
    requires
        0 <= i <= s.len(),
        well_placed(done, offset(s, i)),
        literals_fit(done, limits),
        done.len() <= limits.max_tokens,
    ensures
        tokens_from(s, i, limits, done) matches Ok(tokens) ==> well_placed(tokens, utf8_len(s) as int)
            && literals_fit(tokens, limits) && tokens.len() <= limits.max_tokens,
    decreases s.len() - i,
{
    offsets_grow(s, i, s.len() as int);
    if let Ok(j) = trivia_end(s, i) {
        if 0 <= j < s.len() {
            if let Ok((lexeme, end)) = token_at(s, j, limits) {
                if done.len() < limits.max_tokens && i <= j < end <= s.len() {
                    offsets_grow(s, i, j);
                    offsets_grow(s, j, end);
                    part_bytes(s, j, end);
                    assert(0 <= offset(s, i));
                    let token = Marked { lexeme, start: offset(s, j), end: offset(s, end) };
                    let more = done.push(token);
                    assert(well_placed(more, offset(s, end))) by {
                        assert forall|a: int, b: int|
                            #![trigger more[a], more[b]]
                            0 <= a < b < more.len() implies more[a].end <= more[b].start by {
                            assert(more[a] == done[a]);
                            if b < done.len() {
                                assert(more[b] == done[b]);
                            }
                        }
                    }
                    assert(literals_fit(more, limits));
                    tokens_are_placed(s, end, limits, more);
                }
            }
        }
    }
}

/// Tokens stand in the order of the input without overlapping, every span has bytes and lies
/// within the input, and the limits on tokens and literals hold.
pub proof fn tokens_stand_in_order(s: Seq<char>, limits: LexerLimits)
    ensures
        tokens_of(s, limits) matches Ok(tokens) ==> well_placed(tokens, utf8_len(s) as int)
            && literals_fit(tokens, limits) && tokens.len() <= limits.max_tokens && utf8_len(s)
            <= limits.max_input_bytes,
{
    if utf8_len(s) <= limits.max_input_bytes {
        tokens_are_placed(s, 0, limits, Seq::empty());
    }
}

} // verus!
