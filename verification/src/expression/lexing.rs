//! Tokens of scalar expressions.

use vstd::prelude::*;
use crate::expression::fault::{parse_error, ExpressionError, ExpressionFault};
use crate::lexer::{begins_identifier, char_at, digit_at, digits_end, offset, quoted_end, Scanner};
use crate::text::{char_is_letter, char_is_numeric, char_is_space, concat3, is_digit, is_letter, is_numeric, space_end, string_from};

verus! {

/// Kinds of tokens.
#[derive(Debug)]
pub enum TokenKind {
    Word(String),
    QuotedIdentifier(String),
    Number(String),
    String(String),
    Symbol(Symbol),
    End,
}

/// Tokens of one spelling.
#[derive(Clone, Copy, Debug, PartialEq, Eq, Structural)]
pub enum Symbol {
    LeftParen,
    RightParen,
    Comma,
    Plus,
    Minus,
    Star,
    Slash,
    Percent,
    Equal,
    NotEqual,
    Less,
    LessOrEqual,
    Greater,
    GreaterOrEqual,
}

/// A token and its byte position.
#[derive(Debug)]
pub struct Token {
    pub kind: TokenKind,
    pub position: usize,
}

/// The content of a kind of token.
pub enum Lexeme {
    Word(Seq<char>),
    QuotedIdentifier(Seq<char>),
    Number(Seq<char>),
    Text(Seq<char>),
    Symbol(Symbol),
    End,
}

/// The content of a token.
pub struct Placed {
    pub lexeme: Lexeme,
    pub position: usize,
}

impl View for TokenKind {
    type V = Lexeme;

    open spec fn view(&self) -> Lexeme {
        match *self {
            TokenKind::Word(s) => Lexeme::Word(s@),
            TokenKind::QuotedIdentifier(s) => Lexeme::QuotedIdentifier(s@),
            TokenKind::Number(s) => Lexeme::Number(s@),
            TokenKind::String(s) => Lexeme::Text(s@),
            TokenKind::Symbol(symbol) => Lexeme::Symbol(symbol),
            TokenKind::End => Lexeme::End,
        }
    }
}

impl View for Token {
    type V = Placed;

    open spec fn view(&self) -> Placed {
        Placed { lexeme: self.kind@, position: self.position }
    }
}

/// The contents of tokens.
pub open spec fn placed(tokens: Seq<Token>) -> Seq<Placed> {
    Seq::new(tokens.len(), |i: int| tokens[i]@)
}

/// Whether a character continues a word.
pub open spec fn continues_word(c: char) -> bool {
    c == '_' || is_letter(c) || is_numeric(c)
}

/// The position behind a word.
pub open spec fn word_end(s: Seq<char>, i: int) -> int
    decreases s.len() - i,
{
    if 0 <= i < s.len() && continues_word(s[i]) {
        word_end(s, i + 1)
    } else {
        i
    }
}

/// The symbol at a position, and the position behind it.
pub open spec fn symbol_at(s: Seq<char>, i: int) -> Option<(Symbol, int)> {
    let c = s[i];
    if c == '(' {
        Some((Symbol::LeftParen, i + 1))
    } else if c == ')' {
        Some((Symbol::RightParen, i + 1))
    } else if c == ',' {
        Some((Symbol::Comma, i + 1))
    } else if c == '+' {
        Some((Symbol::Plus, i + 1))
    } else if c == '-' {
        Some((Symbol::Minus, i + 1))
    } else if c == '*' {
        Some((Symbol::Star, i + 1))
    } else if c == '/' {
        Some((Symbol::Slash, i + 1))
    } else if c == '%' {
        Some((Symbol::Percent, i + 1))
    } else if c == '=' {
        Some((Symbol::Equal, i + 1))
    } else if c == '<' {
        if char_at(s, i + 1, '=') {
            Some((Symbol::LessOrEqual, i + 2))
        } else if char_at(s, i + 1, '>') {
            Some((Symbol::NotEqual, i + 2))
        } else {
            Some((Symbol::Less, i + 1))
        }
    } else if c == '>' {
        if char_at(s, i + 1, '=') {
            Some((Symbol::GreaterOrEqual, i + 2))
        } else {
            Some((Symbol::Greater, i + 1))
        }
    } else if c == '!' && char_at(s, i + 1, '=') {
        Some((Symbol::NotEqual, i + 2))
    } else {
        None
    }
}

/// The position behind a number, or why it is wrong.
pub open spec fn number_end(s: Seq<char>, i: int) -> Result<int, Seq<char>> {
    let whole = digits_end(s, i);
    let mantissa = if char_at(s, whole, '.') { digits_end(s, whole + 1) } else { whole };
    let exponent = char_at(s, mantissa, 'e') || char_at(s, mantissa, 'E');
    let digits = if char_at(s, mantissa + 1, '+') || char_at(s, mantissa + 1, '-') {
        mantissa + 2
    } else {
        mantissa + 1
    };
    if !digit_at(s, i) && !digit_at(s, whole + 1) {
        Err("expected a digit around decimal point"@)
    } else if !exponent {
        Ok(mantissa)
    } else if !digit_at(s, digits) {
        Err("expected digits in numeric exponent"@)
    } else {
        Ok(digits_end(s, digits))
    }
}

/// The token at a position, and the position behind it.
pub open spec fn token_at(s: Seq<char>, i: int) -> Result<(Lexeme, int), ExpressionFault> {
    let c = s[i];
    let position = offset(s, i) as usize;
    match symbol_at(s, i) {
        Some((symbol, end)) => Ok((Lexeme::Symbol(symbol), end)),
        None => if c == '!' {
            Err(ExpressionFault::Parse { message: "expected `=` after `!`"@, position })
        } else if c == '\'' {
            match quoted_end(s, i + 1, '\'', Seq::empty()) {
                Some((text, end)) => Ok((Lexeme::Text(text), end)),
                None => Err(
                    ExpressionFault::Parse { message: "unterminated string literal"@, position },
                ),
            }
        } else if c == '"' {
            match quoted_end(s, i + 1, '"', Seq::empty()) {
                Some((name, end)) => Ok((Lexeme::QuotedIdentifier(name), end)),
                None => Err(
                    ExpressionFault::Parse { message: "unterminated quoted identifier"@, position },
                ),
            }
        } else if is_digit(c) || c == '.' {
            match number_end(s, i) {
                Ok(end) => Ok((Lexeme::Number(s.subrange(i, end)), end)),
                Err(message) => Err(ExpressionFault::Parse { message, position }),
            }
        } else if begins_identifier(c) {
            Ok((Lexeme::Word(s.subrange(i, word_end(s, i))), word_end(s, i)))
        } else {
            Err(
                ExpressionFault::Parse {
                    message: "unexpected character `"@ + seq![c] + "`"@,
                    position,
                },
            )
        },
    }
}

/// The tokens from a position on, behind `done`.
pub open spec fn tokens_from(s: Seq<char>, i: int, done: Seq<Placed>) -> Result<
    Seq<Placed>,
    ExpressionFault,
>
    decreases s.len() - i,
{
    let j = space_end(s, i);
    if !(0 <= i <= j < s.len()) {
        Ok(done.push(Placed { lexeme: Lexeme::End, position: offset(s, j) as usize }))
    } else {
        match token_at(s, j) {
            Err(fault) => Err(fault),
            Ok((lexeme, end)) => {
                let next = done.push(Placed { lexeme, position: offset(s, j) as usize });
                if j < end <= s.len() {
                    tokens_from(s, end, next)
                } else {
                    Ok(next)
                }
            },
        }
    }
}

/// The tokens of an expression. The last one is the end.
pub open spec fn tokens_of(s: Seq<char>) -> Result<Seq<Placed>, ExpressionFault> {
    tokens_from(s, 0, Seq::empty())
}

/// The content of a result of lexing.
pub open spec fn tokenized(r: Result<Vec<Token>, ExpressionError>) -> Result<
    Seq<Placed>,
    ExpressionFault,
> {
    match r {
        Ok(tokens) => Ok(placed(tokens@)),
        Err(e) => Err(e@),
    }
}

/// Whether the end stands behind all other tokens, and only there.
pub open spec fn ends(tokens: Seq<Placed>) -> bool {
    &&& tokens.len() > 0
    &&& forall|i: int|
        0 <= i < tokens.len() ==> ((#[trigger] tokens[i]).lexeme is End <==> i == tokens.len() - 1)
}

impl Scanner {
    fn spaces(&self, start: usize) -> (j: usize)
        requires
            start <= self.chars.len(),
        ensures
            j == space_end(self.chars@, start as int),
            start <= j <= self.chars.len(),
    {
        let mut i = start;
        while i < self.chars.len() && char_is_space(self.chars[i])
            invariant
                start <= i <= self.chars.len(),
                space_end(self.chars@, start as int) == space_end(self.chars@, i as int),
            decreases self.chars.len() - i,
        {
            i = i + 1;
        }
        i
    }

    fn word_until(&self, start: usize) -> (j: usize)
        requires
            start < self.chars.len(),
            begins_identifier(self.chars@[start as int]),
        ensures
            j == word_end(self.chars@, start as int),
            start < j <= self.chars.len(),
    {
        let mut i = start + 1;
        while i < self.chars.len() && (self.chars[i] == '_' || char_is_letter(self.chars[i])
            || char_is_numeric(self.chars[i]))
            invariant
                start < i <= self.chars.len(),
                word_end(self.chars@, start as int) == word_end(self.chars@, i as int),
            decreases self.chars.len() - i,
        {
            i = i + 1;
        }
        i
    }

    fn numeral(&self, start: usize) -> (r: Result<usize, &'static str>)
        requires
            start < self.chars.len(),
            is_digit(self.chars@[start as int]) || self.chars@[start as int] == '.',
        ensures
            match r {
                Ok(end) => number_end(self.chars@, start as int) == Ok::<int, Seq<char>>(end as int)
                    && start < end <= self.chars.len(),
                Err(message) => number_end(self.chars@, start as int) == Err::<int, Seq<char>>(
                    message@,
                ),
            },
    {
        let whole = self.skip_digits(start);
        let mut mantissa = whole;
        let mut has_digit = self.digit(start);
        if self.one(whole, '.') {
            has_digit = has_digit || self.digit(whole + 1);
            mantissa = self.skip_digits(whole + 1);
        }
        if !has_digit {
            return Err("expected a digit around decimal point");
        }
        if !(self.one(mantissa, 'e') || self.one(mantissa, 'E')) {
            return Ok(mantissa);
        }
        let mut digits = mantissa + 1;
        if self.one(digits, '+') || self.one(digits, '-') {
            digits = digits + 1;
        }
        if !self.digit(digits) {
            return Err("expected digits in numeric exponent");
        }
        Ok(self.skip_digits(digits))
    }

    fn symbol_here(&self, i: usize) -> (r: Option<(Symbol, usize)>)
        requires
            i < self.chars.len(),
        ensures
            match r {
                Some((symbol, end)) => symbol_at(self.chars@, i as int) == Some(
                    (symbol, end as int),
                ) && i < end <= self.chars.len(),
                None => symbol_at(self.chars@, i as int) is None,
            },
    {
        let c = self.chars[i];
        let next = i + 1;
        if c == '(' {
            Some((Symbol::LeftParen, next))
        } else if c == ')' {
            Some((Symbol::RightParen, next))
        } else if c == ',' {
            Some((Symbol::Comma, next))
        } else if c == '+' {
            Some((Symbol::Plus, next))
        } else if c == '-' {
            Some((Symbol::Minus, next))
        } else if c == '*' {
            Some((Symbol::Star, next))
        } else if c == '/' {
            Some((Symbol::Slash, next))
        } else if c == '%' {
            Some((Symbol::Percent, next))
        } else if c == '=' {
            Some((Symbol::Equal, next))
        } else if c == '<' {
            if self.one(next, '=') {
                Some((Symbol::LessOrEqual, next + 1))
            } else if self.one(next, '>') {
                Some((Symbol::NotEqual, next + 1))
            } else {
                Some((Symbol::Less, next))
            }
        } else if c == '>' {
            if self.one(next, '=') {
                Some((Symbol::GreaterOrEqual, next + 1))
            } else {
                Some((Symbol::Greater, next))
            }
        } else if c == '!' && self.one(next, '=') {
            Some((Symbol::NotEqual, next + 1))
        } else {
            None
        }
    }

    fn token_here(&self, i: usize) -> (r: Result<(TokenKind, usize), ExpressionError>)
        requires
            self.wf(),
            i < self.chars.len(),
        ensures
            match r {
                Ok((kind, end)) => token_at(self.chars@, i as int) == Ok::<_, ExpressionFault>(
                    (kind@, end as int),
                ) && i < end <= self.chars.len(),
                Err(e) => token_at(self.chars@, i as int) == Err::<(Lexeme, int), _>(e@),
            },
    {
        let c = self.chars[i];
        let position = self.position(i);
        if let Some((symbol, end)) = self.symbol_here(i) {
            return Ok((TokenKind::Symbol(symbol), end));
        }
        if c == '!' {
            Err(parse_error("expected `=` after `!`", position))
        } else if c == '\'' {
            match self.quoted(i + 1, '\'') {
                Some((text, end)) => Ok((TokenKind::String(text), end)),
                None => Err(parse_error("unterminated string literal", position)),
            }
        } else if c == '"' {
            match self.quoted(i + 1, '"') {
                Some((name, end)) => Ok((TokenKind::QuotedIdentifier(name), end)),
                None => Err(parse_error("unterminated quoted identifier", position)),
            }
        } else if ('0' <= c && c <= '9') || c == '.' {
            match self.numeral(i) {
                Ok(end) => Ok((TokenKind::Number(string_from(&self.chars, i, end)), end)),
                Err(message) => Err(parse_error(message, position)),
            }
        } else if c == '_' || char_is_letter(c) {
            let end = self.word_until(i);
            Ok((TokenKind::Word(string_from(&self.chars, i, end)), end))
        } else {
            let mut shown = String::new();
            shown.push(c);
            assert(shown@ =~= seq![c]);
            Err(
                ExpressionError::Parse {
                    message: concat3("unexpected character `", shown.as_str(), "`"),
                    position,
                },
            )
        }
    }
}

/// Splits an expression into tokens. White space between them is skipped.
#[verifier::loop_isolation(false)]
pub fn tokenize(input: &str) -> (r: Result<Vec<Token>, ExpressionError>)
    ensures
        tokenized(r) == tokens_of(input@),
        r matches Ok(tokens) ==> ends(placed(tokens@)),
{
    let scanner = Scanner::new(input);
    let ghost s = input@;
    let mut tokens: Vec<Token> = Vec::new();
    let mut i: usize = 0;
    assert(placed(tokens@) =~= Seq::<Placed>::empty());
    loop
        invariant
            i <= scanner.chars.len(),
            tokens_from(s, 0, Seq::empty()) == tokens_from(s, i as int, placed(tokens@)),
            forall|k: int| 0 <= k < tokens@.len() ==> !((#[trigger] tokens@[k]).kind is End),
        decreases scanner.chars.len() - i,
    {
        let ghost before = placed(tokens@);
        let j = scanner.spaces(i);
        let position = scanner.position(j);
        if j >= scanner.chars.len() {
            tokens.push(Token { kind: TokenKind::End, position });
            assert(placed(tokens@) =~= before.push(
                Placed { lexeme: Lexeme::End, position: offset(s, j as int) as usize },
            ));
            return Ok(tokens);
        }
        let (kind, end) = match scanner.token_here(j) {
            Err(e) => return Err(e),
            Ok(found) => found,
        };
        let token = Token { kind, position };
        tokens.push(token);
        assert(placed(tokens@) =~= before.push(token@));
        i = end;
    }
}

} // verus!
