//! The tokens of SQL text and the texts that the `sqlparser` crate can read.
//!
//! The parser does not return on a few malformed texts. They are told by their tokens before
//! the parser is called.

use vstd::prelude::*;
use sqlparser::tokenizer::Token as RawToken;
use crate::ast::{LocatedToken, SqlToken};
use crate::text::{chars_of, digits_within, is_within, same_text, string_from};

verus! {

/// `sqlparser`'s `TokenWithLocation`, held as an opaque value.
#[verifier::external_type_specification]
#[verifier::external_body]
pub struct RawTokenWithLocation(sqlparser::tokenizer::TokenWithLocation);

/// The tokens into which `sqlparser` divides SQL text in its generic dialect, or the text of
/// its error.
pub uninterp spec fn tokenized(sql: Seq<char>) -> Result<Seq<LocatedToken>, Seq<char>>;

/// The tokens or the error text in the result of dividing a text.
pub open spec fn tokens_view(r: Result<Vec<LocatedToken>, String>) -> Result<
    Seq<LocatedToken>,
    Seq<char>,
> {
    match r {
        Ok(tokens) => Ok(tokens@),
        Err(message) => Err(message@),
    }
}

/// `sqlparser::tokenizer::Tokenizer::tokenize_with_location` with the generic dialect: the result is a
/// function of the text alone. Each token is handed over by its kind and its place.
#[verifier::external_body]
pub(crate) fn tokenize(sql: &str) -> (r: Result<Vec<LocatedToken>, String>)
    ensures
        tokens_view(r) == tokenized(sql@),
{
    match sqlparser::tokenizer::Tokenizer::new(&sqlparser::dialect::GenericDialect {}, sql).tokenize_with_location() {
        Ok(tokens) => Ok(tokens.into_iter().map(located).collect()),
        Err(error) => Err(error.to_string()),
    }
}

/// Hands over one token and its place; nothing is claimed of them.
#[verifier::external_body]
fn located(t: sqlparser::tokenizer::TokenWithLocation) -> (r: LocatedToken) {
    LocatedToken { line: t.location.line, column: t.location.column, token: token(t) }
}

/// Hands over one token; nothing is claimed of it.
#[verifier::external_body]
fn token(t: sqlparser::tokenizer::TokenWithLocation) -> (r: SqlToken) {
    match t.token {
        RawToken::Word(w) => SqlToken::Word { keyword: format!("{:?}", w.keyword) },
        RawToken::Number(s, _) => SqlToken::Number(s),
        RawToken::SingleQuotedString(_) => SqlToken::SingleQuoted,
        RawToken::DoubleQuotedString(_) => SqlToken::DoubleQuoted,
        RawToken::EscapedStringLiteral(_) => SqlToken::Escaped,
        RawToken::LBrace => SqlToken::LeftBrace, RawToken::RBrace => SqlToken::RightBrace,
        RawToken::LParen => SqlToken::LeftParenthesis, RawToken::RParen => SqlToken::RightParenthesis,
        RawToken::Comma => SqlToken::Comma, RawToken::Period => SqlToken::Period,
        RawToken::Eq => SqlToken::Equals, RawToken::SemiColon => SqlToken::Semicolon,
        RawToken::Whitespace(_) => SqlToken::Space,
        _ => SqlToken::Other,
    }
}

/// The places of the first `n` tokens that are no space.
pub open spec fn places(tokens: Seq<LocatedToken>, n: int) -> Seq<usize>
    decreases n,
{
    if n <= 0 {
        Seq::empty()
    } else if tokens[n - 1].token is Space {
        places(tokens, n - 1)
    } else {
        places(tokens, n - 1).push((n - 1) as usize)
    }
}

/// Tokens without the spaces between them.
pub struct Visible<'a> {
    tokens: &'a Vec<LocatedToken>,
    places: Vec<usize>,
}

/// The tokens that are no space.
pub open spec fn visible(tokens: Seq<LocatedToken>) -> Seq<SqlToken> {
    let kept = places(tokens, tokens.len() as int);
    Seq::new(kept.len(), |i: int| tokens[kept[i] as int].token)
}

/// Whether the `i`-th token is the given keyword.
pub open spec fn keyword_at(t: Seq<SqlToken>, i: int, name: Seq<char>) -> bool {
    0 <= i < t.len() && (t[i] matches SqlToken::Word { keyword } && keyword@ == name)
}

/// Whether the `i`-th token is a number that is no integer up to `max`.
pub open spec fn beyond(t: Seq<SqlToken>, i: int, max: int) -> bool {
    0 <= i < t.len() && (t[i] matches SqlToken::Number(s) && !is_within(s@, max))
}

/// Whether the `i`-th token is an identifier.
pub open spec fn identifier_at(t: Seq<SqlToken>, i: int) -> bool {
    0 <= i < t.len() && (t[i] is Word || t[i] is SingleQuoted || t[i] is DoubleQuoted)
}

/// Whether identifiers with periods between them begin at the `i`-th token.
pub open spec fn name_at(t: Seq<SqlToken>, i: int) -> bool
    decreases t.len() - i,
{
    identifier_at(t, i) && (i + 1 < t.len() && t[i + 1] is Period ==> name_at(t, i + 2))
}

/// Where the statement of the `i`-th token begins.
pub open spec fn statement_start(t: Seq<SqlToken>, i: int) -> int
    decreases i,
{
    if i <= 0 || i > t.len() || t[i - 1] is Semicolon {
        i
    } else {
        statement_start(t, i - 1)
    }
}

/// Whether the keyword stands among the tokens from `from` below `to`.
pub open spec fn holds_keyword(t: Seq<SqlToken>, from: int, to: int, name: Seq<char>) -> bool {
    exists|k: int| from <= k < to && keyword_at(t, k, name)
}

/// Whether the statement of the `i`-th token may create something there.
pub open spec fn creates(t: Seq<SqlToken>, i: int) -> bool {
    let start = statement_start(t, i);
    !keyword_at(t, start, "SELECT"@) && holds_keyword(t, start, i, "CREATE"@)
}

/// Whether the statement of the `i`-th token may be part of another statement.
pub open spec fn nested(t: Seq<SqlToken>, i: int) -> bool {
    let start = statement_start(t, i);
    ||| holds_keyword(t, 0, i, "PROCEDURE"@)
    ||| keyword_at(t, start, "EXPLAIN"@)
    ||| keyword_at(t, start, "DESCRIBE"@)
    ||| keyword_at(t, start, "DESC"@)
    ||| keyword_at(t, start, "PREPARE"@)
}

/// By how much a token deepens the nesting of parentheses.
pub open spec fn nesting(token: SqlToken) -> int {
    match token {
        SqlToken::LeftParenthesis => 1,
        SqlToken::RightParenthesis => -1,
        _ => 0,
    }
}

/// How many of the parentheses that open from `from` on are still open at `to`.
pub open spec fn depth(t: Seq<SqlToken>, from: int, to: int) -> int
    decreases to - from,
{
    if to <= from {
        0
    } else {
        depth(t, from, to - 1) + nesting(t[to - 1])
    }
}

/// Whether the `i`-th token stands between parentheses of its statement. A name that is
/// missing behind `LIKE` or `CLONE` takes a parenthesis in its place, so that nothing can be
/// said there.
pub open spec fn enclosed(t: Seq<SqlToken>, i: int) -> bool {
    let start = statement_start(t, i);
    &&& depth(t, start, i) > 0
    &&& !holds_keyword(t, start, i, "LIKE"@)
    &&& !holds_keyword(t, start, i, "ILIKE"@)
    &&& !holds_keyword(t, start, i, "CLONE"@)
}

/// Whether the bounds of a repetition in braces at the `i`-th token are out of range: one
/// number, one with a comma before or behind it, or two with a comma between them.
pub open spec fn bad_bounds(t: Seq<SqlToken>, i: int) -> bool {
    let max = u32::MAX as int;
    let last = i + 4 < t.len() && t[i + 1] is Number && t[i + 2] is Comma && t[i + 3] is Number
        && t[i + 4] is RightBrace;
    0 <= i < t.len() && t[i] is LeftBrace && {
        ||| i + 2 < t.len() && t[i + 2] is RightBrace && beyond(t, i + 1, max)
        ||| i + 3 < t.len() && t[i + 3] is RightBrace && t[i + 1] is Comma && beyond(t, i + 2, max)
        ||| i + 3 < t.len() && t[i + 3] is RightBrace && t[i + 2] is Comma && beyond(t, i + 1, max)
        ||| last && (beyond(t, i + 1, max) || beyond(t, i + 3, max))
    }
}

/// Whether the bounds of a repetition in a row pattern at the `i`-th token are out of range.
pub open spec fn bad_repetition(t: Seq<SqlToken>, i: int) -> bool {
    bad_bounds(t, i) && holds_keyword(t, statement_start(t, i), i, "MATCH_RECOGNIZE"@)
}

/// Whether the first number of identifiers at the `i`-th token is out of range.
pub open spec fn bad_offset(t: Seq<SqlToken>, i: int) -> bool {
    let at = if 0 <= i && i + 1 < t.len() && t[i + 1] is Equals {
        i + 2
    } else {
        i + 1
    };
    &&& keyword_at(t, i, "AUTO_INCREMENT"@)
    &&& beyond(t, at, u32::MAX as int)
    &&& creates(t, i)
    &&& !enclosed(t, i)
}

/// Whether the logs that are flushed are named at the `i`-th token.
pub open spec fn flushed(t: Seq<SqlToken>, i: int) -> bool {
    keyword_at(t, i - 1, "FLUSH"@) || (keyword_at(t, i - 2, "FLUSH"@) && (keyword_at(
        t,
        i - 1,
        "LOCAL"@,
    ) || keyword_at(t, i - 1, "NO_WRITE_TO_BINLOG"@)))
}

/// Whether the channel of flushed logs at the `i`-th token has no name.
pub open spec fn bad_channel(t: Seq<SqlToken>, i: int) -> bool {
    &&& keyword_at(t, i, "RELAY"@)
    &&& keyword_at(t, i + 1, "LOGS"@)
    &&& keyword_at(t, i + 2, "FOR"@)
    &&& keyword_at(t, i + 3, "CHANNEL"@)
    &&& flushed(t, i)
    &&& !name_at(t, i + 4)
}

/// Whether the grantor at the `i`-th token has no name.
pub open spec fn bad_grantor(t: Seq<SqlToken>, i: int) -> bool {
    let start = statement_start(t, i);
    &&& keyword_at(t, i, "GRANTED"@)
    &&& keyword_at(t, i + 1, "BY"@)
    &&& holds_keyword(t, start, i, "GRANT"@) || holds_keyword(t, start, i, "REVOKE"@)
    &&& !identifier_at(t, i + 2)
}

/// Whether the rows that differ in a list are selected from the `k`-th token on.
pub open spec fn selects_distinct_on(t: Seq<SqlToken>, k: int) -> bool {
    keyword_at(t, k, "SELECT"@) && keyword_at(t, k + 1, "DISTINCT"@) && keyword_at(t, k + 2, "ON"@)
}

/// Whether a `SELECT` begins before the `i`-th token, with or without `ALL` or `DISTINCT`.
pub open spec fn selects_before(t: Seq<SqlToken>, i: int) -> bool {
    ||| keyword_at(t, i - 1, "SELECT"@)
    ||| keyword_at(t, i - 2, "SELECT"@) && (keyword_at(t, i - 1, "ALL"@) || keyword_at(
        t,
        i - 1,
        "DISTINCT"@,
    ))
    ||| 0 < i <= t.len() && t[i - 1] is RightParenthesis && exists|k: int|
        0 <= k < i && #[trigger] selects_distinct_on(t, k)
}

/// Whether the number of rows of a `SELECT` at the `i`-th token is out of range.
pub open spec fn bad_top(t: Seq<SqlToken>, i: int) -> bool {
    keyword_at(t, i, "TOP"@) && beyond(t, i + 1, u64::MAX as int) && selects_before(t, i)
}

/// Whether the `i`-th token is a text literal.
pub open spec fn literal_at(t: Seq<SqlToken>, i: int) -> bool {
    0 <= i < t.len() && (t[i] is SingleQuoted || t[i] is DoubleQuoted || t[i] is Escaped
        || keyword_at(t, i, "NoKeyword"@))
}

/// Whether a location stands between the `k`-th token and the end of its statement outside
/// parentheses, `open` of which are open.
pub open spec fn locates(t: Seq<SqlToken>, k: int, open: int) -> bool
    decreases t.len() - k,
{
    if !(0 <= k < t.len()) || t[k] is Semicolon {
        false
    } else if open == 0 && keyword_at(t, k, "LOCATION"@) && literal_at(t, k + 1) {
        true
    } else {
        locates(t, k + 1, open + nesting(t[k]))
    }
}

/// Whether a table with outer storage but without a location is created inside another
/// statement, whose text cannot be rendered then.
pub open spec fn bad_storage(t: Seq<SqlToken>, i: int) -> bool {
    &&& keyword_at(t, i, "EXTERNAL"@)
    &&& keyword_at(t, i + 1, "TABLE"@)
    &&& creates(t, i)
    &&& nested(t, i)
    &&& !locates(t, i + 2, 0)
}

/// Whether the parser may not return because of what begins at the `i`-th token.
pub open spec fn upsets(t: Seq<SqlToken>, i: int) -> bool {
    ||| bad_repetition(t, i)
    ||| bad_offset(t, i)
    ||| bad_channel(t, i)
    ||| bad_grantor(t, i)
    ||| bad_top(t, i)
    ||| bad_storage(t, i)
}

/// The first token from the `i`-th on because of which the parser may not return.
pub open spec fn upset_from(t: Seq<SqlToken>, i: int) -> Option<int>
    decreases t.len() - i,
{
    if !(0 <= i < t.len()) {
        None
    } else if upsets(t, i) {
        Some(i)
    } else {
        upset_from(t, i + 1)
    }
}

/// Whether the parser returns on a text of tokens.
pub open spec fn accepted(tokens: Seq<LocatedToken>) -> bool {
    upset_from(visible(tokens), 0) is None
}

/// Where the character at a line and a column stands in a text, the `i`-th of which stands at
/// the given ones.
pub open spec fn place_from(
    sql: Seq<char>,
    line: u64,
    column: u64,
    i: int,
    at_line: int,
    at_column: int,
) -> int
    decreases sql.len() - i,
{
    if !(0 <= i < sql.len()) || (at_line == line && at_column == column) {
        i
    } else if sql[i] == '\n' {
        place_from(sql, line, column, i + 1, at_line + 1, 1)
    } else {
        place_from(sql, line, column, i + 1, at_line, at_column + 1)
    }
}

/// The part of a text before the first token because of which the parser may not return.
pub open spec fn readable_part(sql: Seq<char>, tokens: Seq<LocatedToken>) -> Seq<char> {
    match upset_from(visible(tokens), 0) {
        None => sql,
        Some(i) => {
            let token = tokens[places(tokens, tokens.len() as int)[i] as int];
            sql.take(place_from(sql, token.line, token.column, 0, 1, 1))
        },
    }
}

/// Whether the parser returns on a text. A text that cannot be divided into tokens is refused
/// by the parser too.
pub open spec fn parses_without_panic(sql: Seq<char>) -> bool {
    match tokenized(sql) {
        Ok(tokens) => accepted(tokens),
        Err(_) => true,
    }
}

impl<'a> Visible<'a> {
    spec fn wf(&self) -> bool {
        &&& self.places@ == places(self.tokens@, self.tokens.len() as int)
        &&& forall|i: int| 0 <= i < self.places.len() ==> #[trigger] self.places[i] < self.tokens.len()
    }

    spec fn view(&self) -> Seq<SqlToken> {
        visible(self.tokens@)
    }

    fn new(tokens: &'a Vec<LocatedToken>) -> (v: Visible<'a>)
        ensures
            v.wf(),
            v.tokens == tokens,
            v@ == visible(tokens@),
    {
        let mut kept: Vec<usize> = Vec::new();
        let mut i: usize = 0;
        while i < tokens.len()
            invariant
                i <= tokens.len(),
                kept@ == places(tokens@, i as int),
                forall|k: int| 0 <= k < kept.len() ==> #[trigger] kept[k] < tokens.len(),
            decreases tokens.len() - i,
        {
            if !matches!(tokens[i].token, SqlToken::Space) {
                kept.push(i);
            }
            i = i + 1;
        }
        Visible { tokens, places: kept }
    }

    fn len(&self) -> (n: usize)
        requires
            self.wf(),
        ensures
            n == self@.len(),
    {
        self.places.len()
    }

    fn get(&self, i: usize, k: usize) -> (r: Option<&SqlToken>)
        requires
            self.wf(),
            i <= self@.len(),
        ensures
            match r {
                Some(token) => i + k < self@.len() && *token == self@[i + k],
                None => i + k >= self@.len(),
            },
    {
        if k < self.places.len() - i {
            Some(&self.tokens[self.places[i + k]].token)
        } else {
            None
        }
    }

    fn keyword(&self, i: usize, k: usize, name: &str) -> (r: bool)
        requires
            self.wf(),
            i <= self@.len(),
        ensures
            r == keyword_at(self@, i + k, name@),
    {
        match self.get(i, k) {
            Some(SqlToken::Word { keyword }) => same_text(keyword.as_str(), name),
            _ => false,
        }
    }

    fn number_beyond(&self, i: usize, k: usize, max: u64) -> (r: bool)
        requires
            self.wf(),
            i <= self@.len(),
        ensures
            r == beyond(self@, i + k, max as int),
    {
        match self.get(i, k) {
            Some(SqlToken::Number(s)) => !digits_within(s.as_str(), max),
            _ => false,
        }
    }

    fn identifier(&self, i: usize, k: usize) -> (r: bool)
        requires
            self.wf(),
            i <= self@.len(),
        ensures
            r == identifier_at(self@, i + k),
    {
        match self.get(i, k) {
            Some(SqlToken::Word { .. }) => true,
            Some(SqlToken::SingleQuoted) => true,
            Some(SqlToken::DoubleQuoted) => true,
            _ => false,
        }
    }

    fn comma(&self, i: usize, k: usize) -> (r: bool)
        requires
            self.wf(),
            i <= self@.len(),
        ensures
            r == (i + k < self@.len() && self@[i + k] is Comma),
    {
        match self.get(i, k) {
            Some(SqlToken::Comma) => true,
            _ => false,
        }
    }

    fn name(&self, start: usize) -> (r: bool)
        requires
            self.wf(),
            start <= self@.len(),
        ensures
            r == name_at(self@, start as int),
    {
        let mut i: usize = start;
        while i < self.len()
            invariant
                self.wf(),
                start <= i <= self@.len(),
                name_at(self@, start as int) == name_at(self@, i as int),
            decreases self@.len() - i,
        {
            if !self.identifier(i, 0) {
                return false;
            }
            let more = match self.get(i, 1) {
                Some(SqlToken::Period) => true,
                _ => false,
            };
            if !more {
                return true;
            }
            i = i + 2;
        }
        false
    }

    fn start(&self, at: usize) -> (r: usize)
        requires
            self.wf(),
            at <= self@.len(),
        ensures
            r == statement_start(self@, at as int),
            r <= at,
    {
        let mut i: usize = at;
        while i > 0
            invariant
                self.wf(),
                i <= at <= self@.len(),
                statement_start(self@, at as int) == statement_start(self@, i as int),
            decreases i,
        {
            let ends = match self.get(i - 1, 0) {
                Some(SqlToken::Semicolon) => true,
                _ => false,
            };
            if ends {
                return i;
            }
            i = i - 1;
        }
        i
    }

    fn holds(&self, from: usize, to: usize, name: &str) -> (r: bool)
        requires
            self.wf(),
            to <= self@.len(),
        ensures
            r == holds_keyword(self@, from as int, to as int, name@),
    {
        let mut i: usize = from;
        while i < to
            invariant
                self.wf(),
                to <= self@.len(),
                from <= i,
                forall|k: int| from <= k < i ==> !#[trigger] keyword_at(self@, k, name@),
            decreases to - i,
        {
            if self.keyword(i, 0, name) {
                return true;
            }
            i = i + 1;
        }
        false
    }

    fn may_create(&self, i: usize) -> (r: bool)
        requires
            self.wf(),
            i <= self@.len(),
        ensures
            r == creates(self@, i as int),
    {
        let start = self.start(i);
        !self.keyword(start, 0, "SELECT") && self.holds(start, i, "CREATE")
    }

    fn may_be_nested(&self, i: usize) -> (r: bool)
        requires
            self.wf(),
            i <= self@.len(),
        ensures
            r == nested(self@, i as int),
    {
        let start = self.start(i);
        self.holds(0, i, "PROCEDURE") || self.keyword(start, 0, "EXPLAIN") || self.keyword(
            start,
            0,
            "DESCRIBE",
        ) || self.keyword(start, 0, "DESC") || self.keyword(start, 0, "PREPARE")
    }

    fn behind(&self, i: usize, k: usize, name: &str) -> (r: bool)
        requires
            self.wf(),
            i <= self@.len(),
        ensures
            r == keyword_at(self@, i - k, name@),
    {
        k <= i && self.keyword(i - k, 0, name)
    }

    fn number(&self, i: usize, k: usize) -> (r: bool)
        requires
            self.wf(),
            i <= self@.len(),
        ensures
            r == (i + k < self@.len() && self@[i + k] is Number),
    {
        match self.get(i, k) {
            Some(SqlToken::Number(_)) => true,
            _ => false,
        }
    }

    fn right_brace(&self, i: usize, k: usize) -> (r: bool)
        requires
            self.wf(),
            i <= self@.len(),
        ensures
            r == (i + k < self@.len() && self@[i + k] is RightBrace),
    {
        match self.get(i, k) {
            Some(SqlToken::RightBrace) => true,
            _ => false,
        }
    }

    fn repetition(&self, i: usize) -> (r: bool)
        requires
            self.wf(),
            i < self@.len(),
        ensures
            r == bad_repetition(self@, i as int),
    {
        let max = u32::MAX as u64;
        let braced = match self.get(i, 0) {
            Some(SqlToken::LeftBrace) => true,
            _ => false,
        };
        if !braced {
            return false;
        }
        let both = self.number(i, 1) && self.comma(i, 2) && self.number(i, 3) && self.right_brace(
            i,
            4,
        );
        let bad = (self.right_brace(i, 2) && self.number_beyond(i, 1, max)) || (self.right_brace(
            i,
            3,
        ) && self.comma(i, 1) && self.number_beyond(i, 2, max)) || (self.right_brace(i, 3)
            && self.comma(i, 2) && self.number_beyond(i, 1, max)) || (both && (self.number_beyond(
            i,
            1,
            max,
        ) || self.number_beyond(i, 3, max)));
        bad && self.holds(self.start(i), i, "MATCH_RECOGNIZE")
    }

    /// Whether more parentheses open between two places than close.
    fn deepens(&self, from: usize, to: usize) -> (r: bool)
        requires
            self.wf(),
            to <= self@.len(),
        ensures
            r == (depth(self@, from as int, to as int) > 0),
    {
        let mut opened: usize = 0;
        let mut closed: usize = 0;
        let mut i: usize = from;
        while i < to
            invariant
                self.wf(),
                to <= self@.len(),
                from <= i,
                i <= to || i == from,
                opened <= i - from,
                closed <= i - from,
                depth(self@, from as int, i as int) == opened - closed,
            decreases to - i,
        {
            match self.get(i, 0) {
                Some(SqlToken::LeftParenthesis) => {
                    opened = opened + 1;
                },
                Some(SqlToken::RightParenthesis) => {
                    closed = closed + 1;
                },
                _ => {},
            }
            i = i + 1;
        }
        opened > closed
    }

    fn between_parentheses(&self, i: usize) -> (r: bool)
        requires
            self.wf(),
            i <= self@.len(),
        ensures
            r == enclosed(self@, i as int),
    {
        let start = self.start(i);
        self.deepens(start, i) && !self.holds(start, i, "LIKE") && !self.holds(start, i, "ILIKE")
            && !self.holds(start, i, "CLONE")
    }

    fn offset(&self, i: usize) -> (r: bool)
        requires
            self.wf(),
            i < self@.len(),
        ensures
            r == bad_offset(self@, i as int),
    {
        let equals = match self.get(i, 1) {
            Some(SqlToken::Equals) => true,
            _ => false,
        };
        let ahead: usize = if equals { 2 } else { 1 };
        self.keyword(i, 0, "AUTO_INCREMENT") && self.number_beyond(i, ahead, u32::MAX as u64)
            && self.may_create(i) && !self.between_parentheses(i)
    }

    fn channel(&self, i: usize) -> (r: bool)
        requires
            self.wf(),
            i < self@.len(),
        ensures
            r == bad_channel(self@, i as int),
    {
        let logs = self.keyword(i, 0, "RELAY") && self.keyword(i, 1, "LOGS") && self.keyword(
            i,
            2,
            "FOR",
        ) && self.keyword(i, 3, "CHANNEL");
        if !logs {
            return false;
        }
        let flush = self.behind(i, 1, "FLUSH") || (self.behind(i, 2, "FLUSH") && (self.behind(
            i,
            1,
            "LOCAL",
        ) || self.behind(i, 1, "NO_WRITE_TO_BINLOG")));
        flush && !self.name(i + 4)
    }

    fn grantor(&self, i: usize) -> (r: bool)
        requires
            self.wf(),
            i < self@.len(),
        ensures
            r == bad_grantor(self@, i as int),
    {
        if !(self.keyword(i, 0, "GRANTED") && self.keyword(i, 1, "BY")) {
            return false;
        }
        let start = self.start(i);
        (self.holds(start, i, "GRANT") || self.holds(start, i, "REVOKE")) && !self.identifier(i, 2)
    }

    fn distinct_on(&self, to: usize) -> (r: bool)
        requires
            self.wf(),
            to <= self@.len(),
        ensures
            r == exists|k: int| 0 <= k < to && #[trigger] selects_distinct_on(self@, k),
    {
        let mut k: usize = 0;
        while k < to
            invariant
                self.wf(),
                k <= to <= self@.len(),
                forall|j: int| 0 <= j < k ==> !#[trigger] selects_distinct_on(self@, j),
            decreases to - k,
        {
            if self.keyword(k, 0, "SELECT") && self.keyword(k, 1, "DISTINCT") && self.keyword(
                k,
                2,
                "ON",
            ) {
                assert(selects_distinct_on(self@, k as int));
                return true;
            }
            k = k + 1;
        }
        false
    }

    fn top(&self, i: usize) -> (r: bool)
        requires
            self.wf(),
            i < self@.len(),
        ensures
            r == bad_top(self@, i as int),
    {
        if !(self.keyword(i, 0, "TOP") && self.number_beyond(i, 1, u64::MAX)) {
            return false;
        }
        let closes = i > 0 && match self.get(i - 1, 0) {
            Some(SqlToken::RightParenthesis) => true,
            _ => false,
        };
        self.behind(i, 1, "SELECT") || (self.behind(i, 2, "SELECT") && (self.behind(i, 1, "ALL")
            || self.behind(i, 1, "DISTINCT"))) || (closes && self.distinct_on(i))
    }

    fn literal(&self, i: usize, k: usize) -> (r: bool)
        requires
            self.wf(),
            i <= self@.len(),
        ensures
            r == literal_at(self@, i + k),
    {
        match self.get(i, k) {
            Some(SqlToken::SingleQuoted) => true,
            Some(SqlToken::DoubleQuoted) => true,
            Some(SqlToken::Escaped) => true,
            _ => self.keyword(i, k, "NoKeyword"),
        }
    }

    fn located(&self, from: usize) -> (r: bool)
        requires
            self.wf(),
            from <= self@.len(),
        ensures
            r == locates(self@, from as int, 0),
    {
        let mut opened: usize = 0;
        let mut closed: usize = 0;
        let mut k: usize = from;
        while k < self.len()
            invariant
                self.wf(),
                from <= k <= self@.len(),
                opened <= k - from,
                closed <= k - from,
                locates(self@, from as int, 0) == locates(self@, k as int, opened - closed),
            decreases self@.len() - k,
        {
            if opened == closed && self.keyword(k, 0, "LOCATION") && self.literal(k, 1) {
                return true;
            }
            match self.get(k, 0) {
                Some(SqlToken::Semicolon) => {
                    return false;
                },
                Some(SqlToken::LeftParenthesis) => {
                    opened = opened + 1;
                },
                Some(SqlToken::RightParenthesis) => {
                    closed = closed + 1;
                },
                _ => {},
            }
            k = k + 1;
        }
        false
    }

    fn storage(&self, i: usize) -> (r: bool)
        requires
            self.wf(),
            i < self@.len(),
        ensures
            r == bad_storage(self@, i as int),
    {
        self.keyword(i, 0, "EXTERNAL") && self.keyword(i, 1, "TABLE") && self.may_create(i)
            && self.may_be_nested(i) && !self.located(i + 2)
    }

    fn upset(&self, i: usize) -> (r: bool)
        requires
            self.wf(),
            i < self@.len(),
        ensures
            r == upsets(self@, i as int),
    {
        self.repetition(i) || self.offset(i) || self.channel(i) || self.grantor(i) || self.top(i)
            || self.storage(i)
    }
}

/// Finds the first token because of which the parser may not return, and gives its number among
/// all tokens.
fn first_upset(tokens: &Vec<LocatedToken>) -> (r: Option<usize>)
    ensures
        match r {
            Some(at) => {
                &&& at < tokens.len()
                &&& upset_from(visible(tokens@), 0) matches Some(i)
                &&& at == places(tokens@, tokens.len() as int)[i]
            },
            None => accepted(tokens@),
        },
{
    let view = Visible::new(tokens);
    let ghost t = visible(tokens@);
    let mut i: usize = 0;
    while i < view.len()
        invariant
            view.wf(),
            view.tokens == tokens,
            view@ == t,
            t == visible(tokens@),
            i <= t.len(),
            upset_from(t, 0) == upset_from(t, i as int),
        decreases t.len() - i,
    {
        if view.upset(i) {
            return Some(view.places[i]);
        }
        i = i + 1;
    }
    None
}

/// Decides whether the parser returns on a text of tokens.
pub fn parser_accepts(tokens: &Vec<LocatedToken>) -> (r: bool)
    ensures
        r == accepted(tokens@),
{
    first_upset(tokens).is_none()
}

fn find_place(chars: &Vec<char>, line: u64, column: u64) -> (at: usize)
    ensures
        at == place_from(chars@, line, column, 0, 1, 1),
        at <= chars.len(),
{
    let mut lines: u64 = 0;
    let mut columns: u64 = 0;
    let mut i: usize = 0;
    while i < chars.len() && !(line > 0 && column > 0 && lines == line - 1 && columns == column - 1)
        invariant
            i <= chars.len(),
            lines <= i,
            columns <= i,
            place_from(chars@, line, column, 0, 1, 1) == place_from(
                chars@,
                line,
                column,
                i as int,
                lines + 1,
                columns + 1,
            ),
        decreases chars.len() - i,
    {
        if chars[i] == '\n' {
            lines = lines + 1;
            columns = 0;
        } else {
            columns = columns + 1;
        }
        i = i + 1;
    }
    i
}

/// Cuts a text before the first token because of which the parser may not return.
pub fn part_before_upset(sql: &str, tokens: &Vec<LocatedToken>) -> (part: String)
    ensures
        part@ == readable_part(sql@, tokens@),
{
    let chars = chars_of(sql);
    let end = match first_upset(tokens) {
        Some(at) => find_place(&chars, tokens[at].line, tokens[at].column),
        None => chars.len(),
    };
    let part = string_from(&chars, 0, end);
    assert(part@ =~= readable_part(sql@, tokens@));
    part
}

} // verus!
