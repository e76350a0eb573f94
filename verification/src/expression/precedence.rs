//! How operators bind.

use vstd::prelude::*;
use crate::expression::lexing::{continues_word, ends, token_at, tokens_from, tokens_of, word_end, Lexeme, Placed, Symbol};
use crate::expression::parsing::{expression_of, arguments_rest, branches_rest, case_at, case_end, cast_at, level_at, level_rest, nested_at, number_value, operator_at, primary_at, rank, symbol_at, tighter, word_at, Level};
use crate::expression::tree::{fits, BinaryOperator, Tree, UnaryOperator, MAX_EXPRESSION_DEPTH};
use crate::expression::fault::ExpressionFault;
use crate::float::FloatModel;
use crate::lexer::{begins_identifier, char_at, digit_at, digits_end, offset, pair_at, quoted_end};
use crate::scalar::is_float_text;
use crate::text::{digits, digits_round_trip, is_space, lower, space_end};
use crate::types::Datum;

verus! {

/// Whether a level has operators with two operands.
pub open spec fn is_binary(level: Level) -> bool {
    !(level is Not) && !(level is Unary)
}

/// Whether the tokens from `p` to before `q` are an expression of a level.
///
/// `OR` binds loosest, then `AND`, `NOT`, comparisons, `+` and `-`, then `*`, `/` and `%`, and
/// signs bind tightest. The left operand of an operator with two operands is of the
/// operator's own level and the right one of the next tighter level, so equal operators group
/// to the left. Parentheses hold an expression of any level and leave nothing behind.
pub open spec fn derives(
    tokens: Seq<Placed>,
    p: int,
    q: int,
    level: Level,
    t: Tree,
    m: FloatModel,
) -> bool
    decreases q - p, rank(level),
{
    0 <= p < q < tokens.len() && match level {
        Level::Not => {
            ||| derives(tokens, p, q, Level::Comparison, t, m)
            ||| word_at(tokens, p, "NOT"@) && (t matches Tree::Unary { operator, expression }
                && operator == UnaryOperator::Not && derives(
                tokens,
                p + 1,
                q,
                Level::Not,
                *expression,
                m,
            ))
        },
        Level::Unary => {
            ||| symbol_at(tokens, p, Symbol::Minus) && q == p + 2 && t == Tree::Literal(
                Datum::Int64(i64::MIN),
            )
            ||| symbol_at(tokens, p, Symbol::Minus) && (t matches Tree::Unary {
                operator,
                expression,
            } && operator == UnaryOperator::Minus && derives(
                tokens,
                p + 1,
                q,
                Level::Unary,
                *expression,
                m,
            ))
            ||| symbol_at(tokens, p, Symbol::Plus) && (t matches Tree::Unary {
                operator,
                expression,
            } && operator == UnaryOperator::Plus && derives(
                tokens,
                p + 1,
                q,
                Level::Unary,
                *expression,
                m,
            ))
            ||| symbol_at(tokens, p, Symbol::LeftParen) && symbol_at(
                tokens,
                q - 1,
                Symbol::RightParen,
            ) && derives(tokens, p + 1, q - 1, Level::Or, t, m)
            ||| !symbol_at(tokens, p, Symbol::LeftParen) && is_operand(tokens, p, q, t, m)
        },
        _ => {
            ||| derives(tokens, p, q, tighter(level), t, m)
            ||| (t matches Tree::Binary { left, operator, right } && exists|r: int|
                p < r < q && #[trigger] operator_at(tokens, r, level) == Some(operator) && derives(
                    tokens,
                    p,
                    r,
                    level,
                    *left,
                    m,
                ) && derives(tokens, r + 1, q, tighter(level), *right, m))
            ||| level is Comparison && (t matches Tree::IsNull { expression, negated } && p
                < null_test_start(q, negated) && tests_null(
                tokens,
                null_test_start(q, negated),
                q,
                negated,
            ) && derives(tokens, p, null_test_start(q, negated), level, *expression, m))
        },
    }
}

/// Where a test for NULL before `q` begins.
pub open spec fn null_test_start(q: int, negated: bool) -> int {
    if negated {
        q - 3
    } else {
        q - 2
    }
}

/// Whether the tokens from `r` to before `q` are `IS NULL` or `IS NOT NULL`.
pub open spec fn tests_null(tokens: Seq<Placed>, r: int, q: int, negated: bool) -> bool {
    &&& word_at(tokens, r, "IS"@)
    &&& r == null_test_start(q, negated)
    &&& negated ==> word_at(tokens, r + 1, "NOT"@)
    &&& word_at(tokens, q - 1, "NULL"@)
}

/// Whether the tokens from `p` to before `q` are an operand by themselves: a literal, a
/// column, a cast, a `CASE` or a call.
pub open spec fn is_operand(tokens: Seq<Placed>, p: int, q: int, t: Tree, m: FloatModel) -> bool {
    exists|depth: int|
        #[trigger] primary_at(tokens, p, depth, m) == Ok::<
            (Tree, int),
            ExpressionFault,
        >((t, q))
}

proof fn level_goes_on(tokens: Seq<Placed>, p: int, depth: int, level: Level, m: FloatModel)
    requires
        ends(tokens),
        0 <= p < tokens.len(),
    ensures
        level_at(tokens, p, depth, level, m) matches Ok((t, q)) ==> p < q < tokens.len(),
    decreases tokens.len() - p, rank(level),
{
    match level {
        Level::Not => {
            if word_at(tokens, p, "NOT"@) {
                level_goes_on(tokens, p + 1, depth + 1, Level::Not, m);
            } else {
                level_goes_on(tokens, p, depth, Level::Comparison, m);
            }
        },
        Level::Unary => {
            if symbol_at(tokens, p, Symbol::Minus) || symbol_at(tokens, p, Symbol::Plus) {
                assert(p + 1 < tokens.len());
                if tokens[p + 1].lexeme == Lexeme::Number("9223372036854775808"@) {
                    assert(!(tokens[p + 1].lexeme is End));
                }
                level_goes_on(tokens, p + 1, depth + 1, Level::Unary, m);
            } else {
                primary_goes_on(tokens, p, depth, m);
            }
        },
        _ => {
            level_goes_on(tokens, p, depth, tighter(level), m);
            if let Ok((t, q)) = level_at(tokens, p, depth, tighter(level), m) {
                rest_goes_on(tokens, q, depth, level, t, m);
            }
        },
    }
}

proof fn rest_goes_on(
    tokens: Seq<Placed>,
    p: int,
    depth: int,
    level: Level,
    left: Tree,
    m: FloatModel,
)
    requires
        ends(tokens),
        0 <= p < tokens.len(),
    ensures
        level_rest(tokens, p, depth, level, left, m) matches Ok((t, q)) ==> p <= q < tokens.len(),
    decreases tokens.len() - p, 0nat,
{
    match operator_at(tokens, p, level) {
        Some(operator) => {
            assert(!(tokens[p].lexeme is End));
            level_goes_on(tokens, p + 1, depth, tighter(level), m);
            if let Ok((right, q)) = level_at(tokens, p + 1, depth, tighter(level), m) {
                let t = Tree::Binary { left: Box::new(left), operator, right: Box::new(right) };
                rest_goes_on(tokens, q, depth, level, t, m);
            }
        },
        None => {
            if level == Level::Comparison && word_at(tokens, p, "IS"@) {
                assert(!(tokens[p].lexeme is End));
                let negated = word_at(tokens, p + 1, "NOT"@);
                let q = if negated { p + 2 } else { p + 1 };
                if negated {
                    assert(!(tokens[p + 1].lexeme is End));
                }
                if word_at(tokens, q, "NULL"@) {
                    assert(!(tokens[q].lexeme is End));
                    let t = Tree::IsNull { expression: Box::new(left), negated };
                    rest_goes_on(tokens, q + 1, depth, level, t, m);
                }
            }
        },
    }
}

proof fn nested_goes_on(tokens: Seq<Placed>, p: int, depth: int, m: FloatModel)
    requires
        ends(tokens),
        0 <= p < tokens.len(),
    ensures
        nested_at(tokens, p, depth, m) matches Ok((t, q)) ==> p < q < tokens.len(),
    decreases tokens.len() - p, 8nat,
{
    level_goes_on(tokens, p, depth + 1, Level::Or, m);
}

proof fn primary_goes_on(tokens: Seq<Placed>, p: int, depth: int, m: FloatModel)
    requires
        ends(tokens),
        0 <= p < tokens.len(),
    ensures
        primary_at(tokens, p, depth, m) matches Ok((t, q)) ==> p < q < tokens.len(),
    decreases tokens.len() - p, 0nat,
{
    if !(tokens[p].lexeme is End) {
        assert(p + 1 < tokens.len());
        nested_goes_on(tokens, p + 1, depth, m);
        case_goes_on(tokens, p + 1, depth, m);
        if let Lexeme::Word(word) = tokens[p].lexeme {
            if p + 2 < tokens.len() && symbol_at(tokens, p + 1, Symbol::LeftParen) {
                cast_goes_on(tokens, p + 2, depth, m);
                arguments_go_on(tokens, p + 2, depth, word, Seq::empty(), m);
                assert(symbol_at(tokens, p + 2, Symbol::RightParen) ==> !(tokens[p + 2].lexeme is End));
            }
        }
        if let Ok((t, q)) = nested_at(tokens, p + 1, depth, m) {
            assert(symbol_at(tokens, q, Symbol::RightParen) ==> !(tokens[q].lexeme is End));
        }
    }
}

proof fn cast_goes_on(tokens: Seq<Placed>, p: int, depth: int, m: FloatModel)
    requires
        ends(tokens),
        0 <= p < tokens.len(),
    ensures
        cast_at(tokens, p, depth, m) matches Ok((t, q)) ==> p < q < tokens.len(),
    decreases tokens.len() - p, 9nat,
{
    nested_goes_on(tokens, p, depth, m);
    if let Ok((t, q)) = nested_at(tokens, p, depth, m) {
        if word_at(tokens, q, "AS"@) {
            assert(!(tokens[q].lexeme is End));
            if tokens[q + 1].lexeme is Word {
                assert(!(tokens[q + 1].lexeme is End));
                if symbol_at(tokens, q + 2, Symbol::RightParen) {
                    assert(!(tokens[q + 2].lexeme is End));
                }
            }
        }
    }
}

proof fn case_goes_on(tokens: Seq<Placed>, p: int, depth: int, m: FloatModel)
    requires
        ends(tokens),
        0 <= p < tokens.len(),
    ensures
        case_at(tokens, p, depth, m) matches Ok((t, q)) ==> p < q < tokens.len(),
    decreases tokens.len() - p, 10nat,
{
    if word_at(tokens, p, "WHEN"@) {
        branches_go_on(tokens, p, depth, None, Seq::empty(), m);
    } else {
        nested_goes_on(tokens, p, depth, m);
        if let Ok((t, q)) = nested_at(tokens, p, depth, m) {
            branches_go_on(tokens, q, depth, Some(Box::new(t)), Seq::empty(), m);
        }
    }
}

proof fn branches_go_on(
    tokens: Seq<Placed>,
    p: int,
    depth: int,
    operand: Option<Box<Tree>>,
    done: Seq<(Tree, Tree)>,
    m: FloatModel,
)
    requires
        ends(tokens),
        0 <= p < tokens.len(),
    ensures
        branches_rest(tokens, p, depth, operand, done, m) matches Ok((t, q)) ==> p < q
            < tokens.len(),
    decreases tokens.len() - p, 9nat,
{
    if word_at(tokens, p, "WHEN"@) {
        assert(!(tokens[p].lexeme is End));
        nested_goes_on(tokens, p + 1, depth, m);
        if let Ok((condition, q)) = nested_at(tokens, p + 1, depth, m) {
            if word_at(tokens, q, "THEN"@) {
                assert(!(tokens[q].lexeme is End));
                nested_goes_on(tokens, q + 1, depth, m);
                if let Ok((result, r)) = nested_at(tokens, q + 1, depth, m) {
                    branches_go_on(tokens, r, depth, operand, done.push((condition, result)), m);
                }
            }
        }
    } else if word_at(tokens, p, "ELSE"@) {
        assert(!(tokens[p].lexeme is End));
        nested_goes_on(tokens, p + 1, depth, m);
        if let Ok((t, q)) = nested_at(tokens, p + 1, depth, m) {
            end_goes_on(tokens, q, operand, done, Some(Box::new(t)));
        }
    } else {
        end_goes_on(tokens, p, operand, done, None);
    }
}

proof fn end_goes_on(
    tokens: Seq<Placed>,
    p: int,
    operand: Option<Box<Tree>>,
    branches: Seq<(Tree, Tree)>,
    otherwise: Option<Box<Tree>>,
)
    requires
        ends(tokens),
        0 <= p < tokens.len(),
    ensures
        case_end(tokens, p, operand, branches, otherwise) matches Ok((t, q)) ==> p < q
            < tokens.len(),
{
    if word_at(tokens, p, "END"@) {
        assert(!(tokens[p].lexeme is End));
    }
}

proof fn arguments_go_on(
    tokens: Seq<Placed>,
    p: int,
    depth: int,
    name: Seq<char>,
    done: Seq<Tree>,
    m: FloatModel,
)
    requires
        ends(tokens),
        0 <= p < tokens.len(),
    ensures
        arguments_rest(tokens, p, depth, name, done, m) matches Ok((t, q)) ==> p < q
            < tokens.len(),
    decreases tokens.len() - p, 9nat,
{
    nested_goes_on(tokens, p, depth, m);
    if let Ok((t, q)) = nested_at(tokens, p, depth, m) {
        if symbol_at(tokens, q, Symbol::RightParen) || symbol_at(tokens, q, Symbol::Comma) {
            assert(!(tokens[q].lexeme is End));
            arguments_go_on(tokens, q + 1, depth, name, done.push(t), m);
        }
    }
}

proof fn rest_is_derived(
    tokens: Seq<Placed>,
    start: int,
    p: int,
    depth: int,
    level: Level,
    left: Tree,
    m: FloatModel,
)
    requires
        ends(tokens),
        0 <= start < p < tokens.len(),
        is_binary(level),
        derives(tokens, start, p, level, left, m),
    ensures
        level_rest(tokens, p, depth, level, left, m) matches Ok((t, q)) ==> derives(
            tokens,
            start,
            q,
            level,
            t,
            m,
        ),
    decreases tokens.len() - p, 0nat,
{
    match operator_at(tokens, p, level) {
        Some(operator) => {
            assert(!(tokens[p].lexeme is End));
            level_goes_on(tokens, p + 1, depth, tighter(level), m);
            levels_are_derived(tokens, p + 1, depth, tighter(level), m);
            if let Ok((right, q)) = level_at(tokens, p + 1, depth, tighter(level), m) {
                let t = Tree::Binary { left: Box::new(left), operator, right: Box::new(right) };
                assert(derives(tokens, start, q, level, t, m));
                rest_is_derived(tokens, start, q, depth, level, t, m);
            }
        },
        None => {
            if level == Level::Comparison && word_at(tokens, p, "IS"@) {
                assert(!(tokens[p].lexeme is End));
                let negated = word_at(tokens, p + 1, "NOT"@);
                let q = if negated { p + 2 } else { p + 1 };
                if negated {
                    assert(!(tokens[p + 1].lexeme is End));
                }
                if word_at(tokens, q, "NULL"@) {
                    assert(!(tokens[q].lexeme is End));
                    let t = Tree::IsNull { expression: Box::new(left), negated };
                    assert(tests_null(tokens, p, q + 1, negated));
                    assert(derives(tokens, start, q + 1, level, t, m));
                    rest_is_derived(tokens, start, q + 1, depth, level, t, m);
                }
            }
        },
    }
}

/// What is parsed at a level is an expression of that level.
pub proof fn levels_are_derived(tokens: Seq<Placed>, p: int, depth: int, level: Level, m: FloatModel)
    requires
        ends(tokens),
        0 <= p < tokens.len(),
    ensures
        level_at(tokens, p, depth, level, m) matches Ok((t, q)) ==> derives(
            tokens,
            p,
            q,
            level,
            t,
            m,
        ),
    decreases tokens.len() - p, rank(level),
{
    level_goes_on(tokens, p, depth, level, m);
    match level {
        Level::Not => {
            if word_at(tokens, p, "NOT"@) {
                assert(!(tokens[p].lexeme is End));
                levels_are_derived(tokens, p + 1, depth + 1, Level::Not, m);
            } else {
                levels_are_derived(tokens, p, depth, Level::Comparison, m);
            }
        },
        Level::Unary => {
            if symbol_at(tokens, p, Symbol::Minus) || symbol_at(tokens, p, Symbol::Plus) {
                assert(!(tokens[p].lexeme is End));
                levels_are_derived(tokens, p + 1, depth + 1, Level::Unary, m);
            } else if symbol_at(tokens, p, Symbol::LeftParen) {
                assert(!(tokens[p].lexeme is End));
                nested_goes_on(tokens, p + 1, depth, m);
                levels_are_derived(tokens, p + 1, depth + 1, Level::Or, m);
            } else if let Ok((t, q)) = primary_at(tokens, p, depth, m) {
                assert(is_operand(tokens, p, q, t, m));
            }
        },
        _ => {
            level_goes_on(tokens, p, depth, tighter(level), m);
            levels_are_derived(tokens, p, depth, tighter(level), m);
            if let Ok((t, q)) = level_at(tokens, p, depth, tighter(level), m) {
                rest_is_derived(tokens, p, q, depth, level, t, m);
            }
        },
    }
}

proof fn word_stays(s: Seq<char>, i: int)
    requires
        0 <= i <= s.len(),
    ensures
        i <= word_end(s, i) <= s.len(),
    decreases s.len() - i,
{
    if i < s.len() && continues_word(s[i]) {
        word_stays(s, i + 1);
    }
}

proof fn digits_stay(s: Seq<char>, i: int)
    requires
        0 <= i <= s.len(),
    ensures
        i <= digits_end(s, i) <= s.len(),
    decreases s.len() - i,
{
    if digit_at(s, i) {
        digits_stay(s, i + 1);
    }
}

proof fn spaces_stay(s: Seq<char>, i: int)
    requires
        0 <= i <= s.len(),
    ensures
        i <= space_end(s, i) <= s.len(),
    decreases s.len() - i,
{
    if i < s.len() && is_space(s[i]) {
        spaces_stay(s, i + 1);
    }
}

proof fn quoted_stays(s: Seq<char>, i: int, quote: char, done: Seq<char>)
    requires
        0 <= i <= s.len(),
    ensures
        quoted_end(s, i, quote, done) matches Some((text, end)) ==> i < end <= s.len(),
    decreases s.len() - i,
{
    if i < s.len() {
        if s[i] == quote {
            if pair_at(s, i, quote, quote) {
                quoted_stays(s, i + 2, quote, done.push(quote));
            }
        } else {
            quoted_stays(s, i + 1, quote, done.push(s[i]));
        }
    }
}

proof fn token_stays(s: Seq<char>, i: int)
    requires
        0 <= i < s.len(),
    ensures
        token_at(s, i) matches Ok((lexeme, end)) ==> i < end <= s.len() && !(lexeme is End),
{
    quoted_stays(s, i + 1, '\'', Seq::empty());
    quoted_stays(s, i + 1, '"', Seq::empty());
    word_stays(s, i);
    if begins_identifier(s[i]) {
        word_stays(s, i + 1);
    }
    digits_stay(s, i);
    if digit_at(s, i) {
        digits_stay(s, i + 1);
    }
    let whole = digits_end(s, i);
    if char_at(s, whole, '.') {
        digits_stay(s, whole + 1);
    }
    let mantissa = if char_at(s, whole, '.') { digits_end(s, whole + 1) } else { whole };
    let digits = if char_at(s, mantissa + 1, '+') || char_at(s, mantissa + 1, '-') {
        mantissa + 2
    } else {
        mantissa + 1
    };
    if digit_at(s, digits) {
        digits_stay(s, digits);
    }
}

proof fn tokens_end(s: Seq<char>, i: int, done: Seq<Placed>)
    requires
        0 <= i <= s.len(),
        forall|k: int| 0 <= k < done.len() ==> !((#[trigger] done[k]).lexeme is End),
    ensures
        tokens_from(s, i, done) matches Ok(tokens) ==> ends(tokens),
    decreases s.len() - i,
{
    spaces_stay(s, i);
    let j = space_end(s, i);
    if j < s.len() {
        token_stays(s, j);
        if let Ok((lexeme, end)) = token_at(s, j) {
            tokens_end(s, end, done.push(Placed { lexeme, position: offset(s, j) as usize }));
        }
    }
}

/// The tokens of a text are, by the precedence of its operators, the expression that the text
/// is parsed as.
pub proof fn precedence_decides(s: Seq<char>, m: FloatModel)
    ensures
        expression_of(s, m) matches Ok(t) ==> (tokens_of(s) matches Ok(tokens) && derives(
            tokens,
            0,
            tokens.len() - 1,
            Level::Or,
            t,
            m,
        )),
{
    tokens_end(s, 0, Seq::empty());
    if let Ok(tokens) = tokens_of(s) {
        levels_are_derived(tokens, 0, 1, Level::Or, m);
        level_goes_on(tokens, 0, 1, Level::Or, m);
    }
}

/// The tree of an operand of one token that is no keyword.
pub open spec fn plain_operand(lexeme: Lexeme, m: FloatModel) -> Option<Tree> {
    match lexeme {
        Lexeme::Number(s) => match number_value(m, s) {
            Ok(d) => Some(Tree::Literal(d)),
            Err(_) => None,
        },
        Lexeme::Text(s) => Some(Tree::Literal(Datum::Text(s))),
        Lexeme::QuotedIdentifier(name) => Some(Tree::QuotedColumn(name)),
        Lexeme::Word(word) => if is_keyword(word) {
            None
        } else {
            Some(Tree::Column(word))
        },
        _ => None,
    }
}

/// Whether a word begins something other than a column.
pub open spec fn is_keyword(word: Seq<char>) -> bool {
    ||| lower(word) == lower("NOT"@)
    ||| lower(word) == lower("NULL"@)
    ||| lower(word) == lower("TRUE"@)
    ||| lower(word) == lower("FALSE"@)
    ||| lower(word) == lower("CAST"@)
    ||| lower(word) == lower("CASE"@)
}

/// The tokens of lexemes, with the end behind them.
pub open spec fn ended(lexemes: Seq<Lexeme>) -> Seq<Placed> {
    lexemes.push(Lexeme::End).map_values(|lexeme: Lexeme| Placed { lexeme, position: 0 })
}

/// Whether the tokens of a text are lexemes and the end.
pub open spec fn spells(s: Seq<char>, lexemes: Seq<Lexeme>) -> bool {
    tokens_of(s) matches Ok(tokens) && {
        &&& tokens.len() == lexemes.len() + 1
        &&& forall|i: int| 0 <= i < lexemes.len() ==> (#[trigger] tokens[i]).lexeme == lexemes[i]
        &&& tokens[lexemes.len() as int].lexeme is End
    }
}

/// The tree of an operator and its operands.
pub open spec fn joined(left: Tree, operator: BinaryOperator, right: Tree) -> Tree {
    Tree::Binary { left: Box::new(left), operator, right: Box::new(right) }
}

/// Whether no operator of a level stands at a position.
spec fn quiet(tokens: Seq<Placed>, q: int, level: Level) -> bool {
    operator_at(tokens, q, level) is None && !(level is Comparison && word_at(tokens, q, "IS"@))
}

/// Whether every level above one and up to another is quiet at a position.
spec fn quiet_between(tokens: Seq<Placed>, q: int, low: Level, high: Level) -> bool {
    forall|level: Level|
        rank(low) < rank(level) <= rank(high) ==> #[trigger] quiet(tokens, q, level)
}

proof fn levels_rise(
    tokens: Seq<Placed>,
    p: int,
    q: int,
    depth: int,
    low: Level,
    high: Level,
    t: Tree,
    m: FloatModel,
)
    requires
        0 <= p < q < tokens.len(),
        level_at(tokens, p, depth, low, m) == Ok::<_, ExpressionFault>((t, q)),
        rank(low) <= rank(high),
        quiet_between(tokens, q, low, high),
        rank(low) < rank(Level::Not) ==> !word_at(tokens, p, "NOT"@),
    ensures
        level_at(tokens, p, depth, high, m) == Ok::<_, ExpressionFault>((t, q)),
    decreases rank(high),
{
    if low != high {
        assert(rank(low) < rank(high));
        assert(rank(tighter(high)) == rank(high) - 1);
        levels_rise(tokens, p, q, depth, low, tighter(high), t, m);
        assert(quiet(tokens, q, high));
        assert(level_rest(tokens, q, depth, high, t, m) == Ok::<_, ExpressionFault>((t, q)));
    }
}

proof fn operators_differ(tokens: Seq<Placed>, q: int, level: Level)
    requires
        operator_at(tokens, q, level) is Some,
    ensures
        forall|other: Level| other != level ==> #[trigger] quiet(tokens, q, other),
        quiet(tokens, q, level) == false,
{
    reveal_strlit("OR");
    reveal_strlit("AND");
    reveal_strlit("IS");
    assert(lower("OR"@).len() == 2 && lower("AND"@).len() == 3 && lower("IS"@).len() == 2);
    assert(lower("OR"@)[0] == 'o' && lower("IS"@)[0] == 'i');
}

proof fn end_is_quiet(tokens: Seq<Placed>, q: int)
    requires
        tokens[q].lexeme is End || symbol_at(tokens, q, Symbol::RightParen),
    ensures
        forall|level: Level| #[trigger] quiet(tokens, q, level),
{
}

proof fn operand_rises(tokens: Seq<Placed>, p: int, depth: int, high: Level, t: Tree, m: FloatModel)
    requires
        0 <= p,
        p + 1 < tokens.len(),
        plain_operand(tokens[p].lexeme, m) == Some(t),
        !symbol_at(tokens, p + 1, Symbol::LeftParen),
        quiet_between(tokens, p + 1, Level::Unary, high),
    ensures
        level_at(tokens, p, depth, high, m) == Ok::<_, ExpressionFault>((t, p + 1)),
{
    assert(primary_at(tokens, p, depth, m) == Ok::<_, ExpressionFault>((t, p + 1)));
    assert(level_at(tokens, p, depth, Level::Unary, m) == Ok::<_, ExpressionFault>((t, p + 1)));
    levels_rise(tokens, p, p + 1, depth, Level::Unary, high, t, m);
}

/// Two operands of one token with an operator between them, up to any looser level.
proof fn pair_rises(
    tokens: Seq<Placed>,
    p: int,
    depth: int,
    level: Level,
    high: Level,
    left: Tree,
    right: Tree,
    m: FloatModel,
)
    requires
        0 <= p,
        p + 3 < tokens.len(),
        plain_operand(tokens[p].lexeme, m) == Some(left),
        plain_operand(tokens[p + 2].lexeme, m) == Some(right),
        operator_at(tokens, p + 1, level) is Some,
        rank(level) <= rank(high),
        !symbol_at(tokens, p + 3, Symbol::LeftParen),
        quiet_between(tokens, p + 3, Level::Unary, high),
    ensures
        level_at(tokens, p, depth, high, m) == Ok::<_, ExpressionFault>(
            (joined(left, operator_at(tokens, p + 1, level).unwrap(), right), p + 3),
        ),
{
    let t = joined(left, operator_at(tokens, p + 1, level).unwrap(), right);
    operators_differ(tokens, p + 1, level);
    assert(is_binary(level));
    assert(rank(tighter(level)) == rank(level) - 1);
    operand_rises(tokens, p, depth, tighter(level), left, m);
    operand_rises(tokens, p + 2, depth, tighter(level), right, m);
    assert(quiet(tokens, p + 3, level));
    reveal_with_fuel(fits, 3);
    assert(fits(t, MAX_EXPRESSION_DEPTH as nat));
    assert(level_rest(tokens, p + 3, depth, level, t, m) == Ok::<_, ExpressionFault>((t, p + 3)));
    assert(level_rest(tokens, p + 1, depth, level, left, m) == Ok::<_, ExpressionFault>((t, p + 3)));
    assert(level_at(tokens, p, depth, level, m) == Ok::<_, ExpressionFault>((t, p + 3)));
    levels_rise(tokens, p, p + 3, depth, level, high, t, m);
}

/// Of two operators the one that binds tighter takes the operand between them; of two that
/// bind alike, the left one. Parentheses round what an operator takes change nothing.
pub proof fn operators_share_operands(
    s: Seq<char>,
    grouped: Seq<char>,
    a: Lexeme,
    x: Lexeme,
    b: Lexeme,
    y: Lexeme,
    c: Lexeme,
    first: Level,
    second: Level,
    m: FloatModel,
)
    requires
        plain_operand(a, m) is Some,
        plain_operand(b, m) is Some,
        plain_operand(c, m) is Some,
        operator_at(ended(seq![a, x]), 1, first) is Some,
        operator_at(ended(seq![b, y]), 1, second) is Some,
        spells(s, seq![a, x, b, y, c]),
        ({
            let open = Lexeme::Symbol(Symbol::LeftParen);
            let close = Lexeme::Symbol(Symbol::RightParen);
            if rank(second) < rank(first) {
                spells(grouped, seq![a, x, open, b, y, c, close])
            } else {
                spells(grouped, seq![open, a, x, b, close, y, c])
            }
        }),
    ensures
        ({
            let (ta, tb, tc) = (
                plain_operand(a, m).unwrap(),
                plain_operand(b, m).unwrap(),
                plain_operand(c, m).unwrap(),
            );
            let ox = operator_at(ended(seq![a, x]), 1, first).unwrap();
            let oy = operator_at(ended(seq![b, y]), 1, second).unwrap();
            let t = if rank(second) < rank(first) {
                joined(ta, ox, joined(tb, oy, tc))
            } else {
                joined(joined(ta, ox, tb), oy, tc)
            };
            &&& expression_of(s, m) == Ok::<_, ExpressionFault>(t)
            &&& expression_of(grouped, m) == Ok::<_, ExpressionFault>(t)
        }),
{
    let (ta, tb, tc) = (
        plain_operand(a, m).unwrap(),
        plain_operand(b, m).unwrap(),
        plain_operand(c, m).unwrap(),
    );
    let open = Lexeme::Symbol(Symbol::LeftParen);
    let close = Lexeme::Symbol(Symbol::RightParen);
    let ox = operator_at(ended(seq![a, x]), 1, first).unwrap();
    let oy = operator_at(ended(seq![b, y]), 1, second).unwrap();
    let plain = tokens_of(s)->Ok_0;
    let nested = tokens_of(grouped)->Ok_0;
    assert(operator_at(plain, 1, first) == Some(ox));
    assert(operator_at(plain, 3, second) == Some(oy));
    operators_differ(plain, 1, first);
    operators_differ(plain, 3, second);
    end_is_quiet(plain, 5);
    reveal_with_fuel(fits, 4);
    assert(rank(tighter(first)) == rank(first) - 1);
    assert(rank(tighter(second)) == rank(second) - 1);
    if rank(second) < rank(first) {
        let inner = joined(tb, oy, tc);
        let t = joined(ta, ox, inner);
        assert(fits(t, MAX_EXPRESSION_DEPTH as nat));
        operand_rises(plain, 0, 1, tighter(first), ta, m);
        pair_rises(plain, 2, 1, second, tighter(first), tb, tc, m);
        assert(quiet(plain, 5, first));
        assert(level_rest(plain, 5, 1, first, t, m) == Ok::<_, ExpressionFault>((t, 5int)));
        assert(level_rest(plain, 1, 1, first, ta, m) == Ok::<_, ExpressionFault>((t, 5int)));
        assert(level_at(plain, 0, 1, first, m) == Ok::<_, ExpressionFault>((t, 5int)));
        levels_rise(plain, 0, 5, 1, first, Level::Or, t, m);
        assert(operator_at(nested, 1, first) == Some(ox));
        assert(operator_at(nested, 4, second) == Some(oy));
        operators_differ(nested, 1, first);
        end_is_quiet(nested, 6);
        end_is_quiet(nested, 7);
        operand_rises(nested, 0, 1, tighter(first), ta, m);
        pair_rises(nested, 3, 2, second, Level::Or, tb, tc, m);
        assert(nested_at(nested, 3, 1, m) == Ok::<_, ExpressionFault>((inner, 6int)));
        assert(primary_at(nested, 2, 1, m) == Ok::<_, ExpressionFault>((inner, 7int)));
        assert(level_at(nested, 2, 1, Level::Unary, m) == Ok::<_, ExpressionFault>((inner, 7int)));
        levels_rise(nested, 2, 7, 1, Level::Unary, tighter(first), inner, m);
        assert(quiet(nested, 7, first));
        assert(level_rest(nested, 7, 1, first, t, m) == Ok::<_, ExpressionFault>((t, 7int)));
        assert(level_rest(nested, 1, 1, first, ta, m) == Ok::<_, ExpressionFault>((t, 7int)));
        assert(level_at(nested, 0, 1, first, m) == Ok::<_, ExpressionFault>((t, 7int)));
        levels_rise(nested, 0, 7, 1, first, Level::Or, t, m);
    } else {
        let inner = joined(ta, ox, tb);
        let t = joined(inner, oy, tc);
        assert(fits(t, MAX_EXPRESSION_DEPTH as nat));
        assert(fits(inner, MAX_EXPRESSION_DEPTH as nat));
        operand_rises(plain, 4, 1, tighter(second), tc, m);
        assert(quiet(plain, 5, second));
        assert(level_rest(plain, 5, 1, second, t, m) == Ok::<_, ExpressionFault>((t, 5int)));
        assert(level_rest(plain, 3, 1, second, inner, m) == Ok::<_, ExpressionFault>((t, 5int)));
        if rank(first) < rank(second) {
            pair_rises(plain, 0, 1, first, tighter(second), ta, tb, m);
        } else {
            assert(first == second);
            operand_rises(plain, 0, 1, tighter(first), ta, m);
            operand_rises(plain, 2, 1, tighter(first), tb, m);
            assert(level_rest(plain, 1, 1, first, ta, m) == Ok::<_, ExpressionFault>((t, 5int)));
        }
        assert(level_at(plain, 0, 1, second, m) == Ok::<_, ExpressionFault>((t, 5int)));
        levels_rise(plain, 0, 5, 1, second, Level::Or, t, m);
        assert(operator_at(nested, 2, first) == Some(ox));
        assert(operator_at(nested, 5, second) == Some(oy));
        operators_differ(nested, 5, second);
        end_is_quiet(nested, 4);
        end_is_quiet(nested, 7);
        pair_rises(nested, 1, 2, first, Level::Or, ta, tb, m);
        assert(nested_at(nested, 1, 1, m) == Ok::<_, ExpressionFault>((inner, 4int)));
        assert(primary_at(nested, 0, 1, m) == Ok::<_, ExpressionFault>((inner, 5int)));
        assert(level_at(nested, 0, 1, Level::Unary, m) == Ok::<_, ExpressionFault>((inner, 5int)));
        levels_rise(nested, 0, 5, 1, Level::Unary, tighter(second), inner, m);
        operand_rises(nested, 6, 1, tighter(second), tc, m);
        assert(quiet(nested, 7, second));
        assert(level_rest(nested, 7, 1, second, t, m) == Ok::<_, ExpressionFault>((t, 7int)));
        assert(level_rest(nested, 5, 1, second, inner, m) == Ok::<_, ExpressionFault>((t, 7int)));
        assert(level_at(nested, 0, 1, second, m) == Ok::<_, ExpressionFault>((t, 7int)));
        levels_rise(nested, 0, 7, 1, second, Level::Or, t, m);
    }
}

/// `NOT` takes a whole comparison, and binds tighter than `AND` and `OR`.
pub proof fn negation_takes_a_comparison(
    s: Seq<char>,
    grouped: Seq<char>,
    a: Lexeme,
    x: Lexeme,
    b: Lexeme,
    level: Level,
    m: FloatModel,
)
    requires
        plain_operand(a, m) is Some,
        plain_operand(b, m) is Some,
        operator_at(ended(seq![a, x]), 1, level) is Some,
        spells(s, seq![Lexeme::Word("NOT"@), a, x, b]),
        ({
            let not = Lexeme::Word("NOT"@);
            let open = Lexeme::Symbol(Symbol::LeftParen);
            let close = Lexeme::Symbol(Symbol::RightParen);
            if rank(level) < rank(Level::Not) {
                spells(grouped, seq![not, open, a, x, b, close])
            } else {
                spells(grouped, seq![open, not, a, close, x, b])
            }
        }),
    ensures
        ({
            let (ta, tb) = (plain_operand(a, m).unwrap(), plain_operand(b, m).unwrap());
            let ox = operator_at(ended(seq![a, x]), 1, level).unwrap();
            let t = if rank(level) < rank(Level::Not) {
                prefixed(UnaryOperator::Not, joined(ta, ox, tb))
            } else {
                joined(prefixed(UnaryOperator::Not, ta), ox, tb)
            };
            &&& expression_of(s, m) == Ok::<_, ExpressionFault>(t)
            &&& expression_of(grouped, m) == Ok::<_, ExpressionFault>(t)
        }),
{
    let (ta, tb) = (plain_operand(a, m).unwrap(), plain_operand(b, m).unwrap());
    let ox = operator_at(ended(seq![a, x]), 1, level).unwrap();
    let not = Lexeme::Word("NOT"@);
    let open = Lexeme::Symbol(Symbol::LeftParen);
    let close = Lexeme::Symbol(Symbol::RightParen);
    let plain = tokens_of(s)->Ok_0;
    let nested = tokens_of(grouped)->Ok_0;
    assert(word_at(plain, 0, "NOT"@));
    assert(operator_at(plain, 2, level) == Some(ox));
    operators_differ(plain, 2, level);
    end_is_quiet(plain, 4);
    reveal_with_fuel(fits, 4);
    assert(rank(tighter(level)) == rank(level) - 1);
    if rank(level) < rank(Level::Not) {
        let inner = joined(ta, ox, tb);
        let t = prefixed(UnaryOperator::Not, inner);
        pair_rises(plain, 1, 2, level, Level::Not, ta, tb, m);
        assert(level_at(plain, 0, 1, Level::Not, m) == Ok::<_, ExpressionFault>((t, 4int)));
        levels_rise(plain, 0, 4, 1, Level::Not, Level::Or, t, m);
        assert(word_at(nested, 0, "NOT"@));
        assert(operator_at(nested, 3, level) == Some(ox));
        end_is_quiet(nested, 5);
        end_is_quiet(nested, 6);
        pair_rises(nested, 2, 3, level, Level::Or, ta, tb, m);
        assert(nested_at(nested, 2, 2, m) == Ok::<_, ExpressionFault>((inner, 5int)));
        assert(primary_at(nested, 1, 2, m) == Ok::<_, ExpressionFault>((inner, 6int)));
        assert(level_at(nested, 1, 2, Level::Unary, m) == Ok::<_, ExpressionFault>((inner, 6int)));
        levels_rise(nested, 1, 6, 2, Level::Unary, Level::Not, inner, m);
        assert(level_at(nested, 0, 1, Level::Not, m) == Ok::<_, ExpressionFault>((t, 6int)));
        levels_rise(nested, 0, 6, 1, Level::Not, Level::Or, t, m);
    } else {
        let inner = prefixed(UnaryOperator::Not, ta);
        let t = joined(inner, ox, tb);
        assert(fits(t, MAX_EXPRESSION_DEPTH as nat));
        operand_rises(plain, 1, 2, Level::Not, ta, m);
        assert(level_at(plain, 0, 1, Level::Not, m) == Ok::<_, ExpressionFault>((inner, 2int)));
        levels_rise(plain, 0, 2, 1, Level::Not, tighter(level), inner, m);
        operand_rises(plain, 3, 1, tighter(level), tb, m);
        assert(quiet(plain, 4, level));
        assert(level_rest(plain, 4, 1, level, t, m) == Ok::<_, ExpressionFault>((t, 4int)));
        assert(level_rest(plain, 2, 1, level, inner, m) == Ok::<_, ExpressionFault>((t, 4int)));
        assert(level_at(plain, 0, 1, level, m) == Ok::<_, ExpressionFault>((t, 4int)));
        levels_rise(plain, 0, 4, 1, level, Level::Or, t, m);
        assert(word_at(nested, 1, "NOT"@));
        assert(operator_at(nested, 4, level) == Some(ox));
        operators_differ(nested, 4, level);
        end_is_quiet(nested, 3);
        end_is_quiet(nested, 6);
        operand_rises(nested, 2, 3, Level::Not, ta, m);
        assert(level_at(nested, 1, 2, Level::Not, m) == Ok::<_, ExpressionFault>((inner, 3int)));
        levels_rise(nested, 1, 3, 2, Level::Not, Level::Or, inner, m);
        assert(nested_at(nested, 1, 1, m) == Ok::<_, ExpressionFault>((inner, 3int)));
        group_meets_operand(nested, level, inner, tb, 4, m);
    }
}

/// The tree of a prefix and its operand.
pub open spec fn prefixed(operator: UnaryOperator, operand: Tree) -> Tree {
    Tree::Unary { operator, expression: Box::new(operand) }
}

/// Parentheses at the start, an operator behind them and an operand of one token.
proof fn group_meets_operand(
    tokens: Seq<Placed>,
    level: Level,
    inner: Tree,
    right: Tree,
    at: int,
    m: FloatModel,
)
    requires
        1 < at,
        tokens.len() == at + 3,
        symbol_at(tokens, 0, Symbol::LeftParen),
        nested_at(tokens, 1, 1, m) == Ok::<_, ExpressionFault>((inner, at - 1)),
        symbol_at(tokens, at - 1, Symbol::RightParen),
        operator_at(tokens, at, level) is Some,
        plain_operand(tokens[at + 1].lexeme, m) == Some(right),
        tokens[at + 2].lexeme is End,
        fits(joined(inner, operator_at(tokens, at, level).unwrap(), right), MAX_EXPRESSION_DEPTH as nat),
    ensures
        level_at(tokens, 0, 1, Level::Or, m) == Ok::<_, ExpressionFault>(
            (joined(inner, operator_at(tokens, at, level).unwrap(), right), at + 2),
        ),
{
    let t = joined(inner, operator_at(tokens, at, level).unwrap(), right);
    operators_differ(tokens, at, level);
    end_is_quiet(tokens, at + 2);
    assert(rank(tighter(level)) == rank(level) - 1);
    assert(primary_at(tokens, 0, 1, m) == Ok::<_, ExpressionFault>((inner, at)));
    assert(level_at(tokens, 0, 1, Level::Unary, m) == Ok::<_, ExpressionFault>((inner, at)));
    levels_rise(tokens, 0, at, 1, Level::Unary, tighter(level), inner, m);
    operand_rises(tokens, at + 1, 1, tighter(level), right, m);
    assert(quiet(tokens, at + 2, level));
    assert(level_rest(tokens, at + 2, 1, level, t, m) == Ok::<_, ExpressionFault>((t, at + 2)));
    assert(level_rest(tokens, at, 1, level, inner, m) == Ok::<_, ExpressionFault>((t, at + 2)));
    assert(level_at(tokens, 0, 1, level, m) == Ok::<_, ExpressionFault>((t, at + 2)));
    levels_rise(tokens, 0, at + 2, 1, level, Level::Or, t, m);
}

/// A sign binds tighter than any operator with two operands.
pub proof fn signs_take_one_operand(
    s: Seq<char>,
    grouped: Seq<char>,
    negative: bool,
    a: Lexeme,
    x: Lexeme,
    b: Lexeme,
    level: Level,
    m: FloatModel,
)
    requires
        plain_operand(a, m) is Some,
        plain_operand(b, m) is Some,
        operator_at(ended(seq![a, x]), 1, level) is Some,
        ({
            let sign = Lexeme::Symbol(if negative { Symbol::Minus } else { Symbol::Plus });
            let open = Lexeme::Symbol(Symbol::LeftParen);
            let close = Lexeme::Symbol(Symbol::RightParen);
            &&& spells(s, seq![sign, a, x, b])
            &&& spells(grouped, seq![open, sign, a, close, x, b])
        }),
    ensures
        ({
            let (ta, tb) = (plain_operand(a, m).unwrap(), plain_operand(b, m).unwrap());
            let ox = operator_at(ended(seq![a, x]), 1, level).unwrap();
            let operator = if negative { UnaryOperator::Minus } else { UnaryOperator::Plus };
            let t = joined(prefixed(operator, ta), ox, tb);
            &&& expression_of(s, m) == Ok::<_, ExpressionFault>(t)
            &&& expression_of(grouped, m) == Ok::<_, ExpressionFault>(t)
        }),
{
    let (ta, tb) = (plain_operand(a, m).unwrap(), plain_operand(b, m).unwrap());
    let ox = operator_at(ended(seq![a, x]), 1, level).unwrap();
    let sign = Lexeme::Symbol(if negative { Symbol::Minus } else { Symbol::Plus });
    let operator = if negative { UnaryOperator::Minus } else { UnaryOperator::Plus };
    let open = Lexeme::Symbol(Symbol::LeftParen);
    let close = Lexeme::Symbol(Symbol::RightParen);
    let inner = prefixed(operator, ta);
    let t = joined(inner, ox, tb);
    let plain = tokens_of(s)->Ok_0;
    let nested = tokens_of(grouped)->Ok_0;
    smallest_is_out_of_range(m);
    assert(operator_at(plain, 2, level) == Some(ox));
    operators_differ(plain, 2, level);
    end_is_quiet(plain, 4);
    reveal_with_fuel(fits, 4);
    assert(fits(t, MAX_EXPRESSION_DEPTH as nat));
    assert(rank(tighter(level)) == rank(level) - 1);
    operand_rises(plain, 1, 2, Level::Unary, ta, m);
    assert(plain[1].lexeme == a);
    assert(level_at(plain, 0, 1, Level::Unary, m) == Ok::<_, ExpressionFault>((inner, 2int)));
    levels_rise(plain, 0, 2, 1, Level::Unary, tighter(level), inner, m);
    operand_rises(plain, 3, 1, tighter(level), tb, m);
    assert(quiet(plain, 4, level));
    assert(level_rest(plain, 4, 1, level, t, m) == Ok::<_, ExpressionFault>((t, 4int)));
    assert(level_rest(plain, 2, 1, level, inner, m) == Ok::<_, ExpressionFault>((t, 4int)));
    assert(level_at(plain, 0, 1, level, m) == Ok::<_, ExpressionFault>((t, 4int)));
    levels_rise(plain, 0, 4, 1, level, Level::Or, t, m);
    assert(operator_at(nested, 4, level) == Some(ox));
    end_is_quiet(nested, 3);
    operand_rises(nested, 2, 3, Level::Unary, ta, m);
    assert(nested[2].lexeme == a);
    assert(level_at(nested, 1, 2, Level::Unary, m) == Ok::<_, ExpressionFault>((inner, 3int)));
    levels_rise(nested, 1, 3, 2, Level::Unary, Level::Or, inner, m);
    assert(nested_at(nested, 1, 1, m) == Ok::<_, ExpressionFault>((inner, 3int)));
    group_meets_operand(nested, level, inner, tb, 4, m);
}

/// The magnitude of the smallest integer is no operand by itself.
proof fn smallest_is_out_of_range(m: FloatModel)
    ensures
        plain_operand(Lexeme::Number("9223372036854775808"@), m) is None,
{
    let s = "9223372036854775808"@;
    reveal_strlit("9223372036854775808");
    digits_round_trip(9223372036854775808);
    reveal_with_fuel(digits, 20);
    assert(digits(9223372036854775808) =~= s);
    assert(!is_float_text(s));
}

} // verus!
