//! Texts of expressions whose tokens stand apart.

use vstd::prelude::*;
use crate::expression::fault::ExpressionFault;
use crate::expression::lexing::{continues_word, symbol_at, token_at, tokens_from, tokens_of, word_end, Lexeme, Placed, Symbol};
use crate::expression::parsing::{expression_of, operator_at, rank, Level};
use crate::expression::precedence::{ended, joined, negation_takes_a_comparison, operators_share_operands, plain_operand, prefixed, signs_take_one_operand, spells};
use crate::expression::tree::UnaryOperator;
use crate::float::FloatModel;
use crate::lexer::{begins_identifier, digit_at, digits_end, offset};
use crate::text::{is_digit, is_space, space_end};

verus! {

/// The text of a symbol.
pub open spec fn symbol_text(symbol: Symbol) -> Seq<char> {
    match symbol {
        Symbol::LeftParen => seq!['('],
        Symbol::RightParen => seq![')'],
        Symbol::Comma => seq![','],
        Symbol::Plus => seq!['+'],
        Symbol::Minus => seq!['-'],
        Symbol::Star => seq!['*'],
        Symbol::Slash => seq!['/'],
        Symbol::Percent => seq!['%'],
        Symbol::Equal => seq!['='],
        Symbol::NotEqual => seq!['<', '>'],
        Symbol::Less => seq!['<'],
        Symbol::LessOrEqual => seq!['<', '='],
        Symbol::Greater => seq!['>'],
        Symbol::GreaterOrEqual => seq!['>', '='],
    }
}

/// The text of a word, an integer or a symbol.
pub open spec fn spelling(lexeme: Lexeme) -> Seq<char> {
    match lexeme {
        Lexeme::Word(word) => word,
        Lexeme::Number(number) => number,
        Lexeme::Symbol(symbol) => symbol_text(symbol),
        _ => Seq::empty(),
    }
}

/// Whether a lexeme is a word, an integer or a symbol.
pub open spec fn is_plain(lexeme: Lexeme) -> bool {
    match lexeme {
        Lexeme::Word(word) => {
            &&& word.len() > 0
            &&& begins_identifier(word[0])
            &&& !is_space(word[0])
            &&& forall|i: int| 0 <= i < word.len() ==> continues_word(#[trigger] word[i])
        },
        Lexeme::Number(number) => {
            &&& number.len() > 0
            &&& forall|i: int| 0 <= i < number.len() ==> is_digit(#[trigger] number[i])
        },
        Lexeme::Symbol(_) => true,
        _ => false,
    }
}

/// The texts of lexemes from one on, with a space behind each.
pub open spec fn spaced_from(lexemes: Seq<Lexeme>, i: int) -> Seq<char>
    decreases lexemes.len() - i,
{
    if !(0 <= i < lexemes.len()) {
        Seq::empty()
    } else {
        spelling(lexemes[i]) + seq![' '] + spaced_from(lexemes, i + 1)
    }
}

/// The texts of lexemes with a space behind each.
pub open spec fn spaced(lexemes: Seq<Lexeme>) -> Seq<char> {
    spaced_from(lexemes, 0)
}

proof fn word_goes_to(s: Seq<char>, i: int, end: int)
    requires
        0 <= i <= end < s.len(),
        forall|k: int| i <= k < end ==> continues_word(#[trigger] s[k]),
        s[end] == ' ',
    ensures
        word_end(s, i) == end,
    decreases end - i,
{
    if i < end {
        assert(continues_word(s[i]));
        word_goes_to(s, i + 1, end);
    }
}

proof fn digits_go_to(s: Seq<char>, i: int, end: int)
    requires
        0 <= i <= end < s.len(),
        forall|k: int| i <= k < end ==> is_digit(#[trigger] s[k]),
        s[end] == ' ',
    ensures
        digits_end(s, i) == end,
    decreases end - i,
{
    if i < end {
        assert(is_digit(s[i]));
        digits_go_to(s, i + 1, end);
    }
}

/// A lexeme before a space is the token there.
proof fn token_is_read(s: Seq<char>, i: int, lexeme: Lexeme)
    requires
        is_plain(lexeme),
        0 <= i,
        i + spelling(lexeme).len() < s.len(),
        forall|k: int| 0 <= k < spelling(lexeme).len() ==> s[i + k] == #[trigger] spelling(lexeme)[k],
        s[i + spelling(lexeme).len()] == ' ',
    ensures
        spelling(lexeme).len() > 0,
        !is_space(s[i]),
        token_at(s, i) == Ok::<_, ExpressionFault>((lexeme, i + spelling(lexeme).len())),
{
    let text = spelling(lexeme);
    let end = i + text.len();
    assert(text.len() > 0 ==> s[i] == text[0]);
    match lexeme {
        Lexeme::Word(word) => {
            assert forall|k: int| i <= k < end implies continues_word(#[trigger] s[k]) by {
                assert(s[i + (k - i)] == word[k - i]);
            }
            word_goes_to(s, i, end);
            assert(s.subrange(i, end) =~= word);
        },
        Lexeme::Number(number) => {
            assert forall|k: int| i <= k < end implies is_digit(#[trigger] s[k]) by {
                assert(s[i + (k - i)] == number[k - i]);
            }
            digits_go_to(s, i, end);
            assert(digit_at(s, i)) by {
                assert(is_digit(s[i]));
            }
            assert(s.subrange(i, end) =~= number);
        },
        Lexeme::Symbol(symbol) => {
            if text.len() == 2 {
                assert(s[i + 1] == text[1]);
            }
            assert(symbol_at(s, i) == Some((symbol, end)));
        },
        _ => {},
    }
}

proof fn rest_is_read(s: Seq<char>, p: int, at: int, lexemes: Seq<Lexeme>, i: int, done: Seq<Placed>)
    requires
        0 <= i <= lexemes.len(),
        forall|k: int| 0 <= k < lexemes.len() ==> is_plain(#[trigger] lexemes[k]),
        0 <= p <= at <= s.len(),
        space_end(s, p) == at,
        s.skip(at) == spaced_from(lexemes, i),
    ensures
        tokens_from(s, p, done) matches Ok(tokens) && {
            &&& tokens.len() == done.len() + (lexemes.len() - i) + 1
            &&& forall|k: int| 0 <= k < done.len() ==> #[trigger] tokens[k] == done[k]
            &&& forall|k: int|
                i <= k < lexemes.len() ==> (#[trigger] tokens[done.len() + (k - i)]).lexeme
                    == lexemes[k]
            &&& tokens[tokens.len() - 1].lexeme is End
        },
    decreases lexemes.len() - i,
{
    if i == lexemes.len() {
        assert(s.skip(at).len() == 0);
    } else {
        let lexeme = lexemes[i];
        let text = spelling(lexeme);
        let rest = spaced_from(lexemes, i + 1);
        let end = at + text.len();
        assert(is_plain(lexeme));
        assert(s.skip(at) == text + seq![' '] + rest);
        assert(s.len() - at == text.len() + 1 + rest.len());
        assert forall|k: int| 0 <= k < text.len() implies s[at + k] == #[trigger] text[k] by {
            assert(s.skip(at)[k] == text[k]);
        }
        assert(s.skip(at)[text.len() as int] == ' ');
        token_is_read(s, at, lexeme);
        let next = done.push(Placed { lexeme, position: offset(s, at) as usize });
        assert(s.skip(end + 1) =~= rest) by {
            assert forall|k: int| 0 <= k < rest.len() implies s.skip(end + 1)[k] == rest[k] by {
                assert(s.skip(at)[text.len() + 1 + k] == rest[k]);
            }
        }
        assert(space_end(s, end) == end + 1) by {
            if i + 1 < lexemes.len() {
                let first = spelling(lexemes[i + 1]);
                assert(is_plain(lexemes[i + 1]));
                assert(rest == first + seq![' '] + spaced_from(lexemes, i + 2));
                assert forall|k: int| 0 <= k < first.len() implies s[end + 1 + k]
                    == #[trigger] first[k] by {
                    assert(s.skip(end + 1)[k] == first[k]);
                }
                assert(s.skip(end + 1)[first.len() as int] == ' ');
                token_is_read(s, end + 1, lexemes[i + 1]);
                assert(!is_space(s[end + 1]));
            }
            assert(space_end(s, end + 1) == end + 1);
            assert(is_space(s[end]));
        }
        rest_is_read(s, end, end + 1, lexemes, i + 1, next);
        let tokens = tokens_from(s, end, next)->Ok_0;
        assert(tokens_from(s, p, done) == Ok::<_, ExpressionFault>(tokens));
        assert(tokens[done.len() as int] == next[done.len() as int]);
        assert forall|k: int| 0 <= k < done.len() implies #[trigger] tokens[k] == done[k] by {
            assert(tokens[k] == next[k]);
        }
        assert forall|k: int| i <= k < lexemes.len() implies (
        #[trigger] tokens[done.len() + (k - i)]).lexeme == lexemes[k] by {
            if k > i {
                assert(tokens[next.len() + (k - (i + 1))].lexeme == lexemes[k]);
            }
        }
    }
}

/// Words, integers and symbols with spaces behind them are read as they stand.
pub proof fn spaced_lexemes_are_read(lexemes: Seq<Lexeme>)
    requires
        forall|k: int| 0 <= k < lexemes.len() ==> is_plain(#[trigger] lexemes[k]),
    ensures
        spells(spaced(lexemes), lexemes),
{
    let s = spaced(lexemes);
    assert(s.skip(0) =~= s);
    if lexemes.len() > 0 {
        let first = spelling(lexemes[0]);
        let rest = spaced_from(lexemes, 1);
        assert(is_plain(lexemes[0]));
        assert(s == first + seq![' '] + rest);
        assert forall|k: int| 0 <= k < first.len() implies s[0 + k] == #[trigger] first[k] by {}
        token_is_read(s, 0, lexemes[0]);
    }
    rest_is_read(s, 0, 0, lexemes, 0, Seq::empty());
    let tokens = tokens_of(s)->Ok_0;
    assert forall|i: int| 0 <= i < lexemes.len() implies (#[trigger] tokens[i]).lexeme == lexemes[i] by {
        assert(tokens[0 + (i - 0)].lexeme == lexemes[i]);
    }
}

/// Of two operators in a text the one that binds tighter takes the operand between them, and of
/// two that bind alike the left one: parentheses round what it takes change nothing.
pub proof fn parentheses_show_how_operators_bind(
    a: Lexeme,
    x: Lexeme,
    b: Lexeme,
    y: Lexeme,
    c: Lexeme,
    first: Level,
    second: Level,
    m: FloatModel,
)
    requires
        is_plain(a) && plain_operand(a, m) is Some,
        is_plain(b) && plain_operand(b, m) is Some,
        is_plain(c) && plain_operand(c, m) is Some,
        is_plain(x) && operator_at(ended(seq![a, x]), 1, first) is Some,
        is_plain(y) && operator_at(ended(seq![b, y]), 1, second) is Some,
    ensures
        ({
            let ta = plain_operand(a, m).unwrap();
            let tb = plain_operand(b, m).unwrap();
            let tc = plain_operand(c, m).unwrap();
            let ox = operator_at(ended(seq![a, x]), 1, first).unwrap();
            let oy = operator_at(ended(seq![b, y]), 1, second).unwrap();
            let open = Lexeme::Symbol(Symbol::LeftParen);
            let close = Lexeme::Symbol(Symbol::RightParen);
            let s = spaced(seq![a, x, b, y, c]);
            if rank(second) < rank(first) {
                let t = joined(ta, ox, joined(tb, oy, tc));
                &&& expression_of(s, m) == Ok::<_, ExpressionFault>(t)
                &&& expression_of(spaced(seq![a, x, open, b, y, c, close]), m) == Ok::<
                    _,
                    ExpressionFault,
                >(t)
            } else {
                let t = joined(joined(ta, ox, tb), oy, tc);
                &&& expression_of(s, m) == Ok::<_, ExpressionFault>(t)
                &&& expression_of(spaced(seq![open, a, x, b, close, y, c]), m) == Ok::<
                    _,
                    ExpressionFault,
                >(t)
            }
        }),
{
    let open = Lexeme::Symbol(Symbol::LeftParen);
    let close = Lexeme::Symbol(Symbol::RightParen);
    let s = spaced(seq![a, x, b, y, c]);
    spaced_lexemes_are_read(seq![a, x, b, y, c]);
    let inner = if rank(second) < rank(first) {
        seq![a, x, open, b, y, c, close]
    } else {
        seq![open, a, x, b, close, y, c]
    };
    spaced_lexemes_are_read(inner);
    operators_share_operands(s, spaced(inner), a, x, b, y, c, first, second, m);
}

/// `NOT` in a text takes a whole comparison, and binds tighter than `AND` and `OR`:
/// parentheses round what it takes, or round it and its operand, change nothing.
pub proof fn parentheses_show_how_negation_binds(
    a: Lexeme,
    x: Lexeme,
    b: Lexeme,
    level: Level,
    m: FloatModel,
)
    requires
        is_plain(a) && plain_operand(a, m) is Some,
        is_plain(b) && plain_operand(b, m) is Some,
        is_plain(x) && operator_at(ended(seq![a, x]), 1, level) is Some,
    ensures
        ({
            let ta = plain_operand(a, m).unwrap();
            let tb = plain_operand(b, m).unwrap();
            let ox = operator_at(ended(seq![a, x]), 1, level).unwrap();
            let not = Lexeme::Word("NOT"@);
            let open = Lexeme::Symbol(Symbol::LeftParen);
            let close = Lexeme::Symbol(Symbol::RightParen);
            let s = spaced(seq![not, a, x, b]);
            if rank(level) < rank(Level::Not) {
                let t = prefixed(UnaryOperator::Not, joined(ta, ox, tb));
                &&& expression_of(s, m) == Ok::<_, ExpressionFault>(t)
                &&& expression_of(spaced(seq![not, open, a, x, b, close]), m) == Ok::<
                    _,
                    ExpressionFault,
                >(t)
            } else {
                let t = joined(prefixed(UnaryOperator::Not, ta), ox, tb);
                &&& expression_of(s, m) == Ok::<_, ExpressionFault>(t)
                &&& expression_of(spaced(seq![open, not, a, close, x, b]), m) == Ok::<
                    _,
                    ExpressionFault,
                >(t)
            }
        }),
{
    let not = Lexeme::Word("NOT"@);
    let open = Lexeme::Symbol(Symbol::LeftParen);
    let close = Lexeme::Symbol(Symbol::RightParen);
    reveal_strlit("NOT");
    assert(is_plain(not));
    let s = spaced(seq![not, a, x, b]);
    spaced_lexemes_are_read(seq![not, a, x, b]);
    let inner = if rank(level) < rank(Level::Not) {
        seq![not, open, a, x, b, close]
    } else {
        seq![open, not, a, close, x, b]
    };
    spaced_lexemes_are_read(inner);
    negation_takes_a_comparison(s, spaced(inner), a, x, b, level, m);
}

/// A sign in a text binds tighter than any operator with two operands: parentheses round it
/// and its operand change nothing.
pub proof fn parentheses_show_how_signs_bind(
    negative: bool,
    a: Lexeme,
    x: Lexeme,
    b: Lexeme,
    level: Level,
    m: FloatModel,
)
    requires
        is_plain(a) && plain_operand(a, m) is Some,
        is_plain(b) && plain_operand(b, m) is Some,
        is_plain(x) && operator_at(ended(seq![a, x]), 1, level) is Some,
    ensures
        ({
            let ta = plain_operand(a, m).unwrap();
            let tb = plain_operand(b, m).unwrap();
            let ox = operator_at(ended(seq![a, x]), 1, level).unwrap();
            let sign = Lexeme::Symbol(if negative { Symbol::Minus } else { Symbol::Plus });
            let operator = if negative { UnaryOperator::Minus } else { UnaryOperator::Plus };
            let open = Lexeme::Symbol(Symbol::LeftParen);
            let close = Lexeme::Symbol(Symbol::RightParen);
            let t = joined(prefixed(operator, ta), ox, tb);
            &&& expression_of(spaced(seq![sign, a, x, b]), m) == Ok::<_, ExpressionFault>(t)
            &&& expression_of(spaced(seq![open, sign, a, close, x, b]), m) == Ok::<
                _,
                ExpressionFault,
            >(t)
        }),
{
    let sign = Lexeme::Symbol(if negative { Symbol::Minus } else { Symbol::Plus });
    let open = Lexeme::Symbol(Symbol::LeftParen);
    let close = Lexeme::Symbol(Symbol::RightParen);
    let plain = seq![sign, a, x, b];
    let inner = seq![open, sign, a, close, x, b];
    spaced_lexemes_are_read(plain);
    spaced_lexemes_are_read(inner);
    signs_take_one_operand(spaced(plain), spaced(inner), negative, a, x, b, level, m);
}

} // verus!
