//! Parsing of scalar expressions.

use vstd::prelude::*;
use crate::expression::context::{Bindings, EvaluationContext};
use crate::expression::evaluation::{expression_value, too_deep};
use crate::expression::fault::{parse_error, ExpressionError, ExpressionFault};
use crate::expression::lexing::{ends, placed, tokenize, tokens_of, Lexeme, Placed, Symbol, Token, TokenKind};
use crate::expression::operators::evaluated;
use crate::expression::tree::{branches_grow, branches_of, fits, tree_of, trees_grow, trees_of, BinaryOperator, Expr, Tree, UnaryOperator, MAX_EXPRESSION_DEPTH};
use crate::float::{answers_floats, float_model, float_parsed, parse_float, FloatModel, FloatReply, FloatRequest};
use crate::scalar::{has_float_mark, is_float_text, named_type, type_named};
use crate::text::{concat2, concat3, i64_value, lower, parse_i64, same_ignoring_case, same_text, to_lower};
use crate::types::{Datum, Value};

verus! {

/// Levels of precedence, from the loosest to the tightest.
#[derive(Clone, Copy, Debug, PartialEq, Eq, Structural)]
pub enum Level {
    Or,
    And,
    Not,
    Comparison,
    Additive,
    Multiplicative,
    Unary,
}

/// The height of a level above what it is made of.
pub open spec fn rank(level: Level) -> nat {
    match level {
        Level::Or => 7,
        Level::And => 6,
        Level::Not => 5,
        Level::Comparison => 4,
        Level::Additive => 3,
        Level::Multiplicative => 2,
        Level::Unary => 1,
    }
}

/// The level of the operands of a level's operators.
pub open spec fn tighter(level: Level) -> Level {
    match level {
        Level::Or => Level::And,
        Level::And => Level::Not,
        Level::Not => Level::Comparison,
        Level::Comparison => Level::Additive,
        Level::Additive => Level::Multiplicative,
        _ => Level::Unary,
    }
}

/// Whether a keyword stands at a position.
pub open spec fn word_at(tokens: Seq<Placed>, p: int, keyword: Seq<char>) -> bool {
    tokens[p].lexeme matches Lexeme::Word(word) && lower(word) == lower(keyword)
}

/// Whether a symbol stands at a position.
pub open spec fn symbol_at(tokens: Seq<Placed>, p: int, symbol: Symbol) -> bool {
    tokens[p].lexeme == Lexeme::Symbol(symbol)
}

/// A failure at a token.
pub open spec fn wrong_at(tokens: Seq<Placed>, p: int, message: Seq<char>) -> ExpressionFault {
    ExpressionFault::Parse { message, position: tokens[p].position }
}

/// The operator of a level at a position.
pub open spec fn operator_at(tokens: Seq<Placed>, p: int, level: Level) -> Option<BinaryOperator> {
    match level {
        Level::Or => if word_at(tokens, p, "OR"@) {
            Some(BinaryOperator::Or)
        } else {
            None
        },
        Level::And => if word_at(tokens, p, "AND"@) {
            Some(BinaryOperator::And)
        } else {
            None
        },
        Level::Comparison => match tokens[p].lexeme {
            Lexeme::Symbol(Symbol::Equal) => Some(BinaryOperator::Equal),
            Lexeme::Symbol(Symbol::NotEqual) => Some(BinaryOperator::NotEqual),
            Lexeme::Symbol(Symbol::Less) => Some(BinaryOperator::Less),
            Lexeme::Symbol(Symbol::LessOrEqual) => Some(BinaryOperator::LessOrEqual),
            Lexeme::Symbol(Symbol::Greater) => Some(BinaryOperator::Greater),
            Lexeme::Symbol(Symbol::GreaterOrEqual) => Some(BinaryOperator::GreaterOrEqual),
            _ => None,
        },
        Level::Additive => match tokens[p].lexeme {
            Lexeme::Symbol(Symbol::Plus) => Some(BinaryOperator::Add),
            Lexeme::Symbol(Symbol::Minus) => Some(BinaryOperator::Subtract),
            _ => None,
        },
        Level::Multiplicative => match tokens[p].lexeme {
            Lexeme::Symbol(Symbol::Star) => Some(BinaryOperator::Multiply),
            Lexeme::Symbol(Symbol::Slash) => Some(BinaryOperator::Divide),
            Lexeme::Symbol(Symbol::Percent) => Some(BinaryOperator::Modulo),
            _ => None,
        },
        _ => None,
    }
}

/// The expression of a level at a position that is nested `depth` deep, and the position
/// behind it.
pub open spec fn level_at(tokens: Seq<Placed>, p: int, depth: int, level: Level, m: FloatModel) -> Result<
    (Tree, int),
    ExpressionFault,
>
    decreases tokens.len() - p, rank(level),
    when 0 <= p < tokens.len()
{
    match level {
        Level::Not => if word_at(tokens, p, "NOT"@) {
            if depth >= MAX_EXPRESSION_DEPTH {
                Err(too_deep())
            } else {
                match level_at(tokens, p + 1, depth + 1, Level::Not, m) {
                    Err(fault) => Err(fault),
                    Ok((t, q)) => Ok(
                        (Tree::Unary { operator: UnaryOperator::Not, expression: Box::new(t) }, q),
                    ),
                }
            }
        } else {
            level_at(tokens, p, depth, Level::Comparison, m)
        },
        Level::Unary => if symbol_at(tokens, p, Symbol::Minus) && tokens[p + 1].lexeme
            == Lexeme::Number("9223372036854775808"@) {
            Ok((Tree::Literal(Datum::Int64(i64::MIN)), p + 2))
        } else if symbol_at(tokens, p, Symbol::Minus) || symbol_at(tokens, p, Symbol::Plus) {
            let operator = if symbol_at(tokens, p, Symbol::Minus) {
                UnaryOperator::Minus
            } else {
                UnaryOperator::Plus
            };
            if depth >= MAX_EXPRESSION_DEPTH {
                Err(too_deep())
            } else {
                match level_at(tokens, p + 1, depth + 1, Level::Unary, m) {
                    Err(fault) => Err(fault),
                    Ok((t, q)) => Ok((Tree::Unary { operator, expression: Box::new(t) }, q)),
                }
            }
        } else {
            primary_at(tokens, p, depth, m)
        },
        _ => match level_at(tokens, p, depth, tighter(level), m) {
            Err(fault) => Err(fault),
            Ok((t, q)) => if p < q < tokens.len() {
                level_rest(tokens, q, depth, level, t, m)
            } else {
                Ok((t, q))
            },
        },
    }
}

/// What follows an operand at its level, and the position behind it.
pub open spec fn level_rest(
    tokens: Seq<Placed>,
    p: int,
    depth: int,
    level: Level,
    left: Tree,
    m: FloatModel,
) -> Result<(Tree, int), ExpressionFault>
    decreases tokens.len() - p, 0nat,
    when 0 <= p < tokens.len()
{
    match operator_at(tokens, p, level) {
        Some(operator) => match level_at(tokens, p + 1, depth, tighter(level), m) {
            Err(fault) => Err(fault),
            Ok((right, q)) => {
                let t = Tree::Binary { left: Box::new(left), operator, right: Box::new(right) };
                if !fits(t, MAX_EXPRESSION_DEPTH as nat) {
                    Err(too_deep())
                } else if p < q < tokens.len() {
                    level_rest(tokens, q, depth, level, t, m)
                } else {
                    Ok((t, q))
                }
            },
        },
        None => if level == Level::Comparison && word_at(tokens, p, "IS"@) {
            let negated = word_at(tokens, p + 1, "NOT"@);
            let q = if negated { p + 2 } else { p + 1 };
            let t = Tree::IsNull { expression: Box::new(left), negated };
            if !word_at(tokens, q, "NULL"@) {
                Err(wrong_at(tokens, q, "expected keyword "@ + "NULL"@))
            } else if !fits(t, MAX_EXPRESSION_DEPTH as nat) {
                Err(too_deep())
            } else if q + 1 < tokens.len() {
                level_rest(tokens, q + 1, depth, level, t, m)
            } else {
                Ok((t, q + 1))
            }
        } else {
            Ok((left, p))
        },
    }
}

/// The value of a number.
pub open spec fn number_value(m: FloatModel, s: Seq<char>) -> Result<Datum, Seq<char>> {
    if is_float_text(s) {
        match float_parsed(m, s) {
            Some(bits) => Ok(Datum::Float64(bits)),
            None => Err("invalid Float64 literal"@),
        }
    } else {
        match i64_value(s) {
            Some(i) => Ok(Datum::Int64(i)),
            None => Err("Int64 literal is out of range"@),
        }
    }
}

/// A nested expression at a position, and the position behind it.
pub open spec fn nested_at(tokens: Seq<Placed>, p: int, depth: int, m: FloatModel) -> Result<
    (Tree, int),
    ExpressionFault,
>
    decreases tokens.len() - p, 8nat,
    when 0 <= p < tokens.len()
{
    if depth >= MAX_EXPRESSION_DEPTH {
        Err(too_deep())
    } else {
        level_at(tokens, p, depth + 1, Level::Or, m)
    }
}

/// The operand at a position, and the position behind it.
pub open spec fn primary_at(tokens: Seq<Placed>, p: int, depth: int, m: FloatModel) -> Result<
    (Tree, int),
    ExpressionFault,
>
    decreases tokens.len() - p, 0nat,
    when 0 <= p < tokens.len()
{
    match tokens[p].lexeme {
        Lexeme::Number(s) => match number_value(m, s) {
            Ok(d) => Ok((Tree::Literal(d), p + 1)),
            Err(message) => Err(wrong_at(tokens, p, message)),
        },
        Lexeme::Text(s) => Ok((Tree::Literal(Datum::Text(s)), p + 1)),
        Lexeme::QuotedIdentifier(name) => Ok((Tree::QuotedColumn(name), p + 1)),
        Lexeme::Symbol(Symbol::LeftParen) => match nested_at(tokens, p + 1, depth, m) {
            Err(fault) => Err(fault),
            Ok((t, q)) => if symbol_at(tokens, q, Symbol::RightParen) {
                Ok((t, q + 1))
            } else {
                Err(wrong_at(tokens, q, "expected `)`"@))
            },
        },
        Lexeme::Word(word) => if lower(word) == lower("NULL"@) {
            Ok((Tree::Literal(Datum::Null), p + 1))
        } else if lower(word) == lower("TRUE"@) {
            Ok((Tree::Literal(Datum::Bool(true)), p + 1))
        } else if lower(word) == lower("FALSE"@) {
            Ok((Tree::Literal(Datum::Bool(false)), p + 1))
        } else if lower(word) == lower("CAST"@) {
            if p + 2 < tokens.len() && symbol_at(tokens, p + 1, Symbol::LeftParen) {
                cast_at(tokens, p + 2, depth, m)
            } else {
                Err(wrong_at(tokens, p + 1, "expected `(` after CAST"@))
            }
        } else if lower(word) == lower("CASE"@) {
            case_at(tokens, p + 1, depth, m)
        } else if !(p + 2 < tokens.len() && symbol_at(tokens, p + 1, Symbol::LeftParen)) {
            Ok((Tree::Column(word), p + 1))
        } else if symbol_at(tokens, p + 2, Symbol::RightParen) {
            Ok((Tree::Function { name: lower(word), arguments: Seq::empty() }, p + 3))
        } else {
            arguments_rest(tokens, p + 2, depth, word, Seq::empty(), m)
        },
        _ => Err(wrong_at(tokens, p, "expected an expression"@)),
    }
}

/// The cast whose operand begins at a position, and the position behind it.
pub open spec fn cast_at(tokens: Seq<Placed>, p: int, depth: int, m: FloatModel) -> Result<
    (Tree, int),
    ExpressionFault,
>
    decreases tokens.len() - p, 9nat,
    when 0 <= p < tokens.len()
{
    match nested_at(tokens, p, depth, m) {
        Err(fault) => Err(fault),
        Ok((t, q)) => if !word_at(tokens, q, "AS"@) {
            Err(wrong_at(tokens, q, "expected keyword "@ + "AS"@))
        } else {
            match tokens[q + 1].lexeme {
                Lexeme::Word(name) => match named_type(lower(name)) {
                    None => Err(
                        wrong_at(tokens, q + 1, "unknown scalar type `"@ + name + "`"@),
                    ),
                    Some(target) => if symbol_at(tokens, q + 2, Symbol::RightParen) {
                        Ok((Tree::Cast { expression: Box::new(t), target }, q + 3))
                    } else {
                        Err(wrong_at(tokens, q + 2, "expected `)` after CAST"@))
                    },
                },
                _ => Err(wrong_at(tokens, q + 1, "expected a type name after AS"@)),
            }
        },
    }
}

/// The `CASE` expression behind its first word, and the position behind it.
pub open spec fn case_at(tokens: Seq<Placed>, p: int, depth: int, m: FloatModel) -> Result<
    (Tree, int),
    ExpressionFault,
>
    decreases tokens.len() - p, 10nat,
    when 0 <= p < tokens.len()
{
    if word_at(tokens, p, "WHEN"@) {
        branches_rest(tokens, p, depth, None, Seq::empty(), m)
    } else {
        match nested_at(tokens, p, depth, m) {
            Err(fault) => Err(fault),
            Ok((t, q)) => if p < q < tokens.len() {
                branches_rest(tokens, q, depth, Some(Box::new(t)), Seq::empty(), m)
            } else {
                Ok((t, q))
            },
        }
    }
}

/// The `CASE` expression whose branches go on at a position, and the position behind it.
pub open spec fn branches_rest(
    tokens: Seq<Placed>,
    p: int,
    depth: int,
    operand: Option<Box<Tree>>,
    done: Seq<(Tree, Tree)>,
    m: FloatModel,
) -> Result<(Tree, int), ExpressionFault>
    decreases tokens.len() - p, 9nat,
    when 0 <= p < tokens.len()
{
    if word_at(tokens, p, "WHEN"@) {
        match nested_at(tokens, p + 1, depth, m) {
            Err(fault) => Err(fault),
            Ok((condition, q)) => if !word_at(tokens, q, "THEN"@) {
                Err(wrong_at(tokens, q, "expected keyword "@ + "THEN"@))
            } else if !(p < q < tokens.len()) {
                Ok((condition, q))
            } else {
                match nested_at(tokens, q + 1, depth, m) {
                    Err(fault) => Err(fault),
                    Ok((result, r)) => if q < r < tokens.len() {
                        branches_rest(tokens, r, depth, operand, done.push((condition, result)), m)
                    } else {
                        Ok((result, r))
                    },
                }
            },
        }
    } else if done.len() == 0 {
        Err(wrong_at(tokens, p, "CASE requires at least one WHEN branch"@))
    } else if word_at(tokens, p, "ELSE"@) {
        match nested_at(tokens, p + 1, depth, m) {
            Err(fault) => Err(fault),
            Ok((t, q)) => case_end(tokens, q, operand, done, Some(Box::new(t))),
        }
    } else {
        case_end(tokens, p, operand, done, None)
    }
}

/// The `CASE` expression that ends at a position, and the position behind it.
pub open spec fn case_end(
    tokens: Seq<Placed>,
    p: int,
    operand: Option<Box<Tree>>,
    branches: Seq<(Tree, Tree)>,
    else_expression: Option<Box<Tree>>,
) -> Result<(Tree, int), ExpressionFault> {
    if word_at(tokens, p, "END"@) {
        Ok((Tree::Case { operand, branches, else_expression }, p + 1))
    } else {
        Err(wrong_at(tokens, p, "expected keyword "@ + "END"@))
    }
}

/// The call whose arguments go on at a position, and the position behind it.
pub open spec fn arguments_rest(
    tokens: Seq<Placed>,
    p: int,
    depth: int,
    name: Seq<char>,
    done: Seq<Tree>,
    m: FloatModel,
) -> Result<(Tree, int), ExpressionFault>
    decreases tokens.len() - p, 9nat,
    when 0 <= p < tokens.len()
{
    match nested_at(tokens, p, depth, m) {
        Err(fault) => Err(fault),
        Ok((t, q)) => if symbol_at(tokens, q, Symbol::RightParen) {
            Ok((Tree::Function { name: lower(name), arguments: done.push(t) }, q + 1))
        } else if !symbol_at(tokens, q, Symbol::Comma) {
            Err(wrong_at(tokens, q, "expected `,` between function arguments"@))
        } else if p < q && q + 1 < tokens.len() {
            arguments_rest(tokens, q + 1, depth, name, done.push(t), m)
        } else {
            Ok((t, q))
        },
    }
}

/// The expression that a text is.
pub open spec fn expression_of(s: Seq<char>, m: FloatModel) -> Result<Tree, ExpressionFault> {
    match tokens_of(s) {
        Err(fault) => Err(fault),
        Ok(tokens) => match level_at(tokens, 0, 1, Level::Or, m) {
            Err(fault) => Err(fault),
            Ok((t, q)) => if !(tokens[q].lexeme is End) {
                Err(wrong_at(tokens, q, "unexpected token after expression"@))
            } else if !fits(t, MAX_EXPRESSION_DEPTH as nat) {
                Err(too_deep())
            } else {
                Ok(t)
            },
        },
    }
}

/// Whether a step of parsing gives what is stated, and goes forward.
spec fn agrees(
    r: Result<(Expr, usize), ExpressionError>,
    stated: Result<(Tree, int), ExpressionFault>,
    p: int,
    len: nat,
) -> bool {
    match r {
        Ok((e, q)) => stated == Ok::<_, ExpressionFault>((tree_of(e), q as int)) && p < q < len,
        Err(e) => stated == Err::<(Tree, int), _>(e@),
    }
}

/// The content of an optional expression.
spec fn boxed(e: Option<Box<Expr>>) -> Option<Box<Tree>> {
    match e {
        Some(o) => Some(Box::new(tree_of(*o))),
        None => None,
    }
}

struct Parser {
    tokens: Vec<Token>,
}

impl Parser {
    spec fn seen(&self) -> Seq<Placed> {
        placed(self.tokens@)
    }

    spec fn wf(&self) -> bool {
        ends(placed(self.tokens@))
    }

    fn peek_word(&self, p: usize, keyword: &str) -> (r: bool)
        requires
            self.wf(),
            p < self.tokens.len(),
        ensures
            r == word_at(self.seen(), p as int, keyword@),
            r ==> p + 1 < self.tokens.len(),
    {
        assert(self.seen()[p as int] == self.tokens@[p as int]@);
        match &self.tokens[p].kind {
            TokenKind::Word(word) => same_ignoring_case(word.as_str(), keyword),
            _ => false,
        }
    }

    fn symbol(&self, p: usize) -> (r: Option<Symbol>)
        requires
            self.wf(),
            p < self.tokens.len(),
        ensures
            match r {
                Some(symbol) => symbol_at(self.seen(), p as int, symbol) && p + 1
                    < self.tokens.len(),
                None => !(self.seen()[p as int].lexeme is Symbol),
            },
    {
        assert(self.seen()[p as int] == self.tokens@[p as int]@);
        match &self.tokens[p].kind {
            TokenKind::Symbol(symbol) => Some(*symbol),
            _ => None,
        }
    }

    fn peek_symbol(&self, p: usize, expected: Symbol) -> (r: bool)
        requires
            self.wf(),
            p < self.tokens.len(),
        ensures
            r == symbol_at(self.seen(), p as int, expected),
            r ==> p + 1 < self.tokens.len(),
    {
        match self.symbol(p) {
            Some(symbol) => symbol == expected,
            None => false,
        }
    }

    fn wrong(&self, p: usize, message: &str) -> (e: ExpressionError)
        requires
            p < self.tokens.len(),
        ensures
            e@ == wrong_at(self.seen(), p as int, message@),
    {
        assert(self.seen()[p as int] == self.tokens@[p as int]@);
        parse_error(message, self.tokens[p].position)
    }

    fn expect_word(&self, p: usize, keyword: &str) -> (r: Result<usize, ExpressionError>)
        requires
            self.wf(),
            p < self.tokens.len(),
        ensures
            match r {
                Ok(q) => word_at(self.seen(), p as int, keyword@) && q == p + 1 && q
                    < self.tokens.len(),
                Err(e) => !word_at(self.seen(), p as int, keyword@) && e@ == wrong_at(
                    self.seen(),
                    p as int,
                    "expected keyword "@ + keyword@,
                ),
            },
    {
        if self.peek_word(p, keyword) {
            Ok(p + 1)
        } else {
            Err(self.wrong(p, concat2("expected keyword ", keyword).as_str()))
        }
    }

    fn expect(&self, p: usize, expected: Symbol, message: &str) -> (r: Result<
        usize,
        ExpressionError,
    >)
        requires
            self.wf(),
            p < self.tokens.len(),
        ensures
            match r {
                Ok(q) => symbol_at(self.seen(), p as int, expected) && q == p + 1 && q
                    < self.tokens.len(),
                Err(e) => !symbol_at(self.seen(), p as int, expected) && e@ == wrong_at(
                    self.seen(),
                    p as int,
                    message@,
                ),
            },
    {
        if self.peek_symbol(p, expected) {
            Ok(p + 1)
        } else {
            Err(self.wrong(p, message))
        }
    }

    fn operator(&self, p: usize, level: Level) -> (r: Option<BinaryOperator>)
        requires
            self.wf(),
            p < self.tokens.len(),
        ensures
            r == operator_at(self.seen(), p as int, level),
            r is Some ==> p + 1 < self.tokens.len(),
    {
        match level {
            Level::Or => if self.peek_word(p, "OR") {
                Some(BinaryOperator::Or)
            } else {
                None
            },
            Level::And => if self.peek_word(p, "AND") {
                Some(BinaryOperator::And)
            } else {
                None
            },
            Level::Comparison => match self.symbol(p) {
                Some(Symbol::Equal) => Some(BinaryOperator::Equal),
                Some(Symbol::NotEqual) => Some(BinaryOperator::NotEqual),
                Some(Symbol::Less) => Some(BinaryOperator::Less),
                Some(Symbol::LessOrEqual) => Some(BinaryOperator::LessOrEqual),
                Some(Symbol::Greater) => Some(BinaryOperator::Greater),
                Some(Symbol::GreaterOrEqual) => Some(BinaryOperator::GreaterOrEqual),
                _ => None,
            },
            Level::Additive => match self.symbol(p) {
                Some(Symbol::Plus) => Some(BinaryOperator::Add),
                Some(Symbol::Minus) => Some(BinaryOperator::Subtract),
                _ => None,
            },
            Level::Multiplicative => match self.symbol(p) {
                Some(Symbol::Star) => Some(BinaryOperator::Multiply),
                Some(Symbol::Slash) => Some(BinaryOperator::Divide),
                Some(Symbol::Percent) => Some(BinaryOperator::Modulo),
                _ => None,
            },
            _ => None,
        }
    }

    fn level<F: Fn(FloatRequest) -> FloatReply>(
        &self,
        p: usize,
        depth: usize,
        level: Level,
        f: &F,
    ) -> (r: Result<(Expr, usize), ExpressionError>)
        requires
            self.wf(),
            p < self.tokens.len(),
            depth <= MAX_EXPRESSION_DEPTH,
            answers_floats(*f),
        ensures
            agrees(
                r,
                level_at(self.seen(), p as int, depth as int, level, float_model(*f)),
                p as int,
                self.tokens@.len(),
            ),
        decreases self.tokens@.len() - p, 2 * rank(level) + 1,
    {
        match level {
            Level::Not => self.negation(p, depth, f),
            Level::Unary => self.unary(p, depth, f),
            _ => self.operation(p, depth, level, f),
        }
    }

    fn negation<F: Fn(FloatRequest) -> FloatReply>(&self, p: usize, depth: usize, f: &F) -> (r:
        Result<(Expr, usize), ExpressionError>)
        requires
            self.wf(),
            p < self.tokens.len(),
            depth <= MAX_EXPRESSION_DEPTH,
            answers_floats(*f),
        ensures
            agrees(
                r,
                level_at(self.seen(), p as int, depth as int, Level::Not, float_model(*f)),
                p as int,
                self.tokens@.len(),
            ),
        decreases self.tokens@.len() - p, 2 * rank(Level::Not),
    {
        if !self.peek_word(p, "NOT") {
            return self.level(p, depth, Level::Comparison, f);
        }
        if depth >= MAX_EXPRESSION_DEPTH {
            return Err(ExpressionError::ExpressionTooDeep { limit: MAX_EXPRESSION_DEPTH });
        }
        let (e, q) = self.level(p + 1, depth + 1, Level::Not, f)?;
        Ok((Expr::Unary { operator: UnaryOperator::Not, expression: Box::new(e) }, q))
    }

    fn unary<F: Fn(FloatRequest) -> FloatReply>(&self, p: usize, depth: usize, f: &F) -> (r: Result<
        (Expr, usize),
        ExpressionError,
    >)
        requires
            self.wf(),
            p < self.tokens.len(),
            depth <= MAX_EXPRESSION_DEPTH,
            answers_floats(*f),
        ensures
            agrees(
                r,
                level_at(self.seen(), p as int, depth as int, Level::Unary, float_model(*f)),
                p as int,
                self.tokens@.len(),
            ),
        decreases self.tokens@.len() - p, 2 * rank(Level::Unary),
    {
        let operator = match self.symbol(p) {
            Some(Symbol::Plus) => UnaryOperator::Plus,
            Some(Symbol::Minus) => UnaryOperator::Minus,
            _ => return self.primary(p, depth, f),
        };
        let next = p + 1;
        assert(self.seen()[next as int] == self.tokens@[next as int]@);
        if operator == UnaryOperator::Minus {
            if let TokenKind::Number(digits) = &self.tokens[next].kind {
                if same_text(digits.as_str(), "9223372036854775808") {
                    return Ok((Expr::Literal(Value::Int64(i64::MIN)), next + 1));
                }
            }
        }
        if depth >= MAX_EXPRESSION_DEPTH {
            return Err(ExpressionError::ExpressionTooDeep { limit: MAX_EXPRESSION_DEPTH });
        }
        let (e, q) = self.level(next, depth + 1, Level::Unary, f)?;
        Ok((Expr::Unary { operator, expression: Box::new(e) }, q))
    }

    #[verifier::loop_isolation(false)]
    fn operation<F: Fn(FloatRequest) -> FloatReply>(
        &self,
        p: usize,
        depth: usize,
        level: Level,
        f: &F,
    ) -> (r: Result<(Expr, usize), ExpressionError>)
        requires
            self.wf(),
            p < self.tokens.len(),
            depth <= MAX_EXPRESSION_DEPTH,
            answers_floats(*f),
            level != Level::Not,
            level != Level::Unary,
        ensures
            agrees(
                r,
                level_at(self.seen(), p as int, depth as int, level, float_model(*f)),
                p as int,
                self.tokens@.len(),
            ),
        decreases self.tokens@.len() - p, 2 * rank(level),
    {
        let ghost tokens = self.seen();
        let ghost m = float_model(*f);
        let operands = match level {
            Level::Or => Level::And,
            Level::And => Level::Not,
            Level::Comparison => Level::Additive,
            Level::Additive => Level::Multiplicative,
            _ => Level::Unary,
        };
        let (first, behind) = self.level(p, depth, operands, f)?;
        let mut e = first;
        let mut q = behind;
        loop
            invariant
                p < q < self.tokens.len(),
                level_at(tokens, p as int, depth as int, level, m) == level_rest(
                    tokens,
                    q as int,
                    depth as int,
                    level,
                    tree_of(e),
                    m,
                ),
            decreases self.tokens.len() - q,
        {
            match self.operator(q, level) {
                Some(operator) => {
                    let (right, next) = self.level(q + 1, depth, operands, f)?;
                    e = Expr::Binary { left: Box::new(e), operator, right: Box::new(right) };
                    if !e.fits_within(MAX_EXPRESSION_DEPTH) {
                        return Err(
                            ExpressionError::ExpressionTooDeep { limit: MAX_EXPRESSION_DEPTH },
                        );
                    }
                    q = next;
                },
                None => {
                    if level != Level::Comparison || !self.peek_word(q, "IS") {
                        return Ok((e, q));
                    }
                    let negated = self.peek_word(q + 1, "NOT");
                    let null = if negated { q + 2 } else { q + 1 };
                    let next = self.expect_word(null, "NULL")?;
                    e = Expr::IsNull { expression: Box::new(e), negated };
                    if !e.fits_within(MAX_EXPRESSION_DEPTH) {
                        return Err(
                            ExpressionError::ExpressionTooDeep { limit: MAX_EXPRESSION_DEPTH },
                        );
                    }
                    q = next;
                },
            }
        }
    }

    fn nested<F: Fn(FloatRequest) -> FloatReply>(&self, p: usize, depth: usize, f: &F) -> (r: Result<
        (Expr, usize),
        ExpressionError,
    >)
        requires
            self.wf(),
            p < self.tokens.len(),
            depth <= MAX_EXPRESSION_DEPTH,
            answers_floats(*f),
        ensures
            agrees(
                r,
                nested_at(self.seen(), p as int, depth as int, float_model(*f)),
                p as int,
                self.tokens@.len(),
            ),
        decreases self.tokens@.len() - p, 16nat,
    {
        if depth >= MAX_EXPRESSION_DEPTH {
            return Err(ExpressionError::ExpressionTooDeep { limit: MAX_EXPRESSION_DEPTH });
        }
        self.level(p, depth + 1, Level::Or, f)
    }

    fn primary<F: Fn(FloatRequest) -> FloatReply>(&self, p: usize, depth: usize, f: &F) -> (r:
        Result<(Expr, usize), ExpressionError>)
        requires
            self.wf(),
            p < self.tokens.len(),
            depth <= MAX_EXPRESSION_DEPTH,
            answers_floats(*f),
        ensures
            agrees(
                r,
                primary_at(self.seen(), p as int, depth as int, float_model(*f)),
                p as int,
                self.tokens@.len(),
            ),
        decreases self.tokens@.len() - p, 0nat,
    {
        let ghost tokens = self.seen();
        assert(tokens[p as int] == self.tokens@[p as int]@);
        match &self.tokens[p].kind {
            TokenKind::Number(s) => match literal_number(s.as_str(), f) {
                Ok(value) => Ok((Expr::Literal(value), p + 1)),
                Err(message) => Err(self.wrong(p, message)),
            },
            TokenKind::String(s) => Ok((Expr::Literal(Value::String(s.clone())), p + 1)),
            TokenKind::QuotedIdentifier(name) => Ok((Expr::QuotedColumn(name.clone()), p + 1)),
            TokenKind::Symbol(Symbol::LeftParen) => {
                let (e, q) = self.nested(p + 1, depth, f)?;
                let next = self.expect(q, Symbol::RightParen, "expected `)`")?;
                Ok((e, next))
            },
            TokenKind::Word(word) => {
                let name = word.as_str();
                if same_ignoring_case(name, "NULL") {
                    Ok((Expr::Literal(Value::Null), p + 1))
                } else if same_ignoring_case(name, "TRUE") {
                    Ok((Expr::Literal(Value::Bool(true)), p + 1))
                } else if same_ignoring_case(name, "FALSE") {
                    Ok((Expr::Literal(Value::Bool(false)), p + 1))
                } else if same_ignoring_case(name, "CAST") {
                    let next = self.expect(p + 1, Symbol::LeftParen, "expected `(` after CAST")?;
                    self.cast(next, depth, f)
                } else if same_ignoring_case(name, "CASE") {
                    self.case(p + 1, depth, f)
                } else if !self.peek_symbol(p + 1, Symbol::LeftParen) {
                    Ok((Expr::Column(word.clone()), p + 1))
                } else if self.peek_symbol(p + 2, Symbol::RightParen) {
                    let arguments: Vec<Expr> = Vec::new();
                    assert(trees_of(arguments@, 0) =~= Seq::<Tree>::empty());
                    Ok((Expr::Function { name: to_lower(name), arguments }, p + 3))
                } else {
                    self.function(p + 2, depth, name, f)
                }
            },
            _ => Err(self.wrong(p, "expected an expression")),
        }
    }

    fn cast<F: Fn(FloatRequest) -> FloatReply>(&self, p: usize, depth: usize, f: &F) -> (r: Result<
        (Expr, usize),
        ExpressionError,
    >)
        requires
            self.wf(),
            p < self.tokens.len(),
            depth <= MAX_EXPRESSION_DEPTH,
            answers_floats(*f),
        ensures
            agrees(
                r,
                cast_at(self.seen(), p as int, depth as int, float_model(*f)),
                p as int,
                self.tokens@.len(),
            ),
        decreases self.tokens@.len() - p, 18nat,
    {
        let ghost tokens = self.seen();
        let (e, q) = self.nested(p, depth, f)?;
        let named = self.expect_word(q, "AS")?;
        assert(tokens[named as int] == self.tokens@[named as int]@);
        match &self.tokens[named].kind {
            TokenKind::Word(name) => {
                let folded = to_lower(name.as_str());
                match type_named(folded.as_str()) {
                    None => Err(
                        self.wrong(
                            named,
                            concat3("unknown scalar type `", name.as_str(), "`").as_str(),
                        ),
                    ),
                    Some(target) => {
                        let next = self.expect(
                            named + 1,
                            Symbol::RightParen,
                            "expected `)` after CAST",
                        )?;
                        Ok((Expr::Cast { expression: Box::new(e), target }, next))
                    },
                }
            },
            _ => Err(self.wrong(named, "expected a type name after AS")),
        }
    }

    #[verifier::loop_isolation(false)]
    fn case<F: Fn(FloatRequest) -> FloatReply>(&self, p: usize, depth: usize, f: &F) -> (r: Result<
        (Expr, usize),
        ExpressionError,
    >)
        requires
            self.wf(),
            p < self.tokens.len(),
            depth <= MAX_EXPRESSION_DEPTH,
            answers_floats(*f),
        ensures
            agrees(
                r,
                case_at(self.seen(), p as int, depth as int, float_model(*f)),
                p as int,
                self.tokens@.len(),
            ),
        decreases self.tokens@.len() - p, 20nat,
    {
        let ghost tokens = self.seen();
        let ghost m = float_model(*f);
        let mut operand: Option<Box<Expr>> = None;
        let mut q = p;
        if !self.peek_word(p, "WHEN") {
            let (e, next) = self.nested(p, depth, f)?;
            operand = Some(Box::new(e));
            q = next;
        }
        let ghost subject = boxed(operand);
        let mut branches: Vec<(Expr, Expr)> = Vec::new();
        assert(branches_of(branches@, 0) =~= Seq::<(Tree, Tree)>::empty());
        while self.peek_word(q, "WHEN")
            invariant
                p <= q < self.tokens.len(),
                branches@.len() == 0 ==> p < q || word_at(tokens, q as int, "WHEN"@),
                branches@.len() > 0 ==> p < q,
                case_at(tokens, p as int, depth as int, m) == branches_rest(
                    tokens,
                    q as int,
                    depth as int,
                    subject,
                    branches_of(branches@, branches@.len()),
                    m,
                ),
            decreases self.tokens.len() - q,
        {
            let (condition, behind) = self.nested(q + 1, depth, f)?;
            let result_at = self.expect_word(behind, "THEN")?;
            let (result, next) = self.nested(result_at, depth, f)?;
            proof {
                branches_grow(branches@, (condition, result));
                crate::expression::tree::branches_match(branches@, branches@.len());
            }
            branches.push((condition, result));
            q = next;
        }
        proof {
            crate::expression::tree::branches_match(branches@, branches@.len());
        }
        if branches.len() == 0 {
            return Err(self.wrong(q, "CASE requires at least one WHEN branch"));
        }
        let mut else_expression: Option<Box<Expr>> = None;
        if self.peek_word(q, "ELSE") {
            let (e, next) = self.nested(q + 1, depth, f)?;
            else_expression = Some(Box::new(e));
            q = next;
        }
        let next = self.expect_word(q, "END")?;
        Ok((Expr::Case { operand, branches, else_expression }, next))
    }

    #[verifier::loop_isolation(false)]
    fn function<F: Fn(FloatRequest) -> FloatReply>(
        &self,
        p: usize,
        depth: usize,
        name: &str,
        f: &F,
    ) -> (r: Result<(Expr, usize), ExpressionError>)
        requires
            self.wf(),
            p < self.tokens.len(),
            depth <= MAX_EXPRESSION_DEPTH,
            answers_floats(*f),
        ensures
            agrees(
                r,
                arguments_rest(
                    self.seen(),
                    p as int,
                    depth as int,
                    name@,
                    Seq::empty(),
                    float_model(*f),
                ),
                p as int,
                self.tokens@.len(),
            ),
        decreases self.tokens@.len() - p, 18nat,
    {
        let ghost tokens = self.seen();
        let ghost m = float_model(*f);
        let mut arguments: Vec<Expr> = Vec::new();
        assert(trees_of(arguments@, 0) =~= Seq::<Tree>::empty());
        let mut q = p;
        loop
            invariant
                p <= q < self.tokens.len(),
                arguments_rest(tokens, p as int, depth as int, name@, Seq::empty(), m)
                    == arguments_rest(
                    tokens,
                    q as int,
                    depth as int,
                    name@,
                    trees_of(arguments@, arguments@.len()),
                    m,
                ),
            decreases self.tokens.len() - q,
        {
            let (e, next) = self.nested(q, depth, f)?;
            proof {
                trees_grow(arguments@, e);
            }
            arguments.push(e);
            if self.peek_symbol(next, Symbol::RightParen) {
                return Ok((Expr::Function { name: to_lower(name), arguments }, next + 1));
            }
            q = self.expect(next, Symbol::Comma, "expected `,` between function arguments")?;
        }
    }
}

fn literal_number<F: Fn(FloatRequest) -> FloatReply>(s: &str, f: &F) -> (r: Result<
    Value,
    &'static str,
>)
    requires
        answers_floats(*f),
    ensures
        match r {
            Ok(v) => number_value(float_model(*f), s@) == Ok::<_, Seq<char>>(v@),
            Err(message) => number_value(float_model(*f), s@) == Err::<Datum, _>(message@),
        },
{
    if has_float_mark(s) {
        match parse_float(f, s) {
            Some(bits) => Ok(Value::Float64(bits)),
            None => Err("invalid Float64 literal"),
        }
    } else {
        match parse_i64(s) {
            Some(i) => Ok(Value::Int64(i)),
            None => Err("Int64 literal is out of range"),
        }
    }
}

/// The content of a parse.
pub open spec fn parsed(r: Result<Expr, ExpressionError>) -> Result<Tree, ExpressionFault> {
    match r {
        Ok(e) => Ok(e@),
        Err(e) => Err(e@),
    }
}

/// Parses one scalar expression.
pub fn parse<F: Fn(FloatRequest) -> FloatReply>(sql: &str, f: &F) -> (r: Result<
    Expr,
    ExpressionError,
>)
    requires
        answers_floats(*f),
    ensures
        parsed(r) == expression_of(sql@, float_model(*f)),
{
    let parser = Parser { tokens: tokenize(sql)? };
    let (e, q) = parser.level(0, 1, Level::Or, f)?;
    assert(parser.seen()[q as int] == parser.tokens@[q as int]@);
    if !matches!(parser.tokens[q].kind, TokenKind::End) {
        return Err(parser.wrong(q, "unexpected token after expression"));
    }
    if !e.fits_within(MAX_EXPRESSION_DEPTH) {
        return Err(ExpressionError::ExpressionTooDeep { limit: MAX_EXPRESSION_DEPTH });
    }
    Ok(e)
}

/// The value of the expression that a text is.
pub open spec fn text_value(s: Seq<char>, b: Bindings, m: FloatModel) -> Result<
    Datum,
    ExpressionFault,
> {
    match expression_of(s, m) {
        Err(fault) => Err(fault),
        Ok(t) => expression_value(t, b, m),
    }
}

/// Parses and evaluates one scalar expression.
pub fn evaluate<F: Fn(FloatRequest) -> FloatReply>(
    sql: &str,
    context: &EvaluationContext,
    f: &F,
) -> (r: Result<Value, ExpressionError>)
    requires
        context.wf(),
        answers_floats(*f),
    ensures
        evaluated(r) == text_value(sql@, context@, float_model(*f)),
{
    parse(sql, f)?.evaluate(context, f)
}

} // verus!
