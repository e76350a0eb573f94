//! What scalar expressions are for.

use vstd::prelude::*;
use crate::expression::context::Bindings;
use crate::expression::evaluation::{branch_from, known_from, value_of};
use crate::expression::fault::ExpressionFault;
use crate::expression::functions::{concat_value, substring_value, text_value, texts_from};
use crate::expression::operators::{binary_value, casted, compare_value, unary_value};
use crate::expression::tree::{tree_of, BinaryOperator, Expr, Tree, UnaryOperator};
use crate::float::{float_difference, float_from, float_product, float_quotient, float_remainder, float_sum, is_zero, FloatModel};
use crate::laws::orders::{below, comparing_agrees_with_the_rank, not_a_number, rank_puts_the_smaller_first};
use crate::laws::scalars::{is_truth, numeric, remainder_of_truncating_division, widened};
use crate::ordering::same_kind;
use crate::text::{is_space, lower, space_end, space_start, trimmed};
use crate::types::{DataType, Datum};

verus! {

/// Dividing integers is dividing the floating-point values that they convert to, the left one
/// being the dividend: `a / b` is `CAST(a AS Float64) / CAST(b AS Float64)`.
pub proof fn integer_division_is_floating_point(m: FloatModel, a: i64, b: i64)
    requires
        b != 0,
    ensures
        binary_value(m, Datum::Int64(a), BinaryOperator::Divide, Datum::Int64(b)) == Ok::<
            Datum,
            ExpressionFault,
        >(Datum::Float64(float_quotient(m, float_from(m, a as int), float_from(m, b as int)))),
        !is_zero(float_from(m, b as int)) ==> binary_value(
            m,
            Datum::Int64(a),
            BinaryOperator::Divide,
            Datum::Int64(b),
        ) == binary_value(
            m,
            Datum::Float64(float_from(m, a as int)),
            BinaryOperator::Divide,
            Datum::Float64(float_from(m, b as int)),
        ),
        !is_zero(float_from(m, b as int)) ==> (casted(m, Datum::Int64(a), DataType::Float64) matches Ok(
            x,
        ) && (casted(m, Datum::Int64(b), DataType::Float64) matches Ok(y) && binary_value(
            m,
            Datum::Int64(a),
            BinaryOperator::Divide,
            Datum::Int64(b),
        ) == binary_value(m, x, BinaryOperator::Divide, y))),
{
}

/// Dividing or taking a remainder by zero fails, and so it does by a floating-point zero.
pub proof fn nothing_is_divided_by_zero(m: FloatModel, a: Datum, b: Datum)
    requires
        numeric(a),
        b == Datum::Int64(0) && a is Int64 || (b is Float64 && is_zero(b->Float64_0)),
    ensures
        binary_value(m, a, BinaryOperator::Divide, b) == Err::<Datum, ExpressionFault>(
            ExpressionFault::DivideByZero,
        ),
        binary_value(m, a, BinaryOperator::Modulo, b) == Err::<Datum, ExpressionFault>(
            ExpressionFault::DivideByZero,
        ),
{
}

/// `+`, `-` and `*` on integers give the exact sum, difference and product, and fail exactly
/// where it is out of range.
pub proof fn integer_arithmetic_is_exact(m: FloatModel, a: i64, b: i64)
    ensures
        ({
            let sum = binary_value(m, Datum::Int64(a), BinaryOperator::Add, Datum::Int64(b));
            let difference = binary_value(
                m,
                Datum::Int64(a),
                BinaryOperator::Subtract,
                Datum::Int64(b),
            );
            let product = binary_value(
                m,
                Datum::Int64(a),
                BinaryOperator::Multiply,
                Datum::Int64(b),
            );
            &&& sum is Ok <==> i64::MIN <= a + b <= i64::MAX
            &&& sum matches Ok(d) ==> d is Int64 && d->Int64_0 == a + b
            &&& difference is Ok <==> i64::MIN <= a - b <= i64::MAX
            &&& difference matches Ok(d) ==> d is Int64 && d->Int64_0 == a - b
            &&& product is Ok <==> i64::MIN <= a * b <= i64::MAX
            &&& product matches Ok(d) ==> d is Int64 && d->Int64_0 == a * b
        }),
{
}

/// `%` on integers is the remainder of truncating division.
pub proof fn integer_remainder_has_the_sign_of_the_dividend(m: FloatModel, a: i64, b: i64) -> (q: int)
    ensures
        ({
            let r = binary_value(m, Datum::Int64(a), BinaryOperator::Modulo, Datum::Int64(b));
            &&& r is Ok <==> b != 0 && !(a == i64::MIN && b == -1)
            &&& r matches Ok(d) ==> d is Int64 && {
                let rest = d->Int64_0;
                &&& a == b * q + rest
                &&& -(if b < 0 { -b } else { b as int }) < rest < (if b < 0 { -b } else { b as int })
                &&& a >= 0 ==> rest >= 0
                &&& a <= 0 ==> rest <= 0
            }
        }),
{
    if b != 0 {
        remainder_of_truncating_division(a as int, b as int)
    } else {
        0
    }
}

/// With a floating-point operand, arithmetic is that of floating-point values, the left operand
/// first.
pub proof fn mixed_arithmetic_is_floating_point(m: FloatModel, a: Datum, b: Datum)
    requires
        numeric(a),
        numeric(b),
        a is Float64 || b is Float64,
    ensures
        ({
            let (x, y) = (widened(m, a), widened(m, b));
            &&& binary_value(m, a, BinaryOperator::Add, b) == Ok::<Datum, ExpressionFault>(
                Datum::Float64(float_sum(m, x, y)),
            )
            &&& binary_value(m, a, BinaryOperator::Subtract, b) == Ok::<Datum, ExpressionFault>(
                Datum::Float64(float_difference(m, x, y)),
            )
            &&& binary_value(m, a, BinaryOperator::Multiply, b) == Ok::<Datum, ExpressionFault>(
                Datum::Float64(float_product(m, x, y)),
            )
            &&& !is_zero(y) ==> binary_value(m, a, BinaryOperator::Divide, b) == Ok::<
                Datum,
                ExpressionFault,
            >(Datum::Float64(float_quotient(m, x, y)))
            &&& !is_zero(y) ==> binary_value(m, a, BinaryOperator::Modulo, b) == Ok::<
                Datum,
                ExpressionFault,
            >(Datum::Float64(float_remainder(m, x, y)))
        }),
{
}

/// Whether an operator compares.
pub open spec fn compares(operator: BinaryOperator) -> bool {
    operator is Equal || operator is NotEqual || operator is Less || operator is LessOrEqual
        || operator is Greater || operator is GreaterOrEqual
}

/// A comparison of data of one kind says which of them is smaller; it is unknown with NULL and
/// fails between kinds.
pub proof fn comparisons_tell_the_smaller(m: FloatModel, a: Datum, b: Datum, operator: BinaryOperator)
    requires
        compares(operator),
    ensures
        a is Null || b is Null ==> binary_value(m, a, operator, b) == Ok::<Datum, ExpressionFault>(
            Datum::Null,
        ),
        !(a is Null) && !(b is Null) && !same_kind(a, b) ==> binary_value(m, a, operator, b) is Err,
        same_kind(a, b) && !not_a_number(a) && !not_a_number(b) ==> binary_value(m, a, operator, b)
            == Ok::<Datum, ExpressionFault>(
            Datum::Bool(
                match operator {
                    BinaryOperator::Equal => !below(a, b) && !below(b, a),
                    BinaryOperator::NotEqual => below(a, b) || below(b, a),
                    BinaryOperator::Less => below(a, b),
                    BinaryOperator::LessOrEqual => !below(b, a),
                    BinaryOperator::Greater => below(b, a),
                    _ => !below(a, b),
                },
            ),
        ),
        same_kind(a, b) && (not_a_number(a) || not_a_number(b)) ==> binary_value(m, a, operator, b)
            == Ok::<Datum, ExpressionFault>(Datum::Bool(operator is NotEqual)),
{
    comparing_agrees_with_the_rank(a, b);
    rank_puts_the_smaller_first(a, b);
}

/// `AND` is true where both sides are, false where one side is false, and else unknown; `OR` is
/// true where one side is, false where both sides are false, and else unknown.
pub proof fn logic_is_three_valued(m: FloatModel, a: Datum, b: Datum)
    ensures
        is_truth(a) && is_truth(b) ==> binary_value(m, a, BinaryOperator::And, b) == Ok::<
            Datum,
            ExpressionFault,
        >(
            if a == Datum::Bool(false) || b == Datum::Bool(false) {
                Datum::Bool(false)
            } else if a is Null || b is Null {
                Datum::Null
            } else {
                Datum::Bool(true)
            },
        ),
        is_truth(a) && is_truth(b) ==> binary_value(m, a, BinaryOperator::Or, b) == Ok::<
            Datum,
            ExpressionFault,
        >(
            if a == Datum::Bool(true) || b == Datum::Bool(true) {
                Datum::Bool(true)
            } else if a is Null || b is Null {
                Datum::Null
            } else {
                Datum::Bool(false)
            },
        ),
        !is_truth(a) || !is_truth(b) ==> binary_value(m, a, BinaryOperator::And, b) is Err
            && binary_value(m, a, BinaryOperator::Or, b) is Err,
{
}

/// `NOT` exchanges true and false; unary minus takes the negative; unary plus keeps numbers; all
/// keep NULL.
pub proof fn unary_operators_act_on_their_operand(operator: UnaryOperator, d: Datum)
    ensures
        d is Null ==> unary_value(operator, d) == Ok::<Datum, ExpressionFault>(Datum::Null),
        operator is Not && d is Bool ==> unary_value(operator, d) == Ok::<Datum, ExpressionFault>(
            Datum::Bool(d == Datum::Bool(false)),
        ),
        operator is Not && !is_truth(d) ==> unary_value(operator, d) is Err,
        operator is Plus && numeric(d) ==> unary_value(operator, d) == Ok::<Datum, ExpressionFault>(d),
        operator is Minus && d is Int64 ==> (unary_value(operator, d) is Ok <==> d->Int64_0
            != i64::MIN),
        operator is Minus && d is Int64 ==> (unary_value(operator, d) matches Ok(n) ==> n is Int64
            && n->Int64_0 + d->Int64_0 == 0),
        operator is Minus && d is Float64 ==> (unary_value(operator, d) matches Ok(n)
            && n is Float64 && n->Float64_0 % 0x8000_0000_0000_0000 == d->Float64_0
            % 0x8000_0000_0000_0000 && n->Float64_0 != d->Float64_0),
        !(operator is Not) && !(d is Null) && !numeric(d) ==> unary_value(operator, d) is Err,
{
}

/// An operator of two operands is applied to the values of the left and the right one, where the
/// left one does not decide alone.
pub proof fn operands_are_evaluated(
    left: Box<Expr>,
    operator: BinaryOperator,
    right: Box<Expr>,
    b: Bindings,
    m: FloatModel,
    x: Datum,
    y: Datum,
)
    requires
        value_of(tree_of(*left), b, m) == Ok::<Datum, ExpressionFault>(x),
        value_of(tree_of(*right), b, m) == Ok::<Datum, ExpressionFault>(y),
        is_truth(y) || !(operator is And || operator is Or),
    ensures
        value_of(tree_of(Expr::Binary { left, operator, right }), b, m) == binary_value(
            m,
            x,
            operator,
            y,
        ),
{
    reveal_with_fuel(value_of, 2);
    reveal_with_fuel(tree_of, 2);
}

/// `IS NULL` and `IS NOT NULL` tell whether the operand is NULL.
pub proof fn null_is_told(e: Box<Expr>, b: Bindings, m: FloatModel, d: Datum)
    requires
        value_of(tree_of(*e), b, m) == Ok::<Datum, ExpressionFault>(d),
    ensures
        value_of(tree_of(Expr::IsNull { expression: e, negated: false }), b, m) == Ok::<
            Datum,
            ExpressionFault,
        >(Datum::Bool(d is Null)),
        value_of(tree_of(Expr::IsNull { expression: e, negated: true }), b, m) == Ok::<
            Datum,
            ExpressionFault,
        >(Datum::Bool(!(d is Null))),
{
    reveal_with_fuel(value_of, 2);
    reveal_with_fuel(tree_of, 2);
}

/// Whether the condition of a branch holds, given the subject if there is one.
pub open spec fn branch_applies(subject: Option<Datum>, condition: Datum) -> bool {
    match subject {
        Some(d) => !(d is Null) && !(condition is Null) && !below(d, condition) && !below(condition, d),
        None => condition == Datum::Bool(true),
    }
}

/// Whether the condition of a branch can be tested.
pub open spec fn branch_is_testable(subject: Option<Datum>, condition: Datum) -> bool {
    match subject {
        Some(d) => d is Null || condition is Null || (same_kind(d, condition) && !not_a_number(d)
            && !not_a_number(condition)),
        None => is_truth(condition),
    }
}

proof fn testing_a_branch(subject: Option<Datum>, condition: Datum, m: FloatModel)
    requires
        branch_is_testable(subject, condition),
    ensures
        match subject {
            Some(d) => compare_value(d, BinaryOperator::Equal, condition) matches Ok(equal) && (equal
                == Datum::Bool(true) <==> branch_applies(subject, condition)),
            None => crate::expression::operators::truth(condition, "CASE WHEN"@) matches Ok(t) && (t
                == Some(true) <==> branch_applies(subject, condition)),
        },
{
    if let Some(d) = subject {
        comparisons_tell_the_smaller(m, d, condition, BinaryOperator::Equal);
    }
}

proof fn first_branch_is_taken(
    subject: Option<Datum>,
    branches: Seq<(Tree, Tree)>,
    i: int,
    at: int,
    b: Bindings,
    m: FloatModel,
)
    requires
        0 <= i <= at <= branches.len(),
        forall|k: int|
            i <= k <= at && k < branches.len() ==> value_of((#[trigger] branches[k]).0, b, m) is Ok
                && branch_is_testable(subject, value_of(branches[k].0, b, m)->Ok_0)
                && branch_applies(subject, value_of(branches[k].0, b, m)->Ok_0) == (k == at),
    ensures
        branch_from(subject, branches, i, b, m) == (if at == branches.len() {
            Ok::<Option<Datum>, ExpressionFault>(None)
        } else {
            match value_of(branches[at].1, b, m) {
                Ok(d) => Ok(Some(d)),
                Err(fault) => Err(fault),
            }
        }),
    decreases at - i,
{
    if i < branches.len() {
        let first = branches[i];
        testing_a_branch(subject, value_of(first.0, b, m)->Ok_0, m);
        if i < at {
            first_branch_is_taken(subject, branches, i + 1, at, b, m);
        }
    }
}

/// `CASE` has the value of the first branch whose condition holds, or equals its operand; without
/// one it has the value of `ELSE`, or is NULL.
pub proof fn case_takes_the_first_branch(
    operand: Option<Box<Tree>>,
    branches: Seq<(Tree, Tree)>,
    else_expression: Option<Box<Tree>>,
    at: int,
    b: Bindings,
    m: FloatModel,
)
    requires
        operand matches Some(o) ==> value_of(*o, b, m) is Ok,
        0 <= at <= branches.len(),
        ({
            let subject = match operand {
                Some(o) => Some(value_of(*o, b, m)->Ok_0),
                None => None,
            };
            forall|k: int|
                0 <= k <= at && k < branches.len() ==> value_of((#[trigger] branches[k]).0, b, m) is Ok
                    && branch_is_testable(subject, value_of(branches[k].0, b, m)->Ok_0)
                    && branch_applies(subject, value_of(branches[k].0, b, m)->Ok_0) == (k == at)
        }),
    ensures
        value_of(Tree::Case { operand, branches, else_expression }, b, m) == (if at
            == branches.len() {
            match else_expression {
                Some(e) => value_of(*e, b, m),
                None => Ok::<Datum, ExpressionFault>(Datum::Null),
            }
        } else {
            value_of(branches[at].1, b, m)
        }),
{
    let subject = match operand {
        Some(o) => Some(value_of(*o, b, m)->Ok_0),
        None => None,
    };
    first_branch_is_taken(subject, branches, 0, at, b, m);
}

proof fn first_known_is_taken(arguments: Seq<Tree>, i: int, at: int, b: Bindings, m: FloatModel)
    requires
        0 <= i <= at <= arguments.len(),
        forall|k: int|
            i <= k < at ==> value_of(#[trigger] arguments[k], b, m) == Ok::<Datum, ExpressionFault>(
                Datum::Null,
            ),
        at < arguments.len() ==> value_of(arguments[at], b, m) is Ok && !(value_of(
            arguments[at],
            b,
            m,
        )->Ok_0 is Null),
    ensures
        known_from(arguments, i, b, m) == (if at == arguments.len() {
            Ok::<Datum, ExpressionFault>(Datum::Null)
        } else {
            value_of(arguments[at], b, m)
        }),
    decreases at - i,
{
    if i < at {
        first_known_is_taken(arguments, i + 1, at, b, m);
    }
}

/// `coalesce` is the first of its arguments that is not NULL, and NULL where there is none.
pub proof fn coalesce_takes_the_first_known(
    name: Seq<char>,
    arguments: Seq<Tree>,
    at: int,
    b: Bindings,
    m: FloatModel,
)
    requires
        lower(name) == "coalesce"@,
        arguments.len() > 0,
        0 <= at <= arguments.len(),
        forall|k: int|
            0 <= k < at ==> value_of(#[trigger] arguments[k], b, m) == Ok::<Datum, ExpressionFault>(
                Datum::Null,
            ),
        at < arguments.len() ==> value_of(arguments[at], b, m) is Ok && !(value_of(
            arguments[at],
            b,
            m,
        )->Ok_0 is Null),
    ensures
        value_of(Tree::Function { name, arguments }, b, m) == (if at == arguments.len() {
            Ok::<Datum, ExpressionFault>(Datum::Null)
        } else {
            value_of(arguments[at], b, m)
        }),
{
    first_known_is_taken(arguments, 0, at, b, m);
}

/// The texts of data one behind the other.
pub open spec fn texts_together(values: Seq<Datum>) -> Seq<char>
    decreases values.len(),
{
    if values.len() == 0 {
        Seq::empty()
    } else {
        texts_together(values.drop_last()) + values.last()->Text_0
    }
}

proof fn texts_are_joined(values: Seq<Datum>, i: int, done: Seq<char>)
    requires
        0 <= i <= values.len(),
        done == texts_together(values.take(i)),
        forall|k: int| 0 <= k < values.len() ==> #[trigger] values[k] is Text,
    ensures
        texts_from(values, i, done) == Ok::<Seq<char>, Datum>(texts_together(values)),
    decreases values.len() - i,
{
    if i < values.len() {
        assert(values.take(i + 1).drop_last() =~= values.take(i));
        assert(values[i] is Text);
        texts_are_joined(values, i + 1, done + values[i]->Text_0);
    } else {
        assert(values.take(i) =~= values);
    }
}

/// `concat` puts texts one behind the other, and is NULL where one of them is.
pub proof fn concat_joins_texts(values: Seq<Datum>)
    ensures
        (exists|k: int| 0 <= k < values.len() && #[trigger] values[k] is Null) ==> concat_value(values)
            == Ok::<Datum, ExpressionFault>(Datum::Null),
        (forall|k: int| 0 <= k < values.len() ==> #[trigger] values[k] is Text) ==> concat_value(values)
            == Ok::<Datum, ExpressionFault>(Datum::Text(texts_together(values))),
{
    if forall|k: int| 0 <= k < values.len() ==> #[trigger] values[k] is Text {
        assert(values.take(0) =~= Seq::<Datum>::empty());
        texts_are_joined(values, 0, Seq::empty());
    }
}

/// The characters of `substring(s, start, length)` are those of `s` from the start, which counts
/// from one, as many as asked for and there are.
pub proof fn substring_is_a_part(name: Seq<char>, s: Seq<char>, start: i64, length: i64)
    requires
        start >= 1,
        length >= 0,
    ensures
        ({
            let values = seq![Datum::Text(s), Datum::Int64(start), Datum::Int64(length)];
            &&& substring_value(name, values) matches Ok(d) && d is Text
            &&& {
                let found = substring_value(name, values)->Ok_0->Text_0;
                &&& start <= s.len() + 1 && s.len() - (start - 1) >= length ==> found.len() == length
                &&& start <= s.len() + 1 && s.len() - (start - 1) < length ==> found.len() == s.len()
                    - (start - 1)
                &&& start > s.len() + 1 ==> found.len() == 0
                &&& forall|k: int|
                    0 <= k < found.len() ==> #[trigger] found[k] == s[start - 1 + k]
            }
        }),
        ({
            let values = seq![Datum::Text(s), Datum::Int64(start)];
            &&& substring_value(name, values) matches Ok(d) && d is Text
            &&& {
                let found = substring_value(name, values)->Ok_0->Text_0;
                &&& start <= s.len() + 1 ==> found.len() == s.len() - (start - 1)
                &&& start > s.len() + 1 ==> found.len() == 0
                &&& forall|k: int|
                    0 <= k < found.len() ==> #[trigger] found[k] == s[start - 1 + k]
            }
        }),
{
}

proof fn text_function_names_differ()
    ensures
        "length"@ != "lower"@,
        "length"@ != "upper"@,
        "char_length"@ != "lower"@,
        "char_length"@ != "upper"@,
        "trim"@ != "lower"@,
        "trim"@ != "upper"@,
        "trim"@ != "length"@,
        "trim"@ != "char_length"@,
        "ltrim"@ != "lower"@,
        "ltrim"@ != "upper"@,
        "ltrim"@ != "length"@,
        "ltrim"@ != "char_length"@,
        "ltrim"@ != "trim"@,
        "rtrim"@ != "lower"@,
        "rtrim"@ != "upper"@,
        "rtrim"@ != "length"@,
        "rtrim"@ != "char_length"@,
        "rtrim"@ != "trim"@,
        "rtrim"@ != "ltrim"@,
{
    reveal_strlit("length");
    reveal_strlit("lower");
    reveal_strlit("upper");
    reveal_strlit("char_length");
    reveal_strlit("trim");
    reveal_strlit("ltrim");
    reveal_strlit("rtrim");
    assert("length"@.len() == 6 && "char_length"@.len() == 11 && "trim"@.len() == 4);
    assert("lower"@.len() == 5 && "upper"@.len() == 5 && "ltrim"@.len() == 5 && "rtrim"@.len() == 5);
    assert("lower"@[1] == 'o' && "upper"@[1] == 'p' && "ltrim"@[1] == 't' && "rtrim"@[1] == 't');
    assert("ltrim"@[0] == 'l' && "rtrim"@[0] == 'r');
}

/// `length` and `char_length` count characters, and are NULL on NULL.
pub proof fn length_counts_characters(s: Seq<char>)
    requires
        s.len() <= i64::MAX,
    ensures
        text_value("length"@, Datum::Text(s)) matches Ok(d) && d is Int64 && d->Int64_0 == s.len(),
        text_value("char_length"@, Datum::Text(s)) matches Ok(d) && d is Int64 && d->Int64_0 == s.len(),
        text_value("length"@, Datum::Null) == Ok::<Datum, ExpressionFault>(Datum::Null),
{
    text_function_names_differ();
}

proof fn space_end_ends(s: Seq<char>, i: int)
    requires
        0 <= i <= s.len(),
    ensures
        i <= space_end(s, i) <= s.len(),
        forall|k: int| i <= k < space_end(s, i) ==> is_space(#[trigger] s[k]),
        space_end(s, i) < s.len() ==> !is_space(s[space_end(s, i)]),
    decreases s.len() - i,
{
    if i < s.len() && is_space(s[i]) {
        space_end_ends(s, i + 1);
    }
}

proof fn space_start_starts(s: Seq<char>, n: int)
    requires
        0 <= n <= s.len(),
    ensures
        0 <= space_start(s, n) <= n,
        forall|k: int| space_start(s, n) <= k < n ==> is_space(#[trigger] s[k]),
        space_start(s, n) > 0 ==> !is_space(s[space_start(s, n) - 1]),
    decreases n,
{
    if 0 < n && is_space(s[n - 1]) {
        space_start_starts(s, n - 1);
    }
}

/// Whether text is all white space.
pub open spec fn all_space(s: Seq<char>) -> bool {
    forall|k: int| 0 <= k < s.len() ==> is_space(#[trigger] s[k])
}

/// Trimming takes white space away and nothing else: from the front for `ltrim`, from the end for
/// `rtrim`, from both for `trim`; and none is left there.
pub proof fn trimming_takes_white_space_away(s: Seq<char>) -> (cut: (int, int))
    ensures
        0 <= cut.0 <= s.len(),
        0 <= cut.1 <= s.len(),
        text_value("ltrim"@, Datum::Text(s)) == Ok::<Datum, ExpressionFault>(
            Datum::Text(s.skip(cut.0)),
        ),
        all_space(s.take(cut.0)),
        s.skip(cut.0).len() > 0 ==> !is_space(s.skip(cut.0)[0]),
        text_value("rtrim"@, Datum::Text(s)) == Ok::<Datum, ExpressionFault>(
            Datum::Text(s.take(cut.1)),
        ),
        all_space(s.skip(cut.1)),
        s.take(cut.1).len() > 0 ==> !is_space(s.take(cut.1).last()),
        all_space(s) ==> text_value("trim"@, Datum::Text(s)) == Ok::<Datum, ExpressionFault>(
            Datum::Text(Seq::empty()),
        ),
        !all_space(s) ==> cut.0 < cut.1 && text_value("trim"@, Datum::Text(s)) == Ok::<
            Datum,
            ExpressionFault,
        >(Datum::Text(s.subrange(cut.0, cut.1))),
{
    text_function_names_differ();
    let from = space_end(s, 0);
    let to = space_start(s, s.len() as int);
    space_end_ends(s, 0);
    space_start_starts(s, s.len() as int);
    if from < s.len() {
        assert(!is_space(s[from]));
        if to <= from {
            assert(is_space(s[from]));
        }
    } else {
        assert(all_space(s));
    }
    if all_space(s) {
        if from < s.len() {
            assert(is_space(s[from]));
        }
    }
    assert(trimmed(s) == (if from >= s.len() {
        Seq::<char>::empty()
    } else {
        s.subrange(from, to)
    }));
    (from, to)
}

} // verus!
