//! What holds of all scalar expressions.

use vstd::prelude::*;
use crate::expression::context::{bound, quoted_value, unquoted_value, Bindings};
use crate::expression::evaluation::{expression_value, value_of};
use crate::expression::fault::ExpressionFault;
use crate::expression::operators::{binary_value, compare_value, unary_value};
use crate::expression::parsing::expression_of;
use crate::expression::tree::{fits, BinaryOperator, Tree, UnaryOperator, MAX_EXPRESSION_DEPTH};
use crate::float::{is_nan, FloatModel};
use crate::text::lower;
use crate::types::Datum;

verus! {

/// What was parsed is nested within the limit, so that evaluating it never fails for its
/// depth.
pub proof fn parsed_expressions_fit(s: Seq<char>, b: Bindings, m: FloatModel)
    ensures
        expression_of(s, m) matches Ok(t) ==> fits(t, MAX_EXPRESSION_DEPTH as nat)
            && expression_value(t, b, m) == value_of(t, b, m),
{
}

/// `FALSE AND x` is false and `TRUE OR x` is true, even where `x` has no value.
pub proof fn left_operands_decide(left: Tree, right: Tree, b: Bindings, m: FloatModel)
    ensures
        value_of(left, b, m) == Ok::<_, ExpressionFault>(
            Datum::Bool(false),
        ) ==> value_of(
            Tree::Binary {
                left: Box::new(left),
                operator: BinaryOperator::And,
                right: Box::new(right),
            },
            b,
            m,
        ) == Ok::<_, ExpressionFault>(Datum::Bool(false)),
        value_of(left, b, m) == Ok::<_, ExpressionFault>(
            Datum::Bool(true),
        ) ==> value_of(
            Tree::Binary {
                left: Box::new(left),
                operator: BinaryOperator::Or,
                right: Box::new(right),
            },
            b,
            m,
        ) == Ok::<_, ExpressionFault>(Datum::Bool(true)),
{
}

/// Operators other than `AND` and `OR` give NULL where an operand is NULL.
pub proof fn null_spreads(m: FloatModel, d: Datum, operator: BinaryOperator, unary: UnaryOperator)
    requires
        operator != BinaryOperator::And,
        operator != BinaryOperator::Or,
    ensures
        binary_value(m, Datum::Null, operator, d) == Ok::<
            _,
            ExpressionFault,
        >(Datum::Null),
        binary_value(m, d, operator, Datum::Null) == Ok::<
            _,
            ExpressionFault,
        >(Datum::Null),
        unary_value(unary, Datum::Null) == Ok::<_, ExpressionFault>(
            Datum::Null,
        ),
{
}

/// Beside a NaN every comparison is false but for inequality, which is true.
pub proof fn nan_is_unordered(nan: u64, other: u64, i: i64, operator: BinaryOperator)
    requires
        is_nan(nan),
    ensures
        compare_value(Datum::Float64(nan), operator, Datum::Float64(other)) == Ok::<
            _,
            ExpressionFault,
        >(Datum::Bool(operator == BinaryOperator::NotEqual)),
        compare_value(Datum::Float64(other), operator, Datum::Float64(nan)) == Ok::<
            _,
            ExpressionFault,
        >(Datum::Bool(operator == BinaryOperator::NotEqual)),
        compare_value(Datum::Int64(i), operator, Datum::Float64(nan)) == Ok::<
            _,
            ExpressionFault,
        >(Datum::Bool(operator == BinaryOperator::NotEqual)),
        compare_value(Datum::Float64(nan), operator, Datum::Int64(i)) == Ok::<
            _,
            ExpressionFault,
        >(Datum::Bool(operator == BinaryOperator::NotEqual)),
{
}

/// Whether every unquoted name stands for a bound name that differs from it in case only.
pub open spec fn folds(b: Bindings) -> bool {
    forall|name: Seq<char>|
        #[trigger] b.names.contains_key(name) ==> (b.names[name] matches Datum::Text(exact)
            && lower(exact) == name && b.values.contains_key(exact))
}

/// Binding a name makes it readable by its exact name, and some value readable by its
/// unquoted name; a name in lower case is read by both. Other exact names stay as they were.
pub proof fn bindings_are_read_back(b: Bindings, name: Seq<char>, other: Seq<char>, value: Datum)
    requires
        folds(b),
    ensures
        folds(bound(b, name, value)),
        quoted_value(bound(b, name, value), name) == Some(value),
        unquoted_value(bound(b, name, value), name) is Some,
        lower(name) == name ==> unquoted_value(bound(b, name, value), name) == Some(value),
        other != name ==> quoted_value(bound(b, name, value), other) == quoted_value(b, other),
{
    let after = bound(b, name, value);
    lower_is_stable(name);
    assert(after.names.contains_key(lower(name)));
    assert forall|n: Seq<char>| #[trigger] after.names.contains_key(n) implies (
    after.names[n] matches Datum::Text(exact) && lower(exact) == n && after.values.contains_key(
        exact,
    )) by {
        if n != lower(name) {
            assert(b.names.contains_key(n));
        } else if !b.names.contains_key(n) {
        } else {
            assert(b.names.contains_key(n));
        }
    }
}

proof fn lower_is_stable(s: Seq<char>)
    ensures
        lower(lower(s)) == lower(s),
{
    assert(lower(lower(s)) =~= lower(s));
}

} // verus!
