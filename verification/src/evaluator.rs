//! Comparison of typed scalars.

use vstd::prelude::*;
use crate::float::{compare_floats, float_order, is_nan};
use crate::text::{bool_order, concat3, concat4, int_order, order_bool, order_i64, order_text, text_order, Order};

verus! {

/// A SQL scalar. A floating-point value is held as its bit pattern.
#[derive(Debug)]
pub enum ScalarValue {
    Null,
    Integer(i64),
    Float(u64),
    Boolean(bool),
    String(String),
}

/// The content of a scalar.
pub enum Scalar {
    Null,
    Integer(i64),
    Float(u64),
    Boolean(bool),
    Text(Seq<char>),
}

impl View for ScalarValue {
    type V = Scalar;

    open spec fn view(&self) -> Scalar {
        match *self {
            ScalarValue::Null => Scalar::Null,
            ScalarValue::Integer(i) => Scalar::Integer(i),
            ScalarValue::Float(b) => Scalar::Float(b),
            ScalarValue::Boolean(b) => Scalar::Boolean(b),
            ScalarValue::String(s) => Scalar::Text(s@),
        }
    }
}

/// Comparison operators.
#[derive(Clone, Copy, Debug, PartialEq, Eq, Structural)]
pub enum ComparisonOperator {
    Equal,
    NotEqual,
    LessThan,
    LessThanOrEqual,
    GreaterThan,
    GreaterThanOrEqual,
}

impl ComparisonOperator {
    /// The spelling of the operator in SQL.
    pub open spec fn text(self) -> Seq<char> {
        match self {
            ComparisonOperator::Equal => "="@,
            ComparisonOperator::NotEqual => "<>"@,
            ComparisonOperator::LessThan => "<"@,
            ComparisonOperator::LessThanOrEqual => "<="@,
            ComparisonOperator::GreaterThan => ">"@,
            ComparisonOperator::GreaterThanOrEqual => ">="@,
        }
    }

    /// Whether the operator holds of operands in this order.
    pub open spec fn holds(self, order: Order) -> bool {
        match self {
            ComparisonOperator::Equal => order == Order::Equal,
            ComparisonOperator::NotEqual => order != Order::Equal,
            ComparisonOperator::LessThan => order == Order::Less,
            ComparisonOperator::LessThanOrEqual => order != Order::Greater,
            ComparisonOperator::GreaterThan => order == Order::Greater,
            ComparisonOperator::GreaterThanOrEqual => order != Order::Less,
        }
    }

    /// Spells the operator in SQL.
    pub fn sql(self) -> (s: &'static str)
        ensures
            s@ == self.text(),
    {
        match self {
            ComparisonOperator::Equal => "=",
            ComparisonOperator::NotEqual => "<>",
            ComparisonOperator::LessThan => "<",
            ComparisonOperator::LessThanOrEqual => "<=",
            ComparisonOperator::GreaterThan => ">",
            ComparisonOperator::GreaterThanOrEqual => ">=",
        }
    }

    /// Decides whether the operator holds of operands in this order.
    pub fn apply(self, order: Order) -> (r: bool)
        ensures
            r == self.holds(order),
    {
        let less = matches!(order, Order::Less);
        let greater = matches!(order, Order::Greater);
        match self {
            ComparisonOperator::Equal => !less && !greater,
            ComparisonOperator::NotEqual => less || greater,
            ComparisonOperator::LessThan => less,
            ComparisonOperator::LessThanOrEqual => !greater,
            ComparisonOperator::GreaterThan => greater,
            ComparisonOperator::GreaterThanOrEqual => !less,
        }
    }
}

/// The name of a scalar's type.
pub open spec fn scalar_type_text(s: Scalar) -> Seq<char> {
    match s {
        Scalar::Null => "NULL"@,
        Scalar::Integer(_) => "Integer"@,
        Scalar::Float(_) => "Float"@,
        Scalar::Boolean(_) => "Boolean"@,
        Scalar::Text(_) => "String"@,
    }
}

fn scalar_type_name(value: &ScalarValue) -> (s: &'static str)
    ensures
        s@ == scalar_type_text(value@),
{
    match value {
        ScalarValue::Null => "NULL",
        ScalarValue::Integer(_) => "Integer",
        ScalarValue::Float(_) => "Float",
        ScalarValue::Boolean(_) => "Boolean",
        ScalarValue::String(_) => "String",
    }
}

/// The order of two scalars of one type.
pub open spec fn scalar_order(a: Scalar, b: Scalar) -> Option<Order> {
    match (a, b) {
        (Scalar::Integer(x), Scalar::Integer(y)) => Some(int_order(x as int, y as int)),
        (Scalar::Float(x), Scalar::Float(y)) => float_order(x, y),
        (Scalar::Boolean(x), Scalar::Boolean(y)) => Some(bool_order(x, y)),
        (Scalar::Text(x), Scalar::Text(y)) => Some(text_order(x, y)),
        _ => None,
    }
}

/// The result of comparing two scalars: NULL beside NULL, and a failure for types that
/// differ.
pub open spec fn scalar_comparison(a: Scalar, b: Scalar, operator: ComparisonOperator) -> Result<
    Scalar,
    Seq<char>,
> {
    if a is Null || b is Null {
        Ok(Scalar::Null)
    } else {
        match scalar_order(a, b) {
            Some(order) => Ok(Scalar::Boolean(operator.holds(order))),
            None => Err(
                "operator '"@ + operator.text() + "' cannot compare "@ + scalar_type_text(a)
                    + " and "@ + scalar_type_text(b),
            ),
        }
    }
}

/// Whether a scalar is no NaN.
pub open spec fn is_ordered(s: Scalar) -> bool {
    s matches Scalar::Float(b) ==> !is_nan(b)
}

/// Compares two scalars. Of two floating-point operands none is a NaN.
pub fn compare_scalars(
    left: ScalarValue,
    right: ScalarValue,
    operator: ComparisonOperator,
) -> (r: Result<ScalarValue, String>)
    requires
        left@ is Float && right@ is Float ==> is_ordered(left@) && is_ordered(right@),
    ensures
        match r {
            Ok(v) => scalar_comparison(left@, right@, operator) == Ok::<_, Seq<char>>(v@),
            Err(s) => scalar_comparison(left@, right@, operator) == Err::<Scalar, _>(s@),
        },
{
    let order = match (&left, &right) {
        (ScalarValue::Null, _) => return Ok(ScalarValue::Null),
        (_, ScalarValue::Null) => return Ok(ScalarValue::Null),
        (ScalarValue::Integer(x), ScalarValue::Integer(y)) => Some(order_i64(*x, *y)),
        (ScalarValue::Float(x), ScalarValue::Float(y)) => compare_floats(*x, *y),
        (ScalarValue::Boolean(x), ScalarValue::Boolean(y)) => Some(order_bool(*x, *y)),
        (ScalarValue::String(x), ScalarValue::String(y)) => Some(
            order_text(x.as_str(), y.as_str()),
        ),
        _ => None,
    };
    match order {
        Some(order) => Ok(ScalarValue::Boolean(operator.apply(order))),
        None => {
            let head = concat4(
                "operator '",
                operator.sql(),
                "' cannot compare ",
                scalar_type_name(&left),
            );
            Err(concat3(head.as_str(), " and ", scalar_type_name(&right)))
        },
    }
}

/// Turning the operands round turns the comparison round.
pub proof fn comparisons_turn_round(a: Scalar, b: Scalar)
    requires
        is_ordered(a),
        is_ordered(b),
        scalar_order(a, b) is Some,
    ensures
        scalar_comparison(a, b, ComparisonOperator::LessThan) == scalar_comparison(
            b,
            a,
            ComparisonOperator::GreaterThan,
        ),
        scalar_comparison(a, b, ComparisonOperator::LessThanOrEqual) == scalar_comparison(
            b,
            a,
            ComparisonOperator::GreaterThanOrEqual,
        ),
        scalar_comparison(a, b, ComparisonOperator::Equal) == scalar_comparison(
            b,
            a,
            ComparisonOperator::Equal,
        ),
{
    if let (Scalar::Text(x), Scalar::Text(y)) = (a, b) {
        crate::text::text_order_flip(x, y, 0);
    }
}

} // verus!
