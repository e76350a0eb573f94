//! Evaluation of scalar expressions.

use vstd::prelude::*;
use crate::expression::context::{quoted_value, unquoted_value, Bindings, EvaluationContext};
use crate::expression::fault::{ExpressionError, ExpressionFault};
use crate::expression::functions::{argument_error, argument_fault, concat, concat_value, count_error, count_fault, is_text_function, substring, substring_value, takes_text, text_function, text_value};
use crate::expression::operators::{binary_value, cast_to, casted, compare, compare_value, evaluate_binary, evaluate_unary, evaluated, sql_truth, truth, unary_value};
use crate::expression::tree::{branches_match, branches_of, fits, tree_of, trees_match, trees_of, BinaryOperator, Expr, Tree, MAX_EXPRESSION_DEPTH};
use crate::float::{answers_floats, float_model, FloatModel, FloatReply, FloatRequest};
use crate::text::{lower, same_text, to_lower};
use crate::types::{data_of, Datum, Value};

verus! {

/// Whether the left operand alone decides.
pub open spec fn decides(a: Datum, operator: BinaryOperator) -> bool {
    (operator is And && a == Datum::Bool(false)) || (operator is Or && a == Datum::Bool(true))
}

/// The value of an expression.
pub open spec fn value_of(t: Tree, b: Bindings, m: FloatModel) -> Result<Datum, ExpressionFault>
    decreases t, 0nat,
{
    match t {
        Tree::Literal(d) => Ok(d),
        Tree::Column(name) => match unquoted_value(b, name) {
            Some(d) => Ok(d),
            None => Err(ExpressionFault::UnknownColumn(name)),
        },
        Tree::QuotedColumn(name) => match quoted_value(b, name) {
            Some(d) => Ok(d),
            None => Err(ExpressionFault::UnknownColumn(name)),
        },
        Tree::Unary { operator, expression } => match value_of(*expression, b, m) {
            Ok(d) => unary_value(operator, d),
            Err(fault) => Err(fault),
        },
        Tree::Binary { left, operator, right } => match value_of(*left, b, m) {
            Err(fault) => Err(fault),
            Ok(x) => if decides(x, operator) {
                Ok(x)
            } else {
                match value_of(*right, b, m) {
                    Err(fault) => Err(fault),
                    Ok(y) => binary_value(m, x, operator, y),
                }
            },
        },
        Tree::IsNull { expression, negated } => match value_of(*expression, b, m) {
            Ok(d) => Ok(Datum::Bool((d is Null) != negated)),
            Err(fault) => Err(fault),
        },
        Tree::Cast { expression, target } => match value_of(*expression, b, m) {
            Ok(d) => casted(m, d, target),
            Err(fault) => Err(fault),
        },
        Tree::Case { operand, branches, else_expression } => {
            let subject = match operand {
                Some(o) => match value_of(*o, b, m) {
                    Ok(d) => Ok(Some(d)),
                    Err(fault) => Err(fault),
                },
                None => Ok(None),
            };
            match subject {
                Err(fault) => Err(fault),
                Ok(subject) => match branch_from(subject, branches, 0, b, m) {
                    Err(fault) => Err(fault),
                    Ok(Some(d)) => Ok(d),
                    Ok(None) => match else_expression {
                        Some(o) => value_of(*o, b, m),
                        None => Ok(Datum::Null),
                    },
                },
            }
        },
        Tree::Function { name, arguments } => {
            let name = lower(name);
            let count = arguments.len();
            if name == "coalesce"@ {
                if count < 1 {
                    Err(count_fault(name, "at least 1"@, count as int))
                } else {
                    known_from(arguments, 0, b, m)
                }
            } else if takes_text(name) {
                if count != 1 {
                    Err(count_fault(name, "1"@, count as int))
                } else {
                    match value_of(arguments[0], b, m) {
                        Ok(d) => text_value(name, d),
                        Err(fault) => Err(fault),
                    }
                }
            } else if name == "concat"@ {
                if count < 1 {
                    Err(count_fault(name, "at least 1"@, count as int))
                } else {
                    match values_from(arguments, 0, Seq::empty(), b, m) {
                        Ok(values) => concat_value(values),
                        Err(fault) => Err(fault),
                    }
                }
            } else if name == "substring"@ || name == "substr"@ {
                if !(2 <= count <= 3) {
                    Err(count_fault(name, "2 or 3"@, count as int))
                } else {
                    match values_from(arguments, 0, Seq::empty(), b, m) {
                        Ok(values) => substring_value(name, values),
                        Err(fault) => Err(fault),
                    }
                }
            } else {
                Err(argument_fault(name, "unknown scalar function"@))
            }
        },
    }
}

/// The result of the first branch from a position on whose condition holds, if one does.
pub open spec fn branch_from(
    subject: Option<Datum>,
    branches: Seq<(Tree, Tree)>,
    i: int,
    b: Bindings,
    m: FloatModel,
) -> Result<Option<Datum>, ExpressionFault>
    decreases branches, branches.len() - i,
{
    if !(0 <= i < branches.len()) {
        Ok(None)
    } else {
        match value_of(branches[i].0, b, m) {
            Err(fault) => Err(fault),
            Ok(condition) => {
                let applies = match subject {
                    Some(d) => match compare_value(d, BinaryOperator::Equal, condition) {
                        Ok(equal) => Ok(equal == Datum::Bool(true)),
                        Err(fault) => Err(fault),
                    },
                    None => match truth(condition, "CASE WHEN"@) {
                        Ok(t) => Ok(t == Some(true)),
                        Err(fault) => Err(fault),
                    },
                };
                match applies {
                    Err(fault) => Err(fault),
                    Ok(true) => match value_of(branches[i].1, b, m) {
                        Ok(d) => Ok(Some(d)),
                        Err(fault) => Err(fault),
                    },
                    Ok(false) => branch_from(subject, branches, i + 1, b, m),
                }
            },
        }
    }
}

/// The first value from a position on that is not NULL, if there is one.
pub open spec fn known_from(arguments: Seq<Tree>, i: int, b: Bindings, m: FloatModel) -> Result<
    Datum,
    ExpressionFault,
>
    decreases arguments, arguments.len() - i,
{
    if !(0 <= i < arguments.len()) {
        Ok(Datum::Null)
    } else {
        match value_of(arguments[i], b, m) {
            Err(fault) => Err(fault),
            Ok(Datum::Null) => known_from(arguments, i + 1, b, m),
            Ok(d) => Ok(d),
        }
    }
}

/// The values of the expressions from a position on, behind `done`.
pub open spec fn values_from(
    arguments: Seq<Tree>,
    i: int,
    done: Seq<Datum>,
    b: Bindings,
    m: FloatModel,
) -> Result<Seq<Datum>, ExpressionFault>
    decreases arguments, arguments.len() - i,
{
    if !(0 <= i < arguments.len()) {
        Ok(done)
    } else {
        match value_of(arguments[i], b, m) {
            Err(fault) => Err(fault),
            Ok(d) => values_from(arguments, i + 1, done.push(d), b, m),
        }
    }
}

/// The failure of an expression that is nested too deeply.
pub open spec fn too_deep() -> ExpressionFault {
    ExpressionFault::ExpressionTooDeep { limit: MAX_EXPRESSION_DEPTH }
}

#[verifier::loop_isolation(false)]
fn evaluate_all<F: Fn(FloatRequest) -> FloatReply>(
    arguments: &Vec<Expr>,
    context: &EvaluationContext,
    f: &F,
) -> (r: Result<Vec<Value>, ExpressionError>)
    requires
        context.wf(),
        answers_floats(*f),
    ensures
        match r {
            Ok(values) => values_from(
                trees_of(arguments@, arguments@.len()),
                0,
                Seq::empty(),
                context@,
                float_model(*f),
            ) == Ok::<_, ExpressionFault>(data_of(values@)) && values@.len() == arguments@.len(),
            Err(e) => values_from(
                trees_of(arguments@, arguments@.len()),
                0,
                Seq::empty(),
                context@,
                float_model(*f),
            ) == Err::<Seq<Datum>, _>(e@),
        },
    decreases arguments, 0nat,
{
    let ghost list = trees_of(arguments@, arguments@.len());
    let ghost m = float_model(*f);
    proof {
        trees_match(arguments@, arguments@.len());
    }
    let mut values: Vec<Value> = Vec::new();
    assert(data_of(values@) =~= Seq::<Datum>::empty());
    let mut i: usize = 0;
    while i < arguments.len()
        invariant
            i <= arguments.len(),
            values@.len() == i,
            values_from(list, 0, Seq::empty(), context@, m) == values_from(
                list,
                i as int,
                data_of(values@),
                context@,
                m,
            ),
        decreases arguments.len() - i,
    {
        assert(list[i as int] == tree_of(arguments@[i as int]));
        let value = evaluate_inner(&arguments[i], context, f)?;
        let ghost before = data_of(values@);
        values.push(value);
        assert(data_of(values@) =~= before.push(value@));
        i = i + 1;
    }
    Ok(values)
}

#[verifier::loop_isolation(false)]
fn evaluate_function<F: Fn(FloatRequest) -> FloatReply>(
    function: &str,
    arguments: &Vec<Expr>,
    context: &EvaluationContext,
    f: &F,
) -> (r: Result<Value, ExpressionError>)
    requires
        context.wf(),
        answers_floats(*f),
    ensures
        evaluated(r) == value_of(
            Tree::Function {
                name: function@,
                arguments: trees_of(arguments@, arguments@.len()),
            },
            context@,
            float_model(*f),
        ),
    decreases arguments, 1nat,
{
    let ghost list = trees_of(arguments@, arguments@.len());
    let ghost m = float_model(*f);
    proof {
        trees_match(arguments@, arguments@.len());
    }
    let normalized = to_lower(function);
    let name = normalized.as_str();
    let count = arguments.len();
    if same_text(name, "coalesce") {
        if count < 1 {
            return Err(count_error(name, "at least 1", count));
        }
        let mut i: usize = 0;
        while i < arguments.len()
            invariant
                i <= arguments.len(),
                known_from(list, 0, context@, m) == known_from(list, i as int, context@, m),
            decreases arguments.len() - i,
        {
            assert(list[i as int] == tree_of(arguments@[i as int]));
            let value = evaluate_inner(&arguments[i], context, f)?;
            if !value.is_null() {
                return Ok(value);
            }
            i = i + 1;
        }
        Ok(Value::Null)
    } else if is_text_function(name) {
        if count != 1 {
            return Err(count_error(name, "1", count));
        }
        assert(list[0] == tree_of(arguments@[0]));
        let value = evaluate_inner(&arguments[0], context, f)?;
        text_function(name, value)
    } else if same_text(name, "concat") {
        if count < 1 {
            return Err(count_error(name, "at least 1", count));
        }
        let values = evaluate_all(arguments, context, f)?;
        concat(&values)
    } else if same_text(name, "substring") || same_text(name, "substr") {
        if !(2 <= count && count <= 3) {
            return Err(count_error(name, "2 or 3", count));
        }
        let values = evaluate_all(arguments, context, f)?;
        substring(name, &values)
    } else {
        Err(argument_error(name, "unknown scalar function"))
    }
}

/// The content of a branch that was looked for.
spec fn branched(r: Result<Option<Value>, ExpressionError>) -> Result<
    Option<Datum>,
    ExpressionFault,
> {
    match r {
        Ok(Some(v)) => Ok(Some(v@)),
        Ok(None) => Ok(None),
        Err(e) => Err(e@),
    }
}

#[verifier::loop_isolation(false)]
fn evaluate_branches<F: Fn(FloatRequest) -> FloatReply>(
    subject: &Option<Value>,
    branches: &Vec<(Expr, Expr)>,
    context: &EvaluationContext,
    f: &F,
) -> (r: Result<Option<Value>, ExpressionError>)
    requires
        context.wf(),
        answers_floats(*f),
    ensures
        branched(r) == branch_from(
            match *subject {
                Some(v) => Some(v@),
                None => None,
            },
            branches_of(branches@, branches@.len()),
            0,
            context@,
            float_model(*f),
        ),
    decreases branches, 0nat,
{
    let ghost list = branches_of(branches@, branches@.len());
    let ghost m = float_model(*f);
    let ghost seen = match subject {
        Some(v) => Some(v@),
        None => None,
    };
    proof {
        branches_match(branches@, branches@.len());
    }
    let mut i: usize = 0;
    while i < branches.len()
        invariant
            i <= branches.len(),
            branch_from(seen, list, 0, context@, m) == branch_from(
                seen,
                list,
                i as int,
                context@,
                m,
            ),
        decreases branches.len() - i,
    {
        assert(list[i as int] == (tree_of(branches@[i as int].0), tree_of(branches@[i as int].1)));
        let condition = evaluate_inner(&branches[i].0, context, f)?;
        let applies = match subject {
            Some(value) => {
                let equal = compare(value, BinaryOperator::Equal, &condition)?;
                matches!(equal, Value::Bool(true))
            },
            None => {
                let t = sql_truth(&condition, "CASE WHEN")?;
                matches!(t, Some(true))
            },
        };
        if applies {
            let value = evaluate_inner(&branches[i].1, context, f)?;
            return Ok(Some(value));
        }
        i = i + 1;
    }
    Ok(None)
}

fn evaluate_inner<F: Fn(FloatRequest) -> FloatReply>(
    e: &Expr,
    context: &EvaluationContext,
    f: &F,
) -> (r: Result<Value, ExpressionError>)
    requires
        context.wf(),
        answers_floats(*f),
    ensures
        evaluated(r) == value_of(tree_of(*e), context@, float_model(*f)),
    decreases e, 2nat,
{
    match e {
        Expr::Literal(value) => Ok(value.clone()),
        Expr::Column(name) => match context.get(name.as_str()) {
            Some(value) => Ok(value.clone()),
            None => Err(ExpressionError::UnknownColumn(name.clone())),
        },
        Expr::QuotedColumn(name) => match context.get_quoted(name.as_str()) {
            Some(value) => Ok(value.clone()),
            None => Err(ExpressionError::UnknownColumn(name.clone())),
        },
        Expr::Unary { operator, expression } => {
            let value = evaluate_inner(expression, context, f)?;
            evaluate_unary(*operator, value)
        },
        Expr::Binary { left, operator, right } => {
            let x = evaluate_inner(left, context, f)?;
            let decided = match (operator, &x) {
                (BinaryOperator::And, Value::Bool(false)) => true,
                (BinaryOperator::Or, Value::Bool(true)) => true,
                _ => false,
            };
            if decided {
                return Ok(x);
            }
            let y = evaluate_inner(right, context, f)?;
            evaluate_binary(&x, *operator, &y, f)
        },
        Expr::IsNull { expression, negated } => {
            let value = evaluate_inner(expression, context, f)?;
            Ok(Value::Bool(value.is_null() != *negated))
        },
        Expr::Cast { expression, target } => {
            let value = evaluate_inner(expression, context, f)?;
            cast_to(value, *target, f)
        },
        Expr::Case { operand, branches, else_expression } => {
            let subject = match operand {
                Some(o) => Some(evaluate_inner(o, context, f)?),
                None => None,
            };
            match evaluate_branches(&subject, branches, context, f)? {
                Some(value) => Ok(value),
                None => match else_expression {
                    Some(o) => evaluate_inner(o, context, f),
                    None => Ok(Value::Null),
                },
            }
        },
        Expr::Function { name, arguments } => evaluate_function(
            name.as_str(),
            arguments,
            context,
            f,
        ),
    }
}

/// The value of an expression that may be nested too deeply.
pub open spec fn expression_value(t: Tree, b: Bindings, m: FloatModel) -> Result<
    Datum,
    ExpressionFault,
> {
    if fits(t, MAX_EXPRESSION_DEPTH as nat) {
        value_of(t, b, m)
    } else {
        Err(too_deep())
    }
}

impl Expr {
    /// Evaluates the expression.
    pub fn evaluate<F: Fn(FloatRequest) -> FloatReply>(
        &self,
        context: &EvaluationContext,
        f: &F,
    ) -> (r: Result<Value, ExpressionError>)
        requires
            context.wf(),
            answers_floats(*f),
        ensures
            evaluated(r) == expression_value(self@, context@, float_model(*f)),
    {
        if !self.fits_within(MAX_EXPRESSION_DEPTH) {
            return Err(ExpressionError::ExpressionTooDeep { limit: MAX_EXPRESSION_DEPTH });
        }
        evaluate_inner(self, context, f)
    }
}

} // verus!
