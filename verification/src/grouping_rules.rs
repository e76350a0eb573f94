//! Rules for expressions in grouped queries.

use vstd::prelude::*;
use crate::ast::{Argument, ArgumentValue, Arguments, SqlExpr, Test};
use crate::binding::{call_name, contains_aggregate, find_last, function_parts, holds_aggregate, is_aggregate, is_aggregate_name, last_position, named_error, named_fault, names_contain, names_of};
use crate::text::{concat2, concat3, concat4, concat5, lower, to_lower};
use crate::types::{plain, Error, Fault};

verus! {

/// One column of a query's result: its expression and its name.
pub struct Projection {
    pub expr: SqlExpr,
    pub header: String,
}

/// The text of a truth value.
pub open spec fn bool_text(b: bool) -> Seq<char> {
    if b {
        "true"@
    } else {
        "false"@
    }
}

/// The tag of a one-operand predicate.
pub open spec fn test_text(test: Test) -> Seq<char> {
    match test {
        Test::Null => "is-null("@,
        Test::NotNull => "is-not-null("@,
        Test::True => "is-true("@,
        Test::False => "is-false("@,
        Test::NotTrue => "is-not-true("@,
        Test::NotFalse => "is-not-false("@,
    }
}

/// Text that two expressions share when they are the same up to identifier case,
/// qualification and parentheses.
pub open spec fn canonical(e: SqlExpr) -> Seq<char>
    decreases e, 0nat,
{
    match e {
        SqlExpr::Identifier(name) => "column:"@ + lower(name.value@),
        SqlExpr::CompoundIdentifier { parts, debug, .. } => if parts@.len() == 2 {
            "column:"@ + lower(parts@[1].value@)
        } else {
            debug@
        },
        SqlExpr::Value(literal) => "value:"@ + literal.debug@,
        SqlExpr::Nested(expr) => canonical(*expr),
        SqlExpr::Unary { op, expr } => "unary:"@ + op.debug@ + "("@ + canonical(*expr) + ")"@,
        SqlExpr::Binary { left, op, right } => "binary:"@ + op.debug@ + "("@ + canonical(*left)
            + ","@ + (canonical(*right) + ")"@),
        SqlExpr::Is { test, expr } => test_text(test) + canonical(*expr) + ")"@,
        SqlExpr::Between { expr, negated, low, high } => "between:"@ + bool_text(negated) + "("@
            + canonical(*expr) + ","@ + (canonical(*low) + ","@ + canonical(*high) + ")"@),
        SqlExpr::InList { expr, list, negated } => "in:"@ + bool_text(negated) + "("@ + canonical(
            *expr,
        ) + ";"@ + (joined(list@, list@.len() as int) + ")"@),
        SqlExpr::Like { expr, pattern, matching } => (if matching.insensitive {
            "ilike:"@
        } else {
            "like:"@
        }) + bool_text(matching.negated) + ":"@ + matching.escape_debug@ + "("@ + (canonical(*expr)
            + ","@ + canonical(*pattern) + ")"@),
        SqlExpr::Cast { expr, target } => "cast:"@ + target.kind_debug@ + ":"@
            + target.format_debug@ + ":"@ + (lower(target.data_type@) + "("@ + canonical(*expr)
            + ")"@),
        SqlExpr::Call(call) => "function:"@ + lower(call.name.text@) + "("@ + (
        match call.arguments {
            Arguments::List { items, .. } => joined_arguments(items@, items@.len() as int),
            Arguments::Other { debug } => debug@,
        }) + ")"@,
        SqlExpr::Other { debug, .. } => debug@,
    }
}

/// The canonical texts of the first `n` expressions, separated by commas.
pub open spec fn joined(list: Seq<SqlExpr>, n: int) -> Seq<char>
    decreases list, n,
{
    if n <= 0 || n > list.len() {
        Seq::empty()
    } else if n == 1 {
        canonical(list[0])
    } else {
        joined(list, n - 1) + ","@ + canonical(list[n - 1])
    }
}

/// The canonical text of an argument.
pub open spec fn canonical_argument(a: Argument) -> Seq<char>
    decreases a, 0nat,
{
    match a.named {
        Some(debug) => debug@,
        None => match a.value {
            ArgumentValue::Expr(e) => canonical(e),
            ArgumentValue::Wildcard => "*"@,
            ArgumentValue::QualifiedWildcard(_) => "q.*"@,
        },
    }
}

/// The canonical texts of the first `n` arguments, separated by commas.
pub open spec fn joined_arguments(items: Seq<Argument>, n: int) -> Seq<char>
    decreases items, n,
{
    if n <= 0 || n > items.len() {
        Seq::empty()
    } else if n == 1 {
        canonical_argument(items[0])
    } else {
        joined_arguments(items, n - 1) + ","@ + canonical_argument(items[n - 1])
    }
}

fn text_of_bool(b: bool) -> (s: &'static str)
    ensures
        s@ == bool_text(b),
{
    if b {
        "true"
    } else {
        "false"
    }
}

fn text_of_test(test: Test) -> (s: &'static str)
    ensures
        s@ == test_text(test),
{
    match test {
        Test::Null => "is-null(",
        Test::NotNull => "is-not-null(",
        Test::True => "is-true(",
        Test::False => "is-false(",
        Test::NotTrue => "is-not-true(",
        Test::NotFalse => "is-not-false(",
    }
}

/// Writes the canonical text of an expression.
#[verifier::loop_isolation(false)]
pub fn canonical_expression(e: &SqlExpr) -> (s: String)
    ensures
        s@ == canonical(*e),
    decreases *e, 0nat,
{
    match e {
        SqlExpr::Identifier(name) => {
            let key = to_lower(name.value.as_str());
            concat2("column:", key.as_str())
        },
        SqlExpr::CompoundIdentifier { parts, debug, .. } => {
            if parts.len() == 2 {
                let key = to_lower(parts[1].value.as_str());
                concat2("column:", key.as_str())
            } else {
                debug.clone()
            }
        },
        SqlExpr::Value(literal) => concat2("value:", literal.debug.as_str()),
        SqlExpr::Nested(expr) => canonical_expression(expr),
        SqlExpr::Unary { op, expr } => {
            let inner = canonical_expression(expr);
            concat5("unary:", op.debug.as_str(), "(", inner.as_str(), ")")
        },
        SqlExpr::Binary { left, op, right } => {
            let a = canonical_expression(left);
            let b = canonical_expression(right);
            let head = concat5("binary:", op.debug.as_str(), "(", a.as_str(), ",");
            let tail = concat2(b.as_str(), ")");
            concat2(head.as_str(), tail.as_str())
        },
        SqlExpr::Is { test, expr } => {
            let inner = canonical_expression(expr);
            concat3(text_of_test(*test), inner.as_str(), ")")
        },
        SqlExpr::Between { expr, negated, low, high } => {
            let a = canonical_expression(expr);
            let b = canonical_expression(low);
            let c = canonical_expression(high);
            let head = concat5("between:", text_of_bool(*negated), "(", a.as_str(), ",");
            let tail = concat4(b.as_str(), ",", c.as_str(), ")");
            concat2(head.as_str(), tail.as_str())
        },
        SqlExpr::InList { expr, list, negated } => {
            let a = canonical_expression(expr);
            let mut all = String::new();
            let mut i: usize = 0;
            while i < list.len()
                invariant
                    i <= list.len(),
                    all@ == joined(list@, i as int),
                decreases list.len() - i,
            {
                let one = canonical_expression(&list[i]);
                all = if i == 0 { one } else { concat3(all.as_str(), ",", one.as_str()) };
                i += 1;
            }
            let head = concat5("in:", text_of_bool(*negated), "(", a.as_str(), ";");
            let tail = concat2(all.as_str(), ")");
            concat2(head.as_str(), tail.as_str())
        },
        SqlExpr::Like { expr, pattern, matching } => {
            let a = canonical_expression(expr);
            let b = canonical_expression(pattern);
            let kind = if matching.insensitive { "ilike:" } else { "like:" };
            let head = concat5(
                kind,
                text_of_bool(matching.negated),
                ":",
                matching.escape_debug.as_str(),
                "(",
            );
            let tail = concat4(a.as_str(), ",", b.as_str(), ")");
            concat2(head.as_str(), tail.as_str())
        },
        SqlExpr::Cast { expr, target } => {
            let a = canonical_expression(expr);
            let t = to_lower(target.data_type.as_str());
            let head = concat5(
                "cast:",
                target.kind_debug.as_str(),
                ":",
                target.format_debug.as_str(),
                ":",
            );
            let tail = concat4(t.as_str(), "(", a.as_str(), ")");
            concat2(head.as_str(), tail.as_str())
        },
        SqlExpr::Call(call) => {
            let name = to_lower(call.name.text.as_str());
            match &call.arguments {
                Arguments::List { items, .. } => {
                    let mut all = String::new();
                    let mut i: usize = 0;
                    while i < items.len()
                        invariant
                            i <= items.len(),
                            all@ == joined_arguments(items@, i as int),
                        decreases items.len() - i,
                    {
                        let item = &items[i];
                        let one = match &item.named {
                            Some(debug) => debug.clone(),
                            None => match &item.value {
                                ArgumentValue::Expr(inner) => canonical_expression(inner),
                                ArgumentValue::Wildcard => "*".to_owned(),
                                ArgumentValue::QualifiedWildcard(_) => "q.*".to_owned(),
                            },
                        };
                        assert(one@ == canonical_argument(items@[i as int]));
                        all = if i == 0 { one } else { concat3(all.as_str(), ",", one.as_str()) };
                        i += 1;
                    }
                    concat5("function:", name.as_str(), "(", all.as_str(), ")")
                },
                Arguments::Other { debug } => concat5(
                    "function:",
                    name.as_str(),
                    "(",
                    debug.as_str(),
                    ")",
                ),
            }
        },
        SqlExpr::Other { debug, .. } => debug.clone(),
    }
}

/// The error for a column that is neither grouped nor aggregated.
pub open spec fn ungrouped(column: Seq<char>) -> Fault {
    Fault::Constraint(
        "column "@ + column + " must appear in GROUP BY or an aggregate function"@,
    )
}

/// The error for an aggregate inside an aggregate.
pub open spec fn nested_aggregate() -> Fault {
    Fault::Constraint("aggregate functions may not be nested"@)
}

/// Whether an expression has one value for each group. `keys` are the canonical texts of
/// the grouping expressions; `names` denote the expressions of `projections`.
pub open spec fn grouped_ok(
    e: SqlExpr,
    keys: Seq<Seq<char>>,
    names: Seq<Seq<char>>,
    projections: Seq<Projection>,
) -> Result<(), Fault>
    decreases names.len(), e, 0nat,
{
    if keys.contains(canonical(e)) {
        Ok(())
    } else {
        match e {
            SqlExpr::Identifier(name) => match last_position(names, lower(name.value@)) {
                Some(k) => if names.len() > 0 {
                    grouped_ok(projections[k].expr, keys, Seq::empty(), projections)
                } else {
                    Err(ungrouped(name.value@))
                },
                None => Err(ungrouped(name.value@)),
            },
            SqlExpr::CompoundIdentifier { text, .. } => Err(ungrouped(text@)),
            SqlExpr::Value(_) => Ok(()),
            SqlExpr::Unary { expr, .. } => grouped_ok(*expr, keys, names, projections),
            SqlExpr::Nested(expr) => grouped_ok(*expr, keys, names, projections),
            SqlExpr::Is { expr, .. } => grouped_ok(*expr, keys, names, projections),
            SqlExpr::Cast { expr, .. } => grouped_ok(*expr, keys, names, projections),
            SqlExpr::Binary { left, right, .. } => match grouped_ok(
                *left,
                keys,
                names,
                projections,
            ) {
                Err(fault) => Err(fault),
                Ok(()) => grouped_ok(*right, keys, names, projections),
            },
            SqlExpr::Between { expr, low, high, .. } => match grouped_ok(
                *expr,
                keys,
                names,
                projections,
            ) {
                Err(fault) => Err(fault),
                Ok(()) => match grouped_ok(*low, keys, names, projections) {
                    Err(fault) => Err(fault),
                    Ok(()) => grouped_ok(*high, keys, names, projections),
                },
            },
            SqlExpr::InList { expr, list, .. } => match grouped_ok(
                *expr,
                keys,
                names,
                projections,
            ) {
                Err(fault) => Err(fault),
                Ok(()) => list_grouped_ok(list@, 0, keys, names, projections),
            },
            SqlExpr::Like { expr, pattern, .. } => match grouped_ok(
                *expr,
                keys,
                names,
                projections,
            ) {
                Err(fault) => Err(fault),
                Ok(()) => grouped_ok(*pattern, keys, names, projections),
            },
            SqlExpr::Call(call) => match call_name(call) {
                Err(fault) => Err(fault),
                Ok(name) => match call.arguments {
                    Arguments::Other { .. } => Ok(()),
                    Arguments::List { items, .. } => if is_aggregate(name) {
                        aggregate_arguments_ok(items@, 0)
                    } else {
                        arguments_grouped_ok(items@, 0, name, keys, names, projections)
                    },
                },
            },
            SqlExpr::Other { .. } => Ok(()),
        }
    }
}

/// Whether the expressions from `i` on have one value for each group.
pub open spec fn list_grouped_ok(
    list: Seq<SqlExpr>,
    i: int,
    keys: Seq<Seq<char>>,
    names: Seq<Seq<char>>,
    projections: Seq<Projection>,
) -> Result<(), Fault>
    decreases names.len(), list, list.len() - i,
{
    if i < 0 || i >= list.len() {
        Ok(())
    } else {
        match grouped_ok(list[i], keys, names, projections) {
            Err(fault) => Err(fault),
            Ok(()) => list_grouped_ok(list, i + 1, keys, names, projections),
        }
    }
}

/// Whether no argument of an aggregate from `i` on holds an aggregate.
pub open spec fn aggregate_arguments_ok(items: Seq<Argument>, i: int) -> Result<(), Fault>
    decreases items.len() - i,
{
    if i < 0 || i >= items.len() {
        Ok(())
    } else if items[i].named is Some {
        Err(named_fault())
    } else {
        match items[i].value {
            ArgumentValue::Expr(e) if holds_aggregate(e) => Err(nested_aggregate()),
            _ => aggregate_arguments_ok(items, i + 1),
        }
    }
}

/// Whether the arguments of a scalar function from `i` on have one value for each group.
pub open spec fn arguments_grouped_ok(
    items: Seq<Argument>,
    i: int,
    name: Seq<char>,
    keys: Seq<Seq<char>>,
    names: Seq<Seq<char>>,
    projections: Seq<Projection>,
) -> Result<(), Fault>
    decreases names.len(), items, items.len() - i,
{
    if i < 0 || i >= items.len() {
        Ok(())
    } else if items[i].named is Some {
        Err(named_fault())
    } else {
        match items[i].value {
            ArgumentValue::Expr(e) => match grouped_ok(e, keys, names, projections) {
                Err(fault) => Err(fault),
                Ok(()) => arguments_grouped_ok(items, i + 1, name, keys, names, projections),
            },
            _ => Err(Fault::Unsupported("wildcard argument to "@ + name)),
        }
    }
}

fn ungrouped_error(column: &str) -> (e: Error)
    ensures
        e@ == ungrouped(column@),
{
    Error::Constraint(
        concat3("column ", column, " must appear in GROUP BY or an aggregate function"),
    )
}

/// Checks that an expression has one value for each group.
#[verifier::loop_isolation(false)]
pub fn validate_grouped_expression(
    e: &SqlExpr,
    keys: &Vec<String>,
    names: &Vec<String>,
    projections: &Vec<Projection>,
) -> (r: Result<(), Error>)
    requires
        names.len() <= projections.len(),
    ensures
        plain(r) == grouped_ok(*e, names_of(keys@), names_of(names@), projections@),
    decreases names.len(), *e, 0nat,
{
    let key = canonical_expression(e);
    if names_contain(keys, key.as_str()) {
        return Ok(());
    }
    match e {
        SqlExpr::Identifier(name) => {
            let alias = to_lower(name.value.as_str());
            match find_last(names, alias.as_str()) {
                Some(k) => {
                    let none: Vec<String> = Vec::new();
                    assert(names_of(none@) =~= Seq::<Seq<char>>::empty());
                    validate_grouped_expression(&projections[k].expr, keys, &none, projections)
                },
                None => Err(ungrouped_error(name.value.as_str())),
            }
        },
        SqlExpr::CompoundIdentifier { text, .. } => Err(ungrouped_error(text.as_str())),
        SqlExpr::Value(_) => Ok(()),
        SqlExpr::Unary { expr, .. } => validate_grouped_expression(expr, keys, names, projections),
        SqlExpr::Nested(expr) => validate_grouped_expression(expr, keys, names, projections),
        SqlExpr::Is { expr, .. } => validate_grouped_expression(expr, keys, names, projections),
        SqlExpr::Cast { expr, .. } => validate_grouped_expression(expr, keys, names, projections),
        SqlExpr::Binary { left, right, .. } => {
            validate_grouped_expression(left, keys, names, projections)?;
            validate_grouped_expression(right, keys, names, projections)
        },
        SqlExpr::Between { expr, low, high, .. } => {
            validate_grouped_expression(expr, keys, names, projections)?;
            validate_grouped_expression(low, keys, names, projections)?;
            validate_grouped_expression(high, keys, names, projections)
        },
        SqlExpr::InList { expr, list, .. } => {
            validate_grouped_expression(expr, keys, names, projections)?;
            let mut i: usize = 0;
            while i < list.len()
                invariant
                    i <= list.len(),
                    list_grouped_ok(list@, 0, names_of(keys@), names_of(names@), projections@)
                        == list_grouped_ok(
                        list@,
                        i as int,
                        names_of(keys@),
                        names_of(names@),
                        projections@,
                    ),
                decreases list.len() - i,
            {
                validate_grouped_expression(&list[i], keys, names, projections)?;
                i += 1;
            }
            Ok(())
        },
        SqlExpr::Like { expr, pattern, .. } => {
            validate_grouped_expression(expr, keys, names, projections)?;
            validate_grouped_expression(pattern, keys, names, projections)
        },
        SqlExpr::Call(call) => {
            let (name, items, distinct) = function_parts(call)?;
            let aggregate = is_aggregate_name(name.as_str());
            let mut i: usize = 0;
            while i < items.len()
                invariant
                    i <= items.len(),
                    aggregate ==> aggregate_arguments_ok(items@, 0) == aggregate_arguments_ok(
                        items@,
                        i as int,
                    ),
                    !aggregate ==> arguments_grouped_ok(
                        items@,
                        0,
                        name@,
                        names_of(keys@),
                        names_of(names@),
                        projections@,
                    ) == arguments_grouped_ok(
                        items@,
                        i as int,
                        name@,
                        names_of(keys@),
                        names_of(names@),
                        projections@,
                    ),
                decreases items.len() - i,
            {
                let item = &items[i];
                if item.named.is_some() {
                    return Err(named_error());
                }
                match &item.value {
                    ArgumentValue::Expr(inner) => {
                        if aggregate {
                            if contains_aggregate(inner) {
                                return Err(
                                    Error::Constraint(
                                        "aggregate functions may not be nested".to_owned(),
                                    ),
                                );
                            }
                        } else {
                            validate_grouped_expression(inner, keys, names, projections)?;
                        }
                    },
                    _ => {
                        if !aggregate {
                            return Err(
                                Error::Unsupported(
                                    concat2("wildcard argument to ", name.as_str()),
                                ),
                            );
                        }
                    },
                }
                i += 1;
            }
            Ok(())
        },
        SqlExpr::Other { .. } => Ok(()),
    }
}

} // verus!
