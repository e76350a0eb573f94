//! Scalar expressions.

use rusthouse::expression::{evaluate, parse, EvaluationContext, ExpressionError, MAX_EXPRESSION_DEPTH};
use rusthouse::float::{FloatReply, FloatRequest};
use rusthouse::types::Value;

fn floats(request: FloatRequest) -> FloatReply {
    let bits = |x: f64| FloatReply::Bits(x.to_bits());
    let of = f64::from_bits;
    match request {
        FloatRequest::Sum(a, b) => bits(of(a) + of(b)),
        FloatRequest::Difference(a, b) => bits(of(a) - of(b)),
        FloatRequest::Product(a, b) => bits(of(a) * of(b)),
        FloatRequest::Quotient(a, b) => bits(of(a) / of(b)),
        FloatRequest::Remainder(a, b) => bits(of(a) % of(b)),
        FloatRequest::FromInteger(i) => bits(i as f64),
        FloatRequest::Parse(text) => match text.parse::<f64>() {
            Ok(x) => bits(x),
            Err(_) => FloatReply::Invalid,
        },
        FloatRequest::Display(a) => FloatReply::Text(of(a).to_string()),
    }
}

fn value(sql: &str) -> Value {
    evaluate(sql, &EvaluationContext::new(), &floats).unwrap()
}

fn error(sql: &str) -> ExpressionError {
    evaluate(sql, &EvaluationContext::new(), &floats).unwrap_err()
}

fn text(s: &str) -> Value {
    Value::String(s.to_owned())
}

#[test]
fn arithmetic_follows_precedence() {
    assert_eq!(value("1 + 2 * 3"), Value::Int64(7));
    assert_eq!(value("(1 + 2) * 3"), Value::Int64(9));
    assert_eq!(value("-2 - -3"), Value::Int64(1));
    assert_eq!(value("7 % 4"), Value::Int64(3));
    assert_eq!(value("1.5 + 1"), Value::Float64(2.5f64.to_bits()));
}

#[test]
fn left_operands_decide_logic() {
    assert_eq!(value("FALSE AND 1 / 0 = 1"), Value::Bool(false));
    assert_eq!(value("TRUE OR 1 / 0 = 1"), Value::Bool(true));
    assert_eq!(value("NULL AND FALSE"), Value::Bool(false));
    assert_eq!(value("NULL OR NULL"), Value::Null);
}

#[test]
fn null_spreads_through_operators() {
    assert_eq!(value("NULL + 1"), Value::Null);
    assert_eq!(value("NULL = NULL"), Value::Null);
    assert_eq!(value("NOT NULL"), Value::Null);
    assert_eq!(value("NULL IS NULL"), Value::Bool(true));
    assert_eq!(value("1 IS NOT NULL"), Value::Bool(true));
}

#[test]
fn bound_names_are_read_back() {
    let mut context = EvaluationContext::new().with_value("Total", Value::Int64(4));
    assert_eq!(context.get("total"), Some(&Value::Int64(4)));
    assert_eq!(evaluate("TOTAL * 2", &context, &floats).unwrap(), Value::Int64(8));
    assert!(matches!(
        evaluate("\"TOTAL\"", &context, &floats),
        Err(ExpressionError::UnknownColumn(_))
    ));
    assert_eq!(evaluate("\"Total\"", &context, &floats).unwrap(), Value::Int64(4));
    assert_eq!(context.insert("Total", Value::Int64(5)), Some(Value::Int64(4)));
}

#[test]
fn text_functions_use_all_of_unicode() {
    assert_eq!(value("UPPER('straße')"), text("STRASSE"));
    assert_eq!(value("LOWER('ÄÖ')"), text("äö"));
    assert_eq!(value("LENGTH('é☃')"), Value::Int64(2));
    assert_eq!(value("TRIM('  a ')"), text("a"));
}

#[test]
fn searched_and_simple_cases_choose_the_first_match() {
    assert_eq!(value("CASE WHEN 1 > 2 THEN 'a' WHEN 2 > 1 THEN 'b' ELSE 'c' END"), text("b"));
    assert_eq!(value("CASE 3 WHEN 3 THEN 'three' END"), text("three"));
    assert_eq!(value("CASE 4 WHEN 3 THEN 'three' END"), Value::Null);
}

#[test]
fn casts_convert_or_fail() {
    assert_eq!(value("CAST('12' AS Int64)"), Value::Int64(12));
    assert_eq!(value("CAST(1 AS Float64)"), Value::Float64(1.0f64.to_bits()));
    assert!(matches!(error("CAST('x' AS Int64)"), ExpressionError::Cast { .. }));
}

#[test]
fn every_failure_has_its_kind() {
    assert!(matches!(error("missing"), ExpressionError::UnknownColumn(name) if name == "missing"));
    assert!(matches!(error("1 / 0"), ExpressionError::DivideByZero));
    assert!(matches!(
        error("9223372036854775807 + 1"),
        ExpressionError::Overflow { .. }
    ));
    assert!(matches!(error("'a' + 1"), ExpressionError::Type { .. }));
    assert!(matches!(error("no_such(1)"), ExpressionError::InvalidArgument { .. }));
    assert!(matches!(error("1 +"), ExpressionError::Parse { position: 3, .. }));
    let deep = format!("{}1{}", "(".repeat(400), ")".repeat(400));
    assert!(matches!(
        error(&deep),
        ExpressionError::ExpressionTooDeep { limit: MAX_EXPRESSION_DEPTH }
    ));
}

#[test]
fn parsed_expressions_fit_the_depth() {
    let nested = format!("{}1", "- ".repeat(20));
    let expression = parse(&nested, &floats).unwrap();
    assert!(expression.fits_within(MAX_EXPRESSION_DEPTH));
    assert!(!expression.fits_within(3));
}

#[test]
fn parentheses_that_follow_precedence_change_nothing() {
    let pairs = [
        ("a OR b AND c", "a OR (b AND c)"),
        ("NOT a = b", "NOT (a = b)"),
        ("1 + 2 * 3", "1 + (2 * 3)"),
        ("10 - 4 - 3", "(10 - 4) - 3"),
        ("-2 * 3", "(-2) * 3"),
        ("a < b AND c", "(a < b) AND c"),
    ];
    for (plain, grouped) in pairs {
        assert_eq!(
            format!("{:?}", parse(plain, &floats).unwrap()),
            format!("{:?}", parse(grouped, &floats).unwrap())
        );
    }
}
