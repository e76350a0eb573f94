//! Encoded query results.

use rusthouse::float::{FloatReply, FloatRequest};
use rusthouse::format::{render, render_with_limit, OutputFormat};
use rusthouse::selecting::QueryResult;
use rusthouse::types::Value;

fn floats(request: FloatRequest) -> FloatReply {
    let bits = |x: f64| FloatReply::Bits(x.to_bits());
    let of = f64::from_bits;
    match request {
        FloatRequest::Sum(a, b) => bits(of(a) + of(b)),
        FloatRequest::Difference(a, b) => bits(of(a) - of(b)),
        FloatRequest::Product(a, b) => bits(of(a) * of(b)),
        FloatRequest::Quotient(a, b) => bits(of(a) / of(b)),
        FloatRequest::Remainder(a, b) => bits(of(a) % of(b)),
        FloatRequest::FromInteger(i) => bits(i as f64),
        FloatRequest::Parse(text) => match text.parse::<f64>() {
            Ok(x) => bits(x),
            Err(_) => FloatReply::Invalid,
        },
        FloatRequest::Display(a) => FloatReply::Text(of(a).to_string()),
    }
}

fn result() -> QueryResult {
    QueryResult {
        columns: vec!["name".to_owned(), "value".to_owned(), "valid".to_owned()],
        rows: vec![
            vec![
                Value::String("a,\"b".to_owned()),
                Value::Float64(1.5f64.to_bits()),
                Value::Bool(true),
            ],
            vec![Value::String("line\n2".to_owned()), Value::Null, Value::Bool(false)],
        ],
    }
}

#[test]
fn renders_rfc_style_csv_with_a_header() {
    assert_eq!(
        render(&result(), OutputFormat::Csv, &floats).unwrap(),
        "name,value,valid\n\"a,\"\"b\",1.5,true\n\"line\n2\",\\N,false\n"
    );
}

#[test]
fn escapes_csv_column_names() {
    let result = QueryResult {
        columns: vec!["a,b".to_owned(), "quote\"name".to_owned()],
        rows: Vec::new(),
    };
    assert_eq!(
        render(&result, OutputFormat::Csv, &floats).unwrap(),
        "\"a,b\",\"quote\"\"name\"\n"
    );
}

#[test]
fn renders_typed_json_objects() {
    assert_eq!(
        render(&result(), OutputFormat::Json, &floats).unwrap(),
        "[{\"name\":\"a,\\\"b\",\"value\":1.5,\"valid\":true},{\"name\":\"line\\n2\",\"value\":null,\"valid\":false}]\n"
    );
}

#[test]
fn rejects_duplicate_json_keys() {
    let result = QueryResult {
        columns: vec!["x".to_owned(), "x".to_owned()],
        rows: vec![vec![Value::Int64(1), Value::Int64(2)]],
    };
    let error = render(&result, OutputFormat::Json, &floats).unwrap_err();
    assert!(error.message().contains("duplicate 'x'"));
    assert!(render(&result, OutputFormat::Csv, &floats).is_ok());
}

#[test]
fn accounts_for_repeated_json_column_names_before_allocating() {
    let result = QueryResult {
        columns: vec!["x".repeat(64 * 1024)],
        rows: vec![vec![Value::Int64(1)]; 17],
    };
    let error = render_with_limit(&result, OutputFormat::Json, 1024 * 1024, &floats).unwrap_err();
    assert!(error.message().contains("encoded output limit"));
}

#[test]
fn rejects_non_finite_public_values_in_json() {
    for value in [f64::NAN, f64::INFINITY, f64::NEG_INFINITY] {
        let result = QueryResult {
            columns: vec!["value".to_owned()],
            rows: vec![vec![Value::Float64(value.to_bits())]],
        };
        let error = render(&result, OutputFormat::Json, &floats).unwrap_err();
        assert!(error.message().contains("non-finite Float64"));
        assert!(render(&result, OutputFormat::Csv, &floats).is_ok());
    }
}

#[test]
fn rejects_rows_of_another_width() {
    let result = QueryResult {
        columns: vec!["a".to_owned()],
        rows: vec![vec![Value::Int64(1), Value::Int64(2)]],
    };
    let error = render(&result, OutputFormat::Csv, &floats).unwrap_err();
    assert_eq!(error.message(), "result row has 2 values but 1 columns were expected");
}

#[test]
fn finds_encodings_by_name() {
    assert!(matches!(OutputFormat::parse("CSV"), Some(OutputFormat::Csv)));
    assert!(matches!(OutputFormat::parse("Json"), Some(OutputFormat::Json)));
    assert!(OutputFormat::parse("xml").is_none());
}
