//! JSON records as rows of a table.

use rusthouse::float::{FloatReply, FloatRequest};
use rusthouse::insert::RowField;
use rusthouse::json_each_row::{parse_record, EachRowError, EachRowLoader, MAX_RECORD_BYTES};
use rusthouse::types::{DataType, Value};

fn floats(request: FloatRequest) -> FloatReply {
    let bits = |x: f64| FloatReply::Bits(x.to_bits());
    let of = f64::from_bits;
    match request {
        FloatRequest::Sum(a, b) => bits(of(a) + of(b)),
        FloatRequest::Difference(a, b) => bits(of(a) - of(b)),
        FloatRequest::Product(a, b) => bits(of(a) * of(b)),
        FloatRequest::Quotient(a, b) => bits(of(a) / of(b)),
        FloatRequest::Remainder(a, b) => bits(of(a) % of(b)),
        FloatRequest::FromInteger(i) => bits(i as f64),
        FloatRequest::Parse(text) => match text.parse::<f64>() {
            Ok(x) => bits(x),
            Err(_) => FloatReply::Invalid,
        },
        FloatRequest::Display(a) => FloatReply::Text(of(a).to_string()),
    }
}

fn field(name: &str, data_type: DataType) -> RowField {
    RowField { name: name.to_owned(), data_type }
}

fn schema() -> Vec<RowField> {
    vec![
        field("id", DataType::Int64),
        field("label", DataType::String),
        field("score", DataType::Float64),
        field("active", DataType::Bool),
    ]
}

#[test]
fn parses_reordered_fields_escapes_and_defaults() {
    let row = parse_record(
        r#"{"label":"line\nquote: \" snowman: \u2603 face: \ud83d\ude00","id":7}"#,
        "events",
        &schema(),
        &floats,
    )
    .expect("valid record");

    assert_eq!(
        row,
        vec![
            Value::Int64(7),
            Value::String("line\nquote: \" snowman: ☃ face: 😀".to_owned()),
            Value::Float64(0.0f64.to_bits()),
            Value::Bool(false),
        ]
    );
}

#[test]
fn rejects_duplicate_unknown_null_and_malformed_fields() {
    let cases = [
        (r#"{"id":1,"ID":2}"#, "duplicate field"),
        (r#"{"missing":1}"#, "unknown field"),
        (r#"{"label":null}"#, "not nullable"),
        (r#"{"id":1,}"#, "quoted object field name"),
        (r#"{"label":"\ud800"}"#, "high surrogate"),
    ];

    for (record, expected) in cases {
        let error = parse_record(record, "events", &schema(), &floats)
            .expect_err("record should fail");
        assert!(error.contains(expected), "unexpected error: {error}");
    }
}

#[test]
fn names_the_byte_where_a_record_breaks_off() {
    let cases = [
        ("[]", "expected a JSON object at byte 0"),
        (r#"{"é" 1}"#, "expected ':' after object field name at byte 6"),
        (r#"{"id":1 "label":""}"#, "expected ',' or '}' after object field at byte 8"),
        (r#"{"id":1} x"#, "unexpected content after JSON object at byte 9"),
        (r#"{"id":"1"}"#, "field 'id' has the wrong JSON type; expected Int64 at byte 6"),
        (r#"{"id":1.5}"#, "field 'id' has the wrong JSON type; expected Int64 at byte 9"),
        (r#"{"id":01}"#, "field 'id': invalid JSON number with a leading zero at byte 7"),
        (r#"{"id":-}"#, "field 'id': expected a JSON number at byte 7"),
        (r#"{"score":1.}"#, "field 'score': expected a digit after the decimal point at byte 11"),
        (r#"{"score":1e}"#, "field 'score': expected an exponent digit at byte 11"),
        (r#"{"score":1e999}"#, "field 'score' contains a non-finite Float64 at byte 14"),
        (
            r#"{"id":9223372036854775808}"#,
            "field 'id' contains an Int64 outside the supported range at byte 25",
        ),
        (r#"{"label":"\x"}"#, "invalid JSON string escape at byte 12"),
        (r#"{"label":"\u12"#, "incomplete Unicode escape at byte 12"),
        (r#"{"label":"\u12zz"}"#, "invalid Unicode escape at byte 12"),
        (
            r#"{"label":"\udc00"}"#,
            "low surrogate is missing a leading high surrogate at byte 16",
        ),
        (r#"{"label":"a"#, "unterminated JSON string at byte 11"),
        ("{\"label\":\"\u{1}\"}", "unescaped control character in JSON string at byte 10"),
        (r#"{"active":truth}"#, "field 'active' has the wrong JSON type; expected Bool at byte 10"),
    ];
    for (record, expected) in cases {
        assert_eq!(parse_record(record, "events", &schema(), &floats).unwrap_err(), expected);
    }
}

#[test]
fn reads_lines_into_a_table() {
    let mut loader = EachRowLoader::new("events.json", "events", schema(), 10).unwrap();
    loader.line(b"{\"id\":1,\"score\":2.5}\r\n".to_vec(), &floats).unwrap();
    loader.line(b"   \n".to_vec(), &floats).unwrap();
    loader.line(b"{\"ID\":2,\"active\":true}".to_vec(), &floats).unwrap();
    let table = loader.finish();
    assert_eq!(table.len(), 2);
    assert_eq!(table.row(0).unwrap()[2], Value::Float64(2.5f64.to_bits()));
    assert_eq!(table.row(1).unwrap()[3], Value::Bool(true));
}

#[test]
fn refused_lines_name_their_record() {
    let mut loader = EachRowLoader::new("events.json", "events", schema(), 1).unwrap();
    loader.line(b"{\"id\":1}\n".to_vec(), &floats).unwrap();
    let full = loader.line(b"{\"id\":2}\n".to_vec(), &floats).unwrap_err();
    assert!(matches!(full, EachRowError::Record { record: 2, .. }));
    let bytes = loader.line(vec![b'{', 0xff], &floats).unwrap_err();
    match bytes {
        EachRowError::Record { path, record, message } => {
            assert_eq!(path, "events.json");
            assert_eq!(record, 3);
            assert_eq!(
                message,
                "record is not UTF-8: invalid utf-8 sequence of 1 bytes from index 1"
            );
        }
        EachRowError::Table(_) => panic!("a record is refused"),
    }
    let long = loader.line(vec![b' '; MAX_RECORD_BYTES + 1], &floats).unwrap_err();
    assert!(matches!(
        long,
        EachRowError::Record { message, .. } if message == "record exceeds the 16777216-byte limit"
    ));
    assert!(loader.line(vec![b' '; MAX_RECORD_BYTES], &floats).is_ok());
    assert!(matches!(
        EachRowLoader::new("events.json", "", schema(), 1),
        Err(EachRowError::Table(_))
    ));
}
