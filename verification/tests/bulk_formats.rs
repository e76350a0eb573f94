//! CSV and JSON lines.

use rusthouse::columnar::{Column, ColumnBatch, Field, Schema, Table};
use rusthouse::float::{FloatReply, FloatRequest};
use rusthouse::formats::csv::{ingest_csv, CsvOptions};
use rusthouse::formats::csv_export::{export_csv, write_csv_batch, CsvExportOptions};
use rusthouse::formats::limits::{FormatError, FormatLimits, LimitKind};
use rusthouse::formats::ndjson::{export_ndjson, ingest_ndjson, write_ndjson_batch, NdjsonOptions};
use rusthouse::types::DataType;

fn floats(request: FloatRequest) -> FloatReply {
    let bits = |x: f64| FloatReply::Bits(x.to_bits());
    let of = f64::from_bits;
    match request {
        FloatRequest::Sum(a, b) => bits(of(a) + of(b)),
        FloatRequest::Difference(a, b) => bits(of(a) - of(b)),
        FloatRequest::Product(a, b) => bits(of(a) * of(b)),
        FloatRequest::Quotient(a, b) => bits(of(a) / of(b)),
        FloatRequest::Remainder(a, b) => bits(of(a) % of(b)),
        FloatRequest::FromInteger(i) => bits(i as f64),
        FloatRequest::Parse(text) => match text.parse::<f64>() {
            Ok(x) => bits(x),
            Err(_) => FloatReply::Invalid,
        },
        FloatRequest::Display(a) => FloatReply::Text(of(a).to_string()),
    }
}

fn schema() -> Schema {
    Schema {
        fields: vec![
            Field::new("id", DataType::Int64, false),
            Field::new("x", DataType::Float64, true),
            Field::new("ok", DataType::Bool, true),
            Field::new("text", DataType::String, true),
        ],
    }
}

fn csv_options() -> CsvOptions {
    CsvOptions {
        limits: FormatLimits::default(),
        delimiter: b',',
        has_header: true,
        null_token: "NULL".to_owned(),
    }
}

fn export_options() -> CsvExportOptions {
    CsvExportOptions { delimiter: b',', include_header: true, null_token: "NULL".to_owned() }
}

const LINES: &str = "{\"id\":1,\"x\":1.5,\"ok\":true,\"text\":\"a \\\"b\\\", \\u0001\\n☃\"}\n{\"id\":-2,\"x\":null,\"ok\":null,\"text\":\"NULL\"}\n";

fn filled() -> Table {
    let mut table = Table::new(schema());
    let read = ingest_ndjson(LINES.as_bytes().to_vec(), &mut table, NdjsonOptions::default(), &floats);
    assert_eq!(read.unwrap(), 2);
    table
}

fn lines_of(table: &Table) -> Vec<u8> {
    let mut output = Vec::new();
    export_ndjson(&mut output, table, &floats).unwrap();
    output
}

fn csv_of(table: &Table) -> Vec<u8> {
    let mut output = Vec::new();
    export_csv(&mut output, table, &export_options(), &floats).unwrap();
    output
}

#[test]
fn json_lines_are_read_back_as_written() {
    let table = filled();
    let written = lines_of(&table);
    assert_eq!(String::from_utf8(written.clone()).unwrap(), LINES);
    let mut again = Table::new(schema());
    ingest_ndjson(written, &mut again, NdjsonOptions::default(), &floats).unwrap();
    assert_eq!(lines_of(&again), LINES.as_bytes());
    assert_eq!(again.columns(), table.columns());
}

#[test]
fn csv_is_read_back_as_written() {
    let table = filled();
    let written = csv_of(&table);
    assert_eq!(
        String::from_utf8(written.clone()).unwrap(),
        "id,x,ok,text\n1,1.5,true,\"a \"\"b\"\", \u{1}\n☃\"\n-2,NULL,NULL,\"NULL\"\n"
    );
    let mut again = Table::new(schema());
    assert_eq!(ingest_csv(written, &mut again, csv_options(), &floats).unwrap(), 2);
    assert_eq!(again.columns(), table.columns());
}

#[test]
fn a_refused_input_changes_nothing() {
    let mut table = filled();
    let before = csv_of(&table);
    let bad = "{\"id\":3,\"x\":1,\"ok\":true,\"text\":\"t\"}\n{\"id\":null,\"x\":1,\"ok\":true,\"text\":\"t\"}\n";
    let error = ingest_ndjson(bad.as_bytes().to_vec(), &mut table, NdjsonOptions::default(), &floats);
    assert!(matches!(error, Err(FormatError::NullNotAllowed { row: 2, .. })));
    assert_eq!(csv_of(&table), before);
    assert_eq!(table.rows(), 2);
    assert!(matches!(&table.columns()[0], Column::Int64(values) if values.len() == 2));
}

fn json_error(line: &str) -> FormatError {
    let mut table = Table::new(schema());
    ingest_ndjson(line.as_bytes().to_vec(), &mut table, NdjsonOptions::default(), &floats).unwrap_err()
}

#[test]
fn json_failures_have_their_kinds() {
    assert!(matches!(json_error("[]\n"), FormatError::JsonSyntax { row: 1, .. }));
    assert!(matches!(json_error("\n"), FormatError::JsonSyntax { row: 1, .. }));
    assert!(matches!(json_error("{\"no\":1}\n"), FormatError::UnknownField { row: 1, .. }));
    assert!(matches!(json_error("{\"id\":1,\"id\":2}\n"), FormatError::DuplicateField { row: 1, .. }));
    assert!(matches!(json_error("{\"id\":1}\n"), FormatError::MissingField { row: 1, .. }));
    assert!(matches!(
        json_error("{\"id\":\"1\",\"x\":1,\"ok\":true,\"text\":\"\"}\n"),
        FormatError::Conversion { row: 1, .. }
    ));
    assert_eq!(
        json_error("{\"id\":1 2}\n").message(),
        "invalid NDJSON at row 1: expected ',' or '}' after object field at byte 8"
    );
}

fn csv_error(text: &str) -> FormatError {
    let mut table = Table::new(schema());
    ingest_csv(text.as_bytes().to_vec(), &mut table, csv_options(), &floats).unwrap_err()
}

#[test]
fn csv_failures_have_their_kinds() {
    assert!(matches!(csv_error("a,b\n"), FormatError::HeaderMismatch { .. }));
    assert!(matches!(
        csv_error("id,x,ok,text\n1\n"),
        FormatError::FieldCount { expected: 4, actual: 1, .. }
    ));
    assert!(matches!(csv_error("id,x,ok,text\nz,1,true,t\n"), FormatError::Conversion { .. }));
    assert!(matches!(csv_error("id,x,ok,text\nNULL,1,true,t\n"), FormatError::NullNotAllowed { .. }));
    assert!(matches!(csv_error("id,x,ok,text\n1,1,true,\"t\n"), FormatError::CsvSyntax { .. }));
}

#[test]
fn limits_stop_reading() {
    let mut options = NdjsonOptions::default();
    options.limits.max_rows = 1;
    let mut table = Table::new(schema());
    assert!(matches!(
        ingest_ndjson(LINES.as_bytes().to_vec(), &mut table, options, &floats),
        Err(FormatError::LimitExceeded { kind: LimitKind::Rows, limit: 1, .. })
    ));
    let mut options = csv_options();
    options.limits.max_input_bytes = 5;
    assert!(matches!(
        ingest_csv(b"id,x,ok,text\n".to_vec(), &mut table, options, &floats),
        Err(FormatError::LimitExceeded { kind: LimitKind::InputBytes, limit: 5, .. })
    ));
}

#[test]
fn names_in_failures_are_quoted() {
    assert_eq!(
        json_error("{\"a\\\"b\":1}\n").message(),
        "unknown field \"a\\\"b\" at row 1"
    );
}

#[test]
fn a_failed_export_leaves_what_was_written_before() {
    let schema = schema();
    let batch = ColumnBatch::new(
        &schema,
        vec![
            Column::Int64(vec![Some(1), Some(2)]),
            Column::Float64(vec![Some(0.5f64.to_bits()), Some(f64::NAN.to_bits())]),
            Column::Bool(vec![None, None]),
            Column::String(vec![Some("t".to_owned()), None]),
        ],
    )
    .unwrap();
    let mut output = b">".to_vec();
    let error = write_csv_batch(&mut output, &schema, &batch, &export_options(), &floats);
    assert!(matches!(error, Err(FormatError::Conversion { row: 2, .. })));
    assert_eq!(String::from_utf8(output).unwrap(), ">id,x,ok,text\n1,0.5,NULL,t\n2,");
    let mut output = Vec::new();
    let error = write_ndjson_batch(&mut output, &schema, &batch, &floats);
    assert!(matches!(error, Err(FormatError::Conversion { row: 2, .. })));
    assert_eq!(
        String::from_utf8(output).unwrap(),
        "{\"id\":1,\"x\":0.5,\"ok\":null,\"text\":\"t\"}\n{\"id\":2,\"x\":"
    );
}
