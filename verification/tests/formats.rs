//! Records with a header of column names.

use rusthouse::formats::with_names::{delivered, CsvWithNamesError, CsvWithNamesWriter};
use std::io::{self, Write};

#[test]
fn emits_header_before_rows_are_supplied() {
    let csv = CsvWithNamesWriter::new(Vec::new(), &["first", "second"]).unwrap();
    let output = csv.into_inner();

    assert_eq!(output, b"\"first\",\"second\"\n");
}

#[test]
fn quotes_every_csv_boundary_character() {
    let mut csv = CsvWithNamesWriter::new(
        Vec::new(),
        &["plain", "with,comma", "with\"quote", "with\rreturn", "with\nline"],
    )
    .unwrap();

    csv.write_row(&["", ",", "\"", "\r", "\r\n"]).unwrap();

    let header = "\"plain\",\"with,comma\",\"with\"\"quote\",\"with\rreturn\",\"with\nline\"\n";
    let record = "\"\",\",\",\"\"\"\",\"\r\",\"\r\n\"\n";
    assert_eq!(String::from_utf8(csv.into_inner()).unwrap(), format!("{header}{record}"));
}

#[test]
fn round_trips_boundary_whitespace_and_a_single_column_empty_value() {
    let fields = ["value", " padded ", "\ttabbed\t", ""];
    let mut csv = CsvWithNamesWriter::new(Vec::new(), &[fields[0]]).unwrap();
    for field in &fields[1..] {
        csv.write_row(&[field]).unwrap();
    }

    let output = String::from_utf8(csv.into_inner()).unwrap();
    let decoded: Vec<_> = output
        .lines()
        .map(|record| {
            record
                .strip_prefix('"')
                .and_then(|record| record.strip_suffix('"'))
                .expect("single string field should be quoted")
                .replace("\"\"", "\"")
        })
        .collect();

    assert_eq!(decoded, fields);
    assert!(output.ends_with("\"\"\n"));
}

#[test]
fn rejects_rows_on_both_sides_of_the_expected_width_without_writing_them() {
    let mut csv = CsvWithNamesWriter::new(Vec::new(), &["a", "b"]).unwrap();

    assert!(matches!(
        csv.write_row(&["one"]),
        Err(CsvWithNamesError::RowWidth { expected: 2, actual: 1 })
    ));
    assert!(matches!(
        csv.write_row(&["one", "two", "three"]),
        Err(CsvWithNamesError::RowWidth { expected: 2, actual: 3 })
    ));
    csv.write_row(&["one", "two"]).unwrap();

    assert_eq!(csv.into_inner(), b"\"a\",\"b\"\n\"one\",\"two\"\n");
}

#[test]
fn handles_the_zero_column_boundary() {
    let mut csv = CsvWithNamesWriter::new(Vec::new(), &[]).unwrap();

    csv.write_row(&[]).unwrap();
    assert!(matches!(
        csv.write_row(&["unexpected"]),
        Err(CsvWithNamesError::RowWidth { expected: 0, actual: 1 })
    ));

    assert_eq!(csv.into_inner(), b"\n\n");
}

#[derive(Debug)]
struct FailingWriter;

impl Write for FailingWriter {
    fn write(&mut self, _buffer: &[u8]) -> io::Result<usize> {
        Err(io::Error::other("destination full"))
    }

    fn flush(&mut self) -> io::Result<()> {
        Ok(())
    }
}

#[test]
fn preserves_writer_errors_as_a_typed_source() {
    let header = CsvWithNamesWriter::new(Vec::new(), &["column"]).unwrap().into_inner();
    let outcome = FailingWriter.write_all(&header).map_err(|error| error.to_string());
    let error = delivered(outcome).unwrap_err();
    assert!(matches!(&error, CsvWithNamesError::Io(source) if source == "destination full"));
    assert_eq!(error.message(), "failed to write CSVWithNames output: destination full");
}
