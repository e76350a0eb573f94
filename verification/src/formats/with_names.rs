//! CSV with a record of column names and every field quoted.

use vstd::prelude::*;
use crate::bytes::{text_bytes, utf8};
use crate::formats::csv_export::{doubled, front_makes_the_line, line, line_front, quoted};
use crate::text::{concat2, concat5, int_text, usize_text};

verus! {

/// An error of writing CSV with names.
#[derive(Debug, PartialEq, Eq)]
pub enum CsvWithNamesError {
    /// The destination failed.
    Io(String),
    /// A row did not contain one value for every column.
    RowWidth {
        /// The number of columns in the header.
        expected: usize,
        /// The number of values in the rejected row.
        actual: usize,
    },
}

impl CsvWithNamesError {
    /// The text of the error.
    pub fn message(&self) -> (s: String)
        ensures
            s@ == match *self {
                CsvWithNamesError::Io(error) => "failed to write CSVWithNames output: "@ + error@,
                CsvWithNamesError::RowWidth { expected, actual } => "CSVWithNames row has "@
                    + int_text(actual as int) + " values, but the header has "@ + int_text(
                    expected as int,
                ) + " columns"@,
            },
    {
        match self {
            CsvWithNamesError::Io(error) => concat2(
                "failed to write CSVWithNames output: ",
                error.as_str(),
            ),
            CsvWithNamesError::RowWidth { expected, actual } => concat5(
                "CSVWithNames row has ",
                usize_text(*actual).as_str(),
                " values, but the header has ",
                usize_text(*expected).as_str(),
                " columns",
            ),
        }
    }
}

/// Texts as quoted fields.
pub open spec fn quoted_fields(list: Seq<&str>) -> Seq<Seq<u8>> {
    Seq::new(list.len(), |i: int| quoted(utf8(list[i]@)))
}

/// Texts as a record of quoted fields.
pub open spec fn quoted_record(list: Seq<&str>) -> Seq<u8> {
    line(quoted_fields(list), 44, 0)
}

fn write_field(target: &mut Vec<u8>, field: &str)
    ensures
        final(target)@ == old(target)@ + quoted(utf8(field@)),
{
    let ghost before = target@;
    let bytes = text_bytes(field);
    target.push(34);
    assert(target@ =~= before + (seq![34u8] + doubled(bytes@, 0)));
    let mut i: usize = 0;
    while i < bytes.len()
        invariant
            i <= bytes.len(),
            target@ == before + (seq![34u8] + doubled(bytes@, i as int)),
        decreases bytes.len() - i,
    {
        target.push(bytes[i]);
        if bytes[i] == 34 {
            target.push(34);
        }
        assert(target@ =~= before + (seq![34u8] + doubled(bytes@, i + 1)));
        i = i + 1;
    }
    target.push(34);
    assert(target@ =~= before + quoted(bytes@));
}

#[verifier::loop_isolation(false)]
fn write_record(target: &mut Vec<u8>, list: &[&str])
    ensures
        final(target)@ == old(target)@ + quoted_record(list@),
{
    let ghost before = target@;
    let ghost fields = quoted_fields(list@);
    let width = list.len();
    assert(target@ =~= before + line_front(fields, 44, 0, width as int));
    let mut i: usize = 0;
    while i < width
        invariant
            i <= width,
            target@ == before + line_front(fields, 44, i as int, width as int),
        decreases width - i,
    {
        write_field(target, list[i]);
        if i + 1 < width {
            target.push(44);
        }
        assert(target@ =~= before + line_front(fields, 44, i + 1, width as int));
        i = i + 1;
    }
    target.push(10);
    proof {
        front_makes_the_line(fields, 44, width as int);
        assert(target@ =~= before + quoted_record(list@));
    }
}

/// What comes of delivering what was written to a destination, which may have failed.
pub fn delivered(outcome: Result<(), String>) -> (r: Result<(), CsvWithNamesError>)
    ensures
        match outcome {
            Ok(_) => r is Ok,
            Err(message) => r == Err::<(), CsvWithNamesError>(CsvWithNamesError::Io(message)),
        },
{
    match outcome {
        Ok(_) => Ok(()),
        Err(message) => Err(CsvWithNamesError::Io(message)),
    }
}

/// Writes records of quoted fields behind a record of column names.
#[derive(Debug)]
pub struct CsvWithNamesWriter {
    output: Vec<u8>,
    column_count: usize,
}

impl CsvWithNamesWriter {
    /// What was written.
    pub closed spec fn written(&self) -> Seq<u8> {
        self.output@
    }

    /// The number of columns.
    pub closed spec fn width(&self) -> nat {
        self.column_count as nat
    }

    /// Makes a writer and writes the record of column names.
    pub fn new(output: Vec<u8>, column_names: &[&str]) -> (r: Result<
        CsvWithNamesWriter,
        CsvWithNamesError,
    >)
        ensures
            r matches Ok(csv) && csv.written() == output@ + quoted_record(column_names@) && csv.width()
                == column_names@.len(),
    {
        let mut output = output;
        write_record(&mut output, column_names);
        Ok(CsvWithNamesWriter { output, column_count: column_names.len() })
    }

    /// Writes a row; one of another width is refused before anything of it is written.
    pub fn write_row(&mut self, row: &[&str]) -> (r: Result<(), CsvWithNamesError>)
        ensures
            final(self).width() == old(self).width(),
            if row@.len() == old(self).width() {
                &&& r is Ok
                &&& final(self).written() == old(self).written() + quoted_record(row@)
            } else {
                &&& r matches Err(CsvWithNamesError::RowWidth { expected, actual }) && expected
                    == old(self).width() && actual == row@.len()
                &&& final(self).written() == old(self).written()
            },
    {
        if row.len() != self.column_count {
            return Err(
                CsvWithNamesError::RowWidth { expected: self.column_count, actual: row.len() },
            );
        }
        write_record(&mut self.output, row);
        Ok(())
    }

    /// Nothing is held back, so there is nothing to flush.
    pub fn flush(&mut self) -> (r: Result<(), CsvWithNamesError>)
        ensures
            r is Ok,
            final(self).written() == old(self).written(),
            final(self).width() == old(self).width(),
    {
        Ok(())
    }

    /// Hands over what was written since the last time; the record of column names stands in
    /// the first part.
    pub fn take_written(&mut self) -> (part: Vec<u8>)
        ensures
            part@ == old(self).written(),
            final(self).written() == Seq::<u8>::empty(),
            final(self).width() == old(self).width(),
    {
        let mut part: Vec<u8> = Vec::new();
        std::mem::swap(&mut part, &mut self.output);
        assert(self.output@ =~= Seq::<u8>::empty());
        part
    }

    /// Returns what was written.
    pub fn into_inner(self) -> (output: Vec<u8>)
        ensures
            output@ == self.written(),
    {
        self.output
    }
}

} // verus!
