//! Serialization as CSV.

use vstd::prelude::*;
use crate::bytes::{append_bytes, append_text, text_bytes, utf8};
use crate::columnar::{batch_check, checked_columns_suit, column_suits, row_at, rows_of, shaped, Column, ColumnBatch, Field, Schema, Table};
use crate::float::{answers_floats, display_float, finite, float_model, float_text, is_finite, FloatModel, FloatReply, FloatRequest};
use crate::formats::csv::{any_special, dialect_check, has_special, validate_csv_syntax_options};
use crate::formats::limits::{handed_over, FormatError, FormatFault};
use crate::text::{i64_text, int_text, same_text};
use crate::types::{DataType, Datum, Value};

verus! {

/// Settings for CSV serialization.
#[derive(Debug, Clone, PartialEq, Eq)]
pub struct CsvExportOptions {
    pub delimiter: u8,
    pub include_header: bool,
    pub null_token: String,
}

impl Default for CsvExportOptions {
    fn default() -> (options: CsvExportOptions)
        ensures
            options.delimiter == 44,
            options.include_header,
            options.null_token@ == "\\N"@,
    {
        CsvExportOptions { delimiter: 44, include_header: true, null_token: "\\N".to_owned() }
    }
}

/// The first `n` bytes with every quote doubled.
pub open spec fn doubled(bytes: Seq<u8>, n: int) -> Seq<u8>
    decreases n,
{
    if n <= 0 {
        Seq::empty()
    } else if bytes[n - 1] == 34 {
        doubled(bytes, n - 1) + seq![34u8, 34u8]
    } else {
        doubled(bytes, n - 1) + seq![bytes[n - 1]]
    }
}

/// Bytes between quotes.
pub open spec fn quoted(bytes: Seq<u8>) -> Seq<u8> {
    seq![34u8] + doubled(bytes, bytes.len() as int) + seq![34u8]
}

/// Whether a text must be written between quotes: where it could be mistaken for `NULL`, or
/// holds a byte that cannot stand in an unquoted field.
pub open spec fn needs_quotes(text: Seq<char>, delimiter: u8, null_token: Seq<char>) -> bool {
    text == null_token || has_special(utf8(text), delimiter)
}

/// A text as a field.
pub open spec fn written_text(text: Seq<char>, delimiter: u8, null_token: Seq<char>) -> Seq<u8> {
    if needs_quotes(text, delimiter, null_token) {
        quoted(utf8(text))
    } else {
        utf8(text)
    }
}

/// The text of a value that is written as a field.
pub open spec fn cell_text(cell: Datum, m: FloatModel) -> Seq<char> {
    match cell {
        Datum::Null => Seq::empty(),
        Datum::Int64(n) => int_text(n as int),
        Datum::Float64(bits) => float_text(m, bits),
        Datum::Bool(b) => if b { "true"@ } else { "false"@ },
        Datum::Text(s) => s,
    }
}

/// A value as a field of the row behind `row` others.
pub open spec fn written_cell(
    cell: Datum,
    field: Field,
    options: CsvExportOptions,
    row: int,
    m: FloatModel,
) -> Result<Seq<u8>, FormatFault> {
    match cell {
        Datum::Null => Ok(utf8(options.null_token@)),
        Datum::Float64(bits) if !is_finite(bits) => Err(
            FormatFault::Conversion {
                row: (row + 1) as u64,
                column: field.name@,
                data_type: DataType::Float64,
                value: float_text(m, bits),
            },
        ),
        _ => Ok(written_text(cell_text(cell, m), options.delimiter, options.null_token@)),
    }
}

/// Written fields with delimiters between them, from position `c` on.
pub open spec fn line(list: Seq<Seq<u8>>, delimiter: u8, c: int) -> Seq<u8>
    decreases list.len() - c,
{
    if !(0 <= c < list.len()) {
        seq![10u8]
    } else if c + 1 == list.len() {
        list[c] + seq![10u8]
    } else {
        list[c] + seq![delimiter] + line(list, delimiter, c + 1)
    }
}

/// The written fields of a row from column `c` on, behind `done`.
pub open spec fn written_fields(
    cells: Seq<Datum>,
    fields: Seq<Field>,
    options: CsvExportOptions,
    row: int,
    m: FloatModel,
    c: int,
    done: Seq<Seq<u8>>,
) -> Result<Seq<Seq<u8>>, FormatFault>
    decreases cells.len() - c,
{
    if !(0 <= c < cells.len()) {
        Ok(done)
    } else {
        match written_cell(cells[c], fields[c], options, row, m) {
            Err(fault) => Err(fault),
            Ok(bytes) => written_fields(cells, fields, options, row, m, c + 1, done.push(bytes)),
        }
    }
}

/// A row as a line.
pub open spec fn written_row(
    cells: Seq<Datum>,
    fields: Seq<Field>,
    options: CsvExportOptions,
    row: int,
    m: FloatModel,
) -> Result<Seq<u8>, FormatFault> {
    match written_fields(cells, fields, options, row, m, 0, Seq::empty()) {
        Err(fault) => Err(fault),
        Ok(list) => Ok(line(list, options.delimiter, 0)),
    }
}

/// Rows as lines, from row `row` on, behind `done`.
pub open spec fn written_rows(
    rows: Seq<Seq<Datum>>,
    fields: Seq<Field>,
    options: CsvExportOptions,
    m: FloatModel,
    row: int,
    done: Seq<u8>,
) -> Result<Seq<u8>, FormatFault>
    decreases rows.len() - row,
{
    if !(0 <= row < rows.len()) {
        Ok(done)
    } else {
        match written_row(rows[row], fields, options, row, m) {
            Err(fault) => Err(fault),
            Ok(bytes) => written_rows(rows, fields, options, m, row + 1, done + bytes),
        }
    }
}

/// The bytes of a row from column `c` on, behind `done`, up to the first value that cannot be
/// written.
pub open spec fn fields_begun(
    cells: Seq<Datum>,
    fields: Seq<Field>,
    options: CsvExportOptions,
    row: int,
    m: FloatModel,
    c: int,
    done: Seq<u8>,
) -> Seq<u8>
    decreases cells.len() - c,
{
    if !(0 <= c < cells.len()) {
        done
    } else {
        match written_cell(cells[c], fields[c], options, row, m) {
            Err(_) => done,
            Ok(bytes) => fields_begun(
                cells,
                fields,
                options,
                row,
                m,
                c + 1,
                if c + 1 < cells.len() {
                    (done + bytes).push(options.delimiter)
                } else {
                    done + bytes
                },
            ),
        }
    }
}

/// The bytes of rows from row `row` on, behind `done`, up to the first value that cannot be
/// written.
pub open spec fn rows_begun(
    rows: Seq<Seq<Datum>>,
    fields: Seq<Field>,
    options: CsvExportOptions,
    m: FloatModel,
    row: int,
    done: Seq<u8>,
) -> Seq<u8>
    decreases rows.len() - row,
{
    if !(0 <= row < rows.len()) {
        done
    } else {
        match written_row(rows[row], fields, options, row, m) {
            Err(_) => fields_begun(rows[row], fields, options, row, m, 0, done),
            Ok(bytes) => rows_begun(rows, fields, options, m, row + 1, done + bytes),
        }
    }
}

/// The bytes that are written before the first value that cannot be written.
pub open spec fn csv_begun(
    rows: Seq<Seq<Datum>>,
    fields: Seq<Field>,
    options: CsvExportOptions,
    m: FloatModel,
) -> Seq<u8> {
    match dialect_check(options.delimiter, options.null_token@, usize::MAX) {
        Err(_) => Seq::empty(),
        Ok(()) => {
            let head = if options.include_header {
                line(written_names(fields, options), options.delimiter, 0)
            } else {
                Seq::empty()
            };
            rows_begun(rows, fields, options, m, 0, head)
        },
    }
}

/// The names of the columns as fields.
pub open spec fn written_names(fields: Seq<Field>, options: CsvExportOptions) -> Seq<Seq<u8>> {
    Seq::new(
        fields.len(),
        |c: int| written_text(fields[c].name@, options.delimiter, options.null_token@),
    )
}

/// Rows as CSV, or why they cannot be written.
pub open spec fn csv_written(
    rows: Seq<Seq<Datum>>,
    fields: Seq<Field>,
    options: CsvExportOptions,
    m: FloatModel,
) -> Result<Seq<u8>, FormatFault> {
    match dialect_check(options.delimiter, options.null_token@, usize::MAX) {
        Err(fault) => Err(fault),
        Ok(()) => {
            let head = if options.include_header {
                line(written_names(fields, options), options.delimiter, 0)
            } else {
                Seq::empty()
            };
            written_rows(rows, fields, options, m, 0, head)
        },
    }
}

/// Appends a text as a field.
pub fn write_csv_field(target: &mut Vec<u8>, value: &str, delimiter: u8, null_token: &str)
    ensures
        final(target)@ == old(target)@ + written_text(value@, delimiter, null_token@),
{
    let bytes = text_bytes(value);
    if !(same_text(value, null_token) || any_special(&bytes, delimiter)) {
        append_bytes(target, &bytes);
        return ;
    }
    let ghost before = target@;
    target.push(34);
    assert(target@ =~= before + (seq![34u8] + doubled(bytes@, 0)));
    let mut i: usize = 0;
    while i < bytes.len()
        invariant
            i <= bytes.len(),
            target@ == before + (seq![34u8] + doubled(bytes@, i as int)),
        decreases bytes.len() - i,
    {
        target.push(bytes[i]);
        if bytes[i] == 34 {
            target.push(34);
        }
        assert(target@ =~= before + (seq![34u8] + doubled(bytes@, i + 1)));
        i = i + 1;
    }
    target.push(34);
    assert(target@ =~= before + quoted(bytes@));
}

fn append_cell<F: Fn(FloatRequest) -> FloatReply>(
    target: &mut Vec<u8>,
    cell: &Value,
    field: &Field,
    options: &CsvExportOptions,
    row: usize,
    f: &F,
) -> (r: Result<(), FormatError>)
    requires
        answers_floats(*f),
        row < usize::MAX,
    ensures
        match written_cell(cell@, *field, *options, row as int, float_model(*f)) {
            Err(fault) => final(target)@ == old(target)@ && (r matches Err(e) && e@ == fault),
            Ok(bytes) => r is Ok && final(target)@ == old(target)@ + bytes,
        },
{
    let null_token = options.null_token.as_str();
    match cell {
        Value::Null => append_text(target, null_token),
        Value::Int64(n) => write_csv_field(
            target,
            i64_text(*n).as_str(),
            options.delimiter,
            null_token,
        ),
        Value::Float64(bits) => {
            let text = display_float(f, *bits);
            if !finite(*bits) {
                return Err(
                    FormatError::Conversion {
                        row: row as u64 + 1,
                        column: field.name.clone(),
                        data_type: DataType::Float64,
                        value: text,
                    },
                );
            }
            write_csv_field(target, text.as_str(), options.delimiter, null_token)
        },
        Value::Bool(b) => write_csv_field(
            target,
            if *b { "true" } else { "false" },
            options.delimiter,
            null_token,
        ),
        Value::String(s) => write_csv_field(target, s.as_str(), options.delimiter, null_token),
    }
    Ok(())
}

/// The first `n` written fields with delimiters behind all but the last of the list.
pub open spec fn line_front(list: Seq<Seq<u8>>, delimiter: u8, n: int, width: int) -> Seq<u8>
    decreases n,
{
    if n <= 0 {
        Seq::empty()
    } else if n == width {
        line_front(list, delimiter, n - 1, width) + list[n - 1]
    } else {
        line_front(list, delimiter, n - 1, width) + list[n - 1] + seq![delimiter]
    }
}

/// The written fields with a line feed behind them make the line.
pub proof fn front_makes_the_line(list: Seq<Seq<u8>>, delimiter: u8, c: int)
    requires
        0 <= c <= list.len(),
    ensures
        c < list.len() ==> line_front(list, delimiter, c, list.len() as int) + line(
            list,
            delimiter,
            c,
        ) == line(list, delimiter, 0),
        c == list.len() ==> line_front(list, delimiter, c, list.len() as int) + seq![10u8] == line(
            list,
            delimiter,
            0,
        ),
    decreases c,
{
    let width = list.len() as int;
    if c > 0 {
        front_makes_the_line(list, delimiter, c - 1);
        let before = line_front(list, delimiter, c - 1, width);
        if c < width {
            assert(line_front(list, delimiter, c, width) + line(list, delimiter, c) =~= before + line(
                list,
                delimiter,
                c - 1,
            ));
        } else {
            assert(line_front(list, delimiter, c, width) + seq![10u8] =~= before + line(
                list,
                delimiter,
                c - 1,
            ));
        }
    } else {
        assert(line_front(list, delimiter, 0, width) + line(list, delimiter, 0) =~= line(
            list,
            delimiter,
            0,
        ));
        if width == 0 {
            assert(line(list, delimiter, 0) =~= seq![10u8]);
        }
    }
}

proof fn front_ignores_the_rest(a: Seq<Seq<u8>>, b: Seq<Seq<u8>>, delimiter: u8, n: int, width: int)
    requires
        n <= a.len(),
        n <= b.len(),
        forall|i: int| 0 <= i < n ==> #[trigger] a[i] == b[i],
    ensures
        line_front(a, delimiter, n, width) == line_front(b, delimiter, n, width),
    decreases n,
{
    if n > 0 {
        front_ignores_the_rest(a, b, delimiter, n - 1, width);
        assert(a[n - 1] == b[n - 1]);
    }
}

/// Written fields are those of the cells, one by one.
pub proof fn written_fields_extend(
    cells: Seq<Datum>,
    fields: Seq<Field>,
    options: CsvExportOptions,
    row: int,
    m: FloatModel,
    c: int,
    done: Seq<Seq<u8>>,
)
    requires
        0 <= c <= cells.len(),
        done.len() == c,
    ensures
        written_fields(cells, fields, options, row, m, c, done) matches Ok(list) ==> list.len()
            == cells.len() && (forall|i: int| 0 <= i < c ==> #[trigger] list[i] == done[i]) && (forall|
            i: int,
        |
            c <= i < cells.len() ==> Ok::<Seq<u8>, FormatFault>(#[trigger] list[i]) == written_cell(
                cells[i],
                fields[i],
                options,
                row,
                m,
            )),
    decreases cells.len() - c,
{
    if c < cells.len() {
        if let Ok(bytes) = written_cell(cells[c], fields[c], options, row, m) {
            written_fields_extend(cells, fields, options, row, m, c + 1, done.push(bytes));
            if let Ok(list) = written_fields(
                cells,
                fields,
                options,
                row,
                m,
                c + 1,
                done.push(bytes),
            ) {
                assert forall|i: int| 0 <= i < c implies #[trigger] list[i] == done[i] by {
                    assert(list[i] == done.push(bytes)[i]);
                }
                assert(list[c] == done.push(bytes)[c]);
            }
        }
    }
}

#[verifier::loop_isolation(false)]
fn append_row<F: Fn(FloatRequest) -> FloatReply>(
    target: &mut Vec<u8>,
    schema: &Schema,
    columns: &Vec<Column>,
    row: usize,
    options: &CsvExportOptions,
    f: &F,
) -> (r: Result<(), FormatError>)
    requires
        answers_floats(*f),
        columns@.len() == schema.fields@.len(),
        forall|c: int| 0 <= c < columns@.len() ==> row < (#[trigger] columns@[c]).height(),
        row < usize::MAX,
    ensures
        match written_row(
            row_at(columns@, row as int),
            schema.fields@,
            *options,
            row as int,
            float_model(*f),
        ) {
            Err(fault) => (r matches Err(e) && e@ == fault) && final(target)@ == fields_begun(
                row_at(columns@, row as int),
                schema.fields@,
                *options,
                row as int,
                float_model(*f),
                0,
                old(target)@,
            ),
            Ok(bytes) => r is Ok && final(target)@ == old(target)@ + bytes,
        },
{
    let ghost before = target@;
    let ghost cells = row_at(columns@, row as int);
    let ghost fields = schema.fields@;
    let ghost m = float_model(*f);
    let ghost mut done: Seq<Seq<u8>> = Seq::empty();
    let width = columns.len();
    let ghost d = options.delimiter;
    assert(target@ =~= before + line_front(done, d, 0, width as int));
    let mut c: usize = 0;
    while c < width
        invariant
            c <= width,
            done.len() == c,
            target@ == before + line_front(done, d, c as int, width as int),
            written_fields(cells, fields, *options, row as int, m, 0, Seq::empty())
                == written_fields(cells, fields, *options, row as int, m, c as int, done),
            fields_begun(cells, fields, *options, row as int, m, 0, before) == fields_begun(
                cells,
                fields,
                *options,
                row as int,
                m,
                c as int,
                target@,
            ),
        decreases width - c,
    {
        let value = columns[c].value(row);
        assert(value@ == cells[c as int]);
        let ghost front = target@;
        match append_cell(target, &value, &schema.fields[c], options, row, f) {
            Err(e) => return Err(e),
            Ok(()) => {},
        }
        if c + 1 < width {
            target.push(options.delimiter);
        }
        proof {
            let bytes = written_cell(cells[c as int], fields[c as int], *options, row as int, m)->Ok_0;
            let more = done.push(bytes);
            front_ignores_the_rest(done, more, d, c as int, width as int);
            assert(target@ =~= before + line_front(more, d, c + 1, width as int));
            done = more;
        }
        c = c + 1;
    }
    target.push(10);
    proof {
        front_makes_the_line(done, d, width as int);
        assert(target@ =~= before + line(done, d, 0));
    }
    Ok(())
}

#[verifier::loop_isolation(false)]
fn append_names(target: &mut Vec<u8>, schema: &Schema, options: &CsvExportOptions)
    ensures
        final(target)@ == old(target)@ + line(
            written_names(schema.fields@, *options),
            options.delimiter,
            0,
        ),
{
    let ghost before = target@;
    let ghost names = written_names(schema.fields@, *options);
    let ghost d = options.delimiter;
    let width = schema.len();
    assert(target@ =~= before + line_front(names, d, 0, width as int));
    let mut c: usize = 0;
    while c < width
        invariant
            c <= width,
            target@ == before + line_front(names, d, c as int, width as int),
        decreases width - c,
    {
        write_csv_field(
            target,
            schema.fields[c].name.as_str(),
            options.delimiter,
            options.null_token.as_str(),
        );
        if c + 1 < width {
            target.push(options.delimiter);
        }
        assert(target@ =~= before + line_front(names, d, c + 1, width as int));
        c = c + 1;
    }
    target.push(10);
    proof {
        front_makes_the_line(names, d, width as int);
        assert(target@ =~= before + line(names, d, 0));
    }
}

#[verifier::loop_isolation(false)]
fn write_csv_columns<F: Fn(FloatRequest) -> FloatReply>(
    output: &mut Vec<u8>,
    schema: &Schema,
    columns: &Vec<Column>,
    rows: usize,
    options: &CsvExportOptions,
    f: &F,
) -> (r: Result<(), FormatError>)
    requires
        answers_floats(*f),
        shaped(columns@, schema.fields@, rows as nat),
    ensures
        ({
            let content = rows_of(columns@, rows as nat);
            let m = float_model(*f);
            handed_over(
                r,
                old(output)@,
                final(output)@,
                csv_written(content, schema.fields@, *options, m),
                csv_begun(content, schema.fields@, *options, m),
            )
        }),
{
    match validate_csv_syntax_options(options.delimiter, options.null_token.as_str(), usize::MAX) {
        Err(e) => {
            assert(output@ =~= output@ + Seq::<u8>::empty());
            return Err(e);
        },
        Ok(()) => {},
    }
    let mut bytes: Vec<u8> = Vec::new();
    if options.include_header {
        append_names(&mut bytes, schema, options);
    }
    let ghost all = rows_of(columns@, rows as nat);
    let ghost fields = schema.fields@;
    let ghost m = float_model(*f);
    let ghost head = bytes@;
    assert(head =~= (if options.include_header {
        line(written_names(fields, *options), options.delimiter, 0)
    } else {
        Seq::empty()
    }));
    let mut row: usize = 0;
    while row < rows
        invariant
            row <= rows,
            output@ == old(output)@,
            written_rows(all, fields, *options, m, 0, head) == written_rows(
                all,
                fields,
                *options,
                m,
                row as int,
                bytes@,
            ),
            rows_begun(all, fields, *options, m, 0, head) == rows_begun(
                all,
                fields,
                *options,
                m,
                row as int,
                bytes@,
            ),
        decreases rows - row,
    {
        assert forall|c: int| 0 <= c < columns@.len() implies row < (#[trigger] columns@[c]).height() by {
            assert(column_suits(columns@[c], fields[c], rows as nat));
        }
        assert(all[row as int] == row_at(columns@, row as int));
        match append_row(&mut bytes, schema, columns, row, options, f) {
            Err(e) => {
                append_bytes(output, &bytes);
                return Err(e);
            },
            Ok(()) => {},
        }
        row = row + 1;
    }
    append_bytes(output, &bytes);
    Ok(())
}

/// Writes a table as CSV with LF record endings behind an output. On a failure the output
/// holds what comes before the value that cannot be written.
pub fn export_csv<F: Fn(FloatRequest) -> FloatReply>(
    output: &mut Vec<u8>,
    table: &Table,
    options: &CsvExportOptions,
    f: &F,
) -> (r: Result<(), FormatError>)
    requires
        table.wf(),
        answers_floats(*f),
    ensures
        handed_over(
            r,
            old(output)@,
            final(output)@,
            csv_written(table.content(), table.fields(), *options, float_model(*f)),
            csv_begun(table.content(), table.fields(), *options, float_model(*f)),
        ),
{
    write_csv_columns(output, table.schema(), table.columns(), table.rows(), options, f)
}

/// Writes a batch as CSV behind an output, if its columns suit the schema. On a failure the
/// output holds what comes before the value that cannot be written.
pub fn write_csv_batch<F: Fn(FloatRequest) -> FloatReply>(
    output: &mut Vec<u8>,
    schema: &Schema,
    batch: &ColumnBatch,
    options: &CsvExportOptions,
    f: &F,
) -> (r: Result<(), FormatError>)
    requires
        batch.wf(),
        answers_floats(*f),
    ensures
        match batch_check(batch.parts(), schema.fields@) {
            Err(fault) => {
                &&& r matches Err(e) && e@ == FormatFault::Storage(fault)
                &&& final(output)@ == old(output)@
            },
            Ok(()) => handed_over(
                r,
                old(output)@,
                final(output)@,
                csv_written(batch.content(), schema.fields@, *options, float_model(*f)),
                csv_begun(batch.content(), schema.fields@, *options, float_model(*f)),
            ),
        },
{
    match ColumnBatch::validate(schema, batch.columns()) {
        Err(e) => return Err(FormatError::Storage(e)),
        Ok(()) => {},
    }
    proof {
        checked_columns_suit(batch.parts(), schema.fields@);
    }
    write_csv_columns(output, schema, batch.columns(), batch.rows(), options, f)
}

} // verus!
