//! Schema-driven decoding of CSV.

use vstd::prelude::*;
use vstd::utf8::{decode_utf8, valid_utf8};
use crate::bytes::{bytes_are, text_bytes, text_from_utf8, utf8};
use crate::columnar::{empty_columns, push_row, row_suits, rows_of, shaped, suits, ColumnBatch, Field, Schema, StorageFault, Table};
use crate::float::{answers_floats, finite, float_model, float_parsed, is_finite, parse_float, FloatModel, FloatReply, FloatRequest};
use crate::formats::limits::{byte_at, formatted, limit_error, limits_check, next_row, over, read_byte, row_behind, texts, FormatError, FormatFault, FormatLimits, LimitKind};
use crate::formats::staging::Ingestion;
use crate::text::{byte_len, i64_value, parse_i64, same_text, utf8_len};
use crate::types::{data_of, DataType, Datum, Value};

verus! {

/// Settings for schema-driven CSV decoding.
#[derive(Debug, Clone, PartialEq, Eq)]
pub struct CsvOptions {
    pub limits: FormatLimits,
    pub delimiter: u8,
    pub has_header: bool,
    /// An exact, unquoted field matching this token is SQL `NULL`.
    pub null_token: String,
}

impl Default for CsvOptions {
    fn default() -> (options: CsvOptions)
        ensures
            options.limits == FormatLimits::standard(),
            options.delimiter == 44,
            options.has_header,
            options.null_token@ == "\\N"@,
    {
        CsvOptions {
            limits: FormatLimits::default(),
            delimiter: 44,
            has_header: true,
            null_token: "\\N".to_owned(),
        }
    }
}

/// Whether a byte cannot stand in an unquoted field.
pub open spec fn is_special(b: u8, delimiter: u8) -> bool {
    b == 34 || b == 13 || b == 10 || b == delimiter
}

/// Whether some byte cannot stand in an unquoted field.
pub open spec fn has_special(bytes: Seq<u8>, delimiter: u8) -> bool {
    exists|i: int| 0 <= i < bytes.len() && is_special(#[trigger] bytes[i], delimiter)
}

/// Decides whether some byte cannot stand in an unquoted field.
pub fn any_special(bytes: &Vec<u8>, delimiter: u8) -> (r: bool)
    ensures
        r == has_special(bytes@, delimiter),
{
    let mut i: usize = 0;
    while i < bytes.len()
        invariant
            i <= bytes.len(),
            forall|k: int| 0 <= k < i ==> !is_special(#[trigger] bytes@[k], delimiter),
        decreases bytes.len() - i,
    {
        let b = bytes[i];
        if b == 34 || b == 13 || b == 10 || b == delimiter {
            assert(is_special(bytes@[i as int], delimiter));
            return true;
        }
        i = i + 1;
    }
    false
}

/// Whether a delimiter and a token for `NULL` make up a dialect, or what is wrong with them.
pub open spec fn dialect_check(delimiter: u8, null_token: Seq<char>, max_field_bytes: usize) -> Result<
    (),
    FormatFault,
> {
    if delimiter == 34 || delimiter == 13 || delimiter == 10 {
        Err(FormatFault::InvalidOption("CSV delimiter cannot be a quote or line ending"@))
    } else if null_token.len() == 0 {
        Err(FormatFault::InvalidOption("CSV null_token cannot be empty"@))
    } else if utf8_len(null_token) > max_field_bytes {
        Err(FormatFault::InvalidOption("CSV null_token exceeds max_field_bytes"@))
    } else if has_special(utf8(null_token), delimiter) {
        Err(
            FormatFault::InvalidOption(
                "CSV null_token must be representable as one unquoted field"@,
            ),
        )
    } else {
        Ok(())
    }
}

/// Checks a delimiter and a token for `NULL`.
pub fn validate_csv_syntax_options(delimiter: u8, null_token: &str, max_field_bytes: usize) -> (r:
    Result<(), FormatError>)
    ensures
        formatted(r) == dialect_check(delimiter, null_token@, max_field_bytes),
{
    if delimiter == 34 || delimiter == 13 || delimiter == 10 {
        return Err(
            FormatError::InvalidOption("CSV delimiter cannot be a quote or line ending".to_owned()),
        );
    }
    if null_token.is_empty() {
        return Err(FormatError::InvalidOption("CSV null_token cannot be empty".to_owned()));
    }
    if byte_len(null_token) > max_field_bytes {
        return Err(FormatError::InvalidOption("CSV null_token exceeds max_field_bytes".to_owned()));
    }
    if any_special(&text_bytes(null_token), delimiter) {
        return Err(
            FormatError::InvalidOption(
                "CSV null_token must be representable as one unquoted field".to_owned(),
            ),
        );
    }
    Ok(())
}

/// Whether options can be applied to a number of columns, or what is wrong with them.
pub open spec fn options_check(options: CsvOptions, columns: nat) -> Result<(), FormatFault> {
    match limits_check(options.limits, columns) {
        Err(fault) => Err(fault),
        Ok(()) => dialect_check(
            options.delimiter,
            options.null_token@,
            options.limits.max_field_bytes,
        ),
    }
}

impl CsvOptions {
    /// Checks that the options can be applied to a schema.
    pub fn validate(&self, schema: &Schema) -> (r: Result<(), FormatError>)
        ensures
            formatted(r) == options_check(*self, schema.fields@.len()),
    {
        match self.limits.validate(schema) {
            Err(e) => Err(e),
            Ok(()) => validate_csv_syntax_options(
                self.delimiter,
                self.null_token.as_str(),
                self.limits.max_field_bytes,
            ),
        }
    }
}

/// A field of a record before it is converted.
#[derive(Debug)]
pub struct CsvField {
    pub bytes: Vec<u8>,
    pub quoted: bool,
}

/// The mathematical content of a field.
pub struct CellText {
    pub bytes: Seq<u8>,
    pub quoted: bool,
}

impl View for CsvField {
    type V = CellText;

    open spec fn view(&self) -> CellText {
        CellText { bytes: self.bytes@, quoted: self.quoted }
    }
}

/// The contents of fields.
pub open spec fn cell_texts(fields: Seq<CsvField>) -> Seq<CellText> {
    Seq::new(fields.len(), |i: int| fields[i]@)
}

/// How far a record has been read.
pub struct RecordState {
    /// The fields that are complete.
    pub fields: Seq<CellText>,
    /// The bytes of the current field.
    pub field: Seq<u8>,
    /// Whether the current field began with a quote.
    pub quoted: bool,
    /// Whether nothing of the current field was read.
    pub at_start: bool,
    /// Whether the current field is between its quotes.
    pub in_quotes: bool,
    /// Whether the quotes of the current field seem closed.
    pub closed: bool,
    /// Whether anything of the record was read.
    pub seen: bool,
    /// The number of bytes of the record, capped at the largest machine integer.
    pub size: usize,
}

/// The state in front of a record.
pub open spec fn unread() -> RecordState {
    RecordState {
        fields: Seq::empty(),
        field: Seq::empty(),
        quoted: false,
        at_start: true,
        in_quotes: false,
        closed: false,
        seen: false,
        size: 0,
    }
}

/// What a byte does to a record.
pub enum RecordStep {
    More(RecordState),
    Done { fields: Seq<CellText>, skip_lf: bool },
    Failed(FormatFault),
}

/// The fields once the current one is complete.
pub open spec fn fields_with(s: RecordState, limits: FormatLimits, row: u64) -> Result<
    Seq<CellText>,
    FormatFault,
> {
    if s.fields.len() == limits.max_fields_per_row {
        Err(over(LimitKind::FieldsPerRow, limits.max_fields_per_row, row))
    } else {
        Ok(s.fields.push(CellText { bytes: s.field, quoted: s.quoted }))
    }
}

/// The step to the next field.
pub open spec fn next_field(s: RecordState, limits: FormatLimits, row: u64) -> RecordStep {
    match fields_with(s, limits, row) {
        Err(fault) => RecordStep::Failed(fault),
        Ok(fields) => RecordStep::More(
            RecordState {
                fields,
                field: Seq::empty(),
                quoted: false,
                at_start: true,
                in_quotes: false,
                closed: false,
                ..s
            },
        ),
    }
}

/// The step to the end of the record.
pub open spec fn end_record(s: RecordState, limits: FormatLimits, row: u64, skip_lf: bool) -> RecordStep {
    match fields_with(s, limits, row) {
        Err(fault) => RecordStep::Failed(fault),
        Ok(fields) => RecordStep::Done { fields, skip_lf },
    }
}

/// The step that adds a byte to the current field.
pub open spec fn add_byte(s: RecordState, b: u8, limits: FormatLimits, row: u64) -> RecordStep {
    if s.field.len() == limits.max_field_bytes {
        RecordStep::Failed(over(LimitKind::FieldBytes, limits.max_field_bytes, row))
    } else {
        RecordStep::More(RecordState { field: s.field.push(b), ..s })
    }
}

/// A count of bytes with one more, capped at the largest machine integer.
pub open spec fn one_more(n: usize) -> usize {
    if n == usize::MAX {
        n
    } else {
        (n + 1) as usize
    }
}

/// What a byte does to a record. Line endings outside quotes do not count as bytes of the
/// record.
pub open spec fn record_step(s: RecordState, b: u8, delimiter: u8, limits: FormatLimits, row: u64) -> RecordStep {
    let ends = !s.in_quotes && (b == 13 || b == 10);
    let size = if ends { s.size } else { one_more(s.size) };
    let s = RecordState { seen: true, size, ..s };
    if !ends && size > limits.max_record_bytes {
        RecordStep::Failed(over(LimitKind::RecordBytes, limits.max_record_bytes, row))
    } else if s.in_quotes {
        if b == 34 {
            RecordStep::More(RecordState { in_quotes: false, closed: true, ..s })
        } else {
            add_byte(s, b, limits, row)
        }
    } else if s.closed && b == 34 {
        add_byte(RecordState { in_quotes: true, closed: false, ..s }, 34, limits, row)
    } else if b == delimiter {
        next_field(s, limits, row)
    } else if b == 10 {
        end_record(s, limits, row, false)
    } else if b == 13 {
        end_record(s, limits, row, true)
    } else if s.closed {
        RecordStep::Failed(
            FormatFault::CsvSyntax { row, message: "unexpected byte after closing quote"@ },
        )
    } else if b == 34 && s.at_start {
        RecordStep::More(RecordState { quoted: true, in_quotes: true, at_start: false, ..s })
    } else if b == 34 {
        RecordStep::Failed(FormatFault::CsvSyntax { row, message: "quote in an unquoted field"@ })
    } else {
        add_byte(RecordState { at_start: false, ..s }, b, limits, row)
    }
}

/// A record that was read: its fields, the position behind it, and whether a line feed there
/// belongs to its ending.
pub struct RecordRead {
    pub fields: Seq<CellText>,
    pub position: int,
    pub skip_lf: bool,
}

/// The rest of a record; `None` where there is no record.
pub open spec fn record_from(
    input: Seq<u8>,
    position: int,
    s: RecordState,
    delimiter: u8,
    limits: FormatLimits,
    row: u64,
) -> Result<Option<RecordRead>, FormatFault>
    decreases input.len() - position,
{
    match byte_at(input, position, limits.max_input_bytes) {
        Err(fault) => Err(fault),
        Ok(None) => if s.in_quotes {
            Err(FormatFault::CsvSyntax { row, message: "unterminated quoted field"@ })
        } else if !s.seen {
            Ok(None)
        } else {
            match fields_with(s, limits, row) {
                Err(fault) => Err(fault),
                Ok(fields) => Ok(Some(RecordRead { fields, position, skip_lf: false })),
            }
        },
        Ok(Some(b)) => match record_step(s, b, delimiter, limits, row) {
            RecordStep::Failed(fault) => Err(fault),
            RecordStep::Done { fields, skip_lf } => Ok(
                Some(RecordRead { fields, position: position + 1, skip_lf }),
            ),
            RecordStep::More(s) => if position < input.len() {
                record_from(input, position + 1, s, delimiter, limits, row)
            } else {
                Ok(None)
            },
        },
    }
}

/// Where a record begins: behind the line feed that belongs to the ending before it.
pub open spec fn record_start(input: Seq<u8>, position: int, skip_lf: bool) -> int {
    if skip_lf && position < input.len() && input[position] == 10 {
        position + 1
    } else {
        position
    }
}

/// The record at a position; `None` at the end of the input.
pub open spec fn record_at(
    input: Seq<u8>,
    position: int,
    skip_lf: bool,
    delimiter: u8,
    limits: FormatLimits,
    row: u64,
) -> Result<Option<RecordRead>, FormatFault> {
    match byte_at(input, position, limits.max_input_bytes) {
        Err(fault) => Err(fault),
        Ok(_) => record_from(
            input,
            record_start(input, position, skip_lf),
            unread(),
            delimiter,
            limits,
            row,
        ),
    }
}

/// A record that was read is behind the position where it began.
pub proof fn records_advance(
    input: Seq<u8>,
    position: int,
    s: RecordState,
    delimiter: u8,
    limits: FormatLimits,
    row: u64,
)
    requires
        0 <= position <= input.len(),
    ensures
        record_from(input, position, s, delimiter, limits, row) matches Ok(Some(record)) ==> position
            <= record.position <= input.len() && (!s.seen ==> position < record.position),
    decreases input.len() - position,
{
    if position < input.len() {
        if let Ok(Some(b)) = byte_at(input, position, limits.max_input_bytes) {
            if let RecordStep::More(next) = record_step(s, b, delimiter, limits, row) {
                records_advance(input, position + 1, next, delimiter, limits, row);
            }
        }
    }
}

/// The bytes that remain to be read as records.
struct CsvStream {
    input: Vec<u8>,
    position: usize,
    skip_lf: bool,
    limits: FormatLimits,
    delimiter: u8,
}

impl CsvStream {
    fn finish_field(&self, row: u64, fields: &mut Vec<CsvField>, bytes: Vec<u8>, quoted: bool) -> (r:
        Result<(), FormatError>)
        ensures
            if old(fields)@.len() == self.limits.max_fields_per_row {
                &&& formatted(r) == Err::<(), FormatFault>(
                    over(LimitKind::FieldsPerRow, self.limits.max_fields_per_row, row),
                )
                &&& final(fields)@ == old(fields)@
            } else {
                &&& r is Ok
                &&& cell_texts(final(fields)@) == cell_texts(old(fields)@).push(
                    CellText { bytes: bytes@, quoted },
                )
            },
    {
        if fields.len() == self.limits.max_fields_per_row {
            return Err(limit_error(LimitKind::FieldsPerRow, self.limits.max_fields_per_row, row));
        }
        let ghost before = cell_texts(fields@);
        fields.push(CsvField { bytes, quoted });
        assert(cell_texts(fields@) =~= before.push(CellText { bytes: bytes@, quoted }));
        Ok(())
    }

    fn push_field_byte(&self, row: u64, field: &mut Vec<u8>, byte: u8) -> (r: Result<(), FormatError>)
        ensures
            if old(field)@.len() == self.limits.max_field_bytes {
                &&& formatted(r) == Err::<(), FormatFault>(
                    over(LimitKind::FieldBytes, self.limits.max_field_bytes, row),
                )
                &&& final(field)@ == old(field)@
            } else {
                &&& r is Ok
                &&& final(field)@ == old(field)@.push(byte)
            },
    {
        if field.len() == self.limits.max_field_bytes {
            return Err(limit_error(LimitKind::FieldBytes, self.limits.max_field_bytes, row));
        }
        field.push(byte);
        Ok(())
    }

    #[verifier::loop_isolation(false)]
    #[verifier::rlimit(60)]
    fn read_record(&mut self, row: u64) -> (r: Result<Option<Vec<CsvField>>, FormatError>)
        requires
            old(self).position <= old(self).input@.len(),
        ensures
            final(self).input == old(self).input,
            final(self).limits == old(self).limits,
            final(self).delimiter == old(self).delimiter,
            final(self).position <= final(self).input@.len(),
            match record_at(
                old(self).input@,
                old(self).position as int,
                old(self).skip_lf,
                old(self).delimiter,
                old(self).limits,
                row,
            ) {
                Err(fault) => r matches Err(e) && e@ == fault,
                Ok(None) => r matches Ok(None),
                Ok(Some(record)) => {
                    &&& r matches Ok(Some(fields)) && cell_texts(fields@) == record.fields
                    &&& final(self).position == record.position
                    &&& final(self).skip_lf == record.skip_lf
                },
            },
    {
        let ghost input = self.input@;
        let ghost limits = self.limits;
        let ghost delimiter = self.delimiter;
        match read_byte(&self.input, self.position, self.limits.max_input_bytes) {
            Err(e) => return Err(e),
            Ok(Some(10)) => {
                if self.skip_lf {
                    assert(self.position < self.input.len());
                    self.position = self.position + 1;
                }
            },
            Ok(_) => {},
        }
        self.skip_lf = false;
        let mut fields: Vec<CsvField> = Vec::new();
        let mut field: Vec<u8> = Vec::new();
        let mut quoted = false;
        let mut at_start = true;
        let mut in_quotes = false;
        let mut closed = false;
        let mut seen = false;
        let mut size: usize = 0;
        let ghost start = self.position as int;
        assert(cell_texts(fields@) =~= Seq::<CellText>::empty());
        assert(field@ =~= Seq::<u8>::empty());
        loop
            invariant
                self.input@ == input,
                self.input == old(self).input,
                self.limits == limits,
                self.delimiter == delimiter,
                !self.skip_lf,
                self.position <= input.len(),
                record_from(input, start, unread(), delimiter, limits, row) == record_from(
                    input,
                    self.position as int,
                    RecordState {
                        fields: cell_texts(fields@),
                        field: field@,
                        quoted,
                        at_start,
                        in_quotes,
                        closed,
                        seen,
                        size,
                    },
                    delimiter,
                    limits,
                    row,
                ),
            decreases self.input@.len() - self.position,
        {
            let byte = match read_byte(&self.input, self.position, self.limits.max_input_bytes) {
                Err(e) => return Err(e),
                Ok(None) => {
                    if in_quotes {
                        return Err(
                            FormatError::CsvSyntax {
                                row,
                                message: "unterminated quoted field".to_owned(),
                            },
                        );
                    }
                    if !seen {
                        return Ok(None);
                    }
                    match self.finish_field(row, &mut fields, field, quoted) {
                        Err(e) => return Err(e),
                        Ok(()) => return Ok(Some(fields)),
                    }
                },
                Ok(Some(byte)) => byte,
            };
            assert(self.position < self.input.len());
            self.position = self.position + 1;
            seen = true;
            if in_quotes || (byte != 13 && byte != 10) {
                size = if size == usize::MAX {
                    size
                } else {
                    size + 1
                };
                if size > self.limits.max_record_bytes {
                    return Err(
                        limit_error(LimitKind::RecordBytes, self.limits.max_record_bytes, row),
                    );
                }
            }
            if in_quotes {
                if byte == 34 {
                    in_quotes = false;
                    closed = true;
                } else {
                    match self.push_field_byte(row, &mut field, byte) {
                        Err(e) => return Err(e),
                        Ok(()) => {},
                    }
                }
            } else if closed && byte == 34 {
                match self.push_field_byte(row, &mut field, 34) {
                    Err(e) => return Err(e),
                    Ok(()) => {},
                }
                in_quotes = true;
                closed = false;
            } else if byte == self.delimiter {
                match self.finish_field(row, &mut fields, field, quoted) {
                    Err(e) => return Err(e),
                    Ok(()) => {},
                }
                field = Vec::new();
                assert(field@ =~= Seq::<u8>::empty());
                quoted = false;
                at_start = true;
                closed = false;
            } else if byte == 10 || byte == 13 {
                match self.finish_field(row, &mut fields, field, quoted) {
                    Err(e) => return Err(e),
                    Ok(()) => {},
                }
                self.skip_lf = byte == 13;
                return Ok(Some(fields));
            } else if closed {
                return Err(
                    FormatError::CsvSyntax {
                        row,
                        message: "unexpected byte after closing quote".to_owned(),
                    },
                );
            } else if byte == 34 {
                if !at_start {
                    return Err(
                        FormatError::CsvSyntax {
                            row,
                            message: "quote in an unquoted field".to_owned(),
                        },
                    );
                }
                quoted = true;
                in_quotes = true;
                at_start = false;
            } else {
                match self.push_field_byte(row, &mut field, byte) {
                    Err(e) => return Err(e),
                    Ok(()) => {},
                }
                at_start = false;
            }
        }
    }
}

/// The failure of a text that is no value of a column's type.
pub open spec fn unconverted(row: u64, field: Field, value: Seq<char>) -> FormatFault {
    FormatFault::Conversion { row, column: field.name@, data_type: field.data_type, value }
}

/// The value that a text stands for in a column.
pub open spec fn text_cell(
    text: Seq<char>,
    field: Field,
    limits: FormatLimits,
    row: u64,
    m: FloatModel,
) -> Result<Datum, FormatFault> {
    match field.data_type {
        DataType::Int64 => match i64_value(text) {
            Some(n) => Ok(Datum::Int64(n)),
            None => Err(unconverted(row, field, text)),
        },
        DataType::Float64 => match float_parsed(m, text) {
            Some(bits) if is_finite(bits) => Ok(Datum::Float64(bits)),
            _ => Err(unconverted(row, field, text)),
        },
        DataType::Bool => if text == "true"@ {
            Ok(Datum::Bool(true))
        } else if text == "false"@ {
            Ok(Datum::Bool(false))
        } else {
            Err(unconverted(row, field, text))
        },
        DataType::String => if utf8_len(text) > limits.max_string_bytes {
            Err(over(LimitKind::StringBytes, limits.max_string_bytes, row))
        } else {
            Ok(Datum::Text(text))
        },
    }
}

/// The value that a field stands for in a column.
pub open spec fn field_cell(
    cell: CellText,
    field: Field,
    options: CsvOptions,
    row: u64,
    m: FloatModel,
) -> Result<Datum, FormatFault> {
    if !cell.quoted && cell.bytes == utf8(options.null_token@) {
        if field.nullable {
            Ok(Datum::Null)
        } else {
            Err(FormatFault::NullNotAllowed { row, column: field.name@ })
        }
    } else if !valid_utf8(cell.bytes) {
        Err(FormatFault::InvalidUtf8 { row, column: field.name@ })
    } else {
        text_cell(decode_utf8(cell.bytes), field, options.limits, row, m)
    }
}

/// The values of fields from position `i` on, behind `data`.
pub open spec fn cells_from(
    cells: Seq<CellText>,
    fields: Seq<Field>,
    options: CsvOptions,
    row: u64,
    m: FloatModel,
    i: int,
    data: Seq<Datum>,
) -> Result<Seq<Datum>, FormatFault>
    decreases cells.len() - i,
{
    if !(0 <= i < cells.len()) {
        Ok(data)
    } else {
        match field_cell(cells[i], fields[i], options, row, m) {
            Err(fault) => Err(fault),
            Ok(cell) => cells_from(cells, fields, options, row, m, i + 1, data.push(cell)),
        }
    }
}

/// The row that a record stands for.
pub open spec fn record_row(
    cells: Seq<CellText>,
    fields: Seq<Field>,
    options: CsvOptions,
    row: u64,
    m: FloatModel,
) -> Result<Seq<Datum>, FormatFault> {
    if cells.len() != fields.len() {
        Err(FormatFault::FieldCount { row, expected: fields.len(), actual: cells.len() })
    } else {
        cells_from(cells, fields, options, row, m, 0, Seq::empty())
    }
}

proof fn converted_cells_suit(
    cells: Seq<CellText>,
    fields: Seq<Field>,
    options: CsvOptions,
    row: u64,
    m: FloatModel,
    i: int,
    data: Seq<Datum>,
)
    requires
        cells.len() == fields.len(),
        0 <= i <= cells.len(),
        data.len() == i,
        row_suits(data, fields.take(i)),
    ensures
        cells_from(cells, fields, options, row, m, i, data) matches Ok(done) ==> row_suits(
            done,
            fields,
        ),
    decreases cells.len() - i,
{
    if i < cells.len() {
        if let Ok(cell) = field_cell(cells[i], fields[i], options, row, m) {
            assert(row_suits(data.push(cell), fields.take(i + 1))) by {
                assert forall|c: int| 0 <= c < i + 1 implies suits(
                    #[trigger] data.push(cell)[c],
                    fields.take(i + 1)[c].data_type,
                ) && (data.push(cell)[c] is Null ==> fields.take(i + 1)[c].nullable) by {
                    if c < i {
                        assert(data[c] == data.push(cell)[c]);
                        assert(fields.take(i)[c] == fields[c]);
                    }
                }
            }
            converted_cells_suit(cells, fields, options, row, m, i + 1, data.push(cell));
        }
    } else {
        assert(fields.take(i) =~= fields);
    }
}

/// A converted record suits the schema.
pub proof fn converted_rows_suit(
    cells: Seq<CellText>,
    fields: Seq<Field>,
    options: CsvOptions,
    row: u64,
    m: FloatModel,
)
    ensures
        record_row(cells, fields, options, row, m) matches Ok(data) ==> row_suits(data, fields),
{
    if cells.len() == fields.len() {
        assert(row_suits(Seq::<Datum>::empty(), fields.take(0)));
        converted_cells_suit(cells, fields, options, row, m, 0, Seq::empty());
    }
}

fn conversion_error(row: u64, field: &Field, value: String) -> (e: FormatError)
    ensures
        e@ == unconverted(row, *field, value@),
{
    FormatError::Conversion {
        row,
        column: field.name.clone(),
        data_type: field.data_type,
        value,
    }
}

/// The content of a converted cell.
pub open spec fn cell_formatted(r: Result<Value, FormatError>) -> Result<Datum, FormatFault> {
    match r {
        Ok(v) => Ok(v@),
        Err(e) => Err(e@),
    }
}

fn convert_text<F: Fn(FloatRequest) -> FloatReply>(
    text: String,
    field: &Field,
    limits: &FormatLimits,
    row: u64,
    f: &F,
) -> (r: Result<Value, FormatError>)
    requires
        answers_floats(*f),
    ensures
        cell_formatted(r) == text_cell(text@, *field, *limits, row, float_model(*f)),
{
    match field.data_type {
        DataType::Int64 => match parse_i64(text.as_str()) {
            Some(n) => Ok(Value::Int64(n)),
            None => Err(conversion_error(row, field, text)),
        },
        DataType::Float64 => match parse_float(f, text.as_str()) {
            Some(bits) => if finite(bits) {
                Ok(Value::Float64(bits))
            } else {
                Err(conversion_error(row, field, text))
            },
            None => Err(conversion_error(row, field, text)),
        },
        DataType::Bool => if same_text(text.as_str(), "true") {
            Ok(Value::Bool(true))
        } else if same_text(text.as_str(), "false") {
            Ok(Value::Bool(false))
        } else {
            Err(conversion_error(row, field, text))
        },
        DataType::String => if byte_len(text.as_str()) > limits.max_string_bytes {
            Err(limit_error(LimitKind::StringBytes, limits.max_string_bytes, row))
        } else {
            Ok(Value::String(text))
        },
    }
}

fn convert_field<F: Fn(FloatRequest) -> FloatReply>(
    cell: CsvField,
    field: &Field,
    options: &CsvOptions,
    row: u64,
    f: &F,
) -> (r: Result<Value, FormatError>)
    requires
        answers_floats(*f),
    ensures
        cell_formatted(r) == field_cell(cell@, *field, *options, row, float_model(*f)),
{
    if !cell.quoted && bytes_are(&cell.bytes, options.null_token.as_str()) {
        if field.nullable {
            return Ok(Value::Null);
        }
        return Err(FormatError::NullNotAllowed { row, column: field.name.clone() });
    }
    match text_from_utf8(cell.bytes) {
        None => Err(FormatError::InvalidUtf8 { row, column: field.name.clone() }),
        Some(text) => convert_text(text, field, &options.limits, row, f),
    }
}

/// The content of a converted row.
pub open spec fn row_formatted(r: Result<Vec<Value>, FormatError>) -> Result<Seq<Datum>, FormatFault> {
    match r {
        Ok(v) => Ok(data_of(v@)),
        Err(e) => Err(e@),
    }
}

#[verifier::loop_isolation(false)]
fn convert_record<F: Fn(FloatRequest) -> FloatReply>(
    cells: Vec<CsvField>,
    schema: &Schema,
    options: &CsvOptions,
    row: u64,
    f: &F,
) -> (r: Result<Vec<Value>, FormatError>)
    requires
        answers_floats(*f),
    ensures
        row_formatted(r) == record_row(
            cell_texts(cells@),
            schema.fields@,
            *options,
            row,
            float_model(*f),
        ),
{
    if cells.len() != schema.len() {
        return Err(
            FormatError::FieldCount { row, expected: schema.len(), actual: cells.len() },
        );
    }
    let ghost all = cells@;
    let ghost content = cell_texts(cells@);
    let mut data: Vec<Value> = Vec::new();
    let mut i: usize = 0;
    let width = cells.len();
    assert(data_of(data@) =~= Seq::<Datum>::empty());
    for cell in it: cells
        invariant
            it.seq() == all,
            i == it.index(),
            content == cell_texts(all),
            content.len() == width == schema.fields@.len(),
            cells_from(content, schema.fields@, *options, row, float_model(*f), 0, Seq::empty())
                == cells_from(
                content,
                schema.fields@,
                *options,
                row,
                float_model(*f),
                i as int,
                data_of(data@),
            ),
    {
        assert(cell@ == content[i as int]);
        match convert_field(cell, &schema.fields[i], options, row, f) {
            Err(e) => return Err(e),
            Ok(value) => {
                let ghost before = data_of(data@);
                data.push(value);
                assert(data_of(data@) =~= before.push(value@));
            },
        }
        i = i + 1;
    }
    Ok(data)
}

/// The texts of header fields from position `i` on, behind `done`.
pub open spec fn header_from(
    cells: Seq<CellText>,
    limits: FormatLimits,
    i: int,
    done: Seq<Seq<char>>,
) -> Result<Seq<Seq<char>>, FormatFault>
    decreases cells.len() - i,
{
    if !(0 <= i < cells.len()) {
        Ok(done)
    } else if !valid_utf8(cells[i].bytes) {
        Err(FormatFault::InvalidUtf8 { row: 1, column: "CSV header"@ })
    } else if utf8_len(decode_utf8(cells[i].bytes)) > limits.max_string_bytes {
        Err(over(LimitKind::StringBytes, limits.max_string_bytes, 1))
    } else {
        header_from(cells, limits, i + 1, done.push(decode_utf8(cells[i].bytes)))
    }
}

/// The names of fields.
pub open spec fn field_names(fields: Seq<Field>) -> Seq<Seq<char>> {
    Seq::new(fields.len(), |i: int| fields[i].name@)
}

/// Where reading of rows stands.
#[verifier::ext_equal]
pub struct RowCursor {
    pub position: int,
    pub skip_lf: bool,
    pub rows_read: u64,
}

/// Where rows begin: behind the header, if there is one, which must hold the names of the
/// schema.
pub open spec fn rows_start(input: Seq<u8>, fields: Seq<Field>, options: CsvOptions) -> Result<
    RowCursor,
    FormatFault,
> {
    if !options.has_header {
        Ok(RowCursor { position: 0, skip_lf: false, rows_read: 0 })
    } else {
        match record_at(input, 0, false, options.delimiter, options.limits, 1) {
            Err(fault) => Err(fault),
            Ok(None) => Err(
                FormatFault::HeaderMismatch {
                    expected: field_names(fields),
                    actual: Seq::empty(),
                },
            ),
            Ok(Some(record)) => match header_from(record.fields, options.limits, 0, Seq::empty()) {
                Err(fault) => Err(fault),
                Ok(actual) => if actual != field_names(fields) {
                    Err(FormatFault::HeaderMismatch { expected: field_names(fields), actual })
                } else {
                    Ok(
                        RowCursor {
                            position: record.position,
                            skip_lf: record.skip_lf,
                            rows_read: 0,
                        },
                    )
                },
            },
        }
    }
}

/// The next row; `None` at the end of the input.
pub open spec fn row_next(
    input: Seq<u8>,
    fields: Seq<Field>,
    options: CsvOptions,
    m: FloatModel,
    c: RowCursor,
) -> Result<Option<(Seq<Datum>, RowCursor)>, FormatFault> {
    let row = row_behind(c.rows_read);
    match record_at(input, c.position, c.skip_lf, options.delimiter, options.limits, row) {
        Err(fault) => Err(fault),
        Ok(None) => Ok(None),
        Ok(Some(record)) => if c.rows_read == options.limits.max_rows {
            Err(
                FormatFault::LimitExceeded {
                    kind: LimitKind::Rows,
                    limit: options.limits.max_rows,
                    row: Some(row),
                },
            )
        } else {
            match record_row(record.fields, fields, options, row, m) {
                Err(fault) => Err(fault),
                Ok(data) => Ok(
                    Some(
                        (
                            data,
                            RowCursor {
                                position: record.position,
                                skip_lf: record.skip_lf,
                                rows_read: row,
                            },
                        ),
                    ),
                ),
            }
        },
    }
}

/// All rows from a cursor on, behind `rows`.
pub open spec fn rows_from(
    input: Seq<u8>,
    fields: Seq<Field>,
    options: CsvOptions,
    m: FloatModel,
    c: RowCursor,
    rows: Seq<Seq<Datum>>,
) -> Result<Seq<Seq<Datum>>, FormatFault>
    decreases input.len() - c.position,
{
    match row_next(input, fields, options, m, c) {
        Err(fault) => Err(fault),
        Ok(None) => Ok(rows),
        Ok(Some((data, next))) => if c.position < next.position <= input.len() {
            rows_from(input, fields, options, m, next, rows.push(data))
        } else {
            Ok(rows)
        },
    }
}

/// The rows that an input holds, or the first failure.
pub open spec fn csv_rows(input: Seq<u8>, fields: Seq<Field>, options: CsvOptions, m: FloatModel) -> Result<
    Seq<Seq<Datum>>,
    FormatFault,
> {
    match rows_start(input, fields, options) {
        Err(fault) => Err(fault),
        Ok(c) => rows_from(input, fields, options, m, c, Seq::empty()),
    }
}

/// The next rows up to the size of a batch, behind `rows`, and where reading goes on; without
/// a cursor nothing is left to read.
pub open spec fn batch_from(
    input: Seq<u8>,
    fields: Seq<Field>,
    options: CsvOptions,
    m: FloatModel,
    c: RowCursor,
    rows: Seq<Seq<Datum>>,
) -> (Result<Seq<Seq<Datum>>, FormatFault>, Option<RowCursor>)
    decreases input.len() - c.position,
{
    if rows.len() >= options.limits.batch_rows {
        (Ok(rows), Some(c))
    } else {
        match row_next(input, fields, options, m, c) {
            Err(fault) => (Err(fault), None),
            Ok(None) => (Ok(rows), None),
            Ok(Some((data, next))) => if c.position < next.position <= input.len() {
                batch_from(input, fields, options, m, next, rows.push(data))
            } else {
                (Ok(rows), None)
            },
        }
    }
}

/// A row that was read is behind the position where it began.
pub proof fn rows_advance(
    input: Seq<u8>,
    fields: Seq<Field>,
    options: CsvOptions,
    m: FloatModel,
    c: RowCursor,
)
    requires
        0 <= c.position <= input.len(),
    ensures
        row_next(input, fields, options, m, c) matches Ok(Some((data, next))) ==> c.position
            < next.position <= input.len() && row_suits(data, fields),
{
    let row = row_behind(c.rows_read);
    let start = record_start(input, c.position, c.skip_lf);
    records_advance(input, start, unread(), options.delimiter, options.limits, row);
    if let Ok(Some(record)) = record_at(
        input,
        c.position,
        c.skip_lf,
        options.delimiter,
        options.limits,
        row,
    ) {
        converted_rows_suit(record.fields, fields, options, row, m);
    }
}

/// Batches make up the rows: what follows a batch continues it.
pub proof fn batches_make_the_rows(
    input: Seq<u8>,
    fields: Seq<Field>,
    options: CsvOptions,
    m: FloatModel,
    c: RowCursor,
    rows: Seq<Seq<Datum>>,
    before: Seq<Seq<Datum>>,
)
    requires
        0 <= c.position <= input.len(),
    ensures
        rows_from(input, fields, options, m, c, before + rows) == match batch_from(
            input,
            fields,
            options,
            m,
            c,
            rows,
        ) {
            (Err(fault), _) => Err(fault),
            (Ok(batch), None) => Ok(before + batch),
            (Ok(batch), Some(next)) => rows_from(input, fields, options, m, next, before + batch),
        },
        batch_from(input, fields, options, m, c, rows) matches (Ok(batch), next) ==> {
            &&& batch.len() - rows.len() <= input.len() - c.position
            &&& (next matches Some(next) ==> c.position <= next.position <= input.len()
                && batch.len() - rows.len() <= next.position - c.position)
        },
    decreases input.len() - c.position,
{
    if rows.len() < options.limits.batch_rows {
        rows_advance(input, fields, options, m, c);
        if let Ok(Some((data, next))) = row_next(input, fields, options, m, c) {
            assert((before + rows).push(data) =~= before + rows.push(data));
            batches_make_the_rows(input, fields, options, m, next, rows.push(data), before);
        }
    }
}

/// How far a reader has come.
pub enum Progress {
    Fresh,
    At(RowCursor),
    Finished,
}

/// What the reader does next from a cursor.
pub open spec fn turn_at(
    input: Seq<u8>,
    fields: Seq<Field>,
    options: CsvOptions,
    m: FloatModel,
    c: RowCursor,
) -> (Option<Result<Seq<Seq<Datum>>, FormatFault>>, Progress) {
    match batch_from(input, fields, options, m, c, Seq::empty()) {
        (Err(fault), _) => (Some(Err(fault)), Progress::Finished),
        (Ok(rows), next) => (
            if rows.len() == 0 {
                None
            } else {
                Some(Ok(rows))
            },
            match next {
                Some(next) => Progress::At(next),
                None => Progress::Finished,
            },
        ),
    }
}

/// What the reader does next: a batch of rows, a failure that ends it, or nothing at the end.
pub open spec fn reader_turn(
    input: Seq<u8>,
    fields: Seq<Field>,
    options: CsvOptions,
    m: FloatModel,
    progress: Progress,
) -> (Option<Result<Seq<Seq<Datum>>, FormatFault>>, Progress) {
    match progress {
        Progress::Finished => (None, Progress::Finished),
        Progress::Fresh => match rows_start(input, fields, options) {
            Err(fault) => (Some(Err(fault)), Progress::Finished),
            Ok(c) => turn_at(input, fields, options, m, c),
        },
        Progress::At(c) => turn_at(input, fields, options, m, c),
    }
}

/// The content of what a reader hands out.
pub open spec fn batch_formatted(r: Option<Result<ColumnBatch, FormatError>>) -> Option<
    Result<Seq<Seq<Datum>>, FormatFault>,
> {
    match r {
        None => None,
        Some(Ok(batch)) => Some(Ok(batch.content())),
        Some(Err(e)) => Some(Err(e@)),
    }
}

/// Whether a batch that a reader hands out suits the schema.
pub open spec fn batch_suits(r: Option<Result<ColumnBatch, FormatError>>, fields: Seq<Field>) -> bool {
    r matches Some(Ok(batch)) ==> batch.wf() && shaped(batch.parts(), fields, batch.height())
}

/// Reads typed batches of rows from CSV.
pub struct CsvBatchReader {
    stream: CsvStream,
    schema: Schema,
    options: CsvOptions,
    header_read: bool,
    rows_read: u64,
    finished: bool,
}

impl CsvBatchReader {
    /// The bytes that are read.
    pub closed spec fn input(&self) -> Seq<u8> {
        self.stream.input@
    }

    /// The definitions of the columns.
    pub closed spec fn fields(&self) -> Seq<Field> {
        self.schema.fields@
    }

    /// The options.
    pub closed spec fn settings(&self) -> CsvOptions {
        self.options
    }

    /// How far the reader has come.
    pub closed spec fn progress(&self) -> Progress {
        if self.finished {
            Progress::Finished
        } else if !self.header_read {
            Progress::Fresh
        } else {
            Progress::At(self.cursor())
        }
    }

    closed spec fn cursor(&self) -> RowCursor {
        RowCursor {
            position: self.stream.position as int,
            skip_lf: self.stream.skip_lf,
            rows_read: self.rows_read,
        }
    }

    /// Whether the reader is consistent.
    pub closed spec fn wf(&self) -> bool {
        &&& self.stream.position <= self.stream.input@.len()
        &&& self.stream.limits == self.options.limits
        &&& self.stream.delimiter == self.options.delimiter
        &&& options_check(self.options, self.schema.fields@.len()) is Ok
        &&& !self.header_read ==> self.stream.position == 0 && !self.stream.skip_lf
            && self.rows_read == 0
    }

    /// Makes a reader of bytes with a schema.
    pub fn new(input: Vec<u8>, schema: &Schema, options: CsvOptions) -> (r: Result<
        CsvBatchReader,
        FormatError,
    >)
        ensures
            match r {
                Ok(reader) => {
                    &&& options_check(options, schema.fields@.len()) is Ok
                    &&& reader.wf()
                    &&& reader.input() == input@
                    &&& reader.fields() == schema.fields@
                    &&& reader.settings() == options
                    &&& reader.progress() == Progress::Fresh
                },
                Err(e) => options_check(options, schema.fields@.len()) == Err::<(), FormatFault>(e@),
            },
    {
        match options.validate(schema) {
            Err(e) => return Err(e),
            Ok(()) => {},
        }
        let stream = CsvStream {
            input,
            position: 0,
            skip_lf: false,
            limits: options.limits,
            delimiter: options.delimiter,
        };
        Ok(
            CsvBatchReader {
                stream,
                schema: schema.clone(),
                options,
                header_read: false,
                rows_read: 0,
                finished: false,
            },
        )
    }

    /// The schema of the batches.
    pub fn schema(&self) -> (schema: &Schema)
        ensures
            schema.fields@ == self.fields(),
    {
        &self.schema
    }

    #[verifier::loop_isolation(false)]
    fn read_header(&mut self) -> (r: Result<(), FormatError>)
        requires
            old(self).wf(),
            old(self).progress() == Progress::Fresh,
        ensures
            final(self).wf(),
            final(self).header_read,
            final(self).finished == old(self).finished,
            final(self).input() == old(self).input(),
            final(self).fields() == old(self).fields(),
            final(self).settings() == old(self).settings(),
            match rows_start(old(self).input(), old(self).fields(), old(self).settings()) {
                Err(fault) => r matches Err(e) && e@ == fault,
                Ok(c) => r is Ok && final(self).cursor() == c,
            },
    {
        self.header_read = true;
        if !self.options.has_header {
            return Ok(());
        }
        let expected = self.schema.names();
        assert(texts(expected@) =~= field_names(self.schema.fields@));
        let cells = match self.stream.read_record(1) {
            Err(e) => return Err(e),
            Ok(None) => {
                let actual: Vec<String> = Vec::new();
                assert(texts(actual@) =~= Seq::<Seq<char>>::empty());
                return Err(FormatError::HeaderMismatch { expected, actual });
            },
            Ok(Some(cells)) => cells,
        };
        let ghost all = cells@;
        let ghost content = cell_texts(cells@);
        let mut actual: Vec<String> = Vec::new();
        let max_string_bytes = self.options.limits.max_string_bytes;
        let ghost limits = self.options.limits;
        let ghost mut i: int = 0;
        assert(texts(actual@) =~= Seq::<Seq<char>>::empty());
        for cell in it: cells
            invariant
                it.seq() == all,
                i == it.index(),
                content == cell_texts(all),
                header_from(content, limits, 0, Seq::empty()) == header_from(
                    content,
                    limits,
                    i,
                    texts(actual@),
                ),
        {
            assert(cell@ == content[i]);
            match text_from_utf8(cell.bytes) {
                None => return Err(
                    FormatError::InvalidUtf8 { row: 1, column: "CSV header".to_owned() },
                ),
                Some(text) => {
                    if byte_len(text.as_str()) > max_string_bytes {
                        return Err(limit_error(LimitKind::StringBytes, max_string_bytes, 1));
                    }
                    let ghost before = texts(actual@);
                    actual.push(text);
                    assert(texts(actual@) =~= before.push(text@));
                },
            }
            proof {
                i = i + 1;
            }
        }
        if !same_texts(&actual, &expected) {
            return Err(FormatError::HeaderMismatch { expected, actual });
        }
        Ok(())
    }

    /// Reads the next batch; nothing is left behind a failure or the end of the input.
    #[verifier::loop_isolation(false)]
    pub fn next<F: Fn(FloatRequest) -> FloatReply>(&mut self, f: &F) -> (r: Option<
        Result<ColumnBatch, FormatError>,
    >)
        requires
            old(self).wf(),
            answers_floats(*f),
        ensures
            final(self).wf(),
            final(self).input() == old(self).input(),
            final(self).fields() == old(self).fields(),
            final(self).settings() == old(self).settings(),
            (batch_formatted(r), final(self).progress()) == reader_turn(
                old(self).input(),
                old(self).fields(),
                old(self).settings(),
                float_model(*f),
                old(self).progress(),
            ),
            batch_suits(r, old(self).fields()),
    {
        if self.finished {
            return None;
        }
        if !self.header_read {
            match self.read_header() {
                Err(e) => {
                    self.finished = true;
                    return Some(Err(e));
                },
                Ok(()) => {},
            }
        }
        let ghost input = self.input();
        let ghost fields = self.fields();
        let ghost options = self.options;
        let ghost m = float_model(*f);
        let ghost first = self.cursor();
        let ghost mut rows: Seq<Seq<Datum>> = Seq::empty();
        let mut columns = empty_columns(&self.schema);
        let mut batch_rows: usize = 0;
        assert(rows_of(columns@, 0) =~= rows);
        while batch_rows < self.options.limits.batch_rows
            invariant
                self.wf(),
                self.header_read,
                !self.finished,
                self.input() == input,
                self.fields() == fields,
                self.options == options,
                shaped(columns@, fields, batch_rows as nat),
                rows_of(columns@, batch_rows as nat) == rows,
                batch_rows <= options.limits.batch_rows,
                batch_from(input, fields, options, m, first, Seq::empty()) == batch_from(
                    input,
                    fields,
                    options,
                    m,
                    self.cursor(),
                    rows,
                ),
            decreases self.options.limits.batch_rows - batch_rows,
        {
            proof {
                rows_advance(input, fields, options, m, self.cursor());
            }
            let row = next_row(self.rows_read);
            let cells = match self.stream.read_record(row) {
                Err(e) => {
                    self.finished = true;
                    return Some(Err(e));
                },
                Ok(None) => {
                    self.finished = true;
                    if batch_rows == 0 {
                        return None;
                    }
                    let batch = ColumnBatch::of(columns, batch_rows);
                    assert(batch.content() == rows);
                    return Some(Ok(batch));
                },
                Ok(Some(cells)) => cells,
            };
            if self.rows_read == self.options.limits.max_rows {
                self.finished = true;
                return Some(
                    Err(
                        FormatError::LimitExceeded {
                            kind: LimitKind::Rows,
                            limit: self.options.limits.max_rows,
                            row: Some(row),
                        },
                    ),
                );
            }
            match convert_record(cells, &self.schema, &self.options, row, f) {
                Err(e) => {
                    self.finished = true;
                    return Some(Err(e));
                },
                Ok(data) => {
                    push_row(&mut columns, data, Ghost(fields), Ghost(batch_rows as nat));
                    proof {
                        rows = rows.push(data_of(data@));
                    }
                },
            }
            self.rows_read = row;
            batch_rows = batch_rows + 1;
        }
        let batch = ColumnBatch::of(columns, batch_rows);
        assert(batch.content() == rows);
        Some(Ok(batch))
    }
}

/// Decides whether two lists hold the same texts.
fn same_texts(a: &Vec<String>, b: &Vec<String>) -> (same: bool)
    ensures
        same == (texts(a@) == texts(b@)),
{
    if a.len() != b.len() {
        assert(texts(a@).len() != texts(b@).len());
        return false;
    }
    let mut i: usize = 0;
    while i < a.len()
        invariant
            i <= a.len() == b.len(),
            forall|k: int| 0 <= k < i ==> (#[trigger] a@[k])@ == b@[k]@,
        decreases a.len() - i,
    {
        if !same_text(a[i].as_str(), b[i].as_str()) {
            assert(texts(a@)[i as int] != texts(b@)[i as int]);
            return false;
        }
        i = i + 1;
    }
    assert(texts(a@) =~= texts(b@));
    true
}

/// The rows that an ingestion reads, or why it fails.
pub open spec fn csv_ingested(input: Seq<u8>, fields: Seq<Field>, options: CsvOptions, m: FloatModel) -> Result<
    Seq<Seq<Datum>>,
    FormatFault,
> {
    match options_check(options, fields.len()) {
        Err(fault) => Err(fault),
        Ok(()) => csv_rows(input, fields, options, m),
    }
}

/// Whether rows that were read so far and those still to come make up all rows.
spec fn on_track(
    reader: CsvBatchReader,
    m: FloatModel,
    rows: Seq<Seq<Datum>>,
) -> bool {
    let all = csv_rows(reader.input(), reader.fields(), reader.settings(), m);
    match reader.progress() {
        Progress::Fresh => rows.len() == 0,
        Progress::At(c) => {
            &&& 0 <= c.position <= reader.input().len()
            &&& rows.len() <= c.position
            &&& all == rows_from(reader.input(), reader.fields(), reader.settings(), m, c, rows)
        },
        Progress::Finished => all == Ok::<Seq<Seq<Datum>>, FormatFault>(rows) && rows.len()
            <= reader.input().len(),
    }
}

spec fn work_left(reader: CsvBatchReader) -> nat {
    match reader.progress() {
        Progress::Fresh => reader.input().len() + 2,
        Progress::At(c) => (reader.input().len() + 1 - c.position) as nat,
        Progress::Finished => 0,
    }
}

proof fn turns_stay_on_track(
    input: Seq<u8>,
    fields: Seq<Field>,
    options: CsvOptions,
    m: FloatModel,
    c: RowCursor,
    rows: Seq<Seq<Datum>>,
)
    requires
        0 <= c.position <= input.len(),
        rows.len() <= c.position,
        options.limits.batch_rows > 0,
    ensures
        match turn_at(input, fields, options, m, c) {
            (None, p) => rows_from(input, fields, options, m, c, rows) == Ok::<
                Seq<Seq<Datum>>,
                FormatFault,
            >(rows) && p is Finished,
            (Some(Err(fault)), p) => rows_from(input, fields, options, m, c, rows) == Err::<
                Seq<Seq<Datum>>,
                FormatFault,
            >(fault) && p is Finished,
            (Some(Ok(batch)), Progress::Finished) => rows_from(input, fields, options, m, c, rows)
                == Ok::<Seq<Seq<Datum>>, FormatFault>(rows + batch) && (rows + batch).len()
                <= input.len(),
            (Some(Ok(batch)), Progress::At(next)) => {
                &&& rows_from(input, fields, options, m, c, rows) == rows_from(
                    input,
                    fields,
                    options,
                    m,
                    next,
                    rows + batch,
                )
                &&& c.position < next.position <= input.len()
                &&& (rows + batch).len() <= next.position
            },
            _ => false,
        },
{
    batches_make_the_rows(input, fields, options, m, c, Seq::empty(), rows);
    assert(rows + Seq::<Seq<Datum>>::empty() =~= rows);
    full_batches_are_not_empty(input, fields, options, m, c, Seq::empty());
}

proof fn full_batches_are_not_empty(
    input: Seq<u8>,
    fields: Seq<Field>,
    options: CsvOptions,
    m: FloatModel,
    c: RowCursor,
    rows: Seq<Seq<Datum>>,
)
    requires
        options.limits.batch_rows > 0,
    ensures
        batch_from(input, fields, options, m, c, rows) matches (Ok(batch), Some(_)) ==> batch.len()
            > 0,
    decreases input.len() - c.position,
{
    if rows.len() < options.limits.batch_rows {
        if let Ok(Some((data, next))) = row_next(input, fields, options, m, c) {
            if c.position < next.position <= input.len() {
                full_batches_are_not_empty(input, fields, options, m, next, rows.push(data));
            }
        }
    }
}

/// Appends all rows of a CSV input to a table, or none where anything is wrong with it.
#[verifier::loop_isolation(false)]
pub fn ingest_csv<F: Fn(FloatRequest) -> FloatReply>(
    input: Vec<u8>,
    destination: &mut Table,
    options: CsvOptions,
    f: &F,
) -> (r: Result<u64, FormatError>)
    requires
        old(destination).wf(),
        answers_floats(*f),
    ensures
        final(destination).wf(),
        final(destination).fields() == old(destination).fields(),
        match csv_ingested(input@, old(destination).fields(), options, float_model(*f)) {
            Err(fault) => {
                &&& formatted(r) == Err::<u64, FormatFault>(fault)
                &&& final(destination).content() == old(destination).content()
            },
            Ok(rows) => if old(destination).height() + rows.len() > usize::MAX {
                &&& formatted(r) == Err::<u64, FormatFault>(
                    FormatFault::Storage(StorageFault::TooManyRows),
                )
                &&& final(destination).content() == old(destination).content()
            } else {
                &&& r matches Ok(n) && n == rows.len()
                &&& final(destination).content() == old(destination).content() + rows
            },
        },
{
    let ghost fields = destination.fields();
    let ghost m = float_model(*f);
    let bytes = input.len();
    let mut reader = match CsvBatchReader::new(input, destination.schema(), options) {
        Err(e) => return Err(e),
        Ok(reader) => reader,
    };
    let mut ingestion = Ingestion::begin(Ghost(fields));
    loop
        invariant
            *destination == *old(destination),
            reader.wf(),
            reader.input() == input@,
            reader.fields() == fields,
            reader.settings() == options,
            ingestion.wf(fields),
            ingestion.count() == ingestion.rows().len(),
            on_track(reader, m, ingestion.rows()),
        decreases work_left(reader),
    {
        let ghost rows = ingestion.rows();
        proof {
            match reader.progress() {
                Progress::Fresh => {
                    if let Ok(c) = rows_start(input@, fields, options) {
                        records_advance(
                            input@,
                            0,
                            unread(),
                            options.delimiter,
                            options.limits,
                            1,
                        );
                        turns_stay_on_track(input@, fields, options, m, c, rows);
                        assert(rows =~= Seq::<Seq<Datum>>::empty());
                    }
                },
                Progress::At(c) => {
                    turns_stay_on_track(input@, fields, options, m, c, rows);
                },
                Progress::Finished => {},
            }
        }
        match reader.next(f) {
            None => {
                return ingestion.commit(destination);
            },
            Some(Err(e)) => return Err(e),
            Some(Ok(batch)) => {
                assert((rows + batch.content()).len() <= bytes);
                match ingestion.stage(&batch, Ghost(fields)) {
                    Err(e) => {
                        assert(false);
                        return Err(e);
                    },
                    Ok(()) => {},
                }
            },
        }
    }
}

} // verus!
