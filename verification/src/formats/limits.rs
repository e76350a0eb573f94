//! Limits of decoding and the errors of formats.

use vstd::prelude::*;
use crate::columnar::{storage_text, Schema, StorageError, StorageFault};
use crate::text::{concat2, concat3, concat4, concat5, debug_text, int_text, quote_text, u64_text, usize_text};
use crate::types::DataType;

verus! {

/// Highest supported JSON container depth.
pub const MAX_JSON_NESTING_DEPTH: usize = 128;

/// Independent bounds applied while decoding an input.
#[derive(Debug, Clone, Copy, PartialEq, Eq)]
pub struct FormatLimits {
    pub max_input_bytes: u64,
    pub max_rows: u64,
    pub max_fields_per_row: usize,
    pub max_field_bytes: usize,
    pub max_nesting_depth: usize,
    pub max_string_bytes: usize,
    pub max_record_bytes: usize,
    pub batch_rows: usize,
}

impl FormatLimits {
    /// The default limits.
    pub open spec fn standard() -> FormatLimits {
        FormatLimits {
            max_input_bytes: 268_435_456,
            max_rows: 10_000_000,
            max_fields_per_row: 1_024,
            max_field_bytes: 16_777_216,
            max_nesting_depth: 64,
            max_string_bytes: 16_777_216,
            max_record_bytes: 67_108_864,
            batch_rows: 8_192,
        }
    }
}

impl Default for FormatLimits {
    fn default() -> (limits: FormatLimits)
        ensures
            limits == FormatLimits::standard(),
    {
        FormatLimits {
            max_input_bytes: 268_435_456,
            max_rows: 10_000_000,
            max_fields_per_row: 1_024,
            max_field_bytes: 16_777_216,
            max_nesting_depth: 64,
            max_string_bytes: 16_777_216,
            max_record_bytes: 67_108_864,
            batch_rows: 8_192,
        }
    }
}

/// The bounded resource whose maximum was exceeded.
#[derive(Debug, Clone, Copy, PartialEq, Eq, Structural)]
pub enum LimitKind {
    InputBytes,
    Rows,
    FieldsPerRow,
    FieldBytes,
    NestingDepth,
    StringBytes,
    RecordBytes,
}

impl LimitKind {
    /// The name of the resource.
    pub open spec fn text(self) -> Seq<char> {
        match self {
            LimitKind::InputBytes => "input bytes"@,
            LimitKind::Rows => "rows"@,
            LimitKind::FieldsPerRow => "fields per row"@,
            LimitKind::FieldBytes => "field bytes"@,
            LimitKind::NestingDepth => "JSON nesting depth"@,
            LimitKind::StringBytes => "decoded string bytes"@,
            LimitKind::RecordBytes => "record bytes"@,
        }
    }

    /// Returns the name of the resource.
    pub fn name(self) -> (s: &'static str)
        ensures
            s@ == self.text(),
    {
        match self {
            LimitKind::InputBytes => "input bytes",
            LimitKind::Rows => "rows",
            LimitKind::FieldsPerRow => "fields per row",
            LimitKind::FieldBytes => "field bytes",
            LimitKind::NestingDepth => "JSON nesting depth",
            LimitKind::StringBytes => "decoded string bytes",
            LimitKind::RecordBytes => "record bytes",
        }
    }
}

/// A failure of parsing, conversion, staging or storage.
#[derive(Debug, PartialEq, Eq)]
pub enum FormatError {
    Io(String),
    InvalidOption(String),
    LimitExceeded { kind: LimitKind, limit: u64, row: Option<u64> },
    CsvSyntax { row: u64, message: String },
    JsonSyntax { row: u64, message: String },
    InvalidUtf8 { row: u64, column: String },
    FieldCount { row: u64, expected: usize, actual: usize },
    HeaderMismatch { expected: Vec<String>, actual: Vec<String> },
    UnknownField { row: u64, field: String },
    DuplicateField { row: u64, field: String },
    MissingField { row: u64, field: String },
    NullNotAllowed { row: u64, column: String },
    Conversion { row: u64, column: String, data_type: DataType, value: String },
    Storage(StorageError),
    Staging(String),
}

/// The mathematical content of a failure.
pub enum FormatFault {
    Io(Seq<char>),
    InvalidOption(Seq<char>),
    LimitExceeded { kind: LimitKind, limit: u64, row: Option<u64> },
    CsvSyntax { row: u64, message: Seq<char> },
    JsonSyntax { row: u64, message: Seq<char> },
    InvalidUtf8 { row: u64, column: Seq<char> },
    FieldCount { row: u64, expected: nat, actual: nat },
    HeaderMismatch { expected: Seq<Seq<char>>, actual: Seq<Seq<char>> },
    UnknownField { row: u64, field: Seq<char> },
    DuplicateField { row: u64, field: Seq<char> },
    MissingField { row: u64, field: Seq<char> },
    NullNotAllowed { row: u64, column: Seq<char> },
    Conversion { row: u64, column: Seq<char>, data_type: DataType, value: Seq<char> },
    Storage(StorageFault),
    Staging(Seq<char>),
}

/// The contents of texts.
pub open spec fn texts(list: Seq<String>) -> Seq<Seq<char>> {
    Seq::new(list.len(), |i: int| list[i]@)
}

impl View for FormatError {
    type V = FormatFault;

    open spec fn view(&self) -> FormatFault {
        match *self {
            FormatError::Io(s) => FormatFault::Io(s@),
            FormatError::InvalidOption(s) => FormatFault::InvalidOption(s@),
            FormatError::LimitExceeded { kind, limit, row } => FormatFault::LimitExceeded {
                kind,
                limit,
                row,
            },
            FormatError::CsvSyntax { row, message } => FormatFault::CsvSyntax {
                row,
                message: message@,
            },
            FormatError::JsonSyntax { row, message } => FormatFault::JsonSyntax {
                row,
                message: message@,
            },
            FormatError::InvalidUtf8 { row, column } => FormatFault::InvalidUtf8 {
                row,
                column: column@,
            },
            FormatError::FieldCount { row, expected, actual } => FormatFault::FieldCount {
                row,
                expected: expected as nat,
                actual: actual as nat,
            },
            FormatError::HeaderMismatch { expected, actual } => FormatFault::HeaderMismatch {
                expected: texts(expected@),
                actual: texts(actual@),
            },
            FormatError::UnknownField { row, field } => FormatFault::UnknownField {
                row,
                field: field@,
            },
            FormatError::DuplicateField { row, field } => FormatFault::DuplicateField {
                row,
                field: field@,
            },
            FormatError::MissingField { row, field } => FormatFault::MissingField {
                row,
                field: field@,
            },
            FormatError::NullNotAllowed { row, column } => FormatFault::NullNotAllowed {
                row,
                column: column@,
            },
            FormatError::Conversion { row, column, data_type, value } => FormatFault::Conversion {
                row,
                column: column@,
                data_type,
                value: value@,
            },
            FormatError::Storage(e) => FormatFault::Storage(e@),
            FormatError::Staging(s) => FormatFault::Staging(s@),
        }
    }
}

/// The content of a result of a format.
pub open spec fn formatted<T>(r: Result<T, FormatError>) -> Result<T, FormatFault> {
    match r {
        Ok(v) => Ok(v),
        Err(e) => Err(e@),
    }
}

/// Whether an output received what was written, and on a failure what was written before it.
pub open spec fn handed_over(
    r: Result<(), FormatError>,
    before: Seq<u8>,
    after: Seq<u8>,
    written: Result<Seq<u8>, FormatFault>,
    begun: Seq<u8>,
) -> bool {
    match r {
        Ok(_) => written matches Ok(bytes) && after == before + bytes,
        Err(e) => written matches Err(fault) && fault == e@ && after == before + begun,
    }
}

/// The failure of a limit in a row.
pub open spec fn over(kind: LimitKind, limit: usize, row: u64) -> FormatFault {
    FormatFault::LimitExceeded { kind, limit: limit as u64, row: Some(row) }
}

/// Makes the failure of a limit in a row.
pub fn limit_error(kind: LimitKind, limit: usize, row: u64) -> (e: FormatError)
    ensures
        e@ == over(kind, limit, row),
{
    FormatError::LimitExceeded { kind, limit: limit as u64, row: Some(row) }
}

/// A list of texts as its `Debug` format gives it, from position `i` on.
pub open spec fn debug_items(list: Seq<Seq<char>>, i: int) -> Seq<char>
    decreases list.len() - i,
{
    if !(0 <= i < list.len()) {
        "]"@
    } else {
        (if i == 0 { Seq::empty() } else { ", "@ }) + debug_text(list[i]) + debug_items(list, i + 1)
    }
}

/// A list of texts as its `Debug` format gives it.
pub open spec fn debug_list(list: Seq<Seq<char>>) -> Seq<char> {
    "["@ + debug_items(list, 0)
}

fn show_list(list: &Vec<String>) -> (s: String)
    ensures
        s@ == debug_list(texts(list@)),
{
    let ghost all = texts(list@);
    let mut s = "[".to_owned();
    assert(s@ + debug_items(all, 0) =~= debug_list(all));
    let mut i: usize = 0;
    while i < list.len()
        invariant
            i <= list.len(),
            all == texts(list@),
            s@ + debug_items(all, i as int) == debug_list(all),
        decreases list.len() - i,
    {
        let ghost before = s@;
        let item = quote_text(list[i].as_str());
        assert(item@ == debug_text(all[i as int]));
        if i == 0 {
            s = concat2(s.as_str(), item.as_str());
        } else {
            s = concat3(s.as_str(), ", ", item.as_str());
        }
        assert(before + debug_items(all, i as int) =~= s@ + debug_items(all, i + 1));
        i = i + 1;
    }
    concat2(s.as_str(), "]")
}

/// The text of a failure.
pub open spec fn fault_message(fault: FormatFault) -> Seq<char> {
    match fault {
        FormatFault::Io(s) => "format I/O failed: "@ + s,
        FormatFault::InvalidOption(s) => "invalid format option: "@ + s,
        FormatFault::LimitExceeded { kind, limit, row } => match row {
            Some(row) => kind.text() + " limit "@ + int_text(limit as int) + " exceeded at row "@
                + int_text(row as int),
            None => kind.text() + " limit "@ + int_text(limit as int) + " exceeded"@,
        },
        FormatFault::CsvSyntax { row, message } => "invalid CSV at row "@ + int_text(row as int)
            + ": "@ + message,
        FormatFault::JsonSyntax { row, message } => "invalid NDJSON at row "@ + int_text(row as int)
            + ": "@ + message,
        FormatFault::InvalidUtf8 { row, column } => "invalid UTF-8 in column "@ + debug_text(column)
            + " at row "@ + int_text(row as int),
        FormatFault::FieldCount { row, expected, actual } => "row "@ + int_text(row as int) + " has "@
            + int_text(actual as int) + " fields, expected "@ + int_text(expected as int),
        FormatFault::HeaderMismatch { expected, actual } => "CSV header "@ + debug_list(actual)
            + " does not match schema "@ + debug_list(expected),
        FormatFault::UnknownField { row, field } => "unknown field "@ + debug_text(field)
            + " at row "@ + int_text(row as int),
        FormatFault::DuplicateField { row, field } => "duplicate field "@ + debug_text(field)
            + " at row "@ + int_text(row as int),
        FormatFault::MissingField { row, field } => "missing field "@ + debug_text(field)
            + " at row "@ + int_text(row as int),
        FormatFault::NullNotAllowed { row, column } => "NULL is not allowed in column "@
            + debug_text(column) + " at row "@ + int_text(row as int),
        FormatFault::Conversion { row, column, data_type, value } => "cannot convert "@
            + debug_text(value) + " to "@ + data_type.text() + " for column "@ + debug_text(column)
            + " at row "@ + int_text(row as int),
        FormatFault::Storage(fault) => "columnar storage rejected data: "@ + storage_text(fault),
        FormatFault::Staging(s) => "staged ingestion failed: "@ + s,
    }
}

impl FormatError {
    /// The text of the failure.
    pub fn message(&self) -> (s: String)
        ensures
            s@ == fault_message(self@),
    {
        match self {
            FormatError::Io(s) => concat2("format I/O failed: ", s.as_str()),
            FormatError::InvalidOption(s) => concat2("invalid format option: ", s.as_str()),
            FormatError::LimitExceeded { kind, limit, row } => match row {
                Some(row) => concat5(
                    kind.name(),
                    " limit ",
                    u64_text(*limit).as_str(),
                    " exceeded at row ",
                    u64_text(*row).as_str(),
                ),
                None => concat4(kind.name(), " limit ", u64_text(*limit).as_str(), " exceeded"),
            },
            FormatError::CsvSyntax { row, message } => concat4(
                "invalid CSV at row ",
                u64_text(*row).as_str(),
                ": ",
                message.as_str(),
            ),
            FormatError::JsonSyntax { row, message } => concat4(
                "invalid NDJSON at row ",
                u64_text(*row).as_str(),
                ": ",
                message.as_str(),
            ),
            FormatError::InvalidUtf8 { row, column } => concat4(
                "invalid UTF-8 in column ",
                quote_text(column.as_str()).as_str(),
                " at row ",
                u64_text(*row).as_str(),
            ),
            FormatError::FieldCount { row, expected, actual } => concat2(
                concat5(
                    "row ",
                    u64_text(*row).as_str(),
                    " has ",
                    usize_text(*actual).as_str(),
                    " fields, expected ",
                ).as_str(),
                usize_text(*expected).as_str(),
            ),
            FormatError::HeaderMismatch { expected, actual } => concat4(
                "CSV header ",
                show_list(actual).as_str(),
                " does not match schema ",
                show_list(expected).as_str(),
            ),
            FormatError::UnknownField { row, field } => concat4(
                "unknown field ",
                quote_text(field.as_str()).as_str(),
                " at row ",
                u64_text(*row).as_str(),
            ),
            FormatError::DuplicateField { row, field } => concat4(
                "duplicate field ",
                quote_text(field.as_str()).as_str(),
                " at row ",
                u64_text(*row).as_str(),
            ),
            FormatError::MissingField { row, field } => concat4(
                "missing field ",
                quote_text(field.as_str()).as_str(),
                " at row ",
                u64_text(*row).as_str(),
            ),
            FormatError::NullNotAllowed { row, column } => concat4(
                "NULL is not allowed in column ",
                quote_text(column.as_str()).as_str(),
                " at row ",
                u64_text(*row).as_str(),
            ),
            FormatError::Conversion { row, column, data_type, value } => {
                let head = concat5(
                    "cannot convert ",
                    quote_text(value.as_str()).as_str(),
                    " to ",
                    data_type.name(),
                    " for column ",
                );
                concat4(
                    head.as_str(),
                    quote_text(column.as_str()).as_str(),
                    " at row ",
                    u64_text(*row).as_str(),
                )
            },
            FormatError::Storage(e) => concat2(
                "columnar storage rejected data: ",
                e.message().as_str(),
            ),
            FormatError::Staging(s) => concat2("staged ingestion failed: ", s.as_str()),
        }
    }
}

/// The failure of an option that is zero.
pub open spec fn zero_option(name: Seq<char>) -> FormatFault {
    FormatFault::InvalidOption(name + " must be greater than zero"@)
}

/// Whether limits can be applied to a number of columns, or what is wrong with them.
pub open spec fn limits_check(limits: FormatLimits, columns: nat) -> Result<(), FormatFault> {
    if limits.max_fields_per_row == 0 {
        Err(zero_option("max_fields_per_row"@))
    } else if limits.max_field_bytes == 0 {
        Err(zero_option("max_field_bytes"@))
    } else if limits.max_nesting_depth == 0 {
        Err(zero_option("max_nesting_depth"@))
    } else if limits.max_string_bytes == 0 {
        Err(zero_option("max_string_bytes"@))
    } else if limits.max_record_bytes == 0 {
        Err(zero_option("max_record_bytes"@))
    } else if limits.batch_rows == 0 {
        Err(zero_option("batch_rows"@))
    } else if columns > limits.max_fields_per_row {
        Err(
            FormatFault::LimitExceeded {
                kind: LimitKind::FieldsPerRow,
                limit: limits.max_fields_per_row as u64,
                row: None,
            },
        )
    } else {
        Ok(())
    }
}

/// Whether limits can be applied to JSON, or what is wrong with them.
pub open spec fn json_limits_check(limits: FormatLimits, columns: nat) -> Result<(), FormatFault> {
    match limits_check(limits, columns) {
        Err(fault) => Err(fault),
        Ok(()) => if limits.max_nesting_depth > MAX_JSON_NESTING_DEPTH {
            Err(
                FormatFault::InvalidOption(
                    "max_nesting_depth cannot exceed "@ + int_text(MAX_JSON_NESTING_DEPTH as int),
                ),
            )
        } else {
            Ok(())
        },
    }
}

fn zero_error(name: &str) -> (e: FormatError)
    ensures
        e@ == zero_option(name@),
{
    FormatError::InvalidOption(concat2(name, " must be greater than zero"))
}

impl FormatLimits {
    /// Checks that the limits can be applied to a schema.
    pub fn validate(&self, schema: &Schema) -> (r: Result<(), FormatError>)
        ensures
            formatted(r) == limits_check(*self, schema.fields@.len()),
    {
        if self.max_fields_per_row == 0 {
            return Err(zero_error("max_fields_per_row"));
        }
        if self.max_field_bytes == 0 {
            return Err(zero_error("max_field_bytes"));
        }
        if self.max_nesting_depth == 0 {
            return Err(zero_error("max_nesting_depth"));
        }
        if self.max_string_bytes == 0 {
            return Err(zero_error("max_string_bytes"));
        }
        if self.max_record_bytes == 0 {
            return Err(zero_error("max_record_bytes"));
        }
        if self.batch_rows == 0 {
            return Err(zero_error("batch_rows"));
        }
        if schema.len() > self.max_fields_per_row {
            return Err(
                FormatError::LimitExceeded {
                    kind: LimitKind::FieldsPerRow,
                    limit: self.max_fields_per_row as u64,
                    row: None,
                },
            );
        }
        Ok(())
    }

    /// Checks that the limits can be applied to JSON records of a schema.
    pub fn validate_json(&self, schema: &Schema) -> (r: Result<(), FormatError>)
        ensures
            formatted(r) == json_limits_check(*self, schema.fields@.len()),
    {
        match self.validate(schema) {
            Err(e) => return Err(e),
            Ok(()) => {},
        }
        if self.max_nesting_depth > MAX_JSON_NESTING_DEPTH {
            return Err(
                FormatError::InvalidOption(
                    concat2(
                        "max_nesting_depth cannot exceed ",
                        usize_text(MAX_JSON_NESTING_DEPTH).as_str(),
                    ),
                ),
            );
        }
        Ok(())
    }
}

/// The number of the row behind `n` rows.
pub open spec fn row_behind(n: u64) -> u64 {
    if n == u64::MAX {
        u64::MAX
    } else {
        (n + 1) as u64
    }
}

/// Counts one more row.
pub fn next_row(n: u64) -> (r: u64)
    ensures
        r == row_behind(n),
{
    if n == u64::MAX {
        u64::MAX
    } else {
        n + 1
    }
}

/// The byte at a position within the input limit; `None` at the end.
pub open spec fn byte_at(input: Seq<u8>, position: int, max_bytes: u64) -> Result<
    Option<u8>,
    FormatFault,
> {
    if position >= input.len() {
        Ok(None)
    } else if position == max_bytes {
        Err(
            FormatFault::LimitExceeded { kind: LimitKind::InputBytes, limit: max_bytes, row: None },
        )
    } else {
        Ok(Some(input[position]))
    }
}

/// Reads the byte at a position within the input limit.
pub fn read_byte(input: &Vec<u8>, position: usize, max_bytes: u64) -> (r: Result<
    Option<u8>,
    FormatError,
>)
    ensures
        formatted(r) == byte_at(input@, position as int, max_bytes),
{
    if position >= input.len() {
        Ok(None)
    } else if position as u64 == max_bytes {
        Err(
            FormatError::LimitExceeded { kind: LimitKind::InputBytes, limit: max_bytes, row: None },
        )
    } else {
        Ok(Some(input[position]))
    }
}

} // verus!
