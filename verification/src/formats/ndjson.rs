//! Newline-delimited JSON.

use vstd::prelude::*;
use crate::bytes::{append_bytes, append_text, utf8};
use crate::columnar::{batch_check, checked_columns_suit, column_suits, empty_columns, field_from, found_fields_match, push_row, row_at, row_suits, rows_of, shaped, suits, Column, ColumnBatch, Field, Schema, StorageFault, Table};
use crate::float::{answers_floats, display_float, finite, float_model, float_parsed, float_text, is_finite, parse_float, FloatModel, FloatReply, FloatRequest};
use crate::formats::csv::{batch_formatted, batch_suits, cell_formatted, row_formatted, unconverted};
use crate::formats::json_record::{fields_read, json_description, parse_root_object, record_object, JsonData, JsonField, JsonValue};
use crate::formats::limits::{byte_at, formatted, handed_over, json_limits_check, limit_error, next_row, over, read_byte, row_behind, FormatError, FormatFault, FormatLimits, LimitKind};
use crate::formats::staging::Ingestion;
use crate::json_text::{json_quoted, json_string};
use crate::text::{i64_text, i64_value, int_text, parse_i64};
use crate::types::{data_of, DataType, Datum, Value};

verus! {

/// Settings for schema-driven decoding of newline-delimited JSON.
#[derive(Debug, Clone, Copy, PartialEq, Eq)]
pub struct NdjsonOptions {
    pub limits: FormatLimits,
}

impl Default for NdjsonOptions {
    fn default() -> (options: NdjsonOptions)
        ensures
            options.limits == FormatLimits::standard(),
    {
        NdjsonOptions { limits: FormatLimits::default() }
    }
}

/// A line that was read, and the position behind it.
pub struct LineRead {
    pub bytes: Seq<u8>,
    pub position: int,
}

/// A line without the carriage return at its end; a blank line is refused.
pub open spec fn line_done(bytes: Seq<u8>, position: int, row: u64) -> Result<Option<LineRead>, FormatFault> {
    let kept = if bytes.len() > 0 && bytes.last() == 13 { bytes.drop_last() } else { bytes };
    if kept.len() == 0 {
        Err(FormatFault::JsonSyntax { row, message: "blank lines are not NDJSON records"@ })
    } else {
        Ok(Some(LineRead { bytes: kept, position }))
    }
}

/// The rest of a line behind `bytes`; `None` at the end of the input.
pub open spec fn line_from(
    input: Seq<u8>,
    position: int,
    bytes: Seq<u8>,
    limits: FormatLimits,
    row: u64,
) -> Result<Option<LineRead>, FormatFault>
    decreases input.len() - position,
{
    match byte_at(input, position, limits.max_input_bytes) {
        Err(fault) => Err(fault),
        Ok(None) => if bytes.len() == 0 {
            Ok(None)
        } else {
            line_done(bytes, position, row)
        },
        Ok(Some(b)) => if b == 10 {
            line_done(bytes, position + 1, row)
        } else if bytes.len() == limits.max_record_bytes {
            Err(over(LimitKind::RecordBytes, limits.max_record_bytes, row))
        } else if position < input.len() {
            line_from(input, position + 1, bytes.push(b), limits, row)
        } else {
            Ok(None)
        },
    }
}

proof fn lines_advance(input: Seq<u8>, position: int, bytes: Seq<u8>, limits: FormatLimits, row: u64)
    requires
        0 <= position <= input.len(),
    ensures
        line_from(input, position, bytes, limits, row) matches Ok(Some(line)) ==> position
            <= line.position <= input.len() && (bytes.len() == 0 ==> position < line.position),
    decreases input.len() - position,
{
    if position < input.len() {
        if let Ok(Some(b)) = byte_at(input, position, limits.max_input_bytes) {
            if b != 10 && bytes.len() != limits.max_record_bytes {
                lines_advance(input, position + 1, bytes.push(b), limits, row);
            }
        }
    }
}

struct NdjsonStream {
    input: Vec<u8>,
    position: usize,
    limits: FormatLimits,
}

impl NdjsonStream {
    #[verifier::loop_isolation(false)]
    fn read_record(&mut self, row: u64) -> (r: Result<Option<Vec<u8>>, FormatError>)
        requires
            old(self).position <= old(self).input.len(),
        ensures
            final(self).input == old(self).input,
            final(self).limits == old(self).limits,
            final(self).position <= final(self).input.len(),
            match line_from(
                old(self).input@,
                old(self).position as int,
                Seq::empty(),
                old(self).limits,
                row,
            ) {
                Err(fault) => r matches Err(e) && e@ == fault,
                Ok(None) => r matches Ok(None),
                Ok(Some(line)) => {
                    &&& r matches Ok(Some(bytes)) && bytes@ == line.bytes
                    &&& final(self).position == line.position
                },
            },
    {
        let ghost input = self.input@;
        let ghost limits = self.limits;
        let ghost first = self.position as int;
        let mut bytes: Vec<u8> = Vec::new();
        let mut open = true;
        assert(bytes@ =~= Seq::<u8>::empty());
        while open
            invariant
                self.input@ == input,
                self.input == old(self).input,
                self.limits == limits,
                self.position <= self.input.len(),
                open ==> line_from(input, first, Seq::empty(), limits, row) == line_from(
                    input,
                    self.position as int,
                    bytes@,
                    limits,
                    row,
                ),
                !open ==> line_from(input, first, Seq::empty(), limits, row) == line_done(
                    bytes@,
                    self.position as int,
                    row,
                ),
            decreases (if open { 1nat } else { 0nat }), self.input.len() - self.position,
        {
            match read_byte(&self.input, self.position, self.limits.max_input_bytes) {
                Err(e) => return Err(e),
                Ok(None) => {
                    if bytes.len() == 0 {
                        return Ok(None);
                    }
                    open = false;
                },
                Ok(Some(b)) => {
                    assert(self.position < self.input.len());
                    if b == 10 {
                        open = false;
                    } else {
                        if bytes.len() == self.limits.max_record_bytes {
                            return Err(
                                limit_error(
                                    LimitKind::RecordBytes,
                                    self.limits.max_record_bytes,
                                    row,
                                ),
                            );
                        }
                        bytes.push(b);
                    }
                    self.position = self.position + 1;
                },
            }
        }
        let n = bytes.len();
        if n > 0 && bytes[n - 1] == 13 {
            let ghost before = bytes@;
            bytes.truncate(n - 1);
            assert(bytes@ =~= before.drop_last());
        }
        if bytes.len() == 0 {
            return Err(
                FormatError::JsonSyntax {
                    row,
                    message: "blank lines are not NDJSON records".to_owned(),
                },
            );
        }
        Ok(Some(bytes))
    }
}

/// The values of columns once the fields of a record from position `i` on are placed.
pub open spec fn placed(
    list: Seq<JsonField>,
    fields: Seq<Field>,
    row: u64,
    i: int,
    slots: Seq<Option<JsonData>>,
) -> Result<Seq<Option<JsonData>>, FormatFault>
    decreases list.len() - i,
{
    if !(0 <= i < list.len()) {
        Ok(slots)
    } else {
        match field_from(fields, list[i].name, 0) {
            None => Err(FormatFault::UnknownField { row, field: list[i].name }),
            Some(c) => if slots[c] is Some {
                Err(FormatFault::DuplicateField { row, field: list[i].name })
            } else {
                placed(list, fields, row, i + 1, slots.update(c, Some(list[i].value)))
            },
        }
    }
}

/// No values for columns.
pub open spec fn no_values(n: nat) -> Seq<Option<JsonData>> {
    Seq::new(n, |i: int| None)
}

/// The value of a column.
pub open spec fn json_cell(slot: Option<JsonData>, field: Field, row: u64, m: FloatModel) -> Result<
    Datum,
    FormatFault,
> {
    match slot {
        None => Err(FormatFault::MissingField { row, field: field.name@ }),
        Some(JsonData::Null) => if field.nullable {
            Ok(Datum::Null)
        } else {
            Err(FormatFault::NullNotAllowed { row, column: field.name@ })
        },
        Some(value) => match (field.data_type, value) {
            (DataType::Int64, JsonData::Number(text)) => match i64_value(text) {
                Some(n) => Ok(Datum::Int64(n)),
                None => Err(unconverted(row, field, text)),
            },
            (DataType::Float64, JsonData::Number(text)) => match float_parsed(m, text) {
                Some(bits) if is_finite(bits) => Ok(Datum::Float64(bits)),
                _ => Err(unconverted(row, field, text)),
            },
            (DataType::Bool, JsonData::Bool(b)) => Ok(Datum::Bool(b)),
            (DataType::String, JsonData::Text(text)) => Ok(Datum::Text(text)),
            _ => Err(unconverted(row, field, json_description(value))),
        },
    }
}

/// The values of columns from position `c` on, behind `data`.
pub open spec fn json_cells(
    slots: Seq<Option<JsonData>>,
    fields: Seq<Field>,
    row: u64,
    m: FloatModel,
    c: int,
    data: Seq<Datum>,
) -> Result<Seq<Datum>, FormatFault>
    decreases slots.len() - c,
{
    if !(0 <= c < slots.len()) {
        Ok(data)
    } else {
        match json_cell(slots[c], fields[c], row, m) {
            Err(fault) => Err(fault),
            Ok(cell) => json_cells(slots, fields, row, m, c + 1, data.push(cell)),
        }
    }
}

/// The row that a record stands for.
pub open spec fn json_row(
    bytes: Seq<u8>,
    fields: Seq<Field>,
    options: NdjsonOptions,
    row: u64,
    m: FloatModel,
) -> Result<Seq<Datum>, FormatFault> {
    match record_object(bytes, options.limits, row) {
        Err(fault) => Err(fault),
        Ok(list) => match placed(list, fields, row, 0, no_values(fields.len())) {
            Err(fault) => Err(fault),
            Ok(slots) => json_cells(slots, fields, row, m, 0, Seq::empty()),
        },
    }
}

proof fn json_cells_suit(
    slots: Seq<Option<JsonData>>,
    fields: Seq<Field>,
    row: u64,
    m: FloatModel,
    c: int,
    data: Seq<Datum>,
)
    requires
        slots.len() == fields.len(),
        0 <= c <= slots.len(),
        data.len() == c,
        row_suits(data, fields.take(c)),
    ensures
        json_cells(slots, fields, row, m, c, data) matches Ok(done) ==> row_suits(done, fields),
    decreases slots.len() - c,
{
    if c < slots.len() {
        if let Ok(cell) = json_cell(slots[c], fields[c], row, m) {
            assert(row_suits(data.push(cell), fields.take(c + 1))) by {
                assert forall|k: int| 0 <= k < c + 1 implies suits(
                    #[trigger] data.push(cell)[k],
                    fields.take(c + 1)[k].data_type,
                ) && (data.push(cell)[k] is Null ==> fields.take(c + 1)[k].nullable) by {
                    if k < c {
                        assert(data[k] == data.push(cell)[k]);
                        assert(fields.take(c)[k] == fields[k]);
                    }
                }
            }
            json_cells_suit(slots, fields, row, m, c + 1, data.push(cell));
        }
    } else {
        assert(fields.take(c) =~= fields);
    }
}

proof fn placing_keeps_the_width(
    list: Seq<JsonField>,
    fields: Seq<Field>,
    row: u64,
    i: int,
    slots: Seq<Option<JsonData>>,
)
    requires
        slots.len() == fields.len(),
    ensures
        placed(list, fields, row, i, slots) matches Ok(done) ==> done.len() == slots.len(),
    decreases list.len() - i,
{
    if 0 <= i < list.len() {
        if let Some(c) = field_from(fields, list[i].name, 0) {
            found_fields_match(fields, list[i].name, 0);
            placing_keeps_the_width(
                list,
                fields,
                row,
                i + 1,
                slots.update(c, Some(list[i].value)),
            );
        }
    }
}

/// A converted record suits the schema.
pub proof fn json_rows_suit(
    bytes: Seq<u8>,
    fields: Seq<Field>,
    options: NdjsonOptions,
    row: u64,
    m: FloatModel,
)
    ensures
        json_row(bytes, fields, options, row, m) matches Ok(data) ==> row_suits(data, fields),
{
    if let Ok(list) = record_object(bytes, options.limits, row) {
        placing_keeps_the_width(list, fields, row, 0, no_values(fields.len()));
        if let Ok(slots) = placed(list, fields, row, 0, no_values(fields.len())) {
            assert(row_suits(Seq::<Datum>::empty(), fields.take(0)));
            json_cells_suit(slots, fields, row, m, 0, Seq::empty());
        }
    }
}

/// The contents of the values of columns.
spec fn slots_of(values: Seq<Option<JsonValue>>) -> Seq<Option<JsonData>> {
    Seq::new(
        values.len(),
        |i: int|
            match values[i] {
                Some(v) => Some(v@),
                None => None,
            },
    )
}

fn conversion_error(row: u64, field: &Field, value: String) -> (e: FormatError)
    ensures
        e@ == unconverted(row, *field, value@),
{
    FormatError::Conversion {
        row,
        column: field.name.clone(),
        data_type: field.data_type,
        value,
    }
}

spec fn slot_of(value: Option<JsonValue>) -> Option<JsonData> {
    match value {
        Some(v) => Some(v@),
        None => None,
    }
}

fn convert_value<F: Fn(FloatRequest) -> FloatReply>(
    value: Option<JsonValue>,
    field: &Field,
    row: u64,
    f: &F,
) -> (r: Result<Value, FormatError>)
    requires
        answers_floats(*f),
    ensures
        cell_formatted(r) == json_cell(slot_of(value), *field, row, float_model(*f)),
{
    let value = match value {
        None => return Err(FormatError::MissingField { row, field: field.name.clone() }),
        Some(value) => value,
    };
    match (field.data_type, value) {
        (_, JsonValue::Null) => if field.nullable {
            Ok(Value::Null)
        } else {
            Err(FormatError::NullNotAllowed { row, column: field.name.clone() })
        },
        (DataType::Int64, JsonValue::Number(text)) => match parse_i64(text.as_str()) {
            Some(n) => Ok(Value::Int64(n)),
            None => Err(conversion_error(row, field, text)),
        },
        (DataType::Float64, JsonValue::Number(text)) => match parse_float(f, text.as_str()) {
            Some(bits) => if finite(bits) {
                Ok(Value::Float64(bits))
            } else {
                Err(conversion_error(row, field, text))
            },
            None => Err(conversion_error(row, field, text)),
        },
        (DataType::Bool, JsonValue::Bool(b)) => Ok(Value::Bool(b)),
        (DataType::String, JsonValue::String(text)) => Ok(Value::String(text)),
        (_, other) => Err(conversion_error(row, field, other.description())),
    }
}

#[verifier::loop_isolation(false)]
fn convert_record<F: Fn(FloatRequest) -> FloatReply>(
    bytes: &Vec<u8>,
    schema: &Schema,
    options: &NdjsonOptions,
    row: u64,
    f: &F,
) -> (r: Result<Vec<Value>, FormatError>)
    requires
        answers_floats(*f),
        json_limits_check(options.limits, schema.fields@.len()) is Ok,
    ensures
        row_formatted(r) == json_row(bytes@, schema.fields@, *options, row, float_model(*f)),
{
    let list = match parse_root_object(bytes, &options.limits, row) {
        Err(e) => return Err(e),
        Ok(list) => list,
    };
    let ghost fields = schema.fields@;
    let ghost m = float_model(*f);
    let ghost all = list@;
    let ghost content = fields_read(list@);
    let width = schema.len();
    let mut values: Vec<Option<JsonValue>> = Vec::new();
    let mut n: usize = 0;
    while n < width
        invariant
            n <= width,
            values@.len() == n,
            forall|k: int| 0 <= k < n ==> (#[trigger] values@[k]) is None,
        decreases width - n,
    {
        values.push(None);
        n = n + 1;
    }
    assert(slots_of(values@) =~= no_values(fields.len()));
    let ghost mut i: int = 0;
    for found in it: list
        invariant
            it.seq() == all,
            i == it.index(),
            content == fields_read(all),
            values@.len() == width == fields.len(),
            placed(content, fields, row, 0, no_values(fields.len())) == placed(
                content,
                fields,
                row,
                i,
                slots_of(values@),
            ),
    {
        let (name, value) = found;
        assert(content[i].name == name@ && content[i].value == value@);
        let c = match schema.index_of(name.as_str()) {
            None => return Err(FormatError::UnknownField { row, field: name }),
            Some(c) => c,
        };
        assert(slots_of(values@)[c as int] is Some == values@[c as int] is Some);
        if values[c].is_some() {
            return Err(FormatError::DuplicateField { row, field: name });
        }
        let ghost before = slots_of(values@);
        values.set(c, Some(value));
        assert(slots_of(values@) =~= before.update(c as int, Some(value@)));
        proof {
            i = i + 1;
        }
    }
    let ghost slots = slots_of(values@);
    let ghost every = values@;
    let mut data: Vec<Value> = Vec::new();
    let mut c: usize = 0;
    assert(data_of(data@) =~= Seq::<Datum>::empty());
    for value in it: values
        invariant
            it.seq() == every,
            c == it.index(),
            slots == slots_of(every),
            slots.len() == width == fields.len(),
            json_cells(slots, fields, row, m, 0, Seq::empty()) == json_cells(
                slots,
                fields,
                row,
                m,
                c as int,
                data_of(data@),
            ),
    {
        assert(slot_of(value) == slots[c as int]);
        match convert_value(value, &schema.fields[c], row, f) {
            Err(e) => return Err(e),
            Ok(cell) => {
                let ghost before = data_of(data@);
                data.push(cell);
                assert(data_of(data@) =~= before.push(cell@));
            },
        }
        c = c + 1;
    }
    Ok(data)
}

/// Where reading of rows stands.
pub struct LineCursor {
    pub position: int,
    pub rows_read: u64,
}

/// The next row; `None` at the end of the input.
pub open spec fn line_next(
    input: Seq<u8>,
    fields: Seq<Field>,
    options: NdjsonOptions,
    m: FloatModel,
    c: LineCursor,
) -> Result<Option<(Seq<Datum>, LineCursor)>, FormatFault> {
    let row = row_behind(c.rows_read);
    match line_from(input, c.position, Seq::empty(), options.limits, row) {
        Err(fault) => Err(fault),
        Ok(None) => Ok(None),
        Ok(Some(line)) => if c.rows_read == options.limits.max_rows {
            Err(
                FormatFault::LimitExceeded {
                    kind: LimitKind::Rows,
                    limit: options.limits.max_rows,
                    row: Some(row),
                },
            )
        } else {
            match json_row(line.bytes, fields, options, row, m) {
                Err(fault) => Err(fault),
                Ok(data) => Ok(
                    Some((data, LineCursor { position: line.position, rows_read: row })),
                ),
            }
        },
    }
}

/// All rows from a cursor on, behind `rows`.
pub open spec fn lines_from(
    input: Seq<u8>,
    fields: Seq<Field>,
    options: NdjsonOptions,
    m: FloatModel,
    c: LineCursor,
    rows: Seq<Seq<Datum>>,
) -> Result<Seq<Seq<Datum>>, FormatFault>
    decreases input.len() - c.position,
{
    match line_next(input, fields, options, m, c) {
        Err(fault) => Err(fault),
        Ok(None) => Ok(rows),
        Ok(Some((data, next))) => if c.position < next.position <= input.len() {
            lines_from(input, fields, options, m, next, rows.push(data))
        } else {
            Ok(rows)
        },
    }
}

/// The rows that an input holds, or the first failure.
pub open spec fn ndjson_rows(input: Seq<u8>, fields: Seq<Field>, options: NdjsonOptions, m: FloatModel) -> Result<
    Seq<Seq<Datum>>,
    FormatFault,
> {
    lines_from(
        input,
        fields,
        options,
        m,
        LineCursor { position: 0, rows_read: 0 },
        Seq::empty(),
    )
}

/// The next rows up to the size of a batch, behind `rows`, and where reading goes on; without
/// a cursor nothing is left to read.
pub open spec fn lines_batch(
    input: Seq<u8>,
    fields: Seq<Field>,
    options: NdjsonOptions,
    m: FloatModel,
    c: LineCursor,
    rows: Seq<Seq<Datum>>,
) -> (Result<Seq<Seq<Datum>>, FormatFault>, Option<LineCursor>)
    decreases input.len() - c.position,
{
    if rows.len() >= options.limits.batch_rows {
        (Ok(rows), Some(c))
    } else {
        match line_next(input, fields, options, m, c) {
            Err(fault) => (Err(fault), None),
            Ok(None) => (Ok(rows), None),
            Ok(Some((data, next))) => if c.position < next.position <= input.len() {
                lines_batch(input, fields, options, m, next, rows.push(data))
            } else {
                (Ok(rows), None)
            },
        }
    }
}

proof fn line_rows_advance(
    input: Seq<u8>,
    fields: Seq<Field>,
    options: NdjsonOptions,
    m: FloatModel,
    c: LineCursor,
)
    requires
        0 <= c.position <= input.len(),
    ensures
        line_next(input, fields, options, m, c) matches Ok(Some((data, next))) ==> c.position
            < next.position <= input.len() && row_suits(data, fields),
{
    let row = row_behind(c.rows_read);
    lines_advance(input, c.position, Seq::empty(), options.limits, row);
    if let Ok(Some(line)) = line_from(input, c.position, Seq::empty(), options.limits, row) {
        json_rows_suit(line.bytes, fields, options, row, m);
    }
}

/// Batches make up the rows: what follows a batch continues it.
pub proof fn line_batches_make_the_rows(
    input: Seq<u8>,
    fields: Seq<Field>,
    options: NdjsonOptions,
    m: FloatModel,
    c: LineCursor,
    rows: Seq<Seq<Datum>>,
    before: Seq<Seq<Datum>>,
)
    requires
        0 <= c.position <= input.len(),
        options.limits.batch_rows > 0,
    ensures
        lines_from(input, fields, options, m, c, before + rows) == match lines_batch(
            input,
            fields,
            options,
            m,
            c,
            rows,
        ) {
            (Err(fault), _) => Err(fault),
            (Ok(batch), None) => Ok(before + batch),
            (Ok(batch), Some(next)) => lines_from(input, fields, options, m, next, before + batch),
        },
        lines_batch(input, fields, options, m, c, rows) matches (Ok(batch), next) ==> {
            &&& batch.len() - rows.len() <= input.len() - c.position
            &&& (next matches Some(next) ==> c.position <= next.position <= input.len()
                && batch.len() - rows.len() <= next.position - c.position && batch.len() > 0)
        },
    decreases input.len() - c.position,
{
    if rows.len() < options.limits.batch_rows {
        line_rows_advance(input, fields, options, m, c);
        if let Ok(Some((data, next))) = line_next(input, fields, options, m, c) {
            assert((before + rows).push(data) =~= before + rows.push(data));
            line_batches_make_the_rows(input, fields, options, m, next, rows.push(data), before);
        }
    }
}

/// What the reader does next: a batch of rows, a failure that ends it, or nothing at the end.
/// Without a cursor it has finished.
pub open spec fn lines_turn(
    input: Seq<u8>,
    fields: Seq<Field>,
    options: NdjsonOptions,
    m: FloatModel,
    progress: Option<LineCursor>,
) -> (Option<Result<Seq<Seq<Datum>>, FormatFault>>, Option<LineCursor>) {
    match progress {
        None => (None, None),
        Some(c) => match lines_batch(input, fields, options, m, c, Seq::empty()) {
            (Err(fault), _) => (Some(Err(fault)), None),
            (Ok(rows), next) => (
                if rows.len() == 0 {
                    None
                } else {
                    Some(Ok(rows))
                },
                next,
            ),
        },
    }
}

/// Reads typed batches of rows from newline-delimited JSON.
pub struct NdjsonBatchReader {
    stream: NdjsonStream,
    schema: Schema,
    options: NdjsonOptions,
    rows_read: u64,
    finished: bool,
}

impl NdjsonBatchReader {
    /// The bytes that are read.
    pub closed spec fn input(&self) -> Seq<u8> {
        self.stream.input@
    }

    /// The definitions of the columns.
    pub closed spec fn fields(&self) -> Seq<Field> {
        self.schema.fields@
    }

    /// The options.
    pub closed spec fn settings(&self) -> NdjsonOptions {
        self.options
    }

    /// How far the reader has come; `None` where it has finished.
    pub closed spec fn progress(&self) -> Option<LineCursor> {
        if self.finished {
            None
        } else {
            Some(self.cursor())
        }
    }

    closed spec fn cursor(&self) -> LineCursor {
        LineCursor { position: self.stream.position as int, rows_read: self.rows_read }
    }

    /// Whether the reader is consistent.
    pub closed spec fn wf(&self) -> bool {
        &&& self.stream.position <= self.stream.input.len()
        &&& self.stream.limits == self.options.limits
        &&& json_limits_check(self.options.limits, self.schema.fields@.len()) is Ok
    }

    /// Makes a reader of bytes with a schema.
    pub fn new(input: Vec<u8>, schema: &Schema, options: NdjsonOptions) -> (r: Result<
        NdjsonBatchReader,
        FormatError,
    >)
        ensures
            match r {
                Ok(reader) => {
                    &&& json_limits_check(options.limits, schema.fields@.len()) is Ok
                    &&& reader.wf()
                    &&& reader.input() == input@
                    &&& reader.fields() == schema.fields@
                    &&& reader.settings() == options
                    &&& reader.progress() == Some(LineCursor { position: 0, rows_read: 0 })
                },
                Err(e) => json_limits_check(options.limits, schema.fields@.len()) == Err::<
                    (),
                    FormatFault,
                >(e@),
            },
    {
        match options.limits.validate_json(schema) {
            Err(e) => return Err(e),
            Ok(()) => {},
        }
        Ok(
            NdjsonBatchReader {
                stream: NdjsonStream { input, position: 0, limits: options.limits },
                schema: schema.clone(),
                options,
                rows_read: 0,
                finished: false,
            },
        )
    }

    /// The schema of the batches.
    pub fn schema(&self) -> (schema: &Schema)
        ensures
            schema.fields@ == self.fields(),
    {
        &self.schema
    }

    /// Reads the next batch; nothing is left behind a failure or the end of the input.
    #[verifier::loop_isolation(false)]
    pub fn next<F: Fn(FloatRequest) -> FloatReply>(&mut self, f: &F) -> (r: Option<
        Result<ColumnBatch, FormatError>,
    >)
        requires
            old(self).wf(),
            answers_floats(*f),
        ensures
            final(self).wf(),
            final(self).input() == old(self).input(),
            final(self).fields() == old(self).fields(),
            final(self).settings() == old(self).settings(),
            (batch_formatted(r), final(self).progress()) == lines_turn(
                old(self).input(),
                old(self).fields(),
                old(self).settings(),
                float_model(*f),
                old(self).progress(),
            ),
            batch_suits(r, old(self).fields()),
    {
        if self.finished {
            return None;
        }
        let ghost input = self.input();
        let ghost fields = self.fields();
        let ghost options = self.options;
        let ghost m = float_model(*f);
        let ghost first = self.cursor();
        let ghost mut rows: Seq<Seq<Datum>> = Seq::empty();
        let mut columns = empty_columns(&self.schema);
        let mut batch_rows: usize = 0;
        assert(rows_of(columns@, 0) =~= rows);
        while batch_rows < self.options.limits.batch_rows
            invariant
                self.wf(),
                !self.finished,
                self.input() == input,
                self.fields() == fields,
                self.options == options,
                shaped(columns@, fields, batch_rows as nat),
                rows_of(columns@, batch_rows as nat) == rows,
                batch_rows <= options.limits.batch_rows,
                lines_batch(input, fields, options, m, first, Seq::empty()) == lines_batch(
                    input,
                    fields,
                    options,
                    m,
                    self.cursor(),
                    rows,
                ),
            decreases self.options.limits.batch_rows - batch_rows,
        {
            proof {
                line_rows_advance(input, fields, options, m, self.cursor());
            }
            let row = next_row(self.rows_read);
            let record = match self.stream.read_record(row) {
                Err(e) => {
                    self.finished = true;
                    return Some(Err(e));
                },
                Ok(None) => {
                    self.finished = true;
                    if batch_rows == 0 {
                        return None;
                    }
                    let batch = ColumnBatch::of(columns, batch_rows);
                    assert(batch.content() == rows);
                    return Some(Ok(batch));
                },
                Ok(Some(record)) => record,
            };
            if self.rows_read == self.options.limits.max_rows {
                self.finished = true;
                return Some(
                    Err(
                        FormatError::LimitExceeded {
                            kind: LimitKind::Rows,
                            limit: self.options.limits.max_rows,
                            row: Some(row),
                        },
                    ),
                );
            }
            match convert_record(&record, &self.schema, &self.options, row, f) {
                Err(e) => {
                    self.finished = true;
                    return Some(Err(e));
                },
                Ok(data) => {
                    push_row(&mut columns, data, Ghost(fields), Ghost(batch_rows as nat));
                    proof {
                        rows = rows.push(data_of(data@));
                    }
                },
            }
            self.rows_read = row;
            batch_rows = batch_rows + 1;
        }
        let batch = ColumnBatch::of(columns, batch_rows);
        assert(batch.content() == rows);
        Some(Ok(batch))
    }
}

/// The rows that an ingestion reads, or why it fails.
pub open spec fn ndjson_ingested(
    input: Seq<u8>,
    fields: Seq<Field>,
    options: NdjsonOptions,
    m: FloatModel,
) -> Result<Seq<Seq<Datum>>, FormatFault> {
    match json_limits_check(options.limits, fields.len()) {
        Err(fault) => Err(fault),
        Ok(()) => ndjson_rows(input, fields, options, m),
    }
}

spec fn on_track(reader: NdjsonBatchReader, m: FloatModel, rows: Seq<Seq<Datum>>) -> bool {
    let all = ndjson_rows(reader.input(), reader.fields(), reader.settings(), m);
    match reader.progress() {
        Some(c) => {
            &&& 0 <= c.position <= reader.input().len()
            &&& rows.len() <= c.position
            &&& all == lines_from(reader.input(), reader.fields(), reader.settings(), m, c, rows)
        },
        None => all == Ok::<Seq<Seq<Datum>>, FormatFault>(rows) && rows.len() <= reader.input().len(),
    }
}

spec fn work_left(reader: NdjsonBatchReader) -> nat {
    match reader.progress() {
        Some(c) => (reader.input().len() + 1 - c.position) as nat,
        None => 0,
    }
}

/// Appends all rows of newline-delimited JSON to a table, or none where anything is wrong with
/// them.
#[verifier::loop_isolation(false)]
pub fn ingest_ndjson<F: Fn(FloatRequest) -> FloatReply>(
    input: Vec<u8>,
    destination: &mut Table,
    options: NdjsonOptions,
    f: &F,
) -> (r: Result<u64, FormatError>)
    requires
        old(destination).wf(),
        answers_floats(*f),
    ensures
        final(destination).wf(),
        final(destination).fields() == old(destination).fields(),
        match ndjson_ingested(input@, old(destination).fields(), options, float_model(*f)) {
            Err(fault) => {
                &&& formatted(r) == Err::<u64, FormatFault>(fault)
                &&& final(destination).content() == old(destination).content()
            },
            Ok(rows) => if old(destination).height() + rows.len() > usize::MAX {
                &&& formatted(r) == Err::<u64, FormatFault>(
                    FormatFault::Storage(StorageFault::TooManyRows),
                )
                &&& final(destination).content() == old(destination).content()
            } else {
                &&& r matches Ok(n) && n == rows.len()
                &&& final(destination).content() == old(destination).content() + rows
            },
        },
{
    let ghost fields = destination.fields();
    let ghost m = float_model(*f);
    let bytes = input.len();
    let mut reader = match NdjsonBatchReader::new(input, destination.schema(), options) {
        Err(e) => return Err(e),
        Ok(reader) => reader,
    };
    let mut ingestion = Ingestion::begin(Ghost(fields));
    loop
        invariant
            *destination == *old(destination),
            reader.wf(),
            reader.input() == input@,
            reader.fields() == fields,
            reader.settings() == options,
            ingestion.wf(fields),
            ingestion.count() == ingestion.rows().len(),
            on_track(reader, m, ingestion.rows()),
        decreases work_left(reader),
    {
        let ghost rows = ingestion.rows();
        proof {
            if let Some(c) = reader.progress() {
                line_batches_make_the_rows(input@, fields, options, m, c, Seq::empty(), rows);
                assert(rows + Seq::<Seq<Datum>>::empty() =~= rows);
            }
        }
        match reader.next(f) {
            None => {
                return ingestion.commit(destination);
            },
            Some(Err(e)) => return Err(e),
            Some(Ok(batch)) => {
                assert((rows + batch.content()).len() <= bytes);
                match ingestion.stage(&batch, Ghost(fields)) {
                    Err(e) => {
                        assert(false);
                        return Err(e);
                    },
                    Ok(()) => {},
                }
            },
        }
    }
}

/// A value as it stands in a record.
pub open spec fn written_value(cell: Datum, field: Field, row: int, m: FloatModel) -> Result<
    Seq<char>,
    FormatFault,
> {
    match cell {
        Datum::Null => Ok("null"@),
        Datum::Int64(n) => Ok(int_text(n as int)),
        Datum::Float64(bits) => if is_finite(bits) {
            Ok(float_text(m, bits))
        } else {
            Err(
                FormatFault::Conversion {
                    row: (row + 1) as u64,
                    column: field.name@,
                    data_type: DataType::Float64,
                    value: float_text(m, bits),
                },
            )
        },
        Datum::Bool(b) => Ok(if b { "true"@ } else { "false"@ }),
        Datum::Text(s) => Ok(json_quoted(s)),
    }
}

/// The fields of a record from column `c` on, behind `done`.
pub open spec fn written_members(
    cells: Seq<Datum>,
    fields: Seq<Field>,
    row: int,
    m: FloatModel,
    c: int,
    done: Seq<u8>,
) -> Result<Seq<u8>, FormatFault>
    decreases cells.len() - c,
{
    if !(0 <= c < cells.len()) {
        Ok(done)
    } else {
        match written_value(cells[c], fields[c], row, m) {
            Err(fault) => Err(fault),
            Ok(text) => written_members(
                cells,
                fields,
                row,
                m,
                c + 1,
                (if c == 0 { done } else { done.push(44) }) + utf8(json_quoted(fields[c].name@))
                    + seq![58u8] + utf8(text),
            ),
        }
    }
}

/// Rows as lines, from row `row` on, behind `done`.
pub open spec fn written_lines(
    rows: Seq<Seq<Datum>>,
    fields: Seq<Field>,
    m: FloatModel,
    row: int,
    done: Seq<u8>,
) -> Result<Seq<u8>, FormatFault>
    decreases rows.len() - row,
{
    if !(0 <= row < rows.len()) {
        Ok(done)
    } else {
        match written_members(rows[row], fields, row, m, 0, done.push(123)) {
            Err(fault) => Err(fault),
            Ok(bytes) => written_lines(rows, fields, m, row + 1, bytes.push(125).push(10)),
        }
    }
}

/// The bytes of a record from column `c` on, behind `done`, up to the first value that cannot
/// be written.
pub open spec fn members_begun(
    cells: Seq<Datum>,
    fields: Seq<Field>,
    row: int,
    m: FloatModel,
    c: int,
    done: Seq<u8>,
) -> Seq<u8>
    decreases cells.len() - c,
{
    if !(0 <= c < cells.len()) {
        done
    } else {
        let named = (if c == 0 { done } else { done.push(44) }) + utf8(json_quoted(fields[c].name@))
            + seq![58u8];
        match written_value(cells[c], fields[c], row, m) {
            Err(_) => named,
            Ok(text) => members_begun(cells, fields, row, m, c + 1, named + utf8(text)),
        }
    }
}

/// The bytes of rows from row `row` on, behind `done`, up to the first value that cannot be
/// written.
pub open spec fn lines_begun(
    rows: Seq<Seq<Datum>>,
    fields: Seq<Field>,
    m: FloatModel,
    row: int,
    done: Seq<u8>,
) -> Seq<u8>
    decreases rows.len() - row,
{
    if !(0 <= row < rows.len()) {
        done
    } else {
        match written_members(rows[row], fields, row, m, 0, done.push(123)) {
            Err(_) => members_begun(rows[row], fields, row, m, 0, done.push(123)),
            Ok(bytes) => lines_begun(rows, fields, m, row + 1, bytes.push(125).push(10)),
        }
    }
}

/// The bytes that are written before the first value that cannot be written.
pub open spec fn ndjson_begun(rows: Seq<Seq<Datum>>, fields: Seq<Field>, m: FloatModel) -> Seq<u8> {
    lines_begun(rows, fields, m, 0, Seq::empty())
}

/// Rows as newline-delimited JSON, or why they cannot be written.
pub open spec fn ndjson_written(rows: Seq<Seq<Datum>>, fields: Seq<Field>, m: FloatModel) -> Result<
    Seq<u8>,
    FormatFault,
> {
    written_lines(rows, fields, m, 0, Seq::empty())
}

fn append_value<F: Fn(FloatRequest) -> FloatReply>(
    target: &mut Vec<u8>,
    cell: &Value,
    field: &Field,
    row: usize,
    f: &F,
) -> (r: Result<(), FormatError>)
    requires
        answers_floats(*f),
        row < usize::MAX,
    ensures
        match written_value(cell@, *field, row as int, float_model(*f)) {
            Err(fault) => final(target)@ == old(target)@ && (r matches Err(e) && e@ == fault),
            Ok(text) => r is Ok && final(target)@ == old(target)@ + utf8(text),
        },
{
    match cell {
        Value::Null => append_text(target, "null"),
        Value::Int64(n) => append_text(target, i64_text(*n).as_str()),
        Value::Float64(bits) => {
            let text = display_float(f, *bits);
            if !finite(*bits) {
                return Err(
                    FormatError::Conversion {
                        row: row as u64 + 1,
                        column: field.name.clone(),
                        data_type: DataType::Float64,
                        value: text,
                    },
                );
            }
            append_text(target, text.as_str())
        },
        Value::Bool(b) => append_text(target, if *b { "true" } else { "false" }),
        Value::String(s) => append_text(target, json_string(s.as_str()).as_str()),
    }
    Ok(())
}

#[verifier::loop_isolation(false)]
fn write_ndjson_columns<F: Fn(FloatRequest) -> FloatReply>(
    output: &mut Vec<u8>,
    schema: &Schema,
    columns: &Vec<Column>,
    rows: usize,
    f: &F,
) -> (r: Result<(), FormatError>)
    requires
        answers_floats(*f),
        shaped(columns@, schema.fields@, rows as nat),
    ensures
        ({
            let content = rows_of(columns@, rows as nat);
            let m = float_model(*f);
            handed_over(
                r,
                old(output)@,
                final(output)@,
                ndjson_written(content, schema.fields@, m),
                ndjson_begun(content, schema.fields@, m),
            )
        }),
{
    let ghost all = rows_of(columns@, rows as nat);
    let ghost fields = schema.fields@;
    let ghost m = float_model(*f);
    let width = columns.len();
    let mut bytes: Vec<u8> = Vec::new();
    let mut row: usize = 0;
    assert(bytes@ =~= Seq::<u8>::empty());
    while row < rows
        invariant
            row <= rows,
            output@ == old(output)@,
            ndjson_written(all, fields, m) == written_lines(all, fields, m, row as int, bytes@),
            ndjson_begun(all, fields, m) == lines_begun(all, fields, m, row as int, bytes@),
        decreases rows - row,
    {
        let ghost cells = row_at(columns@, row as int);
        assert(all[row as int] == cells);
        bytes.push(123);
        let ghost first = bytes@;
        let mut c: usize = 0;
        while c < width
            invariant
                c <= width,
                output@ == old(output)@,
                written_members(cells, fields, row as int, m, 0, first) == written_members(
                    cells,
                    fields,
                    row as int,
                    m,
                    c as int,
                    bytes@,
                ),
                members_begun(cells, fields, row as int, m, 0, first) == members_begun(
                    cells,
                    fields,
                    row as int,
                    m,
                    c as int,
                    bytes@,
                ),
            decreases width - c,
        {
            assert(column_suits(columns@[c as int], fields[c as int], rows as nat));
            if c != 0 {
                bytes.push(44);
            }
            append_text(&mut bytes, json_string(schema.fields[c].name.as_str()).as_str());
            let ghost named = bytes@;
            bytes.push(58);
            assert(bytes@ =~= named + seq![58u8]);
            let value = columns[c].value(row);
            assert(value@ == cells[c as int]);
            match append_value(&mut bytes, &value, &schema.fields[c], row, f) {
                Err(e) => {
                    append_bytes(output, &bytes);
                    return Err(e);
                },
                Ok(()) => {},
            }
            c = c + 1;
        }
        bytes.push(125);
        bytes.push(10);
        row = row + 1;
    }
    append_bytes(output, &bytes);
    Ok(())
}

/// Writes a table as one compact JSON object per line behind an output. On a failure the
/// output holds what comes before the value that cannot be written.
pub fn export_ndjson<F: Fn(FloatRequest) -> FloatReply>(output: &mut Vec<u8>, table: &Table, f: &F) -> (r:
    Result<(), FormatError>)
    requires
        table.wf(),
        answers_floats(*f),
    ensures
        handed_over(
            r,
            old(output)@,
            final(output)@,
            ndjson_written(table.content(), table.fields(), float_model(*f)),
            ndjson_begun(table.content(), table.fields(), float_model(*f)),
        ),
{
    write_ndjson_columns(output, table.schema(), table.columns(), table.rows(), f)
}

/// Writes a batch as one compact JSON object per line behind an output, if its columns suit
/// the schema. On a failure the output holds what comes before the value that cannot be
/// written.
pub fn write_ndjson_batch<F: Fn(FloatRequest) -> FloatReply>(
    output: &mut Vec<u8>,
    schema: &Schema,
    batch: &ColumnBatch,
    f: &F,
) -> (r: Result<(), FormatError>)
    requires
        batch.wf(),
        answers_floats(*f),
    ensures
        match batch_check(batch.parts(), schema.fields@) {
            Err(fault) => {
                &&& r matches Err(e) && e@ == FormatFault::Storage(fault)
                &&& final(output)@ == old(output)@
            },
            Ok(()) => handed_over(
                r,
                old(output)@,
                final(output)@,
                ndjson_written(batch.content(), schema.fields@, float_model(*f)),
                ndjson_begun(batch.content(), schema.fields@, float_model(*f)),
            ),
        },
{
    match ColumnBatch::validate(schema, batch.columns()) {
        Err(e) => return Err(FormatError::Storage(e)),
        Ok(()) => {},
    }
    proof {
        checked_columns_suit(batch.parts(), schema.fields@);
    }
    write_ndjson_columns(output, schema, batch.columns(), batch.rows(), f)
}

} // verus!
