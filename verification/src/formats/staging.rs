//! Batches staged as bytes before a table takes them.

use vstd::prelude::*;
use vstd::bytes::{lemma_auto_spec_u64_to_from_le_bytes, spec_u64_from_le_bytes, spec_u64_to_le_bytes, u64_from_le_bytes, u64_to_le_bytes};
use vstd::utf8::{decode_utf8, encode_utf8_decode_utf8, encode_utf8_valid_utf8, valid_utf8};
use crate::bytes::{append_bytes, bytes_are, copy_range, text_bytes, text_from_utf8, utf8};
use crate::columnar::{checked_columns_suit, column_suits, columns_fault, null_from, row_at, rows_of, shaped, suiting_columns_pass, suits, Column, ColumnBatch, Field, Schema, StorageFault, Table};
use crate::formats::limits::{formatted, FormatError, FormatFault};
use crate::types::{DataType, Datum, Value};

verus! {

/// The eight bytes of a number, lowest first.
pub open spec fn number_code(n: u64) -> Seq<u8> {
    spec_u64_to_le_bytes(n)
}

/// The bytes of a cell: whether it is present, and its value.
pub open spec fn cell_code(cell: Datum) -> Seq<u8> {
    match cell {
        Datum::Null => seq![0u8],
        Datum::Int64(n) => seq![1u8] + number_code(n as u64),
        Datum::Float64(bits) => seq![1u8] + number_code(bits),
        Datum::Bool(b) => seq![1u8] + seq![if b { 1u8 } else { 0u8 }],
        Datum::Text(s) => seq![1u8] + (number_code(utf8(s).len() as u64) + utf8(s)),
    }
}

/// The bytes of cells from row `row` on.
pub open spec fn cells_code(cells: Seq<Datum>, row: int) -> Seq<u8>
    decreases cells.len() - row,
{
    if !(0 <= row < cells.len()) {
        Seq::empty()
    } else {
        cell_code(cells[row]) + cells_code(cells, row + 1)
    }
}

/// The bytes of columns from position `c` on.
pub open spec fn columns_code(columns: Seq<Column>, c: int) -> Seq<u8>
    decreases columns.len() - c,
{
    if !(0 <= c < columns.len()) {
        Seq::empty()
    } else {
        cells_code(columns[c].cells(), 0) + columns_code(columns, c + 1)
    }
}

/// The bytes of a batch: its number of rows, then its columns.
pub open spec fn batch_code(batch: ColumnBatch) -> Seq<u8> {
    number_code(batch.height() as u64) + columns_code(batch.parts(), 0)
}

/// The bytes of batches from position `i` on.
pub open spec fn batches_code(batches: Seq<ColumnBatch>, i: int) -> Seq<u8>
    decreases batches.len() - i,
{
    if !(0 <= i < batches.len()) {
        Seq::empty()
    } else {
        batch_code(batches[i]) + batches_code(batches, i + 1)
    }
}

fn append_number(target: &mut Vec<u8>, n: u64)
    ensures
        final(target)@ == old(target)@ + number_code(n),
{
    let bytes = u64_to_le_bytes(n);
    append_bytes(target, &bytes);
}

/// Whether the length of a text is a machine integer.
pub open spec fn text_fits(cell: Datum) -> bool {
    cell matches Datum::Text(s) ==> utf8(s).len() <= usize::MAX
}

/// Whether the lengths of all texts are machine integers.
pub open spec fn texts_fit(columns: Seq<Column>) -> bool {
    forall|c: int, row: int|
        #![trigger columns[c].cells()[row]]
        0 <= c < columns.len() && 0 <= row < columns[c].height() ==> text_fits(
            columns[c].cells()[row],
        )
}

fn append_cell(target: &mut Vec<u8>, cell: &Value)
    ensures
        final(target)@ == old(target)@ + cell_code(cell@),
        text_fits(cell@),
{
    let ghost before = target@;
    match cell {
        Value::Null => {
            target.push(0);
        },
        Value::Int64(n) => {
            target.push(1);
            append_number(target, *n as u64);
        },
        Value::Float64(bits) => {
            target.push(1);
            append_number(target, *bits);
        },
        Value::Bool(b) => {
            target.push(1);
            target.push(if *b { 1 } else { 0 });
        },
        Value::String(s) => {
            target.push(1);
            let bytes = text_bytes(s.as_str());
            append_number(target, bytes.len() as u64);
            append_bytes(target, &bytes);
        },
    }
    assert(target@ =~= before + cell_code(cell@));
}

fn append_column(target: &mut Vec<u8>, column: &Column)
    ensures
        final(target)@ == old(target)@ + cells_code(column.cells(), 0),
        forall|row: int| 0 <= row < column.height() ==> text_fits(#[trigger] column.cells()[row]),
{
    let ghost all = old(target)@ + cells_code(column.cells(), 0);
    let mut row: usize = 0;
    while row < column.len()
        invariant
            row <= column.height(),
            forall|r: int| 0 <= r < row ==> text_fits(#[trigger] column.cells()[r]),
            target@ + cells_code(column.cells(), row as int) == all,
        decreases column.height() - row,
    {
        let cell = column.value(row);
        let ghost before = target@;
        append_cell(target, &cell);
        assert(column.cells()[row as int] == cell@);
        assert(target@ + cells_code(column.cells(), row + 1) =~= before + cells_code(
            column.cells(),
            row as int,
        ));
        row = row + 1;
    }
    assert(target@ =~= all);
}

/// Returns the bytes of a batch.
pub fn encode_batch(batch: &ColumnBatch) -> (bytes: Vec<u8>)
    ensures
        bytes@ == batch_code(*batch),
        texts_fit(batch.parts()),
{
    let mut bytes: Vec<u8> = Vec::new();
    append_number(&mut bytes, batch.rows() as u64);
    let columns = batch.columns();
    let ghost all = batch_code(*batch);
    assert(bytes@ + columns_code(columns@, 0) =~= all);
    let mut c: usize = 0;
    while c < columns.len()
        invariant
            c <= columns.len(),
            columns@ == batch.parts(),
            forall|k: int, row: int|
                #![trigger columns@[k].cells()[row]]
                0 <= k < c && 0 <= row < columns@[k].height() ==> text_fits(columns@[k].cells()[row]),
            bytes@ + columns_code(columns@, c as int) == all,
        decreases columns.len() - c,
    {
        let ghost before = bytes@;
        append_column(&mut bytes, &columns[c]);
        assert(bytes@ + columns_code(columns@, c + 1) =~= before + columns_code(columns@, c as int));
        c = c + 1;
    }
    assert(bytes@ =~= all);
    bytes
}

/// The failure of bytes that end too early.
pub open spec fn cut_short() -> FormatFault {
    FormatFault::Io("failed to fill whole buffer"@)
}

fn cut_error() -> (e: FormatError)
    ensures
        e@ == cut_short(),
{
    FormatError::Io("failed to fill whole buffer".to_owned())
}

/// The number at a position.
pub open spec fn number_at(bytes: Seq<u8>, position: int) -> Result<u64, FormatFault> {
    if position + 8 > bytes.len() {
        Err(cut_short())
    } else {
        Ok(spec_u64_from_le_bytes(bytes.subrange(position, position + 8)))
    }
}

fn read_number(bytes: &Vec<u8>, position: usize) -> (r: Result<u64, FormatError>)
    requires
        position <= bytes@.len(),
    ensures
        formatted(r) == number_at(bytes@, position as int),
        r is Ok ==> position + 8 <= bytes.len(),
{
    if bytes.len() - position < 8 {
        return Err(cut_error());
    }
    let part = copy_range(bytes, position, position + 8);
    Ok(u64_from_le_bytes(part.as_slice()))
}

/// The value behind a marker of presence, and the position behind it.
pub open spec fn value_at(bytes: Seq<u8>, position: int, data_type: DataType) -> Result<
    (Datum, int),
    FormatFault,
> {
    match data_type {
        DataType::Int64 => match number_at(bytes, position) {
            Err(fault) => Err(fault),
            Ok(n) => Ok((Datum::Int64(n as i64), position + 8)),
        },
        DataType::Float64 => match number_at(bytes, position) {
            Err(fault) => Err(fault),
            Ok(n) => Ok((Datum::Float64(n), position + 8)),
        },
        DataType::Bool => if position >= bytes.len() {
            Err(cut_short())
        } else if bytes[position] == 0 {
            Ok((Datum::Bool(false), position + 1))
        } else if bytes[position] == 1 {
            Ok((Datum::Bool(true), position + 1))
        } else {
            Err(FormatFault::Staging("invalid staged Boolean"@))
        },
        DataType::String => match number_at(bytes, position) {
            Err(fault) => Err(fault),
            Ok(n) => if n > usize::MAX {
                Err(FormatFault::Staging("staged string is too large"@))
            } else if position + 8 + n > bytes.len() {
                Err(cut_short())
            } else if !valid_utf8(bytes.subrange(position + 8, position + 8 + n)) {
                Err(FormatFault::Staging("staged string is not UTF-8"@))
            } else {
                Ok(
                    (
                        Datum::Text(decode_utf8(bytes.subrange(position + 8, position + 8 + n))),
                        position + 8 + n,
                    ),
                )
            },
        },
    }
}

/// The cell at a position, and the position behind it.
pub open spec fn cell_at(bytes: Seq<u8>, position: int, data_type: DataType) -> Result<
    (Datum, int),
    FormatFault,
> {
    if position >= bytes.len() {
        Err(cut_short())
    } else if bytes[position] == 0 {
        Ok((Datum::Null, position + 1))
    } else if bytes[position] == 1 {
        value_at(bytes, position + 1, data_type)
    } else {
        Err(FormatFault::Staging("invalid staged presence marker"@))
    }
}

/// The content of a cell that was read, with the position behind it.
pub open spec fn cell_read(r: Result<(Value, usize), FormatError>) -> Result<(Datum, int), FormatFault> {
    match r {
        Ok((v, p)) => Ok((v@, p as int)),
        Err(e) => Err(e@),
    }
}

fn read_value(bytes: &Vec<u8>, position: usize, data_type: DataType) -> (r: Result<
    (Value, usize),
    FormatError,
>)
    requires
        position <= bytes@.len(),
    ensures
        cell_read(r) == value_at(bytes@, position as int, data_type),
        r matches Ok((value, next)) ==> next <= bytes@.len() && suits(value@, data_type),
{
    match data_type {
        DataType::Int64 => match read_number(bytes, position) {
            Err(e) => Err(e),
            Ok(n) => Ok((Value::Int64(n as i64), position + 8)),
        },
        DataType::Float64 => match read_number(bytes, position) {
            Err(e) => Err(e),
            Ok(n) => Ok((Value::Float64(n), position + 8)),
        },
        DataType::Bool => if position >= bytes.len() {
            Err(cut_error())
        } else if bytes[position] == 0 {
            Ok((Value::Bool(false), position + 1))
        } else if bytes[position] == 1 {
            Ok((Value::Bool(true), position + 1))
        } else {
            Err(FormatError::Staging("invalid staged Boolean".to_owned()))
        },
        DataType::String => match read_number(bytes, position) {
            Err(e) => Err(e),
            Ok(n) => {
                if n > usize::MAX as u64 {
                    return Err(FormatError::Staging("staged string is too large".to_owned()));
                }
                let n = n as usize;
                let from = position + 8;
                if bytes.len() - from < n {
                    return Err(cut_error());
                }
                match text_from_utf8(copy_range(bytes, from, from + n)) {
                    None => Err(FormatError::Staging("staged string is not UTF-8".to_owned())),
                    Some(text) => Ok((Value::String(text), from + n)),
                }
            },
        },
    }
}

fn read_cell(bytes: &Vec<u8>, position: usize, data_type: DataType) -> (r: Result<
    (Value, usize),
    FormatError,
>)
    requires
        position <= bytes@.len(),
    ensures
        cell_read(r) == cell_at(bytes@, position as int, data_type),
        r matches Ok((value, next)) ==> next <= bytes@.len() && suits(value@, data_type),
{
    if position >= bytes.len() {
        Err(cut_error())
    } else if bytes[position] == 0 {
        Ok((Value::Null, position + 1))
    } else if bytes[position] == 1 {
        read_value(bytes, position + 1, data_type)
    } else {
        Err(FormatError::Staging("invalid staged presence marker".to_owned()))
    }
}

/// `n` cells from a position on, behind `cells`, and the position behind them.
pub open spec fn cells_at(
    bytes: Seq<u8>,
    position: int,
    data_type: DataType,
    n: nat,
    cells: Seq<Datum>,
) -> Result<(Seq<Datum>, int), FormatFault>
    decreases n,
{
    if n == 0 {
        Ok((cells, position))
    } else {
        match cell_at(bytes, position, data_type) {
            Err(fault) => Err(fault),
            Ok((cell, next)) => cells_at(bytes, next, data_type, (n - 1) as nat, cells.push(cell)),
        }
    }
}

/// Columns of `n` cells from a position on, behind `done`, and the position behind them.
pub open spec fn columns_at(
    bytes: Seq<u8>,
    position: int,
    fields: Seq<Field>,
    n: nat,
    done: Seq<Seq<Datum>>,
) -> Result<(Seq<Seq<Datum>>, int), FormatFault>
    decreases fields.len() - done.len(),
{
    if done.len() >= fields.len() {
        Ok((done, position))
    } else {
        match cells_at(bytes, position, fields[done.len() as int].data_type, n, Seq::empty()) {
            Err(fault) => Err(fault),
            Ok((cells, next)) => columns_at(bytes, next, fields, n, done.push(cells)),
        }
    }
}

/// A batch that was read: its number of rows, the cells of its columns and the position
/// behind it.
pub struct BatchRead {
    pub rows: nat,
    pub columns: Seq<Seq<Datum>>,
    pub position: int,
}

/// The batch at a position, before it is checked; `None` at the end.
pub open spec fn batch_at(bytes: Seq<u8>, position: int, fields: Seq<Field>) -> Result<
    Option<BatchRead>,
    FormatFault,
> {
    if position >= bytes.len() {
        Ok(None)
    } else {
        match number_at(bytes, position) {
            Err(fault) => Err(fault),
            Ok(n) => if n > usize::MAX {
                Err(FormatFault::Staging("batch row count is too large"@))
            } else {
                match columns_at(bytes, position + 8, fields, n as nat, Seq::empty()) {
                    Err(fault) => Err(fault),
                    Ok((columns, next)) => Ok(
                        Some(BatchRead { rows: n as nat, columns, position: next }),
                    ),
                }
            },
        }
    }
}

/// The cells of columns.
pub open spec fn cells_of(columns: Seq<Column>) -> Seq<Seq<Datum>> {
    Seq::new(columns.len(), |c: int| columns[c].cells())
}

#[verifier::loop_isolation(false)]
fn read_column(bytes: &Vec<u8>, position: usize, data_type: DataType, rows: usize) -> (r: Result<
    (Column, usize),
    FormatError,
>)
    requires
        position <= bytes@.len(),
    ensures
        match r {
            Err(e) => cells_at(bytes@, position as int, data_type, rows as nat, Seq::empty())
                == Err::<(Seq<Datum>, int), FormatFault>(e@),
            Ok((column, next)) => {
                &&& column.kind() == data_type
                &&& column.height() == rows
                &&& next <= bytes@.len()
                &&& cells_at(bytes@, position as int, data_type, rows as nat, Seq::empty()) == Ok::<
                    (Seq<Datum>, int),
                    FormatFault,
                >((column.cells(), next as int))
            },
        },
{
    let mut column = Column::empty(data_type);
    let mut at = position;
    let mut row: usize = 0;
    assert(column.cells().len() == 0);
    while row < rows
        invariant
            row <= rows,
            at <= bytes@.len(),
            column.kind() == data_type,
            column.height() == row,
            cells_at(bytes@, position as int, data_type, rows as nat, Seq::empty()) == cells_at(
                bytes@,
                at as int,
                data_type,
                (rows - row) as nat,
                column.cells(),
            ),
        decreases rows - row,
    {
        match read_cell(bytes, at, data_type) {
            Err(e) => return Err(e),
            Ok((value, next)) => {
                column.push(value);
                at = next;
            },
        }
        row = row + 1;
    }
    Ok((column, at))
}

/// The first NULL among cells from row `row` on.
pub open spec fn null_at(cells: Seq<Datum>, row: int) -> Option<int>
    decreases cells.len() - row,
{
    if !(0 <= row < cells.len()) {
        None
    } else if cells[row] is Null {
        Some(row)
    } else {
        null_at(cells, row + 1)
    }
}

/// The first NULL, from column `c` on, in a column that holds none.
pub open spec fn staged_fault(columns: Seq<Seq<Datum>>, fields: Seq<Field>, c: int) -> Option<
    StorageFault,
>
    decreases columns.len() - c,
{
    if !(0 <= c < columns.len()) {
        None
    } else if !fields[c].nullable && null_at(columns[c], 0) is Some {
        Some(
            StorageFault::UnexpectedNull {
                column: fields[c].name@,
                row: null_at(columns[c], 0)->Some_0,
            },
        )
    } else {
        staged_fault(columns, fields, c + 1)
    }
}

proof fn null_at_is_null_from(column: Column, row: int)
    requires
        0 <= row <= column.height(),
    ensures
        null_at(column.cells(), row) == null_from(column, row),
    decreases column.height() - row,
{
    if row < column.height() {
        null_at_is_null_from(column, row + 1);
        assert(column.cells()[row] == column.cell(row));
    }
}

proof fn staged_fault_is_batch_fault(columns: Seq<Column>, fields: Seq<Field>, n: nat, c: int)
    requires
        columns.len() == fields.len(),
        0 <= c <= columns.len(),
        forall|k: int|
            0 <= k < columns.len() ==> (#[trigger] columns[k]).kind() == fields[k].data_type
                && columns[k].height() == n,
    ensures
        staged_fault(cells_of(columns), fields, c) == columns_fault(columns, fields, n, c),
    decreases columns.len() - c,
{
    if c < columns.len() {
        null_at_is_null_from(columns[c], 0);
        staged_fault_is_batch_fault(columns, fields, n, c + 1);
    }
}

/// Batches staged as bytes, behind a mark.
pub struct StagedBatches {
    bytes: Vec<u8>,
    position: usize,
}

/// The mark in front of staged batches.
pub open spec fn staging_mark() -> Seq<u8> {
    utf8("RHBATCH1"@)
}

impl StagedBatches {
    /// The bytes that were staged.
    pub closed spec fn staged(&self) -> Seq<u8> {
        self.bytes@
    }

    /// How far the bytes were read.
    pub closed spec fn at(&self) -> int {
        self.position as int
    }

    /// Whether the position lies within the bytes.
    pub open spec fn wf(&self) -> bool {
        0 <= self.at() <= self.staged().len()
    }

    /// Stages nothing but the mark.
    pub fn create() -> (s: StagedBatches)
        ensures
            s.wf(),
            s.staged() == staging_mark(),
    {
        StagedBatches { bytes: text_bytes("RHBATCH1"), position: 0 }
    }

    /// Takes up bytes that were staged elsewhere.
    pub fn resume(bytes: Vec<u8>) -> (s: StagedBatches)
        ensures
            s.wf(),
            s.staged() == bytes@,
            s.at() == 0,
    {
        StagedBatches { bytes, position: 0 }
    }

    /// Stages a batch.
    pub fn write_batch(&mut self, batch: &ColumnBatch)
        requires
            old(self).wf(),
        ensures
            final(self).wf(),
            final(self).staged() == old(self).staged() + batch_code(*batch),
            final(self).at() == old(self).at(),
            texts_fit(batch.parts()),
    {
        let code = encode_batch(batch);
        append_bytes(&mut self.bytes, &code);
    }

    /// Goes back to the first batch.
    pub fn rewind(&mut self) -> (r: Result<(), FormatError>)
        requires
            old(self).wf(),
        ensures
            final(self).wf(),
            final(self).staged() == old(self).staged(),
            formatted(r) == (if old(self).staged().len() < 8 {
                Err(cut_short())
            } else if old(self).staged().take(8) != staging_mark() {
                Err(FormatFault::Staging("invalid staging file header"@))
            } else {
                Ok(())
            }),
            r is Ok ==> final(self).at() == 8,
    {
        if self.bytes.len() < 8 {
            return Err(cut_error());
        }
        let mark = copy_range(&self.bytes, 0, 8);
        assert(mark@ =~= self.bytes@.take(8));
        if !bytes_are(&mark, "RHBATCH1") {
            return Err(FormatError::Staging("invalid staging file header".to_owned()));
        }
        self.position = 8;
        Ok(())
    }

    /// Reads the next batch for a schema.
    #[verifier::loop_isolation(false)]
    pub fn read_batch(&mut self, schema: &Schema) -> (r: Result<Option<ColumnBatch>, FormatError>)
        requires
            old(self).wf(),
        ensures
            final(self).wf(),
            final(self).staged() == old(self).staged(),
            match batch_at(old(self).staged(), old(self).at(), schema.fields@) {
                Err(fault) => r matches Err(e) && e@ == fault,
                Ok(None) => r matches Ok(None),
                Ok(Some(read)) => match r {
                    Ok(Some(batch)) => {
                        &&& batch.wf()
                        &&& batch.height() == read.rows
                        &&& cells_of(batch.parts()) == read.columns
                        &&& staged_fault(read.columns, schema.fields@, 0) is None
                        &&& shaped(batch.parts(), schema.fields@, batch.height())
                        &&& final(self).at() == read.position
                    },
                    Ok(None) => false,
                    Err(e) => staged_fault(read.columns, schema.fields@, 0) matches Some(fault) && e@
                        == FormatFault::Storage(fault),
                },
            },
    {
        if self.position >= self.bytes.len() {
            return Ok(None);
        }
        let n = match read_number(&self.bytes, self.position) {
            Err(e) => return Err(e),
            Ok(n) => n,
        };
        if n > usize::MAX as u64 {
            return Err(FormatError::Staging("batch row count is too large".to_owned()));
        }
        let rows = n as usize;
        let ghost fields = schema.fields@;
        let mut at = self.position + 8;
        let ghost first = at as int;
        let mut columns: Vec<Column> = Vec::new();
        assert(cells_of(columns@) =~= Seq::<Seq<Datum>>::empty());
        while columns.len() < schema.fields.len()
            invariant
                columns@.len() <= fields.len(),
                at <= self.bytes@.len(),
                forall|c: int|
                    0 <= c < columns@.len() ==> (#[trigger] columns@[c]).kind() == fields[c].data_type
                        && columns@[c].height() == rows,
                columns_at(self.bytes@, first, fields, rows as nat, Seq::empty()) == columns_at(
                    self.bytes@,
                    at as int,
                    fields,
                    rows as nat,
                    cells_of(columns@),
                ),
            decreases fields.len() - columns@.len(),
        {
            let c = columns.len();
            match read_column(&self.bytes, at, schema.fields[c].data_type, rows) {
                Err(e) => return Err(e),
                Ok((column, next)) => {
                    let ghost before = cells_of(columns@);
                    columns.push(column);
                    assert(cells_of(columns@) =~= before.push(column.cells()));
                    at = next;
                },
            }
        }
        proof {
            staged_fault_is_batch_fault(columns@, fields, rows as nat, 0);
        }
        match ColumnBatch::validate(schema, &columns) {
            Err(e) => return Err(FormatError::Storage(e)),
            Ok(()) => {},
        }
        proof {
            checked_columns_suit(columns@, fields);
        }
        self.position = at;
        Ok(Some(ColumnBatch::of(columns, rows)))
    }
}

proof fn number_reads_back(bytes: Seq<u8>, position: int, n: u64, rest: Seq<u8>)
    requires
        0 <= position <= bytes.len(),
        bytes.skip(position) == number_code(n) + rest,
    ensures
        number_at(bytes, position) == Ok::<u64, FormatFault>(n),
        position + 8 <= bytes.len(),
        bytes.skip(position + 8) == rest,
{
    lemma_auto_spec_u64_to_from_le_bytes();
    let tail = bytes.skip(position);
    assert(number_code(n).len() == 8);
    assert(tail.len() == 8 + rest.len());
    assert(bytes.subrange(position, position + 8) =~= tail.take(8));
    assert((number_code(n) + rest).take(8) =~= number_code(n));
    assert(bytes.skip(position + 8) =~= tail.skip(8));
    assert((number_code(n) + rest).skip(8) =~= rest);
}

proof fn cell_reads_back(bytes: Seq<u8>, position: int, cell: Datum, data_type: DataType, rest: Seq<u8>)
    requires
        0 <= position <= bytes.len(),
        suits(cell, data_type),
        text_fits(cell),
        bytes.skip(position) == cell_code(cell) + rest,
    ensures
        cell_at(bytes, position, data_type) == Ok::<(Datum, int), FormatFault>(
            (cell, position + cell_code(cell).len()),
        ),
        position + cell_code(cell).len() <= bytes.len(),
        bytes.skip(position + cell_code(cell).len()) == rest,
{
    let code = cell_code(cell);
    let tail = bytes.skip(position);
    assert(code.len() > 0);
    assert(tail.len() == code.len() + rest.len());
    assert(bytes[position] == tail[0]);
    assert(tail[0] == code[0]);
    assert(bytes.skip(position + code.len()) =~= tail.skip(code.len() as int));
    assert((code + rest).skip(code.len() as int) =~= rest);
    let body = code.skip(1) + rest;
    assert(bytes.skip(position + 1) =~= tail.skip(1));
    assert((code + rest).skip(1) =~= body);
    match cell {
        Datum::Null => {},
        Datum::Int64(n) => {
            assert(code.skip(1) =~= number_code(n as u64));
            number_reads_back(bytes, position + 1, n as u64, rest);
            assert((n as u64) as i64 == n) by (bit_vector);
            lemma_auto_spec_u64_to_from_le_bytes();
            assert(number_code(n as u64).len() == 8);
        },
        Datum::Float64(bits) => {
            assert(code.skip(1) =~= number_code(bits));
            number_reads_back(bytes, position + 1, bits, rest);
            lemma_auto_spec_u64_to_from_le_bytes();
            assert(number_code(bits).len() == 8);
        },
        Datum::Bool(b) => {
            assert(bytes[position + 1] == tail[1]);
            assert(tail[1] == code[1]);
        },
        Datum::Text(s) => {
            let text = utf8(s);
            let n = text.len() as u64;
            assert(code.skip(1) =~= number_code(n) + text);
            assert(code.skip(1) + rest =~= number_code(n) + (text + rest));
            number_reads_back(bytes, position + 1, n, text + rest);
            lemma_auto_spec_u64_to_from_le_bytes();
            assert(number_code(n).len() == 8);
            let after = bytes.skip(position + 9);
            assert(after.len() == text.len() + rest.len());
            assert(bytes.subrange(position + 9, position + 9 + n) =~= after.take(n as int));
            assert((text + rest).take(n as int) =~= text);
            encode_utf8_valid_utf8(s);
            encode_utf8_decode_utf8(s);
        },
    }
}

proof fn cells_read_back(
    bytes: Seq<u8>,
    position: int,
    cells: Seq<Datum>,
    row: int,
    data_type: DataType,
    rest: Seq<u8>,
)
    requires
        0 <= position <= bytes.len(),
        0 <= row <= cells.len(),
        forall|r: int|
            0 <= r < cells.len() ==> suits(#[trigger] cells[r], data_type) && text_fits(cells[r]),
        bytes.skip(position) == cells_code(cells, row) + rest,
    ensures
        cells_at(bytes, position, data_type, (cells.len() - row) as nat, cells.take(row)) == Ok::<
            (Seq<Datum>, int),
            FormatFault,
        >((cells, position + cells_code(cells, row).len())),
        position + cells_code(cells, row).len() <= bytes.len(),
        bytes.skip(position + cells_code(cells, row).len()) == rest,
    decreases cells.len() - row,
{
    if row < cells.len() {
        let code = cell_code(cells[row]);
        let more = cells_code(cells, row + 1);
        assert(cells_code(cells, row) + rest =~= code + (more + rest));
        cell_reads_back(bytes, position, cells[row], data_type, more + rest);
        cells_read_back(bytes, position + code.len(), cells, row + 1, data_type, rest);
        assert(cells.take(row).push(cells[row]) =~= cells.take(row + 1));
    } else {
        assert(cells.take(row) =~= cells);
        assert(Seq::<u8>::empty() + rest =~= rest);
    }
}

proof fn columns_read_back(
    bytes: Seq<u8>,
    position: int,
    columns: Seq<Column>,
    fields: Seq<Field>,
    n: nat,
    c: int,
    rest: Seq<u8>,
)
    requires
        0 <= position <= bytes.len(),
        0 <= c <= columns.len(),
        shaped(columns, fields, n),
        texts_fit(columns),
        bytes.skip(position) == columns_code(columns, c) + rest,
    ensures
        columns_at(bytes, position, fields, n, cells_of(columns).take(c)) == Ok::<
            (Seq<Seq<Datum>>, int),
            FormatFault,
        >((cells_of(columns), position + columns_code(columns, c).len())),
        position + columns_code(columns, c).len() <= bytes.len(),
        bytes.skip(position + columns_code(columns, c).len()) == rest,
    decreases columns.len() - c,
{
    let all = cells_of(columns);
    if c < columns.len() {
        assert(column_suits(columns[c], fields[c], n));
        let cells = columns[c].cells();
        let code = cells_code(cells, 0);
        let more = columns_code(columns, c + 1);
        assert(columns_code(columns, c) + rest =~= code + (more + rest));
        assert forall|r: int| 0 <= r < cells.len() implies suits(
            #[trigger] cells[r],
            fields[c].data_type,
        ) && text_fits(cells[r]) by {
            assert(columns[c].cells()[r] == columns[c].cell(r));
        }
        cells_read_back(bytes, position, cells, 0, fields[c].data_type, more + rest);
        assert(cells.take(0) =~= Seq::<Datum>::empty());
        columns_read_back(bytes, position + code.len(), columns, fields, n, c + 1, rest);
        assert(all.take(c).push(cells) =~= all.take(c + 1));
    } else {
        assert(all.take(c) =~= all);
        assert(Seq::<u8>::empty() + rest =~= rest);
    }
}

/// What is read of a staged batch is the batch, and what follows it follows.
pub proof fn staged_batches_read_back(
    bytes: Seq<u8>,
    position: int,
    batch: ColumnBatch,
    fields: Seq<Field>,
    rest: Seq<u8>,
)
    requires
        0 <= position <= bytes.len(),
        shaped(batch.parts(), fields, batch.height()),
        batch.height() <= usize::MAX,
        texts_fit(batch.parts()),
        bytes.skip(position) == batch_code(batch) + rest,
    ensures
        batch_at(bytes, position, fields) == Ok::<Option<BatchRead>, FormatFault>(
            Some(
                BatchRead {
                    rows: batch.height(),
                    columns: cells_of(batch.parts()),
                    position: position + batch_code(batch).len(),
                },
            ),
        ),
        position + batch_code(batch).len() <= bytes.len(),
        bytes.skip(position + batch_code(batch).len()) == rest,
{
    let n = batch.height() as u64;
    let code = columns_code(batch.parts(), 0);
    assert(batch_code(batch) + rest =~= number_code(n) + (code + rest));
    number_reads_back(bytes, position, n, code + rest);
    lemma_auto_spec_u64_to_from_le_bytes();
    assert(number_code(n).len() == 8);
    columns_read_back(bytes, position + 8, batch.parts(), fields, batch.height(), 0, rest);
    assert(cells_of(batch.parts()).take(0) =~= Seq::<Seq<Datum>>::empty());
}

proof fn batches_code_grows(batches: Seq<ColumnBatch>, batch: ColumnBatch, i: int)
    requires
        0 <= i <= batches.len(),
    ensures
        batches_code(batches.push(batch), i) == batches_code(batches, i) + batch_code(batch),
    decreases batches.len() - i,
{
    let more = batches.push(batch);
    if i < batches.len() {
        batches_code_grows(batches, batch, i + 1);
        assert(more[i] == batches[i]);
        assert(batches_code(more, i) =~= batches_code(batches, i) + batch_code(batch));
    } else {
        assert(batches_code(more, i + 1) =~= Seq::<u8>::empty());
        assert(batches_code(more, i) =~= batch_code(batch));
        assert(batches_code(batches, i) =~= Seq::<u8>::empty());
        assert(batches_code(batches, i) + batch_code(batch) =~= batch_code(batch));
    }
}

/// The rows of the first `n` batches.
pub open spec fn rows_in(batches: Seq<ColumnBatch>, n: int) -> Seq<Seq<Datum>>
    decreases n,
{
    if n <= 0 {
        Seq::empty()
    } else {
        rows_in(batches, n - 1) + batches[n - 1].content()
    }
}

proof fn same_cells_same_rows(a: Seq<Column>, b: Seq<Column>, fields: Seq<Field>, n: nat)
    requires
        cells_of(a) == cells_of(b),
        shaped(a, fields, n),
        shaped(b, fields, n),
    ensures
        rows_of(a, n) == rows_of(b, n),
{
    assert(a.len() == cells_of(a).len());
    assert(b.len() == cells_of(b).len());
    assert forall|r: int| 0 <= r < n implies row_at(a, r) == row_at(b, r) by {
        assert forall|c: int| 0 <= c < a.len() implies a[c].cell(r) == b[c].cell(r) by {
            assert(column_suits(a[c], fields[c], n));
            assert(column_suits(b[c], fields[c], n));
            assert(cells_of(a)[c] == cells_of(b)[c]);
            assert(a[c].cells()[r] == b[c].cells()[r]);
        }
        assert(row_at(a, r) =~= row_at(b, r));
    }
    assert(rows_of(a, n) =~= rows_of(b, n));
}

/// Whether batches suit a schema and can be staged.
pub open spec fn can_stage(batches: Seq<ColumnBatch>, fields: Seq<Field>) -> bool {
    forall|i: int|
        #![trigger batches[i]]
        0 <= i < batches.len() ==> {
            &&& shaped(batches[i].parts(), fields, batches[i].height())
            &&& batches[i].height() <= usize::MAX
            &&& texts_fit(batches[i].parts())
        }
}

/// A transaction: batches are staged first and reach a table together, or not at all.
pub(crate) struct Ingestion {
    staged: StagedBatches,
    total: u64,
    batches: Ghost<Seq<ColumnBatch>>,
}

impl Ingestion {
    /// The rows that were staged.
    pub(crate) closed spec fn rows(&self) -> Seq<Seq<Datum>> {
        rows_in(self.batches@, self.batches@.len() as int)
    }

    /// The number of rows that were staged.
    pub(crate) closed spec fn count(&self) -> u64 {
        self.total
    }

    /// Whether what was staged can be read back for a schema.
    pub(crate) closed spec fn wf(&self, fields: Seq<Field>) -> bool {
        &&& self.staged.wf()
        &&& self.staged.staged() == staging_mark() + batches_code(self.batches@, 0)
        &&& can_stage(self.batches@, fields)
        &&& self.rows().len() == self.total
    }

    /// Begins with nothing staged.
    pub(crate) fn begin(Ghost(fields): Ghost<Seq<Field>>) -> (s: Ingestion)
        ensures
            s.wf(fields),
            s.rows() == Seq::<Seq<Datum>>::empty(),
            s.count() == 0,
    {
        let s = Ingestion { staged: StagedBatches::create(), total: 0, batches: Ghost(Seq::empty()) };
        assert(staging_mark() + batches_code(s.batches@, 0) =~= staging_mark());
        s
    }

    /// Stages one more batch.
    pub(crate) fn stage(&mut self, batch: &ColumnBatch, Ghost(fields): Ghost<Seq<Field>>) -> (r: Result<
        (),
        FormatError,
    >)
        requires
            old(self).wf(fields),
            batch.wf(),
            shaped(batch.parts(), fields, batch.height()),
        ensures
            final(self).wf(fields),
            formatted(r) == (if old(self).count() + batch.height() > u64::MAX {
                Err(FormatFault::Staging("row count overflow"@))
            } else {
                Ok(())
            }),
            r is Ok ==> final(self).rows() == old(self).rows() + batch.content(),
            r is Ok ==> final(self).count() == old(self).count() + batch.height(),
    {
        let total = match self.total.checked_add(batch.rows() as u64) {
            None => return Err(FormatError::Staging("row count overflow".to_owned())),
            Some(total) => total,
        };
        let ghost before = self.batches@;
        self.staged.write_batch(batch);
        self.total = total;
        proof {
            batches_code_grows(before, *batch, 0);
            let after = before.push(*batch);
            assert(staging_mark() + batches_code(before, 0) + batch_code(*batch) =~= staging_mark()
                + batches_code(after, 0));
            rows_in_prefix(before, after, before.len() as int);
        }
        self.batches = Ghost(before.push(*batch));
        assert(self.rows() == rows_in(before, before.len() as int) + batch.content());
        Ok(())
    }

    /// Appends all that was staged to a table; where that fails the table keeps its rows.
    #[verifier::loop_isolation(false)]
    pub(crate) fn commit(self, destination: &mut Table) -> (r: Result<u64, FormatError>)
        requires
            old(destination).wf(),
            self.wf(old(destination).fields()),
        ensures
            final(destination).wf(),
            final(destination).fields() == old(destination).fields(),
            if old(destination).height() + self.rows().len() > usize::MAX {
                &&& formatted(r) == Err::<u64, FormatFault>(
                    FormatFault::Storage(StorageFault::TooManyRows),
                )
                &&& final(destination).content() == old(destination).content()
            } else {
                &&& r matches Ok(n) && n == self.count()
                &&& final(destination).content() == old(destination).content() + self.rows()
            },
    {
        let ghost fields = destination.fields();
        let ghost batches = self.batches@;
        let ghost all = self.rows();
        let ghost held = destination.content();
        let total = self.total;
        let mut staged = self.staged;
        let ghost code = batches_code(batches, 0);
        proof {
            reveal_strlit("RHBATCH1");
            mark_length();
            assert((staging_mark() + code).take(8) =~= staging_mark());
            assert((staging_mark() + code).skip(8) =~= code);
        }
        match staged.rewind() {
            Err(e) => {
                assert(false);
                return Err(e);
            },
            Ok(()) => {},
        }
        let original_rows = destination.rows();
        let ghost mut i: int = 0;
        assert(held + rows_in(batches, 0) =~= held);
        loop
            invariant
                0 <= i <= batches.len(),
                staged.wf(),
                staged.staged() == staging_mark() + code,
                staged.staged().skip(staged.at()) == batches_code(batches, i),
                can_stage(batches, fields),
                destination.wf(),
                destination.fields() == fields,
                destination.content() == held + rows_in(batches, i),
                destination.height() == original_rows + rows_in(batches, i).len(),
                destination.height() <= usize::MAX,
            decreases batches.len() - i,
        {
            let ghost rest = batches_code(batches, i + 1);
            proof {
                if i < batches.len() {
                    staged_batches_read_back(staged.staged(), staged.at(), batches[i], fields, rest);
                    rows_in_grows(batches, i + 1, batches.len() as int);
                } else {
                    assert(staged.staged().skip(staged.at()).len() == 0);
                }
            }
            let ghost at = staged.at();
            match staged.read_batch(destination.schema()) {
                Err(e) => {
                    proof {
                        if i < batches.len() {
                            let columns = batches[i].parts();
                            let n = batches[i].height();
                            assert forall|k: int| 0 <= k < columns.len() implies (
                            #[trigger] columns[k]).kind() == fields[k].data_type
                                && columns[k].height() == n by {
                                assert(column_suits(columns[k], fields[k], n));
                            }
                            staged_fault_is_batch_fault(columns, fields, n, 0);
                            suiting_columns_pass(columns, fields, n);
                        }
                    }
                    destination.truncate(original_rows);
                    return Err(e);
                },
                Ok(None) => {
                    assert(i == batches.len());
                    return Ok(total);
                },
                Ok(Some(batch)) => {
                    proof {
                        same_cells_same_rows(
                            batch.parts(),
                            batches[i].parts(),
                            fields,
                            batch.height(),
                        );
                        checked_columns_suit(batch.parts(), fields);
                    }
                    match destination.append_batch(&batch) {
                        Err(e) => {
                            destination.truncate(original_rows);
                            assert(destination.content() =~= held);
                            return Err(FormatError::Storage(e));
                        },
                        Ok(()) => {
                            proof {
                                assert(held + rows_in(batches, i) + batch.content()
                                    =~= held + rows_in(batches, i + 1));
                            }
                        },
                    }
                },
            }
            proof {
                i = i + 1;
            }
        }
    }
}

proof fn mark_length()
    ensures
        staging_mark().len() == 8,
{
    reveal_strlit("RHBATCH1");
    let s = "RHBATCH1"@;
    assert(vstd::utf8::is_ascii_chars(s));
    vstd::utf8::is_ascii_chars_encode_utf8(s);
}

proof fn rows_in_prefix(before: Seq<ColumnBatch>, after: Seq<ColumnBatch>, n: int)
    requires
        n <= before.len() <= after.len(),
        forall|i: int| 0 <= i < before.len() ==> #[trigger] before[i] == after[i],
    ensures
        rows_in(before, n) == rows_in(after, n),
    decreases n,
{
    if n > 0 {
        rows_in_prefix(before, after, n - 1);
        assert(before[n - 1] == after[n - 1]);
    }
}

proof fn rows_in_grows(batches: Seq<ColumnBatch>, i: int, n: int)
    requires
        i <= n,
    ensures
        rows_in(batches, i).len() <= rows_in(batches, n).len(),
    decreases n - i,
{
    if i < n {
        rows_in_grows(batches, i, n - 1);
    }
}

} // verus!
