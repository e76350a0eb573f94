//! What is read of CSV that was written.

use vstd::prelude::*;
use vstd::utf8::{decode_utf8, encode_utf8_decode_utf8, encode_utf8_valid_utf8};
use crate::bytes::utf8;
use crate::columnar::{row_suits, suits, Field};
use crate::float::{float_parsed, float_text, FloatModel};
use crate::formats::csv::{cells_from, csv_ingested, field_cell, field_names, has_special, header_from, is_special, options_check, record_at, record_from, record_step, row_next, rows_from, unread, CellText, CsvOptions, RecordRead, RecordState, RecordStep, RowCursor};
use crate::formats::csv_export::{cell_text, csv_written, doubled, line, needs_quotes, quoted, written_cell, written_fields, written_fields_extend, written_names, written_row, written_rows, CsvExportOptions};
use crate::formats::limits::{row_behind, FormatFault, FormatLimits};
use crate::formats::with_names::{quoted_fields, quoted_record};
use crate::text::{decimal_round_trip, utf8_len};
use crate::types::{DataType, Datum};

verus! {

/// Whether written bytes are read as a field.
pub open spec fn reads_as(bytes: Seq<u8>, cell: CellText, delimiter: u8) -> bool {
    if cell.quoted {
        bytes == quoted(cell.bytes)
    } else {
        bytes == cell.bytes && !has_special(bytes, delimiter)
    }
}

/// Whether nothing of a field was read.
spec fn at_field(s: RecordState) -> bool {
    s.field.len() == 0 && !s.quoted && s.at_start && !s.in_quotes && !s.closed
}

spec fn plain_state(s: RecordState, w: Seq<u8>, k: int) -> RecordState {
    RecordState {
        field: w.take(k),
        at_start: k == 0,
        seen: s.seen || k > 0,
        size: (s.size + k) as usize,
        ..s
    }
}

proof fn plain_bytes_read(
    input: Seq<u8>,
    p: int,
    w: Seq<u8>,
    k: int,
    s: RecordState,
    d: u8,
    limits: FormatLimits,
    row: u64,
)
    requires
        0 <= k <= w.len(),
        0 <= p,
        p + w.len() <= input.len() <= limits.max_input_bytes,
        input.subrange(p, p + w.len()) == w,
        !has_special(w, d),
        w.len() <= limits.max_field_bytes,
        s.size + w.len() <= limits.max_record_bytes,
        at_field(s),
    ensures
        record_from(input, p + k, plain_state(s, w, k), d, limits, row) == record_from(
            input,
            p + w.len(),
            plain_state(s, w, w.len() as int),
            d,
            limits,
            row,
        ),
    decreases w.len() - k,
{
    if k < w.len() {
        let b = w[k];
        assert(input.subrange(p, p + w.len())[k] == input[p + k]);
        assert(!is_special(w[k], d));
        assert(w.take(k).push(b) =~= w.take(k + 1));
        let here = plain_state(s, w, k);
        let next = plain_state(s, w, k + 1);
        assert(record_step(here, b, d, limits, row) == RecordStep::More(next));
        plain_bytes_read(input, p, w, k + 1, s, d, limits, row);
    }
}

proof fn doubled_grows(bytes: Seq<u8>, j: int, n: int)
    requires
        0 <= j <= n <= bytes.len(),
    ensures
        doubled(bytes, j).len() <= doubled(bytes, n).len(),
        doubled(bytes, n).take(doubled(bytes, j).len() as int) == doubled(bytes, j),
        bytes.len() >= n ==> n <= doubled(bytes, n).len(),
    decreases n,
{
    if j < n {
        doubled_grows(bytes, j, n - 1);
        let a = doubled(bytes, j).len() as int;
        assert(doubled(bytes, n).take(a) =~= doubled(bytes, n - 1).take(a));
    } else {
        assert(doubled(bytes, n).take(doubled(bytes, n).len() as int) =~= doubled(bytes, n));
        if n > 0 {
            doubled_grows(bytes, n - 1, n - 1);
        }
    }
}

spec fn quoted_state(s: RecordState, bytes: Seq<u8>, j: int) -> RecordState {
    RecordState {
        field: bytes.take(j),
        quoted: true,
        at_start: false,
        in_quotes: true,
        closed: false,
        seen: true,
        size: (s.size + 1 + doubled(bytes, j).len()) as usize,
        ..s
    }
}

proof fn quoted_bytes_read(
    input: Seq<u8>,
    p: int,
    bytes: Seq<u8>,
    j: int,
    s: RecordState,
    d: u8,
    limits: FormatLimits,
    row: u64,
)
    requires
        0 <= j <= bytes.len(),
        0 <= p,
        p + quoted(bytes).len() <= input.len() <= limits.max_input_bytes,
        input.subrange(p, p + quoted(bytes).len()) == quoted(bytes),
        bytes.len() <= limits.max_field_bytes,
        s.size + quoted(bytes).len() <= limits.max_record_bytes,
        at_field(s),
    ensures
        record_from(
            input,
            p + 1 + doubled(bytes, j).len(),
            quoted_state(s, bytes, j),
            d,
            limits,
            row,
        ) == record_from(
            input,
            p + 1 + doubled(bytes, bytes.len() as int).len(),
            quoted_state(s, bytes, bytes.len() as int),
            d,
            limits,
            row,
        ),
    decreases bytes.len() - j,
{
    let n = bytes.len() as int;
    if j < n {
        let b = bytes[j];
        let w = quoted(bytes);
        let at = 1 + doubled(bytes, j).len() as int;
        doubled_grows(bytes, j, n);
        doubled_grows(bytes, j + 1, n);
        let whole = doubled(bytes, n);
        let more = doubled(bytes, j + 1);
        assert(input.subrange(p, p + w.len())[at] == input[p + at]);
        assert(w[at] == whole[at - 1]);
        assert(whole.take(more.len() as int)[at - 1] == more[at - 1]);
        assert(more[at - 1] == b);
        assert(bytes.take(j).push(b) =~= bytes.take(j + 1));
        let here = quoted_state(s, bytes, j);
        let next = quoted_state(s, bytes, j + 1);
        if b == 34 {
            let shut = RecordState {
                in_quotes: false,
                closed: true,
                size: (here.size + 1) as usize,
                ..here
            };
            assert(record_step(here, 34, d, limits, row) == RecordStep::More(shut));
            assert(input.subrange(p, p + w.len())[at + 1] == input[p + at + 1]);
            assert(w[at + 1] == whole[at]);
            assert(whole.take(more.len() as int)[at] == more[at]);
            assert(more[at] == 34);
            assert(record_step(shut, 34, d, limits, row) == RecordStep::More(next));
            reveal_with_fuel(record_from, 3);
        } else {
            assert(record_step(here, b, d, limits, row) == RecordStep::More(next));
        }
        quoted_bytes_read(input, p, bytes, j + 1, s, d, limits, row);
    }
}

spec fn field_state(s: RecordState, w: Seq<u8>, cell: CellText) -> RecordState {
    RecordState {
        field: cell.bytes,
        quoted: cell.quoted,
        at_start: w.len() == 0,
        closed: cell.quoted,
        seen: s.seen || w.len() > 0,
        size: (s.size + w.len()) as usize,
        ..s
    }
}

proof fn field_reads(
    input: Seq<u8>,
    p: int,
    w: Seq<u8>,
    cell: CellText,
    s: RecordState,
    d: u8,
    limits: FormatLimits,
    row: u64,
)
    requires
        reads_as(w, cell, d),
        0 <= p,
        p + w.len() <= input.len() <= limits.max_input_bytes,
        input.subrange(p, p + w.len()) == w,
        cell.bytes.len() <= limits.max_field_bytes,
        s.size + w.len() <= limits.max_record_bytes,
        at_field(s),
        d != 34,
    ensures
        record_from(input, p, s, d, limits, row) == record_from(
            input,
            p + w.len(),
            field_state(s, w, cell),
            d,
            limits,
            row,
        ),
{
    if cell.quoted {
        let bytes = cell.bytes;
        let n = bytes.len() as int;
        let body = doubled(bytes, n);
        assert(input.subrange(p, p + w.len())[0] == input[p]);
        assert(w[0] == 34);
        let first = quoted_state(s, bytes, 0);
        assert(bytes.take(0) =~= s.field);
        assert(record_step(s, 34, d, limits, row) == RecordStep::More(first));
        quoted_bytes_read(input, p, bytes, 0, s, d, limits, row);
        let last = quoted_state(s, bytes, n);
        let at = 1 + body.len() as int;
        assert(input.subrange(p, p + w.len())[at] == input[p + at]);
        assert(w[at] == 34);
        assert(bytes.take(n) =~= bytes);
        assert(record_step(last, 34, d, limits, row) == RecordStep::More(field_state(s, w, cell)));
        assert(record_from(input, p, s, d, limits, row) == record_from(
            input,
            p + 1,
            first,
            d,
            limits,
            row,
        ));
        assert(record_from(input, p + at, last, d, limits, row) == record_from(
            input,
            p + at + 1,
            field_state(s, w, cell),
            d,
            limits,
            row,
        ));
    } else {
        plain_bytes_read(input, p, w, 0, s, d, limits, row);
        assert(w.take(0) =~= s.field);
        assert(w.take(w.len() as int) =~= w);
        assert(plain_state(s, w, 0) == s);
        assert(plain_state(s, w, w.len() as int) == field_state(s, w, cell));
    }
}

/// Whether fields can be read within the limits of a record.
spec fn cells_fit(cells: Seq<CellText>, limits: FormatLimits) -> bool {
    forall|i: int| 0 <= i < cells.len() ==> (#[trigger] cells[i]).bytes.len() <= limits.max_field_bytes
}

proof fn line_reads(
    input: Seq<u8>,
    p: int,
    list: Seq<Seq<u8>>,
    cells: Seq<CellText>,
    c: int,
    s: RecordState,
    d: u8,
    limits: FormatLimits,
    row: u64,
)
    requires
        0 <= c < list.len() == cells.len(),
        forall|i: int| 0 <= i < list.len() ==> reads_as(#[trigger] list[i], cells[i], d),
        cells_fit(cells, limits),
        cells.len() <= limits.max_fields_per_row,
        0 <= p,
        p + line(list, d, c).len() <= input.len() <= limits.max_input_bytes,
        input.subrange(p, p + line(list, d, c).len()) == line(list, d, c),
        s.size + line(list, d, c).len() - 1 <= limits.max_record_bytes,
        at_field(s),
        s.fields == cells.take(c),
        d != 34,
        d != 10,
        d != 13,
    ensures
        record_from(input, p, s, d, limits, row) == Ok::<Option<RecordRead>, FormatFault>(
            Some(
                RecordRead {
                    fields: cells,
                    position: p + line(list, d, c).len(),
                    skip_lf: false,
                },
            ),
        ),
    decreases list.len() - c,
{
    let whole = line(list, d, c);
    let w = list[c];
    assert(input.subrange(p, p + w.len()) =~= input.subrange(p, p + whole.len()).take(w.len() as int));
    assert(whole.take(w.len() as int) =~= w);
    field_reads(input, p, w, cells[c], s, d, limits, row);
    let t = field_state(s, w, cells[c]);
    let at = p + w.len();
    assert(input.subrange(p, p + whole.len())[w.len() as int] == input[at]);
    assert(cells.take(c).push(cells[c]) =~= cells.take(c + 1));
    assert(s.fields.push(CellText { bytes: t.field, quoted: t.quoted }) =~= cells.take(c + 1));
    if c + 1 == list.len() {
        assert(whole[w.len() as int] == 10);
        assert(cells.take(c + 1) =~= cells);
        assert(record_step(t, 10, d, limits, row) == RecordStep::Done {
            fields: cells,
            skip_lf: false,
        });
    } else {
        assert(whole[w.len() as int] == d);
        let next = RecordState {
            fields: cells.take(c + 1),
            field: Seq::empty(),
            quoted: false,
            at_start: true,
            in_quotes: false,
            closed: false,
            seen: true,
            size: (t.size + 1) as usize,
        };
        let rest = line(list, d, c + 1);
        assert(rest.len() >= 1);
        assert(record_step(t, d, d, limits, row) == RecordStep::More(next));
        assert(input.subrange(at + 1, at + 1 + rest.len()) =~= input.subrange(p, p + whole.len()).skip(
            w.len() as int + 1,
        ));
        assert(whole.skip(w.len() as int + 1) =~= rest);
        line_reads(input, at + 1, list, cells, c + 1, next, d, limits, row);
    }
}

/// The field that a text is read back as.
spec fn text_field(text: Seq<char>, d: u8, null_token: Seq<char>) -> CellText {
    CellText { bytes: utf8(text), quoted: needs_quotes(text, d, null_token) }
}

/// The field that a cell is read back as.
spec fn cell_field(cell: Datum, d: u8, null_token: Seq<char>, m: FloatModel) -> CellText {
    if cell is Null {
        CellText { bytes: utf8(null_token), quoted: false }
    } else {
        text_field(cell_text(cell, m), d, null_token)
    }
}

/// Whether the text of a cell, where it holds a floating-point value, is read as that value.
pub open spec fn float_survives(cell: Datum, m: FloatModel) -> bool {
    cell matches Datum::Float64(bits) ==> float_parsed(m, float_text(m, bits)) == Some(bits)
}

/// Whether the texts of the floating-point values in a row are read as those values.
pub open spec fn floats_survive(cells: Seq<Datum>, m: FloatModel) -> bool {
    forall|c: int| 0 <= c < cells.len() ==> float_survives(#[trigger] cells[c], m)
}

/// Whether a cell is within the limits of reading.
pub open spec fn cell_within(cell: Datum, limits: FormatLimits, m: FloatModel) -> bool {
    &&& utf8(cell_text(cell, m)).len() <= limits.max_field_bytes
    &&& cell matches Datum::Text(s) ==> utf8_len(s) <= limits.max_string_bytes
}

/// Whether a row is within the limits of reading.
pub open spec fn row_within(
    row: Seq<Datum>,
    fields: Seq<Field>,
    options: CsvExportOptions,
    limits: FormatLimits,
    m: FloatModel,
) -> bool {
    &&& forall|c: int| 0 <= c < row.len() ==> cell_within(#[trigger] row[c], limits, m)
    &&& forall|r: int|
        #[trigger] written_row(row, fields, options, r, m) matches Ok(bytes) ==> bytes.len() - 1
            <= limits.max_record_bytes
}

/// Whether the header is within the limits of reading.
pub open spec fn header_within(fields: Seq<Field>, options: CsvExportOptions, limits: FormatLimits) -> bool {
    &&& line(written_names(fields, options), options.delimiter, 0).len() - 1
        <= limits.max_record_bytes
    &&& forall|c: int|
        0 <= c < fields.len() ==> utf8((#[trigger] fields[c]).name@).len() <= limits.max_field_bytes
            && utf8_len(fields[c].name@) <= limits.max_string_bytes
}

proof fn cell_survives(
    cell: Datum,
    field: Field,
    export: CsvExportOptions,
    options: CsvOptions,
    row: u64,
    r: int,
    m: FloatModel,
)
    requires
        suits(cell, field.data_type),
        cell is Null ==> field.nullable,
        export.delimiter == options.delimiter,
        export.null_token@ == options.null_token@,
        written_cell(cell, field, export, r, m) is Ok,
        !has_special(utf8(options.null_token@), options.delimiter),
        cell_within(cell, options.limits, m),
        float_survives(cell, m),
    ensures
        field_cell(
            cell_field(cell, options.delimiter, options.null_token@, m),
            field,
            options,
            row,
            m,
        ) == Ok::<Datum, FormatFault>(cell),
        reads_as(
            written_cell(cell, field, export, r, m)->Ok_0,
            cell_field(cell, options.delimiter, options.null_token@, m),
            options.delimiter,
        ),
{
    let read = cell_field(cell, options.delimiter, options.null_token@, m);
    if !(cell is Null) {
        let text = cell_text(cell, m);
        encode_utf8_valid_utf8(text);
        encode_utf8_decode_utf8(text);
        if !read.quoted && read.bytes == utf8(options.null_token@) {
            encode_utf8_decode_utf8(options.null_token@);
            assert(text == options.null_token@);
        }
        match cell {
            Datum::Int64(n) => decimal_round_trip(n),
            Datum::Bool(b) => {
                reveal_strlit("true");
                reveal_strlit("false");
                assert("true"@.len() != "false"@.len());
            },
            _ => {},
        }
    }
}

/// The fields that cells are read back as.
spec fn cell_fields(cells: Seq<Datum>, d: u8, null_token: Seq<char>, m: FloatModel) -> Seq<CellText> {
    Seq::new(cells.len(), |c: int| cell_field(cells[c], d, null_token, m))
}

proof fn cells_survive(
    cells: Seq<Datum>,
    fields: Seq<Field>,
    export: CsvExportOptions,
    options: CsvOptions,
    row: u64,
    r: int,
    m: FloatModel,
    list: Seq<Seq<u8>>,
    c: int,
)
    requires
        0 <= c <= cells.len(),
        row_suits(cells, fields),
        export.delimiter == options.delimiter,
        export.null_token@ == options.null_token@,
        !has_special(utf8(options.null_token@), options.delimiter),
        forall|i: int| 0 <= i < cells.len() ==> cell_within(#[trigger] cells[i], options.limits, m),
        floats_survive(cells, m),
        list.len() == cells.len(),
        forall|i: int|
            0 <= i < cells.len() ==> Ok::<Seq<u8>, FormatFault>(#[trigger] list[i]) == written_cell(
                cells[i],
                fields[i],
                export,
                r,
                m,
            ),
    ensures
        cells_from(
            cell_fields(cells, options.delimiter, options.null_token@, m),
            fields,
            options,
            row,
            m,
            c,
            cells.take(c),
        ) == Ok::<Seq<Datum>, FormatFault>(cells),
    decreases cells.len() - c,
{
    if c < cells.len() {
        assert(list[c] == list[c]);
        assert(suits(cells[c], fields[c].data_type));
        assert(float_survives(cells[c], m));
        cell_survives(cells[c], fields[c], export, options, row, r, m);
        assert(cells.take(c).push(cells[c]) =~= cells.take(c + 1));
        cells_survive(cells, fields, export, options, row, r, m, list, c + 1);
    } else {
        assert(cells.take(c) =~= cells);
    }
}

proof fn row_survives(
    input: Seq<u8>,
    cursor: RowCursor,
    cells: Seq<Datum>,
    fields: Seq<Field>,
    export: CsvExportOptions,
    options: CsvOptions,
    r: int,
    m: FloatModel,
)
    requires
        row_suits(cells, fields),
        fields.len() > 0,
        options_check(options, fields.len()) is Ok,
        export.delimiter == options.delimiter,
        export.null_token@ == options.null_token@,
        floats_survive(cells, m),
        row_within(cells, fields, export, options.limits, m),
        written_row(cells, fields, export, r, m) is Ok,
        0 <= cursor.position,
        !cursor.skip_lf,
        cursor.rows_read < options.limits.max_rows,
        ({
            let bytes = written_row(cells, fields, export, r, m)->Ok_0;
            &&& cursor.position + bytes.len() <= input.len() <= options.limits.max_input_bytes
            &&& input.subrange(cursor.position, cursor.position + bytes.len()) == bytes
        }),
    ensures
        row_next(input, fields, options, m, cursor) == Ok::<
            Option<(Seq<Datum>, RowCursor)>,
            FormatFault,
        >(
            Some(
                (
                    cells,
                    RowCursor {
                        position: cursor.position + written_row(cells, fields, export, r, m)->Ok_0.len(),
                        skip_lf: false,
                        rows_read: row_behind(cursor.rows_read),
                    },
                ),
            ),
        ),
{
    let d = options.delimiter;
    let row = row_behind(cursor.rows_read);
    written_fields_extend(cells, fields, export, r, m, 0, Seq::empty());
    let list = written_fields(cells, fields, export, r, m, 0, Seq::empty())->Ok_0;
    let texts = cell_fields(cells, d, options.null_token@, m);
    assert forall|i: int| 0 <= i < list.len() implies reads_as(#[trigger] list[i], texts[i], d) by {
        assert(Ok::<Seq<u8>, FormatFault>(list[i]) == written_cell(cells[i], fields[i], export, r, m));
        assert(suits(cells[i], fields[i].data_type));
        assert(cell_within(cells[i], options.limits, m));
        assert(float_survives(cells[i], m));
        cell_survives(cells[i], fields[i], export, options, row, r, m);
    }
    assert forall|i: int| 0 <= i < texts.len() implies (#[trigger] texts[i]).bytes.len()
        <= options.limits.max_field_bytes by {
        assert(cell_within(cells[i], options.limits, m));
    }
    assert(texts.take(0) =~= unread().fields);
    assert(line(list, d, 0).len() >= 1);
    line_reads(input, cursor.position, list, texts, 0, unread(), d, options.limits, row);
    cells_survive(cells, fields, export, options, row, r, m, list, 0);
    assert(cells.take(0) =~= Seq::<Datum>::empty());
}

proof fn written_rows_extend(
    rows: Seq<Seq<Datum>>,
    fields: Seq<Field>,
    options: CsvExportOptions,
    m: FloatModel,
    r: int,
    done: Seq<u8>,
)
    requires
        0 <= r <= rows.len(),
    ensures
        written_rows(rows, fields, options, m, r, done) matches Ok(bytes) ==> done.len() <= bytes.len()
            && bytes.take(done.len() as int) == done,
    decreases rows.len() - r,
{
    if r < rows.len() {
        if let Ok(more) = written_row(rows[r], fields, options, r, m) {
            written_rows_extend(rows, fields, options, m, r + 1, done + more);
            if let Ok(bytes) = written_rows(rows, fields, options, m, r, done) {
                let n = done.len() as int;
                assert(bytes.take(n) =~= bytes.take((done + more).len() as int).take(n));
                assert((done + more).take(n) =~= done);
            }
        }
    } else {
        assert(done.take(done.len() as int) =~= done);
    }
}

proof fn rows_survive(
    input: Seq<u8>,
    rows: Seq<Seq<Datum>>,
    fields: Seq<Field>,
    export: CsvExportOptions,
    options: CsvOptions,
    m: FloatModel,
    r: int,
    done: Seq<u8>,
)
    requires
        0 <= r <= rows.len() <= options.limits.max_rows,
        fields.len() > 0,
        options_check(options, fields.len()) is Ok,
        export.delimiter == options.delimiter,
        export.null_token@ == options.null_token@,
        forall|i: int| 0 <= i < rows.len() ==> floats_survive(#[trigger] rows[i], m),
        forall|i: int|
            0 <= i < rows.len() ==> row_suits(#[trigger] rows[i], fields) && row_within(
                rows[i],
                fields,
                export,
                options.limits,
                m,
            ),
        written_rows(rows, fields, export, m, r, done) == Ok::<Seq<u8>, FormatFault>(input),
        input.len() <= options.limits.max_input_bytes,
    ensures
        rows_from(
            input,
            fields,
            options,
            m,
            RowCursor { position: done.len() as int, skip_lf: false, rows_read: r as u64 },
            rows.take(r),
        ) == Ok::<Seq<Seq<Datum>>, FormatFault>(rows),
    decreases rows.len() - r,
{
    let cursor = RowCursor { position: done.len() as int, skip_lf: false, rows_read: r as u64 };
    written_rows_extend(rows, fields, export, m, r, done);
    if r < rows.len() {
        let bytes = written_row(rows[r], fields, export, r, m)->Ok_0;
        let more = done + bytes;
        written_rows_extend(rows, fields, export, m, r + 1, more);
        assert(input.subrange(done.len() as int, more.len() as int) =~= input.take(
            more.len() as int,
        ).skip(done.len() as int));
        assert(more.skip(done.len() as int) =~= bytes);
        assert(row_within(rows[r], fields, export, options.limits, m));
        assert(floats_survive(rows[r], m));
        row_survives(input, cursor, rows[r], fields, export, options, r, m);
        assert(bytes.len() >= 1);
        assert(rows.take(r).push(rows[r]) =~= rows.take(r + 1));
        rows_survive(input, rows, fields, export, options, m, r + 1, more);
    } else {
        assert(rows.take(r) =~= rows);
    }
}

proof fn names_survive(fields: Seq<Field>, limits: FormatLimits, d: u8, null_token: Seq<char>, c: int)
    requires
        0 <= c <= fields.len(),
        forall|i: int|
            0 <= i < fields.len() ==> utf8_len((#[trigger] fields[i]).name@)
                <= limits.max_string_bytes,
    ensures
        header_from(
            Seq::new(fields.len(), |i: int| text_field(fields[i].name@, d, null_token)),
            limits,
            c,
            field_names(fields).take(c),
        ) == Ok::<Seq<Seq<char>>, FormatFault>(field_names(fields)),
    decreases fields.len() - c,
{
    let names = field_names(fields);
    if c < fields.len() {
        encode_utf8_valid_utf8(fields[c].name@);
        encode_utf8_decode_utf8(fields[c].name@);
        assert(names.take(c).push(names[c]) =~= names.take(c + 1));
        names_survive(fields, limits, d, null_token, c + 1);
    } else {
        assert(names.take(c) =~= names);
    }
}

/// Reading back what was written gives the same rows: for rows of a schema with at least one
/// column, within the limits of reading, with the same delimiter, header and token for `NULL`,
/// where the texts of their floating-point values read as those values.
pub proof fn written_csv_reads_back(
    rows: Seq<Seq<Datum>>,
    fields: Seq<Field>,
    export: CsvExportOptions,
    options: CsvOptions,
    m: FloatModel,
)
    requires
        fields.len() > 0,
        forall|i: int| 0 <= i < rows.len() ==> row_suits(#[trigger] rows[i], fields),
        csv_written(rows, fields, export, m) is Ok,
        options_check(options, fields.len()) is Ok,
        export.delimiter == options.delimiter,
        export.null_token@ == options.null_token@,
        export.include_header == options.has_header,
        forall|i: int| 0 <= i < rows.len() ==> floats_survive(#[trigger] rows[i], m),
        rows.len() <= options.limits.max_rows,
        csv_written(rows, fields, export, m)->Ok_0.len() <= options.limits.max_input_bytes,
        forall|i: int|
            0 <= i < rows.len() ==> row_within(#[trigger] rows[i], fields, export, options.limits, m),
        options.has_header ==> header_within(fields, export, options.limits),
    ensures
        csv_ingested(csv_written(rows, fields, export, m)->Ok_0, fields, options, m) == Ok::<
            Seq<Seq<Datum>>,
            FormatFault,
        >(rows),
{
    let d = options.delimiter;
    let input = csv_written(rows, fields, export, m)->Ok_0;
    let head = if export.include_header {
        line(written_names(fields, export), d, 0)
    } else {
        Seq::<u8>::empty()
    };
    written_rows_extend(rows, fields, export, m, 0, head);
    rows_survive(input, rows, fields, export, options, m, 0, head);
    assert(rows.take(0) =~= Seq::<Seq<Datum>>::empty());
    if options.has_header {
        let list = written_names(fields, export);
        let texts = Seq::new(
            fields.len(),
            |i: int| text_field(fields[i].name@, d, options.null_token@),
        );
        assert forall|i: int| 0 <= i < texts.len() implies (#[trigger] texts[i]).bytes.len()
            <= options.limits.max_field_bytes by {
            assert(utf8(fields[i].name@).len() <= options.limits.max_field_bytes);
        }
        assert(texts.take(0) =~= unread().fields);
        assert(input.subrange(0, head.len() as int) =~= input.take(head.len() as int));
        assert(head.len() >= 1);
        line_reads(input, 0, list, texts, 0, unread(), d, options.limits, 1);
        names_survive(fields, options.limits, d, options.null_token@, 0);
        assert(field_names(fields).take(0) =~= Seq::<Seq<char>>::empty());
    }
}

/// Rows of a schema without floating-point columns read back whatever texts such values have.
pub proof fn csv_without_floats_reads_back(
    rows: Seq<Seq<Datum>>,
    fields: Seq<Field>,
    export: CsvExportOptions,
    options: CsvOptions,
    m: FloatModel,
)
    requires
        fields.len() > 0,
        forall|c: int| 0 <= c < fields.len() ==> (#[trigger] fields[c]).data_type != DataType::Float64,
        forall|i: int| 0 <= i < rows.len() ==> row_suits(#[trigger] rows[i], fields),
        csv_written(rows, fields, export, m) is Ok,
        options_check(options, fields.len()) is Ok,
        export.delimiter == options.delimiter,
        export.null_token@ == options.null_token@,
        export.include_header == options.has_header,
        rows.len() <= options.limits.max_rows,
        csv_written(rows, fields, export, m)->Ok_0.len() <= options.limits.max_input_bytes,
        forall|i: int|
            0 <= i < rows.len() ==> row_within(#[trigger] rows[i], fields, export, options.limits, m),
        options.has_header ==> header_within(fields, export, options.limits),
    ensures
        csv_ingested(csv_written(rows, fields, export, m)->Ok_0, fields, options, m) == Ok::<
            Seq<Seq<Datum>>,
            FormatFault,
        >(rows),
{
    assert forall|i: int| 0 <= i < rows.len() implies floats_survive(#[trigger] rows[i], m) by {
        let cells = rows[i];
        assert(row_suits(cells, fields));
        assert forall|c: int| 0 <= c < cells.len() implies float_survives(#[trigger] cells[c], m) by {
            assert(suits(cells[c], fields[c].data_type));
            assert(fields[c].data_type != DataType::Float64);
        }
    }
    written_csv_reads_back(rows, fields, export, options, m);
}

/// The texts of fields that were read.
pub open spec fn quoted_cells(list: Seq<&str>) -> Seq<CellText> {
    Seq::new(list.len(), |i: int| CellText { bytes: utf8(list[i]@), quoted: true })
}

/// A record of quoted fields reads back as the fields: texts with white space at their ends,
/// empty texts, quotes, delimiters and line endings included.
pub proof fn quoted_records_read_back(
    input: Seq<u8>,
    position: int,
    list: Seq<&str>,
    limits: FormatLimits,
    row: u64,
)
    requires
        list.len() > 0,
        list.len() <= limits.max_fields_per_row,
        0 <= position,
        position + quoted_record(list).len() <= input.len() <= limits.max_input_bytes,
        input.subrange(position, position + quoted_record(list).len()) == quoted_record(list),
        quoted_record(list).len() - 1 <= limits.max_record_bytes,
        forall|i: int|
            0 <= i < list.len() ==> utf8((#[trigger] list[i])@).len() <= limits.max_field_bytes,
    ensures
        record_at(input, position, false, 44, limits, row) == Ok::<Option<RecordRead>, FormatFault>(
            Some(
                RecordRead {
                    fields: quoted_cells(list),
                    position: position + quoted_record(list).len(),
                    skip_lf: false,
                },
            ),
        ),
        forall|i: int|
            0 <= i < list.len() ==> decode_utf8((#[trigger] quoted_cells(list)[i]).bytes) == list[i]@,
{
    let texts = quoted_cells(list);
    let fields = quoted_fields(list);
    assert forall|i: int| 0 <= i < texts.len() implies (#[trigger] texts[i]).bytes.len()
        <= limits.max_field_bytes by {
        assert(utf8(list[i]@).len() <= limits.max_field_bytes);
    }
    assert(texts.take(0) =~= unread().fields);
    assert(line(fields, 44, 0).len() >= 1);
    line_reads(input, position, fields, texts, 0, unread(), 44, limits, row);
    assert forall|i: int| 0 <= i < list.len() implies decode_utf8(
        (#[trigger] quoted_cells(list)[i]).bytes,
    ) == list[i]@ by {
        encode_utf8_decode_utf8(list[i]@);
    }
}

} // verus!
