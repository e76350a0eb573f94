//! Encoding of query results as text.

use vstd::prelude::*;
use crate::bytes::{utf8_ascii, utf8_concat};
use crate::float::{answers_floats, display_float, finite, float_model, float_text, is_finite, FloatModel, FloatReply, FloatRequest};
use crate::json_text::{json_quoted, json_string};
use crate::binding::names_of;
use crate::selecting::{Answer, QueryResult};
use crate::text::{byte_len, chars_of, concat2, concat3, concat4, contains_char, i64_text, int_text, lower, same_text, to_lower, usize_text, utf8_len};
use crate::types::{Datum, Value};

verus! {

/// The largest encoded result, in bytes.
pub const MAX_ENCODED_OUTPUT_BYTES: usize = 67_108_864;

/// An encoding of results.
#[derive(Clone, Copy, Debug, PartialEq, Eq, Structural)]
pub enum OutputFormat {
    Csv,
    Json,
}

impl OutputFormat {
    /// Finds the encoding of a name, ignoring ASCII case.
    pub fn parse(value: &str) -> (r: Option<OutputFormat>)
        ensures
            r == (if lower(value@) == "csv"@ {
                Some(OutputFormat::Csv)
            } else if lower(value@) == "json"@ {
                Some(OutputFormat::Json)
            } else {
                None
            }),
    {
        let name = to_lower(value);
        if same_text(name.as_str(), "csv") {
            Some(OutputFormat::Csv)
        } else if same_text(name.as_str(), "json") {
            Some(OutputFormat::Json)
        } else {
            None
        }
    }
}

/// Why a result cannot be encoded.
#[derive(Debug, PartialEq, Eq)]
pub enum RenderError {
    RowWidth { actual: usize, expected: usize },
    OutputLimit { maximum: usize },
    DuplicateName(String),
    NonFiniteFloat,
    SizeOverflow,
}

/// The mathematical content of why a result cannot be encoded.
pub enum RenderFault {
    RowWidth { actual: nat, expected: nat },
    OutputLimit { maximum: usize },
    DuplicateName(Seq<char>),
    NonFiniteFloat,
    SizeOverflow,
}

impl View for RenderError {
    type V = RenderFault;

    open spec fn view(&self) -> RenderFault {
        match *self {
            RenderError::RowWidth { actual, expected } => RenderFault::RowWidth {
                actual: actual as nat,
                expected: expected as nat,
            },
            RenderError::OutputLimit { maximum } => RenderFault::OutputLimit { maximum },
            RenderError::DuplicateName(name) => RenderFault::DuplicateName(name@),
            RenderError::NonFiniteFloat => RenderFault::NonFiniteFloat,
            RenderError::SizeOverflow => RenderFault::SizeOverflow,
        }
    }
}

impl RenderError {
    /// The text of the error.
    pub fn message(&self) -> (s: String)
        ensures
            s@ == match self@ {
                RenderFault::RowWidth { actual, expected } => "result row has "@ + int_text(
                    actual as int,
                ) + " values but "@ + int_text(expected as int) + " columns were expected"@,
                RenderFault::OutputLimit { maximum } => "encoded output limit exceeded (maximum "@
                    + int_text(maximum as int) + " bytes)"@,
                RenderFault::DuplicateName(name) =>
                    "JSON output requires unique column names; duplicate '"@ + name + "'"@,
                RenderFault::NonFiniteFloat =>
                    "JSON output cannot encode non-finite Float64 values"@,
                RenderFault::SizeOverflow => "encoded output size overflow"@,
            },
    {
        match self {
            RenderError::RowWidth { actual, expected } => concat2(
                concat4(
                    "result row has ",
                    usize_text(*actual).as_str(),
                    " values but ",
                    usize_text(*expected).as_str(),
                ).as_str(),
                " columns were expected",
            ),
            RenderError::OutputLimit { maximum } => concat3(
                "encoded output limit exceeded (maximum ",
                usize_text(*maximum).as_str(),
                " bytes)",
            ),
            RenderError::DuplicateName(name) => concat3(
                "JSON output requires unique column names; duplicate '",
                name.as_str(),
                "'",
            ),
            RenderError::NonFiniteFloat =>
                "JSON output cannot encode non-finite Float64 values".to_owned(),
            RenderError::SizeOverflow => "encoded output size overflow".to_owned(),
        }
    }
}

/// The content of a rendering.
pub open spec fn rendered(r: Result<String, RenderError>) -> Result<Seq<char>, RenderFault> {
    match r {
        Ok(s) => Ok(s@),
        Err(e) => Err(e@),
    }
}

/// Whether a text holds a character that needs quotes in CSV.
pub open spec fn has_csv_special(s: Seq<char>) -> bool {
    s.contains(',') || s.contains('"') || s.contains('\n') || s.contains('\r')
}

/// The first `n` characters with every quote doubled.
pub open spec fn quotes_doubled(s: Seq<char>, n: int) -> Seq<char>
    decreases n,
{
    if n <= 0 {
        Seq::empty()
    } else if s[n - 1] == '"' {
        quotes_doubled(s, n - 1) + seq!['"', '"']
    } else {
        quotes_doubled(s, n - 1) + seq![s[n - 1]]
    }
}

/// A text as a CSV field.
pub open spec fn csv_field_text(s: Seq<char>) -> Seq<char> {
    if has_csv_special(s) || s == "\\N"@ {
        seq!['"'] + quotes_doubled(s, s.len() as int) + seq!['"']
    } else {
        s
    }
}

/// A value as a CSV field.
pub open spec fn csv_value(d: Datum, m: FloatModel) -> Seq<char> {
    match d {
        Datum::Null => "\\N"@,
        Datum::Int64(n) => int_text(n as int),
        Datum::Float64(bits) => float_text(m, bits),
        Datum::Bool(b) => if b { "true"@ } else { "false"@ },
        Datum::Text(s) => csv_field_text(s),
    }
}

/// A value as JSON.
pub open spec fn json_value(d: Datum, m: FloatModel) -> Seq<char> {
    match d {
        Datum::Null => "null"@,
        Datum::Int64(n) => int_text(n as int),
        Datum::Float64(bits) => float_text(m, bits),
        Datum::Bool(b) => if b { "true"@ } else { "false"@ },
        Datum::Text(s) => json_quoted(s),
    }
}

/// The first `n` pieces with commas between them.
pub open spec fn with_commas(list: Seq<Seq<char>>, n: int) -> Seq<char>
    decreases n,
{
    if n <= 0 {
        Seq::empty()
    } else if n == 1 {
        list[0]
    } else {
        with_commas(list, n - 1) + seq![','] + list[n - 1]
    }
}

/// The names of columns as CSV fields.
pub open spec fn csv_names(columns: Seq<Seq<char>>) -> Seq<Seq<char>> {
    Seq::new(columns.len(), |i: int| csv_field_text(columns[i]))
}

/// The values of a row as CSV fields.
pub open spec fn csv_cells(row: Seq<Datum>, m: FloatModel) -> Seq<Seq<char>> {
    Seq::new(row.len(), |i: int| csv_value(row[i], m))
}

/// CSV fields as a line.
pub open spec fn csv_line(list: Seq<Seq<char>>) -> Seq<char> {
    with_commas(list, list.len() as int).push('\n')
}

/// The header and the first `n` rows of a result as CSV.
pub open spec fn csv_text(answer: Answer, m: FloatModel, n: int) -> Seq<char>
    decreases n,
{
    if n <= 0 {
        csv_line(csv_names(answer.columns))
    } else {
        csv_text(answer, m, n - 1) + csv_line(csv_cells(answer.rows[n - 1], m))
    }
}

/// The members of a row as a JSON object.
pub open spec fn json_members(columns: Seq<Seq<char>>, row: Seq<Datum>, m: FloatModel) -> Seq<Seq<char>> {
    Seq::new(row.len(), |i: int| json_quoted(columns[i]) + seq![':'] + json_value(row[i], m))
}

/// A row as a JSON object.
pub open spec fn json_object(columns: Seq<Seq<char>>, row: Seq<Datum>, m: FloatModel) -> Seq<char> {
    seq!['{'] + with_commas(json_members(columns, row, m), row.len() as int) + seq!['}']
}

/// The rows of a result as JSON objects.
pub open spec fn json_objects(answer: Answer, m: FloatModel) -> Seq<Seq<char>> {
    Seq::new(answer.rows.len(), |r: int| json_object(answer.columns, answer.rows[r], m))
}

/// A result as JSON.
pub open spec fn json_text(answer: Answer, m: FloatModel) -> Seq<char> {
    seq!['['] + with_commas(json_objects(answer, m), answer.rows.len() as int) + seq![']', '\n']
}

/// The first row whose width differs from the number of columns, from row `r` on.
pub open spec fn wrong_width(answer: Answer, r: int) -> Option<nat>
    decreases answer.rows.len() - r,
{
    if !(0 <= r < answer.rows.len()) {
        None
    } else if answer.rows[r].len() != answer.columns.len() {
        Some(answer.rows[r].len())
    } else {
        wrong_width(answer, r + 1)
    }
}

/// A size with more bytes; `None` where it is no machine integer.
pub open spec fn added(size: Option<nat>, n: nat) -> Option<nat> {
    match size {
        Some(total) if total + n <= usize::MAX => Some(total + n),
        _ => None,
    }
}

/// A size with the bytes of pieces from position `i` on.
pub open spec fn added_all(list: Seq<Seq<char>>, i: int, size: Option<nat>) -> Option<nat>
    decreases list.len() - i,
{
    if !(0 <= i < list.len()) {
        size
    } else {
        added_all(list, i + 1, added(size, utf8_len(list[i])))
    }
}

/// The number of commas and the line feed of a line.
pub open spec fn separators(n: nat) -> nat {
    if n == 0 {
        1
    } else {
        n
    }
}

/// The size of a result as CSV, from row `r` on, behind `size`.
pub open spec fn csv_size_from(answer: Answer, m: FloatModel, r: int, size: Option<nat>) -> Option<nat>
    decreases answer.rows.len() - r,
{
    if !(0 <= r < answer.rows.len()) {
        size
    } else {
        csv_size_from(
            answer,
            m,
            r + 1,
            added_all(
                csv_cells(answer.rows[r], m),
                0,
                added(size, separators(answer.rows[r].len())),
            ),
        )
    }
}

/// The size of a result as CSV.
pub open spec fn csv_size(answer: Answer, m: FloatModel) -> Result<nat, RenderFault> {
    let head = added_all(csv_names(answer.columns), 0, Some(separators(answer.columns.len())));
    match csv_size_from(answer, m, 0, head) {
        Some(size) => Ok(size),
        None => Err(RenderFault::SizeOverflow),
    }
}

/// The size of what every row repeats, from column `i` on, behind `size`.
pub open spec fn json_frame(columns: Seq<Seq<char>>, i: int, size: nat) -> Result<nat, RenderFault>
    decreases columns.len() - i,
{
    if !(0 <= i < columns.len()) {
        Ok(size)
    } else if exists|k: int| 0 <= k < i && columns[k] == columns[i] {
        Err(RenderFault::DuplicateName(columns[i]))
    } else {
        let more = size + utf8_len(json_quoted(columns[i])) + 1 + (if i == 0 { 0nat } else { 1nat });
        if more > usize::MAX {
            Err(RenderFault::SizeOverflow)
        } else {
            json_frame(columns, i + 1, more)
        }
    }
}

/// The size with the values of a row from position `i` on.
pub open spec fn json_row_size(row: Seq<Datum>, m: FloatModel, i: int, size: nat) -> Result<
    nat,
    RenderFault,
>
    decreases row.len() - i,
{
    if !(0 <= i < row.len()) {
        Ok(size)
    } else if row[i] matches Datum::Float64(bits) && !is_finite(bits) {
        Err(RenderFault::NonFiniteFloat)
    } else if size + utf8_len(json_value(row[i], m)) > usize::MAX {
        Err(RenderFault::SizeOverflow)
    } else {
        json_row_size(row, m, i + 1, size + utf8_len(json_value(row[i], m)))
    }
}

/// The size with the values of rows from row `r` on.
pub open spec fn json_rows_size(answer: Answer, m: FloatModel, r: int, size: nat) -> Result<
    nat,
    RenderFault,
>
    decreases answer.rows.len() - r,
{
    if !(0 <= r < answer.rows.len()) {
        Ok(size)
    } else {
        match json_row_size(answer.rows[r], m, 0, size) {
            Err(fault) => Err(fault),
            Ok(size) => json_rows_size(answer, m, r + 1, size),
        }
    }
}

/// The size of a result as JSON.
pub open spec fn json_size(answer: Answer, m: FloatModel) -> Result<nat, RenderFault> {
    let n = answer.rows.len();
    match json_frame(answer.columns, 0, 2) {
        Err(fault) => Err(fault),
        Ok(frame) => {
            let size = 3 + (if n == 0 { 0 } else { (n - 1) as nat }) + frame * n;
            if size > usize::MAX {
                Err(RenderFault::SizeOverflow)
            } else {
                json_rows_size(answer, m, 0, size)
            }
        },
    }
}

/// A result in an encoding of at most `maximum` bytes, or why there is none.
pub open spec fn render_outcome(
    answer: Answer,
    format: OutputFormat,
    maximum: usize,
    m: FloatModel,
) -> Result<Seq<char>, RenderFault> {
    match wrong_width(answer, 0) {
        Some(actual) => Err(RenderFault::RowWidth { actual, expected: answer.columns.len() }),
        None => match (match format {
            OutputFormat::Csv => csv_size(answer, m),
            OutputFormat::Json => json_size(answer, m),
        }) {
            Err(fault) => Err(fault),
            Ok(size) => if size > maximum {
                Err(RenderFault::OutputLimit { maximum })
            } else {
                Ok(
                    match format {
                        OutputFormat::Csv => csv_text(answer, m, answer.rows.len() as int),
                        OutputFormat::Json => json_text(answer, m),
                    },
                )
            },
        },
    }
}

/// Returns a text as a CSV field.
pub fn csv_field(s: &str) -> (r: String)
    ensures
        r@ == csv_field_text(s@),
{
    if !(contains_char(s, ',') || contains_char(s, '"') || contains_char(s, '\n') || contains_char(
        s,
        '\r',
    ) || same_text(s, "\\N")) {
        return s.to_owned();
    }
    let chars = chars_of(s);
    let mut r = String::new();
    r.push('"');
    assert(r@ =~= seq!['"'] + quotes_doubled(s@, 0));
    let mut i: usize = 0;
    while i < chars.len()
        invariant
            i <= chars.len(),
            chars@ == s@,
            r@ == seq!['"'] + quotes_doubled(s@, i as int),
        decreases chars.len() - i,
    {
        r.push(chars[i]);
        if chars[i] == '"' {
            r.push('"');
        }
        assert(r@ =~= seq!['"'] + quotes_doubled(s@, i + 1));
        i = i + 1;
    }
    r.push('"');
    assert(r@ =~= csv_field_text(s@));
    r
}

fn csv_of_value<F: Fn(FloatRequest) -> FloatReply>(value: &Value, f: &F) -> (s: String)
    requires
        answers_floats(*f),
    ensures
        s@ == csv_value(value@, float_model(*f)),
{
    match value {
        Value::Null => "\\N".to_owned(),
        Value::Int64(n) => i64_text(*n),
        Value::Float64(bits) => display_float(f, *bits),
        Value::Bool(b) => if *b { "true".to_owned() } else { "false".to_owned() },
        Value::String(s) => csv_field(s.as_str()),
    }
}

fn json_of_value<F: Fn(FloatRequest) -> FloatReply>(value: &Value, f: &F) -> (s: String)
    requires
        answers_floats(*f),
    ensures
        s@ == json_value(value@, float_model(*f)),
{
    match value {
        Value::Null => "null".to_owned(),
        Value::Int64(n) => i64_text(*n),
        Value::Float64(bits) => display_float(f, *bits),
        Value::Bool(b) => if *b { "true".to_owned() } else { "false".to_owned() },
        Value::String(s) => json_string(s.as_str()),
    }
}

fn push_piece(target: &mut String, piece: &str, first: bool)
    ensures
        final(target)@ == (if first { old(target)@ } else { old(target)@ + seq![','] }) + piece@,
{
    let ghost before = target@;
    if !first {
        target.push(',');
        assert(target@ =~= before + seq![',']);
    }
    *target = concat2(target.as_str(), piece);
}

#[verifier::loop_isolation(false)]
fn render_csv<F: Fn(FloatRequest) -> FloatReply>(result: &QueryResult, f: &F) -> (s: String)
    requires
        answers_floats(*f),
    ensures
        s@ == csv_text(result@, float_model(*f), result.rows.len() as int),
{
    let ghost answer = result@;
    let ghost m = float_model(*f);
    let mut s = String::new();
    let ghost names = csv_names(answer.columns);
    let mut i: usize = 0;
    assert(s@ =~= with_commas(names, 0));
    while i < result.columns.len()
        invariant
            i <= result.columns.len(),
            s@ == with_commas(names, i as int),
        decreases result.columns.len() - i,
    {
        let piece = csv_field(result.columns[i].as_str());
        assert(piece@ == names[i as int]);
        push_piece(&mut s, piece.as_str(), i == 0);
        assert(s@ =~= with_commas(names, i + 1));
        i = i + 1;
    }
    s.push('\n');
    let mut r: usize = 0;
    while r < result.rows.len()
        invariant
            r <= result.rows.len(),
            s@ == csv_text(answer, m, r as int),
        decreases result.rows.len() - r,
    {
        let ghost before = s@;
        let row = &result.rows[r];
        let ghost cells = csv_cells(answer.rows[r as int], m);
        let mut c: usize = 0;
        assert(s@ =~= before + with_commas(cells, 0));
        while c < row.len()
            invariant
                c <= row.len(),
                s@ == before + with_commas(cells, c as int),
            decreases row.len() - c,
        {
            let piece = csv_of_value(&row[c], f);
            assert(piece@ == cells[c as int]);
            push_piece(&mut s, piece.as_str(), c == 0);
            assert(s@ =~= before + with_commas(cells, c + 1));
            c = c + 1;
        }
        s.push('\n');
        assert(s@ =~= before + csv_line(cells));
        r = r + 1;
    }
    s
}

#[verifier::loop_isolation(false)]
fn render_json<F: Fn(FloatRequest) -> FloatReply>(result: &QueryResult, f: &F) -> (s: String)
    requires
        answers_floats(*f),
        forall|r: int|
            0 <= r < result.rows@.len() ==> (#[trigger] result.rows@[r])@.len() == result.columns@.len(),
    ensures
        s@ == json_text(result@, float_model(*f)),
{
    let ghost answer = result@;
    let ghost m = float_model(*f);
    let ghost objects = json_objects(answer, m);
    let mut s = "[".to_owned();
    proof {
        reveal_strlit("[");
    }
    assert(s@ =~= seq!['['] + with_commas(objects, 0));
    let mut r: usize = 0;
    while r < result.rows.len()
        invariant
            r <= result.rows.len(),
            s@ == seq!['['] + with_commas(objects, r as int),
        decreases result.rows.len() - r,
    {
        let row = &result.rows[r];
        assert(row.len() == result.columns.len());
        let ghost members = json_members(answer.columns, answer.rows[r as int], m);
        let mut object = String::new();
        object.push('{');
        let mut c: usize = 0;
        assert(object@ =~= seq!['{'] + with_commas(members, 0));
        while c < row.len()
            invariant
                c <= row.len(),
                object@ == seq!['{'] + with_commas(members, c as int),
            decreases row.len() - c,
        {
            let piece = concat3(
                json_string(result.columns[c].as_str()).as_str(),
                ":",
                json_of_value(&row[c], f).as_str(),
            );
            proof {
                reveal_strlit(":");
                assert(":"@ =~= seq![':']);
            }
            assert(piece@ == members[c as int]);
            push_piece(&mut object, piece.as_str(), c == 0);
            assert(object@ =~= seq!['{'] + with_commas(members, c + 1));
            c = c + 1;
        }
        object.push('}');
        assert(object@ =~= objects[r as int]);
        push_piece(&mut s, object.as_str(), r == 0);
        assert(s@ =~= seq!['['] + with_commas(objects, r + 1));
        r = r + 1;
    }
    s.push(']');
    s.push('\n');
    assert(s@ =~= json_text(answer, m));
    s
}

spec fn size_of(size: Option<usize>) -> Option<nat> {
    match size {
        Some(n) => Some(n as nat),
        None => None,
    }
}

fn add_size(size: Option<usize>, n: usize) -> (r: Option<usize>)
    ensures
        size_of(r) == added(size_of(size), n as nat),
{
    match size {
        Some(total) => total.checked_add(n),
        None => None,
    }
}

#[verifier::loop_isolation(false)]
fn measure_csv<F: Fn(FloatRequest) -> FloatReply>(result: &QueryResult, f: &F) -> (r: Option<usize>)
    requires
        answers_floats(*f),
    ensures
        match csv_size(result@, float_model(*f)) {
            Ok(size) => size_of(r) == Some(size),
            Err(_) => r is None,
        },
{
    let ghost answer = result@;
    let ghost m = float_model(*f);
    let ghost names = csv_names(answer.columns);
    let width = result.columns.len();
    let mut size: Option<usize> = Some(if width == 0 { 1 } else { width });
    let ghost first = size_of(size);
    let mut i: usize = 0;
    while i < width
        invariant
            i <= width,
            added_all(names, 0, first) == added_all(names, i as int, size_of(size)),
        decreases width - i,
    {
        let piece = csv_field(result.columns[i].as_str());
        assert(piece@ == names[i as int]);
        size = add_size(size, byte_len(piece.as_str()));
        i = i + 1;
    }
    let ghost head = size_of(size);
    let mut r: usize = 0;
    while r < result.rows.len()
        invariant
            r <= result.rows.len(),
            csv_size_from(answer, m, 0, head) == csv_size_from(answer, m, r as int, size_of(size)),
        decreases result.rows.len() - r,
    {
        let row = &result.rows[r];
        let ghost cells = csv_cells(answer.rows[r as int], m);
        size = add_size(size, if row.len() == 0 { 1 } else { row.len() });
        let ghost start = size_of(size);
        let mut c: usize = 0;
        while c < row.len()
            invariant
                c <= row.len(),
                added_all(cells, 0, start) == added_all(cells, c as int, size_of(size)),
            decreases row.len() - c,
        {
            let piece = csv_of_value(&row[c], f);
            assert(piece@ == cells[c as int]);
            size = add_size(size, byte_len(piece.as_str()));
            c = c + 1;
        }
        r = r + 1;
    }
    size
}

spec fn measured(r: Result<usize, RenderError>) -> Result<nat, RenderFault> {
    match r {
        Ok(n) => Ok(n as nat),
        Err(e) => Err(e@),
    }
}

fn name_before(columns: &Vec<String>, i: usize) -> (r: bool)
    requires
        i < columns.len(),
    ensures
        r == exists|k: int| 0 <= k < i && names_of(columns@)[k] == names_of(columns@)[i as int],
{
    let ghost names = names_of(columns@);
    let mut k: usize = 0;
    while k < i
        invariant
            k <= i < columns.len(),
            names == names_of(columns@),
            forall|j: int| 0 <= j < k ==> #[trigger] names[j] != names[i as int],
        decreases i - k,
    {
        if same_text(columns[k].as_str(), columns[i].as_str()) {
            assert(names[k as int] == names[i as int]);
            return true;
        }
        assert(names[k as int] != names[i as int]);
        k = k + 1;
    }
    false
}

fn plus(a: usize, b: usize) -> (r: Result<usize, RenderError>)
    ensures
        measured(r) == (if a + b > usize::MAX {
            Err(RenderFault::SizeOverflow)
        } else {
            Ok((a + b) as nat)
        }),
{
    match a.checked_add(b) {
        Some(n) => Ok(n),
        None => Err(RenderError::SizeOverflow),
    }
}

#[verifier::loop_isolation(false)]
fn measure_json<F: Fn(FloatRequest) -> FloatReply>(result: &QueryResult, f: &F) -> (r: Result<
    usize,
    RenderError,
>)
    requires
        answers_floats(*f),
    ensures
        measured(r) == json_size(result@, float_model(*f)),
{
    let ghost answer = result@;
    let ghost m = float_model(*f);
    let mut frame: usize = 2;
    let mut i: usize = 0;
    while i < result.columns.len()
        invariant
            i <= result.columns.len(),
            json_frame(answer.columns, 0, 2) == json_frame(
                answer.columns,
                i as int,
                frame as nat,
            ),
        decreases result.columns.len() - i,
    {
        if name_before(&result.columns, i) {
            return Err(RenderError::DuplicateName(result.columns[i].clone()));
        }
        let piece = json_string(result.columns[i].as_str());
        assert(piece@ == json_quoted(answer.columns[i as int]));
        frame = plus(frame, byte_len(piece.as_str()))?;
        frame = plus(frame, 1)?;
        if i != 0 {
            frame = plus(frame, 1)?;
        }
        i = i + 1;
    }
    let n = result.rows.len();
    let mut size: usize = 3;
    if n != 0 {
        size = plus(size, n - 1)?;
    }
    let repeated = match frame.checked_mul(n) {
        None => return Err(RenderError::SizeOverflow),
        Some(repeated) => repeated,
    };
    size = plus(size, repeated)?;
    let ghost start = size as nat;
    let mut r: usize = 0;
    while r < n
        invariant
            r <= n,
            json_rows_size(answer, m, 0, start) == json_rows_size(
                answer,
                m,
                r as int,
                size as nat,
            ),
        decreases n - r,
    {
        let row = &result.rows[r];
        let ghost data = answer.rows[r as int];
        let ghost first = size as nat;
        let mut c: usize = 0;
        while c < row.len()
            invariant
                c <= row.len(),
                json_row_size(data, m, 0, first) == json_row_size(data, m, c as int, size as nat),
            decreases row.len() - c,
        {
            assert(row[c as int]@ == data[c as int]);
            if let Value::Float64(bits) = &row[c] {
                if !finite(*bits) {
                    return Err(RenderError::NonFiniteFloat);
                }
            }
            size = plus(size, byte_len(json_of_value(&row[c], f).as_str()))?;
            c = c + 1;
        }
        r = r + 1;
    }
    Ok(size)
}

/// Encodes a result in at most `maximum` bytes.
#[verifier::loop_isolation(false)]
pub fn render_with_limit<F: Fn(FloatRequest) -> FloatReply>(
    result: &QueryResult,
    format: OutputFormat,
    maximum: usize,
    f: &F,
) -> (r: Result<String, RenderError>)
    requires
        answers_floats(*f),
    ensures
        rendered(r) == render_outcome(result@, format, maximum, float_model(*f)),
{
    let ghost answer = result@;
    let mut i: usize = 0;
    while i < result.rows.len()
        invariant
            i <= result.rows.len(),
            wrong_width(answer, 0) == wrong_width(answer, i as int),
            forall|k: int|
                0 <= k < i ==> (#[trigger] result.rows@[k])@.len() == result.columns@.len(),
        decreases result.rows.len() - i,
    {
        if result.rows[i].len() != result.columns.len() {
            return Err(
                RenderError::RowWidth {
                    actual: result.rows[i].len(),
                    expected: result.columns.len(),
                },
            );
        }
        i = i + 1;
    }
    match format {
        OutputFormat::Csv => match measure_csv(result, f) {
            None => Err(RenderError::SizeOverflow),
            Some(size) => if size > maximum {
                Err(RenderError::OutputLimit { maximum })
            } else {
                Ok(render_csv(result, f))
            },
        },
        OutputFormat::Json => match measure_json(result, f) {
            Err(e) => Err(e),
            Ok(size) => if size > maximum {
                Err(RenderError::OutputLimit { maximum })
            } else {
                Ok(render_json(result, f))
            },
        },
    }
}

/// Encodes a result. CSV starts with a row of column names; JSON is an array of objects whose
/// keys are the column names.
pub fn render<F: Fn(FloatRequest) -> FloatReply>(result: &QueryResult, format: OutputFormat, f: &F) -> (r:
    Result<String, RenderError>)
    requires
        answers_floats(*f),
    ensures
        rendered(r) == render_outcome(
            result@,
            format,
            MAX_ENCODED_OUTPUT_BYTES,
            float_model(*f),
        ),
{
    render_with_limit(result, format, MAX_ENCODED_OUTPUT_BYTES, f)
}

/// The bytes of the first `n` pieces.
pub open spec fn pieces_bytes(list: Seq<Seq<char>>, n: int) -> nat
    decreases n,
{
    if n <= 0 {
        0
    } else {
        pieces_bytes(list, n - 1) + utf8_len(list[n - 1])
    }
}

proof fn commas_bytes(list: Seq<Seq<char>>, n: int)
    requires
        0 <= n <= list.len(),
    ensures
        utf8_len(with_commas(list, n)) == pieces_bytes(list, n) + (if n == 0 { 0 } else { n - 1 }),
    decreases n,
{
    if n > 1 {
        commas_bytes(list, n - 1);
        utf8_ascii(',');
        utf8_concat(with_commas(list, n - 1) + seq![','], list[n - 1]);
        utf8_concat(with_commas(list, n - 1), seq![',']);
    } else if n == 1 {
        assert(pieces_bytes(list, 0) == 0);
    }
}

proof fn added_all_counts(list: Seq<Seq<char>>, i: int, size: Option<nat>)
    requires
        0 <= i <= list.len(),
    ensures
        size is None ==> added_all(list, i, size) is None,
        added_all(list, i, size) matches Some(total) ==> size is Some && total == size->Some_0
            + pieces_bytes(list, list.len() as int) - pieces_bytes(list, i),
    decreases list.len() - i,
{
    if i < list.len() {
        added_all_counts(list, i + 1, added(size, utf8_len(list[i])));
    }
}

proof fn csv_line_bytes(list: Seq<Seq<char>>)
    ensures
        utf8_len(csv_line(list)) == pieces_bytes(list, list.len() as int) + separators(list.len()),
{
    let n = list.len() as int;
    commas_bytes(list, n);
    utf8_ascii('\n');
    utf8_concat(with_commas(list, n), seq!['\n']);
    assert(csv_line(list) =~= with_commas(list, n) + seq!['\n']);
}

proof fn csv_rows_bytes(answer: Answer, m: FloatModel, r: int, size: Option<nat>)
    requires
        0 <= r <= answer.rows.len(),
    ensures
        size is None ==> csv_size_from(answer, m, r, size) is None,
        csv_size_from(answer, m, r, size) matches Some(total) ==> size is Some && total
            == size->Some_0 + utf8_len(csv_text(answer, m, answer.rows.len() as int)) - utf8_len(
            csv_text(answer, m, r),
        ),
    decreases answer.rows.len() - r,
{
    if r < answer.rows.len() {
        let cells = csv_cells(answer.rows[r], m);
        let next = added_all(cells, 0, added(size, separators(answer.rows[r].len())));
        added_all_counts(cells, 0, added(size, separators(answer.rows[r].len())));
        csv_line_bytes(cells);
        utf8_concat(csv_text(answer, m, r), csv_line(cells));
        csv_rows_bytes(answer, m, r + 1, next);
    }
}

/// The size that is computed of a result as CSV is the number of its bytes.
pub proof fn csv_size_is_exact(answer: Answer, m: FloatModel)
    ensures
        csv_size(answer, m) matches Ok(size) ==> size == utf8_len(
            csv_text(answer, m, answer.rows.len() as int),
        ),
{
    let names = csv_names(answer.columns);
    let head = added_all(names, 0, Some(separators(answer.columns.len())));
    added_all_counts(names, 0, Some(separators(answer.columns.len())));
    csv_line_bytes(names);
    csv_rows_bytes(answer, m, 0, head);
}

/// The bytes of the quoted names of the first `n` columns.
spec fn quoted_names(columns: Seq<Seq<char>>) -> Seq<Seq<char>> {
    Seq::new(columns.len(), |i: int| json_quoted(columns[i]))
}

proof fn json_frame_counts(columns: Seq<Seq<char>>, i: int, size: nat)
    requires
        0 <= i <= columns.len(),
    ensures
        json_frame(columns, i, size) matches Ok(total) ==> total == size + pieces_bytes(
            quoted_names(columns),
            columns.len() as int,
        ) - pieces_bytes(quoted_names(columns), i) + 2 * (columns.len() - i) - (if i == 0
            && columns.len() > 0 { 1int } else { 0int }),
    decreases columns.len() - i,
{
    if i < columns.len() {
        let more = size + utf8_len(json_quoted(columns[i])) + 1 + (if i == 0 { 0nat } else { 1nat });
        json_frame_counts(columns, i + 1, more);
    }
}

/// The values of a row as JSON.
spec fn json_cells(row: Seq<Datum>, m: FloatModel) -> Seq<Seq<char>> {
    Seq::new(row.len(), |i: int| json_value(row[i], m))
}

proof fn members_bytes(columns: Seq<Seq<char>>, row: Seq<Datum>, m: FloatModel, n: int)
    requires
        0 <= n <= row.len() == columns.len(),
    ensures
        pieces_bytes(json_members(columns, row, m), n) == pieces_bytes(quoted_names(columns), n)
            + pieces_bytes(json_cells(row, m), n) + n,
    decreases n,
{
    if n > 0 {
        members_bytes(columns, row, m, n - 1);
        let (name, value) = (json_quoted(columns[n - 1]), json_value(row[n - 1], m));
        utf8_ascii(':');
        utf8_concat(name + seq![':'], value);
        utf8_concat(name, seq![':']);
    }
}

proof fn object_bytes(columns: Seq<Seq<char>>, row: Seq<Datum>, m: FloatModel)
    requires
        row.len() == columns.len(),
    ensures
        json_frame(columns, 0, 2) matches Ok(frame) ==> utf8_len(json_object(columns, row, m))
            == frame + pieces_bytes(json_cells(row, m), row.len() as int),
{
    let n = row.len() as int;
    let members = json_members(columns, row, m);
    json_frame_counts(columns, 0, 2);
    members_bytes(columns, row, m, n);
    commas_bytes(members, n);
    utf8_ascii('{');
    utf8_ascii('}');
    utf8_concat(seq!['{'], with_commas(members, n));
    utf8_concat(seq!['{'] + with_commas(members, n), seq!['}']);
}

proof fn json_row_counts(row: Seq<Datum>, m: FloatModel, i: int, size: nat)
    requires
        0 <= i <= row.len(),
    ensures
        json_row_size(row, m, i, size) matches Ok(total) ==> total == size + pieces_bytes(
            json_cells(row, m),
            row.len() as int,
        ) - pieces_bytes(json_cells(row, m), i),
    decreases row.len() - i,
{
    if i < row.len() {
        json_row_counts(row, m, i + 1, size + utf8_len(json_value(row[i], m)));
    }
}

proof fn json_rows_count(answer: Answer, m: FloatModel, r: int, size: nat, frame: nat)
    requires
        0 <= r <= answer.rows.len(),
        wrong_width(answer, r) is None,
        json_frame(answer.columns, 0, 2) == Ok::<nat, RenderFault>(frame),
    ensures
        json_rows_size(answer, m, r, size) matches Ok(total) ==> total + frame * (answer.rows.len()
            - r) == size + pieces_bytes(json_objects(answer, m), answer.rows.len() as int)
            - pieces_bytes(json_objects(answer, m), r),
    decreases answer.rows.len() - r,
{
    let n = answer.rows.len() as int;
    if r < n {
        let row = answer.rows[r];
        object_bytes(answer.columns, row, m);
        json_row_counts(row, m, 0, size);
        if let Ok(more) = json_row_size(row, m, 0, size) {
            json_rows_count(answer, m, r + 1, more, frame);
            assert(frame * (n - r) == frame * (n - (r + 1)) + frame) by (nonlinear_arith);
        }
    } else {
        assert(frame * (n - r) == 0) by (nonlinear_arith)
            requires
                n == r,
        ;
    }
}

/// The size that is computed of a result as JSON is the number of its bytes.
pub proof fn json_size_is_exact(answer: Answer, m: FloatModel)
    requires
        wrong_width(answer, 0) is None,
    ensures
        json_size(answer, m) matches Ok(size) ==> size == utf8_len(json_text(answer, m)),
{
    let n = answer.rows.len() as int;
    let objects = json_objects(answer, m);
    if let Ok(frame) = json_frame(answer.columns, 0, 2) {
        let size = 3 + (if n == 0 { 0 } else { (n - 1) as nat }) + frame * (n as nat);
        json_rows_count(answer, m, 0, size, frame);
        commas_bytes(objects, n);
        let body = with_commas(objects, n);
        utf8_ascii('[');
        utf8_ascii(']');
        utf8_ascii('\n');
        utf8_concat(seq!['['], body);
        utf8_concat(seq!['['] + body, seq![']', '\n']);
        utf8_concat(seq![']'], seq!['\n']);
        assert(seq![']'] + seq!['\n'] =~= seq![']', '\n']);
        assert(frame * (n - 0) == frame * (n as nat));
    }
}

/// No encoding is larger than its limit.
pub proof fn renderings_fit(answer: Answer, format: OutputFormat, maximum: usize, m: FloatModel)
    ensures
        render_outcome(answer, format, maximum, m) matches Ok(text) ==> utf8_len(text) <= maximum,
{
    if wrong_width(answer, 0) is None {
        csv_size_is_exact(answer, m);
        json_size_is_exact(answer, m);
    }
}

} // verus!
