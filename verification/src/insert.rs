//! Tables of typed rows, and `INSERT` statements of one row.

use vstd::prelude::*;
use crate::error::{storage_text, StorageError, StorageFault};
use crate::float::{answers_floats, finite, float_model, float_parsed, is_finite, parse_float, FloatModel, FloatReply, FloatRequest};
use crate::lexer::{lex, marked, reason, tokens_of, Delimiter, LexError, Lexeme, LexerLimits, Literal, Marked, Operator, Token, TokenKind};
use crate::scalar::{has_float_mark, is_float_text};
use crate::storage::rows_of;
use crate::text::{byte_len, concat2, concat4, debug_text, i64_value, int_text, lower, parse_i64, quote_text, same_ignoring_case, trim, trimmed, usize_text, utf8_len};
use crate::types::{data_of, datum_type, DataType, Datum, Value};

verus! {

/// A column of a table of rows.
#[derive(Debug)]
pub struct RowField {
    pub name: String,
    pub data_type: DataType,
}

/// A table of typed rows. Every column takes NULL, which no `INSERT` statement writes.
#[derive(Debug)]
pub struct RowTable {
    name: String,
    fields: Vec<RowField>,
    limit: usize,
    rows: Vec<Vec<Value>>,
}

/// Whether a name has nothing but white space.
pub open spec fn is_blank(name: Seq<char>) -> bool {
    trimmed(name).len() == 0
}

/// Whether one of the first `n` fields has a name, whatever its case.
pub open spec fn names_before(fields: Seq<RowField>, n: int, name: Seq<char>) -> bool {
    exists|k: int| 0 <= k < n && lower((#[trigger] fields[k]).name@) == lower(name)
}

/// What the fields from a position on are refused for.
pub open spec fn fields_fault(fields: Seq<RowField>, i: int) -> Option<StorageFault>
    decreases fields.len() - i,
{
    if !(0 <= i < fields.len()) {
        None
    } else if is_blank(fields[i].name@) {
        Some(StorageFault::EmptyColumnName { index: i as usize })
    } else if names_before(fields, i, fields[i].name@) {
        Some(StorageFault::DuplicateColumn { name: fields[i].name@ })
    } else {
        fields_fault(fields, i + 1)
    }
}

/// What a definition is refused for.
pub open spec fn definition_fault(name: Seq<char>, fields: Seq<RowField>) -> Option<StorageFault> {
    if is_blank(name) {
        Some(StorageFault::EmptyTableName)
    } else if fields.len() == 0 {
        Some(StorageFault::EmptySchema)
    } else {
        fields_fault(fields, 0)
    }
}

/// What the values from a position on are refused for.
pub open spec fn values_fault(table: Seq<char>, fields: Seq<RowField>, row: Seq<Datum>, i: int) -> Option<
    StorageFault,
>
    decreases fields.len() - i,
{
    if !(0 <= i < fields.len()) {
        None
    } else {
        match datum_type(row[i]) {
            Some(t) if t != fields[i].data_type => Some(
                StorageFault::TypeMismatch {
                    table,
                    column: fields[i].name@,
                    expected: fields[i].data_type,
                    actual: t,
                },
            ),
            _ => match row[i] {
                Datum::Float64(bits) if !is_finite(bits) => Some(
                    StorageFault::NonFiniteFloat { table, column: fields[i].name@ },
                ),
                _ => values_fault(table, fields, row, i + 1),
            },
        }
    }
}

/// What a row is refused for.
pub open spec fn row_fault(
    table: Seq<char>,
    fields: Seq<RowField>,
    limit: usize,
    rows: nat,
    row: Seq<Datum>,
) -> Option<StorageFault> {
    if row.len() != fields.len() {
        Some(
            StorageFault::RowLength {
                table,
                expected: fields.len() as usize,
                actual: row.len() as usize,
            },
        )
    } else {
        match values_fault(table, fields, row, 0) {
            Some(fault) => Some(fault),
            None => if rows >= limit {
                Some(StorageFault::RowLimitExceeded { table, limit })
            } else {
                None
            },
        }
    }
}

pub(crate) fn blank(name: &str) -> (r: bool)
    ensures
        r == is_blank(name@),
{
    let rest = trim(name);
    let empty = rest.as_str().is_empty();
    empty
}

impl RowTable {
    /// The name of the table.
    pub closed spec fn title(&self) -> Seq<char> {
        self.name@
    }

    /// The columns.
    pub closed spec fn columns(&self) -> Seq<RowField> {
        self.fields@
    }

    /// The number of rows that the table may hold.
    pub closed spec fn capacity(&self) -> usize {
        self.limit
    }

    /// The rows.
    pub closed spec fn content(&self) -> Seq<Seq<Datum>> {
        rows_of(self.rows@)
    }

    /// Makes an empty table.
    #[verifier::loop_isolation(false)]
    pub fn new(name: String, fields: Vec<RowField>, limit: usize) -> (r: Result<
        RowTable,
        StorageError,
    >)
        ensures
            match r {
                Ok(table) => {
                    &&& definition_fault(name@, fields@) is None
                    &&& table.title() == name@
                    &&& table.columns() == fields@
                    &&& table.capacity() == limit
                    &&& table.content() == Seq::<Seq<Datum>>::empty()
                },
                Err(e) => definition_fault(name@, fields@) == Some(e@),
            },
    {
        if blank(name.as_str()) {
            return Err(StorageError::EmptyTableName);
        }
        if fields.len() == 0 {
            return Err(StorageError::EmptySchema);
        }
        let mut i: usize = 0;
        while i < fields.len()
            invariant
                i <= fields.len(),
                fields_fault(fields@, 0) == fields_fault(fields@, i as int),
            decreases fields.len() - i,
        {
            if blank(fields[i].name.as_str()) {
                return Err(StorageError::EmptyColumnName { index: i });
            }
            let mut k: usize = 0;
            while k < i
                invariant
                    k <= i,
                    i < fields.len(),
                    forall|j: int|
                        0 <= j < k ==> lower((#[trigger] fields@[j]).name@) != lower(
                            fields@[i as int].name@,
                        ),
                decreases i - k,
            {
                if same_ignoring_case(fields[k].name.as_str(), fields[i].name.as_str()) {
                    assert(names_before(fields@, i as int, fields@[i as int].name@));
                    return Err(StorageError::DuplicateColumn { name: fields[i].name.clone() });
                }
                k = k + 1;
            }
            i = i + 1;
        }
        let table = RowTable { name, fields, limit, rows: Vec::new() };
        assert(table.content() =~= Seq::<Seq<Datum>>::empty());
        Ok(table)
    }

    /// The name of the table.
    pub fn name(&self) -> (name: &str)
        ensures
            name@ == self.title(),
    {
        self.name.as_str()
    }

    /// The columns.
    pub fn fields(&self) -> (fields: &Vec<RowField>)
        ensures
            fields@ == self.columns(),
    {
        &self.fields
    }

    /// The number of rows.
    pub fn len(&self) -> (n: usize)
        ensures
            n == self.content().len(),
    {
        self.rows.len()
    }

    /// A row.
    pub fn row(&self, i: usize) -> (r: Option<&Vec<Value>>)
        ensures
            match r {
                Some(row) => i < self.content().len() && data_of(row@) == self.content()[i as int],
                None => i >= self.content().len(),
            },
    {
        if i < self.rows.len() {
            Some(&self.rows[i])
        } else {
            None
        }
    }

    /// Adds a row of values, each of the type of its column or NULL. A row that is refused
    /// leaves the table as it was.
    #[verifier::loop_isolation(false)]
    pub fn insert_row(&mut self, row: Vec<Value>) -> (r: Result<(), StorageError>)
        ensures
            final(self).title() == old(self).title(),
            final(self).columns() == old(self).columns(),
            final(self).capacity() == old(self).capacity(),
            ({
                let refused = row_fault(
                    old(self).title(),
                    old(self).columns(),
                    old(self).capacity(),
                    old(self).content().len(),
                    data_of(row@),
                );
                match r {
                    Ok(_) => refused is None && final(self).content() == old(self).content().push(
                        data_of(row@),
                    ),
                    Err(e) => refused == Some(e@) && *final(self) == *old(self),
                }
            }),
    {
        let ghost list = data_of(row@);
        if row.len() != self.fields.len() {
            return Err(
                StorageError::RowLength {
                    table: self.name.clone(),
                    expected: self.fields.len(),
                    actual: row.len(),
                },
            );
        }
        let mut i: usize = 0;
        while i < self.fields.len()
            invariant
                i <= self.fields.len(),
                *self == *old(self),
                values_fault(self.title(), self.columns(), list, 0) == values_fault(
                    self.title(),
                    self.columns(),
                    list,
                    i as int,
                ),
            decreases self.fields.len() - i,
        {
            assert(list[i as int] == row@[i as int]@);
            if let Some(actual) = row[i].data_type() {
                if actual != self.fields[i].data_type {
                    return Err(
                        StorageError::TypeMismatch {
                            table: self.name.clone(),
                            column: self.fields[i].name.clone(),
                            expected: self.fields[i].data_type,
                            actual,
                        },
                    );
                }
            }
            if let Value::Float64(bits) = &row[i] {
                if !finite(*bits) {
                    return Err(
                        StorageError::NonFiniteFloat {
                            table: self.name.clone(),
                            column: self.fields[i].name.clone(),
                        },
                    );
                }
            }
            i = i + 1;
        }
        if self.rows.len() >= self.limit {
            return Err(
                StorageError::RowLimitExceeded { table: self.name.clone(), limit: self.limit },
            );
        }
        let ghost before = self.content();
        self.rows.push(row);
        assert(self.content() =~= before.push(list));
        Ok(())
    }
}

/// Why a text is no `INSERT` statement.
#[derive(Debug, Clone, PartialEq, Eq)]
pub enum InsertParseError {
    /// The text has no tokens.
    Lex(LexError),
    /// Something else is expected at a byte position.
    Expected { what: &'static str, position: usize },
    /// A number at a byte position is out of range.
    InvalidNumber { position: usize },
}

/// The content of a failure.
pub enum InsertParseFault {
    Lex(LexError),
    Expected { what: Seq<char>, position: int },
    InvalidNumber { position: int },
}

impl View for InsertParseError {
    type V = InsertParseFault;

    open spec fn view(&self) -> InsertParseFault {
        match *self {
            InsertParseError::Lex(e) => InsertParseFault::Lex(e),
            InsertParseError::Expected { what, position } => InsertParseFault::Expected {
                what: what@,
                position: position as int,
            },
            InsertParseError::InvalidNumber { position } => InsertParseFault::InvalidNumber {
                position: position as int,
            },
        }
    }
}

/// The text of a failure.
pub open spec fn parse_text(fault: InsertParseFault) -> Seq<char> {
    match fault {
        InsertParseFault::Lex(e) => "SQL lexer error at byte "@ + int_text(e.position as int)
            + ": "@ + reason(e.kind),
        InsertParseFault::Expected { what, position } => "expected "@ + what + " at byte "@
            + int_text(position),
        InsertParseFault::InvalidNumber { position } => "invalid number at byte "@ + int_text(
            position,
        ),
    }
}

impl InsertParseError {
    /// Describes the failure.
    pub fn message(&self) -> (s: String)
        ensures
            s@ == parse_text(self@),
    {
        match self {
            InsertParseError::Lex(e) => e.message(),
            InsertParseError::Expected { what, position } => concat4(
                "expected ",
                what,
                " at byte ",
                usize_text(*position).as_str(),
            ),
            InsertParseError::InvalidNumber { position } => concat2(
                "invalid number at byte ",
                usize_text(*position).as_str(),
            ),
        }
    }
}

/// A parsed `INSERT` statement.
#[derive(Debug)]
pub struct RowInsert {
    pub table_name: String,
    pub values: Vec<Value>,
}

/// The content of a parsed `INSERT` statement.
pub struct Insertion {
    pub table: Seq<char>,
    pub values: Seq<Datum>,
}

/// The byte position of a token, or of the end.
pub open spec fn place_at(tokens: Seq<Marked>, p: int, end: int) -> int {
    if 0 <= p < tokens.len() {
        tokens[p].start
    } else {
        end
    }
}

/// Whether a keyword stands at a position.
pub open spec fn keyword_at(tokens: Seq<Marked>, p: int, keyword: Seq<char>) -> bool {
    0 <= p < tokens.len() && (tokens[p].lexeme matches Lexeme::Identifier(word) && lower(word)
        == lower(keyword))
}

/// Whether a mark stands at a position.
pub open spec fn mark_at(tokens: Seq<Marked>, p: int, mark: Delimiter) -> bool {
    0 <= p < tokens.len() && tokens[p].lexeme == Lexeme::Delimiter(mark)
}

/// The value of a number.
pub open spec fn number_value(s: Seq<char>, m: FloatModel) -> Option<Datum> {
    if is_float_text(s) {
        match float_parsed(m, s) {
            Some(bits) => Some(Datum::Float64(bits)),
            None => None,
        }
    } else {
        match i64_value(s) {
            Some(i) => Some(Datum::Int64(i)),
            None => None,
        }
    }
}

/// The literal at a position, and the position behind it.
pub open spec fn literal_at(tokens: Seq<Marked>, p: int, end: int, m: FloatModel) -> Result<
    (Datum, int),
    InsertParseFault,
> {
    let negative = 0 <= p < tokens.len() && tokens[p].lexeme == Lexeme::Operator(Operator::Minus);
    let q = if negative { p + 1 } else { p };
    let missing = InsertParseFault::Expected { what: "a literal"@, position: place_at(tokens, q, end) };
    if !(0 <= q < tokens.len()) {
        Err(missing)
    } else {
        match tokens[q].lexeme {
            Lexeme::Number(s) => match number_value(if negative { "-"@ + s } else { s }, m) {
                Some(d) => Ok((d, q + 1)),
                None => Err(InsertParseFault::InvalidNumber { position: tokens[q].start }),
            },
            Lexeme::Text(s) if !negative => Ok((Datum::Text(s), q + 1)),
            Lexeme::Boolean(b) if !negative => Ok((Datum::Bool(b), q + 1)),
            _ => Err(missing),
        }
    }
}

/// The literals from a position on behind `done`, and the position behind the list.
pub open spec fn literals_from(
    tokens: Seq<Marked>,
    p: int,
    end: int,
    done: Seq<Datum>,
    m: FloatModel,
) -> Result<(Seq<Datum>, int), InsertParseFault>
    decreases tokens.len() - p,
{
    match literal_at(tokens, p, end, m) {
        Err(fault) => Err(fault),
        Ok((d, q)) => if mark_at(tokens, q, Delimiter::RightParenthesis) {
            Ok((done.push(d), q + 1))
        } else if !mark_at(tokens, q, Delimiter::Comma) {
            Err(
                InsertParseFault::Expected {
                    what: "`,` or `)`"@,
                    position: place_at(tokens, q, end),
                },
            )
        } else if p < q {
            literals_from(tokens, q + 1, end, done.push(d), m)
        } else {
            Ok((done, q))
        },
    }
}

/// The statement that tokens are.
pub open spec fn insertion_from(tokens: Seq<Marked>, end: int, m: FloatModel) -> Result<
    Insertion,
    InsertParseFault,
> {
    if !keyword_at(tokens, 0, "INSERT"@) {
        Err(InsertParseFault::Expected { what: "INSERT"@, position: place_at(tokens, 0, end) })
    } else if !keyword_at(tokens, 1, "INTO"@) {
        Err(InsertParseFault::Expected { what: "INTO"@, position: place_at(tokens, 1, end) })
    } else if !(2 < tokens.len() && tokens[2].lexeme is Identifier) {
        Err(InsertParseFault::Expected { what: "a table name"@, position: place_at(tokens, 2, end) })
    } else if !keyword_at(tokens, 3, "VALUES"@) {
        Err(InsertParseFault::Expected { what: "VALUES"@, position: place_at(tokens, 3, end) })
    } else if !mark_at(tokens, 4, Delimiter::LeftParenthesis) {
        Err(InsertParseFault::Expected { what: "`(`"@, position: place_at(tokens, 4, end) })
    } else {
        match literals_from(tokens, 5, end, Seq::empty(), m) {
            Err(fault) => Err(fault),
            Ok((values, q)) => {
                let last = if mark_at(tokens, q, Delimiter::Semicolon) {
                    q + 1
                } else {
                    q
                };
                if last < tokens.len() {
                    Err(
                        InsertParseFault::Expected {
                            what: "the end of the statement"@,
                            position: place_at(tokens, last, end),
                        },
                    )
                } else {
                    Ok(Insertion { table: tokens[2].lexeme->Identifier_0, values })
                }
            },
        }
    }
}

/// The limits that a statement is read with.
pub open spec fn statement_limits() -> LexerLimits {
    LexerLimits { max_input_bytes: 1_048_576, max_tokens: 100_000, max_literal_bytes: 1_048_576 }
}

/// The statement that a text is.
pub open spec fn insertion_of(s: Seq<char>, m: FloatModel) -> Result<Insertion, InsertParseFault> {
    match tokens_of(s, statement_limits()) {
        Err(e) => Err(InsertParseFault::Lex(e)),
        Ok(tokens) => insertion_from(tokens, utf8_len(s) as int, m),
    }
}

struct Reader {
    tokens: Vec<Token>,
    end: usize,
}

impl Reader {
    spec fn seen(&self) -> Seq<Marked> {
        marked(self.tokens@)
    }

    fn expected(&self, what: &'static str, p: usize) -> (e: InsertParseError)
        ensures
            e@ == (InsertParseFault::Expected {
                what: what@,
                position: place_at(self.seen(), p as int, self.end as int),
            }),
    {
        let position = if p < self.tokens.len() {
            self.tokens[p].span.start
        } else {
            self.end
        };
        InsertParseError::Expected { what, position }
    }

    fn keyword(&self, p: usize, keyword: &'static str) -> (r: Result<(), InsertParseError>)
        ensures
            match r {
                Ok(_) => keyword_at(self.seen(), p as int, keyword@),
                Err(e) => !keyword_at(self.seen(), p as int, keyword@) && e@ == (
                InsertParseFault::Expected {
                    what: keyword@,
                    position: place_at(self.seen(), p as int, self.end as int),
                }),
            },
    {
        if p < self.tokens.len() {
            assert(self.seen()[p as int] == self.tokens@[p as int]@);
            if let TokenKind::Identifier(word) = &self.tokens[p].kind {
                if same_ignoring_case(word.as_str(), keyword) {
                    return Ok(());
                }
            }
        }
        Err(self.expected(keyword, p))
    }

    fn mark(&self, p: usize, mark: Delimiter) -> (r: bool)
        ensures
            r == mark_at(self.seen(), p as int, mark),
            r ==> p < self.tokens.len(),
    {
        if p < self.tokens.len() {
            assert(self.seen()[p as int] == self.tokens@[p as int]@);
            match &self.tokens[p].kind {
                TokenKind::Delimiter(d) => *d == mark,
                _ => false,
            }
        } else {
            false
        }
    }

    fn literal<F: Fn(FloatRequest) -> FloatReply>(&self, p: usize, f: &F) -> (r: Result<
        (Value, usize),
        InsertParseError,
    >)
        requires
            p <= self.tokens.len(),
            answers_floats(*f),
        ensures
            match r {
                Ok((v, q)) => literal_at(
                    self.seen(),
                    p as int,
                    self.end as int,
                    float_model(*f),
                ) == Ok::<_, InsertParseFault>((v@, q as int)) && p < q <= self.tokens.len(),
                Err(e) => literal_at(self.seen(), p as int, self.end as int, float_model(*f))
                    == Err::<(Datum, int), _>(e@),
            },
    {
        let negative = if p < self.tokens.len() {
            assert(self.seen()[p as int] == self.tokens@[p as int]@);
            match &self.tokens[p].kind {
                TokenKind::Operator(operator) => *operator == Operator::Minus,
                _ => false,
            }
        } else {
            false
        };
        let q = if negative {
            p + 1
        } else {
            p
        };
        if q >= self.tokens.len() {
            return Err(self.expected("a literal", q));
        }
        assert(self.seen()[q as int] == self.tokens@[q as int]@);
        match &self.tokens[q].kind {
            TokenKind::Literal(Literal::Number(digits)) => {
                let signed = if negative {
                    concat2("-", digits.as_str())
                } else {
                    digits.clone()
                };
                if has_float_mark(signed.as_str()) {
                    if let Some(bits) = parse_float(f, signed.as_str()) {
                        return Ok((Value::Float64(bits), q + 1));
                    }
                } else if let Some(i) = parse_i64(signed.as_str()) {
                    return Ok((Value::Int64(i), q + 1));
                }
                Err(InsertParseError::InvalidNumber { position: self.tokens[q].span.start })
            },
            TokenKind::Literal(Literal::String(s)) => if negative {
                Err(self.expected("a literal", q))
            } else {
                Ok((Value::String(s.clone()), q + 1))
            },
            TokenKind::Literal(Literal::Boolean(b)) => if negative {
                Err(self.expected("a literal", q))
            } else {
                Ok((Value::Bool(*b), q + 1))
            },
            _ => Err(self.expected("a literal", q)),
        }
    }
}

/// Parses `INSERT INTO table VALUES (literal, ...)`.
#[verifier::loop_isolation(false)]
pub fn parse_insert<F: Fn(FloatRequest) -> FloatReply>(input: &str, f: &F) -> (r: Result<
    RowInsert,
    InsertParseError,
>)
    requires
        answers_floats(*f),
    ensures
        match r {
            Ok(statement) => insertion_of(input@, float_model(*f)) == Ok::<_, InsertParseFault>(
                Insertion { table: statement.table_name@, values: data_of(statement.values@) },
            ),
            Err(e) => insertion_of(input@, float_model(*f)) == Err::<Insertion, _>(e@),
        },
{
    let ghost m = float_model(*f);
    let tokens = match lex(input, LexerLimits::default()) {
        Ok(tokens) => tokens,
        Err(e) => return Err(InsertParseError::Lex(e)),
    };
    let reader = Reader { tokens, end: byte_len(input) };
    let ghost seen = reader.seen();
    let ghost end = reader.end as int;
    reader.keyword(0, "INSERT")?;
    reader.keyword(1, "INTO")?;
    if reader.tokens.len() <= 2 {
        return Err(reader.expected("a table name", 2));
    }
    assert(seen[2] == reader.tokens@[2]@);
    let table_name = match &reader.tokens[2].kind {
        TokenKind::Identifier(name) => name.clone(),
        _ => return Err(reader.expected("a table name", 2)),
    };
    reader.keyword(3, "VALUES")?;
    if !reader.mark(4, Delimiter::LeftParenthesis) {
        return Err(reader.expected("`(`", 4));
    }
    let mut values: Vec<Value> = Vec::new();
    assert(data_of(values@) =~= Seq::<Datum>::empty());
    let mut p: usize = 5;
    let mut open = true;
    while open
        invariant
            p <= reader.tokens.len(),
            open ==> literals_from(seen, 5, end, Seq::empty(), m) == literals_from(
                seen,
                p as int,
                end,
                data_of(values@),
                m,
            ),
            !open ==> literals_from(seen, 5, end, Seq::empty(), m) == Ok::<_, InsertParseFault>(
                (data_of(values@), p as int),
            ),
        decreases reader.tokens.len() - p, (if open { 1nat } else { 0nat }),
    {
        let (value, q) = reader.literal(p, f)?;
        let ghost before = data_of(values@);
        values.push(value);
        assert(data_of(values@) =~= before.push(value@));
        if reader.mark(q, Delimiter::RightParenthesis) {
            open = false;
        } else if !reader.mark(q, Delimiter::Comma) {
            return Err(reader.expected("`,` or `)`", q));
        }
        p = q + 1;
    }
    if reader.mark(p, Delimiter::Semicolon) {
        p = p + 1;
    }
    if p < reader.tokens.len() {
        return Err(reader.expected("the end of the statement", p));
    }
    Ok(RowInsert { table_name, values })
}

/// Tables by name, whatever its case.
#[derive(Debug)]
pub struct RowCatalog {
    tables: Vec<RowTable>,
}

/// The first table from a position on with a name, whatever its case.
pub open spec fn table_named(tables: Seq<RowTable>, name: Seq<char>, i: int) -> Option<int>
    decreases tables.len() - i,
{
    if !(0 <= i < tables.len()) {
        None
    } else if lower(tables[i].title()) == lower(name) {
        Some(i)
    } else {
        table_named(tables, name, i + 1)
    }
}

impl RowCatalog {
    /// The tables.
    pub closed spec fn list(&self) -> Seq<RowTable> {
        self.tables@
    }

    /// Makes a catalog without tables.
    pub fn new() -> (catalog: RowCatalog)
        ensures
            catalog.list() == Seq::<RowTable>::empty(),
    {
        RowCatalog { tables: Vec::new() }
    }

    fn position(&self, name: &str) -> (r: Option<usize>)
        ensures
            match r {
                Some(i) => table_named(self.list(), name@, 0) == Some(i as int) && i
                    < self.list().len(),
                None => table_named(self.list(), name@, 0) is None,
            },
    {
        let mut i: usize = 0;
        while i < self.tables.len()
            invariant
                i <= self.tables.len(),
                table_named(self.list(), name@, 0) == table_named(self.list(), name@, i as int),
            decreases self.tables.len() - i,
        {
            if same_ignoring_case(self.tables[i].name.as_str(), name) {
                return Some(i);
            }
            i = i + 1;
        }
        None
    }

    /// Adds a table, unless one of its name is there.
    pub fn create_table(&mut self, table: RowTable) -> (created: bool)
        ensures
            created == (table_named(old(self).list(), table.title(), 0) is None),
            final(self).list() == (if created {
                old(self).list().push(table)
            } else {
                old(self).list()
            }),
    {
        if self.position(table.name.as_str()).is_some() {
            return false;
        }
        self.tables.push(table);
        true
    }

    /// Finds a table by its name, whatever its case.
    pub fn table(&self, name: &str) -> (r: Option<&RowTable>)
        ensures
            match r {
                Some(table) => table_named(self.list(), name@, 0) matches Some(i)
                    && self.list()[i] == *table,
                None => table_named(self.list(), name@, 0) is None,
            },
    {
        match self.position(name) {
            Some(i) => Some(&self.tables[i]),
            None => None,
        }
    }
}

/// A failure of an `INSERT` statement.
#[derive(Debug, Clone, PartialEq, Eq)]
pub enum ExecuteInsertError {
    /// The text is no `INSERT` statement.
    Parse(InsertParseError),
    /// There is no such table.
    UnknownTable { name: String },
    /// The table refuses the row.
    Insertion(StorageError),
}

/// The content of a failure.
pub enum ExecuteInsertFault {
    Parse(InsertParseFault),
    UnknownTable(Seq<char>),
    Insertion(StorageFault),
}

impl View for ExecuteInsertError {
    type V = ExecuteInsertFault;

    open spec fn view(&self) -> ExecuteInsertFault {
        match *self {
            ExecuteInsertError::Parse(e) => ExecuteInsertFault::Parse(e@),
            ExecuteInsertError::UnknownTable { name } => ExecuteInsertFault::UnknownTable(name@),
            ExecuteInsertError::Insertion(e) => ExecuteInsertFault::Insertion(e@),
        }
    }
}

impl ExecuteInsertError {
    /// Describes the failure.
    pub fn message(&self) -> (s: String)
        ensures
            s@ == match self@ {
                ExecuteInsertFault::Parse(fault) => "invalid INSERT statement: "@ + parse_text(fault),
                ExecuteInsertFault::UnknownTable(name) => "unknown table "@ + debug_text(name),
                ExecuteInsertFault::Insertion(fault) => "row insertion failed: "@ + storage_text(
                    fault,
                ),
            },
    {
        match self {
            ExecuteInsertError::Parse(e) => concat2(
                "invalid INSERT statement: ",
                e.message().as_str(),
            ),
            ExecuteInsertError::UnknownTable { name } => concat2(
                "unknown table ",
                quote_text(name.as_str()).as_str(),
            ),
            ExecuteInsertError::Insertion(e) => concat2(
                "row insertion failed: ",
                e.message().as_str(),
            ),
        }
    }
}

/// What an `INSERT` statement is refused for.
pub open spec fn insert_fault(s: Seq<char>, tables: Seq<RowTable>, m: FloatModel) -> Option<
    ExecuteInsertFault,
> {
    match insertion_of(s, m) {
        Err(fault) => Some(ExecuteInsertFault::Parse(fault)),
        Ok(insertion) => match table_named(tables, insertion.table, 0) {
            None => Some(ExecuteInsertFault::UnknownTable(insertion.table)),
            Some(i) => match row_fault(
                tables[i].title(),
                tables[i].columns(),
                tables[i].capacity(),
                tables[i].content().len(),
                insertion.values,
            ) {
                Some(fault) => Some(ExecuteInsertFault::Insertion(fault)),
                None => None,
            },
        },
    }
}

/// Whether tables differ from others by one more row of one of them.
pub open spec fn row_added(before: Seq<RowTable>, after: Seq<RowTable>, insertion: Insertion) -> bool {
    &&& table_named(before, insertion.table, 0) matches Some(i)
    &&& after.len() == before.len()
    &&& forall|k: int| 0 <= k < before.len() && k != i ==> #[trigger] after[k] == before[k]
    &&& after[i].title() == before[i].title()
    &&& after[i].columns() == before[i].columns()
    &&& after[i].capacity() == before[i].capacity()
    &&& after[i].content() == before[i].content().push(insertion.values)
}

/// Parses and runs one `INSERT` statement. A failure leaves the catalog as it was.
pub fn execute_insert<F: Fn(FloatRequest) -> FloatReply>(
    input: &str,
    catalog: &mut RowCatalog,
    f: &F,
) -> (r: Result<(), ExecuteInsertError>)
    requires
        answers_floats(*f),
    ensures
        match r {
            Ok(_) => {
                &&& insert_fault(input@, old(catalog).list(), float_model(*f)) is None
                &&& row_added(
                    old(catalog).list(),
                    final(catalog).list(),
                    insertion_of(input@, float_model(*f))->Ok_0,
                )
            },
            Err(e) => {
                &&& insert_fault(input@, old(catalog).list(), float_model(*f)) == Some(e@)
                &&& final(catalog).list() == old(catalog).list()
            },
        },
{
    let statement = match parse_insert(input, f) {
        Ok(statement) => statement,
        Err(e) => return Err(ExecuteInsertError::Parse(e)),
    };
    let i = match catalog.position(statement.table_name.as_str()) {
        Some(i) => i,
        None => return Err(ExecuteInsertError::UnknownTable { name: statement.table_name }),
    };
    let ghost before = catalog.tables@;
    match catalog.tables[i].insert_row(statement.values) {
        Ok(_) => Ok(()),
        Err(e) => {
            assert(catalog.tables@ =~= before);
            Err(ExecuteInsertError::Insertion(e))
        },
    }
}

} // verus!
