//! Reading one request: its header block, then as much of a body as it declares.

use vstd::prelude::*;
use vstd::utf8::{decode_utf8, valid_utf8};
use crate::ast::SqlStatement;
use crate::bytes::{copy_range, text_from_utf8};
use crate::http::headers::{is_terminated, parse_headers, parsed, Accepted, Authentication, HttpAccess, ParsedRequest, Required};
use crate::http::parameters::{decode_query_parameters, query_parameters, ParameterizedWorkloadLimits};
use crate::http::request::{bad, bad_request, bytes_judged, failure, judged, refused, Asked, ParameterizedQueryMethod, QueryResponseFormat, Refusal, RequestFailure, RequestKind, TableInsertFormat};
use crate::http::response::Status;
use crate::http::sql_format::{format_taken, inserts_into, parse_parameterized_table_insert, take_terminal_query_format};
use crate::engine::{parse_text, text_statements};
use crate::text::{concat2, concat3, concat5, int_text, usize_text};

verus! {

/// Limits on rows that are inserted in one body.
#[derive(Debug, Clone, Copy, PartialEq, Eq)]
pub struct IngestLimits {
    pub max_bytes: usize,
    pub max_rows: usize,
    pub max_values: usize,
}

/// Limits of one exchange.
#[derive(Debug, Clone, Copy, PartialEq, Eq)]
pub struct HttpQueryLimits {
    /// Maximum request-line and header bytes, including the terminating CRLF.
    pub max_header_bytes: usize,
    /// Maximum number of request header fields.
    pub max_header_count: usize,
    /// Maximum bytes in a POST body or decoded URL SQL query parameter.
    pub max_sql_bytes: usize,
    /// Limits of one CSV body that is inserted into a table.
    pub csv_ingest_limits: IngestLimits,
    /// Limits of one TSV body that is inserted into a table.
    pub tsv_ingest_limits: IngestLimits,
    /// Maximum bytes in the complete HTTP response, including its headers.
    pub max_response_bytes: usize,
}

/// Default maximum size of the request line and headers.
pub const DEFAULT_MAX_HTTP_HEADER_BYTES: usize = 16_384;

/// Default maximum number of request header fields.
pub const DEFAULT_MAX_HTTP_HEADER_COUNT: usize = 64;

/// Default maximum size of the decoded SQL request.
pub const DEFAULT_MAX_HTTP_SQL_BYTES: usize = 1_048_576;

/// Default maximum size of the complete HTTP response.
pub const DEFAULT_MAX_HTTP_RESPONSE_BYTES: usize = 16_777_216;

impl HttpQueryLimits {
    /// The default limits. Inserted bodies have no limit of their own.
    pub open spec fn standard() -> HttpQueryLimits {
        let ingest = IngestLimits {
            max_bytes: usize::MAX,
            max_rows: usize::MAX,
            max_values: usize::MAX,
        };
        HttpQueryLimits {
            max_header_bytes: DEFAULT_MAX_HTTP_HEADER_BYTES,
            max_header_count: DEFAULT_MAX_HTTP_HEADER_COUNT,
            max_sql_bytes: DEFAULT_MAX_HTTP_SQL_BYTES,
            csv_ingest_limits: ingest,
            tsv_ingest_limits: ingest,
            max_response_bytes: DEFAULT_MAX_HTTP_RESPONSE_BYTES,
        }
    }
}

impl Default for HttpQueryLimits {
    fn default() -> (limits: HttpQueryLimits)
        ensures
            limits == HttpQueryLimits::standard(),
    {
        let ingest = IngestLimits {
            max_bytes: usize::MAX,
            max_rows: usize::MAX,
            max_values: usize::MAX,
        };
        HttpQueryLimits {
            max_header_bytes: DEFAULT_MAX_HTTP_HEADER_BYTES,
            max_header_count: DEFAULT_MAX_HTTP_HEADER_COUNT,
            max_sql_bytes: DEFAULT_MAX_HTTP_SQL_BYTES,
            csv_ingest_limits: ingest,
            tsv_ingest_limits: ingest,
            max_response_bytes: DEFAULT_MAX_HTTP_RESPONSE_BYTES,
        }
    }
}

/// The refusal of headers that are too long.
pub open spec fn headers_too_long() -> Refusal {
    refused(
        Status::RequestHeaderFieldsTooLarge,
        "request headers exceed configured byte limit"@,
    )
}

fn headers_too_long_failure() -> (r: RequestFailure)
    ensures
        r@ == headers_too_long(),
{
    failure(Status::RequestHeaderFieldsTooLarge, "request headers exceed configured byte limit")
}

/// What one more byte makes of a header block: whether the block is complete, or why it is
/// refused. A line feed must follow a carriage return and nothing else.
pub open spec fn header_step(header: Seq<u8>, b: u8, max_bytes: usize) -> Result<bool, Refusal> {
    let after_return = header.len() > 0 && header.last() == 13;
    if (b == 10) != after_return {
        Err(bad("HTTP headers require CRLF framing"@))
    } else if is_terminated(header.push(b)) {
        Ok(true)
    } else if header.len() + 1 >= max_bytes {
        Err(headers_too_long())
    } else {
        Ok(false)
    }
}

/// A header block in the course of reading.
#[derive(Debug)]
pub struct HeaderBlock {
    bytes: Vec<u8>,
    max_bytes: usize,
}

fn terminated(bytes: &Vec<u8>) -> (r: bool)
    ensures
        r == is_terminated(bytes@),
{
    let n = bytes.len();
    if n < 4 {
        return false;
    }
    let r = bytes[n - 4] == 13 && bytes[n - 3] == 10 && bytes[n - 2] == 13 && bytes[n - 1] == 10;
    proof {
        let tail = bytes@.skip(n - 4);
        assert(tail[0] == bytes@[n - 4] && tail[1] == bytes@[n - 3] && tail[2] == bytes@[n - 2]
            && tail[3] == bytes@[n - 1]);
        if r {
            assert(tail =~= seq![13u8, 10, 13, 10]);
        } else if tail == seq![13u8, 10, 13, 10] {
            assert(tail[0] == 13 && tail[1] == 10 && tail[2] == 13 && tail[3] == 10);
        }
    }
    r
}

impl HeaderBlock {
    /// The bytes read so far.
    pub closed spec fn view(&self) -> Seq<u8> {
        self.bytes@
    }

    /// The largest number of bytes.
    pub closed spec fn limit(&self) -> usize {
        self.max_bytes
    }

    /// Begins a header block, unless no byte is allowed.
    pub fn new(max_bytes: usize) -> (r: Result<HeaderBlock, RequestFailure>)
        ensures
            match r {
                Ok(block) => max_bytes > 0 && block@ == Seq::<u8>::empty() && block.limit() == max_bytes,
                Err(e) => max_bytes == 0 && e@ == headers_too_long(),
            },
    {
        if max_bytes == 0 {
            return Err(headers_too_long_failure());
        }
        Ok(HeaderBlock { bytes: Vec::new(), max_bytes })
    }

    /// Takes one more byte; tells whether the block is complete.
    pub fn accept(&mut self, b: u8) -> (r: Result<bool, RequestFailure>)
        ensures
            judged(r) == header_step(old(self)@, b, old(self).limit()),
            r is Ok ==> final(self)@ == old(self)@.push(b),
            final(self).limit() == old(self).limit(),
    {
        let n = self.bytes.len();
        let after_return = n > 0 && self.bytes[n - 1] == 13;
        if (b == 10) != after_return {
            return Err(bad_request("HTTP headers require CRLF framing"));
        }
        self.bytes.push(b);
        if terminated(&self.bytes) {
            return Ok(true);
        }
        if self.bytes.len() >= self.max_bytes {
            return Err(headers_too_long_failure());
        }
        Ok(false)
    }

    /// The bytes read.
    pub fn into_bytes(self) -> (bytes: Vec<u8>)
        ensures
            bytes@ == self@,
    {
        self.bytes
    }
}

/// Where the header block ends whose first `n` bytes were taken from the input.
pub open spec fn header_end(input: Seq<u8>, n: int, max_bytes: usize) -> Result<int, Refusal>
    decreases input.len() - n,
{
    if n < 0 || n >= input.len() {
        Err(bad("request headers are incomplete"@))
    } else {
        match header_step(input.take(n), input[n], max_bytes) {
            Err(refusal) => Err(refusal),
            Ok(true) => Ok(n + 1),
            Ok(false) => header_end(input, n + 1, max_bytes),
        }
    }
}

/// The header block at the beginning of the input.
pub open spec fn header_block(input: Seq<u8>, max_bytes: usize) -> Result<Seq<u8>, Refusal> {
    if max_bytes == 0 {
        Err(headers_too_long())
    } else {
        match header_end(input, 0, max_bytes) {
            Err(refusal) => Err(refusal),
            Ok(end) => Ok(input.take(end)),
        }
    }
}

/// Reads the header block at the beginning of the input.
pub fn read_header_block(input: &Vec<u8>, max_bytes: usize) -> (r: Result<Vec<u8>, RequestFailure>)
    ensures
        bytes_judged(r) == header_block(input@, max_bytes),
        r matches Ok(header) ==> header.len() <= input.len() && header@ == input@.take(
            header.len() as int,
        ),
{
    let mut block = HeaderBlock::new(max_bytes)?;
    let mut n: usize = 0;
    assert(input@.take(0) =~= Seq::<u8>::empty());
    while n < input.len()
        invariant
            n <= input.len(),
            max_bytes > 0,
            block@ == input@.take(n as int),
            block.limit() == max_bytes,
            header_end(input@, 0, max_bytes) == header_end(input@, n as int, max_bytes),
        decreases input.len() - n,
    {
        let complete = block.accept(input[n])?;
        assert(input@.take(n as int).push(input@[n as int]) =~= input@.take(n + 1));
        n = n + 1;
        if complete {
            let header = block.into_bytes();
            assert(header@.len() == n);
            return Ok(header);
        }
    }
    Err(bad_request("request headers are incomplete"))
}

/// What the database is asked for.
#[derive(Debug)]
pub enum HttpRequest {
    Query {
        sql: String,
        response_format: QueryResponseFormat,
        workload_limits: ParameterizedWorkloadLimits,
    },
    /// SQL text that is an insertion if it holds an `INSERT`, and a query otherwise.
    Statements {
        sql: String,
        response_format: QueryResponseFormat,
        workload_limits: ParameterizedWorkloadLimits,
    },
    Insert { sql: String },
    TableInsert { table: String, body: Vec<u8>, input_format: TableInsertFormat },
    Ping,
    Ready,
    Metrics,
}

/// The mathematical content of what the database is asked for.
pub enum Wanted {
    Query {
        sql: Seq<char>,
        response_format: QueryResponseFormat,
        workload_limits: ParameterizedWorkloadLimits,
    },
    Statements {
        sql: Seq<char>,
        response_format: QueryResponseFormat,
        workload_limits: ParameterizedWorkloadLimits,
    },
    Insert { sql: Seq<char> },
    TableInsert { table: Seq<char>, body: Seq<u8>, input_format: TableInsertFormat },
    Ping,
    Ready,
    Metrics,
}

impl View for HttpRequest {
    type V = Wanted;

    open spec fn view(&self) -> Wanted {
        match self {
            HttpRequest::Query { sql, response_format, workload_limits } => Wanted::Query {
                sql: sql@,
                response_format: *response_format,
                workload_limits: *workload_limits,
            },
            HttpRequest::Statements { sql, response_format, workload_limits } => Wanted::Statements {
                sql: sql@,
                response_format: *response_format,
                workload_limits: *workload_limits,
            },
            HttpRequest::Insert { sql } => Wanted::Insert { sql: sql@ },
            HttpRequest::TableInsert { table, body, input_format } => Wanted::TableInsert {
                table: table@,
                body: body@,
                input_format: *input_format,
            },
            HttpRequest::Ping => Wanted::Ping,
            HttpRequest::Ready => Wanted::Ready,
            HttpRequest::Metrics => Wanted::Metrics,
        }
    }
}

/// A request with a refusal by its content.
pub open spec fn request_judged(r: Result<HttpRequest, RequestFailure>) -> Result<Wanted, Refusal> {
    match r {
        Ok(request) => Ok(request@),
        Err(e) => Err(e@),
    }
}

/// The name of a response format.
pub open spec fn format_text(format: QueryResponseFormat) -> Seq<char> {
    match format {
        QueryResponseFormat::Json => "JSON"@,
        QueryResponseFormat::Csv => "CSV"@,
        QueryResponseFormat::CsvWithNames => "CSVWithNames"@,
        QueryResponseFormat::TabSeparated => "TabSeparated"@,
        QueryResponseFormat::TabSeparatedWithNames => "TabSeparatedWithNames"@,
        QueryResponseFormat::JsonEachRow => "JSONEachRow"@,
        QueryResponseFormat::JsonCompactEachRow => "JSONCompactEachRow"@,
    }
}

fn format_name(format: QueryResponseFormat) -> (name: &'static str)
    ensures
        name@ == format_text(format),
{
    match format {
        QueryResponseFormat::Json => "JSON",
        QueryResponseFormat::Csv => "CSV",
        QueryResponseFormat::CsvWithNames => "CSVWithNames",
        QueryResponseFormat::TabSeparated => "TabSeparated",
        QueryResponseFormat::TabSeparatedWithNames => "TabSeparatedWithNames",
        QueryResponseFormat::JsonEachRow => "JSONEachRow",
        QueryResponseFormat::JsonCompactEachRow => "JSONCompactEachRow",
    }
}

/// Whether any of the statements from `i` on is an `INSERT`.
pub open spec fn any_insert(statements: Seq<SqlStatement>, i: int) -> bool
    decreases statements.len() - i,
{
    0 <= i < statements.len() && (statements[i] is Insert || any_insert(statements, i + 1))
}

fn has_insert(statements: &Vec<SqlStatement>) -> (r: bool)
    ensures
        r == any_insert(statements@, 0),
{
    let mut i: usize = 0;
    while i < statements.len()
        invariant
            i <= statements.len(),
            any_insert(statements@, 0) == any_insert(statements@, i as int),
        decreases statements.len() - i,
    {
        if matches!(statements[i], SqlStatement::Insert(_)) {
            return true;
        }
        i = i + 1;
    }
    false
}

/// Whether SQL text holds an `INSERT` among its statements, as far as it can be parsed.
pub open spec fn text_inserts(sql: Seq<char>) -> bool {
    text_statements(sql) matches Ok(statements) && any_insert(statements, 0)
}

/// Decides whether SQL text holds an `INSERT` among its statements.
pub fn holds_insertion(sql: &str) -> (r: bool)
    ensures
        r == text_inserts(sql@),
{
    match parse_text(sql) {
        Ok(statements) => has_insert(&statements),
        Err(_) => false,
    }
}

/// What SQL text asks for. Where `inserts` holds and the text names no format, that is
/// decided by its statements.
pub open spec fn classified(
    sql: Seq<char>,
    format: Option<QueryResponseFormat>,
    limits: ParameterizedWorkloadLimits,
    inserts: bool,
) -> Result<Wanted, Refusal> {
    let (text, named) = format_taken(sql);
    let response_format = match (named, format) {
        (Some(found), _) => found,
        (None, Some(found)) => found,
        (None, None) => QueryResponseFormat::Json,
    };
    match (named, format) {
        (Some(found), Some(_)) => Err(
            bad(
                "FORMAT "@ + format_text(found)
                    + " clause cannot be combined with X-ClickHouse-Format header or default_format parameter"@,
            ),
        ),
        _ => if inserts && named is None {
            Ok(Wanted::Statements { sql: text, response_format, workload_limits: limits })
        } else {
            Ok(Wanted::Query { sql: text, response_format, workload_limits: limits })
        },
    }
}

/// Decides what SQL text asks for.
pub fn classify_standard_query_request(
    sql: String,
    format: Option<QueryResponseFormat>,
    limits: ParameterizedWorkloadLimits,
    inserts: bool,
) -> (r: Result<HttpRequest, RequestFailure>)
    ensures
        request_judged(r) == classified(sql@, format, limits, inserts),
{
    let (sql, named) = take_terminal_query_format(sql);
    let undecided = inserts && named.is_none();
    let response_format = match (named, format) {
        (Some(found), Some(_)) => {
            return Err(
                bad_request(
                    concat3(
                        "FORMAT ",
                        format_name(found),
                        " clause cannot be combined with X-ClickHouse-Format header or default_format parameter",
                    ).as_str(),
                ),
            );
        },
        (Some(found), None) => found,
        (None, Some(found)) => found,
        (None, None) => QueryResponseFormat::Json,
    };
    if undecided {
        Ok(HttpRequest::Statements { sql, response_format, workload_limits: limits })
    } else {
        Ok(HttpRequest::Query { sql, response_format, workload_limits: limits })
    }
}

/// What a request asks for once it is known whether its text holds an `INSERT`: a text with
/// one is an insertion as a whole.
pub open spec fn settled(wanted: Wanted, contains_insert: bool) -> Wanted {
    match wanted {
        Wanted::Statements { sql, response_format, workload_limits } => if contains_insert {
            Wanted::Insert { sql }
        } else {
            Wanted::Query { sql, response_format, workload_limits }
        },
        _ => wanted,
    }
}

/// Decides what a request asks for, given whether its text holds an `INSERT`.
pub fn classify_with(request: HttpRequest, contains_insert: bool) -> (r: HttpRequest)
    ensures
        r@ == settled(request@, contains_insert),
{
    match request {
        HttpRequest::Statements { sql, response_format, workload_limits } => {
            if contains_insert {
                HttpRequest::Insert { sql }
            } else {
                HttpRequest::Query { sql, response_format, workload_limits }
            }
        },
        other => other,
    }
}

/// The name of an insert format.
pub open spec fn insert_format_text(format: TableInsertFormat) -> Seq<char> {
    match format {
        TableInsertFormat::Csv => "CSV"@,
        TableInsertFormat::CsvWithNames => "CSVWithNames"@,
        TableInsertFormat::TabSeparated => "TabSeparated"@,
        TableInsertFormat::TabSeparatedWithNames => "TabSeparatedWithNames"@,
    }
}

fn insert_format_name(format: TableInsertFormat) -> (name: &'static str)
    ensures
        name@ == insert_format_text(format),
{
    match format {
        TableInsertFormat::Csv => "CSV",
        TableInsertFormat::CsvWithNames => "CSVWithNames",
        TableInsertFormat::TabSeparated => "TabSeparated",
        TableInsertFormat::TabSeparatedWithNames => "TabSeparatedWithNames",
    }
}

/// The length of the body to read, which must be declared and within the limit.
pub open spec fn body_length(content_length: Option<usize>, max_bytes: usize) -> Result<usize, Refusal> {
    match content_length {
        None => Err(refused(Status::LengthRequired, "Content-Length header is required"@)),
        Some(n) => if n > max_bytes {
            Err(
                refused(Status::PayloadTooLarge, "request body exceeds configured byte limit"@),
            )
        } else {
            Ok(n)
        },
    }
}

/// Decides how much of a body to read.
pub fn bounded_body_length(content_length: Option<usize>, max_bytes: usize) -> (r: Result<
    usize,
    RequestFailure,
>)
    ensures
        judged(r) == body_length(content_length, max_bytes),
{
    match content_length {
        None => Err(failure(Status::LengthRequired, "Content-Length header is required")),
        Some(n) => if n > max_bytes {
            Err(failure(Status::PayloadTooLarge, "request body exceeds configured byte limit"))
        } else {
            Ok(n)
        },
    }
}

/// Whether a format is one of CSV.
pub open spec fn is_csv(format: TableInsertFormat) -> bool {
    format == TableInsertFormat::Csv || format == TableInsertFormat::CsvWithNames
}

/// The length of a body of rows to read, which must be within both limits.
pub open spec fn rows_length(
    content_length: Option<usize>,
    format: TableInsertFormat,
    limits: HttpQueryLimits,
) -> Result<usize, Refusal> {
    let ingest = if is_csv(format) { limits.csv_ingest_limits } else { limits.tsv_ingest_limits };
    match body_length(content_length, limits.max_sql_bytes) {
        Err(refusal) => Err(refusal),
        Ok(n) => if n > ingest.max_bytes {
            Err(
                bad(
                    (if is_csv(format) { "CSV"@ } else { "TSV"@ }) + " input requires "@ + int_text(
                        n as int,
                    ) + " bytes, exceeding the limit of "@ + int_text(ingest.max_bytes as int)
                        + " bytes"@,
                ),
            )
        } else {
            Ok(n)
        },
    }
}

/// Decides how much of a body of rows to read.
pub fn table_insert_length(
    content_length: Option<usize>,
    format: TableInsertFormat,
    limits: &HttpQueryLimits,
) -> (r: Result<usize, RequestFailure>)
    ensures
        judged(r) == rows_length(content_length, format, *limits),
{
    let csv = match format {
        TableInsertFormat::Csv => true,
        TableInsertFormat::CsvWithNames => true,
        _ => false,
    };
    let max_bytes = if csv {
        limits.csv_ingest_limits.max_bytes
    } else {
        limits.tsv_ingest_limits.max_bytes
    };
    let n = bounded_body_length(content_length, limits.max_sql_bytes)?;
    if n > max_bytes {
        let head = concat2(
            if csv {
                "CSV"
            } else {
                "TSV"
            },
            " input requires ",
        );
        return Err(
            bad_request(
                concat5(
                    head.as_str(),
                    usize_text(n).as_str(),
                    " bytes, exceeding the limit of ",
                    usize_text(max_bytes).as_str(),
                    " bytes",
                ).as_str(),
            ),
        );
    }
    Ok(n)
}

/// How a request goes on behind its headers.
#[derive(Debug)]
pub enum BodyPlan {
    /// No body is read.
    Complete(HttpRequest),
    /// A body with SQL text is read.
    Sql { length: usize, response_format: Option<QueryResponseFormat>, inserts: bool },
    /// A body with `INSERT` statements is read.
    InsertSql { length: usize },
    /// A body with rows is read.
    Rows { table: String, length: usize, input_format: TableInsertFormat },
}

/// The mathematical content of how a request goes on behind its headers.
pub enum Remainder {
    Complete(Wanted),
    Sql { length: usize, response_format: Option<QueryResponseFormat>, inserts: bool },
    InsertSql { length: usize },
    Rows { table: Seq<char>, length: usize, input_format: TableInsertFormat },
}

impl View for BodyPlan {
    type V = Remainder;

    open spec fn view(&self) -> Remainder {
        match self {
            BodyPlan::Complete(request) => Remainder::Complete(request@),
            BodyPlan::Sql { length, response_format, inserts } => Remainder::Sql {
                length: *length,
                response_format: *response_format,
                inserts: *inserts,
            },
            BodyPlan::InsertSql { length } => Remainder::InsertSql { length: *length },
            BodyPlan::Rows { table, length, input_format } => Remainder::Rows {
                table: table@,
                length: *length,
                input_format: *input_format,
            },
        }
    }
}

/// The number of bytes that are read behind the headers.
pub open spec fn remainder_length(remainder: Remainder) -> usize {
    match remainder {
        Remainder::Complete(_) => 0,
        Remainder::Sql { length, .. } => length,
        Remainder::InsertSql { length } => length,
        Remainder::Rows { length, .. } => length,
    }
}

impl BodyPlan {
    /// The number of bytes that are read behind the headers.
    pub fn length(&self) -> (n: usize)
        ensures
            n == remainder_length(self@),
    {
        match self {
            BodyPlan::Complete(_) => 0,
            BodyPlan::Sql { length, .. } => *length,
            BodyPlan::InsertSql { length } => *length,
            BodyPlan::Rows { length, .. } => *length,
        }
    }
}

/// A plan with a refusal by its content.
pub open spec fn plan_judged(r: Result<BodyPlan, RequestFailure>) -> Result<Remainder, Refusal> {
    match r {
        Ok(plan) => Ok(plan@),
        Err(e) => Err(e@),
    }
}

/// Whether a body is declared that is not empty.
pub open spec fn has_body(content_length: Option<usize>) -> bool {
    content_length matches Some(n) && n != 0
}

/// How a query whose SQL stands in the target goes on.
pub open spec fn parameterized_remainder(
    request: Accepted,
    encoded: Seq<u8>,
    method: ParameterizedQueryMethod,
    limits: HttpQueryLimits,
) -> Result<Remainder, Refusal> {
    match query_parameters(encoded, method, limits.max_sql_bytes) {
        Err(refusal) => Err(refusal),
        Ok(p) => {
            let post = method == ParameterizedQueryMethod::Post;
            let inserts = request.access.tightened(p.readonly) == HttpAccess::ReadWrite && post;
            let chosen = request.response_format is Some || p.format is Some;
            let bytes = p.query->Some_0;
            let sql = decode_utf8(bytes);
            if request.response_format is Some && p.format is Some {
                Err(
                    bad(
                        "default_format parameter cannot be combined with X-ClickHouse-Format header"@,
                    ),
                )
            } else if !valid_utf8(bytes) {
                Err(bad("SQL query is not valid UTF-8"@))
            } else if inserts && inserts_into(sql) is Some {
                let (table, format) = inserts_into(sql)->Some_0;
                if chosen {
                    Err(
                        bad(
                            insert_format_text(format)
                                + " INSERT does not accept an output format selector"@,
                        ),
                    )
                } else {
                    match rows_length(request.content_length, format, limits) {
                        Err(refusal) => Err(refusal),
                        Ok(length) => Ok(Remainder::Rows { table, length, input_format: format }),
                    }
                }
            } else if has_body(request.content_length) {
                Err(bad(method.text() + " /?query= does not accept a request body"@))
            } else {
                match classified(
                    sql,
                    if request.response_format is Some { request.response_format } else { p.format },
                    p.limits,
                    inserts && !chosen,
                ) {
                    Err(refusal) => Err(refusal),
                    Ok(wanted) => Ok(Remainder::Complete(wanted)),
                }
            }
        },
    }
}

/// How a request goes on behind its headers.
pub open spec fn remainder(request: Accepted, limits: HttpQueryLimits) -> Result<Remainder, Refusal> {
    match request.asked {
        Asked::Ping => if has_body(request.content_length) {
            Err(bad("GET /ping does not accept a request body"@))
        } else {
            Ok(Remainder::Complete(Wanted::Ping))
        },
        Asked::Ready => if has_body(request.content_length) {
            Err(bad("GET /ready does not accept a request body"@))
        } else {
            Ok(Remainder::Complete(Wanted::Ready))
        },
        Asked::Metrics => if has_body(request.content_length) {
            Err(bad("GET /metrics does not accept a request body"@))
        } else {
            Ok(Remainder::Complete(Wanted::Metrics))
        },
        Asked::BodyQuery => match body_length(request.content_length, limits.max_sql_bytes) {
            Err(refusal) => Err(refusal),
            Ok(length) => Ok(
                Remainder::Sql {
                    length,
                    response_format: request.response_format,
                    inserts: request.access == HttpAccess::ReadWrite && request.response_format is None,
                },
            ),
        },
        Asked::Insert => match body_length(request.content_length, limits.max_sql_bytes) {
            Err(refusal) => Err(refusal),
            Ok(length) => Ok(Remainder::InsertSql { length }),
        },
        Asked::TableInsert(table) => match rows_length(
            request.content_length,
            request.table_insert_format,
            limits,
        ) {
            Err(refusal) => Err(refusal),
            Ok(length) => Ok(
                Remainder::Rows { table, length, input_format: request.table_insert_format },
            ),
        },
        Asked::ParameterizedQuery { encoded_parameters, method } => parameterized_remainder(
            request,
            encoded_parameters,
            method,
            limits,
        ),
    }
}

fn body_declared(content_length: Option<usize>) -> (r: bool)
    ensures
        r == has_body(content_length),
{
    match content_length {
        Some(n) => n != 0,
        None => false,
    }
}

fn plan_parameterized(
    encoded: &Vec<u8>,
    method: ParameterizedQueryMethod,
    content_length: Option<usize>,
    header_format: Option<QueryResponseFormat>,
    access: HttpAccess,
    limits: &HttpQueryLimits,
    Ghost(request): Ghost<Accepted>,
) -> (r: Result<BodyPlan, RequestFailure>)
    requires
        request.content_length == content_length,
        request.response_format == header_format,
        request.access == access,
    ensures
        plan_judged(r) == parameterized_remainder(request, encoded@, method, *limits),
{
    let decoded = decode_query_parameters(encoded, method, limits.max_sql_bytes)?;
    let post = matches!(method, ParameterizedQueryMethod::Post);
    let inserts = access.tighten_for_request(decoded.readonly).allows_insert() && post;
    let chosen = header_format.is_some() || decoded.response_format.is_some();
    let format = match (header_format, decoded.response_format) {
        (Some(_), Some(_)) => return Err(
            bad_request(
                "default_format parameter cannot be combined with X-ClickHouse-Format header",
            ),
        ),
        (Some(format), None) => Some(format),
        (None, other) => other,
    };
    let sql = match text_from_utf8(decoded.sql) {
        None => return Err(bad_request("SQL query is not valid UTF-8")),
        Some(sql) => sql,
    };
    if inserts {
        if let Some((table, input_format)) = parse_parameterized_table_insert(sql.as_str()) {
            if chosen {
                return Err(
                    bad_request(
                        concat2(
                            insert_format_name(input_format),
                            " INSERT does not accept an output format selector",
                        ).as_str(),
                    ),
                );
            }
            let length = table_insert_length(content_length, input_format, limits)?;
            return Ok(BodyPlan::Rows { table, length, input_format });
        }
    }
    if body_declared(content_length) {
        return Err(
            bad_request(
                concat2(method.name(), " /?query= does not accept a request body").as_str(),
            ),
        );
    }
    let request = classify_standard_query_request(
        sql,
        format,
        decoded.workload_limits,
        inserts && !chosen,
    )?;
    Ok(BodyPlan::Complete(request))
}

/// Decides how a request goes on behind its headers.
pub fn plan_body(request: ParsedRequest, limits: &HttpQueryLimits) -> (r: Result<
    BodyPlan,
    RequestFailure,
>)
    ensures
        plan_judged(r) == remainder(request@, *limits),
{
    let ghost view = request@;
    let content_length = request.content_length;
    match request.kind {
        RequestKind::Ping => if body_declared(content_length) {
            Err(bad_request("GET /ping does not accept a request body"))
        } else {
            Ok(BodyPlan::Complete(HttpRequest::Ping))
        },
        RequestKind::Ready => if body_declared(content_length) {
            Err(bad_request("GET /ready does not accept a request body"))
        } else {
            Ok(BodyPlan::Complete(HttpRequest::Ready))
        },
        RequestKind::Metrics => if body_declared(content_length) {
            Err(bad_request("GET /metrics does not accept a request body"))
        } else {
            Ok(BodyPlan::Complete(HttpRequest::Metrics))
        },
        RequestKind::BodyQuery => {
            let length = bounded_body_length(content_length, limits.max_sql_bytes)?;
            Ok(
                BodyPlan::Sql {
                    length,
                    response_format: request.response_format,
                    inserts: request.access.allows_insert() && request.response_format.is_none(),
                },
            )
        },
        RequestKind::Insert => {
            let length = bounded_body_length(content_length, limits.max_sql_bytes)?;
            Ok(BodyPlan::InsertSql { length })
        },
        RequestKind::TableInsert(table) => {
            let input_format = request.table_insert_format;
            let length = table_insert_length(content_length, input_format, limits)?;
            Ok(BodyPlan::Rows { table, length, input_format })
        },
        RequestKind::ParameterizedQuery { encoded_parameters, method } => plan_parameterized(
            &encoded_parameters,
            method,
            content_length,
            request.response_format,
            request.access,
            limits,
            Ghost(view),
        ),
    }
}

/// The request that a body completes.
pub open spec fn completed(rest: Remainder, body: Seq<u8>) -> Result<Wanted, Refusal> {
    match rest {
        Remainder::Complete(wanted) => Ok(wanted),
        Remainder::Sql { response_format, inserts, .. } => if !valid_utf8(body) {
            Err(bad("SQL body is not valid UTF-8"@))
        } else {
            classified(
                decode_utf8(body),
                response_format,
                ParameterizedWorkloadLimits::unset(),
                inserts,
            )
        },
        Remainder::InsertSql { .. } => if !valid_utf8(body) {
            Err(bad("SQL body is not valid UTF-8"@))
        } else {
            Ok(Wanted::Insert { sql: decode_utf8(body) })
        },
        Remainder::Rows { table, input_format, .. } => Ok(
            Wanted::TableInsert { table, body, input_format },
        ),
    }
}

/// Completes a request with its body.
pub fn complete_request(plan: BodyPlan, body: Vec<u8>) -> (r: Result<HttpRequest, RequestFailure>)
    ensures
        request_judged(r) == completed(plan@, body@),
{
    match plan {
        BodyPlan::Complete(request) => Ok(request),
        BodyPlan::Sql { response_format, inserts, .. } => match text_from_utf8(body) {
            None => Err(bad_request("SQL body is not valid UTF-8")),
            Some(sql) => classify_standard_query_request(
                sql,
                response_format,
                ParameterizedWorkloadLimits::none(),
                inserts,
            ),
        },
        BodyPlan::InsertSql { .. } => match text_from_utf8(body) {
            None => Err(bad_request("SQL body is not valid UTF-8")),
            Some(sql) => Ok(HttpRequest::Insert { sql }),
        },
        BodyPlan::Rows { table, input_format, .. } => Ok(
            HttpRequest::TableInsert { table, body, input_format },
        ),
    }
}

/// The request at the beginning of the input.
pub open spec fn request_in(
    input: Seq<u8>,
    limits: HttpQueryLimits,
    required: Required,
    access: HttpAccess,
) -> Result<Wanted, Refusal> {
    match header_block(input, limits.max_header_bytes) {
        Err(refusal) => Err(refusal),
        Ok(header) => match parsed(header, limits.max_header_count, required, access) {
            Err(refusal) => Err(refusal),
            Ok(request) => match remainder(request, limits) {
                Err(refusal) => Err(refusal),
                Ok(rest) => {
                    let end = header.len() + remainder_length(rest);
                    if end > input.len() {
                        Err(bad("request body is shorter than Content-Length"@))
                    } else {
                        completed(rest, input.subrange(header.len() as int, end as int))
                    }
                },
            },
        },
    }
}

/// Reads the request at the beginning of the input: one header block, then exactly the
/// body that it declares.
pub fn read_request(
    input: &Vec<u8>,
    limits: &HttpQueryLimits,
    authentication: &Authentication<'_>,
    access: HttpAccess,
) -> (r: Result<HttpRequest, RequestFailure>)
    ensures
        request_judged(r) == request_in(input@, *limits, authentication@, access),
{
    let header = read_header_block(input, limits.max_header_bytes)?;
    let request = parse_headers(&header, limits.max_header_count, authentication, access)?;
    let plan = plan_body(request, limits)?;
    let length = plan.length();
    if length > input.len() - header.len() {
        return Err(bad_request("request body is shorter than Content-Length"));
    }
    let body = copy_range(input, header.len(), header.len() + length);
    complete_request(plan, body)
}

} // verus!
