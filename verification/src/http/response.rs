//! HTTP responses of bounded size.

use vstd::prelude::*;
use vstd::utf8::{is_ascii_chars, is_ascii_chars_encode_utf8};
use crate::budget::sat_add;
use crate::bytes::{append_bytes, append_text, text_bytes, utf8};
use crate::json_text::{json_quoted, push_json_string};
use crate::text::{byte_len, digits, int_text, usize_text};

verus! {

/// The status of a response.
#[derive(Clone, Copy, Debug, PartialEq, Eq, Structural)]
pub enum Status {
    Success,
    BadRequest,
    Unauthorized,
    NotFound,
    MethodNotAllowed,
    LengthRequired,
    PayloadTooLarge,
    ExpectationFailed,
    RequestHeaderFieldsTooLarge,
    InternalServerError,
    ServiceUnavailable,
    HttpVersionNotSupported,
}

impl Status {
    /// The number of the status.
    pub open spec fn number(self) -> int {
        match self {
            Status::Success => 200,
            Status::BadRequest => 400,
            Status::Unauthorized => 401,
            Status::NotFound => 404,
            Status::MethodNotAllowed => 405,
            Status::LengthRequired => 411,
            Status::PayloadTooLarge => 413,
            Status::ExpectationFailed => 417,
            Status::RequestHeaderFieldsTooLarge => 431,
            Status::InternalServerError => 500,
            Status::ServiceUnavailable => 503,
            Status::HttpVersionNotSupported => 505,
        }
    }

    /// The reason phrase of the status.
    pub open spec fn phrase(self) -> Seq<char> {
        match self {
            Status::Success => "OK"@,
            Status::BadRequest => "Bad Request"@,
            Status::Unauthorized => "Unauthorized"@,
            Status::NotFound => "Not Found"@,
            Status::MethodNotAllowed => "Method Not Allowed"@,
            Status::LengthRequired => "Length Required"@,
            Status::PayloadTooLarge => "Payload Too Large"@,
            Status::ExpectationFailed => "Expectation Failed"@,
            Status::RequestHeaderFieldsTooLarge => "Request Header Fields Too Large"@,
            Status::InternalServerError => "Internal Server Error"@,
            Status::ServiceUnavailable => "Service Unavailable"@,
            Status::HttpVersionNotSupported => "HTTP Version Not Supported"@,
        }
    }

    /// Returns the number of the status.
    pub fn code(self) -> (code: usize)
        ensures
            code == self.number(),
    {
        match self {
            Status::Success => 200,
            Status::BadRequest => 400,
            Status::Unauthorized => 401,
            Status::NotFound => 404,
            Status::MethodNotAllowed => 405,
            Status::LengthRequired => 411,
            Status::PayloadTooLarge => 413,
            Status::ExpectationFailed => 417,
            Status::RequestHeaderFieldsTooLarge => 431,
            Status::InternalServerError => 500,
            Status::ServiceUnavailable => 503,
            Status::HttpVersionNotSupported => 505,
        }
    }

    /// Returns the reason phrase of the status.
    pub fn reason(self) -> (reason: &'static str)
        ensures
            reason@ == self.phrase(),
    {
        match self {
            Status::Success => "OK",
            Status::BadRequest => "Bad Request",
            Status::Unauthorized => "Unauthorized",
            Status::NotFound => "Not Found",
            Status::MethodNotAllowed => "Method Not Allowed",
            Status::LengthRequired => "Length Required",
            Status::PayloadTooLarge => "Payload Too Large",
            Status::ExpectationFailed => "Expectation Failed",
            Status::RequestHeaderFieldsTooLarge => "Request Header Fields Too Large",
            Status::InternalServerError => "Internal Server Error",
            Status::ServiceUnavailable => "Service Unavailable",
            Status::HttpVersionNotSupported => "HTTP Version Not Supported",
        }
    }
}

/// A header line that a refusal may carry.
#[derive(Clone, Copy, Debug, PartialEq, Eq, Structural)]
pub enum ExtraHeader {
    Nothing,
    AllowPost,
    AllowGet,
    AllowGetAndPost,
    BearerChallenge,
    KeyChallenge,
    PrincipalChallenge,
}

impl ExtraHeader {
    /// The line with its terminator, or nothing.
    pub open spec fn text(self) -> Seq<char> {
        match self {
            ExtraHeader::Nothing => ""@,
            ExtraHeader::AllowPost => "Allow: POST\r\n"@,
            ExtraHeader::AllowGet => "Allow: GET\r\n"@,
            ExtraHeader::AllowGetAndPost => "Allow: GET, POST\r\n"@,
            ExtraHeader::BearerChallenge => "WWW-Authenticate: Bearer\r\n"@,
            ExtraHeader::KeyChallenge => "WWW-Authenticate: X-ClickHouse-Key\r\n"@,
            ExtraHeader::PrincipalChallenge =>
                "WWW-Authenticate: X-ClickHouse-User, X-ClickHouse-Key\r\n"@,
        }
    }

    /// Returns the line with its terminator, or nothing.
    pub fn line(self) -> (line: &'static str)
        ensures
            line@ == self.text(),
    {
        match self {
            ExtraHeader::Nothing => "",
            ExtraHeader::AllowPost => "Allow: POST\r\n",
            ExtraHeader::AllowGet => "Allow: GET\r\n",
            ExtraHeader::AllowGetAndPost => "Allow: GET, POST\r\n",
            ExtraHeader::BearerChallenge => "WWW-Authenticate: Bearer\r\n",
            ExtraHeader::KeyChallenge => "WWW-Authenticate: X-ClickHouse-Key\r\n",
            ExtraHeader::PrincipalChallenge =>
                "WWW-Authenticate: X-ClickHouse-User, X-ClickHouse-Key\r\n",
        }
    }
}

/// The type of a response body.
#[derive(Clone, Copy, Debug, PartialEq, Eq, Structural)]
pub enum ContentType {
    Csv,
    Json,
    Text,
    Tsv,
    Prometheus,
}

impl ContentType {
    /// The value of the `Content-Type` header.
    pub open spec fn text(self) -> Seq<char> {
        match self {
            ContentType::Csv => "text/csv; charset=utf-8"@,
            ContentType::Json => "application/json"@,
            ContentType::Text => "text/plain; charset=utf-8"@,
            ContentType::Tsv => "text/tab-separated-values; charset=utf-8"@,
            ContentType::Prometheus => "text/plain; version=0.0.4; charset=utf-8"@,
        }
    }

    /// Returns the value of the `Content-Type` header.
    pub fn value(self) -> (value: &'static str)
        ensures
            value@ == self.text(),
    {
        match self {
            ContentType::Csv => "text/csv; charset=utf-8",
            ContentType::Json => "application/json",
            ContentType::Text => "text/plain; charset=utf-8",
            ContentType::Tsv => "text/tab-separated-values; charset=utf-8",
            ContentType::Prometheus => "text/plain; version=0.0.4; charset=utf-8",
        }
    }
}

/// The header line that keeps responses out of shared caches, where `private` holds.
pub open spec fn cache_text(private: bool) -> Seq<char> {
    if private {
        "Cache-Control: private, no-store\r\n"@
    } else {
        ""@
    }
}

fn cache_line(private: bool) -> (line: &'static str)
    ensures
        line@ == cache_text(private),
{
    if private {
        "Cache-Control: private, no-store\r\n"
    } else {
        ""
    }
}

/// The head of a response, up to and with the empty line.
pub open spec fn response_head(
    status: Status,
    extra: ExtraHeader,
    private: bool,
    content_type: ContentType,
    body_len: int,
) -> Seq<u8> {
    utf8("HTTP/1.1 "@) + utf8(int_text(status.number())) + utf8(" "@) + utf8(status.phrase()) + utf8(
        "\r\nContent-Type: "@,
    ) + utf8(content_type.text()) + utf8("\r\nContent-Length: "@) + utf8(int_text(body_len)) + utf8(
        "\r\nConnection: close\r\n"@,
    ) + utf8(extra.text()) + utf8(cache_text(private)) + utf8("\r\n"@)
}

/// A complete response.
pub open spec fn response_bytes(
    status: Status,
    extra: ExtraHeader,
    private: bool,
    content_type: ContentType,
    body: Seq<u8>,
) -> Seq<u8> {
    response_head(status, extra, private, content_type, body.len() as int) + body
}

/// A length, or the largest machine integer if it exceeds that.
pub open spec fn capped(n: int) -> usize {
    if n > usize::MAX {
        usize::MAX
    } else {
        n as usize
    }
}

proof fn digits_are_ascii(n: nat)
    ensures
        is_ascii_chars(digits(n)),
    decreases n,
{
    if n >= 10 {
        digits_are_ascii(n / 10);
    }
}

/// The number of decimal digits of a length.
pub fn usize_decimal_len(value: usize) -> (n: usize)
    ensures
        n == digits(value as nat).len(),
        n == utf8(int_text(value as int)).len(),
{
    let mut rest = value;
    let mut n: usize = 1;
    while rest >= 10
        invariant
            digits(value as nat).len() == digits(rest as nat).len() + n - 1,
            1 <= n,
            n + rest <= value + 1,
        decreases rest,
    {
        rest = rest / 10;
        n = n + 1;
    }
    proof {
        digits_are_ascii(value as nat);
        is_ascii_chars_encode_utf8(digits(value as nat));
    }
    n
}

/// The length of a complete response whose body has a given length.
pub fn response_len(
    status: Status,
    extra: ExtraHeader,
    private: bool,
    content_type: ContentType,
    body_len: usize,
) -> (n: usize)
    ensures
        n == capped(
            response_head(status, extra, private, content_type, body_len as int).len() + body_len,
        ),
{
    let mut n: usize = byte_len("HTTP/1.1 ");
    n = sat_add(n, usize_decimal_len(status.code()));
    n = sat_add(n, byte_len(" "));
    n = sat_add(n, byte_len(status.reason()));
    n = sat_add(n, byte_len("\r\nContent-Type: "));
    n = sat_add(n, byte_len(content_type.value()));
    n = sat_add(n, byte_len("\r\nContent-Length: "));
    n = sat_add(n, usize_decimal_len(body_len));
    n = sat_add(n, byte_len("\r\nConnection: close\r\n"));
    n = sat_add(n, byte_len(extra.line()));
    n = sat_add(n, byte_len(cache_line(private)));
    n = sat_add(n, byte_len("\r\n"));
    sat_add(n, body_len)
}

/// A response that must fit into a limit; otherwise the length that it would have.
pub open spec fn prepared(
    status: Status,
    extra: ExtraHeader,
    private: bool,
    content_type: ContentType,
    body: Seq<u8>,
    max_bytes: usize,
) -> Result<Seq<u8>, usize> {
    let response = response_bytes(status, extra, private, content_type, body);
    if response.len() > max_bytes {
        Err(capped(response.len() as int))
    } else {
        Ok(response)
    }
}

/// Makes a complete response if it fits into a limit.
pub fn prepare_response(
    status: Status,
    extra: ExtraHeader,
    private: bool,
    content_type: ContentType,
    body: &Vec<u8>,
    max_bytes: usize,
) -> (r: Result<Vec<u8>, usize>)
    ensures
        match r {
            Ok(response) => prepared(status, extra, private, content_type, body@, max_bytes) == Ok::<
                Seq<u8>,
                usize,
            >(response@),
            Err(n) => prepared(status, extra, private, content_type, body@, max_bytes) == Err::<
                Seq<u8>,
                usize,
            >(n),
        },
{
    let length = response_len(status, extra, private, content_type, body.len());
    if length > max_bytes {
        return Err(length);
    }
    let ghost whole = response_bytes(status, extra, private, content_type, body@);
    let mut response: Vec<u8> = text_bytes("HTTP/1.1 ");
    append_text(&mut response, usize_text(status.code()).as_str());
    append_text(&mut response, " ");
    append_text(&mut response, status.reason());
    append_text(&mut response, "\r\nContent-Type: ");
    append_text(&mut response, content_type.value());
    append_text(&mut response, "\r\nContent-Length: ");
    append_text(&mut response, usize_text(body.len()).as_str());
    append_text(&mut response, "\r\nConnection: close\r\n");
    append_text(&mut response, extra.line());
    append_text(&mut response, cache_line(private));
    append_text(&mut response, "\r\n");
    append_bytes(&mut response, body);
    assert(response@ == whole);
    if length == usize::MAX {
        assert(response@.len() == response.len());
    }
    Ok(response)
}

/// A failure to answer within the response limit.
#[derive(Debug, Clone, PartialEq, Eq)]
pub enum HttpQueryError {
    /// Reading the request failed.
    Read(String),
    /// Writing the prepared response failed.
    Write(String),
    /// The configured response cap cannot hold the fixed limit-error response.
    ResponseLimitExceeded { bytes: usize, max_bytes: usize },
}

impl HttpQueryError {
    /// The text of the error.
    pub open spec fn text(self) -> Seq<char> {
        match self {
            HttpQueryError::Read(error) => "could not read HTTP request: "@ + error@,
            HttpQueryError::Write(error) => "could not write HTTP response: "@ + error@,
            HttpQueryError::ResponseLimitExceeded { bytes, max_bytes } => "HTTP response requires "@
                + int_text(bytes as int) + " bytes, exceeding the limit of "@ + int_text(
                max_bytes as int,
            ) + " bytes"@,
        }
    }

    /// Returns the text of the error.
    pub fn message(&self) -> (s: String)
        ensures
            s@ == self.text(),
    {
        match self {
            HttpQueryError::Read(error) => crate::text::concat2(
                "could not read HTTP request: ",
                error.as_str(),
            ),
            HttpQueryError::Write(error) => crate::text::concat2(
                "could not write HTTP response: ",
                error.as_str(),
            ),
            HttpQueryError::ResponseLimitExceeded { bytes, max_bytes } => crate::text::concat5(
                "HTTP response requires ",
                usize_text(*bytes).as_str(),
                " bytes, exceeding the limit of ",
                usize_text(*max_bytes).as_str(),
                " bytes",
            ),
        }
    }
}

/// The JSON object that carries an error message.
pub open spec fn error_body(message: Seq<char>) -> Seq<char> {
    "{\"error\":"@ + json_quoted(message) + "}"@
}

fn make_error_body(message: &str) -> (body: Vec<u8>)
    ensures
        body@ == utf8(error_body(message@)),
{
    let mut text = "{\"error\":".to_owned();
    push_json_string(&mut text, message);
    let whole = crate::text::concat2(text.as_str(), "}");
    text_bytes(whole.as_str())
}

/// The bytes to send, or why none can be sent.
pub open spec fn sent(r: Result<Vec<u8>, HttpQueryError>) -> Result<Seq<u8>, HttpQueryError> {
    match r {
        Ok(bytes) => Ok(bytes@),
        Err(e) => Err(e),
    }
}

/// The response that tells that the proper one is too large.
pub open spec fn limit_response(private: bool, max_bytes: usize) -> Result<Seq<u8>, HttpQueryError> {
    match prepared(
        Status::InternalServerError,
        ExtraHeader::Nothing,
        private,
        ContentType::Json,
        utf8(error_body("response exceeds configured byte limit"@)),
        max_bytes,
    ) {
        Ok(response) => Ok(response),
        Err(bytes) => Err(HttpQueryError::ResponseLimitExceeded { bytes, max_bytes }),
    }
}

/// Makes the response that tells that the proper one is too large.
pub fn write_response_limit_error(private: bool, max_bytes: usize) -> (r: Result<
    Vec<u8>,
    HttpQueryError,
>)
    ensures
        sent(r) == limit_response(private, max_bytes),
{
    let body = make_error_body("response exceeds configured byte limit");
    match prepare_response(
        Status::InternalServerError,
        ExtraHeader::Nothing,
        private,
        ContentType::Json,
        &body,
        max_bytes,
    ) {
        Ok(response) => Ok(response),
        Err(bytes) => Err(HttpQueryError::ResponseLimitExceeded { bytes, max_bytes }),
    }
}

/// The response with a body, or the one that tells that it is too large.
pub open spec fn bounded_response(
    status: Status,
    extra: ExtraHeader,
    private: bool,
    content_type: ContentType,
    body: Seq<u8>,
    max_bytes: usize,
) -> Result<Seq<u8>, HttpQueryError> {
    match prepared(status, extra, private, content_type, body, max_bytes) {
        Ok(response) => Ok(response),
        Err(_) => limit_response(private, max_bytes),
    }
}

/// Makes the response with a body, or the one that tells that it is too large.
pub fn write_response(
    status: Status,
    extra: ExtraHeader,
    private: bool,
    content_type: ContentType,
    body: &Vec<u8>,
    max_bytes: usize,
) -> (r: Result<Vec<u8>, HttpQueryError>)
    ensures
        sent(r) == bounded_response(status, extra, private, content_type, body@, max_bytes),
{
    match prepare_response(status, extra, private, content_type, body, max_bytes) {
        Ok(response) => Ok(response),
        Err(_) => write_response_limit_error(private, max_bytes),
    }
}

/// The response with an error message.
pub open spec fn error_response(
    status: Status,
    extra: ExtraHeader,
    private: bool,
    message: Seq<char>,
    max_bytes: usize,
) -> Result<Seq<u8>, HttpQueryError> {
    bounded_response(
        status,
        extra,
        private,
        ContentType::Json,
        utf8(error_body(message)),
        max_bytes,
    )
}

/// Makes the response with an error message.
pub fn write_error_response(
    status: Status,
    extra: ExtraHeader,
    private: bool,
    message: &str,
    max_bytes: usize,
) -> (r: Result<Vec<u8>, HttpQueryError>)
    ensures
        sent(r) == error_response(status, extra, private, message@, max_bytes),
{
    let body = make_error_body(message);
    write_response(status, extra, private, ContentType::Json, &body, max_bytes)
}

/// No response is larger than the limit.
pub proof fn responses_fit(
    status: Status,
    extra: ExtraHeader,
    private: bool,
    content_type: ContentType,
    body: Seq<u8>,
    max_bytes: usize,
)
    ensures
        bounded_response(status, extra, private, content_type, body, max_bytes) matches Ok(response)
            ==> response.len() <= max_bytes,
{
}

/// Bytes that are collected up to a limit.
#[derive(Debug)]
pub struct BoundedVec {
    bytes: Vec<u8>,
    max_bytes: usize,
    limit_exceeded: bool,
}

impl BoundedVec {
    /// The bytes so far.
    pub closed spec fn view(&self) -> Seq<u8> {
        self.bytes@
    }

    /// The largest number of bytes.
    pub closed spec fn limit(&self) -> usize {
        self.max_bytes
    }

    /// Whether bytes were refused.
    pub closed spec fn exceeded(&self) -> bool {
        self.limit_exceeded
    }

    /// Starts without bytes.
    pub fn new(max_bytes: usize) -> (b: BoundedVec)
        ensures
            b@ == Seq::<u8>::empty(),
            b.limit() == max_bytes,
            !b.exceeded(),
    {
        BoundedVec { bytes: Vec::new(), max_bytes, limit_exceeded: false }
    }

    /// Adds all of some bytes, or none where they would exceed the limit.
    pub fn write(&mut self, buffer: &[u8]) -> (r: Result<usize, String>)
        ensures
            final(self).limit() == old(self).limit(),
            if old(self)@.len() + buffer@.len() > old(self).limit() {
                &&& r matches Err(message) && message@ == "response byte limit exceeded"@
                &&& final(self)@ == old(self)@
                &&& final(self).exceeded()
            } else {
                &&& r == Ok::<usize, String>(buffer.len())
                &&& final(self)@ == old(self)@ + buffer@
                &&& final(self).exceeded() == old(self).exceeded()
            },
    {
        let fits = match self.bytes.len().checked_add(buffer.len()) {
            Some(total) => total <= self.max_bytes,
            None => false,
        };
        if !fits {
            self.limit_exceeded = true;
            return Err("response byte limit exceeded".to_owned());
        }
        self.bytes.extend_from_slice(buffer);
        Ok(buffer.len())
    }

    /// The bytes, unless some were refused.
    pub fn finish(self) -> (r: Option<Vec<u8>>)
        ensures
            match r {
                Some(bytes) => !self.exceeded() && bytes@ == self@,
                None => self.exceeded(),
            },
    {
        if self.limit_exceeded {
            None
        } else {
            Some(self.bytes)
        }
    }
}

} // verus!
