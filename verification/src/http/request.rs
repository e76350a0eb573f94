//! Requests: their kinds, and the refusals of malformed ones.

use vstd::prelude::*;
use crate::bytes::{begins_with, bytes_are, byte_lists, copy_range, parts, split, starts_with, text_from_utf8, utf8};
use crate::http::response::{ExtraHeader, Status};
use crate::text::chars_of;
use vstd::utf8::{decode_utf8, valid_utf8};

verus! {

/// Why a request is refused.
#[derive(Debug)]
pub struct RequestFailure {
    pub status: Status,
    pub message: String,
    pub extra: ExtraHeader,
}

/// The mathematical content of a refusal.
pub struct Refusal {
    pub status: Status,
    pub message: Seq<char>,
    pub extra: ExtraHeader,
}

impl View for RequestFailure {
    type V = Refusal;

    open spec fn view(&self) -> Refusal {
        Refusal { status: self.status, message: self.message@, extra: self.extra }
    }
}

/// A refusal without a header line of its own.
pub open spec fn refused(status: Status, message: Seq<char>) -> Refusal {
    Refusal { status, message, extra: ExtraHeader::Nothing }
}

/// A refusal as a malformed request.
pub open spec fn bad(message: Seq<char>) -> Refusal {
    refused(Status::BadRequest, message)
}

/// Makes a refusal without a header line of its own.
pub fn failure(status: Status, message: &str) -> (r: RequestFailure)
    ensures
        r@ == refused(status, message@),
{
    RequestFailure { status, message: message.to_owned(), extra: ExtraHeader::Nothing }
}

/// Makes a refusal as a malformed request.
pub fn bad_request(message: &str) -> (r: RequestFailure)
    ensures
        r@ == bad(message@),
{
    failure(Status::BadRequest, message)
}

/// Makes a refusal with a header line of its own.
pub fn failure_with(status: Status, message: &str, extra: ExtraHeader) -> (r: RequestFailure)
    ensures
        r@ == (Refusal { status, message: message@, extra }),
{
    RequestFailure { status, message: message.to_owned(), extra }
}

/// A result with a refusal by its content.
pub open spec fn judged<T>(r: Result<T, RequestFailure>) -> Result<T, Refusal> {
    match r {
        Ok(value) => Ok(value),
        Err(e) => Err(e@),
    }
}

/// Bytes with a refusal by its content.
pub open spec fn bytes_judged(r: Result<Vec<u8>, RequestFailure>) -> Result<Seq<u8>, Refusal> {
    match r {
        Ok(bytes) => Ok(bytes@),
        Err(e) => Err(e@),
    }
}

/// The format of a query's response.
#[derive(Clone, Copy, Debug, PartialEq, Eq, Structural)]
pub enum QueryResponseFormat {
    Json,
    Csv,
    CsvWithNames,
    TabSeparated,
    TabSeparatedWithNames,
    JsonEachRow,
    JsonCompactEachRow,
}

/// The format of the rows that are inserted into a table.
#[derive(Clone, Copy, Debug, PartialEq, Eq, Structural)]
pub enum TableInsertFormat {
    Csv,
    CsvWithNames,
    TabSeparated,
    TabSeparatedWithNames,
}

/// The method of a query whose SQL stands in the target.
#[derive(Clone, Copy, Debug, PartialEq, Eq, Structural)]
pub enum ParameterizedQueryMethod {
    Get,
    Post,
}

impl ParameterizedQueryMethod {
    /// The name of the method.
    pub open spec fn text(self) -> Seq<char> {
        match self {
            ParameterizedQueryMethod::Get => "GET"@,
            ParameterizedQueryMethod::Post => "POST"@,
        }
    }

    /// Returns the name of the method.
    pub fn name(self) -> (name: &'static str)
        ensures
            name@ == self.text(),
    {
        match self {
            ParameterizedQueryMethod::Get => "GET",
            ParameterizedQueryMethod::Post => "POST",
        }
    }
}

/// What a request asks for.
#[derive(Debug)]
pub enum RequestKind {
    /// A query whose SQL stands in the body.
    BodyQuery,
    /// A query whose SQL stands in the target.
    ParameterizedQuery { encoded_parameters: Vec<u8>, method: ParameterizedQueryMethod },
    Insert,
    TableInsert(String),
    Ping,
    Ready,
    Metrics,
}

/// The mathematical content of what a request asks for.
pub enum Asked {
    BodyQuery,
    ParameterizedQuery { encoded_parameters: Seq<u8>, method: ParameterizedQueryMethod },
    Insert,
    TableInsert(Seq<char>),
    Ping,
    Ready,
    Metrics,
}

impl View for RequestKind {
    type V = Asked;

    open spec fn view(&self) -> Asked {
        match self {
            RequestKind::BodyQuery => Asked::BodyQuery,
            RequestKind::ParameterizedQuery { encoded_parameters, method } =>
                Asked::ParameterizedQuery { encoded_parameters: encoded_parameters@, method: *method },
            RequestKind::Insert => Asked::Insert,
            RequestKind::TableInsert(table) => Asked::TableInsert(table@),
            RequestKind::Ping => Asked::Ping,
            RequestKind::Ready => Asked::Ready,
            RequestKind::Metrics => Asked::Metrics,
        }
    }
}

/// Whether a character may begin a table name.
pub open spec fn begins_name(c: char) -> bool {
    'a' <= c <= 'z' || 'A' <= c <= 'Z' || c == '_'
}

/// Whether a character may go on in a table name.
pub open spec fn continues_name(c: char) -> bool {
    begins_name(c) || '0' <= c <= '9'
}

/// Whether a text is a table name: a letter or an underscore, then letters, digits and
/// underscores, all ASCII.
pub open spec fn is_table_name(s: Seq<char>) -> bool {
    &&& s.len() > 0
    &&& begins_name(s[0])
    &&& forall|i: int| 0 <= i < s.len() ==> continues_name(#[trigger] s[i])
}

/// Decides whether a text is a table name.
pub fn validate_table_name(s: &str) -> (r: bool)
    ensures
        r == is_table_name(s@),
{
    let chars = chars_of(s);
    if chars.len() == 0 {
        return false;
    }
    let first = chars[0];
    if !(('a' <= first && first <= 'z') || ('A' <= first && first <= 'Z') || first == '_') {
        return false;
    }
    let mut i: usize = 0;
    while i < chars.len()
        invariant
            i <= chars.len(),
            chars@ == s@,
            forall|k: int| 0 <= k < i ==> continues_name(#[trigger] s@[k]),
        decreases chars.len() - i,
    {
        let c = chars[i];
        if !(('a' <= c && c <= 'z') || ('A' <= c && c <= 'Z') || c == '_' || ('0' <= c && c
            <= '9')) {
            assert(!continues_name(s@[i as int]));
            return false;
        }
        i = i + 1;
    }
    true
}

/// The table that an insert target names.
pub open spec fn target_table(target: Seq<u8>) -> Option<Seq<char>> {
    let prefix = utf8("/insert/"@);
    if !begins_with(target, prefix) {
        None
    } else {
        let name = target.skip(prefix.len() as int);
        if valid_utf8(name) && is_table_name(decode_utf8(name)) {
            Some(decode_utf8(name))
        } else {
            None
        }
    }
}

/// Finds the table that an insert target names.
pub fn parse_table_insert_target(target: &Vec<u8>) -> (r: Option<String>)
    ensures
        match r {
            Some(table) => target_table(target@) == Some(table@),
            None => target_table(target@) is None,
        },
{
    if !starts_with(target, "/insert/") {
        return None;
    }
    let from = crate::text::byte_len("/insert/");
    let rest = copy_range(target, from, target.len());
    assert(rest@ =~= target@.skip(from as int));
    match text_from_utf8(rest) {
        None => None,
        Some(table) => if validate_table_name(table.as_str()) {
            Some(table)
        } else {
            None
        },
    }
}

/// The beginnings of targets that carry query parameters.
pub open spec fn is_parameter_target(target: Seq<u8>) -> bool {
    ||| begins_with(target, utf8("/?query="@))
    ||| begins_with(target, utf8("/?database="@))
    ||| begins_with(target, utf8("/?max_result_bytes="@))
    ||| begins_with(target, utf8("/?max_result_rows="@))
    ||| begins_with(target, utf8("/?max_result_values="@))
    ||| begins_with(target, utf8("/?max_rows_to_read="@))
    ||| begins_with(target, utf8("/?max_rows_to_group_by="@))
    ||| begins_with(target, utf8("/?max_ordering_state_bytes="@))
    ||| begins_with(target, utf8("/?max_aggregate_state_bytes="@))
    ||| begins_with(target, utf8("/?max_threads="@))
    ||| begins_with(target, utf8("/?readonly="@))
    ||| begins_with(target, utf8("/?default_format="@))
}

fn parameter_target(target: &Vec<u8>) -> (r: bool)
    ensures
        r == is_parameter_target(target@),
{
    starts_with(target, "/?query=") || starts_with(target, "/?database=") || starts_with(
        target,
        "/?max_result_bytes=",
    ) || starts_with(target, "/?max_result_rows=") || starts_with(target, "/?max_result_values=")
        || starts_with(target, "/?max_rows_to_read=") || starts_with(
        target,
        "/?max_rows_to_group_by=",
    ) || starts_with(target, "/?max_ordering_state_bytes=") || starts_with(
        target,
        "/?max_aggregate_state_bytes=",
    ) || starts_with(target, "/?max_threads=") || starts_with(target, "/?readonly=")
        || starts_with(target, "/?default_format=")
}

/// The refusal of a method on a known target.
pub open spec fn wrong_method(message: Seq<char>, extra: ExtraHeader) -> Refusal {
    Refusal { status: Status::MethodNotAllowed, message, extra }
}

/// The refusal of an unknown target of a `POST`.
pub open spec fn unknown_target() -> Refusal {
    refused(Status::NotFound, "request target must be / or /query"@)
}

/// What a method asks of a target. Insert targets are known only where `inserts` holds.
pub open spec fn asked_of(method: Seq<u8>, target: Seq<u8>, inserts: bool) -> Result<Asked, Refusal> {
    let post = method == utf8("POST"@);
    let get = method == utf8("GET"@);
    let parameters = target.skip(utf8("/?"@).len() as int);
    let root = target == utf8("/"@) || target == utf8("/query"@);
    if post && root {
        Ok(Asked::BodyQuery)
    } else if post && inserts && target == utf8("/insert"@) {
        Ok(Asked::Insert)
    } else if post && inserts && begins_with(target, utf8("/insert/"@)) {
        match target_table(target) {
            Some(table) => Ok(Asked::TableInsert(table)),
            None => Err(unknown_target()),
        }
    } else if get && begins_with(target, utf8("/?"@)) {
        Ok(
            Asked::ParameterizedQuery {
                encoded_parameters: parameters,
                method: ParameterizedQueryMethod::Get,
            },
        )
    } else if post && begins_with(target, utf8("/?"@)) {
        Ok(
            Asked::ParameterizedQuery {
                encoded_parameters: parameters,
                method: ParameterizedQueryMethod::Post,
            },
        )
    } else if get && target == utf8("/ping"@) {
        Ok(Asked::Ping)
    } else if get && target == utf8("/ready"@) {
        Ok(Asked::Ready)
    } else if get && target == utf8("/metrics"@) {
        Ok(Asked::Metrics)
    } else {
        Err(refused_method(post, get, target, inserts))
    }
}

/// What a request line asks for.
pub open spec fn line_asks(line: Seq<u8>, inserts: bool) -> Result<Asked, Refusal> {
    let words = parts(line, 32);
    if words.len() != 3 || words[0].len() == 0 || words[1].len() == 0 || words[2].len() == 0 {
        Err(bad("malformed request line"@))
    } else if words[2] != utf8("HTTP/1.1"@) {
        Err(refused(Status::HttpVersionNotSupported, "HTTP/1.1 is required"@))
    } else {
        asked_of(words[0], words[1], inserts)
    }
}

/// A request kind with a refusal by its content.
pub open spec fn kind_judged(r: Result<RequestKind, RequestFailure>) -> Result<Asked, Refusal> {
    match r {
        Ok(kind) => Ok(kind@),
        Err(e) => Err(e@),
    }
}

fn parameterized(target: &Vec<u8>, method: ParameterizedQueryMethod) -> (kind: RequestKind)
    requires
        begins_with(target@, utf8("/?"@)),
    ensures
        kind@ == (Asked::ParameterizedQuery {
            encoded_parameters: target@.skip(utf8("/?"@).len() as int),
            method,
        }),
{
    let from = crate::text::byte_len("/?");
    let encoded_parameters = copy_range(target, from, target.len());
    assert(encoded_parameters@ =~= target@.skip(from as int));
    RequestKind::ParameterizedQuery { encoded_parameters, method }
}

fn refuse_method(method_is_post: bool, method_is_get: bool, target: &Vec<u8>, inserts: bool) -> (r:
    RequestFailure)
    ensures
        r@ == refused_method(method_is_post, method_is_get, target@, inserts),
{
    if bytes_are(target, "/") || bytes_are(target, "/query") {
        failure_with(Status::MethodNotAllowed, "method must be POST", ExtraHeader::AllowPost)
    } else if parameter_target(target) {
        failure_with(
            Status::MethodNotAllowed,
            "method must be GET or POST for /?query=",
            ExtraHeader::AllowGetAndPost,
        )
    } else if bytes_are(target, "/ping") {
        failure_with(
            Status::MethodNotAllowed,
            "method must be GET for /ping",
            ExtraHeader::AllowGet,
        )
    } else if bytes_are(target, "/ready") {
        failure_with(
            Status::MethodNotAllowed,
            "method must be GET for /ready",
            ExtraHeader::AllowGet,
        )
    } else if bytes_are(target, "/metrics") {
        failure_with(
            Status::MethodNotAllowed,
            "method must be GET for /metrics",
            ExtraHeader::AllowGet,
        )
    } else if inserts && bytes_are(target, "/insert") {
        failure_with(
            Status::MethodNotAllowed,
            "method must be POST for /insert",
            ExtraHeader::AllowPost,
        )
    } else if inserts && parse_table_insert_target(target).is_some() {
        failure_with(
            Status::MethodNotAllowed,
            "method must be POST for /insert/<table>",
            ExtraHeader::AllowPost,
        )
    } else if method_is_post {
        failure(Status::NotFound, "request target must be / or /query")
    } else if method_is_get {
        failure(Status::NotFound, "request target must be /ping, /ready, or /metrics")
    } else {
        failure_with(
            Status::MethodNotAllowed,
            "method must be POST for / or /query or GET for /ping, /ready, or /metrics",
            ExtraHeader::AllowGetAndPost,
        )
    }
}

/// The refusal of a method on a target that it does not reach.
pub open spec fn refused_method(post: bool, get: bool, target: Seq<u8>, inserts: bool) -> Refusal {
    if target == utf8("/"@) || target == utf8("/query"@) {
        wrong_method("method must be POST"@, ExtraHeader::AllowPost)
    } else if is_parameter_target(target) {
        wrong_method("method must be GET or POST for /?query="@, ExtraHeader::AllowGetAndPost)
    } else if target == utf8("/ping"@) {
        wrong_method("method must be GET for /ping"@, ExtraHeader::AllowGet)
    } else if target == utf8("/ready"@) {
        wrong_method("method must be GET for /ready"@, ExtraHeader::AllowGet)
    } else if target == utf8("/metrics"@) {
        wrong_method("method must be GET for /metrics"@, ExtraHeader::AllowGet)
    } else if inserts && target == utf8("/insert"@) {
        wrong_method("method must be POST for /insert"@, ExtraHeader::AllowPost)
    } else if inserts && target_table(target) is Some {
        wrong_method("method must be POST for /insert/<table>"@, ExtraHeader::AllowPost)
    } else if post {
        unknown_target()
    } else if get {
        refused(Status::NotFound, "request target must be /ping, /ready, or /metrics"@)
    } else {
        wrong_method(
            "method must be POST for / or /query or GET for /ping, /ready, or /metrics"@,
            ExtraHeader::AllowGetAndPost,
        )
    }
}

/// Reads a request line.
pub fn parse_request_line(line: &Vec<u8>, inserts: bool) -> (r: Result<RequestKind, RequestFailure>)
    ensures
        kind_judged(r) == line_asks(line@, inserts),
{
    let words = split(line, 32);
    let ghost lists = byte_lists(words@);
    assert(lists.len() == words.len());
    if words.len() != 3 {
        return Err(bad_request("malformed request line"));
    }
    assert(lists[0] == words[0]@ && lists[1] == words[1]@ && lists[2] == words[2]@);
    if words[0].len() == 0 || words[1].len() == 0 || words[2].len() == 0 {
        return Err(bad_request("malformed request line"));
    }
    if !bytes_are(&words[2], "HTTP/1.1") {
        return Err(failure(Status::HttpVersionNotSupported, "HTTP/1.1 is required"));
    }
    let target = &words[1];
    let post = bytes_are(&words[0], "POST");
    let get = bytes_are(&words[0], "GET");
    if post && (bytes_are(target, "/") || bytes_are(target, "/query")) {
        Ok(RequestKind::BodyQuery)
    } else if post && inserts && bytes_are(target, "/insert") {
        Ok(RequestKind::Insert)
    } else if post && inserts && starts_with(target, "/insert/") {
        match parse_table_insert_target(target) {
            Some(table) => Ok(RequestKind::TableInsert(table)),
            None => Err(failure(Status::NotFound, "request target must be / or /query")),
        }
    } else if get && starts_with(target, "/?") {
        Ok(parameterized(target, ParameterizedQueryMethod::Get))
    } else if post && starts_with(target, "/?") {
        Ok(parameterized(target, ParameterizedQueryMethod::Post))
    } else if get && bytes_are(target, "/ping") {
        Ok(RequestKind::Ping)
    } else if get && bytes_are(target, "/ready") {
        Ok(RequestKind::Ready)
    } else if get && bytes_are(target, "/metrics") {
        Ok(RequestKind::Metrics)
    } else {
        Err(refuse_method(post, get, target, inserts))
    }
}

} // verus!
