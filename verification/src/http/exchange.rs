//! One exchange: from the bytes of a request to what the database is asked, and from its
//! reply to the bytes of the response.

use vstd::prelude::*;
use crate::bytes::{text_bytes, utf8};
use crate::http::headers::{is_credential, is_private, is_token, is_valid_bearer_token, is_valid_clickhouse_credential, principal_fault, principal_set_fault, principals_of, validate_clickhouse_principal_configuration, validate_clickhouse_principal_set_configuration, Authentication, ClickHousePrincipal, HttpAccess, Required};
use crate::http::metrics::{metrics_text, write_prometheus_metrics, MetricsSnapshot};
use crate::http::parameters::ParameterizedWorkloadLimits;
use crate::http::reading::{classify_with, read_request, request_in, request_judged, settled, HttpQueryLimits, HttpRequest, Wanted};
use crate::http::request::{QueryResponseFormat, Refusal, RequestFailure};
use crate::http::response::{bounded_response, error_response, limit_response, prepare_response, prepared, sent, write_error_response, write_response, write_response_limit_error, BoundedVec, ContentType, ExtraHeader, HttpQueryError, Status};

verus! {

/// Limits of a query, where zero stands for the configured default.
#[derive(Debug, Clone, Copy, PartialEq, Eq)]
pub struct ParameterizedQueryLimits {
    pub max_result_bytes: usize,
    pub max_result_rows: usize,
    pub max_result_values: usize,
    pub max_scan_rows: usize,
    pub max_groups: usize,
    pub max_ordering_state_bytes: usize,
    pub max_aggregate_state_bytes: usize,
    pub max_threads: usize,
}

/// A value, or zero.
pub open spec fn or_zero(n: Option<usize>) -> usize {
    match n {
        Some(n) => n,
        None => 0,
    }
}

/// The limits that a query runs under; `None` where the request sets none.
pub open spec fn query_limits(limits: ParameterizedWorkloadLimits) -> Option<ParameterizedQueryLimits> {
    if limits == ParameterizedWorkloadLimits::unset() {
        None
    } else {
        Some(
            ParameterizedQueryLimits {
                max_result_bytes: or_zero(limits.max_result_bytes),
                max_result_rows: or_zero(limits.max_result_rows),
                max_result_values: or_zero(limits.max_result_values),
                max_scan_rows: or_zero(limits.max_rows_to_read),
                max_groups: or_zero(limits.max_rows_to_group_by),
                max_ordering_state_bytes: or_zero(limits.max_ordering_state_bytes),
                max_aggregate_state_bytes: or_zero(limits.max_aggregate_state_bytes),
                max_threads: or_zero(limits.max_threads),
            },
        )
    }
}

/// Finds the limits that a query runs under.
pub fn limits_of_query(limits: &ParameterizedWorkloadLimits) -> (r: Option<ParameterizedQueryLimits>)
    ensures
        r == query_limits(*limits),
{
    if limits.max_result_bytes.is_none() && limits.max_result_rows.is_none()
        && limits.max_result_values.is_none() && limits.max_rows_to_read.is_none()
        && limits.max_rows_to_group_by.is_none() && limits.max_ordering_state_bytes.is_none()
        && limits.max_aggregate_state_bytes.is_none() && limits.max_threads.is_none() {
        return None;
    }
    Some(
        ParameterizedQueryLimits {
            max_result_bytes: limits.max_result_bytes.unwrap_or(0),
            max_result_rows: limits.max_result_rows.unwrap_or(0),
            max_result_values: limits.max_result_values.unwrap_or(0),
            max_scan_rows: limits.max_rows_to_read.unwrap_or(0),
            max_groups: limits.max_rows_to_group_by.unwrap_or(0),
            max_ordering_state_bytes: limits.max_ordering_state_bytes.unwrap_or(0),
            max_aggregate_state_bytes: limits.max_aggregate_state_bytes.unwrap_or(0),
            max_threads: limits.max_threads.unwrap_or(0),
        },
    )
}

/// What the database made of an insertion or a query.
#[derive(Debug)]
pub enum DatabaseReply {
    /// The rows were inserted, or the database is available.
    Done,
    /// The result of a query in the format that was asked for.
    Rendered(Vec<u8>),
    /// The result of a query exceeds the response limit in that format.
    TooLarge,
    /// The metrics.
    Metrics(MetricsSnapshot),
    /// Another user holds the database.
    Busy,
    /// The database was left in an unknown state.
    Poisoned,
    /// The request cannot be executed.
    Failed(String),
}

/// How an exchange goes on: with the response, or with a request to the database. A request
/// of statements is first settled, by [`settle_exchange`].
#[derive(Debug)]
pub enum Exchange {
    Answered(Result<Vec<u8>, HttpQueryError>),
    Asked(HttpRequest),
}

/// The mathematical content of how an exchange goes on.
pub enum Turn {
    Answered(Result<Seq<u8>, HttpQueryError>),
    Asked(Wanted),
}

impl View for Exchange {
    type V = Turn;

    open spec fn view(&self) -> Turn {
        match self {
            Exchange::Answered(r) => Turn::Answered(sent(*r)),
            Exchange::Asked(request) => Turn::Asked(request@),
        }
    }
}

/// The response that tells that all is well.
pub open spec fn well(private: bool, max_bytes: usize) -> Result<Seq<u8>, HttpQueryError> {
    bounded_response(
        Status::Success,
        ExtraHeader::Nothing,
        private,
        ContentType::Text,
        utf8("Ok.\n"@),
        max_bytes,
    )
}

/// The response to an insertion that was done.
pub open spec fn inserted(private: bool, max_bytes: usize) -> Result<Seq<u8>, HttpQueryError> {
    bounded_response(
        Status::Success,
        ExtraHeader::Nothing,
        private,
        ContentType::Text,
        Seq::empty(),
        max_bytes,
    )
}

/// How an exchange goes on once its request is read: refusals and pings are answered at
/// once, and an insertion whose success could not be told is not begun.
pub open spec fn turn_of(request: Result<Wanted, Refusal>, private: bool, max_bytes: usize) -> Turn {
    match request {
        Err(refusal) => Turn::Answered(
            error_response(refusal.status, refusal.extra, private, refusal.message, max_bytes),
        ),
        Ok(Wanted::Ping) => Turn::Answered(well(private, max_bytes)),
        Ok(wanted) => if (wanted is Insert || wanted is TableInsert) && prepared(
            Status::Success,
            ExtraHeader::Nothing,
            private,
            ContentType::Text,
            Seq::empty(),
            max_bytes,
        ) is Err {
            Turn::Answered(limit_response(private, max_bytes))
        } else {
            Turn::Asked(wanted)
        },
    }
}

/// Decides how an exchange goes on once its request is read.
pub fn take_turn(request: Result<HttpRequest, RequestFailure>, private: bool, max_bytes: usize) -> (r:
    Exchange)
    ensures
        r@ == turn_of(request_judged(request), private, max_bytes),
{
    let request = match request {
        Err(e) => return Exchange::Answered(
            write_error_response(e.status, e.extra, private, e.message.as_str(), max_bytes),
        ),
        Ok(request) => request,
    };
    if matches!(request, HttpRequest::Ping) {
        let body = text_bytes("Ok.\n");
        return Exchange::Answered(
            write_response(
                Status::Success,
                ExtraHeader::Nothing,
                private,
                ContentType::Text,
                &body,
                max_bytes,
            ),
        );
    }
    let insertion = match &request {
        HttpRequest::Insert { .. } => true,
        HttpRequest::TableInsert { .. } => true,
        _ => false,
    };
    if insertion {
        let none: Vec<u8> = Vec::new();
        assert(none@ =~= Seq::<u8>::empty());
        if prepare_response(
            Status::Success,
            ExtraHeader::Nothing,
            private,
            ContentType::Text,
            &none,
            max_bytes,
        ).is_err() {
            return Exchange::Answered(write_response_limit_error(private, max_bytes));
        }
    }
    Exchange::Asked(request)
}

/// Decides how an exchange goes on once it is known whether the text of its request holds an
/// `INSERT`.
pub fn settle_exchange(
    request: HttpRequest,
    contains_insert: bool,
    private: bool,
    max_bytes: usize,
) -> (r: Exchange)
    ensures
        r@ == turn_of(Ok(settled(request@, contains_insert)), private, max_bytes),
{
    take_turn(Ok(classify_with(request, contains_insert)), private, max_bytes)
}

/// The content type of a response format.
pub open spec fn format_content_type(format: QueryResponseFormat) -> ContentType {
    match format {
        QueryResponseFormat::Json => ContentType::Json,
        QueryResponseFormat::JsonEachRow => ContentType::Json,
        QueryResponseFormat::JsonCompactEachRow => ContentType::Json,
        QueryResponseFormat::Csv => ContentType::Csv,
        QueryResponseFormat::CsvWithNames => ContentType::Csv,
        QueryResponseFormat::TabSeparated => ContentType::Tsv,
        QueryResponseFormat::TabSeparatedWithNames => ContentType::Tsv,
    }
}

fn content_type_of(format: QueryResponseFormat) -> (t: ContentType)
    ensures
        t == format_content_type(format),
{
    match format {
        QueryResponseFormat::Json => ContentType::Json,
        QueryResponseFormat::JsonEachRow => ContentType::Json,
        QueryResponseFormat::JsonCompactEachRow => ContentType::Json,
        QueryResponseFormat::Csv => ContentType::Csv,
        QueryResponseFormat::CsvWithNames => ContentType::Csv,
        QueryResponseFormat::TabSeparated => ContentType::Tsv,
        QueryResponseFormat::TabSeparatedWithNames => ContentType::Tsv,
    }
}

/// What the database is asked for, as far as the response depends on it.
#[derive(Clone, Copy, Debug, PartialEq, Eq, Structural)]
pub enum Awaited {
    Query(QueryResponseFormat),
    Insertion,
    Availability,
    Metrics,
}

/// What the response to a request depends on.
pub open spec fn awaited(wanted: Wanted) -> Awaited {
    match wanted {
        Wanted::Query { response_format, .. } => Awaited::Query(response_format),
        Wanted::Statements { response_format, .. } => Awaited::Query(response_format),
        Wanted::Insert { .. } => Awaited::Insertion,
        Wanted::TableInsert { .. } => Awaited::Insertion,
        Wanted::Ping => Awaited::Availability,
        Wanted::Ready => Awaited::Availability,
        Wanted::Metrics => Awaited::Metrics,
    }
}

impl HttpRequest {
    /// What the response to the request depends on.
    pub fn awaited(&self) -> (r: Awaited)
        ensures
            r == awaited(self@),
    {
        match self {
            HttpRequest::Query { response_format, .. } => Awaited::Query(*response_format),
            HttpRequest::Statements { response_format, .. } => Awaited::Query(*response_format),
            HttpRequest::Insert { .. } => Awaited::Insertion,
            HttpRequest::TableInsert { .. } => Awaited::Insertion,
            HttpRequest::Ping => Awaited::Availability,
            HttpRequest::Ready => Awaited::Availability,
            HttpRequest::Metrics => Awaited::Metrics,
        }
    }
}

/// The response to a reply of the database.
pub open spec fn replied(
    awaited: Awaited,
    reply: DatabaseReply,
    private: bool,
    max_bytes: usize,
) -> Result<Seq<u8>, HttpQueryError> {
    let refuse = |status: Status, message: Seq<char>|
        error_response(status, ExtraHeader::Nothing, private, message, max_bytes);
    match reply {
        DatabaseReply::Done => match awaited {
            Awaited::Availability => well(private, max_bytes),
            _ => inserted(private, max_bytes),
        },
        DatabaseReply::Rendered(body) => bounded_response(
            Status::Success,
            ExtraHeader::Nothing,
            private,
            match awaited {
                Awaited::Query(format) => format_content_type(format),
                _ => ContentType::Text,
            },
            body@,
            max_bytes,
        ),
        DatabaseReply::TooLarge => limit_response(private, max_bytes),
        DatabaseReply::Metrics(metrics) => bounded_response(
            Status::Success,
            ExtraHeader::Nothing,
            private,
            ContentType::Prometheus,
            metrics_text(metrics),
            max_bytes,
        ),
        DatabaseReply::Busy => refuse(Status::ServiceUnavailable, "database is unavailable"@),
        DatabaseReply::Poisoned => refuse(
            if awaited is Query || awaited is Insertion {
                Status::InternalServerError
            } else {
                Status::ServiceUnavailable
            },
            "database is unavailable"@,
        ),
        DatabaseReply::Failed(message) => refuse(Status::BadRequest, message@),
    }
}

/// Replies with a result that was rendered within a limit.
pub fn reply_with(body: BoundedVec) -> (r: DatabaseReply)
    ensures
        if body.exceeded() {
            r is TooLarge
        } else {
            r matches DatabaseReply::Rendered(bytes) && bytes@ == body@
        },
{
    match body.finish() {
        Some(bytes) => DatabaseReply::Rendered(bytes),
        None => DatabaseReply::TooLarge,
    }
}

/// Makes the response to a reply of the database.
pub fn finish_exchange(awaited: Awaited, reply: &DatabaseReply, private: bool, max_bytes: usize) -> (r:
    Result<Vec<u8>, HttpQueryError>)
    ensures
        sent(r) == replied(awaited, *reply, private, max_bytes),
{
    match reply {
        DatabaseReply::Done => {
            let body: Vec<u8> = match awaited {
                Awaited::Availability => text_bytes("Ok.\n"),
                _ => {
                    let none: Vec<u8> = Vec::new();
                    assert(none@ =~= Seq::<u8>::empty());
                    none
                },
            };
            write_response(
                Status::Success,
                ExtraHeader::Nothing,
                private,
                ContentType::Text,
                &body,
                max_bytes,
            )
        },
        DatabaseReply::Rendered(body) => {
            let content_type = match awaited {
                Awaited::Query(format) => content_type_of(format),
                _ => ContentType::Text,
            };
            write_response(
                Status::Success,
                ExtraHeader::Nothing,
                private,
                content_type,
                body,
                max_bytes,
            )
        },
        DatabaseReply::TooLarge => write_response_limit_error(private, max_bytes),
        DatabaseReply::Metrics(metrics) => {
            let body = write_prometheus_metrics(metrics);
            write_response(
                Status::Success,
                ExtraHeader::Nothing,
                private,
                ContentType::Prometheus,
                &body,
                max_bytes,
            )
        },
        DatabaseReply::Busy => write_error_response(
            Status::ServiceUnavailable,
            ExtraHeader::Nothing,
            private,
            "database is unavailable",
            max_bytes,
        ),
        DatabaseReply::Poisoned => {
            let status = match awaited {
                Awaited::Query(_) => Status::InternalServerError,
                Awaited::Insertion => Status::InternalServerError,
                _ => Status::ServiceUnavailable,
            };
            write_error_response(
                status,
                ExtraHeader::Nothing,
                private,
                "database is unavailable",
                max_bytes,
            )
        },
        DatabaseReply::Failed(message) => write_error_response(
            Status::BadRequest,
            ExtraHeader::Nothing,
            private,
            message.as_str(),
            max_bytes,
        ),
    }
}

/// How an exchange begins.
pub open spec fn exchange_begins(
    input: Seq<u8>,
    limits: HttpQueryLimits,
    required: Required,
    access: HttpAccess,
) -> Turn {
    turn_of(
        request_in(input, limits, required, access),
        is_private(required),
        limits.max_response_bytes,
    )
}

/// Begins an exchange: reads the request and decides how to go on. What the database
/// replies, [`finish_exchange`] turns into the response.
pub fn handle_http_query_exchange(
    input: &Vec<u8>,
    limits: &HttpQueryLimits,
    authentication: &Authentication<'_>,
    access: HttpAccess,
) -> (r: Exchange)
    ensures
        r@ == exchange_begins(input@, *limits, authentication@, access),
{
    let request = read_request(input, limits, authentication, access);
    take_turn(request, authentication.private(), limits.max_response_bytes)
}

/// Handles a query, health or metrics request of anyone.
pub fn handle_http_query(input: &Vec<u8>) -> (r: Exchange)
    ensures
        r@ == exchange_begins(
            input@,
            HttpQueryLimits::standard(),
            Required::Nothing,
            HttpAccess::ReadOnly,
        ),
{
    handle_http_query_with_limits(input, &HttpQueryLimits::default())
}

/// Handles a query, health or metrics request of anyone under given limits.
pub fn handle_http_query_with_limits(input: &Vec<u8>, limits: &HttpQueryLimits) -> (r: Exchange)
    ensures
        r@ == exchange_begins(input@, *limits, Required::Nothing, HttpAccess::ReadOnly),
{
    handle_http_query_exchange(input, limits, &Authentication::Nothing, HttpAccess::ReadOnly)
}

/// How an exchange begins whose configuration may be faulty; it is then refused unread.
pub open spec fn configured_exchange(
    fault: Option<Seq<char>>,
    input: Seq<u8>,
    limits: HttpQueryLimits,
    required: Required,
    access: HttpAccess,
) -> Turn {
    match fault {
        Some(message) => Turn::Answered(
            error_response(
                Status::InternalServerError,
                ExtraHeader::Nothing,
                is_private(required),
                message,
                limits.max_response_bytes,
            ),
        ),
        None => exchange_begins(input, limits, required, access),
    }
}

/// Why a bearer token cannot be required, if it cannot.
pub open spec fn token_fault(token: Seq<char>) -> Option<Seq<char>> {
    if token.len() == 0 {
        Some("configured bearer token must not be empty"@)
    } else if !is_token(utf8(token)) {
        Some("configured bearer token is not valid token68"@)
    } else {
        None
    }
}

fn bearer_exchange(token: &str, input: &Vec<u8>, limits: &HttpQueryLimits, access: HttpAccess) -> (r:
    Exchange)
    ensures
        r@ == configured_exchange(
            token_fault(token@),
            input@,
            *limits,
            Required::Bearer(token@),
            access,
        ),
{
    if token.is_empty() {
        return Exchange::Answered(
            write_error_response(
                Status::InternalServerError,
                ExtraHeader::Nothing,
                false,
                "configured bearer token must not be empty",
                limits.max_response_bytes,
            ),
        );
    }
    if !is_valid_bearer_token(&text_bytes(token)) {
        return Exchange::Answered(
            write_error_response(
                Status::InternalServerError,
                ExtraHeader::Nothing,
                false,
                "configured bearer token is not valid token68",
                limits.max_response_bytes,
            ),
        );
    }
    handle_http_query_exchange(input, limits, &Authentication::Bearer(token), access)
}

/// Handles a request that requires a bearer token.
pub fn handle_http_query_with_bearer_token(token: &str, input: &Vec<u8>) -> (r: Exchange)
    ensures
        r@ == configured_exchange(
            token_fault(token@),
            input@,
            HttpQueryLimits::standard(),
            Required::Bearer(token@),
            HttpAccess::ReadWrite,
        ),
{
    bearer_exchange(token, input, &HttpQueryLimits::default(), HttpAccess::ReadWrite)
}

/// Handles a request that requires a bearer token under given limits.
pub fn handle_http_query_with_bearer_token_and_limits(
    token: &str,
    input: &Vec<u8>,
    limits: &HttpQueryLimits,
) -> (r: Exchange)
    ensures
        r@ == configured_exchange(
            token_fault(token@),
            input@,
            *limits,
            Required::Bearer(token@),
            HttpAccess::ReadWrite,
        ),
{
    bearer_exchange(token, input, limits, HttpAccess::ReadWrite)
}

/// Handles a read-only request that requires a bearer token.
pub fn handle_http_query_read_only_with_bearer_token(token: &str, input: &Vec<u8>) -> (r: Exchange)
    ensures
        r@ == configured_exchange(
            token_fault(token@),
            input@,
            HttpQueryLimits::standard(),
            Required::Bearer(token@),
            HttpAccess::ReadOnly,
        ),
{
    bearer_exchange(token, input, &HttpQueryLimits::default(), HttpAccess::ReadOnly)
}

/// Handles a read-only request that requires a bearer token under given limits.
pub fn handle_http_query_read_only_with_bearer_token_and_limits(
    token: &str,
    input: &Vec<u8>,
    limits: &HttpQueryLimits,
) -> (r: Exchange)
    ensures
        r@ == configured_exchange(
            token_fault(token@),
            input@,
            *limits,
            Required::Bearer(token@),
            HttpAccess::ReadOnly,
        ),
{
    bearer_exchange(token, input, limits, HttpAccess::ReadOnly)
}

/// Why a key cannot be required, if it cannot.
pub open spec fn key_fault(key: Seq<char>) -> Option<Seq<char>> {
    if key.len() == 0 {
        Some("configured ClickHouse key must not be empty"@)
    } else if !is_credential(utf8(key)) {
        Some("configured ClickHouse key is not a valid HTTP header value"@)
    } else {
        None
    }
}

fn configuration_error(message: &str, limits: &HttpQueryLimits) -> (r: Exchange)
    ensures
        r@ == Turn::Answered(
            error_response(
                Status::InternalServerError,
                ExtraHeader::Nothing,
                true,
                message@,
                limits.max_response_bytes,
            ),
        ),
{
    Exchange::Answered(
        write_error_response(
            Status::InternalServerError,
            ExtraHeader::Nothing,
            true,
            message,
            limits.max_response_bytes,
        ),
    )
}

fn key_exchange(key: &str, input: &Vec<u8>, limits: &HttpQueryLimits, access: HttpAccess) -> (r: Exchange)
    ensures
        r@ == configured_exchange(key_fault(key@), input@, *limits, Required::Key(key@), access),
{
    if key.is_empty() {
        return configuration_error("configured ClickHouse key must not be empty", limits);
    }
    if !is_valid_clickhouse_credential(&text_bytes(key)) {
        return configuration_error(
            "configured ClickHouse key is not a valid HTTP header value",
            limits,
        );
    }
    handle_http_query_exchange(input, limits, &Authentication::ClickHouseKey(key), access)
}

/// Handles a request that requires a key.
pub fn handle_http_query_with_clickhouse_key(key: &str, input: &Vec<u8>) -> (r: Exchange)
    ensures
        r@ == configured_exchange(
            key_fault(key@),
            input@,
            HttpQueryLimits::standard(),
            Required::Key(key@),
            HttpAccess::ReadWrite,
        ),
{
    key_exchange(key, input, &HttpQueryLimits::default(), HttpAccess::ReadWrite)
}

/// Handles a request that requires a key under given limits.
pub fn handle_http_query_with_clickhouse_key_and_limits(
    key: &str,
    input: &Vec<u8>,
    limits: &HttpQueryLimits,
) -> (r: Exchange)
    ensures
        r@ == configured_exchange(
            key_fault(key@),
            input@,
            *limits,
            Required::Key(key@),
            HttpAccess::ReadWrite,
        ),
{
    key_exchange(key, input, limits, HttpAccess::ReadWrite)
}

/// Handles a read-only request that requires a key.
pub fn handle_http_query_read_only_with_clickhouse_key(key: &str, input: &Vec<u8>) -> (r: Exchange)
    ensures
        r@ == configured_exchange(
            key_fault(key@),
            input@,
            HttpQueryLimits::standard(),
            Required::Key(key@),
            HttpAccess::ReadOnly,
        ),
{
    key_exchange(key, input, &HttpQueryLimits::default(), HttpAccess::ReadOnly)
}

/// Handles a read-only request that requires a key under given limits.
pub fn handle_http_query_read_only_with_clickhouse_key_and_limits(
    key: &str,
    input: &Vec<u8>,
    limits: &HttpQueryLimits,
) -> (r: Exchange)
    ensures
        r@ == configured_exchange(
            key_fault(key@),
            input@,
            *limits,
            Required::Key(key@),
            HttpAccess::ReadOnly,
        ),
{
    key_exchange(key, input, limits, HttpAccess::ReadOnly)
}

fn principal_exchange(
    user: &str,
    key: &str,
    input: &Vec<u8>,
    limits: &HttpQueryLimits,
    access: HttpAccess,
) -> (r: Exchange)
    ensures
        r@ == configured_exchange(
            principal_fault(user@, key@),
            input@,
            *limits,
            Required::User { user: user@, key: key@ },
            access,
        ),
{
    match validate_clickhouse_principal_configuration(user, key) {
        Err(message) => configuration_error(message, limits),
        Ok(()) => handle_http_query_exchange(
            input,
            limits,
            &Authentication::ClickHousePrincipal { user, key },
            access,
        ),
    }
}

/// Handles a request that requires a user and a key.
pub fn handle_http_query_with_clickhouse_principal(user: &str, key: &str, input: &Vec<u8>) -> (r:
    Exchange)
    ensures
        r@ == configured_exchange(
            principal_fault(user@, key@),
            input@,
            HttpQueryLimits::standard(),
            Required::User { user: user@, key: key@ },
            HttpAccess::ReadWrite,
        ),
{
    principal_exchange(user, key, input, &HttpQueryLimits::default(), HttpAccess::ReadWrite)
}

/// Handles a request that requires a user and a key under given limits.
pub fn handle_http_query_with_clickhouse_principal_and_limits(
    user: &str,
    key: &str,
    input: &Vec<u8>,
    limits: &HttpQueryLimits,
) -> (r: Exchange)
    ensures
        r@ == configured_exchange(
            principal_fault(user@, key@),
            input@,
            *limits,
            Required::User { user: user@, key: key@ },
            HttpAccess::ReadWrite,
        ),
{
    principal_exchange(user, key, input, limits, HttpAccess::ReadWrite)
}

/// Handles a read-only request that requires a user and a key.
pub fn handle_http_query_read_only_with_clickhouse_principal(
    user: &str,
    key: &str,
    input: &Vec<u8>,
) -> (r: Exchange)
    ensures
        r@ == configured_exchange(
            principal_fault(user@, key@),
            input@,
            HttpQueryLimits::standard(),
            Required::User { user: user@, key: key@ },
            HttpAccess::ReadOnly,
        ),
{
    principal_exchange(user, key, input, &HttpQueryLimits::default(), HttpAccess::ReadOnly)
}

/// Handles a read-only request that requires a user and a key under given limits.
pub fn handle_http_query_read_only_with_clickhouse_principal_and_limits(
    user: &str,
    key: &str,
    input: &Vec<u8>,
    limits: &HttpQueryLimits,
) -> (r: Exchange)
    ensures
        r@ == configured_exchange(
            principal_fault(user@, key@),
            input@,
            *limits,
            Required::User { user: user@, key: key@ },
            HttpAccess::ReadOnly,
        ),
{
    principal_exchange(user, key, input, limits, HttpAccess::ReadOnly)
}

/// Handles a request that requires one of several users with their keys; the access is
/// that of the matching one.
pub fn handle_http_query_with_clickhouse_principal_set(
    principals: &Vec<ClickHousePrincipal<'_>>,
    input: &Vec<u8>,
) -> (r: Exchange)
    ensures
        r@ == configured_exchange(
            principal_set_fault(principals_of(principals@)),
            input@,
            HttpQueryLimits::standard(),
            Required::Users(principals_of(principals@)),
            HttpAccess::ReadOnly,
        ),
{
    let limits = HttpQueryLimits::default();
    match validate_clickhouse_principal_set_configuration(principals) {
        Err(message) => configuration_error(message, &limits),
        Ok(()) => handle_http_query_exchange(
            input,
            &limits,
            &Authentication::ClickHousePrincipalSet(principals),
            HttpAccess::ReadOnly,
        ),
    }
}

} // verus!
