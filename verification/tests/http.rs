//! HTTP exchanges.

use rusthouse::http::exchange::{finish_exchange, handle_http_query, handle_http_query_read_only_with_bearer_token, handle_http_query_read_only_with_clickhouse_key, handle_http_query_with_bearer_token, handle_http_query_with_clickhouse_key, handle_http_query_with_clickhouse_principal, handle_http_query_with_clickhouse_principal_set, handle_http_query_with_limits, limits_of_query, reply_with, settle_exchange, Awaited, DatabaseReply, Exchange};
use rusthouse::http::headers::{ClickHousePrincipal, ClickHousePrincipalRole};
use rusthouse::http::listener::HttpListenerReport;
use rusthouse::http::metrics::{write_prometheus_metrics, DatabaseMetrics, IndexPruningMetrics, MetricsSnapshot, TableMetrics};
use rusthouse::http::parameters::ParameterizedWorkloadLimits;
use rusthouse::http::reading::{holds_insertion, HttpQueryLimits, HttpRequest};
use rusthouse::http::request::{QueryResponseFormat, TableInsertFormat};
use rusthouse::http::response::{BoundedVec, HttpQueryError};

fn post(target: &str, headers: &str, body: &str) -> Vec<u8> {
    format!(
        "POST {target} HTTP/1.1\r\nHost: localhost\r\n{headers}Content-Length: {}\r\n\r\n{body}",
        body.len()
    )
    .into_bytes()
}

fn get(target: &str, headers: &str) -> Vec<u8> {
    format!("GET {target} HTTP/1.1\r\nHost: localhost\r\n{headers}\r\n").into_bytes()
}

fn answer(exchange: Exchange) -> String {
    match exchange {
        Exchange::Answered(response) => String::from_utf8(response.unwrap()).unwrap(),
        Exchange::Asked(request) => panic!("the database is asked for {request:?}"),
    }
}

fn asked(exchange: Exchange) -> HttpRequest {
    match exchange {
        Exchange::Asked(request) => request,
        Exchange::Answered(response) => {
            panic!("answered {:?}", response.map(|bytes| String::from_utf8(bytes)))
        }
    }
}

#[test]
fn posted_sql_is_asked_for() {
    let request = asked(handle_http_query(&post("/", "", "SELECT 1")));
    match request {
        HttpRequest::Query { sql, response_format, workload_limits } => {
            assert_eq!(sql, "SELECT 1");
            assert!(matches!(response_format, QueryResponseFormat::Json));
            assert!(limits_of_query(&workload_limits).is_none());
        }
        other => panic!("{other:?}"),
    }
}

#[test]
fn parameters_are_decoded() {
    let request = asked(handle_http_query(&get(
        "/?query=SELECT+1%2B1&max_result_rows=5&default_format=CSV",
        "",
    )));
    match request {
        HttpRequest::Query { sql, response_format, workload_limits } => {
            assert_eq!(sql, "SELECT 1+1");
            assert!(matches!(response_format, QueryResponseFormat::Csv));
            assert_eq!(limits_of_query(&workload_limits).unwrap().max_result_rows, 5);
        }
        other => panic!("{other:?}"),
    }
    assert!(limits_of_query(&ParameterizedWorkloadLimits::none()).is_none());
}

#[test]
fn health_is_told_without_a_body() {
    let request = asked(handle_http_query(&get("/ready", "")));
    assert!(matches!(request.awaited(), Awaited::Availability));
    let response = finish_exchange(Awaited::Availability, &DatabaseReply::Done, false, 1_000).unwrap();
    let text = String::from_utf8(response).unwrap();
    assert!(text.starts_with("HTTP/1.1 200 OK\r\n"));
    assert!(text.ends_with("\r\n\r\nOk.\n"));
    let busy = finish_exchange(Awaited::Availability, &DatabaseReply::Busy, false, 1_000).unwrap();
    assert!(String::from_utf8(busy).unwrap().starts_with("HTTP/1.1 503 "));
}

#[test]
fn credentials_are_required() {
    let plain = post("/", "", "SELECT 1");
    assert!(answer(handle_http_query_with_bearer_token("secret", &plain)).starts_with("HTTP/1.1 401 "));
    let with = post("/", "Authorization: Bearer secret\r\n", "SELECT 1");
    assert!(matches!(
        asked(handle_http_query_with_bearer_token("secret", &with)),
        HttpRequest::Statements { .. }
    ));
    assert!(answer(handle_http_query_read_only_with_bearer_token("other", &with)).starts_with("HTTP/1.1 401 "));
    let key = post("/", "X-ClickHouse-Key: k\r\n", "SELECT 1");
    assert!(matches!(
        asked(handle_http_query_with_clickhouse_key("k", &key)),
        HttpRequest::Statements { .. }
    ));
    assert!(answer(handle_http_query_with_clickhouse_key("", &key)).starts_with("HTTP/1.1 500 "));
    let user = post("/", "X-ClickHouse-User: u\r\nX-ClickHouse-Key: k\r\n", "SELECT 1");
    assert!(matches!(
        asked(handle_http_query_with_clickhouse_principal("u", "k", &user)),
        HttpRequest::Statements { .. }
    ));
    assert!(answer(handle_http_query_with_clickhouse_principal("v", "k", &user)).starts_with("HTTP/1.1 401 "));
}

#[test]
fn read_only_access_never_inserts() {
    let body = "INSERT INTO t VALUES (1)";
    let key = "X-ClickHouse-Key: k\r\n";
    assert!(matches!(
        asked(handle_http_query_with_clickhouse_key("k", &post("/insert", key, body))),
        HttpRequest::Insert { sql } if sql == body
    ));
    let refused = answer(handle_http_query_read_only_with_clickhouse_key("k", &post("/insert", key, body)));
    assert!(!refused.starts_with("HTTP/1.1 200 "));
    match asked(handle_http_query_with_clickhouse_key("k", &post("/insert/t", key, "a\n1\n"))) {
        HttpRequest::TableInsert { table, body, input_format } => {
            assert_eq!(table, "t");
            assert_eq!(body, b"a\n1\n");
            assert!(matches!(input_format, TableInsertFormat::CsvWithNames));
        }
        other => panic!("{other:?}"),
    }
}

#[test]
fn principals_of_a_set_have_their_own_access() {
    let principals = vec![
        ClickHousePrincipal::new("reader", "r", ClickHousePrincipalRole::ReadOnly),
        ClickHousePrincipal::new("writer", "w", ClickHousePrincipalRole::ReadWrite),
    ];
    let body = "INSERT INTO t VALUES (1)";
    let writer = post("/insert", "X-ClickHouse-User: writer\r\nX-ClickHouse-Key: w\r\n", body);
    assert!(matches!(
        asked(handle_http_query_with_clickhouse_principal_set(&principals, &writer)),
        HttpRequest::Insert { .. }
    ));
    let reader = post("/insert", "X-ClickHouse-User: reader\r\nX-ClickHouse-Key: r\r\n", body);
    let refused = answer(handle_http_query_with_clickhouse_principal_set(&principals, &reader));
    assert!(!refused.starts_with("HTTP/1.1 200 "));
    let none: Vec<ClickHousePrincipal<'_>> = Vec::new();
    assert!(answer(handle_http_query_with_clickhouse_principal_set(&none, &reader)).starts_with("HTTP/1.1 500 "));
}

#[test]
fn malformed_requests_are_refused() {
    let cases: Vec<(Vec<u8>, &str)> = vec![
        (b"GET / HTTP/1.1\nHost: x\n\n".to_vec(), "HTTP/1.1 400 "),
        (b"GET /nowhere HTTP/1.1\r\nHost: x\r\n\r\n".to_vec(), "HTTP/1.1 404 "),
        (b"DELETE / HTTP/1.1\r\nHost: x\r\n\r\n".to_vec(), "HTTP/1.1 405 "),
        (b"POST / HTTP/1.1\r\nHost: x\r\n\r\n".to_vec(), "HTTP/1.1 411 "),
        (b"GET /ping HTTP/1.0\r\nHost: x\r\n\r\n".to_vec(), "HTTP/1.1 505 "),
        (b"POST / HTTP/1.1\r\nHost: x\r\nExpect: y\r\nContent-Length: 1\r\n\r\nx".to_vec(), "HTTP/1.1 417 "),
        (b"POST / HTTP/1.1\r\nHost: x\r\nContent-Length: 9999999\r\n\r\n".to_vec(), "HTTP/1.1 413 "),
        (b"POST / HTTP/1.1\r\nHost: x\r\nContent-Length: 5\r\n\r\nabc".to_vec(), "HTTP/1.1 400 "),
    ];
    for (input, expected) in cases {
        let response = answer(handle_http_query(&input));
        assert!(response.starts_with(expected), "{response}");
    }
    let mut limits = HttpQueryLimits::default();
    limits.max_header_bytes = 10;
    let long = answer(handle_http_query_with_limits(&get("/ping", ""), &limits));
    assert!(long.starts_with("HTTP/1.1 431 "));
}

#[test]
fn responses_never_exceed_their_limit() {
    let body = vec![b'x'; 2_000];
    let response = finish_exchange(
        Awaited::Query(QueryResponseFormat::Csv),
        &DatabaseReply::Rendered(body),
        false,
        500,
    )
    .unwrap();
    assert!(response.len() <= 500);
    assert!(String::from_utf8(response).unwrap().contains("response exceeds configured byte limit"));
    let tiny = finish_exchange(Awaited::Insertion, &DatabaseReply::Done, false, 10);
    assert!(matches!(tiny, Err(HttpQueryError::ResponseLimitExceeded { max_bytes: 10, .. })));
}

#[test]
fn metrics_are_written_with_labels() {
    let snapshot = MetricsSnapshot {
        totals: DatabaseMetrics {
            table_count: 1,
            column_count: 2,
            retained_row_count: 3,
            retained_value_bytes: 4,
        },
        aggregate_worker_cap: 5,
        index_pruning: IndexPruningMetrics { scanned_blocks: 6, pruned_blocks: 7 },
        tables: vec![TableMetrics { table: "t".to_owned(), row_count: 3, retained_value_bytes: 4 }],
    };
    let text = String::from_utf8(write_prometheus_metrics(&snapshot)).unwrap();
    assert!(text.contains("\nrusthouse_tables 1\n"));
    assert!(text.contains("rusthouse_index_pruned_blocks 7\n"));
    assert!(text.contains("rusthouse_table_rows{table=\"t\"} 3\n"));
}

#[test]
fn reports_list_failures_in_acceptance_order() {
    let mut report = HttpListenerReport::default();
    let first = report.accept();
    let second = report.accept();
    let third = report.accept();
    report.record_http_listener_exchange(third, Err(HttpQueryError::Read("r".to_owned())));
    report.record_http_listener_exchange(second, Ok(()));
    report.record_http_listener_exchange(first, Err(HttpQueryError::Write("w".to_owned())));
    let order: Vec<usize> = report.connection_failures.iter().map(|f| f.connection).collect();
    assert_eq!(order, vec![1, 3]);
    assert_eq!(report.successful_exchanges, 1);
    assert_eq!(
        report.connection_failures[0].message(),
        "HTTP connection 1 failed: could not write HTTP response: w"
    );
}

#[test]
fn bounded_results_keep_all_of_a_write_or_none() {
    let mut body = BoundedVec::new(4);
    assert_eq!(body.write(b"abc"), Ok(3));
    assert_eq!(body.write(b"d"), Ok(1));
    assert!(matches!(reply_with(body), DatabaseReply::Rendered(bytes) if bytes == b"abcd"));

    let mut body = BoundedVec::new(4);
    assert_eq!(body.write(b"abc"), Ok(3));
    assert_eq!(body.write(b"de"), Err("response byte limit exceeded".to_owned()));
    assert!(matches!(reply_with(body), DatabaseReply::TooLarge));
}

#[test]
fn statements_are_settled_by_what_they_hold() {
    let key = "X-ClickHouse-Key: k\r\n";
    let settle = |body: &str| {
        let request = asked(handle_http_query_with_clickhouse_key("k", &post("/", key, body)));
        match request {
            HttpRequest::Statements { sql, response_format, workload_limits } => {
                let inserts = holds_insertion(&sql);
                let request = HttpRequest::Statements { sql, response_format, workload_limits };
                settle_exchange(request, inserts, true, 1_000)
            }
            other => panic!("{other:?}"),
        }
    };
    assert!(matches!(asked(settle("SELECT 1")), HttpRequest::Query { .. }));
    assert!(matches!(
        asked(settle("SELECT 1; INSERT INTO t VALUES (1)")),
        HttpRequest::Insert { sql } if sql == "SELECT 1; INSERT INTO t VALUES (1)"
    ));
    assert!(!holds_insertion("INSERT INTO"));
    let read_only = post("/", key, "INSERT INTO t VALUES (1)");
    assert!(matches!(
        asked(handle_http_query_read_only_with_clickhouse_key("k", &read_only)),
        HttpRequest::Query { .. }
    ));
    let request = asked(handle_http_query_with_clickhouse_key("k", &post("/", key, "SELECT 1")));
    assert!(matches!(settle_exchange(request, true, true, 10), Exchange::Answered(_)));
}
