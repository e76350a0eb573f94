//! Rules of the engine on small inputs.

use rusthouse::engine::{Engine, EngineConfig, StatementResult};
use rusthouse::float::{FloatReply, FloatRequest};
use rusthouse::lexer::{lex, LexerLimits, TokenKind};
use rusthouse::types::{Error, Value};

fn floats(request: FloatRequest) -> FloatReply {
    let bits = |x: f64| FloatReply::Bits(x.to_bits());
    let of = f64::from_bits;
    match request {
        FloatRequest::Sum(a, b) => bits(of(a) + of(b)),
        FloatRequest::Difference(a, b) => bits(of(a) - of(b)),
        FloatRequest::Product(a, b) => bits(of(a) * of(b)),
        FloatRequest::Quotient(a, b) => bits(of(a) / of(b)),
        FloatRequest::Remainder(a, b) => bits(of(a) % of(b)),
        FloatRequest::FromInteger(i) => bits(i as f64),
        FloatRequest::Parse(text) => match text.parse::<f64>() {
            Ok(x) => bits(x),
            Err(_) => FloatReply::Invalid,
        },
        FloatRequest::Display(a) => FloatReply::Text(of(a).to_string()),
    }
}

fn rows(engine: &mut Engine, sql: &str) -> Vec<Vec<Value>> {
    match engine.execute(sql, &floats).unwrap().pop().unwrap() {
        StatementResult::Query(result) => result.rows,
        StatementResult::Command { .. } => panic!("expected query result"),
    }
}

fn text(s: &str) -> Value {
    Value::String(s.to_owned())
}

#[test]
fn every_error_has_its_kind() {
    let mut engine = Engine::default();
    engine.execute("CREATE TABLE t (n Int64, s String)", &floats).unwrap();
    let mut error = |sql: &str| engine.execute(sql, &floats).unwrap_err();
    assert!(matches!(error("SELECT ("), Error::Sql(_)));
    assert!(matches!(error("SELECT * FROM t JOIN t"), Error::Unsupported(_)));
    assert!(matches!(error("CREATE TABLE T (n Int64)"), Error::TableExists(_)));
    assert!(matches!(error("SELECT * FROM missing"), Error::TableNotFound(_)));
    assert!(matches!(error("SELECT missing FROM t"), Error::ColumnNotFound(_)));
    assert!(matches!(error("SELECT n + s FROM t"), Error::Type(_)));
    assert!(matches!(error("INSERT INTO t VALUES (1)"), Error::Constraint(_)));
}

#[test]
fn inserted_rows_are_read_back_in_order() {
    let mut engine = Engine::default();
    engine.execute("CREATE TABLE t (n Int64, s Nullable(String))", &floats).unwrap();
    engine.execute("INSERT INTO t VALUES (2, 'b'), (1, NULL)", &floats).unwrap();
    engine.execute("INSERT INTO t (s, n) VALUES ('c', 3)", &floats).unwrap();
    assert_eq!(
        rows(&mut engine, "SELECT * FROM t"),
        vec![
            vec![Value::Int64(2), text("b")],
            vec![Value::Int64(1), Value::Null],
            vec![Value::Int64(3), text("c")],
        ]
    );
    assert_eq!(engine.table("T").unwrap().row_count(), 3);
}

#[test]
fn queries_leave_tables_as_they_are() {
    let mut engine = Engine::default();
    engine.execute("CREATE TABLE t (n Int64); INSERT INTO t VALUES (1), (1)", &floats).unwrap();
    assert_eq!(rows(&mut engine, "SELECT DISTINCT n FROM t"), vec![vec![Value::Int64(1)]]);
    assert!(engine.execute("SELECT 1 / 0 FROM t", &floats).is_err());
    assert_eq!(engine.table("t").unwrap().row_count(), 2);
}

#[test]
fn sorted_rows_stay_in_order_with_equal_keys() {
    let mut engine = Engine::default();
    engine
        .execute(
            "CREATE TABLE t (k Int64, s String); INSERT INTO t VALUES (1, 'x'), (0, 'y'), (1, 'a'), (0, 'b')",
            &floats,
        )
        .unwrap();
    let sorted: Vec<Value> = rows(&mut engine, "SELECT s FROM t ORDER BY k")
        .into_iter()
        .map(|mut row| row.remove(0))
        .collect();
    assert_eq!(sorted, vec![text("y"), text("b"), text("x"), text("a")]);
}

#[test]
fn text_changes_case_by_unicode() {
    let mut engine = Engine::default();
    assert_eq!(
        rows(&mut engine, "SELECT LOWER('ÄÉ'), UPPER('ß'), 'ÉTÉ' ILIKE 'été', LENGTH('é')"),
        vec![vec![text("äé"), text("SS"), Value::Bool(true), Value::Int64(1)]]
    );
}

#[test]
fn answers_keep_to_their_row_limit() {
    let mut engine = Engine::new(EngineConfig { max_result_rows: 2, ..EngineConfig::default() });
    engine.execute("CREATE TABLE t (n Int64); INSERT INTO t VALUES (1), (2), (3)", &floats).unwrap();
    assert!(matches!(
        engine.execute("SELECT n FROM t", &floats),
        Err(Error::ResourceLimit { resource: "result rows", limit: 2, .. })
    ));
    assert_eq!(rows(&mut engine, "SELECT n FROM t LIMIT 2").len(), 2);
    assert_eq!(engine.config().max_result_rows, 2);
}

#[test]
fn identifiers_and_spaces_are_those_of_unicode() {
    let limits = LexerLimits::default();
    let tokens = lex("größe\u{a0}٣x \u{2003}ñ1", limits);
    assert!(tokens.is_err());
    let tokens = lex("größe\u{a0}\u{2003}ñ٣", limits).unwrap();
    assert_eq!(tokens.len(), 2);
    assert_eq!(tokens[0].kind, TokenKind::Identifier("größe".to_owned()));
    assert_eq!(tokens[1].kind, TokenKind::Identifier("ñ٣".to_owned()));
    let error = lex("a \u{7f}", limits).unwrap_err();
    assert!(error.message().contains("'\\u{7f}'"), "{}", error.message());
}

#[test]
fn texts_that_the_parser_cannot_finish_are_refused() {
    let mut engine = Engine::default();
    let refused = [
        "CREATE TABLE t (n Int64) AUTO_INCREMENT 1.5",
        "CREATE TABLE t (n Int64) AUTO_INCREMENT = 4294967296",
        "FLUSH RELAY LOGS FOR CHANNEL",
        "FLUSH RELAY LOGS FOR CHANNEL a.",
        "GRANT SELECT ON t TO u GRANTED BY",
        "REVOKE SELECT ON t FROM u GRANTED BY 1",
        "SELECT TOP 1.5 n FROM t",
        "SELECT TOP 18446744073709551616 n FROM t",
        "SELECT * FROM t MATCH_RECOGNIZE (PATTERN (A{4294967296}) DEFINE A AS n > 0)",
        "SELECT * FROM t MATCH_RECOGNIZE (PATTERN (A{1,4294967296}) DEFINE A AS n > 0)",
        "SELECT * FROM t MATCH_RECOGNIZE (PATTERN (A{,1.5}) DEFINE A AS n > 0)",
        "EXPLAIN CREATE EXTERNAL TABLE t (n INT)",
        "CREATE PROCEDURE p AS BEGIN SELECT 1; CREATE EXTERNAL TABLE t (n INT); END",
        "EXPLAIN CREATE EXTERNAL TABLE t (location INT)",
        "CREATE TABLE t LIKE ( AUTO_INCREMENT 4294967296",
        "FLUSH LOCAL RELAY LOGS FOR CHANNEL",
        "SELECT ALL TOP 1.5 n FROM t",
        "SELECT DISTINCT TOP 1.5 n FROM t",
        "SELECT DISTINCT ON (n) TOP 1.5 n FROM t",
        "SELECT * FROM t MATCH_RECOGNIZE (PATTERN (A{4294967296,}) DEFINE A AS n > 0)",
    ];
    for sql in refused {
        match engine.execute(sql, &floats) {
            Err(Error::Sql(message)) => assert_eq!(message, "statement cannot be parsed", "{sql}"),
            other => panic!("{sql}: {other:?}"),
        }
        assert!(matches!(engine.execute_iter(sql), Err(Error::Sql(_))), "{sql}");
    }
}

#[test]
fn words_of_refused_texts_may_stand_elsewhere() {
    let mut engine = Engine::default();
    engine
        .execute("CREATE TABLE t (auto_increment Float64, granted Int64, external Int64)", &floats)
        .unwrap();
    engine.execute("INSERT INTO t VALUES (1.5, 4294967296, 2)", &floats).unwrap();
    assert_eq!(
        rows(&mut engine, "SELECT granted FROM t WHERE auto_increment = 1.5"),
        vec![vec![Value::Int64(4294967296)]]
    );
    assert_eq!(
        rows(&mut engine, "SELECT 'GRANTED BY', external /* TOP 1.5 */ FROM t -- EXTERNAL TABLE"),
        vec![vec![text("GRANTED BY"), Value::Int64(2)]]
    );
    let unsupported = |engine: &mut Engine, sql: &str| {
        assert!(matches!(engine.execute(sql, &floats), Err(Error::Unsupported(_))), "{sql}");
    };
    unsupported(&mut engine, "SELECT TOP 5 granted FROM t");
    unsupported(&mut engine, "CREATE TABLE u (n Int64) AUTO_INCREMENT 7");
    unsupported(&mut engine, "CREATE EXTERNAL TABLE u (n Int64)");
    unsupported(&mut engine, "FLUSH RELAY LOGS FOR CHANNEL a.b");
    unsupported(&mut engine, "GRANT SELECT ON t TO u GRANTED BY w");
}

#[test]
fn texts_that_the_parser_refuses_keep_its_message() {
    let mut engine = Engine::default();
    let refused = [
        "SELECT n top 1.5 FROM t",
        "SELECT top.n, top 1.5 FROM t",
        "CREATE TABLE t (n INT AUTO_INCREMENT 4294967296)",
        "SELECT n FROM t GRANTED BY",
        "SELECT n RELAY LOGS FOR CHANNEL",
        "SELECT {4294967296} FROM t",
        "SELECT * FROM t MATCH_RECOGNIZE (PATTERN (A{4294967296,4,) DEFINE A AS n > 0)",
    ];
    for sql in refused {
        match engine.execute(sql, &floats) {
            Err(Error::Sql(message)) => assert!(message.starts_with("sql parser error: "), "{message}"),
            other => panic!("{sql}: {other:?}"),
        }
    }
    let earlier = [
        "SELCT 1; SELECT TOP 1.5 n FROM t",
        "SELECT 'a\nb' AS c FROM t WHERE; SELECT n FROM t; SELECT TOP 1.5 n FROM t",
        "SELECT n FROM t WHERE AND n IN (SELECT TOP 1.5 n FROM t)",
        "CREATE TABLE t (n, m Int64) AUTO_INCREMENT 1.5 )",
        "SELECT 1 GROUP n; EXPLAIN CREATE EXTERNAL TABLE t (n INT)",
    ];
    for sql in earlier {
        match engine.execute(sql, &floats) {
            Err(Error::Sql(message)) => assert!(message.starts_with("sql parser error: "), "{sql}: {message}"),
            other => panic!("{sql}: {other:?}"),
        }
    }
    match engine.execute("EXPLAIN CREATE EXTERNAL TABLE x (n Int64) LOCATION 'a'", &floats) {
        Err(Error::Unsupported(message)) => assert!(message.contains("LOCATION 'a'"), "{message}"),
        other => panic!("{other:?}"),
    }
}

#[test]
fn options_and_literals_are_told_apart() {
    let mut engine = Engine::default();
    engine.execute("CREATE TABLE t (n Int64)", &floats).unwrap();
    engine.execute("INSERT INTO t VALUES (1), (1)", &floats).unwrap();
    assert_eq!(
        rows(&mut engine, "SELECT 'a', E'b\\n', N'c', R'd\\n', COUNT(DISTINCT n), COUNT(ALL n) FROM t"),
        vec![vec![
            text("a"),
            text("b\n"),
            text("c"),
            text("d\\n"),
            Value::Int64(1),
            Value::Int64(2),
        ]]
    );
    let unsupported = |engine: &mut Engine, sql: &str| {
        assert!(matches!(engine.execute(sql, &floats), Err(Error::Unsupported(_))), "{sql}");
    };
    unsupported(&mut engine, "SELECT X'00' FROM t");
    unsupported(&mut engine, "SELECT * EXCEPT (n) FROM t");
    unsupported(&mut engine, "SELECT t.* EXCEPT (n) FROM t");
    unsupported(&mut engine, "CREATE TABLE u (n Int64) PARTITIONED BY (n Int64)");
    unsupported(&mut engine, "CREATE TABLE u (n Int64) LOCATION 'x'");
    unsupported(&mut engine, "CREATE TABLE u (n Int64) STORED AS ORC");
}
