//! Statements against the engine.

use rusthouse::engine::{Engine, EngineConfig, StatementResult};
use rusthouse::float::{FloatReply, FloatRequest};
use rusthouse::selecting::QueryResult;
use rusthouse::types::{Error, Value};
use std::collections::BTreeMap;

fn floats(request: FloatRequest) -> FloatReply {
    let bits = |x: f64| FloatReply::Bits(x.to_bits());
    let of = f64::from_bits;
    match request {
        FloatRequest::Sum(a, b) => bits(of(a) + of(b)),
        FloatRequest::Difference(a, b) => bits(of(a) - of(b)),
        FloatRequest::Product(a, b) => bits(of(a) * of(b)),
        FloatRequest::Quotient(a, b) => bits(of(a) / of(b)),
        FloatRequest::Remainder(a, b) => bits(of(a) % of(b)),
        FloatRequest::FromInteger(i) => bits(i as f64),
        FloatRequest::Parse(text) => match text.parse::<f64>() {
            Ok(x) => bits(x),
            Err(_) => FloatReply::Invalid,
        },
        FloatRequest::Display(a) => FloatReply::Text(of(a).to_string()),
    }
}

fn float(x: f64) -> Value {
    Value::Float64(x.to_bits())
}

fn query(engine: &mut Engine, sql: &str) -> QueryResult {
    match engine.execute(sql, &floats).unwrap().pop().unwrap() {
        StatementResult::Query(result) => result,
        StatementResult::Command { .. } => panic!("expected query result"),
    }
}

fn fixture() -> Engine {
    let mut engine = Engine::default();
    engine
        .execute(
            "CREATE TABLE events (id Int64, category String, value Float64, active Bool, note Nullable(String));
             INSERT INTO events VALUES
                (1, 'b', 10.0, true, NULL),
                (2, 'a', 5.5, false, 'x'),
                (3, 'b', 2.5, true, 'y'),
                (4, 'a', 5.5, true, NULL);", &floats)
        .unwrap();
    engine
}

#[test]
fn executes_fixed_analytical_shapes() {
    let mut engine = fixture();
    let result = query(
        &mut engine,
        "SELECT category AS bucket, COUNT() AS n, SUM(value) AS total,
                MIN(value) AS low, MAX(value) AS high, AVG(value) AS mean
         FROM events WHERE active AND value >= 2
         GROUP BY bucket HAVING COUNT(*) >= 1
         ORDER BY total DESC, bucket ASC LIMIT 2",
    );
    assert_eq!(
        result.columns,
        ["bucket", "n", "total", "low", "high", "mean"]
    );
    assert_eq!(
        result.rows,
        vec![
            vec![
                Value::String("b".into()),
                Value::Int64(2),
                float(12.5),
                float(2.5),
                float(10.0),
                float(6.25),
            ],
            vec![
                Value::String("a".into()),
                Value::Int64(1),
                float(5.5),
                float(5.5),
                float(5.5),
                float(5.5),
            ],
        ]
    );
}

#[test]
fn supports_projection_distinct_nulls_and_three_valued_logic() {
    let mut engine = fixture();
    let result = query(
        &mut engine,
        "SELECT DISTINCT category, id * 2 AS doubled, note IS NULL AS missing
         FROM events WHERE (active OR note = 'x') AND NOT (id < 2)
         ORDER BY category, doubled DESC",
    );
    assert_eq!(result.rows.len(), 3);
    assert_eq!(result.rows[0][1], Value::Int64(8));
    assert_eq!(result.rows[2][1], Value::Int64(6));
}

#[test]
fn rejects_ungrouped_columns_in_grouped_queries() {
    let mut engine = Engine::default();
    engine
        .execute(
            "CREATE TABLE t (cat String, n Int64);
             INSERT INTO t VALUES ('a', 2), ('a', 1), ('b', 4);", &floats)
        .unwrap();
    let error = engine
        .execute("SELECT cat, n, SUM(n) FROM t GROUP BY cat", &floats)
        .unwrap_err();
    assert!(matches!(error, Error::Constraint(message) if message.contains("n")));
    assert!(engine.execute("SELECT cat, n FROM t GROUP BY cat", &floats).is_err());
    assert_eq!(
        query(
            &mut engine,
            "SELECT cat, SUM(n) FROM t GROUP BY cat ORDER BY cat"
        )
        .rows,
        vec![
            vec![Value::String("a".into()), Value::Int64(3)],
            vec![Value::String("b".into()), Value::Int64(4)],
        ]
    );
}

#[test]
fn rejects_unsupported_ddl_and_dml_before_mutation() {
    let mut engine = Engine::default();
    for (name, sql) in [
        (
            "primary_column",
            "CREATE TABLE primary_column (n Int64 PRIMARY KEY)",
        ),
        (
            "unique_column",
            "CREATE TABLE unique_column (n Int64 UNIQUE)",
        ),
        (
            "checked_column",
            "CREATE TABLE checked_column (n Int64 CHECK (n > 0))",
        ),
        (
            "primary_table",
            "CREATE TABLE primary_table (n Int64, PRIMARY KEY (n))",
        ),
        ("defaulted", "CREATE TABLE defaulted (n Int64 DEFAULT 1)"),
    ] {
        assert!(engine.execute(sql, &floats).is_err(), "{sql} unexpectedly succeeded");
        assert!(engine.table(name).is_none());
    }

    engine.execute("CREATE TABLE target (n Int64)", &floats).unwrap();
    assert!(
        engine
            .execute("INSERT INTO target VALUES (1) RETURNING n", &floats)
            .is_err()
    );
    assert_eq!(
        query(&mut engine, "SELECT COUNT(*) FROM target").rows,
        vec![vec![Value::Int64(0)]]
    );
}

#[test]
fn bounds_collected_batch_result_bytes_but_supports_streaming() {
    let mut engine = Engine::new(EngineConfig {
        max_batch_result_bytes: 1_000,
        ..EngineConfig::default()
    });
    let literal = "x".repeat(600);
    let one = format!("SELECT '{literal}' AS value");
    assert_eq!(query(&mut engine, &one).rows.len(), 1);

    let batch = format!("{one}; {one}");
    assert!(matches!(
        engine.execute(&batch, &floats),
        Err(Error::ResourceLimit {
            resource: "batch result bytes",
            ..
        })
    ));
    let mut streamed = 0;
    let mut pending = engine.execute_iter(&batch).unwrap();
    while let Some(result) = pending.next(&mut engine, &floats) {
        result.unwrap();
        streamed += 1;
    }
    assert_eq!(streamed, 2);
}

#[test]
fn evaluates_aggregates_inside_scalar_functions_and_casts() {
    let mut engine = Engine::default();
    engine
        .execute("CREATE TABLE t (n Int64); INSERT INTO t VALUES (1), (2)", &floats)
        .unwrap();
    assert_eq!(
        query(
            &mut engine,
            "SELECT COALESCE(SUM(n), 0), CAST(SUM(n) AS Float64) FROM t"
        )
        .rows,
        vec![vec![Value::Int64(3), float(3.0)]]
    );
    assert_eq!(
        query(
            &mut engine,
            "SELECT COALESCE(SUM(n), 0) FROM t WHERE n > 100"
        )
        .rows,
        vec![vec![Value::Int64(0)]]
    );
}

#[test]
fn validates_table_qualifiers_and_aliases() {
    let mut engine = Engine::default();
    engine.execute("CREATE TABLE t (n Int64)", &floats).unwrap();
    assert_eq!(
        query(&mut engine, "SELECT actual.n FROM t AS actual").columns,
        vec!["actual.n"]
    );
    assert_eq!(
        query(&mut engine, "SELECT actual.* FROM t AS actual").columns,
        vec!["n"]
    );
    assert_eq!(
        query(&mut engine, "SELECT COUNT(actual.*) FROM t AS actual").rows,
        vec![vec![Value::Int64(0)]]
    );
    for sql in [
        "SELECT bogus.n FROM t AS actual",
        "SELECT bogus.* FROM t AS actual",
        "SELECT t.n FROM t AS actual",
        "SELECT COUNT(bogus.*) FROM t AS actual",
    ] {
        assert!(engine.execute(sql, &floats).is_err(), "{sql} unexpectedly succeeded");
    }
}

#[test]
fn handles_numeric_boundaries_without_saturation_or_nan() {
    let mut engine = Engine::default();
    assert_eq!(
        query(&mut engine, "SELECT -0.0 = 0.0").rows,
        vec![vec![Value::Bool(true)]]
    );
    assert!(engine.execute("SELECT 1.0 % 0.0", &floats).is_err());
    assert!(engine.execute("SELECT 1.0 % -0.0", &floats).is_err());
    assert!(engine.execute("SELECT CAST(1e100 AS Int64)", &floats).is_err());
}

#[test]
fn like_matches_unicode_and_honors_escape() {
    let mut engine = Engine::default();
    assert_eq!(
        query(
            &mut engine,
            "SELECT 'é' LIKE '_', 'a_b' LIKE 'a!_b' ESCAPE '!',
                    'a%b' LIKE 'a!%b' ESCAPE '!'"
        )
        .rows,
        vec![vec![
            Value::Bool(true),
            Value::Bool(true),
            Value::Bool(true),
        ]]
    );
}

#[test]
fn validates_like_escape_width_at_all_cardinalities() {
    let mut engine = Engine::default();
    engine.execute("CREATE TABLE t (s String)", &floats).unwrap();
    let invalid_queries = [
        "SELECT s LIKE 'a' ESCAPE 'xx' FROM t",
        "SELECT s ILIKE 'a' ESCAPE '' FROM t",
    ];
    for sql in invalid_queries {
        assert!(matches!(engine.execute(sql, &floats), Err(Error::Constraint(_))));
    }

    engine.execute("INSERT INTO t VALUES ('a')", &floats).unwrap();
    for sql in invalid_queries {
        assert!(matches!(engine.execute(sql, &floats), Err(Error::Constraint(_))));
    }
    assert_eq!(
        query(&mut engine, "SELECT s LIKE 'a' ESCAPE 'é' FROM t").rows,
        vec![vec![Value::Bool(true)]]
    );
}

#[test]
fn scalar_string_functions_propagate_null() {
    let mut engine = Engine::default();
    assert_eq!(
        query(&mut engine, "SELECT LOWER(NULL), UPPER(NULL), LENGTH(NULL)").rows,
        vec![vec![Value::Null, Value::Null, Value::Null]]
    );
}

#[test]
fn binds_functions_and_types_even_when_tables_are_empty() {
    let mut engine = Engine::default();
    engine
        .execute("CREATE TABLE t (n Int64, label String)", &floats)
        .unwrap();
    for sql in [
        "SELECT made_up(n) FROM t",
        "SELECT SUM(label) FROM t",
        "SELECT n + label FROM t",
    ] {
        assert!(engine.execute(sql, &floats).is_err(), "{sql} unexpectedly succeeded");
    }
    engine.execute("INSERT INTO t VALUES (1, 'x')", &floats).unwrap();
    for sql in [
        "SELECT made_up(n) FROM t",
        "SELECT SUM(label) FROM t",
        "SELECT n + label FROM t",
    ] {
        assert!(engine.execute(sql, &floats).is_err(), "{sql} unexpectedly succeeded");
    }
}

#[test]
fn coalesce_is_lazy_and_uses_a_common_numeric_type() {
    let mut engine = Engine::default();
    assert_eq!(
        query(&mut engine, "SELECT COALESCE(1, 1 / 0)").rows,
        vec![vec![float(1.0)]]
    );
    engine
        .execute(
            "CREATE TABLE t (n Nullable(Int64));
             INSERT INTO t VALUES (1), (NULL);", &floats)
        .unwrap();
    assert_eq!(
        query(
            &mut engine,
            "SELECT COUNT(DISTINCT COALESCE(n, 1.0)) FROM t"
        )
        .rows,
        vec![vec![Value::Int64(1)]]
    );
    assert_eq!(
        query(&mut engine, "SELECT DISTINCT COALESCE(n, 1.0) FROM t").rows,
        vec![vec![float(1.0)]]
    );
    assert_eq!(
        query(
            &mut engine,
            "SELECT COUNT(*) FROM t GROUP BY COALESCE(n, 1.0)"
        )
        .rows,
        vec![vec![Value::Int64(2)]]
    );
}

#[test]
fn group_by_expression_identifiers_are_case_insensitive() {
    let mut engine = Engine::default();
    engine
        .execute("CREATE TABLE t (n Int64); INSERT INTO t VALUES (1), (2)", &floats)
        .unwrap();
    assert_eq!(
        query(
            &mut engine,
            "SELECT n + 1 FROM t GROUP BY N + 1 ORDER BY n + 1"
        )
        .rows,
        vec![vec![Value::Int64(2)], vec![Value::Int64(3)]]
    );
}

#[test]
fn having_discarded_groups_do_not_consume_result_bytes() {
    let mut engine = Engine::new(EngineConfig {
        max_batch_result_bytes: 2_000,
        ..EngineConfig::default()
    });
    engine.execute("CREATE TABLE t (n Int64)", &floats).unwrap();
    engine
        .execute("INSERT INTO t VALUES (1), (2), (3), (4), (5)", &floats)
        .unwrap();
    assert!(
        query(&mut engine, "SELECT n FROM t GROUP BY n HAVING false")
            .rows
            .is_empty()
    );
}

#[test]
fn rejects_non_finite_float_results() {
    let mut engine = Engine::default();
    for sql in [
        "SELECT 1e999",
        "SELECT CAST('NaN' AS Float64)",
        "SELECT 1e308 * 1e308",
    ] {
        assert!(engine.execute(sql, &floats).is_err(), "{sql} unexpectedly succeeded");
    }
}

#[test]
fn supports_the_minimum_int64_literal() {
    let mut engine = Engine::default();
    for sql in [
        "SELECT -9223372036854775808",
        "SELECT -(9223372036854775808)",
        "SELECT -((9223372036854775808))",
    ] {
        assert_eq!(
            query(&mut engine, sql).rows,
            vec![vec![Value::Int64(i64::MIN)]]
        );
    }
    engine.execute("CREATE TABLE t (n Int64)", &floats).unwrap();
    engine
        .execute("INSERT INTO t VALUES (-((9223372036854775808)))", &floats)
        .unwrap();
    assert_eq!(
        query(&mut engine, "SELECT n FROM t").rows,
        vec![vec![Value::Int64(i64::MIN)]]
    );
}

#[test]
fn ilike_escape_is_applied_before_case_folding() {
    let mut engine = Engine::default();
    assert_eq!(
        query(&mut engine, "SELECT '%' ILIKE 'A%' ESCAPE 'A'").rows,
        vec![vec![Value::Bool(true)]]
    );
}

#[test]
fn having_filters_groups_before_evaluating_projections() {
    let mut engine = Engine::default();
    engine
        .execute(
            "CREATE TABLE t (g String, n Int64);
             INSERT INTO t VALUES ('zero', 1), ('zero', -1), ('kept', 2);", &floats)
        .unwrap();
    assert_eq!(
        query(
            &mut engine,
            "SELECT g, SUM(n) AS total, 1 / SUM(n) AS reciprocal
             FROM t GROUP BY g HAVING total <> 0 ORDER BY g"
        )
        .rows,
        vec![vec![
            Value::String("kept".into()),
            Value::Int64(2),
            float(0.5),
        ]]
    );
}

#[test]
fn having_without_group_by_uses_one_implicit_group() {
    let mut engine = Engine::default();
    engine
        .execute("CREATE TABLE t (n Int64); INSERT INTO t VALUES (1), (2)", &floats)
        .unwrap();
    assert_eq!(
        query(&mut engine, "SELECT 1 AS x FROM t HAVING TRUE").rows,
        vec![vec![Value::Int64(1)]]
    );
    assert!(
        query(&mut engine, "SELECT 1 AS x FROM t HAVING FALSE")
            .rows
            .is_empty()
    );
    assert!(engine.execute("SELECT n FROM t HAVING TRUE", &floats).is_err());
    assert!(engine.execute("SELECT 1 FROM t HAVING n > 0", &floats).is_err());
}

#[test]
fn group_by_source_columns_take_precedence_over_aliases() {
    let mut engine = Engine::default();
    engine
        .execute(
            "CREATE TABLE t (a Int64, b Int64);
             INSERT INTO t VALUES (1, 10), (1, 20);", &floats)
        .unwrap();
    assert!(
        engine
            .execute("SELECT a AS b, SUM(b) FROM t GROUP BY b", &floats)
            .is_err()
    );
    assert_eq!(
        query(&mut engine, "SELECT COUNT(*) AS b FROM t GROUP BY b").rows,
        vec![vec![Value::Int64(1)], vec![Value::Int64(1)]]
    );
}

#[test]
fn rejects_distinct_wildcard_counts() {
    let mut engine = Engine::default();
    engine
        .execute("CREATE TABLE t (n Int64); INSERT INTO t VALUES (1), (1), (2)", &floats)
        .unwrap();
    assert!(engine.execute("SELECT COUNT(DISTINCT *) FROM t", &floats).is_err());
    assert!(engine.execute("SELECT COUNT(DISTINCT t.*) FROM t", &floats).is_err());
    assert_eq!(
        query(&mut engine, "SELECT COUNT(*), COUNT(DISTINCT n) FROM t").rows,
        vec![vec![Value::Int64(3), Value::Int64(2)]]
    );
}

#[test]
fn rejects_aggregates_in_where_at_all_cardinalities() {
    let mut engine = Engine::default();
    engine.execute("CREATE TABLE t (n Int64)", &floats).unwrap();
    let sql = "SELECT COUNT(*) FROM t WHERE COUNT(*) > 0";
    assert!(engine.execute(sql, &floats).is_err());
    engine.execute("INSERT INTO t VALUES (1)", &floats).unwrap();
    assert!(engine.execute(sql, &floats).is_err());
}

#[test]
fn validates_order_by_ordinals_before_scanning() {
    let mut engine = Engine::default();
    engine.execute("CREATE TABLE t (n Int64)", &floats).unwrap();
    assert!(engine.execute("SELECT n FROM t ORDER BY 2", &floats).is_err());
    engine.execute("INSERT INTO t VALUES (1)", &floats).unwrap();
    assert!(engine.execute("SELECT n FROM t ORDER BY 2", &floats).is_err());
    assert_eq!(
        query(&mut engine, "SELECT n FROM t ORDER BY 1").rows,
        vec![vec![Value::Int64(1)]]
    );
}

#[test]
fn result_byte_limit_uses_rows_after_distinct_and_limit() {
    let mut engine = Engine::new(EngineConfig {
        max_batch_result_bytes: 1_000,
        ..EngineConfig::default()
    });
    engine.execute("CREATE TABLE t (n Int64)", &floats).unwrap();
    engine
        .execute("INSERT INTO t VALUES (1), (1), (1), (1)", &floats)
        .unwrap();
    assert_eq!(
        query(&mut engine, "SELECT n FROM t LIMIT 1").rows,
        vec![vec![Value::Int64(1)]]
    );
    assert_eq!(
        query(&mut engine, "SELECT DISTINCT n FROM t").rows,
        vec![vec![Value::Int64(1)]]
    );
}

#[test]
fn bounds_intermediate_projection_materialization() {
    let mut engine = Engine::new(EngineConfig {
        max_batch_result_bytes: 2_048,
        ..EngineConfig::default()
    });
    engine.execute("CREATE TABLE t (payload String)", &floats).unwrap();
    let payload = "x".repeat(128);
    let values = std::iter::repeat_n(format!("('{payload}')"), 10)
        .collect::<Vec<_>>()
        .join(", ");
    engine
        .execute(&format!("INSERT INTO t VALUES {values}"), &floats)
        .unwrap();

    assert_eq!(
        query(&mut engine, "SELECT payload FROM t LIMIT 1").rows,
        vec![vec![Value::String(payload.clone())]]
    );
    assert_eq!(
        query(&mut engine, "SELECT DISTINCT payload FROM t").rows,
        vec![vec![Value::String(payload)]]
    );
    for sql in [
        "SELECT payload FROM t",
        "SELECT payload FROM t ORDER BY payload LIMIT 1",
    ] {
        assert!(matches!(
            engine.execute(sql, &floats),
            Err(Error::ResourceLimit {
                resource: "intermediate result bytes",
                ..
            })
        ));
    }
}

#[test]
fn rejects_string_expression_amplification_before_allocation() {
    let mut engine = Engine::new(EngineConfig {
        max_batch_result_bytes: 1_024,
        ..EngineConfig::default()
    });
    engine.execute("CREATE TABLE t (payload String)", &floats).unwrap();
    let payload = "x".repeat(100 * 1_024);
    engine
        .execute(&format!("INSERT INTO t VALUES ('{payload}')"), &floats)
        .unwrap();
    let expression = std::iter::repeat_n("payload", 100)
        .collect::<Vec<_>>()
        .join(" || ");

    assert!(matches!(
        engine.execute(&format!("SELECT {expression} AS amplified FROM t"), &floats),
        Err(Error::ResourceLimit {
            resource: "intermediate result bytes",
            limit: 1_024,
            ..
        })
    ));

    engine
        .execute("CREATE TABLE small (payload String)", &floats)
        .unwrap();
    engine
        .execute(&format!("INSERT INTO small VALUES ('{}')", "y".repeat(64)), &floats)
        .unwrap();
    assert!(matches!(
        engine.execute(&format!("SELECT {expression} AS amplified FROM small"), &floats),
        Err(Error::ResourceLimit {
            resource: "intermediate result bytes",
            limit: 1_024,
            ..
        })
    ));
}

#[test]
fn limit_zero_short_circuits_before_scanning() {
    let mut engine = Engine::new(EngineConfig {
        max_batch_result_bytes: 100,
        ..EngineConfig::default()
    });
    engine.execute("CREATE TABLE t (n Int64)", &floats).unwrap();
    let values = (0..100)
        .map(|value| format!("({value})"))
        .collect::<Vec<_>>()
        .join(",");
    engine
        .execute(&format!("INSERT INTO t VALUES {values}"), &floats)
        .unwrap();

    let result = query(&mut engine, "SELECT n FROM t ORDER BY n LIMIT 0");
    assert_eq!(result.columns, vec!["n"]);
    assert!(result.rows.is_empty());
}

#[test]
fn enforces_memory_budget_across_analytical_intermediates() {
    let mut engine = Engine::new(EngineConfig {
        max_batch_result_bytes: 100,
        ..EngineConfig::default()
    });
    engine.execute("CREATE TABLE t (n Int64)", &floats).unwrap();
    let values = (0..10_000)
        .map(|value| format!("({value})"))
        .collect::<Vec<_>>()
        .join(",");
    engine
        .execute(&format!("INSERT INTO t VALUES {values}"), &floats)
        .unwrap();

    for sql in [
        "SELECT COUNT(n) FROM t",
        "SELECT n, COUNT(*) FROM t GROUP BY n",
        "SELECT COUNT(DISTINCT n) FROM t",
        "SELECT DISTINCT n FROM t",
    ] {
        assert!(matches!(
            engine.execute(sql, &floats),
            Err(Error::ResourceLimit {
                resource: "intermediate result bytes",
                limit: 100,
                ..
            })
        ));
    }
}

#[test]
fn rejects_unknown_character_type_prefixes() {
    let mut engine = Engine::default();
    assert!(
        engine
            .execute("CREATE TABLE misspelled (n CHARLATAN)", &floats)
            .is_err()
    );
    assert!(engine.table("misspelled").is_none());
    engine.execute("CREATE TABLE valid (n VARCHAR)", &floats).unwrap();
}

#[test]
fn rejects_function_null_treatment_modifiers() {
    let mut engine = Engine::default();
    engine
        .execute("CREATE TABLE t (n Nullable(Int64))", &floats)
        .unwrap();
    assert!(
        engine
            .execute("SELECT SUM(n) RESPECT NULLS FROM t", &floats)
            .is_err()
    );
    assert!(
        engine
            .execute("SELECT LOWER(NULL) IGNORE NULLS FROM t", &floats)
            .is_err()
    );
}

#[test]
fn implements_try_cast_and_rejects_cast_formats() {
    let mut engine = Engine::default();
    assert_eq!(
        query(&mut engine, "SELECT TRY_CAST('not-an-int' AS Int64)").rows,
        vec![vec![Value::Null]]
    );
    assert!(
        engine
            .execute("SELECT CAST('not-an-int' AS Int64)", &floats)
            .is_err()
    );
    assert!(
        engine
            .execute("SELECT CAST('1' AS Int64 FORMAT '999')", &floats)
            .is_err()
    );
}

#[test]
fn avg_avoids_overflowing_its_intermediate_sum() {
    let mut engine = Engine::default();
    engine
        .execute(
            "CREATE TABLE t (n Float64);
             INSERT INTO t VALUES (1e308), (1e308);", &floats)
        .unwrap();
    assert_eq!(
        query(&mut engine, "SELECT AVG(n) FROM t").rows,
        vec![vec![float(1e308)]]
    );
}

#[test]
fn rejects_quoted_identifiers_consistently() {
    let mut engine = Engine::default();
    assert!(
        engine
            .execute("CREATE TABLE quoted (\"x\" Int64, \"X\" Int64)", &floats)
            .is_err()
    );
    assert!(engine.table("quoted").is_none());

    engine.execute("CREATE TABLE t (n Int64)", &floats).unwrap();
    for sql in [
        "SELECT \"N\" FROM t",
        "SELECT n AS \"N\" FROM t",
        "INSERT INTO t (\"n\") VALUES (1)",
        "SELECT n FROM t AS \"T\"",
    ] {
        assert!(engine.execute(sql, &floats).is_err(), "{sql} unexpectedly succeeded");
    }
}

#[test]
fn truth_predicates_are_bound_as_boolean_on_empty_tables() {
    let mut engine = Engine::default();
    engine.execute("CREATE TABLE t (n Int64)", &floats).unwrap();
    assert!(engine.execute("SELECT n IS TRUE FROM t", &floats).is_err());
    assert!(engine.execute("SELECT n IS FALSE FROM t", &floats).is_err());
    engine.execute("INSERT INTO t VALUES (1)", &floats).unwrap();
    assert!(engine.execute("SELECT n IS TRUE FROM t", &floats).is_err());
}

#[test]
fn order_by_treats_signed_zero_as_equal() {
    let mut engine = Engine::default();
    engine
        .execute(
            "CREATE TABLE t (value Float64, id Int64);
             INSERT INTO t VALUES (0.0, 1), (-0.0, 2);", &floats)
        .unwrap();
    assert_eq!(
        query(&mut engine, "SELECT id FROM t ORDER BY value, id").rows,
        vec![vec![Value::Int64(1)], vec![Value::Int64(2)]]
    );
}

#[test]
fn empty_aggregate_has_sql_values() {
    let mut engine = fixture();
    let result = query(
        &mut engine,
        "SELECT COUNT(*), SUM(value), MIN(value), MAX(value), AVG(value)
         FROM events WHERE id > 100",
    );
    assert_eq!(
        result.rows,
        vec![vec![
            Value::Int64(0),
            Value::Null,
            Value::Null,
            Value::Null,
            Value::Null,
        ]]
    );
}

#[test]
fn orders_nulls_and_multiple_keys_deterministically() {
    let mut engine = Engine::default();
    engine
        .execute(
            "CREATE TABLE t (group_name String, n Nullable(Int64));
             INSERT INTO t VALUES ('b', NULL), ('a', 2), ('b', 2), ('a', NULL), ('c', 1);", &floats)
        .unwrap();
    assert_eq!(
        query(
            &mut engine,
            "SELECT group_name, n FROM t ORDER BY n DESC NULLS LAST, group_name ASC",
        )
        .rows,
        vec![
            vec![Value::String("a".into()), Value::Int64(2)],
            vec![Value::String("b".into()), Value::Int64(2)],
            vec![Value::String("c".into()), Value::Int64(1)],
            vec![Value::String("a".into()), Value::Null],
            vec![Value::String("b".into()), Value::Null],
        ]
    );
}

#[test]
fn enforces_input_insert_table_and_result_limits() {
    let mut engine = Engine::new(EngineConfig {
        max_input_bytes: 80,
        max_rows_per_insert: 2,
        max_rows_per_table: 2,
        max_result_rows: 1,
        max_batch_result_bytes: 10_000,
    });
    engine.execute("CREATE TABLE t (n Int64)", &floats).unwrap();
    assert!(matches!(
        engine.execute("INSERT INTO t VALUES (1), (2), (3)", &floats),
        Err(Error::ResourceLimit {
            resource: "rows per INSERT",
            ..
        })
    ));
    engine.execute("INSERT INTO t VALUES (1), (2)", &floats).unwrap();
    assert!(matches!(
        engine.execute("INSERT INTO t VALUES (3)", &floats),
        Err(Error::ResourceLimit {
            resource: "rows per table",
            ..
        })
    ));
    assert!(matches!(
        engine.execute("SELECT n FROM t", &floats),
        Err(Error::ResourceLimit {
            resource: "result rows",
            ..
        })
    ));
    assert_eq!(query(&mut engine, "SELECT n FROM t LIMIT 1").rows.len(), 1);
    assert!(matches!(
        engine.execute(&" ".repeat(81), &floats),
        Err(Error::ResourceLimit {
            resource: "SQL input bytes",
            ..
        })
    ));
}

#[test]
fn rejects_partial_bad_batches_without_mutation() {
    let mut engine = Engine::default();
    engine.execute("CREATE TABLE t (n Int64)", &floats).unwrap();
    assert!(engine.execute("INSERT INTO t VALUES (1), ('bad')", &floats).is_err());
    assert_eq!(
        query(&mut engine, "SELECT COUNT(*) FROM t").rows[0][0],
        Value::Int64(0)
    );
}

#[test]
fn parses_a_complete_batch_before_mutating_the_catalog() {
    let mut engine = Engine::default();
    assert!(
        engine
            .execute("CREATE TABLE should_not_exist (n Int64); SELECT (", &floats)
            .is_err()
    );
    assert!(engine.table("should_not_exist").is_none());
}

#[test]
fn rejects_projection_aliases_inside_aggregate_arguments_at_all_cardinalities() {
    let mut engine = Engine::default();
    engine.execute("CREATE TABLE t (n Int64)", &floats).unwrap();
    let invalid_queries = [
        "SELECT n AS x, COUNT(*) FROM t GROUP BY n HAVING SUM(x) > 0",
        "SELECT n AS x, COUNT(*) FROM t GROUP BY n HAVING SUM(COALESCE(x, 0)) > 0",
    ];

    for sql in invalid_queries {
        assert!(matches!(engine.execute(sql, &floats), Err(Error::Unsupported(_))));
    }
    engine.execute("INSERT INTO t VALUES (1)", &floats).unwrap();
    for sql in invalid_queries {
        assert!(matches!(engine.execute(sql, &floats), Err(Error::Unsupported(_))));
    }

    assert_eq!(
        query(
            &mut engine,
            "SELECT n AS x, COUNT(*) FROM t GROUP BY n HAVING x > 0",
        )
        .rows,
        vec![vec![Value::Int64(1), Value::Int64(1)]]
    );
}

#[test]
fn rejects_unsupported_unsigned_integer_declarations() {
    let mut engine = Engine::default();
    for (table, data_type) in [
        ("u8_values", "UInt8"),
        ("u16_values", "UInt16"),
        ("u32_values", "UInt32"),
        ("u64_values", "UInt64"),
    ] {
        assert!(matches!(
            engine.execute(&format!("CREATE TABLE {table} (n {data_type})"), &floats),
            Err(Error::Unsupported(_))
        ));
        assert!(engine.table(table).is_none());
    }

    engine.execute("CREATE TABLE signed (n Int64)", &floats).unwrap();
    engine
        .execute("INSERT INTO signed VALUES (-9223372036854775808), (9223372036854775807)", &floats)
        .unwrap();
    assert_eq!(
        query(&mut engine, "SELECT MIN(n), MAX(n) FROM signed").rows,
        vec![vec![Value::Int64(i64::MIN), Value::Int64(i64::MAX)]]
    );
}

struct Numbers(u64);

impl Numbers {
    fn below(&mut self, n: u64) -> u64 {
        self.0 = self.0.wrapping_mul(6364136223846793005).wrapping_add(1442695040888963407);
        (self.0 >> 33) % n
    }
}

#[test]
fn randomized_filter_sum_matches_rust() {
    let mut numbers = Numbers(7);
    for _ in 0..16 {
        let length = numbers.below(200);
        let values: Vec<i64> = (0..length).map(|_| numbers.below(20_000) as i64 - 10_000).collect();
        let threshold = numbers.below(20_000) as i64 - 10_000;
        let mut engine = Engine::default();
        engine.execute("CREATE TABLE numbers (value Int64)", &floats).unwrap();
        if !values.is_empty() {
            let sql = values.iter().map(|value| format!("({value})")).collect::<Vec<_>>().join(",");
            engine.execute(&format!("INSERT INTO numbers VALUES {sql}"), &floats).unwrap();
        }
        let result = query(
            &mut engine,
            &format!("SELECT COUNT(*), SUM(value), MIN(value), MAX(value), AVG(value) FROM numbers WHERE value >= {threshold}"),
        );
        let expected = values.iter().copied().filter(|value| *value >= threshold).collect::<Vec<_>>();
        assert_eq!(result.rows[0][0], Value::Int64(expected.len() as i64));
        if expected.is_empty() {
            assert_eq!(result.rows[0][1], Value::Null);
        } else {
            assert_eq!(result.rows[0][1], Value::Int64(expected.iter().sum()));
            assert_eq!(result.rows[0][2], Value::Int64(*expected.iter().min().unwrap()));
            assert_eq!(result.rows[0][3], Value::Int64(*expected.iter().max().unwrap()));
            let mean = expected.iter().map(|value| *value as f64).sum::<f64>() / expected.len() as f64;
            assert_eq!(result.rows[0][4], float(mean));
        }
    }
}

#[test]
fn randomized_group_order_limit_matches_rust() {
    let mut numbers = Numbers(11);
    for _ in 0..16 {
        let length = numbers.below(160);
        let rows: Vec<(u64, i64, bool)> = (0..length)
            .map(|_| (numbers.below(5), numbers.below(2_000) as i64 - 1_000, numbers.below(2) == 1))
            .collect();
        let threshold = numbers.below(2_000) as i64 - 1_000;
        let mut engine = Engine::default();
        engine
            .execute("CREATE TABLE facts (category String, value Int64, active Bool)", &floats)
            .unwrap();
        if !rows.is_empty() {
            let sql = rows
                .iter()
                .map(|(category, value, active)| format!("('c{category}', {value}, {active})"))
                .collect::<Vec<_>>()
                .join(",");
            engine.execute(&format!("INSERT INTO facts VALUES {sql}"), &floats).unwrap();
        }
        let actual = query(
            &mut engine,
            &format!(
                "SELECT category, COUNT(*) AS n, SUM(value) AS total,
                        MIN(value) AS low, MAX(value) AS high, AVG(value) AS mean
                 FROM facts WHERE active AND value >= {threshold}
                 GROUP BY category ORDER BY total DESC, category ASC LIMIT 3"
            ),
        );
        let mut grouped = BTreeMap::<String, Vec<i64>>::new();
        for (category, value, active) in &rows {
            if *active && *value >= threshold {
                grouped.entry(format!("c{category}")).or_default().push(*value);
            }
        }
        let mut expected = grouped.into_iter().collect::<Vec<_>>();
        expected.sort_by(|(left_name, left_values), (right_name, right_values)| {
            let left_sum = left_values.iter().sum::<i64>();
            let right_sum = right_values.iter().sum::<i64>();
            right_sum.cmp(&left_sum).then_with(|| left_name.cmp(right_name))
        });
        expected.truncate(3);
        let expected = expected
            .into_iter()
            .map(|(category, values)| {
                let total = values.iter().sum::<i64>();
                vec![
                    Value::String(category),
                    Value::Int64(values.len() as i64),
                    Value::Int64(total),
                    Value::Int64(*values.iter().min().unwrap()),
                    Value::Int64(*values.iter().max().unwrap()),
                    float(total as f64 / values.len() as f64),
                ]
            })
            .collect::<Vec<_>>();
        assert_eq!(actual.rows, expected);
    }
}
