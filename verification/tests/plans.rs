//! Logical plans over columns.

use std::cell::Cell;

use rusthouse::evaluator::ComparisonOperator;
use rusthouse::executor::grouping::ExecutionError;
use rusthouse::executor::plan::{AggregateExpression, AggregateFunction, Column, LogicalOperator, LogicalPlan, PlanNode, Predicate, ProjectedColumn, ProjectionExpression, ResolvedColumn, SortExpression, Table};
use rusthouse::executor::running::{elapsed_between, execute};
use rusthouse::float::{FloatReply, FloatRequest};
use rusthouse::types::{DataType, Value};

fn floats(request: FloatRequest) -> FloatReply {
    let bits = |x: f64| FloatReply::Bits(x.to_bits());
    let of = f64::from_bits;
    match request {
        FloatRequest::Sum(a, b) => bits(of(a) + of(b)),
        FloatRequest::Difference(a, b) => bits(of(a) - of(b)),
        FloatRequest::Product(a, b) => bits(of(a) * of(b)),
        FloatRequest::Quotient(a, b) => bits(of(a) / of(b)),
        FloatRequest::Remainder(a, b) => bits(of(a) % of(b)),
        FloatRequest::FromInteger(i) => bits(i as f64),
        FloatRequest::Parse(text) => match text.parse::<f64>() {
            Ok(x) => bits(x),
            Err(_) => FloatReply::Invalid,
        },
        FloatRequest::Display(a) => FloatReply::Text(of(a).to_string()),
    }
}

fn no_time() -> u64 {
    0
}

fn table() -> Table {
    Table::new(
        "t".to_owned(),
        vec!["k".to_owned(), "n".to_owned()],
        vec![
            Column::String(vec!["b".to_owned(), "a".to_owned(), "b".to_owned()]),
            Column::Int64(vec![1, 5, 2]),
        ],
        3,
    )
    .unwrap()
}

fn key() -> ResolvedColumn {
    ResolvedColumn { name: "k".to_owned(), index: 0, data_type: DataType::String }
}

fn number() -> ResolvedColumn {
    ResolvedColumn { name: "n".to_owned(), index: 1, data_type: DataType::Int64 }
}

fn node(id: usize, operator: LogicalOperator) -> PlanNode {
    PlanNode { id, operator }
}

fn scan() -> PlanNode {
    node(0, LogicalOperator::Scan { table: "t".to_owned() })
}

fn grouped(ordering: Vec<SortExpression>, limit: usize) -> LogicalPlan {
    let aggregation = node(
        1,
        LogicalOperator::Aggregation {
            input: Box::new(scan()),
            group_by: vec![key()],
            aggregates: vec![AggregateExpression {
                function: AggregateFunction::Sum,
                argument: Some(number()),
            }],
        },
    );
    let projection = node(
        2,
        LogicalOperator::Projection {
            input: Box::new(aggregation),
            columns: vec![
                ProjectedColumn {
                    name: "k".to_owned(),
                    expression: ProjectionExpression::Column {
                        source: key(),
                        group_position: Some(0),
                    },
                },
                ProjectedColumn {
                    name: "total".to_owned(),
                    expression: ProjectionExpression::Aggregate { state: 0 },
                },
            ],
        },
    );
    LogicalPlan {
        root: node(3, LogicalOperator::TopK { input: Box::new(projection), ordering, limit }),
        nodes: 4,
    }
}

#[test]
fn groups_are_summed_and_sorted() {
    let plan = grouped(vec![SortExpression::Output { output: 1, descending: true }], 5);
    assert!(plan.fits(&table()));
    let output = execute(&table(), &plan, &floats, &no_time).unwrap();
    assert_eq!(
        output.rows,
        vec![
            vec![Value::String("a".to_owned()), Value::Int64(5)],
            vec![Value::String("b".to_owned()), Value::Int64(3)],
        ]
    );
    let counts: Vec<usize> = output.metrics.iter().map(|metrics| metrics.rows).collect();
    assert_eq!(counts, vec![3, 2, 2, 2]);
}

#[test]
fn each_operator_is_measured_by_the_clock() {
    let plan = grouped(vec![SortExpression::Output { output: 1, descending: true }], 5);
    let reads = Cell::new(0u64);
    let clock = || {
        let n = reads.get();
        reads.set(n + 1);
        n * n
    };
    let output = execute(&table(), &plan, &floats, &clock).unwrap();
    let times: Vec<u64> = output.metrics.iter().map(|metrics| metrics.elapsed).collect();
    // Readings are squares: the times are 1 - 0, 9 - 4, 25 - 16 and 49 - 36, and making the
    // output takes 81 - 64 more of the projection.
    assert_eq!(times, vec![1, 5, 9 + 17, 13]);
    assert_eq!(reads.get(), 10);
}

#[test]
fn clocks_that_go_back_measure_no_time() {
    assert_eq!(elapsed_between(3, 10), 7);
    assert_eq!(elapsed_between(10, 3), 0);
    let plan = grouped(Vec::new(), 5);
    let left = Cell::new(100u64);
    let clock = || {
        left.set(left.get() - 1);
        left.get()
    };
    let output = execute(&table(), &plan, &floats, &clock).unwrap();
    assert!(output.metrics.iter().all(|metrics| metrics.elapsed == 0));
}

#[test]
fn the_first_rows_of_an_order_are_those_of_the_whole_order() {
    let ordering = || vec![SortExpression::GroupKey];
    let all = execute(&table(), &grouped(ordering(), 9), &floats, &no_time).unwrap();
    let first = execute(&table(), &grouped(ordering(), 1), &floats, &no_time).unwrap();
    assert_eq!(first.rows, all.rows[..1].to_vec());
}

#[test]
fn filters_keep_rows_that_satisfy_them() {
    let filter = node(
        1,
        LogicalOperator::Filter {
            input: Box::new(scan()),
            predicate: Predicate::Not(Box::new(Predicate::Compare {
                column: number(),
                operator: ComparisonOperator::LessThan,
                value: Value::Int64(2),
            })),
        },
    );
    let projection = node(
        2,
        LogicalOperator::Projection {
            input: Box::new(filter),
            columns: vec![ProjectedColumn {
                name: "n".to_owned(),
                expression: ProjectionExpression::Column { source: number(), group_position: None },
            }],
        },
    );
    let plan = LogicalPlan { root: projection, nodes: 3 };
    let output = execute(&table(), &plan, &floats, &no_time).unwrap();
    assert_eq!(output.rows, vec![vec![Value::Int64(5)], vec![Value::Int64(2)]]);
}

#[test]
fn sums_out_of_range_fail() {
    let large = Table::new(
        "t".to_owned(),
        vec!["k".to_owned(), "n".to_owned()],
        vec![
            Column::String(vec!["x".to_owned(), "x".to_owned()]),
            Column::Int64(vec![i64::MAX, 1]),
        ],
        2,
    )
    .unwrap();
    let plan = grouped(Vec::new(), 1);
    assert!(matches!(execute(&large, &plan, &floats, &no_time), Err(ExecutionError::NumericOverflow(_))));
}

#[test]
fn plans_for_other_tables_do_not_fit() {
    let mut plan = grouped(Vec::new(), 1);
    plan.nodes = 3;
    assert!(!plan.fits(&table()));
    let plan = grouped(vec![SortExpression::Output { output: 2, descending: false }], 1);
    assert!(!plan.fits(&table()));
    assert!(Table::new("t".to_owned(), vec!["n".to_owned()], vec![Column::Int64(vec![1])], 2).is_none());
}
