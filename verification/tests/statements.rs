//! Statements on tables of one integer column.

use rusthouse::evaluator::{compare_scalars, ComparisonOperator, ScalarValue};
use rusthouse::execution::errors::{InnerJoinExecutionError, InsertExecutionError, SelectDistinctExecutionError, SelectExecutionError};
use rusthouse::execution::operators::{AggregateError, OrderError, RowLimitError, RowLimits, RowTest};
use rusthouse::execution::running::{execute_inner_join, execute_insert, execute_scalar_count, execute_scalar_min, execute_scalar_sum, execute_select, execute_select_distinct, execute_select_with_limits, execute_select_with_order_limits, SelectedValues};
use rusthouse::execution::statements::{InnerJoinStatement, InsertStatement, OrderBy, ScalarCountStatement, ScalarMinStatement, ScalarSumStatement, SelectDistinctStatement, SelectPredicate, SelectStatement};
use rusthouse::execution::table::{InsertError, Int64Table};
use rusthouse::join::JoinLimits;

const WIDE: RowLimits = RowLimits { max_input_rows: 100, max_output_rows: 100 };

fn table(values: &[Option<i64>]) -> Int64Table {
    let mut table = Int64Table::new("n", true, 100);
    for value in values {
        table.append(*value).unwrap();
    }
    table
}

fn numbers() -> Int64Table {
    table(&[Some(3), None, Some(1), Some(3)])
}

fn select(where_predicate: Option<SelectPredicate>, order_by: Option<OrderBy>, limit: Option<usize>) -> SelectStatement {
    SelectStatement {
        column_name: "n".to_owned(),
        table_name: "t".to_owned(),
        where_predicate,
        order_by,
        limit,
    }
}

fn at_least(value: i64) -> SelectPredicate {
    SelectPredicate {
        column_name: "n".to_owned(),
        test: RowTest::Comparison { operator: ComparisonOperator::GreaterThanOrEqual, value },
    }
}

#[test]
fn selects_all_rows_in_order() {
    let table = numbers();
    let rows = execute_select("t", &table, &select(None, None, None)).unwrap();
    assert_eq!(rows.as_slice(), &[Some(3), None, Some(1), Some(3)]);
    assert!(matches!(rows, SelectedValues::Borrowed(_)));
}

#[test]
fn filters_orders_and_limits() {
    let order = OrderBy { column_name: "n".to_owned(), descending: true, nulls_first: false };
    let statement = select(Some(at_least(1)), Some(order), Some(2));
    let table = numbers();
    let rows = execute_select_with_order_limits("t", &table, &statement, WIDE, WIDE).unwrap();
    assert_eq!(rows.as_slice(), &[Some(3), Some(3)]);
    assert!(matches!(rows, SelectedValues::Owned(_)));
}

#[test]
fn unknown_names_are_refused() {
    let statement = select(None, None, None);
    assert!(matches!(
        execute_select("other", &numbers(), &statement),
        Err(SelectExecutionError::UnknownTable { name }) if name == "t"
    ));
    let mut other = select(None, None, None);
    other.column_name = "m".to_owned();
    assert!(matches!(
        execute_select("t", &numbers(), &other),
        Err(SelectExecutionError::UnknownColumn { name }) if name == "m"
    ));
}

#[test]
fn scans_and_orders_stop_at_their_bounds() {
    let small = RowLimits { max_input_rows: 3, max_output_rows: 9 };
    assert!(matches!(
        execute_select_with_limits("t", &numbers(), &select(Some(at_least(0)), None, None), small),
        Err(SelectExecutionError::Scan(RowLimitError::InputLimitExceeded { rows: 4, max_rows: 3 }))
    ));
    let order = OrderBy { column_name: "n".to_owned(), descending: false, nulls_first: true };
    assert!(matches!(
        execute_select_with_order_limits("t", &numbers(), &select(None, Some(order), None), WIDE, small),
        Err(SelectExecutionError::Order(OrderError::InputLimitExceeded { .. }))
    ));
}

#[test]
fn aggregates_skip_null() {
    let count = ScalarCountStatement {
        column_name: Some("n".to_owned()),
        table_name: "t".to_owned(),
        predicate: None,
    };
    assert_eq!(execute_scalar_count("t", &numbers(), &count, WIDE).unwrap(), 3);
    let all = ScalarCountStatement { column_name: None, table_name: "t".to_owned(), predicate: None };
    assert_eq!(execute_scalar_count("t", &numbers(), &all, WIDE).unwrap(), 4);
    let sum = ScalarSumStatement {
        column_name: "n".to_owned(),
        table_name: "t".to_owned(),
        predicate: Some(at_least(2)),
    };
    assert_eq!(execute_scalar_sum("t", &numbers(), &sum, WIDE).unwrap(), Some(6));
    let min = ScalarMinStatement { column_name: "n".to_owned(), table_name: "t".to_owned() };
    assert_eq!(execute_scalar_min("t", &numbers(), &min, WIDE).unwrap(), Some(1));
    assert_eq!(execute_scalar_min("t", &table(&[None]), &min, WIDE).unwrap(), None);
}

#[test]
fn sums_out_of_range_are_refused() {
    let sum = ScalarSumStatement {
        column_name: "n".to_owned(),
        table_name: "t".to_owned(),
        predicate: None,
    };
    assert!(matches!(
        execute_scalar_sum("t", &table(&[Some(i64::MAX), Some(1)]), &sum, WIDE),
        Err(SelectExecutionError::Aggregate(AggregateError::SumOverflow))
    ));
}

#[test]
fn distinct_values_are_sorted() {
    let statement =
        SelectDistinctStatement { column_name: "n".to_owned(), table_name: "t".to_owned() };
    let rows = execute_select_distinct("t", &numbers(), &statement, WIDE).unwrap();
    assert_eq!(rows, vec![None, Some(1), Some(3)]);
    let tight = RowLimits { max_input_rows: 9, max_output_rows: 2 };
    assert!(matches!(
        execute_select_distinct("t", &numbers(), &statement, tight),
        Err(SelectDistinctExecutionError::Distinct(RowLimitError::OutputLimitExceeded { .. }))
    ));
}

#[test]
fn inserted_values_are_the_last() {
    let mut table = Int64Table::new("n", false, 1);
    let statement = InsertStatement { table_name: "t".to_owned(), value: Some(7) };
    execute_insert("t", &mut table, &statement).unwrap();
    assert_eq!(table.values(), &[Some(7)]);
    assert!(matches!(
        execute_insert("t", &mut table, &statement),
        Err(InsertExecutionError::Insert(InsertError::RowLimitExceeded { max_rows: 1 }))
    ));
    let null = InsertStatement { table_name: "t".to_owned(), value: None };
    let mut empty = Int64Table::new("n", false, 1);
    assert!(matches!(
        execute_insert("t", &mut empty, &null),
        Err(InsertExecutionError::Insert(InsertError::NullNotAllowed))
    ));
    assert!(matches!(
        execute_insert("u", &mut empty, &statement),
        Err(InsertExecutionError::UnknownTable { name }) if name == "t"
    ));
}

#[test]
fn inner_joins_project_one_column() {
    let statement = InnerJoinStatement {
        projected_column_name: "n".to_owned(),
        left_table_name: "a".to_owned(),
        right_table_name: "b".to_owned(),
        left_column_name: "n".to_owned(),
        right_column_name: "n".to_owned(),
    };
    let rows = execute_inner_join(
        "a",
        &numbers(),
        "b",
        &table(&[Some(3), None]),
        &statement,
        JoinLimits::new(10, 10),
    )
    .unwrap();
    assert_eq!(rows, vec![Some(3), Some(3)]);
    assert!(matches!(
        execute_inner_join("x", &numbers(), "b", &numbers(), &statement, JoinLimits::new(10, 10)),
        Err(InnerJoinExecutionError::UnknownTable { .. })
    ));
}

#[test]
fn scalars_compare_within_their_kind() {
    let apply = |left, right, operator| compare_scalars(left, right, operator);
    assert!(matches!(
        apply(ScalarValue::Integer(1), ScalarValue::Integer(2), ComparisonOperator::LessThan),
        Ok(ScalarValue::Boolean(true))
    ));
    assert!(matches!(
        apply(
            ScalarValue::String("b".to_owned()),
            ScalarValue::String("a".to_owned()),
            ComparisonOperator::LessThanOrEqual
        ),
        Ok(ScalarValue::Boolean(false))
    ));
    assert!(matches!(
        apply(ScalarValue::Null, ScalarValue::Integer(2), ComparisonOperator::Equal),
        Ok(ScalarValue::Null)
    ));
    assert!(apply(
        ScalarValue::Boolean(true),
        ScalarValue::Integer(2),
        ComparisonOperator::Equal
    )
    .is_err());
}
