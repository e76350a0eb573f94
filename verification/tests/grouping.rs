//! Counts of the rows of each value.

use rusthouse::executor::plan::{Column, Table};
use rusthouse::grouping::{group_column, group_reservation, increment_count, open_group, place_row, reserve_groups, reserve_string, string_reservation, GroupedCountError, RowSelection};
use rusthouse::types::Value;

#[test]
fn reports_group_capacity_allocation_errors() {
    let mut groups = Vec::new();
    assert_eq!(
        reserve_groups(&mut groups, usize::MAX),
        Err(GroupedCountError::GroupAllocationFailed { requested_groups: usize::MAX })
    );
}

#[test]
fn reports_string_key_allocation_errors() {
    assert_eq!(
        reserve_string("key", usize::MAX),
        Err(GroupedCountError::StringAllocationFailed {
            field: "key".to_owned(),
            required_bytes: usize::MAX,
        })
    );
}

#[test]
fn reports_checked_count_overflow() {
    let mut count = usize::MAX;
    assert_eq!(
        increment_count("key", &mut count),
        Err(GroupedCountError::CountOverflow { field: "key".to_owned() })
    );
    assert_eq!(count, usize::MAX);
}

fn table() -> Table {
    Table::new(
        "t".to_owned(),
        vec!["key".to_owned(), "x".to_owned()],
        vec![
            Column::String(vec!["b".to_owned(), "a".to_owned(), "b".to_owned(), "c".to_owned()]),
            Column::Float64(vec![
                0.0f64.to_bits(),
                (-0.0f64).to_bits(),
                0.0f64.to_bits(),
                f64::NAN.to_bits(),
            ]),
        ],
        4,
    )
    .unwrap()
}

#[test]
fn counts_each_value_in_order() {
    let groups = table().grouped_count("key", None, 10).unwrap();
    let counts: Vec<(Value, usize)> = groups.into_iter().map(|group| group.into_parts()).collect();
    assert_eq!(
        counts,
        vec![
            (Value::String("a".to_owned()), 1),
            (Value::String("b".to_owned()), 2),
            (Value::String("c".to_owned()), 1),
        ]
    );
}

#[test]
fn zeros_of_both_signs_are_groups_of_their_own() {
    let groups = table().grouped_count("x", None, 10).unwrap();
    let counts: Vec<usize> = groups.iter().map(|group| group.count()).collect();
    assert_eq!(counts, vec![1, 2, 1]);
    assert_eq!(groups[0].value(), &Value::Float64((-0.0f64).to_bits()));
}

#[test]
fn only_selected_rows_are_counted() {
    let selection = RowSelection { mask: vec![true, false, true, false] };
    let groups = table().grouped_count("key", Some(&selection), 1).unwrap();
    assert_eq!(groups.len(), 1);
    assert_eq!(groups[0].count(), 2);
}

#[test]
fn refuses_unknown_columns_other_lengths_and_too_many_groups() {
    let short = RowSelection { mask: vec![true] };
    assert_eq!(
        table().grouped_count("key", Some(&short), 9).unwrap_err(),
        GroupedCountError::SelectionLengthMismatch { table_rows: 4, selection_rows: 1 }
    );
    assert_eq!(
        table().grouped_count("none", None, 9).unwrap_err(),
        GroupedCountError::FieldNotFound { name: "none".to_owned() }
    );
    assert_eq!(
        table().grouped_count("key", None, 2).unwrap_err(),
        GroupedCountError::GroupLimitExceeded { field: "key".to_owned(), limit: 2 }
    );
}

#[test]
fn nothing_to_reserve_succeeds() {
    let mut groups = Vec::new();
    assert_eq!(reserve_groups(&mut groups, 0), Ok(()));
    assert_eq!(reserve_string("key", 0), Ok(String::new()));
    assert_eq!(group_reservation(true, 3), Ok(()));
    assert_eq!(
        group_reservation(false, 3),
        Err(GroupedCountError::GroupAllocationFailed { requested_groups: 3 })
    );
    assert_eq!(
        string_reservation(None, "key", 3),
        Err(GroupedCountError::StringAllocationFailed { field: "key".to_owned(), required_bytes: 3 })
    );
    assert_eq!(string_reservation(Some(String::new()), "key", 3), Ok(String::new()));
}

#[test]
fn rows_are_counted_one_by_one() {
    let column = Column::Int64(vec![5, 3, 5]);
    let mut groups = Vec::new();
    assert_eq!(place_row("n", &column, 0, 1, &mut groups), Ok(Some(0)));
    assert_eq!(open_group(&mut groups, 0, Ok(Value::Int64(5))), Ok(()));
    assert_eq!(place_row("n", &column, 2, 1, &mut groups), Ok(None));
    assert_eq!(
        place_row("n", &column, 1, 1, &mut groups),
        Err(GroupedCountError::GroupLimitExceeded { field: "n".to_owned(), limit: 1 })
    );
    let refused = GroupedCountError::StringAllocationFailed { field: "n".to_owned(), required_bytes: 1 };
    assert_eq!(
        open_group(&mut groups, 0, Err(refused)),
        Err(GroupedCountError::StringAllocationFailed { field: "n".to_owned(), required_bytes: 1 })
    );
    let mut all = Vec::new();
    assert_eq!(group_column("n", &column, &vec![0, 1, 2], 2, &mut all), Ok(()));
    assert_eq!(all.len(), 2);
    assert_eq!(groups.len(), 1);
}
