//! Kernels over batches.

use std::cell::Cell;
use rusthouse::float::{FloatReply, FloatRequest};
use rusthouse::kernels::aggregate::{aggregate, avg, count, max, min, sum, AggregateExpr, AggregateKind, AggregateResult, ScalarValue, SumValue};
use rusthouse::kernels::batch::{BatchColumn, KernelError, RecordBatch, SelectionMask};
use rusthouse::kernels::controlled::StringComparison;
use rusthouse::kernels::group::{hash_group, GroupByConfig, GroupKey};
use rusthouse::kernels::predicate::{compare_columns, compare_f64, compare_i64, compare_i64_f64, compare_string, compare_string_controlled, compare_string_values, is_not_null, is_null, ComparisonOp};

fn floats(request: FloatRequest) -> FloatReply {
    let bits = |x: f64| FloatReply::Bits(x.to_bits());
    let of = f64::from_bits;
    match request {
        FloatRequest::Sum(a, b) => bits(of(a) + of(b)),
        FloatRequest::Difference(a, b) => bits(of(a) - of(b)),
        FloatRequest::Product(a, b) => bits(of(a) * of(b)),
        FloatRequest::Quotient(a, b) => bits(of(a) / of(b)),
        FloatRequest::Remainder(a, b) => bits(of(a) % of(b)),
        FloatRequest::FromInteger(i) => bits(i as f64),
        FloatRequest::Parse(text) => match text.parse::<f64>() {
            Ok(x) => bits(x),
            Err(_) => FloatReply::Invalid,
        },
        FloatRequest::Display(a) => FloatReply::Text(of(a).to_string()),
    }
}

fn batch() -> RecordBatch {
    RecordBatch::new(
        vec![
            BatchColumn::Int64(vec![Some(3), None, Some(-1), Some(3), Some(9)]),
            BatchColumn::Float64(vec![
                Some(3.0f64.to_bits()),
                Some(0.5f64.to_bits()),
                Some(f64::NAN.to_bits()),
                None,
                Some(1.0f64.to_bits()),
            ]),
            BatchColumn::String(vec![
                Some("b".to_owned()),
                Some("a".to_owned()),
                None,
                Some("b".to_owned()),
                Some("z".to_owned()),
            ]),
        ],
        &vec![true, true, true, true, false],
    )
    .unwrap()
}

fn rows(mask: &SelectionMask) -> Vec<usize> {
    (0..mask.len()).filter(|row| mask.get(*row)).collect()
}

#[test]
fn batches_have_columns_of_one_height() {
    let columns = vec![BatchColumn::Int64(vec![Some(1)])];
    assert!(RecordBatch::new(columns, &vec![true, true]).is_none());
}

#[test]
fn predicates_keep_selected_rows_that_satisfy_them() {
    let batch = batch();
    assert_eq!(rows(&compare_i64(&batch, 0, ComparisonOp::GreaterEq, 3).unwrap()), vec![0, 3]);
    assert_eq!(rows(&compare_i64(&batch, 0, ComparisonOp::NotEq, 3).unwrap()), vec![2]);
    assert_eq!(
        rows(&compare_f64(&batch, 1, ComparisonOp::Less, 2.0f64.to_bits()).unwrap()),
        vec![1]
    );
    assert_eq!(
        rows(&compare_i64_f64(&batch, 0, ComparisonOp::Less, 2.5f64.to_bits()).unwrap()),
        vec![2]
    );
    assert_eq!(rows(&compare_string(&batch, 2, ComparisonOp::Eq, "b").unwrap()), vec![0, 3]);
    assert_eq!(rows(&compare_columns(&batch, 0, ComparisonOp::Eq, 0).unwrap()), vec![0, 2, 3]);
    assert!(matches!(
        compare_columns(&batch, 0, ComparisonOp::Eq, 1),
        Err(KernelError::BatchTypeMismatch { column: 1, .. })
    ));
}

#[test]
fn null_and_its_opposite_split_the_selection() {
    let batch = batch();
    assert_eq!(rows(&is_null(&batch, 0).unwrap()), vec![1]);
    assert_eq!(rows(&is_not_null(&batch, 0).unwrap()), vec![0, 2, 3]);
}

#[test]
fn predicates_refuse_other_columns() {
    let batch = batch();
    assert!(matches!(
        compare_i64(&batch, 7, ComparisonOp::Eq, 0),
        Err(KernelError::ColumnOutOfRange { column: 7, columns: 3 })
    ));
    assert!(matches!(
        compare_i64(&batch, 2, ComparisonOp::Eq, 0),
        Err(KernelError::BatchTypeMismatch { column: 2, .. })
    ));
    assert!(matches!(
        compare_string_controlled(&batch, 2, ComparisonOp::Eq, "b", &|| Err(KernelError::Cancelled)),
        Err(KernelError::Cancelled)
    ));
}

#[test]
fn aggregates_read_selected_values() {
    let batch = batch();
    assert_eq!(count(&batch, None).unwrap(), 4);
    assert_eq!(count(&batch, Some(0)).unwrap(), 3);
    assert!(matches!(sum(&batch, 0, &floats), Ok(Some(SumValue::Int128(5)))));
    assert!(matches!(min(&batch, 0), Ok(Some(ScalarValue::Int64(-1)))));
    assert!(matches!(max(&batch, 2), Ok(Some(ScalarValue::String(s))) if s == "b"));
    assert_eq!(avg(&batch, 0, &floats).unwrap(), Some((5.0f64 / 3.0).to_bits()));
    assert!(matches!(
        aggregate(&batch, AggregateExpr::count_all(), &floats),
        Ok(AggregateResult::Count(4))
    ));
    assert!(matches!(
        sum(&batch, 2, &floats),
        Err(KernelError::UnsupportedAggregate { aggregate: "SUM", .. })
    ));
}

#[test]
fn groups_stand_in_the_order_of_their_first_rows() {
    let batch = batch();
    let aggregates =
        vec![AggregateExpr::count_all(), AggregateExpr::new(AggregateKind::Sum, 0)];
    let results =
        hash_group(&batch, &vec![2], &aggregates, GroupByConfig::unlimited(8), &floats).unwrap();
    assert_eq!(results.len(), 3);
    let views = results.iter();
    assert!(matches!(views[0].aggregate(0, &floats), Some(AggregateResult::Count(2))));
    assert!(matches!(
        views[0].aggregate(1, &floats),
        Some(AggregateResult::Sum(Some(SumValue::Int128(6))))
    ));
    assert!(matches!(
        views[1].aggregate(1, &floats),
        Some(AggregateResult::Sum(None))
    ));
    assert!(views[0].aggregate(2, &floats).is_none());
    assert!(results.retained_bytes() <= results.peak_retained_bytes());
    assert!(results.peak_retained_bytes() <= results.memory_limit_bytes());
}

#[test]
fn groupings_keep_to_their_bounds() {
    let batch = batch();
    let aggregates = vec![AggregateExpr::count_all()];
    assert!(matches!(
        hash_group(&batch, &vec![2], &aggregates, GroupByConfig::unlimited(2), &floats),
        Err(KernelError::GroupLimitExceeded { max_groups: 2 })
    ));
    assert!(matches!(
        hash_group(&batch, &vec![2], &aggregates, GroupByConfig::new(8, 1), &floats),
        Err(KernelError::MemoryLimitExceeded { operator: "hash grouping", limit: 1, .. })
    ));
    assert!(matches!(
        hash_group(&batch, &vec![9], &aggregates, GroupByConfig::unlimited(2), &floats),
        Err(KernelError::ColumnOutOfRange { column: 9, columns: 3 })
    ));
    assert!(matches!(
        hash_group(
            &batch,
            &vec![0],
            &vec![AggregateExpr { kind: AggregateKind::Sum, column: None }],
            GroupByConfig::unlimited(2),
            &floats
        ),
        Err(KernelError::InvalidAggregate { .. })
    ));
}

#[test]
fn extremes_are_values_of_every_type() {
    let batch = batch();
    assert!(matches!(min(&batch, 0), Ok(Some(ScalarValue::Int64(-1)))));
    assert!(matches!(max(&batch, 0), Ok(Some(ScalarValue::Int64(3)))));
    assert!(matches!(min(&batch, 1), Ok(Some(ScalarValue::Float64(bits))) if f64::from_bits(bits) == 0.5));
    assert!(matches!(max(&batch, 1), Ok(Some(ScalarValue::Float64(bits))) if f64::from_bits(bits).is_nan()));
    assert!(matches!(min(&batch, 2), Ok(Some(ScalarValue::String(text))) if text == "a"));
    assert!(matches!(max(&batch, 2), Ok(Some(ScalarValue::String(text))) if text == "b"));
    assert!(min(&batch, 3).is_err());
}

#[test]
fn long_comparisons_ask_whether_to_go_on() {
    let long = "x".repeat(3 * 65_536);
    let batch = RecordBatch::new(
        vec![BatchColumn::String(vec![Some(long.clone()), None, Some(long.clone()), Some("y".to_owned())])],
        &vec![true, true, true, true],
    )
    .unwrap();
    let asked = Cell::new(0);
    let check = || {
        asked.set(asked.get() + 1);
        Ok(())
    };
    let mask = compare_string_controlled(&batch, 0, ComparisonOp::Eq, &long, &check).unwrap();
    assert_eq!(rows(&mask), vec![0, 2]);
    assert_eq!(asked.get(), 3 + 3 + 1);
    let stop_at_five = || {
        asked.set(asked.get() + 1);
        if asked.get() == 5 {
            Err(KernelError::Cancelled)
        } else {
            Ok(())
        }
    };
    asked.set(0);
    assert!(matches!(
        compare_string_controlled(&batch, 0, ComparisonOp::Eq, &long, &stop_at_five),
        Err(KernelError::Cancelled)
    ));
    assert_eq!(asked.get(), 5);
}

#[test]
fn comparisons_go_from_answer_to_answer() {
    let batch = RecordBatch::new(
        vec![BatchColumn::String(vec![
            Some("b".to_owned()),
            Some("a".to_owned()),
            None,
            Some("b".to_owned()),
            Some(String::new()),
        ])],
        &vec![true, false, true, true, true],
    )
    .unwrap();
    let mut work = StringComparison::begin(&batch, 0, ComparisonOp::GreaterEq, "b").unwrap();
    let mut asked = 0;
    while work.asks() {
        work.answer(Ok(())).unwrap();
        asked += 1;
    }
    // One question before each of three rows, and one for the only chunk of the first text.
    assert_eq!(asked, 4);
    assert_eq!(rows(&work.finish()), vec![0, 3]);
    let mut refused = StringComparison::begin(&batch, 0, ComparisonOp::GreaterEq, "b").unwrap();
    assert!(refused.asks());
    assert!(matches!(refused.answer(Err(KernelError::Cancelled)), Err(KernelError::Cancelled)));
    assert!(StringComparison::begin(&batch, 1, ComparisonOp::Eq, "b").is_err());
}

#[test]
fn questions_may_change_what_they_see() {
    let batch = batch();
    let mut asked = 0;
    let mask = compare_string_controlled(&batch, 2, ComparisonOp::Eq, "b", || {
        asked += 1;
        Ok(())
    })
    .unwrap();
    assert!(asked >= rows(&mask).len());
    assert!(asked > 0);
}

#[test]
fn numbers_are_equal_as_numbers() {
    let (zero, minus_zero, nan) = (0.0f64.to_bits(), (-0.0f64).to_bits(), f64::NAN.to_bits());
    assert_eq!(ScalarValue::Float64(zero), ScalarValue::Float64(minus_zero));
    assert_ne!(ScalarValue::Float64(nan), ScalarValue::Float64(nan));
    assert_eq!(SumValue::Float64(zero), SumValue::Float64(minus_zero));
    assert_ne!(SumValue::Float64(nan), SumValue::Float64(nan));
    assert_ne!(SumValue::Float64(zero), SumValue::Int128(0));
    assert_eq!(AggregateResult::Avg(Some(zero)), AggregateResult::Avg(Some(minus_zero)));
    assert_ne!(AggregateResult::Avg(Some(nan)), AggregateResult::Avg(Some(nan)));
    assert_eq!(
        AggregateResult::Min(Some(ScalarValue::Float64(zero))),
        AggregateResult::Min(Some(ScalarValue::Float64(minus_zero))).clone()
    );
    assert_ne!(AggregateResult::Min(None), AggregateResult::Max(None));
    assert_eq!(AggregateResult::Sum(None), AggregateResult::Sum(None));
    assert_eq!(ScalarValue::String("a".to_owned()), ScalarValue::String("a".to_owned()));
    assert_ne!(ScalarValue::Boolean(true), ScalarValue::Boolean(false));
}

#[test]
fn small_bounds_hold_the_places_of_groups() {
    let batch = RecordBatch::new(vec![BatchColumn::Int64(vec![Some(1)])], &vec![false]).unwrap();
    let words = core::mem::size_of::<usize>();
    // Two places of two words for numbers of groups, and one of four words and a hash.
    let base = 2 * 2 * words + 4 * words + 8;
    let none = hash_group(&batch, &vec![0], &Vec::new(), GroupByConfig::new(1, base), &floats);
    assert_eq!(none.unwrap().retained_bytes(), base);
    assert!(matches!(
        hash_group(&batch, &vec![0], &Vec::new(), GroupByConfig::new(1, base - 1), &floats),
        Err(KernelError::MemoryLimitExceeded { required, .. }) if required == base
    ));
}

#[test]
fn views_of_groups_can_be_copied() {
    let batch = batch();
    let results =
        hash_group(&batch, &vec![2], &Vec::new(), GroupByConfig::unlimited(8), &floats).unwrap();
    let views = results.iter();
    let first = views[0];
    let again = first;
    assert_eq!(first.keys(), again.keys());
    assert_eq!(first.keys()[0].clone(), GroupKey::String("b".to_owned()));
}

#[test]
fn texts_that_are_handed_over_are_compared() {
    let batch = RecordBatch::new(
        vec![BatchColumn::Int64(vec![Some(1), Some(2), Some(3), Some(4)])],
        &vec![true, true, false, true],
    )
    .unwrap();
    let selection = compare_i64(&batch, 0, ComparisonOp::GreaterEq, 0).unwrap();
    let texts = [Some("b"), None, Some("b"), Some("")];
    let mut asked = 0;
    let mut read = Vec::new();
    let mask = compare_string_values(
        &selection,
        ComparisonOp::Eq,
        "b",
        |row| {
            read.push(row);
            texts[row]
        },
        || {
            asked += 1;
            Ok(())
        },
    )
    .unwrap();
    assert_eq!(rows(&mask), vec![0]);
    // One question before each of three rows, and one for the only chunk of the first text.
    assert_eq!(asked, 4);
    assert_eq!(read, vec![0, 1, 3]);
    let mut left = 3;
    let refused = compare_string_values(&selection, ComparisonOp::Eq, "b", |row| texts[row], || {
        left -= 1;
        if left == 0 {
            Err(KernelError::Cancelled)
        } else {
            Ok(())
        }
    });
    assert!(matches!(refused, Err(KernelError::Cancelled)));
    assert_eq!(left, 0);
}
