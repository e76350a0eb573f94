//! Joins of nullable integers.

use rusthouse::join::{inner_equi_join_nullable_i64, left_outer_equi_join_nullable_i64, JoinError, JoinLimits};

const LEFT: [Option<i64>; 4] = [Some(1), None, Some(2), Some(1)];
const RIGHT: [Option<i64>; 4] = [Some(1), Some(3), None, Some(1)];

#[test]
fn equal_values_are_paired_in_order() {
    let pairs: Vec<_> = inner_equi_join_nullable_i64(&LEFT, &RIGHT, JoinLimits::new(4, 10))
        .unwrap()
        .into_iter()
        .map(|pair| pair.into_pair())
        .collect();
    assert_eq!(pairs, vec![(0, 0), (0, 3), (3, 0), (3, 3)]);
}

#[test]
fn outer_joins_keep_rows_without_a_match() {
    let pairs: Vec<_> = left_outer_equi_join_nullable_i64(&LEFT, &RIGHT, JoinLimits::new(4, 10))
        .unwrap()
        .into_iter()
        .map(|pair| pair.into_pair())
        .collect();
    assert_eq!(
        pairs,
        vec![(0, Some(0)), (0, Some(3)), (1, None), (2, None), (3, Some(0)), (3, Some(3))]
    );
}

#[test]
fn joins_stop_at_their_bounds() {
    let left = inner_equi_join_nullable_i64(&LEFT, &RIGHT[..1], JoinLimits::new(3, 10));
    assert!(matches!(left, Err(JoinError::LeftInputLimitExceeded { rows: 4, max_rows: 3 })));
    let right = inner_equi_join_nullable_i64(&LEFT[..1], &RIGHT, JoinLimits::new(3, 10));
    assert!(matches!(right, Err(JoinError::RightInputLimitExceeded { rows: 4, max_rows: 3 })));
    let pairs = left_outer_equi_join_nullable_i64(&LEFT, &RIGHT, JoinLimits::new(4, 5));
    assert!(matches!(pairs, Err(JoinError::OutputLimitExceeded { max_pairs: 5, .. })));
}
