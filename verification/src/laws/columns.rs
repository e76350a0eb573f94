//! What statements over tables of one column, joins and comparisons of scalars are for.

use vstd::prelude::*;
use crate::evaluator::{scalar_comparison, ComparisonOperator, Scalar};
use crate::execution::operators::{count_known, distinct_values, is_distinct_list, least_known, ordered_rows, passes, row_first, rows_where, sum_known, value_before, values_at, RowLimits, RowTest};
use crate::execution::running::{count_of, distinct_of, join_of, selection_of, sum_of};
use crate::execution::statements::{InnerJoinStatement, ScalarCountStatement, ScalarSumStatement, SelectDistinctStatement, SelectPredicate, SelectStatement};
use crate::join::{inner_join, inner_join_is_exact, matching, outer_join, outer_join_extends_inner, JoinLimits};
use crate::laws::orders::{bits_below, text_below, text_order_is_first_difference};
use crate::sorting::{arrangement_exists, strict_order};

verus! {

/// Whether a value satisfies a test: a comparison with a number, or being NULL or not.
pub open spec fn satisfies(test: RowTest, v: Option<i64>) -> bool {
    match test {
        RowTest::Comparison { operator, value } => v matches Some(x) && match operator {
            ComparisonOperator::Equal => x == value,
            ComparisonOperator::NotEqual => x != value,
            ComparisonOperator::LessThan => x < value,
            ComparisonOperator::LessThanOrEqual => x <= value,
            ComparisonOperator::GreaterThan => x > value,
            ComparisonOperator::GreaterThanOrEqual => x >= value,
        },
        RowTest::Nullness { is_null } => if is_null {
            v is None
        } else {
            v is Some
        },
    }
}

/// The values that satisfy an optional condition, in their order.
pub open spec fn chosen(values: Seq<Option<i64>>, predicate: Option<SelectPredicate>) -> Seq<
    Option<i64>,
> {
    match predicate {
        Some(p) => values.filter(|v: Option<i64>| satisfies(p.test, v)),
        None => values,
    }
}

/// A test passes exactly what satisfies it.
pub proof fn tests_pass_what_satisfies_them(test: RowTest, v: Option<i64>)
    ensures
        passes(test, v) <==> satisfies(test, v),
{
}

proof fn scanned_values_are_chosen(values: Seq<Option<i64>>, test: RowTest, n: int)
    requires
        0 <= n <= values.len() <= usize::MAX,
    ensures
        values_at(values, rows_where(values, test, n)) == values.take(n).filter(
            |v: Option<i64>| satisfies(test, v),
        ),
    decreases n,
{
    let keeps = |v: Option<i64>| satisfies(test, v);
    reveal(Seq::filter);
    if n > 0 {
        scanned_values_are_chosen(values, test, n - 1);
        assert(values.take(n).drop_last() =~= values.take(n - 1));
        assert(values.take(n).last() == values[n - 1]);
        let before = rows_where(values, test, n - 1);
        if passes(test, values[n - 1]) {
            assert(values_at(values, before.push((n - 1) as usize)) =~= values_at(
                values,
                before,
            ).push(values[n - 1]));
        }
    } else {
        assert(values_at(values, rows_where(values, test, n)) =~= Seq::<Option<i64>>::empty());
        assert(values.take(n) =~= Seq::<Option<i64>>::empty());
    }
}

proof fn predicates_choose(
    values: Seq<Option<i64>>,
    predicate: Option<SelectPredicate>,
    limits: RowLimits,
)
    requires
        values.len() <= usize::MAX,
    ensures
        crate::execution::running::rows_for(values, predicate, limits) matches Ok(rows)
            ==> crate::execution::running::chosen_values(values, rows) == chosen(values, predicate),
{
    if let Some(p) = predicate {
        scanned_values_are_chosen(values, p.test, values.len() as int);
        assert(values.take(values.len() as int) =~= values);
    }
}

/// The number of values that are not NULL.
pub open spec fn known_values(values: Seq<Option<i64>>) -> Seq<Option<i64>> {
    values.filter(|v: Option<i64>| v is Some)
}

proof fn count_is_how_many_are_known(values: Seq<Option<i64>>, n: int)
    requires
        0 <= n <= values.len(),
    ensures
        count_known(values, n) == known_values(values.take(n)).len(),
    decreases n,
{
    reveal(Seq::filter);
    if n > 0 {
        count_is_how_many_are_known(values, n - 1);
        assert(values.take(n).drop_last() =~= values.take(n - 1));
        assert(values.take(n).last() == values[n - 1]);
    }
}

/// `COUNT(*)` is the number of rows that satisfy the condition; `COUNT(column)` is the number of
/// those whose value is not NULL.
pub proof fn count_is_the_number_of_rows(
    expected: Seq<char>,
    column: Seq<char>,
    values: Seq<Option<i64>>,
    statement: ScalarCountStatement,
    scan_limits: RowLimits,
    limits: RowLimits,
)
    requires
        values.len() <= usize::MAX,
    ensures
        count_of(expected, column, values, statement, scan_limits, limits) matches Ok(n) ==> {
            let rows = chosen(values, statement.predicate);
            &&& statement.column_name is None ==> n == rows.len()
            &&& statement.column_name is Some ==> n == known_values(rows).len()
        },
{
    predicates_choose(values, statement.predicate, scan_limits);
    let rows = chosen(values, statement.predicate);
    count_is_how_many_are_known(rows, rows.len() as int);
    assert(rows.take(rows.len() as int) =~= rows);
}

/// The sum of numbers that are not NULL.
pub open spec fn total(values: Seq<Option<i64>>) -> int
    decreases values.len(),
{
    if values.len() == 0 {
        0
    } else {
        total(values.drop_last()) + (if let Some(x) = values.last() {
            x as int
        } else {
            0
        })
    }
}

proof fn sum_is_the_total(values: Seq<Option<i64>>, n: int)
    requires
        0 <= n <= values.len(),
    ensures
        sum_known(values, n) == total(values.take(n)),
    decreases n,
{
    if n > 0 {
        sum_is_the_total(values, n - 1);
        assert(values.take(n).drop_last() =~= values.take(n - 1));
    }
}

/// `SUM` is the exact sum of the values that satisfy the condition and are not NULL, and NULL
/// where there are none.
pub proof fn sum_is_the_sum_of_rows(
    expected: Seq<char>,
    column: Seq<char>,
    values: Seq<Option<i64>>,
    statement: ScalarSumStatement,
    scan_limits: RowLimits,
    limits: RowLimits,
)
    requires
        values.len() <= usize::MAX,
    ensures
        sum_of(expected, column, values, statement, scan_limits, limits) matches Ok(sum) ==> {
            let rows = chosen(values, statement.predicate);
            if known_values(rows).len() == 0 {
                sum is None
            } else {
                sum is Some && sum->Some_0 == total(rows)
            }
        },
{
    predicates_choose(values, statement.predicate, scan_limits);
    let rows = chosen(values, statement.predicate);
    let n = rows.len() as int;
    count_is_how_many_are_known(rows, n);
    sum_is_the_total(rows, n);
    assert(rows.take(n) =~= rows);
}

/// `MIN` is one of the values, and none is smaller; NULL is none of them, and without any `MIN` is
/// NULL.
pub proof fn least_is_one_that_none_is_below(values: Seq<Option<i64>>, n: int)
    requires
        0 <= n <= values.len(),
    ensures
        match least_known(values, n) {
            Some(x) => (exists|k: int| 0 <= k < n && #[trigger] values[k] == Some(x)) && forall|k: int|
                0 <= k < n ==> (#[trigger] values[k] matches Some(y) ==> x <= y),
            None => forall|k: int| 0 <= k < n ==> #[trigger] values[k] is None,
        },
    decreases n,
{
    if n > 0 {
        least_is_one_that_none_is_below(values, n - 1);
        let last = values[n - 1];
    }
}

/// Whether an order asks for a value before another one.
pub open spec fn ordered_before(
    a: Option<i64>,
    b: Option<i64>,
    descending: bool,
    nulls_first: bool,
) -> bool {
    if a is None || b is None {
        if nulls_first {
            a is None && b is Some
        } else {
            a is Some && b is None
        }
    } else if descending {
        a->Some_0 > b->Some_0
    } else {
        a->Some_0 < b->Some_0
    }
}

proof fn rows_are_strictly_ordered(values: Seq<Option<i64>>, descending: bool, nulls_first: bool)
    ensures
        strict_order(row_first(values, descending, nulls_first), values.len() as int),
{
}

/// Ordering gives each row at most once, as many as were asked for and there are; no row stands
/// before one that the order asks for first, and rows with one value keep their order.
pub proof fn ordering_puts_rows_in_order(
    values: Seq<Option<i64>>,
    descending: bool,
    nulls_first: bool,
    limit: usize,
)
    requires
        values.len() <= usize::MAX,
    ensures
        ({
            let rows = ordered_rows(values, descending, nulls_first, limit);
            &&& rows.len() == (if limit < values.len() {
                limit as int
            } else {
                values.len() as int
            })
            &&& forall|k: int| 0 <= k < rows.len() ==> #[trigger] rows[k] < values.len()
            &&& forall|i: int, j: int|
                #![trigger rows[i], rows[j]]
                0 <= i < j < rows.len() ==> {
                    &&& rows[i] != rows[j]
                    &&& !ordered_before(
                        values[rows[j] as int],
                        values[rows[i] as int],
                        descending,
                        nulls_first,
                    )
                    &&& values[rows[i] as int] == values[rows[j] as int] ==> rows[i] < rows[j]
                }
        }),
{
    let before = row_first(values, descending, nulls_first);
    rows_are_strictly_ordered(values, descending, nulls_first);
    arrangement_exists(values.len() as int, before);
    let all = crate::sorting::arranged(values.len() as int, before);
    let rows = ordered_rows(values, descending, nulls_first, limit);
    assert forall|i: int, j: int|
        #![trigger rows[i], rows[j]]
        0 <= i < j < rows.len() implies {
        &&& rows[i] != rows[j]
        &&& !ordered_before(
            values[rows[j] as int],
            values[rows[i] as int],
            descending,
            nulls_first,
        )
        &&& values[rows[i] as int] == values[rows[j] as int] ==> rows[i] < rows[j]
    } by {
        assert(rows[i] == all[i] && rows[j] == all[j]);
        assert(before(all[i] as int, all[j] as int));
    }
}

/// A row that ordering leaves out is asked for before none of those that it gives.
pub proof fn ordering_leaves_out_the_last(
    values: Seq<Option<i64>>,
    descending: bool,
    nulls_first: bool,
    limit: usize,
    i: int,
    row: usize,
)
    requires
        values.len() <= usize::MAX,
        0 <= i < ordered_rows(values, descending, nulls_first, limit).len(),
        row < values.len(),
        !ordered_rows(values, descending, nulls_first, limit).contains(row),
    ensures
        !ordered_before(
            values[row as int],
            values[ordered_rows(values, descending, nulls_first, limit)[i] as int],
            descending,
            nulls_first,
        ),
{
    let before = row_first(values, descending, nulls_first);
    rows_are_strictly_ordered(values, descending, nulls_first);
    arrangement_exists(values.len() as int, before);
    let all = crate::sorting::arranged(values.len() as int, before);
    let rows = ordered_rows(values, descending, nulls_first, limit);
    assert(all.contains(row));
    let j = choose|j: int| 0 <= j < all.len() && all[j] == row;
    if j < rows.len() {
        assert(rows[j] == row);
    }
    assert(before(all[i] as int, all[j] as int));
}

/// `SELECT` gives the values that satisfy its condition. Without an order they stand as in the
/// table, and `LIMIT` takes the first ones; with one it takes the first ones in that order.
pub proof fn select_gives_the_chosen_values(
    expected: Seq<char>,
    column: Seq<char>,
    values: Seq<Option<i64>>,
    statement: SelectStatement,
    scan_limits: RowLimits,
    order_limits: RowLimits,
)
    requires
        values.len() <= usize::MAX,
    ensures
        selection_of(expected, column, values, statement, scan_limits, order_limits) matches Ok(list)
            ==> {
            let rows = chosen(values, statement.where_predicate);
            &&& statement.limit matches Some(n) ==> list.len() <= n
            &&& list.len() == (match statement.limit {
                Some(n) if n < rows.len() => n as int,
                _ => rows.len() as int,
            })
            &&& statement.order_by is None ==> list == rows.take(list.len() as int)
            &&& statement.order_by matches Some(order) ==> list == values_at(
                rows,
                ordered_rows(rows, order.descending, order.nulls_first, list.len() as usize),
            )
        },
{
    predicates_choose(values, statement.where_predicate, scan_limits);
    let rows = chosen(values, statement.where_predicate);
    chosen_are_no_more(values, statement.where_predicate);
    if let Ok(list) = selection_of(expected, column, values, statement, scan_limits, order_limits) {
        assert(rows.take(rows.len() as int) =~= rows);
        if let Some(order) = statement.order_by {
            let limit = match statement.limit {
                Some(n) => n,
                None => values.len() as usize,
            };
            ordering_puts_rows_in_order(rows, order.descending, order.nulls_first, limit);
            ordering_puts_rows_in_order(
                rows,
                order.descending,
                order.nulls_first,
                list.len() as usize,
            );
            let all = crate::sorting::arranged(
                rows.len() as int,
                row_first(rows, order.descending, order.nulls_first),
            );
            assert(all.take(all.len() as int) =~= all);
        }
    }
}

proof fn chosen_are_no_more(values: Seq<Option<i64>>, predicate: Option<SelectPredicate>)
    ensures
        chosen(values, predicate).len() <= values.len(),
    decreases values.len(),
{
    reveal(Seq::filter);
    if values.len() > 0 && predicate is Some {
        chosen_are_no_more(values.drop_last(), predicate);
    }
}

/// Whether a list holds the values of another one, each once, NULL first and then smaller numbers
/// first.
pub open spec fn each_value_once(values: Seq<Option<i64>>, list: Seq<Option<i64>>) -> bool {
    &&& forall|v: Option<i64>| #[trigger] list.contains(v) <==> values.contains(v)
    &&& forall|j: int, k: int|
        #![trigger list[j], list[k]]
        0 <= j < k < list.len() ==> list[k] is Some && (list[j] matches Some(x) ==> x
            < list[k]->Some_0)
}

proof fn a_distinct_list_exists(values: Seq<Option<i64>>, n: int) -> (list: Seq<Option<i64>>)
    requires
        0 <= n <= values.len(),
    ensures
        is_distinct_list(values.take(n), list),
    decreases n,
{
    if n == 0 {
        Seq::empty()
    } else {
        let before = a_distinct_list_exists(values, n - 1);
        let v = values[n - 1];
        let taken = values.take(n);
        assert(taken =~= values.take(n - 1).push(v));
        let list = if before.contains(v) {
            before
        } else {
            let at = place_for(before, v, 0);
            place_is_between(before, v, 0);
            before.insert(at, v)
        };
        assert forall|i: int| 0 <= i < taken.len() implies list.contains(#[trigger] taken[i]) by {
            if i < n - 1 {
                assert(values.take(n - 1)[i] == taken[i]);
                assert(before.contains(taken[i]));
                let k = choose|k: int| 0 <= k < before.len() && before[k] == taken[i];
                if !before.contains(v) {
                    let at = place_for(before, v, 0);
                    if k < at {
                        assert(list[k] == taken[i]);
                    } else {
                        assert(list[k + 1] == taken[i]);
                    }
                }
            } else if !before.contains(v) {
                assert(list[place_for(before, v, 0)] == v);
            }
        }
        assert forall|k: int| 0 <= k < list.len() implies taken.contains(#[trigger] list[k]) by {
            if list[k] == v {
                assert(taken[n - 1] == v);
            } else {
                let old = if before.contains(v) || k < place_for(before, v, 0) {
                    k
                } else {
                    k - 1
                };
                assert(before[old] == list[k]);
                let earlier = values.take(n - 1);
                assert(earlier.contains(before[old]));
                let i = choose|i: int| 0 <= i < earlier.len() && earlier[i] == before[old];
                assert(taken[i] == list[k]);
            }
        }
        list
    }
}

spec fn place_for(list: Seq<Option<i64>>, v: Option<i64>, i: int) -> int
    decreases list.len() - i,
{
    if 0 <= i < list.len() && value_before(list[i], v, false, true) {
        place_for(list, v, i + 1)
    } else {
        i
    }
}

proof fn place_is_between(list: Seq<Option<i64>>, v: Option<i64>, i: int)
    requires
        0 <= i <= list.len(),
        forall|j: int, k: int|
            #![trigger list[j], list[k]]
            0 <= j < k < list.len() ==> value_before(list[j], list[k], false, true),
        !list.contains(v),
        forall|k: int| 0 <= k < i ==> value_before(#[trigger] list[k], v, false, true),
    ensures
        i <= place_for(list, v, i) <= list.len(),
        forall|k: int|
            0 <= k < place_for(list, v, i) ==> value_before(#[trigger] list[k], v, false, true),
        forall|k: int|
            place_for(list, v, i) <= k < list.len() ==> value_before(v, #[trigger] list[k], false, true),
    decreases list.len() - i,
{
    if i < list.len() {
        if value_before(list[i], v, false, true) {
            place_is_between(list, v, i + 1);
        } else {
            assert(list[i] != v);
        }
    }
}

/// `SELECT DISTINCT` gives each value once, NULL first and then smaller numbers first.
pub proof fn distinct_gives_each_value_once(
    expected: Seq<char>,
    column: Seq<char>,
    values: Seq<Option<i64>>,
    statement: SelectDistinctStatement,
    limits: RowLimits,
)
    ensures
        distinct_of(expected, column, values, statement, limits) matches Ok(list) ==> each_value_once(
            values,
            list,
        ),
{
    let found = a_distinct_list_exists(values, values.len() as int);
    assert(values.take(values.len() as int) =~= values);
    let list = distinct_values(values);
    assert(is_distinct_list(values, list));
    assert forall|v: Option<i64>| #[trigger] list.contains(v) <==> values.contains(v) by {
        if list.contains(v) {
            let k = choose|k: int| 0 <= k < list.len() && list[k] == v;
            assert(values.contains(list[k]));
        }
        if values.contains(v) {
            let i = choose|i: int| 0 <= i < values.len() && values[i] == v;
            assert(list.contains(values[i]));
        }
    }
}

/// Whether a row of the left column of a join has no partner: it is NULL, or no row of the right
/// column holds its value.
pub open spec fn without_partner(left: Seq<Option<i64>>, right: Seq<Option<i64>>, i: int) -> bool {
    left[i] is None || !right.contains(left[i])
}

proof fn matching_rows_hold_the_value(value: Option<i64>, right: Seq<Option<i64>>, n: int)
    requires
        0 <= n <= right.len() <= usize::MAX,
        value is Some,
    ensures
        crate::join::rows_with(right, value->Some_0, n).len() > 0 <==> exists|j: int|
            0 <= j < n && #[trigger] right[j] == value,
    decreases n,
{
    if n > 0 {
        matching_rows_hold_the_value(value, right, n - 1);
        let last = right[n - 1];
    }
}

/// A left outer join has exactly the pairs of rows that hold one value that is not NULL, and one
/// entry without a right row for each left row that has no partner.
pub proof fn outer_join_keeps_rows_without_partner(left: Seq<Option<i64>>, right: Seq<Option<i64>>)
    requires
        left.len() <= usize::MAX,
        right.len() <= usize::MAX,
    ensures
        forall|i: usize| #[trigger]
            outer_join(left, right, left.len() as int).contains((i, None)) <==> i < left.len()
                && without_partner(left, right, i as int),
        forall|i: usize, j: usize| #[trigger]
            crate::join::with_right(outer_join(left, right, left.len() as int)).contains((i, j))
                <==> i < left.len() && j < right.len() && left[i as int] is Some && left[i as int]
                == right[j as int],
{
    outer_join_extends_inner(left, right, left.len() as int);
    inner_join_is_exact(left, right, left.len() as int);
    assert forall|i: usize| i < left.len() implies (matching(left[i as int], right).len() == 0 <==> #[trigger] without_partner(
        left,
        right,
        i as int,
    )) by {
        if left[i as int] is Some {
            matching_rows_hold_the_value(left[i as int], right, right.len() as int);
        }
    }
}

/// Each value that a join of tables shows is that of a left row with a partner.
pub proof fn joined_values_have_partners(
    expected_left: Seq<char>,
    left_column: Seq<char>,
    left: Seq<Option<i64>>,
    expected_right: Seq<char>,
    right_column: Seq<char>,
    right: Seq<Option<i64>>,
    statement: InnerJoinStatement,
    limits: JoinLimits,
)
    requires
        left.len() <= usize::MAX,
        right.len() <= usize::MAX,
    ensures
        join_of(
            expected_left,
            left_column,
            left,
            expected_right,
            right_column,
            right,
            statement,
            limits,
        ) matches Ok(values) ==> forall|v: Option<i64>| #[trigger]
            values.contains(v) <==> v is Some && left.contains(v) && right.contains(v),
{
    inner_join_is_exact(left, right, left.len() as int);
    let pairs = inner_join(left, right, left.len() as int);
    if let Ok(values) = join_of(
        expected_left,
        left_column,
        left,
        expected_right,
        right_column,
        right,
        statement,
        limits,
    ) {
        assert forall|v: Option<i64>| #[trigger]
            values.contains(v) <==> v is Some && left.contains(v) && right.contains(v) by {
            if values.contains(v) {
                let k = choose|k: int| 0 <= k < values.len() && values[k] == v;
                let pair = pairs[k];
                assert(pairs.contains((pair.0, pair.1)));
                assert(left[pair.0 as int] == v && right[pair.1 as int] == v);
            }
            if v is Some && left.contains(v) && right.contains(v) {
                let i = choose|i: int| 0 <= i < left.len() && left[i] == v;
                let j = choose|j: int| 0 <= j < right.len() && right[j] == v;
                assert(pairs.contains((i as usize, j as usize)));
                let k = choose|k: int| 0 <= k < pairs.len() && pairs[k] == (i as usize, j as usize);
                assert(values[k] == v);
            }
        }
    }
}

/// Whether a scalar is smaller than another one of its type.
pub open spec fn scalar_below(a: Scalar, b: Scalar) -> bool {
    match (a, b) {
        (Scalar::Integer(x), Scalar::Integer(y)) => x < y,
        (Scalar::Float(x), Scalar::Float(y)) => bits_below(x, y),
        (Scalar::Boolean(x), Scalar::Boolean(y)) => !x && y,
        (Scalar::Text(x), Scalar::Text(y)) => text_below(x, y),
        _ => false,
    }
}

/// Whether two scalars have one type and are no NaN.
pub open spec fn scalars_compare(a: Scalar, b: Scalar) -> bool {
    match (a, b) {
        (Scalar::Integer(_), Scalar::Integer(_)) => true,
        (Scalar::Float(x), Scalar::Float(y)) => !crate::float::is_nan(x) && !crate::float::is_nan(y),
        (Scalar::Boolean(_), Scalar::Boolean(_)) => true,
        (Scalar::Text(_), Scalar::Text(_)) => true,
        _ => false,
    }
}

/// A comparison of scalars of one type says which of them is smaller; with NULL it is NULL, and
/// scalars of different types are refused.
pub proof fn scalars_compare_by_value(a: Scalar, b: Scalar, operator: ComparisonOperator)
    ensures
        a is Null || b is Null ==> scalar_comparison(a, b, operator) == Ok::<Scalar, Seq<char>>(
            Scalar::Null,
        ),
        !(a is Null) && !(b is Null) && !scalars_compare(a, b) ==> scalar_comparison(a, b, operator) is Err,
        scalars_compare(a, b) ==> scalar_comparison(a, b, operator) == Ok::<Scalar, Seq<char>>(
            Scalar::Boolean(
                match operator {
                    ComparisonOperator::Equal => !scalar_below(a, b) && !scalar_below(b, a),
                    ComparisonOperator::NotEqual => scalar_below(a, b) || scalar_below(b, a),
                    ComparisonOperator::LessThan => scalar_below(a, b),
                    ComparisonOperator::LessThanOrEqual => !scalar_below(b, a),
                    ComparisonOperator::GreaterThan => scalar_below(b, a),
                    ComparisonOperator::GreaterThanOrEqual => !scalar_below(a, b),
                },
            ),
        ),
{
    if let (Scalar::Text(x), Scalar::Text(y)) = (a, b) {
        text_order_is_first_difference(x, y);
    }
}

} // verus!
