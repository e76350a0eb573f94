//! Bounded operators over one nullable column of integers.

use vstd::prelude::*;
use crate::evaluator::ComparisonOperator;
use crate::sorting::{arranged, sort_positions, strict_order};
use crate::text::{concat4, int_order, int_text, order_i64, usize_text};

verus! {

/// Resource bounds of an operator: the rows that it may read, and those that it may give.
#[derive(Clone, Copy, Debug, PartialEq, Eq)]
pub struct RowLimits {
    pub max_input_rows: usize,
    pub max_output_rows: usize,
}

impl RowLimits {
    /// Makes limits.
    pub fn new(max_input_rows: usize, max_output_rows: usize) -> (limits: RowLimits)
        ensures
            limits == (RowLimits { max_input_rows, max_output_rows }),
    {
        RowLimits { max_input_rows, max_output_rows }
    }
}

/// A limit that an operator exceeds.
#[derive(Clone, Copy, Debug, PartialEq, Eq)]
pub enum RowLimitError {
    /// The input has too many rows.
    InputLimitExceeded { rows: usize, max_rows: usize },
    /// The output would have too many rows.
    OutputLimitExceeded { rows: usize, max_rows: usize },
}

/// The text of a failure.
pub open spec fn row_limit_text(e: RowLimitError) -> Seq<char> {
    match e {
        RowLimitError::InputLimitExceeded { rows, max_rows } => "input has "@ + int_text(
            rows as int,
        ) + " rows, exceeding the limit of "@ + int_text(max_rows as int),
        RowLimitError::OutputLimitExceeded { rows, max_rows } => "output has at least "@ + int_text(
            rows as int,
        ) + " rows, exceeding the limit of "@ + int_text(max_rows as int),
    }
}

impl RowLimitError {
    /// Describes the failure.
    pub fn message(&self) -> (s: String)
        ensures
            s@ == row_limit_text(*self),
    {
        match self {
            RowLimitError::InputLimitExceeded { rows, max_rows } => concat4(
                "input has ",
                usize_text(*rows).as_str(),
                " rows, exceeding the limit of ",
                usize_text(*max_rows).as_str(),
            ),
            RowLimitError::OutputLimitExceeded { rows, max_rows } => concat4(
                "output has at least ",
                usize_text(*rows).as_str(),
                " rows, exceeding the limit of ",
                usize_text(*max_rows).as_str(),
            ),
        }
    }
}

/// What an operator with bounds gives.
pub open spec fn bounded<T>(input: nat, output: Seq<T>, limits: RowLimits) -> Result<
    Seq<T>,
    RowLimitError,
> {
    if input > limits.max_input_rows {
        Err(
            RowLimitError::InputLimitExceeded {
                rows: input as usize,
                max_rows: limits.max_input_rows,
            },
        )
    } else if output.len() > limits.max_output_rows {
        Err(
            RowLimitError::OutputLimitExceeded {
                rows: (limits.max_output_rows + 1) as usize,
                max_rows: limits.max_output_rows,
            },
        )
    } else {
        Ok(output)
    }
}

/// Tests of one nullable value.
#[derive(Clone, Copy, Debug, PartialEq, Eq)]
pub enum RowTest {
    /// A comparison with a value. NULL satisfies none.
    Comparison { operator: ComparisonOperator, value: i64 },
    /// Whether the value is NULL, or is not.
    Nullness { is_null: bool },
}

/// Whether a value satisfies a test.
pub open spec fn passes(test: RowTest, v: Option<i64>) -> bool {
    match test {
        RowTest::Comparison { operator, value } => match v {
            Some(x) => operator.holds(int_order(x as int, value as int)),
            None => false,
        },
        RowTest::Nullness { is_null } => (v is None) == is_null,
    }
}

/// The rows below `n` that satisfy a test.
pub open spec fn rows_where(values: Seq<Option<i64>>, test: RowTest, n: int) -> Seq<usize>
    decreases n,
{
    if n <= 0 {
        Seq::empty()
    } else if passes(test, values[n - 1]) {
        rows_where(values, test, n - 1).push((n - 1) as usize)
    } else {
        rows_where(values, test, n - 1)
    }
}

proof fn rows_where_grow(values: Seq<Option<i64>>, test: RowTest, a: int, b: int)
    requires
        0 <= a <= b <= values.len(),
    ensures
        rows_where(values, test, a).len() <= rows_where(values, test, b).len(),
    decreases b - a,
{
    if a < b {
        rows_where_grow(values, test, a, b - 1);
    }
}

/// The rows of a scan stand in their order, and there are no more than there were.
pub proof fn scanned_rows_are_in_range(values: Seq<Option<i64>>, test: RowTest, n: int)
    requires
        0 <= n <= values.len() <= usize::MAX,
    ensures
        rows_where(values, test, n).len() <= n,
        forall|k: int|
            0 <= k < rows_where(values, test, n).len() ==> #[trigger] rows_where(values, test, n)[k] < n
                && passes(test, values[rows_where(values, test, n)[k] as int]),
        forall|j: int, k: int|
            #![trigger rows_where(values, test, n)[j], rows_where(values, test, n)[k]]
            0 <= j < k < rows_where(values, test, n).len() ==> rows_where(values, test, n)[j]
                < rows_where(values, test, n)[k],
    decreases n,
{
    if n > 0 {
        scanned_rows_are_in_range(values, test, n - 1);
    }
}

fn passes_test(test: RowTest, v: Option<i64>) -> (r: bool)
    ensures
        r == passes(test, v),
{
    match test {
        RowTest::Comparison { operator, value } => match v {
            Some(x) => operator.apply(order_i64(x, value)),
            None => false,
        },
        RowTest::Nullness { is_null } => v.is_none() == is_null,
    }
}

/// Finds the rows that satisfy a test, within bounds.
#[verifier::loop_isolation(false)]
pub fn scan_nullable_i64(values: &[Option<i64>], test: RowTest, limits: RowLimits) -> (r: Result<
    Vec<usize>,
    RowLimitError,
>)
    ensures
        match r {
            Ok(rows) => bounded(
                values@.len(),
                rows_where(values@, test, values@.len() as int),
                limits,
            ) == Ok::<_, RowLimitError>(rows@),
            Err(e) => bounded(
                values@.len(),
                rows_where(values@, test, values@.len() as int),
                limits,
            ) == Err::<Seq<usize>, _>(e),
        },
{
    let count = values.len();
    if count > limits.max_input_rows {
        return Err(
            RowLimitError::InputLimitExceeded { rows: count, max_rows: limits.max_input_rows },
        );
    }
    let mut rows: Vec<usize> = Vec::new();
    let mut i: usize = 0;
    while i < count
        invariant
            i <= count,
            rows@ == rows_where(values@, test, i as int),
            rows@.len() <= limits.max_output_rows,
            rows@.len() <= i,
        decreases count - i,
    {
        if passes_test(test, values[i]) {
            if rows.len() >= limits.max_output_rows {
                proof {
                    rows_where_grow(values@, test, i + 1, count as int);
                }
                return Err(
                    RowLimitError::OutputLimitExceeded {
                        rows: rows.len() + 1,
                        max_rows: limits.max_output_rows,
                    },
                );
            }
            rows.push(i);
        }
        i = i + 1;
    }
    Ok(rows)
}

/// The values of rows.
pub open spec fn values_at(values: Seq<Option<i64>>, rows: Seq<usize>) -> Seq<Option<i64>> {
    Seq::new(rows.len(), |k: int| values[rows[k] as int])
}

/// Picks the values of rows.
pub fn pick_values(values: &[Option<i64>], rows: &Vec<usize>) -> (r: Vec<Option<i64>>)
    requires
        forall|k: int| 0 <= k < rows@.len() ==> #[trigger] rows@[k] < values@.len(),
    ensures
        r@ == values_at(values@, rows@),
{
    let mut r: Vec<Option<i64>> = Vec::new();
    let mut k: usize = 0;
    while k < rows.len()
        invariant
            k <= rows.len(),
            forall|k: int| 0 <= k < rows@.len() ==> #[trigger] rows@[k] < values@.len(),
            r@.len() == k,
            forall|j: int| 0 <= j < k ==> #[trigger] r@[j] == values@[rows@[j] as int],
        decreases rows.len() - k,
    {
        r.push(values[rows[k]]);
        k = k + 1;
    }
    assert(r@ =~= values_at(values@, rows@));
    r
}

/// Whether one value comes before another in an order.
pub open spec fn value_before(a: Option<i64>, b: Option<i64>, descending: bool, nulls_first: bool) -> bool {
    match (a, b) {
        (Some(x), Some(y)) => if descending {
            x > y
        } else {
            x < y
        },
        (None, Some(_)) => nulls_first,
        (Some(_), None) => !nulls_first,
        (None, None) => false,
    }
}

/// Whether the row at `a` comes before the one at `b`: ties keep their places.
pub open spec fn row_first(values: Seq<Option<i64>>, descending: bool, nulls_first: bool) -> spec_fn(
    int,
    int,
) -> bool {
    |a: int, b: int|
        value_before(values[a], values[b], descending, nulls_first) || (values[a] == values[b] && a
            < b)
}

/// The first rows in an order.
pub open spec fn ordered_rows(
    values: Seq<Option<i64>>,
    descending: bool,
    nulls_first: bool,
    limit: usize,
) -> Seq<usize> {
    let all = arranged(values.len() as int, row_first(values, descending, nulls_first));
    if limit < all.len() {
        all.take(limit as int)
    } else {
        all
    }
}

/// A limit that ordering exceeds.
#[derive(Clone, Copy, Debug, PartialEq, Eq)]
pub enum OrderError {
    /// The input has too many rows.
    InputLimitExceeded { rows: usize, max_rows: usize },
    /// More rows are asked for than may be given.
    LimitExceeded { limit: usize, max_limit: usize },
}

/// The text of a failure.
pub open spec fn order_text(e: OrderError) -> Seq<char> {
    match e {
        OrderError::InputLimitExceeded { rows, max_rows } => "input has "@ + int_text(rows as int)
            + " rows, exceeding the limit of "@ + int_text(max_rows as int),
        OrderError::LimitExceeded { limit, max_limit } => "LIMIT "@ + int_text(limit as int)
            + " exceeds the maximum of "@ + int_text(max_limit as int),
    }
}

impl OrderError {
    /// Describes the failure.
    pub fn message(&self) -> (s: String)
        ensures
            s@ == order_text(*self),
    {
        match self {
            OrderError::InputLimitExceeded { rows, max_rows } => concat4(
                "input has ",
                usize_text(*rows).as_str(),
                " rows, exceeding the limit of ",
                usize_text(*max_rows).as_str(),
            ),
            OrderError::LimitExceeded { limit, max_limit } => concat4(
                "LIMIT ",
                usize_text(*limit).as_str(),
                " exceeds the maximum of ",
                usize_text(*max_limit).as_str(),
            ),
        }
    }
}

/// What ordering is refused for.
pub open spec fn order_fault(rows: nat, limit: usize, limits: RowLimits) -> Option<OrderError> {
    if rows > limits.max_input_rows {
        Some(
            OrderError::InputLimitExceeded {
                rows: rows as usize,
                max_rows: limits.max_input_rows,
            },
        )
    } else if limit > limits.max_output_rows {
        Some(OrderError::LimitExceeded { limit, max_limit: limits.max_output_rows })
    } else {
        None
    }
}

/// Finds the first rows in an order, within bounds.
pub fn order_nullable_i64(
    values: &[Option<i64>],
    descending: bool,
    nulls_first: bool,
    limit: usize,
    limits: RowLimits,
) -> (r: Result<Vec<usize>, OrderError>)
    ensures
        match r {
            Ok(rows) => order_fault(values@.len(), limit, limits) is None && rows@ == ordered_rows(
                values@,
                descending,
                nulls_first,
                limit,
            ) && forall|k: int| 0 <= k < rows@.len() ==> #[trigger] rows@[k] < values@.len(),
            Err(e) => order_fault(values@.len(), limit, limits) == Some(e),
        },
{
    let count = values.len();
    if count > limits.max_input_rows {
        return Err(OrderError::InputLimitExceeded { rows: count, max_rows: limits.max_input_rows });
    }
    if limit > limits.max_output_rows {
        return Err(OrderError::LimitExceeded { limit, max_limit: limits.max_output_rows });
    }
    let ghost before = row_first(values@, descending, nulls_first);
    assert(strict_order(before, count as int));
    let earlier = |a: usize, b: usize| -> (r: bool)
        requires
            a < values@.len(),
            b < values@.len(),
        ensures
            r == row_first(values@, descending, nulls_first)(a as int, b as int),
        { comes_first(values, descending, nulls_first, a, b) };
    let mut rows = sort_positions(count, &earlier, Ghost(before));
    rows.truncate(limit);
    Ok(rows)
}

fn comes_first(values: &[Option<i64>], descending: bool, nulls_first: bool, a: usize, b: usize) -> (r:
    bool)
    requires
        a < values@.len(),
        b < values@.len(),
    ensures
        r == row_first(values@, descending, nulls_first)(a as int, b as int),
{
    match (values[a], values[b]) {
        (Some(x), Some(y)) => if x == y {
            a < b
        } else if descending {
            x > y
        } else {
            x < y
        },
        (None, Some(_)) => nulls_first,
        (Some(_), None) => !nulls_first,
        (None, None) => a < b,
    }
}

/// Rows that an aggregate reads.
#[derive(Debug)]
pub enum RowSelection {
    /// All rows.
    All,
    /// The rows at these positions.
    Indices(Vec<usize>),
}

/// The values of a selection.
pub open spec fn selected(values: Seq<Option<i64>>, selection: RowSelection) -> Seq<Option<i64>> {
    match selection {
        RowSelection::All => values,
        RowSelection::Indices(rows) => values_at(values, rows@),
    }
}

/// Whether the rows of a selection are there.
pub open spec fn selects_rows(selection: RowSelection, rows: nat) -> bool {
    selection matches RowSelection::Indices(list) ==> forall|k: int|
        0 <= k < list@.len() ==> #[trigger] list@[k] < rows
}

/// A failure of an aggregate.
#[derive(Clone, Copy, Debug, PartialEq, Eq)]
pub enum AggregateError {
    /// The input has too many rows.
    InputLimitExceeded { rows: usize, max_rows: usize },
    /// Too many rows are selected.
    SelectionLimitExceeded { rows: usize, max_rows: usize },
    /// The sum is out of range.
    SumOverflow,
}

/// The text of a failure.
pub open spec fn aggregate_text(e: AggregateError) -> Seq<char> {
    match e {
        AggregateError::InputLimitExceeded { rows, max_rows } => "input has "@ + int_text(
            rows as int,
        ) + " rows, exceeding the limit of "@ + int_text(max_rows as int),
        AggregateError::SelectionLimitExceeded { rows, max_rows } => "selection has "@ + int_text(
            rows as int,
        ) + " rows, exceeding the limit of "@ + int_text(max_rows as int),
        AggregateError::SumOverflow => "sum is out of range"@,
    }
}

impl AggregateError {
    /// Describes the failure.
    pub fn message(&self) -> (s: String)
        ensures
            s@ == aggregate_text(*self),
    {
        match self {
            AggregateError::InputLimitExceeded { rows, max_rows } => concat4(
                "input has ",
                usize_text(*rows).as_str(),
                " rows, exceeding the limit of ",
                usize_text(*max_rows).as_str(),
            ),
            AggregateError::SelectionLimitExceeded { rows, max_rows } => concat4(
                "selection has ",
                usize_text(*rows).as_str(),
                " rows, exceeding the limit of ",
                usize_text(*max_rows).as_str(),
            ),
            AggregateError::SumOverflow => "sum is out of range".to_owned(),
        }
    }
}

/// What an aggregate is refused for before it reads.
pub open spec fn aggregate_fault(rows: nat, chosen: nat, limits: RowLimits) -> Option<AggregateError> {
    if rows > limits.max_input_rows {
        Some(
            AggregateError::InputLimitExceeded {
                rows: rows as usize,
                max_rows: limits.max_input_rows,
            },
        )
    } else if chosen > limits.max_output_rows {
        Some(
            AggregateError::SelectionLimitExceeded {
                rows: chosen as usize,
                max_rows: limits.max_output_rows,
            },
        )
    } else {
        None
    }
}

/// The number of the first `n` values that are not NULL.
pub open spec fn count_known(values: Seq<Option<i64>>, n: int) -> nat
    decreases n,
{
    if n <= 0 {
        0
    } else {
        count_known(values, n - 1) + if values[n - 1] is Some { 1nat } else { 0 }
    }
}

/// The sum of the first `n` values that are not NULL.
pub open spec fn sum_known(values: Seq<Option<i64>>, n: int) -> int
    decreases n,
{
    if n <= 0 {
        0
    } else {
        sum_known(values, n - 1) + match values[n - 1] {
            Some(x) => x as int,
            None => 0,
        }
    }
}

/// The least of the first `n` values that are not NULL.
pub open spec fn least_known(values: Seq<Option<i64>>, n: int) -> Option<i64>
    decreases n,
{
    if n <= 0 {
        None
    } else {
        match (least_known(values, n - 1), values[n - 1]) {
            (Some(x), Some(y)) => Some(
                if y < x {
                    y
                } else {
                    x
                },
            ),
            (None, y) => y,
            (x, None) => x,
        }
    }
}

fn check_selection(values: &[Option<i64>], selection: &RowSelection, limits: RowLimits) -> (r:
    Result<usize, AggregateError>)
    ensures
        match r {
            Ok(n) => n == selected(values@, *selection).len() && aggregate_fault(
                values@.len(),
                n as nat,
                limits,
            ) is None,
            Err(e) => aggregate_fault(
                values@.len(),
                selected(values@, *selection).len(),
                limits,
            ) == Some(e),
        },
{
    let count = values.len();
    if count > limits.max_input_rows {
        return Err(
            AggregateError::InputLimitExceeded { rows: count, max_rows: limits.max_input_rows },
        );
    }
    let chosen = match selection {
        RowSelection::All => count,
        RowSelection::Indices(rows) => rows.len(),
    };
    if chosen > limits.max_output_rows {
        return Err(
            AggregateError::SelectionLimitExceeded {
                rows: chosen,
                max_rows: limits.max_output_rows,
            },
        );
    }
    Ok(chosen)
}

fn selected_value(values: &[Option<i64>], selection: &RowSelection, k: usize) -> (v: Option<i64>)
    requires
        selects_rows(*selection, values@.len()),
        k < selected(values@, *selection).len(),
    ensures
        v == selected(values@, *selection)[k as int],
{
    match selection {
        RowSelection::All => values[k],
        RowSelection::Indices(rows) => {
            assert(rows@[k as int] < values@.len());
            values[rows[k]]
        },
    }
}

/// Counts the selected rows, and those of them that are not NULL.
#[verifier::loop_isolation(false)]
pub fn count_nullable_i64(values: &[Option<i64>], selection: &RowSelection, limits: RowLimits) -> (r:
    Result<(u64, u64), AggregateError>)
    requires
        selects_rows(*selection, values@.len()),
    ensures
        ({
            let chosen = selected(values@, *selection);
            match r {
                Ok((star, column)) => {
                    &&& aggregate_fault(values@.len(), chosen.len(), limits) is None
                    &&& star == chosen.len()
                    &&& column == count_known(chosen, chosen.len() as int)
                },
                Err(e) => aggregate_fault(values@.len(), chosen.len(), limits) == Some(e),
            }
        }),
{
    let n = check_selection(values, selection, limits)?;
    let ghost chosen = selected(values@, *selection);
    let mut known: u64 = 0;
    let mut k: usize = 0;
    while k < n
        invariant
            k <= n,
            known <= k,
            known == count_known(chosen, k as int),
        decreases n - k,
    {
        if selected_value(values, selection, k).is_some() {
            known = known + 1;
        }
        k = k + 1;
    }
    Ok((n as u64, known))
}

/// Sums the selected values that are not NULL. Without any the sum is NULL.
#[verifier::loop_isolation(false)]
pub fn sum_nullable_i64(values: &[Option<i64>], selection: &RowSelection, limits: RowLimits) -> (r:
    Result<Option<i64>, AggregateError>)
    requires
        selects_rows(*selection, values@.len()),
    ensures
        ({
            let chosen = selected(values@, *selection);
            let n = chosen.len() as int;
            match r {
                Ok(sum) => {
                    &&& aggregate_fault(values@.len(), chosen.len(), limits) is None
                    &&& sum == if count_known(chosen, n) == 0 {
                        None
                    } else {
                        Some(sum_known(chosen, n) as i64)
                    }
                    &&& i64::MIN <= sum_known(chosen, n) <= i64::MAX
                },
                Err(e) => match aggregate_fault(values@.len(), chosen.len(), limits) {
                    Some(fault) => e == fault,
                    None => e == AggregateError::SumOverflow && !(i64::MIN <= sum_known(chosen, n)
                        <= i64::MAX),
                },
            }
        }),
{
    let n = check_selection(values, selection, limits)?;
    let ghost chosen = selected(values@, *selection);
    let mut known = false;
    let mut sum: i128 = 0;
    let mut k: usize = 0;
    while k < n
        invariant
            k <= n,
            known == (count_known(chosen, k as int) > 0),
            sum == sum_known(chosen, k as int),
            -(0x8000_0000_0000_0000 * k) <= sum <= 0x8000_0000_0000_0000 * k,
            !known ==> sum == 0,
        decreases n - k,
    {
        if let Some(x) = selected_value(values, selection, k) {
            known = true;
            sum = sum + x as i128;
        }
        k = k + 1;
    }
    if sum < i64::MIN as i128 || sum > i64::MAX as i128 {
        return Err(AggregateError::SumOverflow);
    }
    if known {
        Ok(Some(sum as i64))
    } else {
        Ok(None)
    }
}

/// Finds the least selected value that is not NULL.
#[verifier::loop_isolation(false)]
pub fn min_nullable_i64(values: &[Option<i64>], selection: &RowSelection, limits: RowLimits) -> (r:
    Result<Option<i64>, AggregateError>)
    requires
        selects_rows(*selection, values@.len()),
    ensures
        ({
            let chosen = selected(values@, *selection);
            match r {
                Ok(least) => {
                    &&& aggregate_fault(values@.len(), chosen.len(), limits) is None
                    &&& least == least_known(chosen, chosen.len() as int)
                },
                Err(e) => aggregate_fault(values@.len(), chosen.len(), limits) == Some(e),
            }
        }),
{
    let n = check_selection(values, selection, limits)?;
    let ghost chosen = selected(values@, *selection);
    let mut least: Option<i64> = None;
    let mut k: usize = 0;
    while k < n
        invariant
            k <= n,
            least == least_known(chosen, k as int),
        decreases n - k,
    {
        let value = selected_value(values, selection, k);
        least = match (least, value) {
            (Some(x), Some(y)) => Some(
                if y < x {
                    y
                } else {
                    x
                },
            ),
            (None, y) => y,
            (x, None) => x,
        };
        k = k + 1;
    }
    Ok(least)
}

/// Whether a list holds the values of a column, each once, NULL first and then smaller ones
/// first.
pub open spec fn is_distinct_list(values: Seq<Option<i64>>, list: Seq<Option<i64>>) -> bool {
    &&& forall|i: int| 0 <= i < values.len() ==> list.contains(#[trigger] values[i])
    &&& forall|k: int| 0 <= k < list.len() ==> values.contains(#[trigger] list[k])
    &&& forall|j: int, k: int|
        #![trigger list[j], list[k]]
        0 <= j < k < list.len() ==> value_before(list[j], list[k], false, true)
}

/// The distinct values of a column, NULL first and then smaller ones first.
pub open spec fn distinct_values(values: Seq<Option<i64>>) -> Seq<Option<i64>> {
    choose|list: Seq<Option<i64>>| is_distinct_list(values, list)
}

/// Only one list holds the distinct values of a column in their order.
pub proof fn distinct_list_is_unique(
    values: Seq<Option<i64>>,
    a: Seq<Option<i64>>,
    b: Seq<Option<i64>>,
)
    requires
        is_distinct_list(values, a),
        is_distinct_list(values, b),
    ensures
        a == b,
{
    assert forall|k: int| 0 <= k < a.len() implies b.contains(#[trigger] a[k]) by {
        assert(values.contains(a[k]));
        let i = choose|i: int| 0 <= i < values.len() && values[i] == a[k];
        assert(b.contains(values[i]));
    }
    assert forall|k: int| 0 <= k < b.len() implies a.contains(#[trigger] b[k]) by {
        assert(values.contains(b[k]));
        let i = choose|i: int| 0 <= i < values.len() && values[i] == b[k];
        assert(a.contains(values[i]));
    }
    same_ascending(a, b);
}

proof fn same_ascending(a: Seq<Option<i64>>, b: Seq<Option<i64>>)
    requires
        forall|k: int| 0 <= k < a.len() ==> b.contains(#[trigger] a[k]),
        forall|k: int| 0 <= k < b.len() ==> a.contains(#[trigger] b[k]),
        forall|j: int, k: int|
            #![trigger a[j], a[k]]
            0 <= j < k < a.len() ==> value_before(a[j], a[k], false, true),
        forall|j: int, k: int|
            #![trigger b[j], b[k]]
            0 <= j < k < b.len() ==> value_before(b[j], b[k], false, true),
    ensures
        a == b,
    decreases a.len(),
{
    if a.len() == 0 {
        if b.len() > 0 {
            assert(a.contains(b[0]));
        }
        assert(a =~= b);
    } else {
        assert(b.contains(a[0]));
        let j = choose|j: int| 0 <= j < b.len() && b[j] == a[0];
        assert(a.contains(b[0]));
        let i = choose|i: int| 0 <= i < a.len() && a[i] == b[0];
        assert(a[0] == b[0]) by {
            if i > 0 && j > 0 {
                assert(value_before(a[0], a[i], false, true));
                assert(value_before(b[0], b[j], false, true));
            }
        }
        let (p, q) = (a.skip(1), b.skip(1));
        assert forall|k: int| 0 <= k < p.len() implies q.contains(#[trigger] p[k]) by {
            assert(b.contains(a[k + 1]));
            let w = choose|w: int| 0 <= w < b.len() && b[w] == a[k + 1];
            assert(value_before(a[0], a[k + 1], false, true));
            assert(q[w - 1] == p[k]);
        }
        assert forall|k: int| 0 <= k < q.len() implies p.contains(#[trigger] q[k]) by {
            assert(a.contains(b[k + 1]));
            let w = choose|w: int| 0 <= w < a.len() && a[w] == b[k + 1];
            assert(value_before(b[0], b[k + 1], false, true));
            assert(p[w - 1] == q[k]);
        }
        same_ascending(p, q);
        assert(a =~= seq![a[0]] + p);
        assert(b =~= seq![b[0]] + q);
    }
}

/// Finds the distinct values of a column, NULL first and then smaller ones first, within
/// bounds.
#[verifier::loop_isolation(false)]
pub fn distinct_nullable_i64(values: &[Option<i64>], limits: RowLimits) -> (r: Result<
    Vec<Option<i64>>,
    RowLimitError,
>)
    ensures
        match r {
            Ok(list) => is_distinct_list(values@, list@) && bounded(values@.len(), distinct_values(values@), limits) == Ok::<
                _,
                RowLimitError,
            >(list@),
            Err(e) => bounded(values@.len(), distinct_values(values@), limits) == Err::<
                Seq<Option<i64>>,
                _,
            >(e),
        },
{
    let count = values.len();
    if count > limits.max_input_rows {
        return Err(
            RowLimitError::InputLimitExceeded { rows: count, max_rows: limits.max_input_rows },
        );
    }
    let ghost before = row_first(values@, false, true);
    assert(strict_order(before, count as int));
    let earlier = |a: usize, b: usize| -> (r: bool)
        requires
            a < values@.len(),
            b < values@.len(),
        ensures
            r == row_first(values@, false, true)(a as int, b as int),
        { comes_first(values, false, true, a, b) };
    let rows = sort_positions(count, &earlier, Ghost(before));
    let mut list: Vec<Option<i64>> = Vec::new();
    let mut k: usize = 0;
    while k < rows.len()
        invariant
            k <= rows.len(),
            list@.len() <= k,
            k > 0 ==> list@.len() > 0 && list@.last() == values@[rows@[k - 1] as int],
            forall|j: int| 0 <= j < k ==> list@.contains(values@[#[trigger] rows@[j] as int]),
            forall|j: int| 0 <= j < list@.len() ==> values@.contains(#[trigger] list@[j]),
            forall|i: int, j: int|
                #![trigger list@[i], list@[j]]
                0 <= i < j < list@.len() ==> value_before(list@[i], list@[j], false, true),
        decreases rows.len() - k,
    {
        let value = values[rows[k]];
        let ghost now = list@;
        assert(values@[rows@[k as int] as int] == value);
        let fresh = if list.len() == 0 {
            true
        } else {
            match (list[list.len() - 1], value) {
                (Some(x), Some(y)) => x != y,
                (None, None) => false,
                _ => true,
            }
        };
        if fresh {
            proof {
                if k > 0 {
                    assert(before(rows@[k - 1] as int, rows@[k as int] as int));
                    assert(value_before(now.last(), value, false, true));
                    assert forall|i: int| 0 <= i < now.len() implies value_before(
                        #[trigger] now[i],
                        value,
                        false,
                        true,
                    ) by {
                        if i < now.len() - 1 {
                            assert(value_before(now[i], now[now.len() - 1], false, true));
                        }
                    }
                }
            }
            list.push(value);
            proof {
                assert forall|j: int| 0 <= j < k implies list@.contains(
                    values@[#[trigger] rows@[j] as int],
                ) by {
                    assert(now.contains(values@[rows@[j] as int]));
                    let w = choose|w: int|
                        0 <= w < now.len() && now[w] == values@[rows@[j] as int];
                    assert(list@[w] == now[w]);
                }
                assert(list@[now.len() as int] == value);
            }
        } else {
            assert(list@[now.len() - 1] == value);
        }
        k = k + 1;
    }
    proof {
        assert forall|i: int| 0 <= i < values@.len() implies list@.contains(#[trigger] values@[i]) by {
            assert(rows@.contains(i as usize));
            let j = choose|j: int| 0 <= j < rows@.len() && rows@[j] == i as usize;
            assert(list@.contains(values@[rows@[j] as int]));
        }
        assert(is_distinct_list(values@, list@));
        distinct_list_is_unique(values@, list@, distinct_values(values@));
    }
    if list.len() > limits.max_output_rows {
        return Err(
            RowLimitError::OutputLimitExceeded {
                rows: limits.max_output_rows + 1,
                max_rows: limits.max_output_rows,
            },
        );
    }
    Ok(list)
}

} // verus!
