//! Bounded equi-joins over nullable columns.

use vstd::prelude::*;
use std::collections::HashMap;
use crate::text::{concat4, int_text, usize_text};

verus! {

/// Resource bounds of an equi-join.
#[derive(Clone, Copy, Debug, PartialEq, Eq)]
pub struct JoinLimits {
    /// Maximum number of rows of each input.
    pub max_input_rows: usize,
    /// Maximum number of pairs of the output.
    pub max_output_pairs: usize,
}

impl JoinLimits {
    /// Makes limits.
    pub fn new(max_input_rows: usize, max_output_pairs: usize) -> (limits: JoinLimits)
        ensures
            limits == (JoinLimits { max_input_rows, max_output_pairs }),
    {
        JoinLimits { max_input_rows, max_output_pairs }
    }
}

/// A left row and a right row that match.
#[derive(Clone, Copy, Debug, PartialEq, Eq)]
pub struct JoinRowPair {
    left_row: usize,
    right_row: usize,
}

impl View for JoinRowPair {
    type V = (usize, usize);

    closed spec fn view(&self) -> (usize, usize) {
        (self.left_row, self.right_row)
    }
}

impl JoinRowPair {
    fn new(left_row: usize, right_row: usize) -> (pair: JoinRowPair)
        ensures
            pair@ == (left_row, right_row),
    {
        JoinRowPair { left_row, right_row }
    }

    /// The row of the left input.
    pub fn left_row(self) -> (row: usize)
        ensures
            row == self@.0,
    {
        self.left_row
    }

    /// The row of the right input.
    pub fn right_row(self) -> (row: usize)
        ensures
            row == self@.1,
    {
        self.right_row
    }

    /// The left and the right row.
    pub fn into_pair(self) -> (pair: (usize, usize))
        ensures
            pair == self@,
    {
        (self.left_row, self.right_row)
    }
}

/// A left row and the right row that it matches. A left row that is NULL or matches nothing
/// has no right row.
#[derive(Clone, Copy, Debug, PartialEq, Eq)]
pub struct LeftOuterJoinRowPair {
    left_row: usize,
    right_row: Option<usize>,
}

impl View for LeftOuterJoinRowPair {
    type V = (usize, Option<usize>);

    closed spec fn view(&self) -> (usize, Option<usize>) {
        (self.left_row, self.right_row)
    }
}

impl LeftOuterJoinRowPair {
    fn new(left_row: usize, right_row: Option<usize>) -> (pair: LeftOuterJoinRowPair)
        ensures
            pair@ == (left_row, right_row),
    {
        LeftOuterJoinRowPair { left_row, right_row }
    }

    /// The row of the left input.
    pub fn left_row(self) -> (row: usize)
        ensures
            row == self@.0,
    {
        self.left_row
    }

    /// The row of the right input, if one matches.
    pub fn right_row(self) -> (row: Option<usize>)
        ensures
            row == self@.1,
    {
        self.right_row
    }

    /// The left row and the right row, if one matches.
    pub fn into_pair(self) -> (pair: (usize, Option<usize>))
        ensures
            pair == self@,
    {
        (self.left_row, self.right_row)
    }
}

/// A limit that a join exceeds.
#[derive(Clone, Copy, Debug, PartialEq, Eq)]
pub enum JoinError {
    /// The left input has too many rows.
    LeftInputLimitExceeded { rows: usize, max_rows: usize },
    /// The right input has too many rows.
    RightInputLimitExceeded { rows: usize, max_rows: usize },
    /// The output has too many pairs.
    OutputLimitExceeded { pairs: usize, max_pairs: usize },
}

/// The text of a failure.
pub open spec fn join_text(e: JoinError) -> Seq<char> {
    match e {
        JoinError::LeftInputLimitExceeded { rows, max_rows } => "join left input has "@ + int_text(
            rows as int,
        ) + " rows, exceeding the limit of "@ + int_text(max_rows as int),
        JoinError::RightInputLimitExceeded { rows, max_rows } => "join right input has "@
            + int_text(rows as int) + " rows, exceeding the limit of "@ + int_text(max_rows as int),
        JoinError::OutputLimitExceeded { pairs, max_pairs } => "join has at least "@ + int_text(
            pairs as int,
        ) + " output pairs, exceeding the limit of "@ + int_text(max_pairs as int),
    }
}

impl JoinError {
    /// Describes the failure.
    pub fn message(&self) -> (s: String)
        ensures
            s@ == join_text(*self),
    {
        match self {
            JoinError::LeftInputLimitExceeded { rows, max_rows } => concat4(
                "join left input has ",
                usize_text(*rows).as_str(),
                " rows, exceeding the limit of ",
                usize_text(*max_rows).as_str(),
            ),
            JoinError::RightInputLimitExceeded { rows, max_rows } => concat4(
                "join right input has ",
                usize_text(*rows).as_str(),
                " rows, exceeding the limit of ",
                usize_text(*max_rows).as_str(),
            ),
            JoinError::OutputLimitExceeded { pairs, max_pairs } => concat4(
                "join has at least ",
                usize_text(*pairs).as_str(),
                " output pairs, exceeding the limit of ",
                usize_text(*max_pairs).as_str(),
            ),
        }
    }
}

/// The rows below `n` with a value.
pub open spec fn rows_with(column: Seq<Option<i64>>, value: i64, n: int) -> Seq<usize>
    decreases n,
{
    if n <= 0 {
        Seq::empty()
    } else if column[n - 1] == Some(value) {
        rows_with(column, value, n - 1).push((n - 1) as usize)
    } else {
        rows_with(column, value, n - 1)
    }
}

/// The right rows that a left value matches.
pub open spec fn matching(value: Option<i64>, right: Seq<Option<i64>>) -> Seq<usize> {
    match value {
        Some(v) => rows_with(right, v, right.len() as int),
        None => Seq::empty(),
    }
}

/// The pairs of a left row in an inner join.
pub open spec fn inner_pairs(left_row: int, value: Option<i64>, right: Seq<Option<i64>>) -> Seq<
    (usize, usize),
> {
    Seq::new(
        matching(value, right).len(),
        |k: int| (left_row as usize, matching(value, right)[k]),
    )
}

/// The inner join of the first `n` left rows.
pub open spec fn inner_join(left: Seq<Option<i64>>, right: Seq<Option<i64>>, n: int) -> Seq<
    (usize, usize),
>
    decreases n,
{
    if n <= 0 {
        Seq::empty()
    } else {
        inner_join(left, right, n - 1) + inner_pairs(n - 1, left[n - 1], right)
    }
}

/// The pairs of a left row in a left outer join.
pub open spec fn outer_pairs(left_row: int, value: Option<i64>, right: Seq<Option<i64>>) -> Seq<
    (usize, Option<usize>),
> {
    if matching(value, right).len() == 0 {
        seq![(left_row as usize, None)]
    } else {
        Seq::new(
            matching(value, right).len(),
            |k: int| (left_row as usize, Some(matching(value, right)[k])),
        )
    }
}

/// The left outer join of the first `n` left rows.
pub open spec fn outer_join(left: Seq<Option<i64>>, right: Seq<Option<i64>>, n: int) -> Seq<
    (usize, Option<usize>),
>
    decreases n,
{
    if n <= 0 {
        Seq::empty()
    } else {
        outer_join(left, right, n - 1) + outer_pairs(n - 1, left[n - 1], right)
    }
}

/// What the sizes of the inputs are refused for.
pub open spec fn input_fault(left: nat, right: nat, limits: JoinLimits) -> Option<JoinError> {
    if left > limits.max_input_rows {
        Some(
            JoinError::LeftInputLimitExceeded {
                rows: left as usize,
                max_rows: limits.max_input_rows,
            },
        )
    } else if right > limits.max_input_rows {
        Some(
            JoinError::RightInputLimitExceeded {
                rows: right as usize,
                max_rows: limits.max_input_rows,
            },
        )
    } else {
        None
    }
}

/// The failure of an output that is too large.
pub open spec fn output_fault(limits: JoinLimits) -> JoinError {
    JoinError::OutputLimitExceeded {
        pairs: if limits.max_output_pairs == usize::MAX {
            usize::MAX
        } else {
            (limits.max_output_pairs + 1) as usize
        },
        max_pairs: limits.max_output_pairs,
    }
}

/// The result of a join within limits.
pub open spec fn limited<P>(
    left: nat,
    right: nat,
    limits: JoinLimits,
    pairs: Seq<P>,
) -> Result<Seq<P>, JoinError> {
    match input_fault(left, right, limits) {
        Some(e) => Err(e),
        None => if pairs.len() > limits.max_output_pairs {
            Err(output_fault(limits))
        } else {
            Ok(pairs)
        },
    }
}

/// The rows of each value of a column.
struct RowIndex {
    rows: HashMap<i64, Vec<usize>>,
}

impl RowIndex {
    spec fn lists(&self, right: Seq<Option<i64>>, n: int) -> bool {
        &&& forall|v: i64|
            #[trigger] self.rows@.contains_key(v) ==> self.rows@[v]@ == rows_with(right, v, n)
                && rows_with(right, v, n).len() > 0
        &&& forall|v: i64| rows_with(right, v, n).len() > 0 ==> #[trigger] self.rows@.contains_key(v)
    }

    #[verifier::loop_isolation(false)]
    fn new(right: &[Option<i64>]) -> (index: RowIndex)
        ensures
            index.lists(right@, right@.len() as int),
    {
        broadcast use vstd::std_specs::hash::group_hash_axioms;

        let mut index = RowIndex { rows: HashMap::new() };
        let mut row: usize = 0;
        while row < right.len()
            invariant
                row <= right.len(),
                index.lists(right@, row as int),
            decreases right.len() - row,
        {
            let ghost before = index.rows@;
            if let Some(value) = right[row] {
                let mut list = match index.rows.remove(&value) {
                    Some(list) => list,
                    None => Vec::new(),
                };
                assert(list@ =~= rows_with(right@, value, row as int)) by {
                    if !before.contains_key(value) {
                        assert(rows_with(right@, value, row as int).len() == 0);
                    }
                }
                list.push(row);
                index.rows.insert(value, list);
                assert forall|v: i64| #[trigger] index.rows@.contains_key(v) implies index.rows@[v]@
                    == rows_with(right@, v, row + 1) && rows_with(right@, v, row + 1).len() > 0 by {
                    if v != value {
                        assert(before.contains_key(v));
                    }
                }
                assert forall|v: i64| rows_with(right@, v, row + 1).len() > 0 implies #[trigger] index.rows@.contains_key(
                v) by {
                    if v != value {
                        assert(before.contains_key(v));
                    }
                }
            }
            row = row + 1;
        }
        index
    }

    fn find(&self, value: Option<i64>, Ghost(right): Ghost<Seq<Option<i64>>>) -> (r: Option<&Vec<usize>>)
        requires
            self.lists(right, right.len() as int),
        ensures
            match r {
                Some(list) => list@ == matching(value, right) && list@.len() > 0,
                None => matching(value, right).len() == 0,
            },
    {
        broadcast use vstd::std_specs::hash::group_hash_axioms;

        match value {
            Some(v) => {
                let found = self.rows.get(&v);
                proof {
                    if found is None {
                        assert(!self.rows@.contains_key(v));
                    }
                }
                found
            },
            None => None,
        }
    }
}

fn validate_input_limits(left: usize, right: usize, limits: JoinLimits) -> (r: Option<JoinError>)
    ensures
        r == input_fault(left as nat, right as nat, limits),
{
    if left > limits.max_input_rows {
        return Some(
            JoinError::LeftInputLimitExceeded { rows: left, max_rows: limits.max_input_rows },
        );
    }
    if right > limits.max_input_rows {
        return Some(
            JoinError::RightInputLimitExceeded { rows: right, max_rows: limits.max_input_rows },
        );
    }
    None
}

proof fn inner_join_grows(left: Seq<Option<i64>>, right: Seq<Option<i64>>, a: int, b: int)
    requires
        0 <= a <= b <= left.len(),
    ensures
        inner_join(left, right, a).len() <= inner_join(left, right, b).len(),
    decreases b - a,
{
    if a < b {
        inner_join_grows(left, right, a, b - 1);
    }
}

proof fn outer_join_grows(left: Seq<Option<i64>>, right: Seq<Option<i64>>, a: int, b: int)
    requires
        0 <= a <= b <= left.len(),
    ensures
        outer_join(left, right, a).len() <= outer_join(left, right, b).len(),
    decreases b - a,
{
    if a < b {
        outer_join_grows(left, right, a, b - 1);
    }
}

#[verifier::loop_isolation(false)]
fn count_output_pairs(
    left: &[Option<i64>],
    index: &RowIndex,
    limits: JoinLimits,
    Ghost(right): Ghost<Seq<Option<i64>>>,
) -> (r: Option<usize>)
    requires
        index.lists(right, right.len() as int),
    ensures
        match r {
            Some(n) => n == inner_join(left@, right, left@.len() as int).len() && n
                <= limits.max_output_pairs,
            None => inner_join(left@, right, left@.len() as int).len() > limits.max_output_pairs,
        },
{
    let mut pairs: usize = 0;
    let mut row: usize = 0;
    while row < left.len()
        invariant
            row <= left.len(),
            pairs == inner_join(left@, right, row as int).len(),
            pairs <= limits.max_output_pairs,
        decreases left.len() - row,
    {
        let count = match index.find(left[row], Ghost(right)) {
            Some(list) => list.len(),
            None => 0,
        };
        if count > limits.max_output_pairs - pairs {
            proof {
                inner_join_grows(left@, right, row + 1, left@.len() as int);
            }
            return None;
        }
        pairs = pairs + count;
        row = row + 1;
    }
    Some(pairs)
}

#[verifier::loop_isolation(false)]
fn count_left_outer_output_pairs(
    left: &[Option<i64>],
    index: &RowIndex,
    limits: JoinLimits,
    Ghost(right): Ghost<Seq<Option<i64>>>,
) -> (r: Option<usize>)
    requires
        index.lists(right, right.len() as int),
    ensures
        match r {
            Some(n) => n == outer_join(left@, right, left@.len() as int).len() && n
                <= limits.max_output_pairs,
            None => outer_join(left@, right, left@.len() as int).len() > limits.max_output_pairs,
        },
{
    let mut pairs: usize = 0;
    let mut row: usize = 0;
    while row < left.len()
        invariant
            row <= left.len(),
            pairs == outer_join(left@, right, row as int).len(),
            pairs <= limits.max_output_pairs,
        decreases left.len() - row,
    {
        let count = match index.find(left[row], Ghost(right)) {
            Some(list) => list.len(),
            None => 1,
        };
        if count > limits.max_output_pairs - pairs {
            proof {
                outer_join_grows(left@, right, row + 1, left@.len() as int);
            }
            return None;
        }
        pairs = pairs + count;
        row = row + 1;
    }
    Some(pairs)
}

fn output_error(limits: JoinLimits) -> (e: JoinError)
    ensures
        e == output_fault(limits),
{
    JoinError::OutputLimitExceeded {
        pairs: limits.max_output_pairs.saturating_add(1),
        max_pairs: limits.max_output_pairs,
    }
}

/// The contents of pairs.
pub open spec fn pairs_of(pairs: Seq<JoinRowPair>) -> Seq<(usize, usize)> {
    Seq::new(pairs.len(), |i: int| pairs[i]@)
}

/// The contents of pairs.
pub open spec fn outer_pairs_of(pairs: Seq<LeftOuterJoinRowPair>) -> Seq<(usize, Option<usize>)> {
    Seq::new(pairs.len(), |i: int| pairs[i]@)
}

/// Joins two nullable columns by equality.
///
/// NULL matches nothing, not even NULL. Every pair of rows with one value is returned. Pairs
/// stand in the order of their left rows, and then of their right rows. The size of the
/// output is checked before any pair is made.
#[verifier::loop_isolation(false)]
pub fn inner_equi_join_nullable_i64(
    left: &[Option<i64>],
    right: &[Option<i64>],
    limits: JoinLimits,
) -> (r: Result<Vec<JoinRowPair>, JoinError>)
    ensures
        match r {
            Ok(pairs) => limited(
                left@.len(),
                right@.len(),
                limits,
                inner_join(left@, right@, left@.len() as int),
            ) == Ok::<_, JoinError>(pairs_of(pairs@)),
            Err(e) => limited(
                left@.len(),
                right@.len(),
                limits,
                inner_join(left@, right@, left@.len() as int),
            ) == Err::<Seq<(usize, usize)>, _>(e),
        },
{
    if let Some(e) = validate_input_limits(left.len(), right.len(), limits) {
        return Err(e);
    }
    let index = RowIndex::new(right);
    let count = match count_output_pairs(left, &index, limits, Ghost(right@)) {
        Some(n) => n,
        None => return Err(output_error(limits)),
    };
    let mut pairs: Vec<JoinRowPair> = Vec::with_capacity(count);
    assert(pairs_of(pairs@) =~= Seq::<(usize, usize)>::empty());
    let mut row: usize = 0;
    while row < left.len()
        invariant
            row <= left.len(),
            pairs_of(pairs@) == inner_join(left@, right@, row as int),
        decreases left.len() - row,
    {
        let ghost before = pairs_of(pairs@);
        let ghost more = inner_pairs(row as int, left@[row as int], right@);
        match index.find(left[row], Ghost(right@)) {
            Some(list) => {
                let mut k: usize = 0;
                assert(before + more.take(0) =~= before);
                while k < list.len()
                    invariant
                        k <= list.len(),
                        pairs_of(pairs@) == before + more.take(k as int),
                    decreases list.len() - k,
                {
                    let ghost now = pairs_of(pairs@);
                    let pair = JoinRowPair::new(row, list[k]);
                    pairs.push(pair);
                    assert(pairs_of(pairs@) =~= now.push(pair@));
                    assert(more.take(k + 1) =~= more.take(k as int).push(more[k as int]));
                    assert(pairs_of(pairs@) =~= before + more.take(k + 1));
                    k = k + 1;
                }
                assert(more.take(list@.len() as int) =~= more);
            },
            None => {
                assert(before + more =~= before);
            },
        }
        row = row + 1;
    }
    Ok(pairs)
}

/// Joins two nullable columns by equality, and keeps left rows without a match.
///
/// NULL matches nothing, not even NULL. A left row without a match is returned once, without
/// a right row. Pairs stand in the order of their left rows, and then of their right rows.
/// The size of the output is checked before any pair is made.
#[verifier::loop_isolation(false)]
pub fn left_outer_equi_join_nullable_i64(
    left: &[Option<i64>],
    right: &[Option<i64>],
    limits: JoinLimits,
) -> (r: Result<Vec<LeftOuterJoinRowPair>, JoinError>)
    ensures
        match r {
            Ok(pairs) => limited(
                left@.len(),
                right@.len(),
                limits,
                outer_join(left@, right@, left@.len() as int),
            ) == Ok::<_, JoinError>(outer_pairs_of(pairs@)),
            Err(e) => limited(
                left@.len(),
                right@.len(),
                limits,
                outer_join(left@, right@, left@.len() as int),
            ) == Err::<Seq<(usize, Option<usize>)>, _>(e),
        },
{
    if let Some(e) = validate_input_limits(left.len(), right.len(), limits) {
        return Err(e);
    }
    let index = RowIndex::new(right);
    let count = match count_left_outer_output_pairs(left, &index, limits, Ghost(right@)) {
        Some(n) => n,
        None => return Err(output_error(limits)),
    };
    let mut pairs: Vec<LeftOuterJoinRowPair> = Vec::with_capacity(count);
    assert(outer_pairs_of(pairs@) =~= Seq::<(usize, Option<usize>)>::empty());
    let mut row: usize = 0;
    while row < left.len()
        invariant
            row <= left.len(),
            outer_pairs_of(pairs@) == outer_join(left@, right@, row as int),
        decreases left.len() - row,
    {
        let ghost before = outer_pairs_of(pairs@);
        let ghost more = outer_pairs(row as int, left@[row as int], right@);
        match index.find(left[row], Ghost(right@)) {
            Some(list) => {
                let mut k: usize = 0;
                assert(before + more.take(0) =~= before);
                while k < list.len()
                    invariant
                        k <= list.len(),
                        outer_pairs_of(pairs@) == before + more.take(k as int),
                    decreases list.len() - k,
                {
                    let ghost now = outer_pairs_of(pairs@);
                    let pair = LeftOuterJoinRowPair::new(row, Some(list[k]));
                    pairs.push(pair);
                    assert(outer_pairs_of(pairs@) =~= now.push(pair@));
                    assert(more.take(k + 1) =~= more.take(k as int).push(more[k as int]));
                    assert(outer_pairs_of(pairs@) =~= before + more.take(k + 1));
                    k = k + 1;
                }
                assert(more.take(list@.len() as int) =~= more);
            },
            None => {
                let pair = LeftOuterJoinRowPair::new(row, None);
                pairs.push(pair);
                assert(outer_pairs_of(pairs@) =~= before + more);
            },
        }
        row = row + 1;
    }
    Ok(pairs)
}

proof fn rows_with_are_exact(column: Seq<Option<i64>>, value: i64, n: int)
    requires
        0 <= n <= column.len() <= usize::MAX,
    ensures
        forall|k: int|
            0 <= k < rows_with(column, value, n).len() ==> #[trigger] rows_with(column, value, n)[k] < n
                && column[rows_with(column, value, n)[k] as int] == Some(value),
        forall|row: int|
            0 <= row < n && column[row] == Some(value) ==> rows_with(column, value, n).contains(
                #[trigger] (row as usize),
            ),
        forall|j: int, k: int|
            #![trigger rows_with(column, value, n)[j], rows_with(column, value, n)[k]]
            0 <= j < k < rows_with(column, value, n).len() ==> rows_with(column, value, n)[j]
                < rows_with(column, value, n)[k],
    decreases n,
{
    if n > 0 {
        rows_with_are_exact(column, value, n - 1);
        let before = rows_with(column, value, n - 1);
        let after = rows_with(column, value, n);
        assert forall|row: int| 0 <= row < n && column[row] == Some(value) implies after.contains(
            #[trigger] (row as usize),
        ) by {
            if row == n - 1 {
                assert(after[before.len() as int] == row);
            } else {
                assert(before.contains(row as usize));
                let k = choose|k: int| 0 <= k < before.len() && before[k] == row as usize;
                assert(after[k] == row as usize);
            }
        }
    }
}

/// Whether one pair stands before another: by left row, and then by right row.
pub open spec fn pair_before(a: (usize, usize), b: (usize, usize)) -> bool {
    a.0 < b.0 || (a.0 == b.0 && a.1 < b.1)
}

/// An inner join holds the pairs of rows that have one value that is not NULL, and no others,
/// in the order of their left rows and then of their right rows.
pub proof fn inner_join_is_exact(left: Seq<Option<i64>>, right: Seq<Option<i64>>, n: int)
    requires
        0 <= n <= left.len() <= usize::MAX,
        right.len() <= usize::MAX,
    ensures
        forall|i: usize, j: usize| #[trigger]
            inner_join(left, right, n).contains((i, j)) <==> i < n && j < right.len() && left[i as int]
                is Some && left[i as int] == right[j as int],
        forall|a: int, b: int|
            #![trigger inner_join(left, right, n)[a], inner_join(left, right, n)[b]]
            0 <= a < b < inner_join(left, right, n).len() ==> pair_before(
                inner_join(left, right, n)[a],
                inner_join(left, right, n)[b],
            ),
    decreases n,
{
    if n > 0 {
        inner_join_is_exact(left, right, n - 1);
        let before = inner_join(left, right, n - 1);
        let more = inner_pairs(n - 1, left[n - 1], right);
        let after = inner_join(left, right, n);
        let list = matching(left[n - 1], right);
        if left[n - 1] is Some {
            rows_with_are_exact(right, left[n - 1].unwrap(), right.len() as int);
        }
        assert forall|i: usize, j: usize| #[trigger] after.contains((i, j)) <==> (i < n && j
            < right.len() && left[i as int] is Some && left[i as int] == right[j as int]) by {
            if after.contains((i, j)) {
                let k = choose|k: int| 0 <= k < after.len() && after[k] == (i, j);
                if k < before.len() {
                    assert(before[k] == (i, j));
                    assert(before.contains((i, j)));
                } else {
                    assert(more[k - before.len()] == (i, j));
                    assert(list[k - before.len()] == j);
                }
            }
            if i < n && j < right.len() && left[i as int] is Some && left[i as int] == right[j as int] {
                if i < n - 1 {
                    assert(before.contains((i, j)));
                    let k = choose|k: int| 0 <= k < before.len() && before[k] == (i, j);
                    assert(after[k] == (i, j));
                } else {
                    assert(list.contains((j as int) as usize));
                    let k = choose|k: int| 0 <= k < list.len() && list[k] == j;
                    assert(more[k] == (i, j));
                    assert(after[before.len() + k] == (i, j));
                }
            }
        }
        assert forall|a: int, b: int|
            #![trigger after[a], after[b]]
            0 <= a < b < after.len() implies pair_before(after[a], after[b]) by {
            if b < before.len() {
                assert(before[a] == after[a] && before[b] == after[b]);
            } else if a < before.len() {
                assert(before.contains((before[a].0, before[a].1)));
                assert(more[b - before.len()] == after[b]);
            } else {
                assert(more[a - before.len()] == after[a] && more[b - before.len()] == after[b]);
                assert(list[a - before.len()] < list[b - before.len()]);
            }
        }
    }
}

/// The pairs with a right row.
pub open spec fn with_right(pairs: Seq<(usize, Option<usize>)>) -> Seq<(usize, usize)>
    decreases pairs.len(),
{
    if pairs.len() == 0 {
        Seq::empty()
    } else {
        match pairs.last().1 {
            Some(right) => with_right(pairs.drop_last()).push((pairs.last().0, right)),
            None => with_right(pairs.drop_last()),
        }
    }
}

proof fn with_right_adds(a: Seq<(usize, Option<usize>)>, b: Seq<(usize, Option<usize>)>)
    ensures
        with_right(a + b) == with_right(a) + with_right(b),
    decreases b.len(),
{
    if b.len() == 0 {
        assert(a + b =~= a);
        assert(with_right(a) + with_right(b) =~= with_right(a));
    } else {
        with_right_adds(a, b.drop_last());
        assert((a + b).drop_last() =~= a + b.drop_last());
        assert(with_right(a + b) =~= with_right(a) + with_right(b));
    }
}

proof fn matched_pairs(left_row: usize, list: Seq<usize>, pairs: Seq<(usize, Option<usize>)>)
    requires
        pairs == Seq::new(list.len(), |k: int| (left_row, Some(list[k]))),
    ensures
        with_right(pairs) == Seq::new(list.len(), |k: int| (left_row, list[k])),
    decreases list.len(),
{
    if list.len() > 0 {
        let first = list.drop_last();
        assert(pairs.drop_last() =~= Seq::new(first.len(), |k: int| (left_row, Some(first[k]))));
        matched_pairs(left_row, first, pairs.drop_last());
    }
    assert(with_right(pairs) =~= Seq::new(list.len(), |k: int| (left_row, list[k])));
}

/// A left outer join is the inner join together with one pair without a right row for each
/// left row that the inner join leaves out.
pub proof fn outer_join_extends_inner(left: Seq<Option<i64>>, right: Seq<Option<i64>>, n: int)
    requires
        0 <= n <= left.len() <= usize::MAX,
    ensures
        with_right(outer_join(left, right, n)) == inner_join(left, right, n),
        forall|i: usize| #[trigger]
            outer_join(left, right, n).contains((i, None)) <==> i < n && matching(
                left[i as int],
                right,
            ).len() == 0,
    decreases n,
{
    if n > 0 {
        outer_join_extends_inner(left, right, n - 1);
        let before = outer_join(left, right, n - 1);
        let more = outer_pairs(n - 1, left[n - 1], right);
        let after = outer_join(left, right, n);
        let list = matching(left[n - 1], right);
        with_right_adds(before, more);
        if list.len() == 0 {
            assert(with_right(more) =~= Seq::<(usize, usize)>::empty()) by {
                reveal_with_fuel(with_right, 2);
                assert(more.drop_last() =~= Seq::<(usize, Option<usize>)>::empty());
            }
            assert(with_right(after) =~= inner_join(left, right, n));
        } else {
            matched_pairs((n - 1) as usize, list, more);
            assert(with_right(more) =~= inner_pairs(n - 1, left[n - 1], right));
        }
        assert forall|i: usize| #[trigger] after.contains((i, None)) <==> (i < n && matching(
            left[i as int],
            right,
        ).len() == 0) by {
            if after.contains((i, None)) {
                let k = choose|k: int| 0 <= k < after.len() && after[k] == (i, None::<usize>);
                if k < before.len() {
                    assert(before[k] == (i, None::<usize>));
                    assert(before.contains((i, None)));
                } else {
                    assert(more[k - before.len()] == (i, None::<usize>));
                }
            }
            if i < n && matching(left[i as int], right).len() == 0 {
                if i < n - 1 {
                    assert(before.contains((i, None)));
                    let k = choose|k: int| 0 <= k < before.len() && before[k] == (i, None::<usize>);
                    assert(after[k] == (i, None::<usize>));
                } else {
                    assert(more[0] == (i, None::<usize>));
                    assert(after[before.len() as int] == (i, None::<usize>));
                }
            }
        }
    } else {
        assert(with_right(outer_join(left, right, n)) =~= inner_join(left, right, n));
    }
}

} // verus!
