//! Predicates over batches.

use vstd::prelude::*;
use crate::expression::operators::comparison;
use crate::float::{compare_floats, compare_int_float};
use crate::kernels::batch::{missing_column, BatchColumn, BatchType, KernelError, KernelFault, RecordBatch, SelectionMask};
use crate::bytes::{text_bytes, utf8};
use crate::kernels::controlled::{chunk_questions, differ_between, questions, StringComparison, STRING_COMPARISON_CHUNK_BYTES};
use crate::text::{order_bool, order_i64, order_text, text_order, Order};
use crate::types::{Datum, Value};

verus! {

/// Comparison operators.
#[derive(Clone, Copy, Debug, PartialEq, Eq, Structural)]
pub enum ComparisonOp {
    Eq,
    NotEq,
    Less,
    LessEq,
    Greater,
    GreaterEq,
}

impl ComparisonOp {
    /// Whether the operator holds of operands in this order. Operands without an order are
    /// only unequal.
    pub open spec fn holds(self, order: Option<Order>) -> bool {
        match self {
            ComparisonOp::Eq => order == Some(Order::Equal),
            ComparisonOp::NotEq => order != Some(Order::Equal),
            ComparisonOp::Less => order == Some(Order::Less),
            ComparisonOp::LessEq => order == Some(Order::Less) || order == Some(Order::Equal),
            ComparisonOp::Greater => order == Some(Order::Greater),
            ComparisonOp::GreaterEq => order == Some(Order::Greater) || order == Some(Order::Equal),
        }
    }

    /// Decides whether the operator holds of operands in this order.
    pub fn evaluate_optional_ordering(self, order: Option<Order>) -> (r: bool)
        ensures
            r == self.holds(order),
    {
        let less = matches!(order, Some(Order::Less));
        let equal = matches!(order, Some(Order::Equal));
        let greater = matches!(order, Some(Order::Greater));
        match self {
            ComparisonOp::Eq => equal,
            ComparisonOp::NotEq => !equal,
            ComparisonOp::Less => less,
            ComparisonOp::LessEq => less || equal,
            ComparisonOp::Greater => greater,
            ComparisonOp::GreaterEq => greater || equal,
        }
    }
}

/// Whether a comparison holds of two values. It holds of no NULL.
pub open spec fn passes(op: ComparisonOp, a: Datum, b: Datum) -> bool {
    !(a is Null) && !(b is Null) && (comparison(a, b) matches Some(order) && op.holds(order))
}

fn passes_values(op: ComparisonOp, a: &Value, b: &Value) -> (r: bool)
    ensures
        r == passes(op, a@, b@),
{
    let order = match (a, b) {
        (Value::Int64(x), Value::Int64(y)) => Some(order_i64(*x, *y)),
        (Value::Int64(x), Value::Float64(y)) => compare_int_float(*x, *y),
        (Value::Float64(x), Value::Int64(y)) => match compare_int_float(*y, *x) {
            Some(order) => Some(order.reverse()),
            None => None,
        },
        (Value::Float64(x), Value::Float64(y)) => compare_floats(*x, *y),
        (Value::Bool(x), Value::Bool(y)) => Some(order_bool(*x, *y)),
        (Value::String(x), Value::String(y)) => Some(order_text(x.as_str(), y.as_str())),
        _ => return false,
    };
    op.evaluate_optional_ordering(order)
}

/// The selected rows of a batch whose value compares with another.
pub open spec fn rows_passing(chosen: Seq<bool>, column: BatchColumn, op: ComparisonOp, value: Datum) -> Seq<
    bool,
> {
    Seq::new(chosen.len(), |r: int| chosen[r] && passes(op, column.cell(r), value))
}

/// The result of comparing a column of some type with a value.
pub open spec fn comparison_mask(
    batch: RecordBatch,
    column: usize,
    expected: BatchType,
    op: ComparisonOp,
    value: Datum,
) -> Result<Seq<bool>, KernelFault> {
    if column >= batch.parts().len() {
        Err(missing_column(column, batch.parts().len()))
    } else if batch.parts()[column as int].kind() != expected {
        Err(
            KernelFault::BatchTypeMismatch {
                column,
                expected: expected.text(),
                actual: batch.parts()[column as int].kind().text(),
            },
        )
    } else {
        Ok(rows_passing(batch.chosen(), batch.parts()[column as int], op, value))
    }
}

/// The content of a mask.
pub open spec fn masked(r: Result<SelectionMask, KernelError>) -> Result<Seq<bool>, KernelFault> {
    match r {
        Ok(mask) => Ok(mask@),
        Err(e) => Err(e@),
    }
}

#[verifier::loop_isolation(false)]
fn compare_typed(
    batch: &RecordBatch,
    column: usize,
    expected: BatchType,
    op: ComparisonOp,
    value: &Value,
) -> (r: Result<SelectionMask, KernelError>)
    requires
        batch.wf(),
    ensures
        masked(r) == comparison_mask(*batch, column, expected, op, value@),
        r matches Ok(mask) ==> mask.wf(),
{
    let array = batch.column(column)?;
    if array.data_type() != expected {
        return Err(
            KernelError::BatchTypeMismatch {
                column,
                expected: expected.name(),
                actual: array.data_type().name(),
            },
        );
    }
    proof {
        batch.columns_have_all_rows();
    }
    let n = batch.len();
    let ghost goal = rows_passing(batch.chosen(), *array, op, value@);
    let mut mask = SelectionMask::none(n);
    let mut row: usize = 0;
    while row < n
        invariant
            row <= n,
            mask.wf(),
            mask@.len() == n,
            forall|k: int| 0 <= k < row ==> #[trigger] mask@[k] == goal[k],
            forall|k: int| row <= k < n ==> !#[trigger] mask@[k],
        decreases n - row,
    {
        if batch.is_selected(row) && array.is_valid(row) && passes_values(
            op,
            &array.value(row),
            value,
        ) {
            mask.set(row);
        }
        row = row + 1;
    }
    assert(mask@ =~= goal);
    Ok(mask)
}

/// Selects the rows whose integer compares with another.
pub fn compare_i64(batch: &RecordBatch, column: usize, op: ComparisonOp, value: i64) -> (r: Result<
    SelectionMask,
    KernelError,
>)
    requires
        batch.wf(),
    ensures
        masked(r) == comparison_mask(*batch, column, BatchType::Int64, op, Datum::Int64(value)),
{
    compare_typed(batch, column, BatchType::Int64, op, &Value::Int64(value))
}

/// Selects the rows whose floating-point value compares with another.
pub fn compare_f64(batch: &RecordBatch, column: usize, op: ComparisonOp, value: u64) -> (r: Result<
    SelectionMask,
    KernelError,
>)
    requires
        batch.wf(),
    ensures
        masked(r) == comparison_mask(*batch, column, BatchType::Float64, op, Datum::Float64(value)),
{
    compare_typed(batch, column, BatchType::Float64, op, &Value::Float64(value))
}

/// Selects the rows whose integer compares with a floating-point value, without rounding.
pub fn compare_i64_f64(batch: &RecordBatch, column: usize, op: ComparisonOp, value: u64) -> (r:
    Result<SelectionMask, KernelError>)
    requires
        batch.wf(),
    ensures
        masked(r) == comparison_mask(*batch, column, BatchType::Int64, op, Datum::Float64(value)),
{
    compare_typed(batch, column, BatchType::Int64, op, &Value::Float64(value))
}

/// Selects the rows whose floating-point value compares with an integer, without rounding.
pub fn compare_f64_i64(batch: &RecordBatch, column: usize, op: ComparisonOp, value: i64) -> (r:
    Result<SelectionMask, KernelError>)
    requires
        batch.wf(),
    ensures
        masked(r) == comparison_mask(*batch, column, BatchType::Float64, op, Datum::Int64(value)),
{
    compare_typed(batch, column, BatchType::Float64, op, &Value::Int64(value))
}

/// Selects the rows whose truth value compares with another.
pub fn compare_bool(batch: &RecordBatch, column: usize, op: ComparisonOp, value: bool) -> (r: Result<
    SelectionMask,
    KernelError,
>)
    requires
        batch.wf(),
    ensures
        masked(r) == comparison_mask(*batch, column, BatchType::Boolean, op, Datum::Bool(value)),
{
    compare_typed(batch, column, BatchType::Boolean, op, &Value::Bool(value))
}

/// Selects the rows whose text compares with another.
pub fn compare_string(batch: &RecordBatch, column: usize, op: ComparisonOp, value: &str) -> (r:
    Result<SelectionMask, KernelError>)
    requires
        batch.wf(),
    ensures
        masked(r) == comparison_mask(*batch, column, BatchType::String, op, Datum::Text(value@)),
{
    compare_typed(batch, column, BatchType::String, op, &Value::String(value.to_owned()))
}

/// Whether answers came from a question whether to go on, one by one.
pub open spec fn answered<C: FnMut() -> Result<(), KernelError>>(
    check: C,
    answers: Seq<Result<(), KernelError>>,
) -> bool {
    forall|i: int| 0 <= i < answers.len() ==> call_ensures(check, (), #[trigger] answers[i])
}

/// Whether the first `n` answers say to go on.
pub open spec fn granted(answers: Seq<Result<(), KernelError>>, n: int) -> bool {
    forall|i: int| 0 <= i < n ==> (#[trigger] answers[i]) is Ok
}

/// Selects the rows whose text compares with another, and asks before each row whether to go
/// on, and before each chunk of a text that was not compared yet. A refusal ends the work with
/// its failure: no question follows it.
#[verifier::loop_isolation(false)]
pub fn compare_string_controlled<C: FnMut() -> Result<(), KernelError>>(
    batch: &RecordBatch,
    column: usize,
    op: ComparisonOp,
    value: &str,
    mut check_cancellation: C,
) -> (r: Result<SelectionMask, KernelError>)
    requires
        batch.wf(),
        call_requires(check_cancellation, ()),
    ensures
        ({
            let stated = comparison_mask(
                *batch,
                column,
                BatchType::String,
                op,
                Datum::Text(value@),
            );
            let asked = questions(*batch, column, value@);
            match r {
                Ok(mask) => {
                    &&& stated == Ok::<_, KernelFault>(mask@)
                    &&& exists|answers: Seq<Result<(), KernelError>>| #[trigger]
                        answered(check_cancellation, answers) && answers.len() == asked && granted(
                            answers,
                            asked as int,
                        )
                },
                Err(e) => {
                    ||| stated == Err::<Seq<bool>, _>(e@)
                    ||| stated is Ok && exists|answers: Seq<Result<(), KernelError>>| #[trigger]
                        answered(check_cancellation, answers) && 0 < answers.len() <= asked
                            && granted(answers, answers.len() - 1) && answers.last() == Err::<
                            (),
                            KernelError,
                        >(e)
                },
            }
        }),
{
    let mut work = StringComparison::begin(batch, column, op, value)?;
    let ghost goal = work.goal();
    let ghost asked = questions(*batch, column, value@);
    let ghost mut answers: Seq<Result<(), KernelError>> = Seq::empty();
    let ghost check = check_cancellation;
    while work.asks()
        invariant
            check_cancellation == check,
            work.wf(),
            work.goal() == goal,
            answers.len() + work.remaining() == asked,
            answered(check, answers),
            granted(answers, answers.len() as int),
        decreases work.remaining(),
    {
        let answer = check_cancellation();
        proof {
            answers = answers.push(answer);
        }
        if let Err(e) = work.answer(answer) {
            assert(answers.last() == Err::<(), KernelError>(e));
            assert(answered(check, answers));
            return Err(e);
        }
    }
    Ok(work.finish())
}

/// Compares two texts, and asks before each chunk of bytes whether to go on. The answers are
/// those that were given.
#[verifier::loop_isolation(false)]
fn compare_strings_controlled<C: FnMut() -> Result<(), KernelError>>(
    left: &str,
    right: &str,
    check: &mut C,
) -> (r: (Result<Order, KernelError>, Ghost<Seq<Result<(), KernelError>>>))
    requires
        call_requires(*old(check), ()),
    ensures
        *final(check) == *old(check),
        answered(*old(check), r.1@),
        ({
            let asked = chunk_questions(utf8(left@), utf8(right@), 0);
            match r.0 {
                Ok(order) => order == text_order(left@, right@) && r.1@.len() == asked && granted(
                    r.1@,
                    asked as int,
                ),
                Err(e) => 0 < r.1@.len() <= asked && granted(r.1@, r.1@.len() - 1) && r.1@.last()
                    == Err::<(), KernelError>(e),
            }
        }),
{
    let a = text_bytes(left);
    let b = text_bytes(right);
    let common = if a.len() < b.len() {
        a.len()
    } else {
        b.len()
    };
    let ghost first = *check;
    let ghost asked = chunk_questions(a@, b@, 0);
    let ghost mut answers: Seq<Result<(), KernelError>> = Seq::empty();
    let mut offset: usize = 0;
    let mut differs = false;
    while offset < common && !differs
        invariant
            *check == first,
            offset <= common,
            answered(first, answers),
            granted(answers, answers.len() as int),
            differs ==> answers.len() == asked,
            !differs ==> answers.len() + chunk_questions(a@, b@, offset as int) == asked,
        decreases common - offset + (if differs { 0int } else { 1 }),
    {
        let answer = check();
        proof {
            answers = answers.push(answer);
        }
        if let Err(e) = answer {
            assert(answers.last() == Err::<(), KernelError>(e));
            return (Err(e), Ghost(answers));
        }
        let end = if common - offset < STRING_COMPARISON_CHUNK_BYTES {
            common
        } else {
            offset + STRING_COMPARISON_CHUNK_BYTES
        };
        let mut i: usize = offset;
        while i < end && a[i] == b[i]
            invariant
                offset <= i <= end <= common,
                forall|k: int| offset <= k < i ==> a[k] == b[k],
            decreases end - i,
        {
            i = i + 1;
        }
        proof {
            assert(i < end ==> a@[i as int] != b@[i as int]);
            assert(differ_between(a@, b@, offset as int, end as int) == (i < end));
        }
        if i < end {
            differs = true;
        } else {
            offset = end;
        }
    }
    (Ok(order_text(left, right)), Ghost(answers))
}

/// The number of questions about the first `n` rows that are selected, where texts are handed
/// over for them: one before each row, and those of comparing its text.
pub open spec fn value_questions(
    chosen: Seq<bool>,
    texts: Seq<Option<&str>>,
    value: Seq<char>,
    n: int,
) -> nat
    decreases n,
{
    if n <= 0 {
        0
    } else {
        let before = value_questions(chosen, texts, value, n - 1);
        match texts[n - 1] {
            _ if !chosen[n - 1] => before,
            None => before + 1,
            Some(text) => before + 1 + chunk_questions(utf8(text@), utf8(value), 0),
        }
    }
}

proof fn questions_grow(
    chosen: Seq<bool>,
    texts: Seq<Option<&str>>,
    text: Option<&str>,
    value: Seq<char>,
    n: int,
)
    requires
        n <= texts.len(),
    ensures
        value_questions(chosen, texts.push(text), value, n) == value_questions(
            chosen,
            texts,
            value,
            n,
        ),
    decreases n,
{
    if n > 0 {
        questions_grow(chosen, texts, text, value, n - 1);
    }
}

/// Whether texts were handed over for the selected rows, one by one.
pub open spec fn handed_over<'a, V: FnMut(usize) -> Option<&'a str>>(
    value_at: V,
    chosen: Seq<bool>,
    texts: Seq<Option<&'a str>>,
) -> bool {
    forall|row: int|
        0 <= row < texts.len() && chosen[row] ==> call_ensures(
            value_at,
            (row as usize,),
            #[trigger] texts[row],
        )
}

/// The selected rows whose text compares with another.
pub open spec fn texts_passing(
    chosen: Seq<bool>,
    texts: Seq<Option<&str>>,
    op: ComparisonOp,
    value: Seq<char>,
) -> Seq<bool> {
    Seq::new(
        chosen.len(),
        |row: int|
            chosen[row] && (texts[row] matches Some(text) && op.holds(
                Some(text_order(text@, value)),
            )),
    )
}

/// Selects the rows whose text compares with another, where the texts of selected rows are
/// handed over one by one. Asks before each row whether to go on, and before each chunk of its
/// text. A refusal ends the work with its failure: no question follows it.
#[verifier::loop_isolation(false)]
pub fn compare_string_values<
    'a,
    V: FnMut(usize) -> Option<&'a str>,
    C: FnMut() -> Result<(), KernelError>,
>(
    selection: &SelectionMask,
    op: ComparisonOp,
    value: &str,
    mut value_at: V,
    mut check_cancellation: C,
) -> (r: Result<SelectionMask, KernelError>)
    requires
        selection.wf(),
        forall|row: usize|
            row < selection@.len() && selection@[row as int] ==> #[trigger] call_requires(
                value_at,
                (row,),
            ),
        call_requires(check_cancellation, ()),
    ensures
        match r {
            Ok(mask) => exists|texts: Seq<Option<&'a str>>, answers: Seq<Result<(), KernelError>>|
                {
                    &&& #[trigger] handed_over(value_at, selection@, texts)
                    &&& #[trigger] answered(check_cancellation, answers)
                    &&& texts.len() == selection@.len()
                    &&& mask@ == texts_passing(selection@, texts, op, value@)
                    &&& answers.len() == value_questions(
                        selection@,
                        texts,
                        value@,
                        texts.len() as int,
                    )
                    &&& granted(answers, answers.len() as int)
                },
            Err(e) => exists|texts: Seq<Option<&'a str>>, answers: Seq<Result<(), KernelError>>|
                {
                    &&& #[trigger] handed_over(value_at, selection@, texts)
                    &&& #[trigger] answered(check_cancellation, answers)
                    &&& texts.len() <= selection@.len()
                    &&& 0 < answers.len() <= value_questions(
                        selection@,
                        texts,
                        value@,
                        texts.len() as int,
                    ) + 1
                    &&& granted(answers, answers.len() - 1)
                    &&& answers.last() == Err::<(), KernelError>(e)
                },
        },
{
    let ghost chosen = selection@;
    let ghost source = value_at;
    let ghost check = check_cancellation;
    let ghost mut texts: Seq<Option<&'a str>> = Seq::empty();
    let ghost mut answers: Seq<Result<(), KernelError>> = Seq::empty();
    let n = selection.len();
    let mut mask = SelectionMask::none(n);
    let mut row: usize = 0;
    while row < n
        invariant
            row <= n,
            value_at == source,
            check_cancellation == check,
            mask.wf(),
            mask@.len() == n,
            texts.len() == row,
            handed_over(source, chosen, texts),
            answered(check, answers),
            granted(answers, answers.len() as int),
            answers.len() == value_questions(chosen, texts, value@, row as int),
            forall|k: int|
                0 <= k < row ==> #[trigger] mask@[k] == (chosen[k] && (texts[k] matches Some(text)
                    && op.holds(Some(text_order(text@, value@))))),
            forall|k: int| row <= k < n ==> !#[trigger] mask@[k],
        decreases n - row,
    {
        let ghost before = texts;
        if selection.get(row) {
            let answer = check_cancellation();
            proof {
                answers = answers.push(answer);
            }
            if let Err(e) = answer {
                assert(answers.last() == Err::<(), KernelError>(e));
                assert(handed_over(source, chosen, texts) && answered(check, answers));
                return Err(e);
            }
            let found = value_at(row);
            proof {
                texts = texts.push(found);
                questions_grow(chosen, before, found, value@, row as int);
            }
            if let Some(text) = found {
                let (compared, Ghost(more)) = compare_strings_controlled(
                    text,
                    value,
                    &mut check_cancellation,
                );
                let ghost through = answers + more;
                match compared {
                    Err(e) => {
                        proof {
                            assert(through.last() == more.last());
                            assert(answered(check, through));
                            assert(handed_over(source, chosen, texts));
                        }
                        return Err(e);
                    },
                    Ok(order) => {
                        proof {
                            answers = through;
                        }
                        if op.evaluate_optional_ordering(Some(order)) {
                            mask.set(row);
                        }
                    },
                }
            }
        } else {
            proof {
                texts = texts.push(None);
                questions_grow(chosen, before, None, value@, row as int);
            }
        }
        row = row + 1;
    }
    proof {
        assert(mask@ =~= texts_passing(chosen, texts, op, value@));
        assert(handed_over(source, chosen, texts) && answered(check, answers));
    }
    Ok(mask)
}

/// The selected rows of a batch whose values in two columns compare.
pub open spec fn columns_mask(batch: RecordBatch, left: usize, op: ComparisonOp, right: usize) -> Result<
    Seq<bool>,
    KernelFault,
> {
    let parts = batch.parts();
    if left >= parts.len() {
        Err(missing_column(left, parts.len()))
    } else if right >= parts.len() {
        Err(missing_column(right, parts.len()))
    } else if parts[left as int].kind() != parts[right as int].kind() {
        Err(
            KernelFault::BatchTypeMismatch {
                column: right,
                expected: parts[left as int].kind().text(),
                actual: parts[right as int].kind().text(),
            },
        )
    } else {
        Ok(
            Seq::new(
                batch.chosen().len(),
                |r: int|
                    batch.chosen()[r] && passes(
                        op,
                        parts[left as int].cell(r),
                        parts[right as int].cell(r),
                    ),
            ),
        )
    }
}

/// Selects the rows whose values in two columns of one type compare.
#[verifier::loop_isolation(false)]
pub fn compare_columns(batch: &RecordBatch, left: usize, op: ComparisonOp, right: usize) -> (r: Result<
    SelectionMask,
    KernelError,
>)
    requires
        batch.wf(),
    ensures
        masked(r) == columns_mask(*batch, left, op, right),
{
    let left_column = batch.column(left)?;
    let right_column = batch.column(right)?;
    if left_column.data_type() != right_column.data_type() {
        return Err(
            KernelError::BatchTypeMismatch {
                column: right,
                expected: left_column.data_type().name(),
                actual: right_column.data_type().name(),
            },
        );
    }
    proof {
        batch.columns_have_all_rows();
    }
    let n = batch.len();
    let ghost goal = columns_mask(*batch, left, op, right)->Ok_0;
    let mut mask = SelectionMask::none(n);
    let mut row: usize = 0;
    while row < n
        invariant
            row <= n,
            mask.wf(),
            mask@.len() == n,
            forall|k: int| 0 <= k < row ==> #[trigger] mask@[k] == goal[k],
            forall|k: int| row <= k < n ==> !#[trigger] mask@[k],
        decreases n - row,
    {
        if batch.is_selected(row) && left_column.is_valid(row) && right_column.is_valid(row)
            && passes_values(op, &left_column.value(row), &right_column.value(row)) {
            mask.set(row);
        }
        row = row + 1;
    }
    assert(mask@ =~= goal);
    Ok(mask)
}

/// The selected rows of a batch whose value is NULL, or is not.
pub open spec fn nullness_mask(batch: RecordBatch, column: usize, null: bool) -> Result<
    Seq<bool>,
    KernelFault,
> {
    if column >= batch.parts().len() {
        Err(missing_column(column, batch.parts().len()))
    } else {
        Ok(
            Seq::new(
                batch.chosen().len(),
                |r: int| batch.chosen()[r] && (batch.parts()[column as int].cell(r) is Null) == null,
            ),
        )
    }
}

#[verifier::loop_isolation(false)]
fn select_nullness(batch: &RecordBatch, column: usize, null: bool) -> (r: Result<
    SelectionMask,
    KernelError,
>)
    requires
        batch.wf(),
    ensures
        masked(r) == nullness_mask(*batch, column, null),
{
    let array = batch.column(column)?;
    proof {
        batch.columns_have_all_rows();
    }
    let n = batch.len();
    let ghost goal = nullness_mask(*batch, column, null)->Ok_0;
    let mut mask = SelectionMask::none(n);
    let mut row: usize = 0;
    while row < n
        invariant
            row <= n,
            mask.wf(),
            mask@.len() == n,
            forall|k: int| 0 <= k < row ==> #[trigger] mask@[k] == goal[k],
            forall|k: int| row <= k < n ==> !#[trigger] mask@[k],
        decreases n - row,
    {
        if batch.is_selected(row) && array.is_valid(row) != null {
            mask.set(row);
        }
        row = row + 1;
    }
    assert(mask@ =~= goal);
    Ok(mask)
}

/// Selects the rows whose value is NULL.
pub fn is_null(batch: &RecordBatch, column: usize) -> (r: Result<SelectionMask, KernelError>)
    requires
        batch.wf(),
    ensures
        masked(r) == nullness_mask(*batch, column, true),
{
    select_nullness(batch, column, true)
}

/// Selects the rows whose value is not NULL.
pub fn is_not_null(batch: &RecordBatch, column: usize) -> (r: Result<SelectionMask, KernelError>)
    requires
        batch.wf(),
    ensures
        masked(r) == nullness_mask(*batch, column, false),
{
    select_nullness(batch, column, false)
}

/// Predicates select only rows that were selected; each of them is NULL or is not; and of a
/// row that is not NULL a comparison or its opposite holds.
pub proof fn predicates_split_the_selection(
    batch: RecordBatch,
    column: usize,
    value: i64,
    row: int,
)
    requires
        column < batch.parts().len(),
        batch.parts()[column as int].kind() == BatchType::Int64,
        0 <= row < batch.chosen().len(),
    ensures
        ({
            let null = nullness_mask(batch, column, true)->Ok_0[row];
            let known = nullness_mask(batch, column, false)->Ok_0[row];
            let d = Datum::Int64(value);
            let equal = comparison_mask(batch, column, BatchType::Int64, ComparisonOp::Eq, d)->Ok_0[row];
            let unequal = comparison_mask(
                batch,
                column,
                BatchType::Int64,
                ComparisonOp::NotEq,
                d,
            )->Ok_0[row];
            let less = comparison_mask(batch, column, BatchType::Int64, ComparisonOp::Less, d)->Ok_0[row];
            let not_less = comparison_mask(
                batch,
                column,
                BatchType::Int64,
                ComparisonOp::GreaterEq,
                d,
            )->Ok_0[row];
            &&& (null || known) == batch.chosen()[row]
            &&& !(null && known)
            &&& (equal || unequal) == known
            &&& !(equal && unequal)
            &&& (less || not_less) == known
            &&& !(less && not_less)
        }),
{
}

} // verus!
