//! Comparing the texts of a batch step by step, under the control of a caller who may end the
//! work.

use vstd::prelude::*;
use crate::bytes::{text_bytes, utf8};
use crate::kernels::batch::{BatchColumn, BatchType, KernelError, KernelFault, RecordBatch, SelectionMask};
use crate::kernels::predicate::{comparison_mask, rows_passing, ComparisonOp};
use crate::text::{order_text, same_text, text_order};
use crate::types::Datum;

verus! {

/// How many bytes are compared between two questions whether to go on.
pub const STRING_COMPARISON_CHUNK_BYTES: usize = 65_536;

/// The length of the shorter of two lists of bytes.
pub open spec fn shorter(a: Seq<u8>, b: Seq<u8>) -> int {
    if a.len() < b.len() {
        a.len() as int
    } else {
        b.len() as int
    }
}

/// Where the chunk of bytes at an offset ends.
pub open spec fn chunk_end(common: int, offset: int) -> int {
    if common - offset < STRING_COMPARISON_CHUNK_BYTES {
        common
    } else {
        offset + STRING_COMPARISON_CHUNK_BYTES
    }
}

/// Whether bytes differ between two places.
pub open spec fn differ_between(a: Seq<u8>, b: Seq<u8>, from: int, to: int) -> bool {
    exists|i: int| from <= i < to && a[i] != b[i]
}

/// The number of questions while bytes are compared from an offset on: one before each chunk,
/// up to the first that differs.
pub open spec fn chunk_questions(a: Seq<u8>, b: Seq<u8>, offset: int) -> nat
    decreases shorter(a, b) - offset,
{
    let end = chunk_end(shorter(a, b), offset);
    if !(0 <= offset < shorter(a, b)) {
        0
    } else if differ_between(a, b, offset, end) {
        1
    } else {
        1 + chunk_questions(a, b, end)
    }
}

/// Whether a row is selected and holds a text.
pub open spec fn is_candidate(batch: RecordBatch, column: usize, row: int) -> bool {
    &&& 0 <= row < batch.chosen().len()
    &&& column < batch.parts().len()
    &&& batch.chosen()[row]
    &&& batch.parts()[column as int].cell(row) is Text
}

/// Whether a selected row above holds the text of a row.
pub open spec fn met_before(batch: RecordBatch, column: usize, row: int) -> bool {
    exists|k: int|
        k < row && #[trigger] is_candidate(batch, column, k) && batch.parts()[column as int].cell(k)
            == batch.parts()[column as int].cell(row)
}

/// The number of questions about a row: one before it, and those of comparing its text where
/// the text was not met before.
pub open spec fn row_questions(batch: RecordBatch, column: usize, value: Seq<char>, row: int) -> nat {
    if !is_candidate(batch, column, row) {
        0
    } else if met_before(batch, column, row) {
        1
    } else {
        1 + chunk_questions(
            utf8(batch.parts()[column as int].cell(row)->Text_0),
            utf8(value),
            0,
        )
    }
}

/// The number of questions about the rows from one on.
pub open spec fn questions_from(batch: RecordBatch, column: usize, value: Seq<char>, row: int) -> nat
    decreases batch.chosen().len() - row,
{
    if !(0 <= row < batch.chosen().len()) {
        0
    } else {
        row_questions(batch, column, value, row) + questions_from(batch, column, value, row + 1)
    }
}

/// The number of questions while the texts of a column are compared with another.
pub open spec fn questions(batch: RecordBatch, column: usize, value: Seq<char>) -> nat {
    questions_from(batch, column, value, 0)
}

/// The number of the rows from one on that are selected and hold texts.
pub open spec fn candidates_from(batch: RecordBatch, column: usize, row: int) -> nat
    decreases batch.chosen().len() - row,
{
    if !(0 <= row < batch.chosen().len()) {
        0
    } else if is_candidate(batch, column, row) {
        1 + candidates_from(batch, column, row + 1)
    } else {
        candidates_from(batch, column, row + 1)
    }
}

/// Each selected row that holds a text is asked about at least once, and where there is no
/// such row nothing is asked.
pub proof fn each_candidate_is_asked_about(
    batch: RecordBatch,
    column: usize,
    value: Seq<char>,
    row: int,
)
    ensures
        questions_from(batch, column, value, row) >= candidates_from(batch, column, row),
        candidates_from(batch, column, row) == 0 ==> questions_from(batch, column, value, row) == 0,
    decreases batch.chosen().len() - row,
{
    if 0 <= row < batch.chosen().len() {
        each_candidate_is_asked_about(batch, column, value, row + 1);
    }
}

proof fn rest_is_asked_about_later(
    batch: RecordBatch,
    column: usize,
    value: Seq<char>,
    row: int,
    next: int,
)
    requires
        0 <= row <= next <= batch.chosen().len(),
        forall|k: int| row <= k < next ==> !#[trigger] is_candidate(batch, column, k),
    ensures
        questions_from(batch, column, value, row) == questions_from(batch, column, value, next),
    decreases next - row,
{
    if row < next {
        assert(!is_candidate(batch, column, row));
        rest_is_asked_about_later(batch, column, value, row + 1, next);
    }
}

/// The comparison of the texts of a column with another, between two questions whether to go
/// on.
#[derive(Debug)]
pub struct StringComparison<'a> {
    batch: &'a RecordBatch,
    column: usize,
    values: &'a Vec<Option<String>>,
    op: ComparisonOp,
    value: &'a str,
    value_bytes: Vec<u8>,
    row: usize,
    row_bytes: Vec<u8>,
    offset: Option<usize>,
    known: Vec<(usize, bool)>,
    mask: SelectionMask,
}

/// Whether something is known of a text.
spec fn knows(known: Seq<(usize, bool)>, values: Seq<Option<String>>, text: Seq<char>) -> bool {
    exists|k: int|
        0 <= k < known.len() && values[(#[trigger] known[k]).0 as int].unwrap()@ == text
}

/// Finds what was decided on an equal text.
#[verifier::loop_isolation(false)]
fn decided(known: &Vec<(usize, bool)>, values: &Vec<Option<String>>, text: &str) -> (r: Option<bool>)
    requires
        forall|k: int|
            0 <= k < known.len() ==> (#[trigger] known[k]).0 < values.len()
                && values[known[k].0 as int] is Some,
    ensures
        match r {
            Some(matched) => exists|k: int|
                0 <= k < known.len() && (#[trigger] known[k]).1 == matched
                    && values[known[k].0 as int].unwrap()@ == text@,
            None => !knows(known@, values@, text@),
        },
{
    let mut k: usize = 0;
    while k < known.len()
        invariant
            k <= known.len(),
            forall|j: int|
                0 <= j < k ==> values[(#[trigger] known[j]).0 as int].unwrap()@ != text@,
        decreases known.len() - k,
    {
        let (row, matched) = known[k];
        if let Some(other) = &values[row] {
            if same_text(other.as_str(), text) {
                assert(known[k as int].1 == matched);
                return Some(matched);
            }
        }
        k = k + 1;
    }
    None
}

impl<'a> StringComparison<'a> {
    /// Whether a comparison is in order.
    pub closed spec fn wf(&self) -> bool {
        let n = self.batch.chosen().len();
        let goal = self.goal();
        &&& self.batch.wf()
        &&& self.column < self.batch.parts().len()
        &&& self.batch.parts()[self.column as int] == BatchColumn::String(*self.values)
        &&& self.values@.len() == n
        &&& self.value_bytes@ == utf8(self.value@)
        &&& self.row <= n
        &&& self.row < n ==> is_candidate(*self.batch, self.column, self.row as int)
        &&& self.mask.wf()
        &&& self.mask@.len() == n
        &&& forall|k: int| 0 <= k < self.row ==> #[trigger] self.mask@[k] == goal[k]
        &&& forall|k: int| self.row <= k < n ==> !#[trigger] self.mask@[k]
        &&& self.offset matches Some(offset) ==> {
            &&& self.row < n
            &&& self.row_bytes@ == utf8(self.values@[self.row as int].unwrap()@)
            &&& offset < shorter(self.row_bytes@, self.value_bytes@)
            &&& !met_before(*self.batch, self.column, self.row as int)
        }
        &&& forall|k: int|
            0 <= k < self.known@.len() ==> {
                let (at, matched) = #[trigger] self.known@[k];
                &&& at < self.row
                &&& is_candidate(*self.batch, self.column, at as int)
                &&& matched == self.op.holds(
                    Some(text_order(self.values@[at as int].unwrap()@, self.value@)),
                )
            }
        &&& forall|j: int|
            0 <= j < self.row && #[trigger] is_candidate(*self.batch, self.column, j) ==> knows(
                self.known@,
                self.values@,
                self.values@[j].unwrap()@,
            )
    }

    /// The rows that are to be selected.
    pub closed spec fn goal(&self) -> Seq<bool> {
        rows_passing(
            self.batch.chosen(),
            self.batch.parts()[self.column as int],
            self.op,
            Datum::Text(self.value@),
        )
    }

    /// The number of questions that are still to be answered.
    pub closed spec fn remaining(&self) -> nat {
        match self.offset {
            None => questions_from(*self.batch, self.column, self.value@, self.row as int),
            Some(offset) => chunk_questions(
                self.row_bytes@,
                self.value_bytes@,
                offset as int,
            ) + questions_from(*self.batch, self.column, self.value@, self.row + 1),
        }
    }

    /// Whether two comparisons are of the same texts.
    spec fn same_work(&self, other: &Self) -> bool {
        &&& self.batch == other.batch
        &&& self.column == other.column
        &&& self.values == other.values
        &&& self.op == other.op
        &&& self.value == other.value
    }

    /// Begins to compare the texts of a column with another.
    pub fn begin(batch: &'a RecordBatch, column: usize, op: ComparisonOp, value: &'a str) -> (r: Result<
        StringComparison<'a>,
        KernelError,
    >)
        requires
            batch.wf(),
        ensures
            match r {
                Ok(work) => {
                    &&& work.wf()
                    &&& work.remaining() == questions(*batch, column, value@)
                    &&& comparison_mask(*batch, column, BatchType::String, op, Datum::Text(value@))
                        == Ok::<_, KernelFault>(work.goal())
                },
                Err(e) => comparison_mask(
                    *batch,
                    column,
                    BatchType::String,
                    op,
                    Datum::Text(value@),
                ) == Err::<Seq<bool>, _>(e@),
            },
    {
        let array = batch.column(column)?;
        let values = match array {
            BatchColumn::String(values) => values,
            _ => return Err(
                KernelError::BatchTypeMismatch {
                    column,
                    expected: "String",
                    actual: array.data_type().name(),
                },
            ),
        };
        proof {
            batch.columns_have_all_rows();
        }
        let mut work = StringComparison {
            batch,
            column,
            values,
            op,
            value,
            value_bytes: text_bytes(value),
            row: batch.len(),
            row_bytes: Vec::new(),
            offset: None,
            known: Vec::new(),
            mask: SelectionMask::none(batch.len()),
        };
        work.row = work.candidate_from(0);
        proof {
            let goal = work.goal();
            rest_is_asked_about_later(*batch, column, value@, 0, work.row as int);
            assert forall|k: int| 0 <= k < work.row implies #[trigger] work.mask@[k] == goal[k] by {
                assert(!is_candidate(*batch, column, k));
            }
        }
        Ok(work)
    }

    #[verifier::loop_isolation(false)]
    fn candidate_from(&self, from: usize) -> (row: usize)
        requires
            self.batch.wf(),
            self.column < self.batch.parts().len(),
            self.batch.parts()[self.column as int] == BatchColumn::String(*self.values),
            self.values@.len() == self.batch.chosen().len(),
            from <= self.batch.chosen().len(),
        ensures
            from <= row <= self.batch.chosen().len(),
            row < self.batch.chosen().len() ==> is_candidate(*self.batch, self.column, row as int),
            forall|k: int| from <= k < row ==> !#[trigger] is_candidate(*self.batch, self.column, k),
    {
        let n = self.batch.len();
        let mut row: usize = from;
        while row < n
            invariant
                from <= row <= n,
                forall|k: int|
                    from <= k < row ==> !#[trigger] is_candidate(*self.batch, self.column, k),
            decreases n - row,
        {
            if self.batch.is_selected(row) && self.values[row].is_some() {
                return row;
            }
            row = row + 1;
        }
        row
    }

    /// Whether there is a question left whether to go on.
    pub fn asks(&self) -> (r: bool)
        requires
            self.wf(),
        ensures
            r == (self.remaining() > 0),
    {
        self.row < self.batch.len()
    }

    fn settle(&mut self, matched: bool, fresh: bool)
        requires
            old(self).wf(),
            old(self).row < old(self).batch.chosen().len(),
            matched == old(self).op.holds(
                Some(
                    text_order(old(self).values@[old(self).row as int].unwrap()@, old(self).value@),
                ),
            ),
            !fresh ==> knows(
                old(self).known@,
                old(self).values@,
                old(self).values@[old(self).row as int].unwrap()@,
            ),
        ensures
            final(self).wf(),
            final(self).same_work(old(self)),
            final(self).offset is None,
            final(self).remaining() == questions_from(
                *old(self).batch,
                old(self).column,
                old(self).value@,
                old(self).row + 1,
            ),
    {
        let row = self.row;
        let ghost start = *self;
        let ghost goal = self.goal();
        assert(self.values.len() == self.batch.chosen().len());
        assert(is_candidate(*self.batch, self.column, row as int));
        assert(goal[row as int] == matched);
        if matched {
            self.mask.set(row);
        }
        if fresh {
            self.known.push((row, matched));
            assert(self.known@[start.known@.len() as int] == (row, matched));
        }
        self.offset = None;
        self.row = self.candidate_from(row + 1);
        proof {
            rest_is_asked_about_later(
                *self.batch,
                self.column,
                self.value@,
                row + 1,
                self.row as int,
            );
            assert forall|k: int| 0 <= k < self.row implies #[trigger] self.mask@[k] == goal[k] by {
                if k > row {
                    assert(!is_candidate(*self.batch, self.column, k));
                }
            }
            assert forall|j: int|
                0 <= j < self.row && #[trigger] is_candidate(*self.batch, self.column, j) implies knows(
                self.known@,
                self.values@,
                self.values@[j].unwrap()@,
            ) by {
                if j < row {
                    let text = self.values@[j].unwrap()@;
                    assert(knows(start.known@, self.values@, text));
                    let k = choose|k: int|
                        0 <= k < start.known@.len() && self.values@[(
                        #[trigger] start.known@[k]).0 as int].unwrap()@ == text;
                    assert(self.known@[k] == start.known@[k]);
                } else if fresh {
                    assert(self.known@[start.known@.len() as int].0 == row);
                }
            }
        }
    }

    fn begin_row(&mut self)
        requires
            old(self).wf(),
            old(self).row < old(self).batch.chosen().len(),
            old(self).offset is None,
        ensures
            final(self).wf(),
            final(self).same_work(old(self)),
            final(self).remaining() + 1 == old(self).remaining(),
    {
        let values = self.values;
        let ghost row = self.row as int;
        let ghost cell = self.batch.parts()[self.column as int].cell(row);
        assert(is_candidate(*self.batch, self.column, row));
        if let Some(text) = &values[self.row] {
            assert(cell == Datum::Text(text@));
            match decided(&self.known, values, text.as_str()) {
                Some(matched) => {
                    proof {
                        let k = choose|k: int|
                            0 <= k < self.known.len() && (#[trigger] self.known[k]).1 == matched
                                && values[self.known[k].0 as int].unwrap()@ == text@;
                        let at = self.known@[k].0 as int;
                        assert(is_candidate(*self.batch, self.column, at));
                        assert(self.batch.parts()[self.column as int].cell(at) == cell);
                        assert(met_before(*self.batch, self.column, row));
                    }
                    self.settle(matched, false);
                },
                None => {
                    proof {
                        if met_before(*self.batch, self.column, row) {
                            let k = choose|k: int|
                                k < row && #[trigger] is_candidate(*self.batch, self.column, k)
                                    && self.batch.parts()[self.column as int].cell(k) == cell;
                            assert(values@[k].unwrap()@ == text@);
                            assert(knows(self.known@, values@, values@[k].unwrap()@));
                        }
                    }
                    let bytes = text_bytes(text.as_str());
                    if bytes.len() == 0 || self.value_bytes.len() == 0 {
                        let order = order_text(text.as_str(), self.value);
                        let matched = self.op.evaluate_optional_ordering(Some(order));
                        self.settle(matched, true);
                    } else {
                        self.row_bytes = bytes;
                        self.offset = Some(0);
                    }
                },
            }
        }
    }

    #[verifier::loop_isolation(false)]
    fn compare_chunk(&mut self, offset: usize)
        requires
            old(self).wf(),
            old(self).offset == Some(offset),
        ensures
            final(self).wf(),
            final(self).same_work(old(self)),
            final(self).remaining() + 1 == old(self).remaining(),
    {
        let ghost start = *self;
        let ghost a = self.row_bytes@;
        let ghost b = self.value_bytes@;
        let common = if self.row_bytes.len() < self.value_bytes.len() {
            self.row_bytes.len()
        } else {
            self.value_bytes.len()
        };
        let end = if common - offset < STRING_COMPARISON_CHUNK_BYTES {
            common
        } else {
            offset + STRING_COMPARISON_CHUNK_BYTES
        };
        let mut i: usize = offset;
        while i < end && self.row_bytes[i] == self.value_bytes[i]
            invariant
                *self == start,
                offset <= i <= end <= common,
                forall|k: int| offset <= k < i ==> a[k] == b[k],
            decreases end - i,
        {
            i = i + 1;
        }
        proof {
            assert(i < end ==> a[i as int] != b[i as int]);
            assert(differ_between(a, b, offset as int, end as int) == (i < end));
        }
        assert(end == common || i < end ==> chunk_questions(a, b, offset as int) == 1);
        if i == end && end < common {
            self.offset = Some(end);
            return ;
        }
        let values = self.values;
        if let Some(text) = &values[self.row] {
            let order = order_text(text.as_str(), self.value);
            let matched = self.op.evaluate_optional_ordering(Some(order));
            self.settle(matched, true);
        }
    }

    /// Takes the answer to a question whether to go on. A refusal ends the work with its
    /// failure; another answer leads to the next question.
    pub fn answer(&mut self, answer: Result<(), KernelError>) -> (r: Result<(), KernelError>)
        requires
            old(self).wf(),
            old(self).remaining() > 0,
        ensures
            match answer {
                Ok(_) => {
                    &&& r is Ok
                    &&& final(self).wf()
                    &&& final(self).remaining() + 1 == old(self).remaining()
                    &&& final(self).goal() == old(self).goal()
                },
                Err(e) => r == Err::<(), KernelError>(e),
            },
    {
        match answer {
            Err(e) => Err(e),
            Ok(_) => {
                match self.offset {
                    None => self.begin_row(),
                    Some(offset) => self.compare_chunk(offset),
                }
                Ok(())
            },
        }
    }

    /// The selected rows, once every question is answered.
    pub fn finish(self) -> (mask: SelectionMask)
        requires
            self.wf(),
            self.remaining() == 0,
        ensures
            mask@ == self.goal(),
            mask.wf(),
    {
        assert(self.mask@ =~= self.goal());
        self.mask
    }
}

} // verus!
