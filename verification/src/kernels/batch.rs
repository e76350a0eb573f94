//! Batches of nullable columns with a selection of rows.

use vstd::prelude::*;
use crate::types::{Datum, Value};

verus! {

/// A failure of a kernel.
#[derive(Debug, PartialEq, Eq)]
pub enum KernelError {
    /// There is no such column.
    ColumnOutOfRange { column: usize, columns: usize },
    /// A column has another type.
    BatchTypeMismatch { column: usize, expected: &'static str, actual: &'static str },
    /// A number is out of range.
    ArithmeticOverflow { aggregate: &'static str },
    /// An aggregate does not take values of that type.
    UnsupportedAggregate { aggregate: &'static str, data_type: &'static str },
    /// An aggregate is not complete.
    InvalidAggregate { aggregate: &'static str, reason: &'static str },
    /// A capacity is out of range.
    InvalidCapacity { capacity: usize },
    /// There are more groups than allowed.
    GroupLimitExceeded { max_groups: usize },
    /// More memory is needed than allowed.
    MemoryLimitExceeded { operator: &'static str, required: usize, limit: usize },
    /// The work was cancelled.
    Cancelled,
}

/// The content of a failure.
pub enum KernelFault {
    ColumnOutOfRange { column: usize, columns: usize },
    BatchTypeMismatch { column: usize, expected: Seq<char>, actual: Seq<char> },
    ArithmeticOverflow { aggregate: Seq<char> },
    UnsupportedAggregate { aggregate: Seq<char>, data_type: Seq<char> },
    InvalidAggregate { aggregate: Seq<char>, reason: Seq<char> },
    InvalidCapacity { capacity: usize },
    GroupLimitExceeded { max_groups: usize },
    MemoryLimitExceeded { operator: Seq<char>, required: usize, limit: usize },
    Cancelled,
}

impl View for KernelError {
    type V = KernelFault;

    open spec fn view(&self) -> KernelFault {
        match *self {
            KernelError::ColumnOutOfRange { column, columns } => KernelFault::ColumnOutOfRange {
                column,
                columns,
            },
            KernelError::BatchTypeMismatch { column, expected, actual } => {
                KernelFault::BatchTypeMismatch { column, expected: expected@, actual: actual@ }
            },
            KernelError::ArithmeticOverflow { aggregate } => KernelFault::ArithmeticOverflow {
                aggregate: aggregate@,
            },
            KernelError::UnsupportedAggregate { aggregate, data_type } => {
                KernelFault::UnsupportedAggregate {
                    aggregate: aggregate@,
                    data_type: data_type@,
                }
            },
            KernelError::InvalidAggregate { aggregate, reason } => KernelFault::InvalidAggregate {
                aggregate: aggregate@,
                reason: reason@,
            },
            KernelError::InvalidCapacity { capacity } => KernelFault::InvalidCapacity { capacity },
            KernelError::GroupLimitExceeded { max_groups } => KernelFault::GroupLimitExceeded {
                max_groups,
            },
            KernelError::MemoryLimitExceeded { operator, required, limit } => {
                KernelFault::MemoryLimitExceeded { operator: operator@, required, limit }
            },
            KernelError::Cancelled => KernelFault::Cancelled,
        }
    }
}

/// A nullable column. Floating-point values are held as their bit patterns.
#[derive(Debug)]
pub enum BatchColumn {
    Int64(Vec<Option<i64>>),
    Float64(Vec<Option<u64>>),
    Boolean(Vec<Option<bool>>),
    String(Vec<Option<String>>),
}

/// Types of columns.
#[derive(Clone, Copy, Debug, PartialEq, Eq, Structural)]
pub enum BatchType {
    Int64,
    Float64,
    Boolean,
    String,
}

impl BatchType {
    /// The name of the type.
    pub open spec fn text(self) -> Seq<char> {
        match self {
            BatchType::Int64 => "Int64"@,
            BatchType::Float64 => "Float64"@,
            BatchType::Boolean => "Boolean"@,
            BatchType::String => "String"@,
        }
    }

    /// The name of the type.
    pub fn name(self) -> (s: &'static str)
        ensures
            s@ == self.text(),
    {
        match self {
            BatchType::Int64 => "Int64",
            BatchType::Float64 => "Float64",
            BatchType::Boolean => "Boolean",
            BatchType::String => "String",
        }
    }
}

impl BatchColumn {
    /// The number of rows.
    pub open spec fn height(self) -> nat {
        match self {
            BatchColumn::Int64(values) => values@.len(),
            BatchColumn::Float64(values) => values@.len(),
            BatchColumn::Boolean(values) => values@.len(),
            BatchColumn::String(values) => values@.len(),
        }
    }

    /// The type of the values.
    pub open spec fn kind(self) -> BatchType {
        match self {
            BatchColumn::Int64(_) => BatchType::Int64,
            BatchColumn::Float64(_) => BatchType::Float64,
            BatchColumn::Boolean(_) => BatchType::Boolean,
            BatchColumn::String(_) => BatchType::String,
        }
    }

    /// The value of a row.
    pub open spec fn cell(self, row: int) -> Datum {
        match self {
            BatchColumn::Int64(values) => match values@[row] {
                Some(x) => Datum::Int64(x),
                None => Datum::Null,
            },
            BatchColumn::Float64(values) => match values@[row] {
                Some(x) => Datum::Float64(x),
                None => Datum::Null,
            },
            BatchColumn::Boolean(values) => match values@[row] {
                Some(x) => Datum::Bool(x),
                None => Datum::Null,
            },
            BatchColumn::String(values) => match values@[row] {
                Some(x) => Datum::Text(x@),
                None => Datum::Null,
            },
        }
    }

    /// The number of rows.
    pub fn len(&self) -> (n: usize)
        ensures
            n == self.height(),
    {
        match self {
            BatchColumn::Int64(values) => values.len(),
            BatchColumn::Float64(values) => values.len(),
            BatchColumn::Boolean(values) => values.len(),
            BatchColumn::String(values) => values.len(),
        }
    }

    /// The type of the values.
    pub fn data_type(&self) -> (t: BatchType)
        ensures
            t == self.kind(),
    {
        match self {
            BatchColumn::Int64(_) => BatchType::Int64,
            BatchColumn::Float64(_) => BatchType::Float64,
            BatchColumn::Boolean(_) => BatchType::Boolean,
            BatchColumn::String(_) => BatchType::String,
        }
    }

    /// Whether the value of a row is not NULL.
    pub fn is_valid(&self, row: usize) -> (r: bool)
        requires
            row < self.height(),
        ensures
            r == !(self.cell(row as int) is Null),
    {
        match self {
            BatchColumn::Int64(values) => values[row].is_some(),
            BatchColumn::Float64(values) => values[row].is_some(),
            BatchColumn::Boolean(values) => values[row].is_some(),
            BatchColumn::String(values) => values[row].is_some(),
        }
    }

    /// The value of a row.
    pub fn value(&self, row: usize) -> (value: Value)
        requires
            row < self.height(),
        ensures
            value@ == self.cell(row as int),
    {
        match self {
            BatchColumn::Int64(values) => match values[row] {
                Some(x) => Value::Int64(x),
                None => Value::Null,
            },
            BatchColumn::Float64(values) => match values[row] {
                Some(x) => Value::Float64(x),
                None => Value::Null,
            },
            BatchColumn::Boolean(values) => match values[row] {
                Some(x) => Value::Bool(x),
                None => Value::Null,
            },
            BatchColumn::String(values) => match &values[row] {
                Some(x) => Value::String(x.clone()),
                None => Value::Null,
            },
        }
    }
}

/// The bit of a word at a place.
pub open spec fn bit(word: u64, k: u64) -> bool {
    (word >> k) & 1 == 1
}

/// A selection of rows, one bit each.
#[derive(Debug)]
pub struct SelectionMask {
    words: Vec<u64>,
    len: usize,
}

impl View for SelectionMask {
    type V = Seq<bool>;

    closed spec fn view(&self) -> Seq<bool> {
        Seq::new(self.len as nat, |i: int| bit(self.words@[i / 64], (i % 64) as u64))
    }
}

proof fn set_bit(word: u64, k: u64, j: u64)
    by (bit_vector)
    requires
        k < 64,
        j < 64,
    ensures
        ((word | (1u64 << k)) >> j) & 1 == 1 <==> (j == k || (word >> j) & 1 == 1),
{
}

proof fn empty_word(j: u64)
    by (bit_vector)
    requires
        j < 64,
    ensures
        (0u64 >> j) & 1 == 0,
{
}

impl SelectionMask {
    /// Whether there is a word for every row.
    pub closed spec fn wf(&self) -> bool {
        self.words@.len() * 64 >= self.len
    }

    /// A selection of no rows.
    pub fn none(len: usize) -> (mask: SelectionMask)
        ensures
            mask.wf(),
            mask@ == Seq::new(len as nat, |i: int| false),
    {
        let count = len / 64 + 1;
        let mut words: Vec<u64> = Vec::new();
        while words.len() < count
            invariant
                words@.len() <= count,
                forall|k: int| 0 <= k < words@.len() ==> #[trigger] words@[k] == 0,
            decreases count - words.len(),
        {
            words.push(0);
        }
        let mask = SelectionMask { words, len };
        assert forall|i: int| 0 <= i < len implies !#[trigger] mask@[i] by {
            empty_word((i % 64) as u64);
        }
        assert(mask@ =~= Seq::new(len as nat, |i: int| false));
        mask
    }

    /// The number of rows.
    pub fn len(&self) -> (n: usize)
        ensures
            n == self@.len(),
    {
        self.len
    }

    /// Whether a row is selected.
    pub fn get(&self, row: usize) -> (r: bool)
        requires
            self.wf(),
            row < self@.len(),
        ensures
            r == self@[row as int],
    {
        let word = self.words[row / 64];
        let k = (row % 64) as u64;
        (word >> k) & 1 == 1
    }

    /// Selects a row.
    pub fn set(&mut self, row: usize)
        requires
            old(self).wf(),
            row < old(self)@.len(),
        ensures
            final(self).wf(),
            final(self)@ == old(self)@.update(row as int, true),
    {
        let ghost before = self@;
        let ghost words = self.words@;
        let at = row / 64;
        let k = (row % 64) as u64;
        let word = self.words[at] | (1u64 << k);
        self.words.set(at, word);
        assert forall|i: int| 0 <= i < before.len() implies #[trigger] self@[i] == before.update(
            row as int,
            true,
        )[i] by {
            let j = (i % 64) as u64;
            if i / 64 == at {
                set_bit(words[at as int], k, j);
                assert(j == k <==> i == row);
            }
        }
        assert(self@ =~= before.update(row as int, true));
    }

    /// The selection of the rows that a list says.
    pub fn of(rows: &Vec<bool>) -> (mask: SelectionMask)
        ensures
            mask.wf(),
            mask@ == rows@,
    {
        let mut mask = SelectionMask::none(rows.len());
        let mut i: usize = 0;
        while i < rows.len()
            invariant
                i <= rows.len(),
                mask.wf(),
                mask@.len() == rows@.len(),
                forall|k: int| 0 <= k < i ==> #[trigger] mask@[k] == rows@[k],
                forall|k: int| i <= k < rows@.len() ==> !#[trigger] mask@[k],
            decreases rows.len() - i,
        {
            if rows[i] {
                mask.set(i);
            }
            i = i + 1;
        }
        assert(mask@ =~= rows@);
        mask
    }
}

/// Columns of one height, and the selected rows of them.
#[derive(Debug)]
pub struct RecordBatch {
    columns: Vec<BatchColumn>,
    selection: SelectionMask,
}

impl RecordBatch {
    /// The columns.
    pub closed spec fn parts(&self) -> Seq<BatchColumn> {
        self.columns@
    }

    /// For each row whether it is selected.
    pub closed spec fn chosen(&self) -> Seq<bool> {
        self.selection@
    }

    /// Whether all columns have the rows that the selection speaks of.
    pub closed spec fn wf(&self) -> bool {
        &&& self.selection.wf()
        &&& forall|i: int|
            0 <= i < self.columns@.len() ==> (#[trigger] self.columns@[i]).height()
                == self.selection@.len()
    }

    /// The columns of a batch have the rows that its selection speaks of.
    pub proof fn columns_have_all_rows(&self)
        requires
            self.wf(),
        ensures
            forall|i: int|
                0 <= i < self.parts().len() ==> (#[trigger] self.parts()[i]).height()
                    == self.chosen().len(),
    {
    }

    /// Makes a batch of columns that have the rows that the selection speaks of.
    pub fn new(columns: Vec<BatchColumn>, selected: &Vec<bool>) -> (r: Option<RecordBatch>)
        ensures
            match r {
                Some(batch) => batch.wf() && batch.parts() == columns@ && batch.chosen()
                    == selected@,
                None => exists|i: int|
                    0 <= i < columns@.len() && (#[trigger] columns@[i]).height() != selected@.len(),
            },
    {
        let mut i: usize = 0;
        while i < columns.len()
            invariant
                i <= columns.len(),
                forall|k: int| 0 <= k < i ==> (#[trigger] columns@[k]).height() == selected@.len(),
            decreases columns.len() - i,
        {
            if columns[i].len() != selected.len() {
                return None;
            }
            i = i + 1;
        }
        Some(RecordBatch { columns, selection: SelectionMask::of(selected) })
    }

    /// The number of rows.
    pub fn len(&self) -> (n: usize)
        ensures
            n == self.chosen().len(),
    {
        self.selection.len()
    }

    /// Whether a row is selected.
    pub fn is_selected(&self, row: usize) -> (r: bool)
        requires
            self.wf(),
            row < self.chosen().len(),
        ensures
            r == self.chosen()[row as int],
    {
        self.selection.get(row)
    }

    /// The column at a position.
    pub fn column(&self, column: usize) -> (r: Result<&BatchColumn, KernelError>)
        ensures
            match r {
                Ok(c) => column < self.parts().len() && *c == self.parts()[column as int],
                Err(e) => column >= self.parts().len() && e@ == missing_column(
                    column,
                    self.parts().len(),
                ),
            },
    {
        if column < self.columns.len() {
            Ok(&self.columns[column])
        } else {
            Err(KernelError::ColumnOutOfRange { column, columns: self.columns.len() })
        }
    }
}

/// The failure of a column that is not there.
pub open spec fn missing_column(column: usize, columns: nat) -> KernelFault {
    KernelFault::ColumnOutOfRange { column, columns: columns as usize }
}

} // verus!
