//! A table of one column of nullable integers.

use vstd::prelude::*;
use crate::text::{concat3, int_text, usize_text};

verus! {

/// A row that a table refuses.
#[derive(Clone, Copy, Debug, PartialEq, Eq)]
pub enum InsertError {
    /// The column is not nullable.
    NullNotAllowed,
    /// The table is full.
    RowLimitExceeded { max_rows: usize },
}

/// The text of a failure.
pub open spec fn insert_text(e: InsertError) -> Seq<char> {
    match e {
        InsertError::NullNotAllowed => "NULL is not allowed"@,
        InsertError::RowLimitExceeded { max_rows } => "the table holds at most "@ + int_text(
            max_rows as int,
        ) + " rows"@,
    }
}

impl InsertError {
    /// Describes the failure.
    pub fn message(&self) -> (s: String)
        ensures
            s@ == insert_text(*self),
    {
        match self {
            InsertError::NullNotAllowed => "NULL is not allowed".to_owned(),
            InsertError::RowLimitExceeded { max_rows } => concat3(
                "the table holds at most ",
                usize_text(*max_rows).as_str(),
                " rows",
            ),
        }
    }
}

/// A table of one column.
#[derive(Debug)]
pub struct Int64Table {
    column_name: String,
    nullable: bool,
    max_rows: usize,
    values: Vec<Option<i64>>,
}

/// What a row is refused for.
pub open spec fn row_fault(nullable: bool, max_rows: usize, rows: nat, value: Option<i64>) -> Option<
    InsertError,
> {
    if value is None && !nullable {
        Some(InsertError::NullNotAllowed)
    } else if rows >= max_rows {
        Some(InsertError::RowLimitExceeded { max_rows })
    } else {
        None
    }
}

impl Int64Table {
    /// The name of the column.
    pub closed spec fn column(&self) -> Seq<char> {
        self.column_name@
    }

    /// Whether the column may hold NULL.
    pub closed spec fn takes_null(&self) -> bool {
        self.nullable
    }

    /// The number of rows that the table may hold.
    pub closed spec fn capacity(&self) -> usize {
        self.max_rows
    }

    /// The values.
    pub closed spec fn rows(&self) -> Seq<Option<i64>> {
        self.values@
    }

    /// Whether the table holds no more rows than it may, and NULL only where it may.
    pub closed spec fn wf(&self) -> bool {
        &&& self.values@.len() <= self.max_rows
        &&& forall|i: int|
            0 <= i < self.values@.len() ==> (#[trigger] self.values@[i]) is Some || self.nullable
    }

    /// Makes an empty table.
    pub fn new(column_name: &str, nullable: bool, max_rows: usize) -> (table: Int64Table)
        ensures
            table.wf(),
            table.column() == column_name@,
            table.takes_null() == nullable,
            table.capacity() == max_rows,
            table.rows() == Seq::<Option<i64>>::empty(),
    {
        Int64Table { column_name: column_name.to_owned(), nullable, max_rows, values: Vec::new() }
    }

    /// The name of the column.
    pub fn column_name(&self) -> (name: &str)
        ensures
            name@ == self.column(),
    {
        self.column_name.as_str()
    }

    /// The values.
    pub fn values(&self) -> (values: &[Option<i64>])
        ensures
            values@ == self.rows(),
    {
        self.values.as_slice()
    }

    /// Adds a row. A row that is refused leaves the table as it was.
    pub fn append(&mut self, value: Option<i64>) -> (r: Result<(), InsertError>)
        requires
            old(self).wf(),
        ensures
            final(self).wf(),
            final(self).column() == old(self).column(),
            final(self).takes_null() == old(self).takes_null(),
            final(self).capacity() == old(self).capacity(),
            match r {
                Ok(_) => row_fault(
                    old(self).takes_null(),
                    old(self).capacity(),
                    old(self).rows().len(),
                    value,
                ) is None && final(self).rows() == old(self).rows().push(value),
                Err(e) => row_fault(
                    old(self).takes_null(),
                    old(self).capacity(),
                    old(self).rows().len(),
                    value,
                ) == Some(e) && *final(self) == *old(self),
            },
    {
        if value.is_none() && !self.nullable {
            return Err(InsertError::NullNotAllowed);
        }
        if self.values.len() >= self.max_rows {
            return Err(InsertError::RowLimitExceeded { max_rows: self.max_rows });
        }
        self.values.push(value);
        Ok(())
    }
}

} // verus!
