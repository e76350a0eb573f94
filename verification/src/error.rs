//! Failures of tables of typed rows.

use vstd::prelude::*;
use crate::text::{concat3, concat4, concat5, int_text, usize_text};
use crate::types::DataType;

verus! {

/// A failure of defining or changing a table.
#[derive(Debug, Clone, PartialEq, Eq)]
pub enum StorageError {
    /// The table has no name.
    EmptyTableName,
    /// The table has no columns.
    EmptySchema,
    /// A column has no name.
    EmptyColumnName { index: usize },
    /// Two columns have one name, whatever its case.
    DuplicateColumn { name: String },
    /// There is no column of that name.
    ColumnNotFound { table: String, column: String },
    /// A row has too many values, or too few.
    RowLength { table: String, expected: usize, actual: usize },
    /// A value has another type than its column.
    TypeMismatch { table: String, column: String, expected: DataType, actual: DataType },
    /// A floating-point value is not finite.
    NonFiniteFloat { table: String, column: String },
    /// The table is full.
    RowLimitExceeded { table: String, limit: usize },
}

/// The content of a failure.
pub enum StorageFault {
    EmptyTableName,
    EmptySchema,
    EmptyColumnName { index: usize },
    DuplicateColumn { name: Seq<char> },
    ColumnNotFound { table: Seq<char>, column: Seq<char> },
    RowLength { table: Seq<char>, expected: usize, actual: usize },
    TypeMismatch { table: Seq<char>, column: Seq<char>, expected: DataType, actual: DataType },
    NonFiniteFloat { table: Seq<char>, column: Seq<char> },
    RowLimitExceeded { table: Seq<char>, limit: usize },
}

impl View for StorageError {
    type V = StorageFault;

    open spec fn view(&self) -> StorageFault {
        match *self {
            StorageError::EmptyTableName => StorageFault::EmptyTableName,
            StorageError::EmptySchema => StorageFault::EmptySchema,
            StorageError::EmptyColumnName { index } => StorageFault::EmptyColumnName { index },
            StorageError::DuplicateColumn { name } => StorageFault::DuplicateColumn { name: name@ },
            StorageError::ColumnNotFound { table, column } => StorageFault::ColumnNotFound {
                table: table@,
                column: column@,
            },
            StorageError::RowLength { table, expected, actual } => StorageFault::RowLength {
                table: table@,
                expected,
                actual,
            },
            StorageError::TypeMismatch { table, column, expected, actual } => {
                StorageFault::TypeMismatch { table: table@, column: column@, expected, actual }
            },
            StorageError::NonFiniteFloat { table, column } => StorageFault::NonFiniteFloat {
                table: table@,
                column: column@,
            },
            StorageError::RowLimitExceeded { table, limit } => StorageFault::RowLimitExceeded {
                table: table@,
                limit,
            },
        }
    }
}

/// The text of a failure.
pub open spec fn storage_text(fault: StorageFault) -> Seq<char> {
    match fault {
        StorageFault::EmptyTableName => "table name cannot be empty"@,
        StorageFault::EmptySchema => "a table must contain at least one column"@,
        StorageFault::EmptyColumnName { index } => "column at index "@ + int_text(index as int)
            + " has an empty name"@,
        StorageFault::DuplicateColumn { name } => "duplicate column '"@ + name + "'"@,
        StorageFault::ColumnNotFound { table, column } => "column '"@ + column
            + "' does not exist in table '"@ + table + "'"@,
        StorageFault::RowLength { table, expected, actual } => "row for table '"@ + table
            + "' has "@ + int_text(actual as int) + " values; expected "@ + int_text(
            expected as int,
        ),
        StorageFault::TypeMismatch { table, column, expected, actual } =>
        "type mismatch for column '"@ + table + "."@ + column + "': expected "@ + expected.text()
            + ", found "@ + actual.text(),
        StorageFault::NonFiniteFloat { table, column } => "column '"@ + table + "."@ + column
            + "' cannot store a non-finite Float64"@,
        StorageFault::RowLimitExceeded { table, limit } => "table '"@ + table
            + "' reached its row limit of "@ + int_text(limit as int),
    }
}

impl StorageError {
    /// Describes the failure.
    pub fn message(&self) -> (s: String)
        ensures
            s@ == storage_text(self@),
    {
        match self {
            StorageError::EmptyTableName => "table name cannot be empty".to_owned(),
            StorageError::EmptySchema => "a table must contain at least one column".to_owned(),
            StorageError::EmptyColumnName { index } => concat3(
                "column at index ",
                usize_text(*index).as_str(),
                " has an empty name",
            ),
            StorageError::DuplicateColumn { name } => concat3(
                "duplicate column '",
                name.as_str(),
                "'",
            ),
            StorageError::ColumnNotFound { table, column } => concat5(
                "column '",
                column.as_str(),
                "' does not exist in table '",
                table.as_str(),
                "'",
            ),
            StorageError::RowLength { table, expected, actual } => {
                let head = concat4(
                    "row for table '",
                    table.as_str(),
                    "' has ",
                    usize_text(*actual).as_str(),
                );
                concat3(head.as_str(), " values; expected ", usize_text(*expected).as_str())
            },
            StorageError::TypeMismatch { table, column, expected, actual } => {
                let head = concat4(
                    "type mismatch for column '",
                    table.as_str(),
                    ".",
                    column.as_str(),
                );
                concat5(
                    head.as_str(),
                    "': expected ",
                    expected.name(),
                    ", found ",
                    actual.name(),
                )
            },
            StorageError::NonFiniteFloat { table, column } => concat5(
                "column '",
                table.as_str(),
                ".",
                column.as_str(),
                "' cannot store a non-finite Float64",
            ),
            StorageError::RowLimitExceeded { table, limit } => concat4(
                "table '",
                table.as_str(),
                "' reached its row limit of ",
                usize_text(*limit).as_str(),
            ),
        }
    }
}

} // verus!
