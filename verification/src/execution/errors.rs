//! Failures of executing statements.

use vstd::prelude::*;
use crate::execution::operators::{aggregate_text, order_text, row_limit_text, AggregateError, OrderError, RowLimitError};
use crate::execution::table::{insert_text, InsertError};
use crate::join::{join_text, JoinError};
use crate::text::{concat2, concat5};

verus! {

fn unknown(kind: &str, name: &str) -> (s: String)
    ensures
        s@ == "unknown "@ + kind@ + " '"@ + name@ + "'"@,
{
    concat5("unknown ", kind, " '", name, "'")
}

/// A failure of an `INSERT`.
#[derive(Debug, Clone, PartialEq, Eq)]
pub enum InsertExecutionError {
    /// The statement names another table.
    UnknownTable { name: String },
    /// The table refuses the row.
    Insert(InsertError),
}

/// The content of a failure.
pub enum InsertFault {
    UnknownTable(Seq<char>),
    Insert(InsertError),
}

impl View for InsertExecutionError {
    type V = InsertFault;

    open spec fn view(&self) -> InsertFault {
        match *self {
            InsertExecutionError::UnknownTable { name } => InsertFault::UnknownTable(name@),
            InsertExecutionError::Insert(e) => InsertFault::Insert(e),
        }
    }
}

impl InsertExecutionError {
    /// Describes the failure.
    pub fn message(&self) -> (s: String)
        ensures
            s@ == match self@ {
                InsertFault::UnknownTable(name) => "unknown "@ + "table"@ + " '"@ + name + "'"@,
                InsertFault::Insert(e) => "could not insert row: "@ + insert_text(e),
            },
    {
        match self {
            InsertExecutionError::UnknownTable { name } => unknown("table", name.as_str()),
            InsertExecutionError::Insert(e) => concat2(
                "could not insert row: ",
                e.message().as_str(),
            ),
        }
    }
}

/// A failure of a `SELECT` of values or of a scalar.
#[derive(Debug, Clone, PartialEq, Eq)]
pub enum SelectExecutionError {
    /// The statement names another table.
    UnknownTable { name: String },
    /// The statement names another column.
    UnknownColumn { name: String },
    /// The scan exceeds its bounds.
    Scan(RowLimitError),
    /// The order exceeds its bounds.
    Order(OrderError),
    /// The aggregate fails.
    Aggregate(AggregateError),
}

/// The content of a failure.
pub enum SelectFault {
    UnknownTable(Seq<char>),
    UnknownColumn(Seq<char>),
    Scan(RowLimitError),
    Order(OrderError),
    Aggregate(AggregateError),
}

impl View for SelectExecutionError {
    type V = SelectFault;

    open spec fn view(&self) -> SelectFault {
        match *self {
            SelectExecutionError::UnknownTable { name } => SelectFault::UnknownTable(name@),
            SelectExecutionError::UnknownColumn { name } => SelectFault::UnknownColumn(name@),
            SelectExecutionError::Scan(e) => SelectFault::Scan(e),
            SelectExecutionError::Order(e) => SelectFault::Order(e),
            SelectExecutionError::Aggregate(e) => SelectFault::Aggregate(e),
        }
    }
}

impl SelectExecutionError {
    /// Describes the failure.
    pub fn message(&self) -> (s: String)
        ensures
            s@ == match self@ {
                SelectFault::UnknownTable(name) => "unknown "@ + "table"@ + " '"@ + name + "'"@,
                SelectFault::UnknownColumn(name) => "unknown "@ + "column"@ + " '"@ + name + "'"@,
                SelectFault::Scan(e) => "could not scan rows: "@ + row_limit_text(e),
                SelectFault::Order(e) => "could not order rows: "@ + order_text(e),
                SelectFault::Aggregate(e) => "could not aggregate rows: "@ + aggregate_text(e),
            },
    {
        match self {
            SelectExecutionError::UnknownTable { name } => unknown("table", name.as_str()),
            SelectExecutionError::UnknownColumn { name } => unknown("column", name.as_str()),
            SelectExecutionError::Scan(e) => concat2("could not scan rows: ", e.message().as_str()),
            SelectExecutionError::Order(e) => concat2(
                "could not order rows: ",
                e.message().as_str(),
            ),
            SelectExecutionError::Aggregate(e) => concat2(
                "could not aggregate rows: ",
                e.message().as_str(),
            ),
        }
    }
}

/// A failure of a `SELECT DISTINCT`.
#[derive(Debug, Clone, PartialEq, Eq)]
pub enum SelectDistinctExecutionError {
    /// The statement names another table.
    UnknownTable { name: String },
    /// The statement names another column.
    UnknownColumn { name: String },
    /// The operator exceeds its bounds.
    Distinct(RowLimitError),
}

/// The content of a failure.
pub enum DistinctFault {
    UnknownTable(Seq<char>),
    UnknownColumn(Seq<char>),
    Distinct(RowLimitError),
}

impl View for SelectDistinctExecutionError {
    type V = DistinctFault;

    open spec fn view(&self) -> DistinctFault {
        match *self {
            SelectDistinctExecutionError::UnknownTable { name } => DistinctFault::UnknownTable(name@),
            SelectDistinctExecutionError::UnknownColumn { name } => DistinctFault::UnknownColumn(
                name@,
            ),
            SelectDistinctExecutionError::Distinct(e) => DistinctFault::Distinct(e),
        }
    }
}

impl SelectDistinctExecutionError {
    /// Describes the failure.
    pub fn message(&self) -> (s: String)
        ensures
            s@ == match self@ {
                DistinctFault::UnknownTable(name) => "unknown "@ + "table"@ + " '"@ + name + "'"@,
                DistinctFault::UnknownColumn(name) => "unknown "@ + "column"@ + " '"@ + name + "'"@,
                DistinctFault::Distinct(e) => "could not compute distinct values: "@
                    + row_limit_text(e),
            },
    {
        match self {
            SelectDistinctExecutionError::UnknownTable { name } => unknown("table", name.as_str()),
            SelectDistinctExecutionError::UnknownColumn { name } => unknown("column", name.as_str()),
            SelectDistinctExecutionError::Distinct(e) => concat2(
                "could not compute distinct values: ",
                e.message().as_str(),
            ),
        }
    }
}

/// A failure of an inner join.
#[derive(Debug, Clone, PartialEq, Eq)]
pub enum InnerJoinExecutionError {
    /// The statement names another table.
    UnknownTable { name: String },
    /// The statement names another column.
    UnknownColumn { name: String },
    /// The join exceeds its bounds.
    Join(JoinError),
}

/// The content of a failure.
pub enum JoinFault {
    UnknownTable(Seq<char>),
    UnknownColumn(Seq<char>),
    Join(JoinError),
}

impl View for InnerJoinExecutionError {
    type V = JoinFault;

    open spec fn view(&self) -> JoinFault {
        match *self {
            InnerJoinExecutionError::UnknownTable { name } => JoinFault::UnknownTable(name@),
            InnerJoinExecutionError::UnknownColumn { name } => JoinFault::UnknownColumn(name@),
            InnerJoinExecutionError::Join(e) => JoinFault::Join(e),
        }
    }
}

impl InnerJoinExecutionError {
    /// Describes the failure.
    pub fn message(&self) -> (s: String)
        ensures
            s@ == match self@ {
                JoinFault::UnknownTable(name) => "unknown "@ + "table"@ + " '"@ + name + "'"@,
                JoinFault::UnknownColumn(name) => "unknown "@ + "column"@ + " '"@ + name + "'"@,
                JoinFault::Join(e) => "could not join rows: "@ + join_text(e),
            },
    {
        match self {
            InnerJoinExecutionError::UnknownTable { name } => unknown("table", name.as_str()),
            InnerJoinExecutionError::UnknownColumn { name } => unknown("column", name.as_str()),
            InnerJoinExecutionError::Join(e) => concat2("could not join rows: ", e.message().as_str()),
        }
    }
}

} // verus!
