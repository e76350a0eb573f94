//! Parsed statements over tables of one column.

use vstd::prelude::*;
use crate::execution::operators::RowTest;

verus! {

/// `INSERT INTO table VALUES (value)`.
#[derive(Debug)]
pub struct InsertStatement {
    pub table_name: String,
    pub value: Option<i64>,
}

/// A test of a column.
#[derive(Debug)]
pub struct SelectPredicate {
    pub column_name: String,
    pub test: RowTest,
}

/// An order by a column.
#[derive(Debug)]
pub struct OrderBy {
    pub column_name: String,
    pub descending: bool,
    pub nulls_first: bool,
}

/// `SELECT column FROM table`, with an optional `WHERE`, `ORDER BY` and `LIMIT`.
#[derive(Debug)]
pub struct SelectStatement {
    pub column_name: String,
    pub table_name: String,
    pub where_predicate: Option<SelectPredicate>,
    pub order_by: Option<OrderBy>,
    pub limit: Option<usize>,
}

/// `SELECT DISTINCT column FROM table`.
#[derive(Debug)]
pub struct SelectDistinctStatement {
    pub column_name: String,
    pub table_name: String,
}

/// `SELECT COUNT(*)` or `SELECT COUNT(column)`, with an optional `WHERE`.
#[derive(Debug)]
pub struct ScalarCountStatement {
    pub column_name: Option<String>,
    pub table_name: String,
    pub predicate: Option<SelectPredicate>,
}

/// `SELECT SUM(column)`, with an optional `WHERE`.
#[derive(Debug)]
pub struct ScalarSumStatement {
    pub column_name: String,
    pub table_name: String,
    pub predicate: Option<SelectPredicate>,
}

/// `SELECT MIN(column)`.
#[derive(Debug)]
pub struct ScalarMinStatement {
    pub column_name: String,
    pub table_name: String,
}

/// An inner equi-join of two tables that shows a column of the left one.
#[derive(Debug)]
pub struct InnerJoinStatement {
    pub projected_column_name: String,
    pub left_table_name: String,
    pub right_table_name: String,
    pub left_column_name: String,
    pub right_column_name: String,
}

} // verus!
