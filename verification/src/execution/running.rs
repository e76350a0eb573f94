//! Running statements against tables.

use vstd::prelude::*;
use vstd::slice::slice_subrange;
use crate::execution::errors::{DistinctFault, InnerJoinExecutionError, InsertExecutionError, InsertFault, JoinFault, SelectDistinctExecutionError, SelectExecutionError, SelectFault};
use crate::execution::operators::{aggregate_fault, bounded, count_known, count_nullable_i64, distinct_nullable_i64, distinct_values, least_known, min_nullable_i64, order_fault, order_nullable_i64, ordered_rows, pick_values, rows_where, scan_nullable_i64, scanned_rows_are_in_range, sum_known, sum_nullable_i64, values_at, AggregateError, RowLimits, RowSelection};
use crate::execution::statements::{InnerJoinStatement, InsertStatement, ScalarCountStatement, ScalarMinStatement, ScalarSumStatement, SelectDistinctStatement, SelectPredicate, SelectStatement};
use crate::execution::table::{row_fault, Int64Table};
use crate::join::{inner_equi_join_nullable_i64, inner_join, inner_join_is_exact, limited, pairs_of, JoinLimits, JoinRowPair};
use crate::text::same_text;

verus! {

/// Runs an `INSERT`.
///
/// Names are compared exactly. A failure leaves the table as it was.
pub fn execute_insert(
    expected_table_name: &str,
    table: &mut Int64Table,
    statement: &InsertStatement,
) -> (r: Result<(), InsertExecutionError>)
    requires
        old(table).wf(),
    ensures
        final(table).wf(),
        final(table).column() == old(table).column(),
        final(table).capacity() == old(table).capacity(),
        final(table).takes_null() == old(table).takes_null(),
        ({
            let named = statement.table_name@ == expected_table_name@;
            let refused = row_fault(
                old(table).takes_null(),
                old(table).capacity(),
                old(table).rows().len(),
                statement.value,
            );
            match r {
                Ok(_) => named && refused is None && final(table).rows() == old(table).rows().push(
                    statement.value,
                ),
                Err(e) => *final(table) == *old(table) && e@ == (if !named {
                    InsertFault::UnknownTable(statement.table_name@)
                } else {
                    InsertFault::Insert(refused.unwrap())
                }) && (named ==> refused is Some),
            }
        }),
{
    if !same_text(statement.table_name.as_str(), expected_table_name) {
        return Err(InsertExecutionError::UnknownTable { name: statement.table_name.clone() });
    }
    match table.append(statement.value) {
        Ok(_) => Ok(()),
        Err(e) => Err(InsertExecutionError::Insert(e)),
    }
}

/// What the names of a statement are refused for, the table first.
pub open spec fn name_fault(
    table: Seq<char>,
    expected: Seq<char>,
    columns: Seq<Seq<char>>,
    column: Seq<char>,
    i: int,
) -> Option<SelectFault>
    decreases columns.len() - i,
{
    if table != expected {
        Some(SelectFault::UnknownTable(table))
    } else if !(0 <= i < columns.len()) {
        None
    } else if columns[i] != column {
        Some(SelectFault::UnknownColumn(columns[i]))
    } else {
        name_fault(table, expected, columns, column, i + 1)
    }
}

/// The columns that an optional condition names.
pub open spec fn predicate_columns(predicate: Option<SelectPredicate>) -> Seq<Seq<char>> {
    match predicate {
        Some(p) => seq![p.column_name@],
        None => Seq::empty(),
    }
}

/// The rows that satisfy an optional condition, within bounds.
pub open spec fn rows_for(
    values: Seq<Option<i64>>,
    predicate: Option<SelectPredicate>,
    limits: RowLimits,
) -> Result<Option<Seq<usize>>, SelectFault> {
    match predicate {
        None => Ok(None),
        Some(p) => match bounded(
            values.len(),
            rows_where(values, p.test, values.len() as int),
            limits,
        ) {
            Ok(rows) => Ok(Some(rows)),
            Err(e) => Err(SelectFault::Scan(e)),
        },
    }
}

/// The values of the rows that satisfy an optional condition.
pub open spec fn chosen_values(values: Seq<Option<i64>>, rows: Option<Seq<usize>>) -> Seq<
    Option<i64>,
> {
    match rows {
        Some(rows) => values_at(values, rows),
        None => values,
    }
}

fn check_table(table_name: &String, expected: &str) -> (r: Result<(), SelectExecutionError>)
    ensures
        match r {
            Ok(_) => table_name@ == expected@,
            Err(e) => table_name@ != expected@ && e@ == SelectFault::UnknownTable(table_name@),
        },
{
    if same_text(table_name.as_str(), expected) {
        Ok(())
    } else {
        Err(SelectExecutionError::UnknownTable { name: table_name.clone() })
    }
}

fn check_column(name: &String, table: &Int64Table) -> (r: Result<(), SelectExecutionError>)
    ensures
        match r {
            Ok(_) => name@ == table.column(),
            Err(e) => name@ != table.column() && e@ == SelectFault::UnknownColumn(name@),
        },
{
    if same_text(name.as_str(), table.column_name()) {
        Ok(())
    } else {
        Err(SelectExecutionError::UnknownColumn { name: name.clone() })
    }
}

fn check_predicate(predicate: &Option<SelectPredicate>, table: &Int64Table) -> (r: Result<
    (),
    SelectExecutionError,
>)
    ensures
        match r {
            Ok(_) => *predicate matches Some(p) ==> p.column_name@ == table.column(),
            Err(e) => *predicate matches Some(p) && p.column_name@ != table.column() && e@
                == SelectFault::UnknownColumn(p.column_name@),
        },
{
    match predicate {
        Some(p) => check_column(&p.column_name, table),
        None => Ok(()),
    }
}

fn scan(values: &[Option<i64>], predicate: &Option<SelectPredicate>, limits: RowLimits) -> (r:
    Result<RowSelection, SelectExecutionError>)
    ensures
        match r {
            Ok(RowSelection::All) => rows_for(values@, *predicate, limits) == Ok::<
                Option<Seq<usize>>,
                SelectFault,
            >(None),
            Ok(RowSelection::Indices(rows)) => rows_for(values@, *predicate, limits) == Ok::<
                Option<Seq<usize>>,
                SelectFault,
            >(Some(rows@)) && forall|k: int|
                0 <= k < rows@.len() ==> #[trigger] rows@[k] < values@.len(),
            Err(e) => rows_for(values@, *predicate, limits) == Err::<Option<Seq<usize>>, _>(e@),
        },
{
    match predicate {
        None => Ok(RowSelection::All),
        Some(p) => match scan_nullable_i64(values, p.test, limits) {
            Ok(rows) => {
                proof {
                    let n = values.len();
                    assert(values@.len() == n);
                    scanned_rows_are_in_range(values@, p.test, values@.len() as int);
                }
                Ok(RowSelection::Indices(rows))
            },
            Err(e) => Err(SelectExecutionError::Scan(e)),
        },
    }
}

/// The columns that a `COUNT` names.
pub open spec fn count_columns(statement: ScalarCountStatement) -> Seq<Seq<char>> {
    (match statement.column_name {
        Some(name) => seq![name@],
        None => Seq::empty(),
    }) + predicate_columns(statement.predicate)
}

/// The result of a `COUNT`.
pub open spec fn count_of(
    expected: Seq<char>,
    column: Seq<char>,
    values: Seq<Option<i64>>,
    statement: ScalarCountStatement,
    scan_limits: RowLimits,
    limits: RowLimits,
) -> Result<int, SelectFault> {
    match name_fault(statement.table_name@, expected, count_columns(statement), column, 0) {
        Some(fault) => Err(fault),
        None => match rows_for(values, statement.predicate, scan_limits) {
            Err(fault) => Err(fault),
            Ok(rows) => {
                let chosen = chosen_values(values, rows);
                match aggregate_fault(values.len(), chosen.len(), limits) {
                    Some(e) => Err(SelectFault::Aggregate(e)),
                    None => Ok(
                        if statement.column_name is Some {
                            count_known(chosen, chosen.len() as int) as int
                        } else {
                            chosen.len() as int
                        },
                    ),
                }
            },
        },
    }
}

/// Runs a `COUNT` with bounds on its scan and on its aggregate. Without a condition nothing
/// is scanned.
pub fn execute_scalar_count_with_limits(
    expected_table_name: &str,
    table: &Int64Table,
    statement: &ScalarCountStatement,
    scan_limits: RowLimits,
    aggregate_limits: RowLimits,
) -> (r: Result<u64, SelectExecutionError>)
    ensures
        match r {
            Ok(n) => count_of(
                expected_table_name@,
                table.column(),
                table.rows(),
                *statement,
                scan_limits,
                aggregate_limits,
            ) == Ok::<_, SelectFault>(n as int),
            Err(e) => count_of(
                expected_table_name@,
                table.column(),
                table.rows(),
                *statement,
                scan_limits,
                aggregate_limits,
            ) == Err::<int, _>(e@),
        },
{
    proof {
        reveal_with_fuel(name_fault, 3);
    }
    check_table(&statement.table_name, expected_table_name)?;
    if let Some(name) = &statement.column_name {
        check_column(name, table)?;
    }
    check_predicate(&statement.predicate, table)?;
    let values = table.values();
    let selection = scan(values, &statement.predicate, scan_limits)?;
    match count_nullable_i64(values, &selection, aggregate_limits) {
        Ok((star, column)) => Ok(
            if statement.column_name.is_some() {
                column
            } else {
                star
            },
        ),
        Err(e) => Err(SelectExecutionError::Aggregate(e)),
    }
}

/// Runs a `COUNT` with bounds on its aggregate. A scan may read and give all rows.
pub fn execute_scalar_count(
    expected_table_name: &str,
    table: &Int64Table,
    statement: &ScalarCountStatement,
    limits: RowLimits,
) -> (r: Result<u64, SelectExecutionError>)
    ensures
        ({
            let rows = table.rows().len() as usize;
            let all = RowLimits { max_input_rows: rows, max_output_rows: rows };
            match r {
                Ok(n) => count_of(
                    expected_table_name@,
                    table.column(),
                    table.rows(),
                    *statement,
                    all,
                    limits,
                ) == Ok::<_, SelectFault>(n as int),
                Err(e) => count_of(
                    expected_table_name@,
                    table.column(),
                    table.rows(),
                    *statement,
                    all,
                    limits,
                ) == Err::<int, _>(e@),
            }
        }),
{
    let rows = table.values().len();
    execute_scalar_count_with_limits(
        expected_table_name,
        table,
        statement,
        RowLimits::new(rows, rows),
        limits,
    )
}

/// The result of a `SUM`.
pub open spec fn sum_of(
    expected: Seq<char>,
    column: Seq<char>,
    values: Seq<Option<i64>>,
    statement: ScalarSumStatement,
    scan_limits: RowLimits,
    limits: RowLimits,
) -> Result<Option<i64>, SelectFault> {
    match name_fault(
        statement.table_name@,
        expected,
        seq![statement.column_name@] + predicate_columns(statement.predicate),
        column,
        0,
    ) {
        Some(fault) => Err(fault),
        None => match rows_for(values, statement.predicate, scan_limits) {
            Err(fault) => Err(fault),
            Ok(rows) => {
                let chosen = chosen_values(values, rows);
                let n = chosen.len() as int;
                match aggregate_fault(values.len(), chosen.len(), limits) {
                    Some(e) => Err(SelectFault::Aggregate(e)),
                    None => if !(i64::MIN <= sum_known(chosen, n) <= i64::MAX) {
                        Err(SelectFault::Aggregate(AggregateError::SumOverflow))
                    } else if count_known(chosen, n) == 0 {
                        Ok(None)
                    } else {
                        Ok(Some(sum_known(chosen, n) as i64))
                    },
                }
            },
        },
    }
}

/// Runs a `SUM` with bounds on its scan and on its aggregate. Without a condition nothing is
/// scanned.
pub fn execute_scalar_sum_with_limits(
    expected_table_name: &str,
    table: &Int64Table,
    statement: &ScalarSumStatement,
    scan_limits: RowLimits,
    aggregate_limits: RowLimits,
) -> (r: Result<Option<i64>, SelectExecutionError>)
    ensures
        match r {
            Ok(sum) => sum_of(
                expected_table_name@,
                table.column(),
                table.rows(),
                *statement,
                scan_limits,
                aggregate_limits,
            ) == Ok::<_, SelectFault>(sum),
            Err(e) => sum_of(
                expected_table_name@,
                table.column(),
                table.rows(),
                *statement,
                scan_limits,
                aggregate_limits,
            ) == Err::<Option<i64>, _>(e@),
        },
{
    proof {
        reveal_with_fuel(name_fault, 3);
    }
    check_table(&statement.table_name, expected_table_name)?;
    check_column(&statement.column_name, table)?;
    check_predicate(&statement.predicate, table)?;
    let values = table.values();
    let selection = scan(values, &statement.predicate, scan_limits)?;
    match sum_nullable_i64(values, &selection, aggregate_limits) {
        Ok(sum) => Ok(sum),
        Err(e) => Err(SelectExecutionError::Aggregate(e)),
    }
}

/// Runs a `SUM` with bounds on its aggregate. A scan may read and give all rows.
pub fn execute_scalar_sum(
    expected_table_name: &str,
    table: &Int64Table,
    statement: &ScalarSumStatement,
    aggregate_limits: RowLimits,
) -> (r: Result<Option<i64>, SelectExecutionError>)
    ensures
        ({
            let rows = table.rows().len() as usize;
            let all = RowLimits { max_input_rows: rows, max_output_rows: rows };
            match r {
                Ok(sum) => sum_of(
                    expected_table_name@,
                    table.column(),
                    table.rows(),
                    *statement,
                    all,
                    aggregate_limits,
                ) == Ok::<_, SelectFault>(sum),
                Err(e) => sum_of(
                    expected_table_name@,
                    table.column(),
                    table.rows(),
                    *statement,
                    all,
                    aggregate_limits,
                ) == Err::<Option<i64>, _>(e@),
            }
        }),
{
    let rows = table.values().len();
    execute_scalar_sum_with_limits(
        expected_table_name,
        table,
        statement,
        RowLimits::new(rows, rows),
        aggregate_limits,
    )
}

/// Runs a `MIN` with bounds.
pub fn execute_scalar_min(
    expected_table_name: &str,
    table: &Int64Table,
    statement: &ScalarMinStatement,
    aggregate_limits: RowLimits,
) -> (r: Result<Option<i64>, SelectExecutionError>)
    ensures
        ({
            let named = name_fault(
                statement.table_name@,
                expected_table_name@,
                seq![statement.column_name@],
                table.column(),
                0,
            );
            let rows = table.rows().len();
            let refused = aggregate_fault(rows, rows, aggregate_limits);
            match r {
                Ok(least) => named is None && refused is None && least == least_known(
                    table.rows(),
                    rows as int,
                ),
                Err(e) => match named {
                    Some(fault) => e@ == fault,
                    None => refused is Some && e@ == SelectFault::Aggregate(refused.unwrap()),
                },
            }
        }),
{
    proof {
        reveal_with_fuel(name_fault, 3);
    }
    check_table(&statement.table_name, expected_table_name)?;
    check_column(&statement.column_name, table)?;
    match min_nullable_i64(table.values(), &RowSelection::All, aggregate_limits) {
        Ok(least) => Ok(least),
        Err(e) => Err(SelectExecutionError::Aggregate(e)),
    }
}

/// The columns that a `SELECT` names.
pub open spec fn select_columns(statement: SelectStatement) -> Seq<Seq<char>> {
    seq![statement.column_name@] + predicate_columns(statement.where_predicate) + (
    match statement.order_by {
        Some(order) => seq![order.column_name@],
        None => Seq::empty(),
    })
}

/// The result of a `SELECT`.
pub open spec fn selection_of(
    expected: Seq<char>,
    column: Seq<char>,
    values: Seq<Option<i64>>,
    statement: SelectStatement,
    scan_limits: RowLimits,
    order_limits: RowLimits,
) -> Result<Seq<Option<i64>>, SelectFault> {
    let limit = match statement.limit {
        Some(n) => n,
        None => values.len() as usize,
    };
    match name_fault(statement.table_name@, expected, select_columns(statement), column, 0) {
        Some(fault) => Err(fault),
        None => match rows_for(values, statement.where_predicate, scan_limits) {
            Err(fault) => Err(fault),
            Ok(rows) => {
                let chosen = chosen_values(values, rows);
                match statement.order_by {
                    Some(order) => match order_fault(chosen.len(), limit, order_limits) {
                        Some(e) => Err(SelectFault::Order(e)),
                        None => Ok(
                            values_at(
                                chosen,
                                ordered_rows(chosen, order.descending, order.nulls_first, limit),
                            ),
                        ),
                    },
                    None => Ok(
                        if limit < chosen.len() {
                            chosen.take(limit as int)
                        } else {
                            chosen
                        },
                    ),
                }
            },
        },
    }
}

/// Values that a `SELECT` gives: a part of the table's own storage, or a list of its own.
#[derive(Debug)]
pub enum SelectedValues<'table> {
    Borrowed(&'table [Option<i64>]),
    Owned(Vec<Option<i64>>),
}

impl<'table> SelectedValues<'table> {
    /// The values.
    pub open spec fn view(&self) -> Seq<Option<i64>> {
        match self {
            SelectedValues::Borrowed(values) => values@,
            SelectedValues::Owned(values) => values@,
        }
    }

    /// The values.
    pub fn as_slice(&self) -> (values: &[Option<i64>])
        ensures
            values@ == self@,
    {
        match self {
            SelectedValues::Borrowed(values) => values,
            SelectedValues::Owned(values) => values.as_slice(),
        }
    }
}

/// Whether a `SELECT` gives values as they are stored.
pub open spec fn is_plain(statement: SelectStatement) -> bool {
    statement.where_predicate is None && statement.order_by is None
}

fn copy_of(values: &[Option<i64>]) -> (r: Vec<Option<i64>>)
    ensures
        r@ == values@,
{
    let mut r: Vec<Option<i64>> = Vec::new();
    let mut i: usize = 0;
    while i < values.len()
        invariant
            i <= values.len(),
            r@ == values@.take(i as int),
        decreases values.len() - i,
    {
        r.push(values[i]);
        i = i + 1;
        assert(r@ =~= values@.take(i as int));
    }
    assert(values@.take(i as int) =~= values@);
    r
}

/// Runs a `SELECT` with bounds on its scan and on its order. Without a condition nothing is
/// scanned; filtered rows keep their order unless they are ordered. Values that are neither
/// filtered nor ordered are borrowed from the table, and no others.
pub fn execute_select_with_order_limits<'table>(
    expected_table_name: &str,
    table: &'table Int64Table,
    statement: &SelectStatement,
    scan_limits: RowLimits,
    order_limits: RowLimits,
) -> (r: Result<SelectedValues<'table>, SelectExecutionError>)
    ensures
        r matches Ok(values) ==> (values is Borrowed <==> is_plain(*statement)),
        match r {
            Ok(values) => selection_of(
                expected_table_name@,
                table.column(),
                table.rows(),
                *statement,
                scan_limits,
                order_limits,
            ) == Ok::<_, SelectFault>(values@),
            Err(e) => selection_of(
                expected_table_name@,
                table.column(),
                table.rows(),
                *statement,
                scan_limits,
                order_limits,
            ) == Err::<Seq<Option<i64>>, _>(e@),
        },
{
    proof {
        reveal_with_fuel(name_fault, 4);
    }
    check_table(&statement.table_name, expected_table_name)?;
    check_column(&statement.column_name, table)?;
    check_predicate(&statement.where_predicate, table)?;
    if let Some(order) = &statement.order_by {
        check_column(&order.column_name, table)?;
    }
    let values = table.values();
    let limit = match statement.limit {
        Some(n) => n,
        None => values.len(),
    };
    if statement.where_predicate.is_none() && statement.order_by.is_none() {
        let end = if limit < values.len() {
            limit
        } else {
            values.len()
        };
        let part = slice_subrange(values, 0, end);
        assert(part@ =~= if limit < values@.len() {
            values@.take(limit as int)
        } else {
            values@
        });
        return Ok(SelectedValues::Borrowed(part));
    }
    let mut chosen = match scan(values, &statement.where_predicate, scan_limits)? {
        RowSelection::All => copy_of(values),
        RowSelection::Indices(rows) => pick_values(values, &rows),
    };
    match &statement.order_by {
        Some(order) => match order_nullable_i64(
            chosen.as_slice(),
            order.descending,
            order.nulls_first,
            limit,
            order_limits,
        ) {
            Ok(rows) => Ok(SelectedValues::Owned(pick_values(chosen.as_slice(), &rows))),
            Err(e) => Err(SelectExecutionError::Order(e)),
        },
        None => {
            let ghost all = chosen@;
            chosen.truncate(limit);
            assert(chosen@ =~= if limit < all.len() {
                all.take(limit as int)
            } else {
                all
            });
            Ok(SelectedValues::Owned(chosen))
        },
    }
}

/// The bounds of an order over all rows of a table.
pub open spec fn full_order_limits(values: Seq<Option<i64>>, statement: SelectStatement) -> RowLimits {
    RowLimits {
        max_input_rows: values.len() as usize,
        max_output_rows: match statement.limit {
            Some(n) => n,
            None => values.len() as usize,
        },
    }
}

/// Runs a `SELECT` with bounds on its scan. An order may read all rows and give as many as
/// are asked for.
pub fn execute_select_with_limits<'table>(
    expected_table_name: &str,
    table: &'table Int64Table,
    statement: &SelectStatement,
    scan_limits: RowLimits,
) -> (r: Result<SelectedValues<'table>, SelectExecutionError>)
    ensures
        r matches Ok(values) ==> (values is Borrowed <==> is_plain(*statement)),
        match r {
            Ok(values) => selection_of(
                expected_table_name@,
                table.column(),
                table.rows(),
                *statement,
                scan_limits,
                full_order_limits(table.rows(), *statement),
            ) == Ok::<_, SelectFault>(values@),
            Err(e) => selection_of(
                expected_table_name@,
                table.column(),
                table.rows(),
                *statement,
                scan_limits,
                full_order_limits(table.rows(), *statement),
            ) == Err::<Seq<Option<i64>>, _>(e@),
        },
{
    let rows = table.values().len();
    let limit = match statement.limit {
        Some(n) => n,
        None => rows,
    };
    execute_select_with_order_limits(
        expected_table_name,
        table,
        statement,
        scan_limits,
        RowLimits::new(rows, limit),
    )
}

/// Runs a `SELECT`. A scan and an order may read and give all rows.
pub fn execute_select<'table>(
    expected_table_name: &str,
    table: &'table Int64Table,
    statement: &SelectStatement,
) -> (r: Result<SelectedValues<'table>, SelectExecutionError>)
    ensures
        r matches Ok(values) ==> (values is Borrowed <==> is_plain(*statement)),
        ({
            let rows = table.rows().len() as usize;
            let all = RowLimits { max_input_rows: rows, max_output_rows: rows };
            match r {
                Ok(values) => selection_of(
                    expected_table_name@,
                    table.column(),
                    table.rows(),
                    *statement,
                    all,
                    full_order_limits(table.rows(), *statement),
                ) == Ok::<_, SelectFault>(values@),
                Err(e) => selection_of(
                    expected_table_name@,
                    table.column(),
                    table.rows(),
                    *statement,
                    all,
                    full_order_limits(table.rows(), *statement),
                ) == Err::<Seq<Option<i64>>, _>(e@),
            }
        }),
{
    let rows = table.values().len();
    execute_select_with_limits(expected_table_name, table, statement, RowLimits::new(rows, rows))
}

/// The result of a `SELECT DISTINCT`.
pub open spec fn distinct_of(
    expected: Seq<char>,
    column: Seq<char>,
    values: Seq<Option<i64>>,
    statement: SelectDistinctStatement,
    limits: RowLimits,
) -> Result<Seq<Option<i64>>, DistinctFault> {
    if statement.table_name@ != expected {
        Err(DistinctFault::UnknownTable(statement.table_name@))
    } else if statement.column_name@ != column {
        Err(DistinctFault::UnknownColumn(statement.column_name@))
    } else {
        match bounded(values.len(), distinct_values(values), limits) {
            Ok(list) => Ok(list),
            Err(e) => Err(DistinctFault::Distinct(e)),
        }
    }
}

/// Runs a `SELECT DISTINCT` with bounds. NULL comes first, and then smaller values.
pub fn execute_select_distinct(
    expected_table_name: &str,
    table: &Int64Table,
    statement: &SelectDistinctStatement,
    limits: RowLimits,
) -> (r: Result<Vec<Option<i64>>, SelectDistinctExecutionError>)
    ensures
        match r {
            Ok(list) => distinct_of(
                expected_table_name@,
                table.column(),
                table.rows(),
                *statement,
                limits,
            ) == Ok::<_, DistinctFault>(list@),
            Err(e) => distinct_of(
                expected_table_name@,
                table.column(),
                table.rows(),
                *statement,
                limits,
            ) == Err::<Seq<Option<i64>>, _>(e@),
        },
{
    if !same_text(statement.table_name.as_str(), expected_table_name) {
        return Err(
            SelectDistinctExecutionError::UnknownTable { name: statement.table_name.clone() },
        );
    }
    if !same_text(statement.column_name.as_str(), table.column_name()) {
        return Err(
            SelectDistinctExecutionError::UnknownColumn { name: statement.column_name.clone() },
        );
    }
    match distinct_nullable_i64(table.values(), limits) {
        Ok(list) => Ok(list),
        Err(e) => Err(SelectDistinctExecutionError::Distinct(e)),
    }
}

/// The result of an inner join: the left values of its pairs.
pub open spec fn join_of(
    expected_left: Seq<char>,
    left_column: Seq<char>,
    left: Seq<Option<i64>>,
    expected_right: Seq<char>,
    right_column: Seq<char>,
    right: Seq<Option<i64>>,
    statement: InnerJoinStatement,
    limits: JoinLimits,
) -> Result<Seq<Option<i64>>, JoinFault> {
    if statement.left_table_name@ != expected_left {
        Err(JoinFault::UnknownTable(statement.left_table_name@))
    } else if statement.right_table_name@ != expected_right {
        Err(JoinFault::UnknownTable(statement.right_table_name@))
    } else if statement.projected_column_name@ != left_column {
        Err(JoinFault::UnknownColumn(statement.projected_column_name@))
    } else if statement.left_column_name@ != left_column {
        Err(JoinFault::UnknownColumn(statement.left_column_name@))
    } else if statement.right_column_name@ != right_column {
        Err(JoinFault::UnknownColumn(statement.right_column_name@))
    } else {
        match limited(
            left.len(),
            right.len(),
            limits,
            inner_join(left, right, left.len() as int),
        ) {
            Err(e) => Err(JoinFault::Join(e)),
            Ok(pairs) => Ok(Seq::new(pairs.len(), |k: int| left[pairs[k].0 as int])),
        }
    }
}

/// Runs an inner join with bounds. The values stand in the order of the left rows, and then
/// of the right rows.
#[verifier::loop_isolation(false)]
pub fn execute_inner_join(
    expected_left_table_name: &str,
    left_table: &Int64Table,
    expected_right_table_name: &str,
    right_table: &Int64Table,
    statement: &InnerJoinStatement,
    limits: JoinLimits,
) -> (r: Result<Vec<Option<i64>>, InnerJoinExecutionError>)
    ensures
        match r {
            Ok(values) => join_of(
                expected_left_table_name@,
                left_table.column(),
                left_table.rows(),
                expected_right_table_name@,
                right_table.column(),
                right_table.rows(),
                *statement,
                limits,
            ) == Ok::<_, JoinFault>(values@),
            Err(e) => join_of(
                expected_left_table_name@,
                left_table.column(),
                left_table.rows(),
                expected_right_table_name@,
                right_table.column(),
                right_table.rows(),
                *statement,
                limits,
            ) == Err::<Seq<Option<i64>>, _>(e@),
        },
{
    if !same_text(statement.left_table_name.as_str(), expected_left_table_name) {
        return Err(
            InnerJoinExecutionError::UnknownTable { name: statement.left_table_name.clone() },
        );
    }
    if !same_text(statement.right_table_name.as_str(), expected_right_table_name) {
        return Err(
            InnerJoinExecutionError::UnknownTable { name: statement.right_table_name.clone() },
        );
    }
    if !same_text(statement.projected_column_name.as_str(), left_table.column_name()) {
        return Err(
            InnerJoinExecutionError::UnknownColumn {
                name: statement.projected_column_name.clone(),
            },
        );
    }
    if !same_text(statement.left_column_name.as_str(), left_table.column_name()) {
        return Err(
            InnerJoinExecutionError::UnknownColumn { name: statement.left_column_name.clone() },
        );
    }
    if !same_text(statement.right_column_name.as_str(), right_table.column_name()) {
        return Err(
            InnerJoinExecutionError::UnknownColumn { name: statement.right_column_name.clone() },
        );
    }
    let left = left_table.values();
    let right = right_table.values();
    let pairs = match inner_equi_join_nullable_i64(left, right, limits) {
        Ok(pairs) => pairs,
        Err(e) => return Err(InnerJoinExecutionError::Join(e)),
    };
    proof {
        let (n, k) = (left.len(), right.len());
        assert(left@.len() == n && right@.len() == k);
        inner_join_is_exact(left@, right@, left@.len() as int);
    }
    let mut values: Vec<Option<i64>> = Vec::new();
    let mut i: usize = 0;
    while i < pairs.len()
        invariant
            i <= pairs.len(),
            values@.len() == i,
            forall|k: int| 0 <= k < i ==> #[trigger] values@[k] == left@[pairs@[k]@.0 as int],
        decreases pairs.len() - i,
    {
        let pair: JoinRowPair = pairs[i];
        proof {
            let all = inner_join(left@, right@, left@.len() as int);
            assert(pairs_of(pairs@)[i as int] == pair@);
            assert(all.contains((pair@.0, pair@.1)));
        }
        values.push(left[pair.left_row()]);
        i = i + 1;
    }
    assert(values@ =~= Seq::new(
        pairs_of(pairs@).len(),
        |k: int| left@[pairs_of(pairs@)[k].0 as int],
    ));
    Ok(values)
}

} // verus!
