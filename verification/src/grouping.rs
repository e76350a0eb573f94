//! Grouped counts over one column of a table.

use vstd::prelude::*;
use crate::executor::plan::{Column, Table};
use crate::float::{compare_total, total_float_order, total_order_separates};
use crate::ordering::{rank_chains, rank_order};
use crate::text::{bool_order, byte_len, concat3, concat4, concat5, int_order, int_text, order_bool, order_i64, order_text, same_text, text_order, text_order_equal, text_order_flip, usize_text, utf8_len, Order};
use crate::types::{Datum, Value};

verus! {

/// A selection of the rows of a table.
#[derive(Debug)]
pub struct RowSelection {
    /// For each row whether it is selected.
    pub mask: Vec<bool>,
}

/// The selected rows below `n`.
pub open spec fn selected_below(mask: Seq<bool>, n: int) -> Seq<usize>
    decreases n,
{
    if n <= 0 {
        Seq::empty()
    } else if mask[n - 1] {
        selected_below(mask, n - 1).push((n - 1) as usize)
    } else {
        selected_below(mask, n - 1)
    }
}

impl RowSelection {
    /// The number of rows that the selection speaks of.
    pub fn len(&self) -> (n: usize)
        ensures
            n == self.mask@.len(),
    {
        self.mask.len()
    }

    /// The selected rows.
    pub fn selected_rows(&self) -> (rows: Vec<usize>)
        ensures
            rows@ == selected_below(self.mask@, self.mask@.len() as int),
            forall|k: int| 0 <= k < rows@.len() ==> #[trigger] rows@[k] < self.mask@.len(),
    {
        let mut rows: Vec<usize> = Vec::new();
        let mut i: usize = 0;
        while i < self.mask.len()
            invariant
                i <= self.mask.len(),
                rows@ == selected_below(self.mask@, i as int),
                forall|k: int| 0 <= k < rows@.len() ==> #[trigger] rows@[k] < i,
            decreases self.mask.len() - i,
        {
            if self.mask[i] {
                rows.push(i);
            }
            i = i + 1;
        }
        rows
    }
}

/// A value of a column and the number of selected rows that hold it.
#[derive(Clone, Debug)]
pub struct GroupedCount {
    value: Value,
    count: usize,
}

impl View for GroupedCount {
    type V = (Datum, usize);

    closed spec fn view(&self) -> (Datum, usize) {
        (self.value@, self.count)
    }
}

impl GroupedCount {
    /// The value of the group.
    pub fn value(&self) -> (value: &Value)
        ensures
            value@ == self@.0,
    {
        &self.value
    }

    /// The number of rows of the group.
    pub fn count(&self) -> (count: usize)
        ensures
            count == self@.1,
    {
        self.count
    }

    /// The value and the number of rows of the group.
    pub fn into_parts(self) -> (parts: (Value, usize))
        ensures
            (parts.0@, parts.1) == self@,
    {
        (self.value, self.count)
    }
}

/// How two values of one column compare. Floating-point values compare by their bits: zeros
/// of both signs differ, and NaNs have their places.
pub open spec fn cell_order(a: Datum, b: Datum) -> Order {
    match (a, b) {
        (Datum::Int64(x), Datum::Int64(y)) => int_order(x as int, y as int),
        (Datum::Float64(x), Datum::Float64(y)) => total_float_order(x, y),
        (Datum::Bool(x), Datum::Bool(y)) => bool_order(x, y),
        (Datum::Text(x), Datum::Text(y)) => text_order(x, y),
        _ => Order::Equal,
    }
}

/// Whether two values are of one type.
pub open spec fn same_type(a: Datum, b: Datum) -> bool {
    match (a, b) {
        (Datum::Int64(_), Datum::Int64(_)) => true,
        (Datum::Float64(_), Datum::Float64(_)) => true,
        (Datum::Bool(_), Datum::Bool(_)) => true,
        (Datum::Text(_), Datum::Text(_)) => true,
        _ => false,
    }
}

pub(crate) fn order_cells(a: &Value, b: &Value) -> (order: Order)
    ensures
        order == cell_order(a@, b@),
{
    match (a, b) {
        (Value::Int64(x), Value::Int64(y)) => order_i64(*x, *y),
        (Value::Float64(x), Value::Float64(y)) => compare_total(*x, *y),
        (Value::Bool(x), Value::Bool(y)) => order_bool(*x, *y),
        (Value::String(x), Value::String(y)) => order_text(x.as_str(), y.as_str()),
        _ => Order::Equal,
    }
}

/// Values of one type that compare as equal are equal.
pub proof fn cell_order_separates(a: Datum, b: Datum)
    requires
        same_type(a, b),
    ensures
        (cell_order(a, b) == Order::Equal) == (a == b),
        cell_order(b, a) == cell_order(a, b).flipped(),
{
    match (a, b) {
        (Datum::Float64(x), Datum::Float64(y)) => total_order_separates(x, y),
        (Datum::Text(x), Datum::Text(y)) => {
            text_order_equal(x, y, 0);
            text_order_flip(x, y, 0);
        },
        _ => {},
    }
}

/// Values of one type are in order one behind another.
pub proof fn cell_order_chains(a: Datum, b: Datum, c: Datum)
    requires
        same_type(a, b),
        same_type(b, c),
        cell_order(a, b) == Order::Less,
        cell_order(b, c) == Order::Less,
    ensures
        cell_order(a, c) == Order::Less,
{
    match (a, b, c) {
        (Datum::Text(x), Datum::Text(y), Datum::Text(z)) => {
            assert(rank_order(a, b) == Order::Less && rank_order(b, c) == Order::Less);
            rank_chains(a, b, c);
        },
        _ => {},
    }
}

impl PartialEq for GroupedCount {
    fn eq(&self, other: &Self) -> (r: bool) {
        self.count == other.count && match (&self.value, &other.value) {
            (Value::Int64(x), Value::Int64(y)) => *x == *y,
            (Value::Float64(x), Value::Float64(y)) => matches!(compare_total(*x, *y), Order::Equal),
            (Value::Bool(x), Value::Bool(y)) => *x == *y,
            (Value::String(x), Value::String(y)) => same_text(x.as_str(), y.as_str()),
            _ => false,
        }
    }
}

impl vstd::std_specs::cmp::PartialEqSpecImpl for GroupedCount {
    open spec fn obeys_eq_spec() -> bool {
        true
    }

    open spec fn eq_spec(&self, other: &Self) -> bool {
        self@.1 == other@.1 && (match (self@.0, other@.0) {
            (Datum::Int64(x), Datum::Int64(y)) => x == y,
            (Datum::Float64(x), Datum::Float64(y)) => total_float_order(x, y) == Order::Equal,
            (Datum::Bool(x), Datum::Bool(y)) => x == y,
            (Datum::Text(x), Datum::Text(y)) => x == y,
            _ => false,
        })
    }
}

impl Eq for GroupedCount {

}

/// A failure of a grouped count.
#[derive(Clone, Debug, PartialEq, Eq)]
pub enum GroupedCountError {
    /// The selection speaks of another number of rows.
    SelectionLengthMismatch { table_rows: usize, selection_rows: usize },
    /// There is no column of that name.
    FieldNotFound { name: String },
    /// There are more groups than allowed.
    GroupLimitExceeded { field: String, limit: usize },
    /// A count is out of range.
    CountOverflow { field: String },
    /// There is no memory for the groups.
    GroupAllocationFailed { requested_groups: usize },
    /// There is no memory for a text.
    StringAllocationFailed { field: String, required_bytes: usize },
}

/// The content of a failure.
pub enum GroupedCountFault {
    SelectionLengthMismatch { table_rows: usize, selection_rows: usize },
    FieldNotFound { name: Seq<char> },
    GroupLimitExceeded { field: Seq<char>, limit: usize },
    CountOverflow { field: Seq<char> },
    GroupAllocationFailed { requested_groups: usize },
    StringAllocationFailed { field: Seq<char>, required_bytes: usize },
}

impl View for GroupedCountError {
    type V = GroupedCountFault;

    open spec fn view(&self) -> GroupedCountFault {
        match *self {
            GroupedCountError::SelectionLengthMismatch { table_rows, selection_rows } => {
                GroupedCountFault::SelectionLengthMismatch { table_rows, selection_rows }
            },
            GroupedCountError::FieldNotFound { name } => GroupedCountFault::FieldNotFound {
                name: name@,
            },
            GroupedCountError::GroupLimitExceeded { field, limit } => {
                GroupedCountFault::GroupLimitExceeded { field: field@, limit }
            },
            GroupedCountError::CountOverflow { field } => GroupedCountFault::CountOverflow {
                field: field@,
            },
            GroupedCountError::GroupAllocationFailed { requested_groups } => {
                GroupedCountFault::GroupAllocationFailed { requested_groups }
            },
            GroupedCountError::StringAllocationFailed { field, required_bytes } => {
                GroupedCountFault::StringAllocationFailed { field: field@, required_bytes }
            },
        }
    }
}

/// The text of a failure.
pub open spec fn count_text(fault: GroupedCountFault) -> Seq<char> {
    match fault {
        GroupedCountFault::SelectionLengthMismatch { table_rows, selection_rows } =>
        "selection represents "@ + int_text(selection_rows as int) + " rows; table contains "@
            + int_text(table_rows as int) + " rows"@,
        GroupedCountFault::FieldNotFound { name } => "field `"@ + name + "` does not exist"@,
        GroupedCountFault::GroupLimitExceeded { field, limit } => "grouped count for field `"@
            + field + "` exceeds group limit "@ + int_text(limit as int),
        GroupedCountFault::CountOverflow { field } => "grouped count for field `"@ + field
            + "` overflowed"@,
        GroupedCountFault::GroupAllocationFailed { requested_groups } =>
        "could not reserve storage for "@ + int_text(requested_groups as int) + " grouped counts"@,
        GroupedCountFault::StringAllocationFailed { field, required_bytes } => "could not reserve "@
            + int_text(required_bytes as int) + " bytes for a String key of field `"@ + field
            + "`"@,
    }
}

impl GroupedCountError {
    /// Describes the failure.
    pub fn message(&self) -> (s: String)
        ensures
            s@ == count_text(self@),
    {
        match self {
            GroupedCountError::SelectionLengthMismatch { table_rows, selection_rows } => concat5(
                "selection represents ",
                usize_text(*selection_rows).as_str(),
                " rows; table contains ",
                usize_text(*table_rows).as_str(),
                " rows",
            ),
            GroupedCountError::FieldNotFound { name } => concat3(
                "field `",
                name.as_str(),
                "` does not exist",
            ),
            GroupedCountError::GroupLimitExceeded { field, limit } => concat4(
                "grouped count for field `",
                field.as_str(),
                "` exceeds group limit ",
                usize_text(*limit).as_str(),
            ),
            GroupedCountError::CountOverflow { field } => concat3(
                "grouped count for field `",
                field.as_str(),
                "` overflowed",
            ),
            GroupedCountError::GroupAllocationFailed { requested_groups } => concat3(
                "could not reserve storage for ",
                usize_text(*requested_groups).as_str(),
                " grouped counts",
            ),
            GroupedCountError::StringAllocationFailed { field, required_bytes } => concat5(
                "could not reserve ",
                usize_text(*required_bytes).as_str(),
                " bytes for a String key of field `",
                field.as_str(),
                "`",
            ),
        }
    }
}

/// `Vec::try_reserve_exact`: the elements stay as they were. Nothing is reserved for no more
/// elements, which succeeds; more elements than `isize::MAX`, each of some size, overflow the
/// capacity, which fails. Whether memory for a number between can be had depends on the
/// machine, and is left open.
#[verifier::external_body]
fn try_reserve(groups: &mut Vec<GroupedCount>, additional: usize) -> (reserved: bool)
    ensures
        final(groups)@ == old(groups)@,
        additional == 0 ==> reserved,
        additional > isize::MAX ==> !reserved,
{
    groups.try_reserve_exact(additional).is_ok()
}

/// `String::try_reserve_exact` on an empty string, which stays empty. Nothing is reserved for
/// no bytes, which succeeds; more bytes than `isize::MAX` overflow the capacity, which fails.
/// Whether memory for a number between can be had depends on the machine, and is left open.
#[verifier::external_body]
fn try_string(bytes: usize) -> (r: Option<String>)
    ensures
        r matches Some(s) ==> s@ == Seq::<char>::empty(),
        bytes == 0 ==> r is Some,
        bytes > isize::MAX ==> r is None,
{
    let mut text = String::new();
    text.try_reserve_exact(bytes).ok().map(|_| text)
}

/// What comes of reserving memory for groups.
pub fn group_reservation(reserved: bool, requested_groups: usize) -> (r: Result<(), GroupedCountError>)
    ensures
        match r {
            Ok(_) => reserved,
            Err(e) => !reserved && e@ == (GroupedCountFault::GroupAllocationFailed {
                requested_groups,
            }),
        },
{
    if reserved {
        Ok(())
    } else {
        Err(GroupedCountError::GroupAllocationFailed { requested_groups })
    }
}

/// Reserves memory for groups. Nothing to reserve succeeds, and more groups than can be
/// addressed fail.
pub fn reserve_groups(groups: &mut Vec<GroupedCount>, requested_groups: usize) -> (r: Result<
    (),
    GroupedCountError,
>)
    ensures
        final(groups)@ == old(groups)@,
        match r {
            Ok(_) => requested_groups <= isize::MAX,
            Err(e) => requested_groups > 0 && e@ == (GroupedCountFault::GroupAllocationFailed {
                requested_groups,
            }),
        },
{
    let reserved = try_reserve(groups, requested_groups);
    group_reservation(reserved, requested_groups)
}

/// What comes of reserving memory for a text.
pub fn string_reservation(reserved: Option<String>, field: &str, required_bytes: usize) -> (r: Result<
    String,
    GroupedCountError,
>)
    ensures
        match r {
            Ok(s) => reserved matches Some(text) && s@ == text@,
            Err(e) => reserved is None && e@ == (GroupedCountFault::StringAllocationFailed {
                field: field@,
                required_bytes,
            }),
        },
{
    match reserved {
        Some(s) => Ok(s),
        None => Err(
            GroupedCountError::StringAllocationFailed { field: field.to_owned(), required_bytes },
        ),
    }
}

/// Reserves memory for a text. Nothing to reserve succeeds, and more bytes than can be
/// addressed fail.
pub fn reserve_string(field: &str, required_bytes: usize) -> (r: Result<String, GroupedCountError>)
    ensures
        match r {
            Ok(s) => required_bytes <= isize::MAX && s@ == Seq::<char>::empty(),
            Err(e) => required_bytes > 0 && e@ == (GroupedCountFault::StringAllocationFailed {
                field: field@,
                required_bytes,
            }),
        },
{
    string_reservation(try_string(required_bytes), field, required_bytes)
}

/// Adds one to a count. A count that is out of range stays as it was.
pub fn increment_count(field: &str, count: &mut usize) -> (r: Result<(), GroupedCountError>)
    ensures
        match r {
            Ok(_) => *old(count) < usize::MAX && *final(count) == *old(count) + 1,
            Err(e) => *old(count) == usize::MAX && *final(count) == *old(count) && e@ == (
            GroupedCountFault::CountOverflow { field: field@ }),
        },
{
    if *count == usize::MAX {
        return Err(GroupedCountError::CountOverflow { field: field.to_owned() });
    }
    *count = *count + 1;
    Ok(())
}

/// The place of the first group from a position on that does not come before a value.
pub open spec fn group_place(groups: Seq<(Datum, usize)>, d: Datum, i: int) -> int
    decreases groups.len() - i,
{
    if 0 <= i < groups.len() && cell_order(groups[i].0, d) == Order::Less {
        group_place(groups, d, i + 1)
    } else {
        i
    }
}

/// The groups with one more row.
pub open spec fn groups_with(
    groups: Seq<(Datum, usize)>,
    d: Datum,
    field: Seq<char>,
    max_groups: usize,
) -> Result<Seq<(Datum, usize)>, GroupedCountFault> {
    let at = group_place(groups, d, 0);
    if 0 <= at < groups.len() && cell_order(groups[at].0, d) == Order::Equal {
        if groups[at].1 == usize::MAX {
            Err(GroupedCountFault::CountOverflow { field })
        } else {
            Ok(groups.update(at, (groups[at].0, (groups[at].1 + 1) as usize)))
        }
    } else if groups.len() == max_groups {
        Err(GroupedCountFault::GroupLimitExceeded { field, limit: max_groups })
    } else {
        Ok(groups.insert(at, (d, 1)))
    }
}

/// Whether a value needs a group of its own beside those there are, and may have one.
pub open spec fn opens_group(groups: Seq<(Datum, usize)>, d: Datum, max_groups: usize) -> bool {
    let at = group_place(groups, d, 0);
    !(0 <= at < groups.len() && cell_order(groups[at].0, d) == Order::Equal) && groups.len()
        != max_groups
}

/// The groups of the rows from a position on, on top of others.
pub open spec fn groups_from(
    groups: Seq<(Datum, usize)>,
    column: Column,
    rows: Seq<usize>,
    i: int,
    field: Seq<char>,
    max_groups: usize,
) -> Result<Seq<(Datum, usize)>, GroupedCountFault>
    decreases rows.len() - i,
{
    if !(0 <= i < rows.len()) {
        Ok(groups)
    } else {
        match groups_with(groups, column.cell(rows[i] as int), field, max_groups) {
            Err(fault) => Err(fault),
            Ok(next) => groups_from(next, column, rows, i + 1, field, max_groups),
        }
    }
}

/// The first field from a position on with a name.
pub open spec fn field_named(fields: Seq<String>, name: Seq<char>, i: int) -> Option<int>
    decreases fields.len() - i,
{
    if !(0 <= i < fields.len()) {
        None
    } else if fields[i]@ == name {
        Some(i)
    } else {
        field_named(fields, name, i + 1)
    }
}

/// The rows that are counted.
pub open spec fn counted_rows(selection: Option<&RowSelection>, rows: usize) -> Seq<usize> {
    match selection {
        Some(s) => selected_below(s.mask@, s.mask@.len() as int),
        None => Seq::new(rows as nat, |i: int| i as usize),
    }
}

/// The grouped count of a column.
pub open spec fn grouped_counts(
    t: Table,
    field: Seq<char>,
    selection: Option<&RowSelection>,
    max_groups: usize,
) -> Result<Seq<(Datum, usize)>, GroupedCountFault> {
    if selection matches Some(s) && s.mask@.len() != t.rows {
        Err(
            GroupedCountFault::SelectionLengthMismatch {
                table_rows: t.rows,
                selection_rows: selection.unwrap().mask@.len() as usize,
            },
        )
    } else {
        match field_named(t.fields@, field, 0) {
            None => Err(GroupedCountFault::FieldNotFound { name: field }),
            Some(c) => groups_from(
                Seq::empty(),
                t.columns@[c],
                counted_rows(selection, t.rows),
                0,
                field,
                max_groups,
            ),
        }
    }
}

/// The contents of groups.
pub open spec fn counts_of(groups: Seq<GroupedCount>) -> Seq<(Datum, usize)> {
    Seq::new(groups.len(), |i: int| groups[i]@)
}

/// Whether groups stand in the order of their values, each once.
pub open spec fn ascending_groups(groups: Seq<(Datum, usize)>) -> bool {
    forall|i: int, j: int|
        #![trigger groups[i], groups[j]]
        0 <= i < j < groups.len() ==> cell_order(groups[i].0, groups[j].0) == Order::Less
}

/// Whether groups hold values of a column.
pub open spec fn of_type(groups: Seq<(Datum, usize)>, column: Column) -> bool {
    forall|i: int|
        0 <= i < groups.len() ==> same_type((#[trigger] groups[i]).0, column.cell(0))
}

proof fn place_is_found(groups: Seq<(Datum, usize)>, d: Datum, i: int, at: int)
    requires
        0 <= i <= at <= groups.len(),
        forall|k: int| i <= k < at ==> cell_order((#[trigger] groups[k]).0, d) == Order::Less,
        at < groups.len() ==> cell_order(groups[at].0, d) != Order::Less,
    ensures
        group_place(groups, d, i) == at,
    decreases at - i,
{
    if i < at {
        assert(cell_order(groups[i].0, d) == Order::Less);
        place_is_found(groups, d, i + 1, at);
    }
}

/// Whether a fault tells that there was no memory for the text of the `k`-th row, which needs
/// a group of its own behind the groups of the rows before it.
pub open spec fn refused_at(
    fault: GroupedCountFault,
    column: Column,
    rows: Seq<usize>,
    k: int,
    field: Seq<char>,
    max_groups: usize,
) -> bool {
    &&& 0 <= k < rows.len()
    &&& groups_from(Seq::empty(), column, rows.take(k), 0, field, max_groups) matches Ok(groups)
        && opens_group(groups, column.cell(rows[k] as int), max_groups)
    &&& column.cell(rows[k] as int) matches Datum::Text(s) && utf8_len(s) > 0 && fault == (
    GroupedCountFault::StringAllocationFailed { field, required_bytes: utf8_len(s) as usize })
}

/// Whether a fault tells that there was no memory for the text of one of the rows.
pub open spec fn text_refused(
    fault: GroupedCountFault,
    column: Column,
    rows: Seq<usize>,
    field: Seq<char>,
    max_groups: usize,
) -> bool {
    exists|k: int| #[trigger] refused_at(fault, column, rows, k, field, max_groups)
}

proof fn groups_of_prefix(
    groups: Seq<(Datum, usize)>,
    column: Column,
    rows: Seq<usize>,
    i: int,
    n: int,
    field: Seq<char>,
    max_groups: usize,
)
    requires
        0 <= i <= n < rows.len(),
    ensures
        groups_from(groups, column, rows.take(n + 1), i, field, max_groups) == (match groups_from(
            groups,
            column,
            rows.take(n),
            i,
            field,
            max_groups,
        ) {
            Ok(found) => groups_with(found, column.cell(rows[n] as int), field, max_groups),
            Err(fault) => Err(fault),
        }),
    decreases n - i,
{
    if i < n {
        match groups_with(groups, column.cell(rows[i] as int), field, max_groups) {
            Ok(next) => groups_of_prefix(next, column, rows, i + 1, n, field, max_groups),
            Err(_) => {},
        }
    } else {
        match groups_with(groups, column.cell(rows[n] as int), field, max_groups) {
            Ok(next) => {
                assert(groups_from(next, column, rows.take(n + 1), i + 1, field, max_groups) == Ok::<
                    Seq<(Datum, usize)>,
                    GroupedCountFault,
                >(next));
            },
            Err(_) => {},
        }
    }
}

fn copy_cell(field: &str, column: &Column, row: usize) -> (r: Result<Value, GroupedCountError>)
    requires
        row < column.height(),
    ensures
        match r {
            Ok(v) => v@ == column.cell(row as int),
            Err(e) => column.cell(row as int) matches Datum::Text(s) && utf8_len(s) > 0 && e@ == (
            GroupedCountFault::StringAllocationFailed {
                field: field@,
                required_bytes: utf8_len(s) as usize,
            }),
        },
{
    match column {
        Column::String(values) => {
            let source = values[row].as_str();
            let mut text = reserve_string(field, byte_len(source))?;
            text.append(source);
            assert(text@ =~= source@);
            Ok(Value::String(text))
        },
        _ => Ok(column.value(row)),
    }
}

#[verifier::loop_isolation(false)]
fn search(groups: &Vec<GroupedCount>, value: &Value, Ghost(column): Ghost<Column>) -> (r: Result<
    usize,
    usize,
>)
    requires
        ascending_groups(counts_of(groups@)),
        of_type(counts_of(groups@), column),
        same_type(value@, column.cell(0)),
    ensures
        match r {
            Ok(at) => at < groups@.len() && group_place(counts_of(groups@), value@, 0) == at
                && cell_order(counts_of(groups@)[at as int].0, value@) == Order::Equal,
            Err(at) => at <= groups@.len() && group_place(counts_of(groups@), value@, 0) == at && (
            at < groups@.len() ==> cell_order(counts_of(groups@)[at as int].0, value@)
                == Order::Greater),
        },
{
    let ghost list = counts_of(groups@);
    let mut low: usize = 0;
    let mut high: usize = groups.len();
    while low < high
        invariant
            low <= high <= groups.len(),
            forall|k: int| 0 <= k < low ==> cell_order((#[trigger] list[k]).0, value@) == Order::Less,
            forall|k: int|
                high <= k < list.len() ==> cell_order((#[trigger] list[k]).0, value@)
                    == Order::Greater,
        decreases high - low,
    {
        let middle = low + (high - low) / 2;
        assert(list[middle as int] == groups@[middle as int]@);
        match order_cells(&groups[middle].value, value) {
            Order::Less => {
                proof {
                    assert forall|k: int| 0 <= k < middle + 1 implies cell_order(
                        (#[trigger] list[k]).0,
                        value@,
                    ) == Order::Less by {
                        if low <= k < middle {
                            assert(cell_order(list[k].0, list[middle as int].0) == Order::Less);
                            cell_order_chains(list[k].0, list[middle as int].0, value@);
                        }
                    }
                }
                low = middle + 1;
            },
            Order::Equal => {
                proof {
                    assert forall|k: int| 0 <= k < middle implies cell_order(
                        (#[trigger] list[k]).0,
                        value@,
                    ) == Order::Less by {
                        if low <= k {
                            assert(cell_order(list[k].0, list[middle as int].0) == Order::Less);
                            cell_order_separates(list[middle as int].0, value@);
                        }
                    }
                    place_is_found(list, value@, 0, middle as int);
                }
                return Ok(middle);
            },
            Order::Greater => {
                proof {
                    assert forall|k: int| middle <= k < list.len() implies cell_order(
                        (#[trigger] list[k]).0,
                        value@,
                    ) == Order::Greater by {
                        if middle < k < high {
                            assert(cell_order(list[middle as int].0, list[k].0) == Order::Less);
                            cell_order_separates(list[middle as int].0, value@);
                            cell_order_chains(value@, list[middle as int].0, list[k].0);
                            cell_order_separates(value@, list[k].0);
                        }
                    }
                }
                high = middle;
            },
        }
    }
    proof {
        place_is_found(list, value@, 0, low as int);
    }
    Err(low)
}

proof fn place_splits(groups: Seq<(Datum, usize)>, d: Datum, i: int)
    requires
        0 <= i <= groups.len(),
    ensures
        i <= group_place(groups, d, i) <= groups.len(),
        forall|k: int|
            i <= k < group_place(groups, d, i) ==> cell_order((#[trigger] groups[k]).0, d)
                == Order::Less,
        group_place(groups, d, i) < groups.len() ==> cell_order(
            groups[group_place(groups, d, i)].0,
            d,
        ) != Order::Less,
    decreases groups.len() - i,
{
    if i < groups.len() && cell_order(groups[i].0, d) == Order::Less {
        place_splits(groups, d, i + 1);
    }
}

proof fn greater_stays(groups: Seq<(Datum, usize)>, d: Datum, at: int, k: int)
    requires
        ascending_groups(groups),
        0 <= at <= k < groups.len(),
        cell_order(groups[at].0, d) == Order::Greater,
        same_type(groups[at].0, d),
        same_type(groups[k].0, d),
    ensures
        cell_order(groups[k].0, d) == Order::Greater,
{
    if at < k {
        assert(cell_order(groups[at].0, groups[k].0) == Order::Less);
        cell_order_separates(groups[at].0, d);
        cell_order_chains(d, groups[at].0, groups[k].0);
        cell_order_separates(d, groups[k].0);
    }
}

proof fn insertion_keeps_order(groups: Seq<(Datum, usize)>, d: Datum, at: int, column: Column)
    requires
        ascending_groups(groups),
        of_type(groups, column),
        same_type(d, column.cell(0)),
        at == group_place(groups, d, 0),
        at < groups.len() ==> cell_order(groups[at].0, d) == Order::Greater,
    ensures
        ascending_groups(groups.insert(at, (d, 1))),
        of_type(groups.insert(at, (d, 1)), column),
{
    place_splits(groups, d, 0);
    let after = groups.insert(at, (d, 1));
    assert forall|a: int, b: int|
        #![trigger after[a], after[b]]
        0 <= a < b < after.len() implies cell_order(after[a].0, after[b].0) == Order::Less by {
        let x = if a < at { a } else { a - 1 };
        let y = if b < at { b } else { b - 1 };
        if a == at {
            assert(after[b] == groups[y]);
            greater_stays(groups, d, at, y);
            cell_order_separates(groups[y].0, d);
        } else if b == at {
            assert(after[a] == groups[x]);
        } else {
            assert(after[a] == groups[x] && after[b] == groups[y]);
        }
    }
    assert forall|k: int| 0 <= k < after.len() implies same_type(
        (#[trigger] after[k]).0,
        column.cell(0),
    ) by {
        if k < at {
            assert(after[k] == groups[k]);
        } else if k > at {
            assert(after[k] == groups[k - 1]);
        }
    }
}

proof fn counting_keeps_order(groups: Seq<(Datum, usize)>, at: int, count: usize, column: Column)
    requires
        ascending_groups(groups),
        of_type(groups, column),
        0 <= at < groups.len(),
    ensures
        ascending_groups(groups.update(at, (groups[at].0, count))),
        of_type(groups.update(at, (groups[at].0, count)), column),
{
    let after = groups.update(at, (groups[at].0, count));
    assert(forall|k: int| 0 <= k < groups.len() ==> (#[trigger] after[k]).0 == groups[k].0);
}

/// Counts a row in the group of its value, or finds the place of a new group for it.
pub fn place_row(
    field: &str,
    column: &Column,
    row: usize,
    max_groups: usize,
    groups: &mut Vec<GroupedCount>,
) -> (r: Result<Option<usize>, GroupedCountError>)
    requires
        row < column.height(),
        ascending_groups(counts_of(old(groups)@)),
        of_type(counts_of(old(groups)@), *column),
    ensures
        ascending_groups(counts_of(final(groups)@)),
        of_type(counts_of(final(groups)@), *column),
        opens_group(counts_of(old(groups)@), column.cell(row as int), max_groups) <==> r matches Ok(
            Some(_),
        ),
        match r {
            Ok(None) => groups_with(
                counts_of(old(groups)@),
                column.cell(row as int),
                field@,
                max_groups,
            ) == Ok::<_, GroupedCountFault>(counts_of(final(groups)@)),
            Ok(Some(at)) => {
                &&& final(groups)@ == old(groups)@
                &&& at == group_place(counts_of(old(groups)@), column.cell(row as int), 0)
            },
            Err(e) => {
                &&& final(groups)@ == old(groups)@
                &&& groups_with(
                    counts_of(old(groups)@),
                    column.cell(row as int),
                    field@,
                    max_groups,
                ) == Err::<Seq<(Datum, usize)>, _>(e@)
            },
        },
{
    let ghost before = counts_of(groups@);
    let value = column.value(row);
    match search(groups, &value, Ghost(*column)) {
        Ok(at) => {
            assert(before[at as int] == groups@[at as int]@);
            let mut count = groups[at].count;
            increment_count(field, &mut count)?;
            let mut group = GroupedCount { value: Value::Null, count };
            std::mem::swap(&mut group, &mut groups[at]);
            let updated = GroupedCount { value: group.value, count };
            groups[at] = updated;
            proof {
                counting_keeps_order(before, at as int, count, *column);
                assert(counts_of(groups@) =~= before.update(
                    at as int,
                    (before[at as int].0, count),
                ));
            }
            Ok(None)
        },
        Err(at) => {
            if groups.len() == max_groups {
                return Err(
                    GroupedCountError::GroupLimitExceeded {
                        field: field.to_owned(),
                        limit: max_groups,
                    },
                );
            }
            Ok(Some(at))
        },
    }
}

/// Opens a group of one row at its place, given the copy of its value, or why there is none.
pub fn open_group(
    groups: &mut Vec<GroupedCount>,
    at: usize,
    copied: Result<Value, GroupedCountError>,
) -> (r: Result<(), GroupedCountError>)
    requires
        at <= old(groups)@.len(),
    ensures
        match copied {
            Ok(value) => r is Ok && counts_of(final(groups)@) == counts_of(old(groups)@).insert(
                at as int,
                (value@, 1),
            ),
            Err(e) => final(groups)@ == old(groups)@ && r == Err::<(), GroupedCountError>(e),
        },
{
    let ghost before = counts_of(groups@);
    match copied {
        Ok(value) => {
            groups.insert(at, GroupedCount { value, count: 1 });
            assert(counts_of(groups@) =~= before.insert(at as int, (value@, 1)));
            Ok(())
        },
        Err(e) => Err(e),
    }
}

/// Counts the rows of a column by value. Only the copy of a text can fail for want of memory.
#[verifier::loop_isolation(false)]
pub fn group_column(
    field: &str,
    column: &Column,
    rows: &Vec<usize>,
    max_groups: usize,
    groups: &mut Vec<GroupedCount>,
) -> (r: Result<(), GroupedCountError>)
    requires
        old(groups)@.len() == 0,
        forall|k: int| 0 <= k < rows@.len() ==> #[trigger] rows@[k] < column.height(),
    ensures
        match r {
            Ok(_) => groups_from(Seq::empty(), *column, rows@, 0, field@, max_groups) == Ok::<
                _,
                GroupedCountFault,
            >(counts_of(final(groups)@)) && ascending_groups(counts_of(final(groups)@)),
            Err(e) => if e@ is StringAllocationFailed {
                text_refused(e@, *column, rows@, field@, max_groups)
            } else {
                &&& !(e@ is GroupAllocationFailed)
                &&& groups_from(Seq::empty(), *column, rows@, 0, field@, max_groups) == Err::<
                    Seq<(Datum, usize)>,
                    _,
                >(e@)
            },
        },
{
    assert(counts_of(groups@) =~= Seq::<(Datum, usize)>::empty());
    let ghost none = Seq::<(Datum, usize)>::empty();
    let mut i: usize = 0;
    while i < rows.len()
        invariant
            i <= rows.len(),
            ascending_groups(counts_of(groups@)),
            of_type(counts_of(groups@), *column),
            groups_from(none, *column, rows@, 0, field@, max_groups) == groups_from(
                counts_of(groups@),
                *column,
                rows@,
                i as int,
                field@,
                max_groups,
            ),
            groups_from(none, *column, rows@.take(i as int), 0, field@, max_groups) == Ok::<
                Seq<(Datum, usize)>,
                GroupedCountFault,
            >(counts_of(groups@)),
        decreases rows.len() - i,
    {
        let row = rows[i];
        let ghost before = counts_of(groups@);
        let ghost cell = column.cell(row as int);
        proof {
            groups_of_prefix(none, *column, rows@, 0, i as int, field@, max_groups);
        }
        match place_row(field, column, row, max_groups, groups)? {
            Some(at) => {
                let copied = copy_cell(field, column, row);
                proof {
                    place_splits(before, cell, 0);
                    if copied is Err {
                        assert(refused_at(
                            copied->Err_0@,
                            *column,
                            rows@,
                            i as int,
                            field@,
                            max_groups,
                        ));
                    } else {
                        insertion_keeps_order(before, cell, at as int, *column);
                    }
                }
                open_group(groups, at, copied)?;
            },
            None => {},
        }
        i = i + 1;
    }
    assert(rows@.take(i as int) =~= rows@);
    Ok(())
}

/// Whether a column is there and the selection is one of its rows.
pub open spec fn countable(t: Table, field: Seq<char>, selection: Option<&RowSelection>) -> bool {
    &&& selection matches Some(s) ==> s.mask@.len() == t.rows
    &&& field_named(t.fields@, field, 0) is Some
}

/// The number of groups that memory is reserved for.
pub open spec fn requested(t: Table, selection: Option<&RowSelection>, max_groups: usize) -> usize {
    let rows = counted_rows(selection, t.rows).len();
    if rows < max_groups {
        rows as usize
    } else {
        max_groups
    }
}

impl Table {
    /// Counts the selected rows by the values of a column, smaller values first.
    ///
    /// More groups than allowed are a failure, never a shortened result. Where memory for the
    /// groups or for the text of one cannot be had, the failure says so.
    #[verifier::loop_isolation(false)]
    pub fn grouped_count(
        &self,
        field: &str,
        selection: Option<&RowSelection>,
        max_groups: usize,
    ) -> (r: Result<Vec<GroupedCount>, GroupedCountError>)
        requires
            self.wf(),
        ensures
            match r {
                Ok(groups) => {
                    &&& grouped_counts(*self, field@, selection, max_groups) == Ok::<
                        _,
                        GroupedCountFault,
                    >(counts_of(groups@))
                    &&& ascending_groups(counts_of(groups@))
                    &&& requested(*self, selection, max_groups) <= isize::MAX
                },
                Err(e) => match e@ {
                    GroupedCountFault::GroupAllocationFailed { requested_groups } => {
                        &&& countable(*self, field@, selection)
                        &&& requested_groups == requested(*self, selection, max_groups)
                        &&& requested_groups > 0
                    },
                    GroupedCountFault::StringAllocationFailed { .. } => {
                        &&& countable(*self, field@, selection)
                        &&& text_refused(
                            e@,
                            self.columns@[field_named(self.fields@, field@, 0).unwrap()],
                            counted_rows(selection, self.rows),
                            field@,
                            max_groups,
                        )
                    },
                    _ => grouped_counts(*self, field@, selection, max_groups) == Err::<
                        Seq<(Datum, usize)>,
                        _,
                    >(e@),
                },
            },
            !countable(*self, field@, selection) || requested(*self, selection, max_groups) == 0
                ==> match r {
                Ok(groups) => grouped_counts(*self, field@, selection, max_groups) == Ok::<
                    _,
                    GroupedCountFault,
                >(counts_of(groups@)),
                Err(e) => grouped_counts(*self, field@, selection, max_groups) == Err::<
                    Seq<(Datum, usize)>,
                    _,
                >(e@),
            },
    {
        if let Some(s) = selection {
            if s.len() != self.rows {
                return Err(
                    GroupedCountError::SelectionLengthMismatch {
                        table_rows: self.rows,
                        selection_rows: s.len(),
                    },
                );
            }
        }
        let mut c: usize = 0;
        while c < self.fields.len() && !same_text(self.fields[c].as_str(), field)
            invariant
                c <= self.fields.len(),
                field_named(self.fields@, field@, 0) == field_named(
                    self.fields@,
                    field@,
                    c as int,
                ),
            decreases self.fields.len() - c,
        {
            c = c + 1;
        }
        if c == self.fields.len() {
            return Err(GroupedCountError::FieldNotFound { name: field.to_owned() });
        }
        let rows = match selection {
            Some(s) => s.selected_rows(),
            None => all_rows(self.rows),
        };
        let expected = if rows.len() < max_groups {
            rows.len()
        } else {
            max_groups
        };
        let mut groups: Vec<GroupedCount> = Vec::new();
        reserve_groups(&mut groups, expected)?;
        group_column(field, &self.columns[c], &rows, max_groups, &mut groups)?;
        Ok(groups)
    }
}

fn all_rows(n: usize) -> (rows: Vec<usize>)
    ensures
        rows@ == Seq::new(n as nat, |i: int| i as usize),
        forall|k: int| 0 <= k < rows@.len() ==> #[trigger] rows@[k] < n,
{
    let mut rows: Vec<usize> = Vec::new();
    let mut i: usize = 0;
    while i < n
        invariant
            i <= n,
            rows@.len() == i,
            forall|k: int| 0 <= k < i ==> #[trigger] rows@[k] == k,
        decreases n - i,
    {
        rows.push(i);
        i = i + 1;
    }
    assert(rows@ =~= Seq::new(n as nat, |i: int| i as usize));
    rows
}

/// The number of the first `n` rows of a list that hold a value.
pub open spec fn occurrences(column: Column, rows: Seq<usize>, d: Datum, n: int) -> nat
    decreases n,
{
    if n <= 0 {
        0
    } else {
        occurrences(column, rows, d, n - 1) + if column.cell(rows[n - 1] as int) == d {
            1nat
        } else {
            0
        }
    }
}

/// Whether each value of the first `n` rows of a list has a group, and each group counts its
/// rows.
pub open spec fn counts_rows(
    groups: Seq<(Datum, usize)>,
    column: Column,
    rows: Seq<usize>,
    n: int,
) -> bool {
    &&& forall|k: int|
        0 <= k < groups.len() ==> (#[trigger] groups[k]).1 == occurrences(
            column,
            rows,
            groups[k].0,
            n,
        )
    &&& forall|d: Datum|
        #[trigger] occurrences(column, rows, d, n) > 0 ==> has_group(groups, d)
}

/// Whether a value has a group.
pub open spec fn has_group(groups: Seq<(Datum, usize)>, d: Datum) -> bool {
    exists|k: int| 0 <= k < groups.len() && (#[trigger] groups[k]).0 == d
}

proof fn one_more_row(column: Column, rows: Seq<usize>, i: int)
    requires
        0 <= i < rows.len(),
    ensures
        forall|v: Datum| #[trigger]
            occurrences(column, rows, v, i + 1) == occurrences(column, rows, v, i) + (if v
                == column.cell(rows[i] as int) {
                1nat
            } else {
                0
            }),
{
}

proof fn counting_a_known_value(
    groups: Seq<(Datum, usize)>,
    column: Column,
    rows: Seq<usize>,
    i: int,
    at: int,
    next: Seq<(Datum, usize)>,
)
    requires
        0 <= i < rows.len(),
        counts_rows(groups, column, rows, i),
        ascending_groups(groups),
        of_type(groups, column),
        0 <= at < groups.len(),
        groups[at].0 == column.cell(rows[i] as int),
        groups[at].1 < usize::MAX,
        next == groups.update(at, (groups[at].0, (groups[at].1 + 1) as usize)),
    ensures
        counts_rows(next, column, rows, i + 1),
{
    let d = groups[at].0;
    one_more_row(column, rows, i);
    assert forall|k: int| 0 <= k < next.len() implies (#[trigger] next[k]).1 == occurrences(
        column,
        rows,
        next[k].0,
        i + 1,
    ) by {
        assert(groups[k].1 == occurrences(column, rows, groups[k].0, i));
        if k < at {
            assert(cell_order(groups[k].0, groups[at].0) == Order::Less);
            cell_order_separates(groups[k].0, groups[at].0);
        } else if k > at {
            assert(cell_order(groups[at].0, groups[k].0) == Order::Less);
            cell_order_separates(groups[at].0, groups[k].0);
        }
    }
    assert forall|v: Datum| #[trigger] occurrences(column, rows, v, i + 1) > 0 implies has_group(
        next,
        v,
    ) by {
        if v == d {
            assert(next[at].0 == v);
        } else {
            assert(occurrences(column, rows, v, i) > 0);
            let k = choose|k: int| 0 <= k < groups.len() && (#[trigger] groups[k]).0 == v;
            assert(next[k].0 == v);
        }
    }
}

proof fn counting_a_new_value(
    groups: Seq<(Datum, usize)>,
    column: Column,
    rows: Seq<usize>,
    i: int,
    at: int,
    next: Seq<(Datum, usize)>,
)
    requires
        0 <= i < rows.len(),
        counts_rows(groups, column, rows, i),
        0 <= at <= groups.len(),
        !has_group(groups, column.cell(rows[i] as int)),
        next == groups.insert(at, (column.cell(rows[i] as int), 1)),
    ensures
        counts_rows(next, column, rows, i + 1),
{
    let d = column.cell(rows[i] as int);
    one_more_row(column, rows, i);
    assert(occurrences(column, rows, d, i) == 0);
    assert forall|k: int| 0 <= k < next.len() implies (#[trigger] next[k]).1 == occurrences(
        column,
        rows,
        next[k].0,
        i + 1,
    ) by {
        if k < at {
            assert(next[k] == groups[k]);
            assert(groups[k].0 != d);
        } else if k > at {
            assert(next[k] == groups[k - 1]);
            assert(groups[k - 1].0 != d);
        }
    }
    assert forall|v: Datum| #[trigger] occurrences(column, rows, v, i + 1) > 0 implies has_group(
        next,
        v,
    ) by {
        if v == d {
            assert(next[at].0 == v);
        } else {
            assert(occurrences(column, rows, v, i) > 0);
            let k = choose|k: int| 0 <= k < groups.len() && (#[trigger] groups[k]).0 == v;
            if k < at {
                assert(next[k].0 == v);
            } else {
                assert(next[k + 1].0 == v);
            }
        }
    }
}

proof fn counting_one_row(
    groups: Seq<(Datum, usize)>,
    column: Column,
    rows: Seq<usize>,
    i: int,
    field: Seq<char>,
    max_groups: usize,
)
    requires
        0 <= i < rows.len(),
        counts_rows(groups, column, rows, i),
        ascending_groups(groups),
        of_type(groups, column),
    ensures
        groups_with(groups, column.cell(rows[i] as int), field, max_groups) matches Ok(next) ==> {
            &&& counts_rows(next, column, rows, i + 1)
            &&& ascending_groups(next)
            &&& of_type(next, column)
        },
{
    let d = column.cell(rows[i] as int);
    let at = group_place(groups, d, 0);
    place_splits(groups, d, 0);
    if let Ok(next) = groups_with(groups, d, field, max_groups) {
        if at < groups.len() && cell_order(groups[at].0, d) == Order::Equal {
            cell_order_separates(groups[at].0, d);
            counting_keeps_order(groups, at, (groups[at].1 + 1) as usize, column);
            counting_a_known_value(groups, column, rows, i, at, next);
        } else {
            insertion_keeps_order(groups, d, at, column);
            if has_group(groups, d) {
                let k = choose|k: int| 0 <= k < groups.len() && (#[trigger] groups[k]).0 == d;
                cell_order_separates(groups[k].0, d);
                if k >= at {
                    greater_stays(groups, d, at, k);
                }
            }
            counting_a_new_value(groups, column, rows, i, at, next);
        }
    }
}

proof fn counting_rows(
    groups: Seq<(Datum, usize)>,
    column: Column,
    rows: Seq<usize>,
    i: int,
    field: Seq<char>,
    max_groups: usize,
)
    requires
        0 <= i <= rows.len(),
        counts_rows(groups, column, rows, i),
        ascending_groups(groups),
        of_type(groups, column),
    ensures
        groups_from(groups, column, rows, i, field, max_groups) matches Ok(after) ==> counts_rows(
            after,
            column,
            rows,
            rows.len() as int,
        ) && ascending_groups(after),
    decreases rows.len() - i,
{
    if i < rows.len() {
        counting_one_row(groups, column, rows, i, field, max_groups);
        if let Ok(next) = groups_with(groups, column.cell(rows[i] as int), field, max_groups) {
            counting_rows(next, column, rows, i + 1, field, max_groups);
        }
    }
}

/// A grouped count has one group for each value of the counted rows, smaller values first,
/// and each group counts the rows with its value.
pub proof fn groups_count_their_rows(
    t: Table,
    field: Seq<char>,
    selection: Option<&RowSelection>,
    max_groups: usize,
)
    ensures
        grouped_counts(t, field, selection, max_groups) matches Ok(groups) ==> {
            &&& ascending_groups(groups)
            &&& counts_rows(
                groups,
                t.columns@[field_named(t.fields@, field, 0).unwrap()],
                counted_rows(selection, t.rows),
                counted_rows(selection, t.rows).len() as int,
            )
        },
{
    if let Some(c) = field_named(t.fields@, field, 0) {
        let rows = counted_rows(selection, t.rows);
        assert(counts_rows(Seq::empty(), t.columns@[c], rows, 0));
        counting_rows(Seq::empty(), t.columns@[c], rows, 0, field, max_groups);
    }
}

} // verus!
