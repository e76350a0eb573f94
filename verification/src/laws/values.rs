//! The value of an expression on a row, whatever memory is left.

use vstd::prelude::*;
use crate::ast::{Argument, ArgumentValue, Arguments, SqlCall, SqlExpr};
use crate::binding::{call_name, call_type, Origin};
use crate::budget::Budget;
use crate::eval::{eval, eval_arguments, eval_call, eval_coalesce, eval_membership, row_scope};
use crate::float::FloatModel;
use crate::scalar::is_minimum;
use crate::types::{DataType, Datum, Fault};

verus! {

/// The value of an expression on a row of a source.
pub open spec fn value_on(e: SqlExpr, source: Origin, row: Option<usize>, m: FloatModel) -> Result<
    Datum,
    Fault,
> {
    eval(e, row_scope(source, row, None), m)
}

/// What an expression is on a row does not depend on the memory that is left, once there is
/// enough of it.
pub proof fn memory_decides_no_value(
    e: SqlExpr,
    source: Origin,
    row: Option<usize>,
    memory: Budget,
    m: FloatModel,
)
    ensures
        eval(e, row_scope(source, row, Some(memory)), m) matches Ok(d) ==> value_on(
            e,
            source,
            row,
            m,
        ) == Ok::<Datum, Fault>(d),
    decreases e, 0nat,
{
    let s = row_scope(source, row, Some(memory));
    let t = row_scope(source, row, None);
    match e {
        SqlExpr::Nested(expr) => memory_decides_no_value(*expr, source, row, memory, m),
        SqlExpr::Unary { op, expr } => if !is_minimum(op, *expr) {
            memory_decides_no_value(*expr, source, row, memory, m)
        },
        SqlExpr::Binary { left, op, right } => {
            memory_decides_no_value(*left, source, row, memory, m);
            memory_decides_no_value(*right, source, row, memory, m);
        },
        SqlExpr::Is { test, expr } => memory_decides_no_value(*expr, source, row, memory, m),
        SqlExpr::Between { expr, negated, low, high } => {
            memory_decides_no_value(*expr, source, row, memory, m);
            memory_decides_no_value(*low, source, row, memory, m);
            memory_decides_no_value(*high, source, row, memory, m);
        },
        SqlExpr::InList { expr, list, negated } => {
            memory_decides_no_value(*expr, source, row, memory, m);
            if let Ok(d) = eval(*expr, s, m) {
                memory_decides_no_membership(
                    d,
                    list@,
                    0,
                    Datum::Bool(false),
                    source,
                    row,
                    memory,
                    m,
                );
            }
        },
        SqlExpr::Like { expr, pattern, matching } => {
            memory_decides_no_value(*expr, source, row, memory, m);
            memory_decides_no_value(*pattern, source, row, memory, m);
        },
        SqlExpr::Cast { expr, target } => memory_decides_no_value(*expr, source, row, memory, m),
        SqlExpr::Call(call) => memory_decides_no_call(call, source, row, memory, m),
        _ => {},
    }
}

proof fn memory_decides_no_membership(
    needle: Datum,
    list: Seq<SqlExpr>,
    i: int,
    so_far: Datum,
    source: Origin,
    row: Option<usize>,
    memory: Budget,
    m: FloatModel,
)
    ensures
        eval_membership(needle, list, i, so_far, row_scope(source, row, Some(memory)), m) matches Ok(
            d,
        ) ==> eval_membership(needle, list, i, so_far, row_scope(source, row, None), m) == Ok::<
            Datum,
            Fault,
        >(d),
    decreases list, list.len() - i,
{
    if 0 <= i < list.len() {
        let s = row_scope(source, row, Some(memory));
        memory_decides_no_value(list[i], source, row, memory, m);
        memory_decides_no_membership(needle, list, i + 1, so_far, source, row, memory, m);
        memory_decides_no_membership(needle, list, i + 1, Datum::Null, source, row, memory, m);
    }
}

proof fn memory_decides_no_call(
    call: SqlCall,
    source: Origin,
    row: Option<usize>,
    memory: Budget,
    m: FloatModel,
)
    ensures
        eval_call(call, row_scope(source, row, Some(memory)), m) matches Ok(d) ==> eval_call(
            call,
            row_scope(source, row, None),
            m,
        ) == Ok::<Datum, Fault>(d),
    decreases call, 0nat,
{
    let s = row_scope(source, row, Some(memory));
    if let Arguments::List { items, treatment, clauses } = call.arguments {
        if let Ok(name) = call_name(call) {
            memory_decides_no_arguments(items@, 0, Seq::empty(), name, source, row, memory, m);
            if let Ok(result_type) = call_type(call, source, s.type_names, s.types, m) {
                memory_decides_no_coalesce(items@, 0, result_type, source, row, memory, m);
            }
        }
    }
}

proof fn memory_decides_no_coalesce(
    items: Seq<Argument>,
    i: int,
    result_type: Option<DataType>,
    source: Origin,
    row: Option<usize>,
    memory: Budget,
    m: FloatModel,
)
    ensures
        eval_coalesce(items, i, result_type, row_scope(source, row, Some(memory)), m) matches Ok(d)
            ==> eval_coalesce(items, i, result_type, row_scope(source, row, None), m) == Ok::<
            Datum,
            Fault,
        >(d),
    decreases items, items.len() - i,
{
    if 0 <= i < items.len() {
        if let ArgumentValue::Expr(e) = items[i].value {
            memory_decides_no_value(e, source, row, memory, m);
        }
        memory_decides_no_coalesce(items, i + 1, result_type, source, row, memory, m);
    }
}

proof fn memory_decides_no_arguments(
    items: Seq<Argument>,
    i: int,
    read: Seq<Datum>,
    name: Seq<char>,
    source: Origin,
    row: Option<usize>,
    memory: Budget,
    m: FloatModel,
)
    ensures
        eval_arguments(items, i, read, name, row_scope(source, row, Some(memory)), m) matches Ok(d)
            ==> eval_arguments(items, i, read, name, row_scope(source, row, None), m) == Ok::<
            Seq<Datum>,
            Fault,
        >(d),
    decreases items, items.len() - i,
{
    if 0 <= i < items.len() {
        if let ArgumentValue::Expr(e) = items[i].value {
            memory_decides_no_value(e, source, row, memory, m);
            if let Ok(d) = eval(e, row_scope(source, row, Some(memory)), m) {
                memory_decides_no_arguments(
                    items,
                    i + 1,
                    read.push(d),
                    name,
                    source,
                    row,
                    memory,
                    m,
                );
            }
        }
    }
}

} // verus!
