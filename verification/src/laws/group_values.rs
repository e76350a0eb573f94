//! The value of an expression on a group, whatever memory is left.

use vstd::prelude::*;
use crate::aggregates::{key_bytes, key_of};
use crate::ast::{Argument, ArgumentValue, Arguments, SqlCall, SqlExpr};
use crate::binding::{call_distinct, call_name, call_type, last_position, Origin};
use crate::budget::{datum_bytes, sat_sum, Budget, INDEX_BYTES};
use crate::eval::{aggregate_start, eval, eval_aggregate_call, eval_arguments, eval_call, eval_coalesce, eval_column, eval_membership, eval_scalar_call, row_scope, Scope};
use crate::float::FloatModel;
use crate::laws::values::memory_decides_no_value;
use crate::scalar::is_minimum;
use crate::text::lower;
use crate::types::{is_null, DataType, Datum};

verus! {

/// Whether two scopes differ in their memory at most.
pub open spec fn alike(s: Scope, t: Scope) -> bool {
    t == (Scope { memory: t.memory, ..s })
}

proof fn columns_agree(
    e: SqlExpr,
    rows: Seq<usize>,
    i: int,
    distinct: bool,
    data: Seq<Datum>,
    keys: Seq<Datum>,
    first: Budget,
    second: Budget,
    source: Origin,
    m: FloatModel,
)
    ensures
        eval_column(e, rows, i, distinct, data, keys, first, source, m) matches Ok((a, _)) ==> (
        eval_column(e, rows, i, distinct, data, keys, second, source, m) matches Ok((b, _)) ==> a
            == b),
    decreases rows.len() - i,
{
    if 0 <= i < rows.len() {
        memory_decides_no_value(e, source, Some(rows[i]), first, m);
        memory_decides_no_value(e, source, Some(rows[i]), second, m);
        let a = eval(e, row_scope(source, Some(rows[i]), Some(first)), m);
        let b = eval(e, row_scope(source, Some(rows[i]), Some(second)), m);
        if a is Ok && b is Ok {
            let d = a->Ok_0;
            if is_null(d) || (distinct && keys.contains(key_of(d))) {
                columns_agree(e, rows, i + 1, distinct, data, keys, first, second, source, m);
            } else {
                let bytes = sat_sum(key_bytes(key_of(d)), INDEX_BYTES);
                let x = if distinct {
                    first.taken(bytes)
                } else {
                    Ok(first)
                };
                let y = if distinct {
                    second.taken(bytes)
                } else {
                    Ok(second)
                };
                if x is Ok && y is Ok {
                    let (x, y) = (x->Ok_0.taken(datum_bytes(d)), y->Ok_0.taken(datum_bytes(d)));
                    if x is Ok && y is Ok {
                        columns_agree(
                            e,
                            rows,
                            i + 1,
                            distinct,
                            data.push(d),
                            if distinct {
                                keys.push(key_of(d))
                            } else {
                                keys
                            },
                            x->Ok_0,
                            y->Ok_0,
                            source,
                            m,
                        );
                    }
                }
            }
        }
    }
}

/// What an expression is in a scope does not depend on the memory that is left, once there is
/// enough of it.
pub proof fn values_agree(e: SqlExpr, s: Scope, t: Scope, m: FloatModel)
    requires
        alike(s, t),
    ensures
        eval(e, s, m) matches Ok(a) ==> (eval(e, t, m) matches Ok(b) ==> a == b),
    decreases s.lazy_names.len(), e, 0nat,
{
    match e {
        SqlExpr::Identifier(name) => {
            if last_position(s.value_names, lower(name.value@)) is None {
                if let Some(k) = last_position(s.lazy_names, lower(name.value@)) {
                    if s.lazy_names.len() > 0 {
                        values_agree(s.projections[k].expr, s.bare(), t.bare(), m);
                    }
                }
            }
        },
        SqlExpr::Nested(expr) => values_agree(*expr, s, t, m),
        SqlExpr::Unary { op, expr } => if !is_minimum(op, *expr) {
            values_agree(*expr, s, t, m)
        },
        SqlExpr::Binary { left, op, right } => {
            values_agree(*left, s, t, m);
            values_agree(*right, s, t, m);
        },
        SqlExpr::Is { test, expr } => values_agree(*expr, s, t, m),
        SqlExpr::Between { expr, negated, low, high } => {
            values_agree(*expr, s, t, m);
            values_agree(*low, s, t, m);
            values_agree(*high, s, t, m);
        },
        SqlExpr::InList { expr, list, negated } => {
            values_agree(*expr, s, t, m);
            if let Ok(d) = eval(*expr, s, m) {
                memberships_agree(d, list@, 0, Datum::Bool(false), s, t, m);
            }
        },
        SqlExpr::Like { expr, pattern, matching } => {
            values_agree(*expr, s, t, m);
            values_agree(*pattern, s, t, m);
        },
        SqlExpr::Cast { expr, target } => values_agree(*expr, s, t, m),
        SqlExpr::Call(call) => calls_agree(call, s, t, m),
        _ => {},
    }
}

proof fn memberships_agree(
    needle: Datum,
    list: Seq<SqlExpr>,
    i: int,
    so_far: Datum,
    s: Scope,
    t: Scope,
    m: FloatModel,
)
    requires
        alike(s, t),
    ensures
        eval_membership(needle, list, i, so_far, s, m) matches Ok(a) ==> (eval_membership(
            needle,
            list,
            i,
            so_far,
            t,
            m,
        ) matches Ok(b) ==> a == b),
    decreases s.lazy_names.len(), list, list.len() - i,
{
    if 0 <= i < list.len() {
        values_agree(list[i], s, t, m);
        memberships_agree(needle, list, i + 1, so_far, s, t, m);
        memberships_agree(needle, list, i + 1, Datum::Null, s, t, m);
    }
}

proof fn calls_agree(call: SqlCall, s: Scope, t: Scope, m: FloatModel)
    requires
        alike(s, t),
    ensures
        eval_call(call, s, m) matches Ok(a) ==> (eval_call(call, t, m) matches Ok(b) ==> a == b),
    decreases s.lazy_names.len(), call, 1nat,
{
    scalar_calls_agree(call, s, t, m);
    if let Some(rows) = s.rows {
        aggregate_calls_agree(call, rows, s, t, m);
    }
}

proof fn aggregate_calls_agree(call: SqlCall, rows: Seq<usize>, s: Scope, t: Scope, m: FloatModel)
    requires
        alike(s, t),
    ensures
        eval_aggregate_call(call, rows, s, m) matches Ok(a) ==> (eval_aggregate_call(
            call,
            rows,
            t,
            m,
        ) matches Ok(b) ==> a == b),
{
    let distinct = call_distinct(call);
    if let Arguments::List { items, treatment, clauses } = call.arguments {
        if items@.len() == 1 {
            if let ArgumentValue::Expr(e) = items@[0].value {
                let a = aggregate_start(s.memory->Some_0, distinct);
                let b = aggregate_start(t.memory->Some_0, distinct);
                if a is Ok && b is Ok {
                    columns_agree(
                        e,
                        rows,
                        0,
                        distinct,
                        Seq::empty(),
                        Seq::empty(),
                        a->Ok_0,
                        b->Ok_0,
                        s.source,
                        m,
                    );
                }
            }
        }
    }
}

proof fn scalar_calls_agree(call: SqlCall, s: Scope, t: Scope, m: FloatModel)
    requires
        alike(s, t),
    ensures
        eval_scalar_call(call, s, m) matches Ok(a) ==> (eval_scalar_call(call, t, m) matches Ok(b)
            ==> a == b),
    decreases s.lazy_names.len(), call, 0nat,
{
    if let Arguments::List { items, treatment, clauses } = call.arguments {
        if let Ok(name) = call_name(call) {
            arguments_agree(items@, 0, Seq::empty(), name, s, t, m);
            if let Ok(result_type) = call_type(call, s.source, s.type_names, s.types, m) {
                coalesces_agree(items@, 0, result_type, s, t, m);
            }
        }
    }
}

proof fn coalesces_agree(
    items: Seq<Argument>,
    i: int,
    result_type: Option<DataType>,
    s: Scope,
    t: Scope,
    m: FloatModel,
)
    requires
        alike(s, t),
    ensures
        eval_coalesce(items, i, result_type, s, m) matches Ok(a) ==> (eval_coalesce(
            items,
            i,
            result_type,
            t,
            m,
        ) matches Ok(b) ==> a == b),
    decreases s.lazy_names.len(), items, items.len() - i,
{
    if 0 <= i < items.len() {
        if let ArgumentValue::Expr(e) = items[i].value {
            values_agree(e, s, t, m);
        }
        coalesces_agree(items, i + 1, result_type, s, t, m);
    }
}

proof fn arguments_agree(
    items: Seq<Argument>,
    i: int,
    read: Seq<Datum>,
    name: Seq<char>,
    s: Scope,
    t: Scope,
    m: FloatModel,
)
    requires
        alike(s, t),
    ensures
        eval_arguments(items, i, read, name, s, m) matches Ok(a) ==> (eval_arguments(
            items,
            i,
            read,
            name,
            t,
            m,
        ) matches Ok(b) ==> a == b),
    decreases s.lazy_names.len(), items, items.len() - i,
{
    if 0 <= i < items.len() {
        if let ArgumentValue::Expr(e) = items[i].value {
            values_agree(e, s, t, m);
            if let Ok(d) = eval(e, s, m) {
                arguments_agree(items, i + 1, read.push(d), name, s, t, m);
            }
        }
    }
}

} // verus!
