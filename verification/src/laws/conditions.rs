//! What conditions and function calls in SQL expressions are for.

use vstd::prelude::*;
use crate::ast::{Argument, BinaryKind, SqlBinary, SqlCall, SqlExpr, SqlName, SqlUnary, Test};
use crate::binding::{call_distinct, call_items, call_name, call_type, last_position};
use crate::eval::{eval, eval_call, eval_coalesce, eval_membership, eval_scalar_call, Scope};
use crate::float::FloatModel;
use crate::laws::orders::{below, not_a_number};
use crate::laws::scalars::comparisons_tell_the_smaller;
use crate::ordering::same_kind;
use crate::scalar::{cast_datum, is_minimum};
use crate::text::lower;
use crate::types::{DataType, Datum, Fault};

verus! {

/// `x BETWEEN low AND high` has the value of `x >= low AND x <= high`, and fails as it does;
/// `x NOT BETWEEN low AND high` has the negated value.
pub proof fn between_is_two_comparisons(
    x: SqlExpr,
    low: SqlExpr,
    high: SqlExpr,
    ge: SqlBinary,
    le: SqlBinary,
    and: SqlBinary,
    s: Scope,
    m: FloatModel,
)
    requires
        ge.kind is GtEq,
        le.kind is LtEq,
        and.kind is And,
    ensures
        ({
            let plain = SqlExpr::Between {
                expr: Box::new(x),
                negated: false,
                low: Box::new(low),
                high: Box::new(high),
            };
            let negated = SqlExpr::Between {
                expr: Box::new(x),
                negated: true,
                low: Box::new(low),
                high: Box::new(high),
            };
            let above = SqlExpr::Binary { left: Box::new(x), op: ge, right: Box::new(low) };
            let under = SqlExpr::Binary { left: Box::new(x), op: le, right: Box::new(high) };
            let both = SqlExpr::Binary { left: Box::new(above), op: and, right: Box::new(under) };
            &&& eval(plain, s, m) == eval(both, s, m)
            &&& eval(negated, s, m) == match eval(both, s, m) {
                Ok(Datum::Bool(b)) => Ok::<Datum, Fault>(Datum::Bool(!b)),
                other => other,
            }
        }),
{
    let above = SqlExpr::Binary { left: Box::new(x), op: ge, right: Box::new(low) };
    let under = SqlExpr::Binary { left: Box::new(x), op: le, right: Box::new(high) };
    let both = SqlExpr::Binary { left: Box::new(above), op: and, right: Box::new(under) };
    reveal_with_fuel(eval, 3);
    assert(eval(above, s, m) == match eval(x, s, m) {
        Err(fault) => Err(fault),
        Ok(a) => match eval(low, s, m) {
            Err(fault) => Err(fault),
            Ok(b) => crate::scalar::binary_datum(m, a, ge.kind, ge.text@, b, s.memory),
        },
    });
    assert(eval(under, s, m) == match eval(x, s, m) {
        Err(fault) => Err(fault),
        Ok(a) => match eval(high, s, m) {
            Err(fault) => Err(fault),
            Ok(b) => crate::scalar::binary_datum(m, a, le.kind, le.text@, b, s.memory),
        },
    });
}

/// Between integers, `BETWEEN` is true exactly from the lower bound up to the upper one, both
/// among them, and `NOT BETWEEN` exactly outside.
pub proof fn between_holds_from_low_to_high(
    x: SqlExpr,
    low: SqlExpr,
    high: SqlExpr,
    v: i64,
    a: i64,
    b: i64,
    s: Scope,
    m: FloatModel,
)
    requires
        eval(x, s, m) == Ok::<Datum, Fault>(Datum::Int64(v)),
        eval(low, s, m) == Ok::<Datum, Fault>(Datum::Int64(a)),
        eval(high, s, m) == Ok::<Datum, Fault>(Datum::Int64(b)),
    ensures
        eval(
            SqlExpr::Between {
                expr: Box::new(x),
                negated: false,
                low: Box::new(low),
                high: Box::new(high),
            },
            s,
            m,
        ) == Ok::<Datum, Fault>(Datum::Bool(a <= v && v <= b)),
        eval(
            SqlExpr::Between {
                expr: Box::new(x),
                negated: true,
                low: Box::new(low),
                high: Box::new(high),
            },
            s,
            m,
        ) == Ok::<Datum, Fault>(Datum::Bool(v < a || v > b)),
{
}

/// Whether two data can be tested for equality.
pub open spec fn comparable(a: Datum, b: Datum) -> bool {
    same_kind(a, b) && !not_a_number(a) && !not_a_number(b)
}

/// Whether two data are known and equal.
#[verifier::opaque]
pub open spec fn known_equal(a: Datum, b: Datum) -> bool {
    !(a is Null) && !(b is Null) && !below(a, b) && !below(b, a)
}

/// What a list of data says of a datum: that it is there, that it may be there, or that it is
/// not there.
pub open spec fn membership(needle: Datum, data: Seq<Datum>) -> Datum {
    if exists|k: int| 0 <= k < data.len() && known_equal(needle, #[trigger] data[k]) {
        Datum::Bool(true)
    } else if data.len() > 0 && (needle is Null || exists|k: int|
        0 <= k < data.len() && #[trigger] data[k] is Null) {
        Datum::Null
    } else {
        Datum::Bool(false)
    }
}

proof fn equality_is_known(needle: Datum, d: Datum, s: Scope, m: FloatModel)
    requires
        needle is Null || d is Null || comparable(needle, d),
    ensures
        crate::scalar::binary_datum(m, needle, BinaryKind::Eq, "="@, d, s.memory) == Ok::<
            Datum,
            Fault,
        >(
            if known_equal(needle, d) {
                Datum::Bool(true)
            } else if needle is Null || d is Null {
                Datum::Null
            } else {
                Datum::Bool(false)
            },
        ),
        known_equal(needle, d) ==> !(needle is Null) && !(d is Null),
{
    reveal(known_equal);
    comparisons_tell_the_smaller(m, needle, d, BinaryKind::Eq, "="@, s.memory);
}

/// What the first data of a list leave open.
spec fn left_open(needle: Datum, data: Seq<Datum>, i: int) -> Datum {
    if i > 0 && (needle is Null || exists|k: int| 0 <= k < i && #[trigger] data[k] is Null) {
        Datum::Null
    } else {
        Datum::Bool(false)
    }
}

proof fn one_more_is_left_open(needle: Datum, data: Seq<Datum>, i: int)
    requires
        0 <= i < data.len(),
    ensures
        left_open(needle, data, i + 1) == (if needle is Null || data[i] is Null {
            Datum::Null
        } else {
            left_open(needle, data, i)
        }),
{
    if exists|k: int| 0 <= k < i + 1 && #[trigger] data[k] is Null {
        let k = choose|k: int| 0 <= k < i + 1 && #[trigger] data[k] is Null;
        if k < i {
            assert(data[k] is Null);
        }
    }
}

#[verifier::spinoff_prover]
proof fn membership_is_found(
    needle: Datum,
    list: Seq<SqlExpr>,
    i: int,
    so_far: Datum,
    data: Seq<Datum>,
    s: Scope,
    m: FloatModel,
)
    requires
        data.len() == list.len(),
        0 <= i <= list.len(),
        forall|k: int|
            0 <= k < list.len() ==> eval(#[trigger] list[k], s, m) == Ok::<Datum, Fault>(data[k]),
        forall|k: int|
            0 <= k < list.len() ==> needle is Null || #[trigger] data[k] is Null || comparable(
                needle,
                data[k],
            ),
        forall|k: int| 0 <= k < i ==> !known_equal(needle, #[trigger] data[k]),
        so_far == left_open(needle, data, i),
    ensures
        eval_membership(needle, list, i, so_far, s, m) == Ok::<Datum, Fault>(
            membership(needle, data),
        ),
    decreases list.len() - i,
{
    if i < list.len() {
        assert(eval(list[i], s, m) == Ok::<Datum, Fault>(data[i]));
        assert(needle is Null || data[i] is Null || comparable(needle, data[i]));
        equality_is_known(needle, data[i], s, m);
        one_more_is_left_open(needle, data, i);
        if !known_equal(needle, data[i]) {
            let next = left_open(needle, data, i + 1);
            membership_is_found(needle, list, i + 1, next, data, s, m);
        }
    }
}

/// `x IN (..)` is true where an element is equal to `x`, unknown where none is but one, or `x`,
/// is NULL, and else false; `x NOT IN (..)` is the negation.
pub proof fn membership_in_a_list(
    x: SqlExpr,
    list: Vec<SqlExpr>,
    needle: Datum,
    data: Seq<Datum>,
    s: Scope,
    m: FloatModel,
)
    requires
        eval(x, s, m) == Ok::<Datum, Fault>(needle),
        data.len() == list@.len(),
        forall|k: int|
            0 <= k < data.len() ==> eval(#[trigger] list@[k], s, m) == Ok::<Datum, Fault>(data[k]),
        forall|k: int|
            0 <= k < data.len() ==> needle is Null || #[trigger] data[k] is Null || comparable(
                needle,
                data[k],
            ),
    ensures
        eval(SqlExpr::InList { expr: Box::new(x), list, negated: false }, s, m) == Ok::<Datum, Fault>(
            membership(needle, data),
        ),
        eval(SqlExpr::InList { expr: Box::new(x), list, negated: true }, s, m) == Ok::<Datum, Fault>(
            match membership(needle, data) {
                Datum::Bool(b) => Datum::Bool(!b),
                other => other,
            },
        ),
{
    membership_is_found(needle, list@, 0, Datum::Bool(false), data, s, m);
    reveal_with_fuel(eval, 2);
}

/// An operator of two operands is applied to their values, the left one first, and fails where
/// one of them does.
pub proof fn operands_are_evaluated(
    left: SqlExpr,
    op: SqlBinary,
    right: SqlExpr,
    s: Scope,
    m: FloatModel,
)
    ensures
        ({
            let whole = eval(
                SqlExpr::Binary { left: Box::new(left), op, right: Box::new(right) },
                s,
                m,
            );
            &&& whole is Ok ==> eval(left, s, m) is Ok && eval(right, s, m) is Ok
            &&& eval(left, s, m) matches Ok(a) ==> (eval(right, s, m) matches Ok(b) ==> whole
                == crate::scalar::binary_datum(m, a, op.kind, op.text@, b, s.memory))
        }),
{
}

/// Parentheses change nothing, `IS` tests the value of its operand, and a unary operator is
/// applied to it.
pub proof fn operand_is_evaluated(e: SqlExpr, test: Test, op: SqlUnary, s: Scope, m: FloatModel)
    ensures
        eval(SqlExpr::Nested(Box::new(e)), s, m) == eval(e, s, m),
        eval(e, s, m) matches Ok(d) ==> eval(SqlExpr::Is { test, expr: Box::new(e) }, s, m)
            == crate::eval::test_datum(test, d),
        eval(e, s, m) is Err ==> eval(SqlExpr::Is { test, expr: Box::new(e) }, s, m) is Err,
        !is_minimum(op, e) ==> (eval(e, s, m) matches Ok(d) ==> eval(
            SqlExpr::Unary { op, expr: Box::new(e) },
            s,
            m,
        ) == crate::scalar::unary_datum(op, d)),
{
}

/// A column name is the cell of the row in the column of that name.
pub proof fn column_names_read_cells(name: SqlName, s: Scope, row: usize, i: int, m: FloatModel)
    requires
        last_position(s.value_names, lower(name.value@)) is None,
        last_position(s.lazy_names, lower(name.value@)) is None,
        s.row == Some(row),
        s.source.column(name.value@, name.value@) == Ok::<int, Fault>(i),
    ensures
        eval(SqlExpr::Identifier(name), s, m) matches Ok(d) ==> d
            == s.source.table->Some_0.rows[row as int][i],
        s.memory is None ==> eval(SqlExpr::Identifier(name), s, m) is Ok,
{
}

proof fn first_known_is_taken(
    items: Seq<Argument>,
    i: int,
    at: int,
    result_type: Option<DataType>,
    s: Scope,
    m: FloatModel,
)
    requires
        0 <= i <= at <= items.len(),
        forall|k: int|
            0 <= k < items.len() ==> (#[trigger] items[k]).named is None && items[k].value is Expr,
        forall|k: int|
            i <= k < at ==> eval((#[trigger] items[k]).value->Expr_0, s, m) == Ok::<Datum, Fault>(
                Datum::Null,
            ),
        at < items.len() ==> eval(items[at].value->Expr_0, s, m) is Ok && !(eval(
            items[at].value->Expr_0,
            s,
            m,
        )->Ok_0 is Null),
    ensures
        eval_coalesce(items, i, result_type, s, m) == (if at == items.len() {
            Ok::<Datum, Fault>(Datum::Null)
        } else {
            let d = eval(items[at].value->Expr_0, s, m)->Ok_0;
            match result_type {
                Some(t) => cast_datum(m, d, t),
                None => Ok(d),
            }
        }),
    decreases at - i,
{
    if i < at {
        assert(items[i].named is None);
        assert(eval(items[i].value->Expr_0, s, m) == Ok::<Datum, Fault>(Datum::Null));
        first_known_is_taken(items, i + 1, at, result_type, s, m);
    } else if at < items.len() {
        assert(items[at].named is None);
    }
}

/// `COALESCE` is the first of its arguments that is not NULL, in the type of the call, and NULL
/// where there is none.
pub proof fn coalesce_takes_the_first_known(call: SqlCall, at: int, s: Scope, m: FloatModel)
    requires
        s.rows is None,
        call_name(call) == Ok::<Seq<char>, Fault>("coalesce"@),
        call.arguments is List,
        !call_distinct(call),
        call_type(call, s.source, s.type_names, s.types, m) is Ok,
        call_items(call).len() > 0,
        0 <= at <= call_items(call).len(),
        forall|k: int|
            0 <= k < call_items(call).len() ==> (#[trigger] call_items(call)[k]).named is None
                && call_items(call)[k].value is Expr,
        forall|k: int|
            0 <= k < at ==> eval((#[trigger] call_items(call)[k]).value->Expr_0, s, m) == Ok::<
                Datum,
                Fault,
            >(Datum::Null),
        at < call_items(call).len() ==> eval(call_items(call)[at].value->Expr_0, s, m) is Ok && !(eval(
            call_items(call)[at].value->Expr_0,
            s,
            m,
        )->Ok_0 is Null),
    ensures
        eval(SqlExpr::Call(call), s, m) == (if at == call_items(call).len() {
            Ok::<Datum, Fault>(Datum::Null)
        } else {
            let d = eval(call_items(call)[at].value->Expr_0, s, m)->Ok_0;
            match call_type(call, s.source, s.type_names, s.types, m)->Ok_0 {
                Some(t) => cast_datum(m, d, t),
                None => Ok(d),
            }
        }),
{
    let result_type = call_type(call, s.source, s.type_names, s.types, m)->Ok_0;
    first_known_is_taken(call_items(call), 0, at, result_type, s, m);
    assert(eval(SqlExpr::Call(call), s, m) == eval_call(call, s, m));
    assert(eval_call(call, s, m) == eval_scalar_call(call, s, m));
}

} // verus!
