//! What literals, numbers of result columns and names are for.

use vstd::prelude::*;
use crate::ast::{LiteralKind, SqlExpr, SqlLiteral};
use crate::binding::Origin;
use crate::budget::Budget;
use crate::eval::{eval, row_scope, Scope};
use crate::float::FloatModel;
use crate::grouping_rules::Projection;
use crate::planning::{header_from, limit_value, resolved};
use crate::scalar::is_float_text;
use crate::selecting::{sort_datum, Shape};
use crate::storage::field_index;
use crate::text::{all_digits, digits, digits_round_trip, digits_value, i64_value, int_text, is_digit, lower, usize_value};
use crate::types::{Datum, Fault};

verus! {

/// A digit is its number, a digit behind a number adds to ten times the number, and a minus sign
/// in front takes the number from zero.
pub proof fn digits_count_in_tens(s: Seq<char>, c: char)
    requires
        '0' <= c <= '9',
    ensures
        i64_value(seq![c]) == Some((c as int - 48) as i64),
        i64_value(s) matches Some(a) ==> all_digits(s) ==> i64_value(s.push(c)) == (if a * 10 + (
        c as int - 48) <= i64::MAX {
            Some((a * 10 + (c as int - 48)) as i64)
        } else {
            None
        }),
        i64_value(s) matches Some(a) ==> all_digits(s) ==> i64_value(seq!['-'] + s) == Some(
            (0 - a) as i64,
        ) && i64_value(seq!['+'] + s) == Some(a),
{
    let one = seq![c];
    assert(one.drop_last() =~= Seq::<char>::empty());
    assert(digits_value(one.drop_last()) == 0);
    assert(digits_value(one) == c as int - 48);
    if all_digits(s) && i64_value(s) is Some {
        assert(s.len() > 0 && is_digit(s[0]));
        let more = s.push(c);
        assert(more.drop_last() =~= s);
        assert(more[0] == s[0]);
        assert forall|i: int| 0 <= i < more.len() implies is_digit(#[trigger] more[i]) by {
            if i < s.len() {
                assert(more[i] == s[i]);
            }
        }
        assert((seq!['-'] + s).skip(1) =~= s);
        assert((seq!['+'] + s).skip(1) =~= s);
    }
}

/// Anything but digits behind at most one sign denotes no integer.
pub proof fn integers_are_digits(s: Seq<char>)
    requires
        i64_value(s) is Some,
    ensures
        s.len() > 0,
        forall|i: int| 0 < i < s.len() ==> '0' <= #[trigger] s[i] <= '9',
        s[0] == '-' || s[0] == '+' || '0' <= s[0] <= '9',
{
    assert forall|i: int| 0 < i < s.len() implies '0' <= #[trigger] s[i] <= '9' by {
        if s[0] == '-' || s[0] == '+' {
            assert(s.skip(1)[i - 1] == s[i]);
            assert(is_digit(s.skip(1)[i - 1]));
        } else {
            assert(is_digit(s[i]));
        }
    }
    if !(s[0] == '-' || s[0] == '+') {
        assert(is_digit(s[0]));
    }
}

proof fn digits_are_no_float(n: nat)
    ensures
        !is_float_text(digits(n)),
        n <= usize::MAX ==> usize_value(digits(n)) == Some(n as usize),
        n > usize::MAX ==> usize_value(digits(n)) is None,
        n <= i64::MAX ==> i64_value(digits(n)) == Some(n as i64),
{
    digits_round_trip(n);
    let s = digits(n);
    assert(is_digit(s[0]));
    if is_float_text(s) {
        let k = choose|k: int| 0 <= k < s.len() && (s[k] == '.' || s[k] == 'e' || s[k] == 'E');
        assert(is_digit(s[k]));
    }
}

/// A literal denotes what is written: an integer its number, text its characters, a truth value
/// itself and NULL nothing.
pub proof fn literals_denote_what_is_written(literal: SqlLiteral, s: Scope, n: i64, m: FloatModel)
    requires
        n >= 0,
    ensures
        literal.kind matches LiteralKind::Number(t) ==> t@ == int_text(n as int) ==> eval(
            SqlExpr::Value(literal),
            s,
            m,
        ) == Ok::<Datum, Fault>(Datum::Int64(n)),
        literal.kind matches LiteralKind::SingleQuoted(t) ==> (eval(
            SqlExpr::Value(literal),
            s,
            m,
        ) matches Ok(d) ==> d == Datum::Text(t@)),
        literal.kind matches LiteralKind::SingleQuoted(t) ==> s.memory is None ==> eval(
            SqlExpr::Value(literal),
            s,
            m,
        ) is Ok,
        literal.kind matches LiteralKind::Boolean(b) ==> eval(SqlExpr::Value(literal), s, m) == Ok::<
            Datum,
            Fault,
        >(Datum::Bool(b)),
        literal.kind is Null ==> eval(SqlExpr::Value(literal), s, m) == Ok::<Datum, Fault>(
            Datum::Null,
        ),
{
    digits_are_no_float(n as nat);
}

/// A number that stands as a key by itself.
pub open spec fn is_key_number(e: SqlExpr, n: nat) -> bool {
    e matches SqlExpr::Value(literal) && (literal.kind matches LiteralKind::Number(t) && t@
        == digits(n))
}

/// A number that stands as a key is the result column with that number, counted from one; any
/// other number is refused.
pub proof fn numbers_stand_for_result_columns(
    e: SqlExpr,
    n: nat,
    row: Seq<Datum>,
    group: Seq<usize>,
    s: Shape,
    source: Origin,
    memory: Budget,
    m: FloatModel,
)
    requires
        is_key_number(e, n),
        s.projections.len() <= usize::MAX,
    ensures
        1 <= n <= s.projections.len() ==> {
            &&& sort_datum(e, row, group, s, memory, m) == Ok::<Datum, Fault>(row[n - 1])
            &&& resolved(e, s.projections, source) == Ok::<SqlExpr, Fault>(
                s.projections[n - 1].expr,
            )
        },
        !(1 <= n <= s.projections.len()) ==> {
            &&& sort_datum(e, row, group, s, memory, m) is Err
            &&& resolved(e, s.projections, source) is Err
        },
{
    digits_are_no_float(n);
}

proof fn headers_are_found(projections: Seq<Projection>, name: Seq<char>, i: int)
    requires
        0 <= i,
    ensures
        match header_from(projections, name, i) {
            Some(k) => i <= k < projections.len() && lower(projections[k].header@) == lower(name)
                && forall|j: int|
                i <= j < k ==> lower((#[trigger] projections[j]).header@) != lower(name),
            None => forall|j: int|
                i <= j < projections.len() ==> lower((#[trigger] projections[j]).header@) != lower(
                    name,
                ),
        },
    decreases projections.len() - i,
{
    if i < projections.len() {
        headers_are_found(projections, name, i + 1);
    }
}

/// Two letters that are the same but for their case.
pub open spec fn same_letter(a: char, b: char) -> bool {
    ||| a == b
    ||| 'A' <= a <= 'Z' && b as int == a as int + 32
    ||| 'A' <= b <= 'Z' && a as int == b as int + 32
}

/// Names are the same where they differ in the case of letters at most.
pub proof fn names_are_the_same_but_for_case(a: Seq<char>, b: Seq<char>)
    ensures
        lower(a) == lower(b) <==> a.len() == b.len() && forall|i: int|
            0 <= i < a.len() ==> same_letter(#[trigger] a[i], b[i]),
{
    if lower(a) == lower(b) {
        assert(a.len() == lower(a).len() && b.len() == lower(b).len());
        assert forall|i: int| 0 <= i < a.len() implies same_letter(#[trigger] a[i], b[i]) by {
            assert(lower(a)[i] == lower(b)[i]);
        }
    }
    if a.len() == b.len() && forall|i: int|
        0 <= i < a.len() ==> same_letter(#[trigger] a[i], b[i]) {
        assert forall|i: int| 0 <= i < a.len() implies #[trigger] lower(a)[i] == lower(b)[i] by {
            assert(same_letter(a[i], b[i]));
        }
        assert(lower(a) =~= lower(b));
    }
}

/// Rows are sorted under a name by the first result column with that name.
pub proof fn sort_names_stand_for_result_columns(
    e: SqlExpr,
    k: int,
    row: Seq<Datum>,
    group: Seq<usize>,
    s: Shape,
    memory: Budget,
    m: FloatModel,
)
    requires
        e is Identifier,
        0 <= k < s.projections.len(),
        lower(s.projections[k].header@) == lower(e->Identifier_0.value@),
        forall|j: int|
            0 <= j < k ==> lower((#[trigger] s.projections[j]).header@) != lower(
                e->Identifier_0.value@,
            ),
    ensures
        sort_datum(e, row, group, s, memory, m) == Ok::<Datum, Fault>(row[k]),
{
    headers_are_found(s.projections, e->Identifier_0.value@, 0);
}

/// A name in `GROUP BY` is a column of the table where the table has it, and stands for the first
/// result column with that name where it has not.
pub proof fn group_names_are_columns_first(
    e: SqlExpr,
    projections: Seq<Projection>,
    source: Origin,
    k: int,
)
    requires
        e is Identifier,
        !e->Identifier_0.quoted,
    ensures
        source.table matches Some(table) ==> field_index(table.fields, e->Identifier_0.value@) is Some
            ==> resolved(e, projections, source) == Ok::<SqlExpr, Fault>(e),
        (source.table matches Some(table) ==> field_index(
            table.fields,
            e->Identifier_0.value@,
        ) is None) && 0 <= k < projections.len() && lower(projections[k].header@) == lower(
            e->Identifier_0.value@,
        ) && (forall|j: int|
            0 <= j < k ==> lower((#[trigger] projections[j]).header@) != lower(
                e->Identifier_0.value@,
            )) ==> resolved(e, projections, source) == Ok::<SqlExpr, Fault>(projections[k].expr),
{
    headers_are_found(projections, e->Identifier_0.value@, 0);
}

/// The value of `LIMIT` is a number of rows; one below zero, or anything but an integer, is
/// refused.
pub proof fn limits_are_numbers_of_rows(e: SqlExpr, m: FloatModel)
    ensures
        match eval(e, row_scope(Origin { table: None, qualifier: None }, None, None), m) {
            Ok(Datum::Int64(i)) => if 0 <= i <= usize::MAX {
                limit_value(e, m) matches Ok(n) && n == i
            } else {
                limit_value(e, m) is Err
            },
            _ => limit_value(e, m) is Err,
        },
{
}

} // verus!
