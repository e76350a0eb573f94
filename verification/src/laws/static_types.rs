//! What the types of expressions are for.

use vstd::prelude::*;
use crate::ast::{SqlBinary, SqlUnary};
use crate::binding::{binary_type, castable, coalesce_type, common, scalar_type, unary_type};
use crate::budget::Budget;
use crate::eval::scalar_datum;
use crate::float::FloatModel;
use crate::scalar::{binary_datum, cased, cast_datum, char_lowercase, char_uppercase, unary_datum};
use crate::types::{DataType, Datum, Fault};

verus! {

/// A datum of a type, NULL being of every type.
pub open spec fn is_of(d: Datum, t: Option<DataType>) -> bool {
    match d {
        Datum::Null => true,
        Datum::Int64(_) => t == Some(DataType::Int64),
        Datum::Float64(_) => t == Some(DataType::Float64),
        Datum::Bool(_) => t == Some(DataType::Bool),
        Datum::Text(_) => t == Some(DataType::String),
    }
}

/// A result other than NULL has the type that is inferred from the types of the operands; so
/// operands for which no type is inferred give no such result.
pub proof fn binary_results_have_the_inferred_type(
    m: FloatModel,
    a: Datum,
    op: SqlBinary,
    b: Datum,
    memory: Option<Budget>,
    s: Option<DataType>,
    t: Option<DataType>,
)
    requires
        is_of(a, s) && (a is Null ==> s is None),
        is_of(b, t) && (b is Null ==> t is None),
    ensures
        binary_datum(m, a, op.kind, op.text@, b, memory) matches Ok(v) ==> v is Null || (binary_type(
            s,
            op,
            t,
        ) matches Ok(u) && is_of(v, u)),
{
}

/// A unary operator gives a result other than NULL exactly of the type that is inferred.
pub proof fn unary_results_have_the_inferred_type(op: SqlUnary, d: Datum, t: Option<DataType>)
    requires
        is_of(d, t) && (d is Null ==> t is None),
    ensures
        unary_datum(op, d) matches Ok(v) ==> v is Null || (unary_type(op, t) matches Ok(u) && is_of(
            v,
            u,
        )),
        unary_type(op, t) is Ok && !(op.kind is Minus && d == Datum::Int64(i64::MIN)) ==> unary_datum(
            op,
            d,
        ) is Ok,
{
}

/// Where a type is cast to another, each value of the one is text, or gives a value of the other
/// or a failure; where it is not, no value but NULL can be cast.
pub proof fn only_castable_types_are_cast(m: FloatModel, d: Datum, s: DataType, t: DataType)
    requires
        is_of(d, Some(s)),
        !(d is Null),
    ensures
        cast_datum(m, d, t) matches Ok(v) ==> castable(s, t) && !(v is Null) && is_of(v, Some(t)),
        castable(s, t) && (s == t || t is String || t is Float64 && s is Int64) ==> cast_datum(
            m,
            d,
            t,
        ) is Ok,
{
}

proof fn function_names_differ()
    ensures
        "length"@ != "abs"@,
        "length"@ != "lower"@,
        "length"@ != "upper"@,
        "abs"@ != "lower"@,
        "abs"@ != "upper"@,
        "lower"@ != "upper"@,
{
    reveal_strlit("length");
    reveal_strlit("abs");
    reveal_strlit("lower");
    reveal_strlit("upper");
    assert("length"@.len() == 6 && "abs"@.len() == 3 && "lower"@.len() == 5 && "upper"@.len() == 5);
    assert("lower"@[0] != "upper"@[0]);
}

/// A function of one argument gives a result of the type that is inferred.
pub proof fn function_results_have_the_inferred_type(
    name: Seq<char>,
    d: Datum,
    memory: Option<Budget>,
    t: Option<DataType>,
)
    requires
        is_of(d, t) && (d is Null ==> t is None),
        d matches Datum::Text(s) ==> s.len() <= i64::MAX,
    ensures
        scalar_datum(name, seq![d], memory) matches Ok(v) ==> v is Null || (scalar_type(
            name,
            seq![t],
        ) matches Ok(u) && is_of(v, u)),
{
    function_names_differ();
    let data = seq![d];
    let types = seq![t];
    assert(data.len() == 1 && data[0] == d);
    assert(types.len() == 1 && types[0] == t);
}

/// Two types share a type in either order: their own where they are the same, the floating-point
/// type where both are numbers, the other one where one is that of NULL, and none elsewhere.
pub proof fn shared_types(a: DataType, b: DataType, t: Option<DataType>)
    ensures
        common(Some(a), Some(b)) is Ok <==> common(Some(b), Some(a)) is Ok,
        common(Some(a), Some(b)) matches Ok(c) ==> common(Some(b), Some(a)) == Ok::<
            Option<DataType>,
            Fault,
        >(c),
        common(t, t) == Ok::<Option<DataType>, Fault>(t),
        common(None, t) == Ok::<Option<DataType>, Fault>(t),
        common(t, None) == Ok::<Option<DataType>, Fault>(t),
        common(Some(DataType::Int64), Some(DataType::Float64)) == Ok::<Option<DataType>, Fault>(
            Some(DataType::Float64),
        ),
        a != b && (a is String || a is Bool) ==> common(Some(a), Some(b)) is Err,
{
}

proof fn alternatives_share_from(types: Seq<Option<DataType>>, i: int, so_far: Option<DataType>)
    requires
        0 <= i <= types.len(),
    ensures
        coalesce_type(types, i, so_far) matches Ok(u) ==> {
            &&& so_far is Some ==> u is Some && (u == so_far || so_far == Some(DataType::Int64) && u
                == Some(DataType::Float64))
            &&& forall|k: int|
                i <= k < types.len() && #[trigger] types[k] is Some ==> u is Some && (u == types[k]
                    || types[k] == Some(DataType::Int64) && u == Some(DataType::Float64))
        },
    decreases types.len() - i,
{
    if i < types.len() {
        if let Ok(t) = common(so_far, types[i]) {
            alternatives_share_from(types, i + 1, t);
        }
    }
}

/// The type of alternatives is that of each of them, but for integers among floating-point
/// values.
pub proof fn alternatives_share_a_type(types: Seq<Option<DataType>>)
    ensures
        coalesce_type(types, 0, None) matches Ok(u) ==> forall|k: int|
            0 <= k < types.len() && #[trigger] types[k] is Some ==> u is Some && (u == types[k]
                || types[k] == Some(DataType::Int64) && u == Some(DataType::Float64)),
{
    alternatives_share_from(types, 0, None);
}

proof fn prefix_keeps_its_case(s: Seq<char>, more: Seq<char>, upper: bool, n: int)
    requires
        0 <= n <= s.len(),
    ensures
        cased(s + more, upper, n) == cased(s, upper, n),
    decreases n,
{
    if n > 0 {
        prefix_keeps_its_case(s, more, upper, n - 1);
        assert((s + more)[n - 1] == s[n - 1]);
    }
}

proof fn rest_follows(s: Seq<char>, more: Seq<char>, upper: bool, n: int)
    requires
        0 <= n <= more.len(),
    ensures
        cased(s + more, upper, s.len() + n) == cased(s, upper, s.len() as int) + cased(more, upper, n),
    decreases n,
{
    if n == 0 {
        prefix_keeps_its_case(s, more, upper, s.len() as int);
        assert(cased(s, upper, s.len() as int) + cased(more, upper, 0) =~= cased(
            s,
            upper,
            s.len() as int,
        ));
    } else {
        rest_follows(s, more, upper, n - 1);
        assert((s + more)[s.len() + n - 1] == more[n - 1]);
        let one = if upper {
            char_uppercase(more[n - 1])
        } else {
            char_lowercase(more[n - 1])
        };
        assert(cased(s, upper, s.len() as int) + (cased(more, upper, n - 1) + one) =~= (cased(
            s,
            upper,
            s.len() as int,
        ) + cased(more, upper, n - 1)) + one);
    }
}

/// Upper and lower case are taken character by character, in order.
pub proof fn case_is_taken_by_character(a: Seq<char>, b: Seq<char>, c: char)
    ensures
        scalar_datum("upper"@, seq![Datum::Text(seq![c])], None) == Ok::<Datum, Fault>(
            Datum::Text(char_uppercase(c)),
        ),
        scalar_datum("lower"@, seq![Datum::Text(seq![c])], None) == Ok::<Datum, Fault>(
            Datum::Text(char_lowercase(c)),
        ),
        scalar_datum("upper"@, seq![Datum::Text(a + b)], None) matches Ok(Datum::Text(whole)) && (
        scalar_datum("upper"@, seq![Datum::Text(a)], None) matches Ok(Datum::Text(x)) && (
        scalar_datum("upper"@, seq![Datum::Text(b)], None) matches Ok(Datum::Text(y)) && whole == x
            + y)),
        scalar_datum("lower"@, seq![Datum::Text(a + b)], None) matches Ok(Datum::Text(whole)) && (
        scalar_datum("lower"@, seq![Datum::Text(a)], None) matches Ok(Datum::Text(x)) && (
        scalar_datum("lower"@, seq![Datum::Text(b)], None) matches Ok(Datum::Text(y)) && whole == x
            + y)),
{
    function_names_differ();
    let one = seq![c];
    assert(cased(one, true, 0) =~= Seq::<char>::empty());
    assert(cased(one, false, 0) =~= Seq::<char>::empty());
    assert(one.len() == 1 && one[0] == c);
    assert(cased(one, true, 1) =~= char_uppercase(c));
    assert(cased(one, false, 1) =~= char_lowercase(c));
    rest_follows(a, b, true, b.len() as int);
    rest_follows(a, b, false, b.len() as int);
    assert((a + b).len() == a.len() + b.len());
}

} // verus!
