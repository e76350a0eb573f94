//! What operators and casts on single data are for.

use vstd::prelude::*;
use vstd::arithmetic::power2::{lemma_pow2_pos, pow2};
use crate::ast::{BinaryKind, CastTarget, SqlUnary, Test};
use crate::budget::Budget;
use crate::eval::{negate_if, scalar_datum, test_datum};
use crate::float::{answer_bits, float_difference, float_from, float_product, float_quotient, float_remainder, float_sum, in_i64_range, is_finite, is_zero, scaled, FloatModel, FloatQuestion};
use crate::laws::orders::{below, comparing_agrees_with_the_rank, not_a_number, rank_puts_the_smaller_first};
use crate::ordering::same_kind;
use crate::scalar::{binary_datum, cast_datum, cast_expr_datum, negated_truth, parsed_data_type, truncated_rem, unary_datum};
use crate::text::decimal_round_trip;
use crate::types::{DataType, Datum, Fault};

verus! {

/// Each floating-point operation is asked for by its own question, the left operand first.
pub proof fn floating_point_is_asked_in_order(m: FloatModel, a: u64, b: u64, i: int)
    ensures
        float_sum(m, a, b) == answer_bits(m(FloatQuestion::Sum(a, b))),
        float_difference(m, a, b) == answer_bits(m(FloatQuestion::Difference(a, b))),
        float_product(m, a, b) == answer_bits(m(FloatQuestion::Product(a, b))),
        float_quotient(m, a, b) == answer_bits(m(FloatQuestion::Quotient(a, b))),
        float_remainder(m, a, b) == answer_bits(m(FloatQuestion::Remainder(a, b))),
        float_from(m, i) == answer_bits(m(FloatQuestion::FromInteger(i))),
{
}

/// Whether an operator compares.
pub open spec fn compares(kind: BinaryKind) -> bool {
    kind is Eq || kind is NotEq || kind is Lt || kind is LtEq || kind is Gt || kind is GtEq
}

/// A comparison of data of one kind says which of them is smaller; with NULL it is unknown; and
/// it fails between kinds and on what is no number.
pub proof fn comparisons_tell_the_smaller(
    m: FloatModel,
    a: Datum,
    b: Datum,
    kind: BinaryKind,
    text: Seq<char>,
    memory: Option<Budget>,
)
    requires
        compares(kind),
    ensures
        a is Null || b is Null ==> binary_datum(m, a, kind, text, b, memory) == Ok::<Datum, Fault>(
            Datum::Null,
        ),
        !(a is Null) && !(b is Null) ==> if same_kind(a, b) && !not_a_number(a) && !not_a_number(b) {
            binary_datum(m, a, kind, text, b, memory) == Ok::<Datum, Fault>(
                Datum::Bool(
                    match kind {
                        BinaryKind::Eq => !below(a, b) && !below(b, a),
                        BinaryKind::NotEq => below(a, b) || below(b, a),
                        BinaryKind::Lt => below(a, b),
                        BinaryKind::LtEq => !below(b, a),
                        BinaryKind::Gt => below(b, a),
                        _ => !below(a, b),
                    },
                ),
            )
        } else {
            binary_datum(m, a, kind, text, b, memory) is Err
        },
{
    comparing_agrees_with_the_rank(a, b);
    rank_puts_the_smaller_first(a, b);
}

/// Integers compare as numbers.
pub proof fn integers_compare_as_numbers(
    m: FloatModel,
    a: i64,
    b: i64,
    text: Seq<char>,
    memory: Option<Budget>,
)
    ensures
        binary_datum(m, Datum::Int64(a), BinaryKind::Eq, text, Datum::Int64(b), memory) == Ok::<
            Datum,
            Fault,
        >(Datum::Bool(a == b)),
        binary_datum(m, Datum::Int64(a), BinaryKind::NotEq, text, Datum::Int64(b), memory) == Ok::<
            Datum,
            Fault,
        >(Datum::Bool(a != b)),
        binary_datum(m, Datum::Int64(a), BinaryKind::Lt, text, Datum::Int64(b), memory) == Ok::<
            Datum,
            Fault,
        >(Datum::Bool(a < b)),
        binary_datum(m, Datum::Int64(a), BinaryKind::LtEq, text, Datum::Int64(b), memory) == Ok::<
            Datum,
            Fault,
        >(Datum::Bool(a <= b)),
        binary_datum(m, Datum::Int64(a), BinaryKind::Gt, text, Datum::Int64(b), memory) == Ok::<
            Datum,
            Fault,
        >(Datum::Bool(a > b)),
        binary_datum(m, Datum::Int64(a), BinaryKind::GtEq, text, Datum::Int64(b), memory) == Ok::<
            Datum,
            Fault,
        >(Datum::Bool(a >= b)),
{
}

/// Text is equal exactly to the same text.
pub proof fn text_equals_the_same_text(
    m: FloatModel,
    a: Seq<char>,
    b: Seq<char>,
    text: Seq<char>,
    memory: Option<Budget>,
)
    ensures
        binary_datum(m, Datum::Text(a), BinaryKind::Eq, text, Datum::Text(b), memory) == Ok::<
            Datum,
            Fault,
        >(Datum::Bool(a == b)),
        binary_datum(m, Datum::Text(a), BinaryKind::NotEq, text, Datum::Text(b), memory) == Ok::<
            Datum,
            Fault,
        >(Datum::Bool(a != b)),
{
    crate::laws::orders::text_order_is_first_difference(a, b);
}

/// Whether a datum is a truth value or unknown.
pub open spec fn is_truth(d: Datum) -> bool {
    d is Bool || d is Null
}

/// `AND` is true where both sides are, false where one side is false, and else unknown; `OR` is
/// true where one side is, false where both sides are false, and else unknown. Both fail on
/// anything that is no truth value.
pub proof fn logic_is_three_valued(
    m: FloatModel,
    a: Datum,
    b: Datum,
    text: Seq<char>,
    memory: Option<Budget>,
)
    ensures
        is_truth(a) && is_truth(b) ==> binary_datum(m, a, BinaryKind::And, text, b, memory) == Ok::<
            Datum,
            Fault,
        >(
            if a == Datum::Bool(false) || b == Datum::Bool(false) {
                Datum::Bool(false)
            } else if a is Null || b is Null {
                Datum::Null
            } else {
                Datum::Bool(true)
            },
        ),
        is_truth(a) && is_truth(b) ==> binary_datum(m, a, BinaryKind::Or, text, b, memory) == Ok::<
            Datum,
            Fault,
        >(
            if a == Datum::Bool(true) || b == Datum::Bool(true) {
                Datum::Bool(true)
            } else if a is Null || b is Null {
                Datum::Null
            } else {
                Datum::Bool(false)
            },
        ),
        !is_truth(a) || !is_truth(b) ==> binary_datum(m, a, BinaryKind::And, text, b, memory) is Err
            && binary_datum(m, a, BinaryKind::Or, text, b, memory) is Err,
{
}

/// Negation exchanges true and false, and leaves unknown unknown.
pub proof fn negation_exchanges_truth(d: Datum, op: SqlUnary)
    requires
        op.kind is Not,
    ensures
        d == Datum::Bool(true) ==> unary_datum(op, d) == Ok::<Datum, Fault>(Datum::Bool(false)),
        d == Datum::Bool(false) ==> unary_datum(op, d) == Ok::<Datum, Fault>(Datum::Bool(true)),
        d is Null ==> unary_datum(op, d) == Ok::<Datum, Fault>(Datum::Null),
        !is_truth(d) ==> unary_datum(op, d) is Err,
        is_truth(d) ==> negated_truth(d) == unary_datum(op, d) && negate_if(true, d) == unary_datum(
            op,
            d,
        ),
        negate_if(false, d) == Ok::<Datum, Fault>(d),
{
}

/// Unary minus takes the negative of an integer where there is one, and changes the sign alone
/// of a floating-point value; unary plus keeps numbers.
pub proof fn signs_are_applied(op: SqlUnary, i: i64, bits: u64)
    ensures
        op.kind is Minus ==> (unary_datum(op, Datum::Int64(i)) is Ok <==> i != i64::MIN),
        op.kind is Minus ==> (unary_datum(op, Datum::Int64(i)) matches Ok(d) ==> d is Int64
            && d->Int64_0 + i == 0),
        op.kind is Minus ==> (unary_datum(op, Datum::Float64(bits)) matches Ok(d) && d is Float64
            && d->Float64_0 % 0x8000_0000_0000_0000 == bits % 0x8000_0000_0000_0000 && d->Float64_0
            != bits),
        op.kind is Plus ==> unary_datum(op, Datum::Int64(i)) == Ok::<Datum, Fault>(Datum::Int64(i)),
        op.kind is Plus ==> unary_datum(op, Datum::Float64(bits)) == Ok::<Datum, Fault>(
            Datum::Float64(bits),
        ),
{
}

/// `+`, `-` and `*` on integers give the exact sum, difference and product, and fail exactly
/// where it is out of range.
pub proof fn integer_arithmetic_is_exact(
    m: FloatModel,
    a: i64,
    b: i64,
    text: Seq<char>,
    memory: Option<Budget>,
)
    ensures
        ({
            let r = binary_datum(
                m,
                Datum::Int64(a),
                BinaryKind::Plus,
                text,
                Datum::Int64(b),
                memory,
            );
            (r is Ok <==> i64::MIN <= a + b <= i64::MAX) && (r matches Ok(d) ==> d is Int64
                && d->Int64_0 == a + b)
        }),
        ({
            let r = binary_datum(
                m,
                Datum::Int64(a),
                BinaryKind::Minus,
                text,
                Datum::Int64(b),
                memory,
            );
            (r is Ok <==> i64::MIN <= a - b <= i64::MAX) && (r matches Ok(d) ==> d is Int64
                && d->Int64_0 == a - b)
        }),
        ({
            let r = binary_datum(
                m,
                Datum::Int64(a),
                BinaryKind::Multiply,
                text,
                Datum::Int64(b),
                memory,
            );
            (r is Ok <==> i64::MIN <= a * b <= i64::MAX) && (r matches Ok(d) ==> d is Int64
                && d->Int64_0 == a * b)
        }),
{
}

/// A remainder differs from the dividend by a multiple of the divisor, is smaller than the
/// divisor, and has the sign of the dividend.
pub proof fn remainder_of_truncating_division(a: int, b: int) -> (q: int)
    requires
        b != 0,
    ensures
        a == b * q + truncated_rem(a, b),
        -(if b < 0 { -b } else { b }) < truncated_rem(a, b) < (if b < 0 { -b } else { b }),
        a >= 0 ==> truncated_rem(a, b) >= 0,
        a <= 0 ==> truncated_rem(a, b) <= 0,
{
    let size = if b >= 0 { b } else { -b };
    let whole = if a >= 0 { a } else { -a };
    vstd::arithmetic::div_mod::lemma_fundamental_div_mod(whole, size);
    vstd::arithmetic::div_mod::lemma_mod_bound(whole, size);
    let k = whole / size;
    let q = if (a >= 0) == (b >= 0) { k } else { -k };
    assert(b * q == (if a >= 0 { size * k } else { -(size * k) })) by (nonlinear_arith)
        requires
            size == (if b >= 0 { b } else { -b }),
            q == (if (a >= 0) == (b >= 0) { k } else { -k }),
    ;
    q
}

/// `%` on integers is the remainder of truncating division, and fails exactly on zero and where
/// the quotient is out of range.
pub proof fn integer_remainder(
    m: FloatModel,
    a: i64,
    b: i64,
    text: Seq<char>,
    memory: Option<Budget>,
) -> (q: int)
    ensures
        ({
            let r = binary_datum(
                m,
                Datum::Int64(a),
                BinaryKind::Modulo,
                text,
                Datum::Int64(b),
                memory,
            );
            &&& r is Ok <==> b != 0 && !(a == i64::MIN && b == -1)
            &&& r matches Ok(d) ==> d is Int64 && {
                let rest = d->Int64_0;
                &&& a == b * q + rest
                &&& -(if b < 0 { -b } else { b as int }) < rest < (if b < 0 { -b } else { b as int })
                &&& a >= 0 ==> rest >= 0
                &&& a <= 0 ==> rest <= 0
            }
        }),
{
    if b != 0 {
        remainder_of_truncating_division(a as int, b as int)
    } else {
        0
    }
}

/// A number as a floating-point value.
pub open spec fn widened(m: FloatModel, d: Datum) -> u64 {
    match d {
        Datum::Int64(i) => float_from(m, i as int),
        Datum::Float64(b) => b,
        _ => 0,
    }
}

/// Whether a datum is a number.
pub open spec fn numeric(d: Datum) -> bool {
    d is Int64 || d is Float64
}

/// Division converts both operands, the left one being the dividend, and fails on a zero divisor
/// and where the quotient is not finite.
pub proof fn division_is_floating_point(
    m: FloatModel,
    a: Datum,
    b: Datum,
    text: Seq<char>,
    memory: Option<Budget>,
)
    requires
        numeric(a),
        numeric(b),
    ensures
        ({
            let r = binary_datum(m, a, BinaryKind::Divide, text, b, memory);
            let quotient = float_quotient(m, widened(m, a), widened(m, b));
            &&& r is Ok <==> !is_zero(widened(m, b)) && is_finite(quotient)
            &&& r matches Ok(d) ==> d == Datum::Float64(quotient)
            &&& r == binary_datum(
                m,
                Datum::Float64(widened(m, a)),
                BinaryKind::Divide,
                text,
                Datum::Float64(widened(m, b)),
                memory,
            )
        }),
{
}

/// With a floating-point operand, `+`, `-`, `*` and `%` are those of floating-point values, the
/// left operand first, and fail where the result is not finite; `%` fails on a zero divisor.
pub proof fn mixed_arithmetic_is_floating_point(
    m: FloatModel,
    a: Datum,
    b: Datum,
    text: Seq<char>,
    memory: Option<Budget>,
)
    requires
        numeric(a),
        numeric(b),
        a is Float64 || b is Float64,
    ensures
        ({
            let (x, y) = (widened(m, a), widened(m, b));
            let sum = binary_datum(m, a, BinaryKind::Plus, text, b, memory);
            let difference = binary_datum(m, a, BinaryKind::Minus, text, b, memory);
            let product = binary_datum(m, a, BinaryKind::Multiply, text, b, memory);
            let rest = binary_datum(m, a, BinaryKind::Modulo, text, b, memory);
            &&& sum is Ok <==> is_finite(float_sum(m, x, y))
            &&& sum matches Ok(d) ==> d == Datum::Float64(float_sum(m, x, y))
            &&& difference is Ok <==> is_finite(float_difference(m, x, y))
            &&& difference matches Ok(d) ==> d == Datum::Float64(float_difference(m, x, y))
            &&& product is Ok <==> is_finite(float_product(m, x, y))
            &&& product matches Ok(d) ==> d == Datum::Float64(float_product(m, x, y))
            &&& rest matches Ok(d) ==> d == Datum::Float64(float_remainder(m, x, y)) && is_finite(
                float_remainder(m, x, y),
            )
            &&& b == Datum::Int64(0) || (b is Float64 && is_zero(y)) ==> rest is Err
        }),
{
}

/// Arithmetic with NULL is NULL, and arithmetic on anything else than numbers fails.
pub proof fn arithmetic_is_for_numbers(
    m: FloatModel,
    a: Datum,
    b: Datum,
    kind: BinaryKind,
    text: Seq<char>,
    memory: Option<Budget>,
)
    requires
        kind is Plus || kind is Minus || kind is Multiply || kind is Divide || kind is Modulo,
    ensures
        a is Null || b is Null ==> binary_datum(m, a, kind, text, b, memory) == Ok::<Datum, Fault>(
            Datum::Null,
        ),
        !(a is Null) && !(b is Null) && !(numeric(a) && numeric(b)) ==> binary_datum(
            m,
            a,
            kind,
            text,
            b,
            memory,
        ) is Err,
{
}

/// `||` puts the right text behind the left one; with NULL it is NULL.
pub proof fn concatenation_appends(
    m: FloatModel,
    a: Datum,
    b: Datum,
    text: Seq<char>,
    memory: Option<Budget>,
)
    ensures
        ({
            let r = binary_datum(m, a, BinaryKind::Concat, text, b, memory);
            &&& a is Null || b is Null ==> r == Ok::<Datum, Fault>(Datum::Null)
            &&& !(a is Null) && !(b is Null) && !(a is Text && b is Text) ==> r is Err
            &&& a is Text && b is Text && memory is None ==> r is Ok
            &&& a is Text && b is Text ==> (r matches Ok(d) ==> d == Datum::Text(
                a->Text_0 + b->Text_0,
            ))
        }),
{
}

/// The tests of one operand are never unknown.
pub proof fn tests_decide(d: Datum)
    ensures
        test_datum(Test::Null, d) == Ok::<Datum, Fault>(Datum::Bool(d is Null)),
        test_datum(Test::NotNull, d) == Ok::<Datum, Fault>(Datum::Bool(!(d is Null))),
        is_truth(d) ==> test_datum(Test::True, d) == Ok::<Datum, Fault>(
            Datum::Bool(d == Datum::Bool(true)),
        ),
        is_truth(d) ==> test_datum(Test::False, d) == Ok::<Datum, Fault>(
            Datum::Bool(d == Datum::Bool(false)),
        ),
        is_truth(d) ==> test_datum(Test::NotTrue, d) == Ok::<Datum, Fault>(
            Datum::Bool(d != Datum::Bool(true)),
        ),
        is_truth(d) ==> test_datum(Test::NotFalse, d) == Ok::<Datum, Fault>(
            Datum::Bool(d != Datum::Bool(false)),
        ),
{
}

/// The absolute value of an integer is not negative and is the integer or its negative; that of a
/// floating-point value has its magnitude and no sign.
pub proof fn absolute_values(i: i64, bits: u64, memory: Option<Budget>)
    ensures
        scalar_datum("abs"@, seq![Datum::Int64(i)], memory) is Ok <==> i != i64::MIN,
        scalar_datum("abs"@, seq![Datum::Int64(i)], memory) matches Ok(d) ==> d is Int64
            && d->Int64_0 >= 0 && (d->Int64_0 == i || d->Int64_0 == -i),
        scalar_datum("abs"@, seq![Datum::Float64(bits)], memory) matches Ok(d) && d is Float64
            && d->Float64_0 < 0x8000_0000_0000_0000 && d->Float64_0 == bits % 0x8000_0000_0000_0000,
        scalar_datum("abs"@, seq![Datum::Null], memory) == Ok::<Datum, Fault>(Datum::Null),
{
}

proof fn length_is_its_own_name()
    ensures
        "length"@ != "abs"@,
        "length"@ != "lower"@,
        "length"@ != "upper"@,
{
    reveal_strlit("length");
    reveal_strlit("abs");
    reveal_strlit("lower");
    reveal_strlit("upper");
    assert("length"@.len() == 6 && "abs"@.len() == 3 && "lower"@.len() == 5 && "upper"@.len() == 5);
}

/// The length of text counts its characters.
pub proof fn length_counts_characters(s: Seq<char>, memory: Option<Budget>)
    requires
        s.len() <= i64::MAX,
    ensures
        scalar_datum("length"@, seq![Datum::Text(s)], memory) matches Ok(d) && d is Int64
            && d->Int64_0 == s.len(),
        scalar_datum("length"@, seq![Datum::Null], memory) == Ok::<Datum, Fault>(Datum::Null),
{
    length_is_its_own_name();
}

/// A cast keeps NULL and what has the target type already.
pub proof fn casts_keep_what_fits(m: FloatModel, d: Datum, target: DataType)
    ensures
        d is Null ==> cast_datum(m, d, target) == Ok::<Datum, Fault>(Datum::Null),
        d is Int64 && target is Int64 ==> cast_datum(m, d, target) == Ok::<Datum, Fault>(d),
        d is Float64 && target is Float64 ==> cast_datum(m, d, target) == Ok::<Datum, Fault>(d),
        d is Bool && target is Bool ==> cast_datum(m, d, target) == Ok::<Datum, Fault>(d),
        d is Text && target is String ==> cast_datum(m, d, target) == Ok::<Datum, Fault>(d),
        cast_datum(m, d, target) matches Ok(v) ==> d is Null || match target {
            DataType::Int64 => v is Int64,
            DataType::Float64 => v is Float64,
            DataType::Bool => v is Bool,
            DataType::String => v is Text,
        },
{
}

/// An integer or truth value that is cast to text and back is itself again.
pub proof fn casts_through_text_give_back(m: FloatModel, i: i64, b: bool)
    ensures
        cast_datum(m, Datum::Int64(i), DataType::String) matches Ok(shown) && cast_datum(
            m,
            shown,
            DataType::Int64,
        ) == Ok::<Datum, Fault>(Datum::Int64(i)),
        cast_datum(m, Datum::Bool(b), DataType::String) matches Ok(shown) && cast_datum(
            m,
            shown,
            DataType::Bool,
        ) == Ok::<Datum, Fault>(Datum::Bool(b)),
        cast_datum(m, Datum::Int64(i), DataType::Float64) == Ok::<Datum, Fault>(
            Datum::Float64(float_from(m, i as int)),
        ),
{
    decimal_round_trip(i);
    reveal_strlit("true");
    reveal_strlit("false");
    assert("true"@.len() == 4 && "false"@.len() == 5);
}

/// A floating-point value is cast to the integer next to it toward zero.
pub proof fn casts_to_integers_round_toward_zero(m: FloatModel, bits: u64)
    ensures
        cast_datum(m, Datum::Float64(bits), DataType::Int64) matches Ok(d) ==> {
            let unit = pow2(1075) as int;
            &&& d is Int64
            &&& is_finite(bits)
            &&& scaled(bits) >= 0 ==> d->Int64_0 * unit <= scaled(bits) < (d->Int64_0 + 1) * unit
            &&& scaled(bits) <= 0 ==> (d->Int64_0 - 1) * unit < scaled(bits) <= d->Int64_0 * unit
        },
        cast_datum(m, Datum::Float64(bits), DataType::Int64) is Ok <==> in_i64_range(bits),
{
    if in_i64_range(bits) {
        let unit = pow2(1075) as int;
        lemma_pow2_pos(1075);
        let s = scaled(bits);
        let size = if s < 0 {
            -s
        } else {
            s
        };
        let whole = size / unit;
        vstd::arithmetic::div_mod::lemma_fundamental_div_mod(size, unit);
        vstd::arithmetic::div_mod::lemma_mod_bound(size, unit);
        assert(size == unit * whole + size % unit);
        assert((whole + 1) * unit == unit * whole + unit) by (nonlinear_arith);
        assert(whole * unit == unit * whole) by (nonlinear_arith);
        assert((-whole - 1) * unit == -(unit * whole) - unit) by (nonlinear_arith);
        assert((-whole) * unit == -(unit * whole)) by (nonlinear_arith);
        let p = (crate::float::significand(bits) * pow2(crate::float::exponent(bits))) as int;
        assert(p >= 0) by (nonlinear_arith)
            requires
                p == crate::float::significand(bits) * pow2(crate::float::exponent(bits)),
        ;
        assert(size == p);
        let limit = 0x8000_0000_0000_0000int;
        assert(whole <= limit) by (nonlinear_arith)
            requires
                size == unit * whole + size % unit,
                size % unit >= 0,
                size <= limit * unit,
                unit > 0,
        ;
        assert(s >= 0 ==> whole < limit) by (nonlinear_arith)
            requires
                size == unit * whole + size % unit,
                size % unit >= 0,
                s >= 0 ==> size < limit * unit,
                unit > 0,
        ;
        assert(whole >= 0) by (nonlinear_arith)
            requires
                size == unit * whole + size % unit,
                size % unit < unit,
                size >= 0,
                unit > 0,
        ;
        if s == 0 {
            assert(whole == 0) by (nonlinear_arith)
                requires
                    0 == unit * whole + size % unit,
                    size % unit >= 0,
                    whole >= 0,
                    unit > 0,
            ;
        }
    }
}

/// `TRY_CAST` and `SAFE_CAST` give NULL exactly where `CAST` fails on the operand, and else what
/// `CAST` gives.
pub proof fn lenient_casts_give_null(m: FloatModel, strict: CastTarget, lenient: CastTarget, d: Datum)
    requires
        strict.kind is Cast || strict.kind is DoubleColon,
        lenient.kind is TryCast || lenient.kind is SafeCast,
        strict.data_type@ == lenient.data_type@,
        parsed_data_type(strict.data_type@) is Ok,
        !strict.has_format,
        !lenient.has_format,
    ensures
        cast_expr_datum(m, lenient, d) == match cast_expr_datum(m, strict, d) {
            Ok(v) => Ok::<Datum, Fault>(v),
            Err(_) => Ok::<Datum, Fault>(Datum::Null),
        },
        cast_expr_datum(m, strict, d) == cast_datum(
            m,
            d,
            parsed_data_type(strict.data_type@)->Ok_0.0,
        ),
{
}

} // verus!
