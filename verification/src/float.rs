//! IEEE 754 double-precision values held as their bit patterns.
//!
//! Ordering, classification, negation and exact conversions are computed on the bits.
//! Rounding arithmetic is asked of a function that the caller supplies.

use vstd::prelude::*;
use vstd::arithmetic::power2::{lemma_pow2_adds, lemma_pow2_pos, lemma_pow2_strictly_increases, lemma2_to64, lemma2_to64_rest, pow2};
use crate::text::{int_order, Order};

verus! {

/// The bit that holds the sign.
pub const SIGN_BIT: u64 = 0x8000_0000_0000_0000;

/// The magnitude bits of an infinity; larger magnitudes are NaNs.
pub const INFINITY_BITS: u64 = 0x7ff0_0000_0000_0000;

/// The bit pattern of the canonical NaN.
pub const NAN_BITS: u64 = 0x7ff8_0000_0000_0000;

/// The weight of the lowest exponent bit.
pub const EXPONENT_UNIT: u64 = 0x10_0000_0000_0000;

/// The bits without the sign.
pub open spec fn magnitude(bits: u64) -> u64 {
    bits % SIGN_BIT
}

/// Whether the sign bit is set.
pub open spec fn is_negative(bits: u64) -> bool {
    bits >= SIGN_BIT
}

/// Whether the value is a NaN.
pub open spec fn is_nan(bits: u64) -> bool {
    magnitude(bits) > INFINITY_BITS
}

/// Whether the value is neither infinite nor a NaN.
pub open spec fn is_finite(bits: u64) -> bool {
    magnitude(bits) < INFINITY_BITS
}

/// Whether the value is a zero of either sign.
pub open spec fn is_zero(bits: u64) -> bool {
    magnitude(bits) == 0
}

/// A number that orders non-NaN values as IEEE does; both zeros share one key.
pub open spec fn order_key(bits: u64) -> int {
    if is_negative(bits) {
        -(magnitude(bits) as int)
    } else {
        magnitude(bits) as int
    }
}

/// A number that orders all bit patterns: sign first, then magnitude.
pub open spec fn total_key(bits: u64) -> int {
    if is_negative(bits) {
        -(magnitude(bits) as int) - 1
    } else {
        magnitude(bits) as int
    }
}

/// The IEEE comparison; a NaN compares with nothing.
pub open spec fn float_order(a: u64, b: u64) -> Option<Order> {
    if is_nan(a) || is_nan(b) {
        None
    } else {
        Some(int_order(order_key(a), order_key(b)))
    }
}

/// The total order on bit patterns.
pub open spec fn total_float_order(a: u64, b: u64) -> Order {
    int_order(total_key(a), total_key(b))
}

/// The value with its sign bit flipped.
pub open spec fn negated(bits: u64) -> u64 {
    if is_negative(bits) {
        (bits - SIGN_BIT) as u64
    } else {
        (bits + SIGN_BIT) as u64
    }
}

/// One bit pattern for all values that group together: one zero and one NaN.
pub open spec fn canonical_bits(bits: u64) -> u64 {
    if is_zero(bits) {
        0
    } else if is_nan(bits) {
        NAN_BITS
    } else {
        bits
    }
}

/// The significand of a finite value as an integer.
pub open spec fn significand(bits: u64) -> u64 {
    let fraction = magnitude(bits) % EXPONENT_UNIT;
    if magnitude(bits) < EXPONENT_UNIT {
        fraction
    } else {
        (fraction + EXPONENT_UNIT) as u64
    }
}

/// The biased exponent that scales the significand.
pub open spec fn exponent(bits: u64) -> nat {
    if magnitude(bits) < EXPONENT_UNIT {
        1
    } else {
        (magnitude(bits) / EXPONENT_UNIT) as nat
    }
}

/// A finite value times two to the power 1075, which is an integer.
pub open spec fn scaled(bits: u64) -> int {
    let m = significand(bits) * pow2(exponent(bits));
    if is_negative(bits) {
        -m
    } else {
        m as int
    }
}

/// The exact comparison of an integer with a floating-point value.
pub open spec fn int_float_order(i: i64, bits: u64) -> Option<Order> {
    if is_nan(bits) {
        None
    } else if magnitude(bits) == INFINITY_BITS {
        Some(if is_negative(bits) { Order::Greater } else { Order::Less })
    } else {
        Some(int_order(i * pow2(1075), scaled(bits)))
    }
}

/// Whether the value is a NaN.
pub fn nan(bits: u64) -> (r: bool)
    ensures
        r == is_nan(bits),
{
    bits % SIGN_BIT > INFINITY_BITS
}

/// Whether the value is finite.
pub fn finite(bits: u64) -> (r: bool)
    ensures
        r == is_finite(bits),
{
    bits % SIGN_BIT < INFINITY_BITS
}

/// Whether the value is a zero.
pub fn zero(bits: u64) -> (r: bool)
    ensures
        r == is_zero(bits),
{
    bits % SIGN_BIT == 0
}

/// Negates the value.
pub fn negate(bits: u64) -> (r: u64)
    ensures
        r == negated(bits),
{
    if bits >= SIGN_BIT {
        bits - SIGN_BIT
    } else {
        bits + SIGN_BIT
    }
}

/// Clears the sign.
pub fn absolute(bits: u64) -> (r: u64)
    ensures
        r == magnitude(bits),
{
    bits % SIGN_BIT
}

/// Folds zeros and NaNs to one bit pattern each.
pub fn canonical(bits: u64) -> (r: u64)
    ensures
        r == canonical_bits(bits),
{
    if zero(bits) {
        0
    } else if nan(bits) {
        NAN_BITS
    } else {
        bits
    }
}

fn order_i128(a: i128, b: i128) -> (r: Order)
    ensures
        r == int_order(a as int, b as int),
{
    if a < b {
        Order::Less
    } else if a == b {
        Order::Equal
    } else {
        Order::Greater
    }
}

fn key(bits: u64) -> (r: i128)
    ensures
        r == order_key(bits),
{
    let m = (bits % SIGN_BIT) as i128;
    if bits >= SIGN_BIT {
        -m
    } else {
        m
    }
}

/// Compares two values as IEEE does.
pub fn compare_floats(a: u64, b: u64) -> (r: Option<Order>)
    ensures
        r == float_order(a, b),
{
    if nan(a) || nan(b) {
        None
    } else {
        Some(order_i128(key(a), key(b)))
    }
}

/// Compares two bit patterns in the total order.
pub fn compare_total(a: u64, b: u64) -> (r: Order)
    ensures
        r == total_float_order(a, b),
{
    let x = if a >= SIGN_BIT { key(a) - 1 } else { key(a) };
    let y = if b >= SIGN_BIT { key(b) - 1 } else { key(b) };
    order_i128(x, y)
}

/// Bit patterns are equal in the total order exactly when they are the same.
pub proof fn total_order_separates(a: u64, b: u64)
    ensures
        total_float_order(a, b) == Order::Equal <==> a == b,
{
}

proof fn order_scales(a: int, b: int, k: nat)
    requires
        k > 0,
    ensures
        int_order(a * k, b * k) == int_order(a, b),
{
    if a < b {
        assert(a * k < b * k) by (nonlinear_arith)
            requires
                a < b,
                k > 0,
        ;
    } else if a > b {
        assert(a * k > b * k) by (nonlinear_arith)
            requires
                a > b,
                k > 0,
        ;
    }
}

fn power_of_two(n: u32) -> (r: u128)
    requires
        n < 127,
    ensures
        r == pow2(n as nat),
{
    let mut r: u128 = 1;
    let mut i: u32 = 0;
    proof {
        lemma2_to64();
    }
    while i < n
        invariant
            i <= n < 127,
            r == pow2(i as nat),
        decreases n - i,
    {
        proof {
            lemma_pow2_adds(i as nat, 1);
            lemma2_to64();
            lemma_pow2_strictly_increases(i as nat, 127);
            lemma_pow2_adds(64, 63);
            lemma2_to64_rest();
            assert(pow2(127) == 0x8000_0000_0000_0000_0000_0000_0000_0000) by (nonlinear_arith)
                requires
                    pow2(127) == pow2(64) * pow2(63),
                    pow2(64) == 0x1_0000_0000_0000_0000,
                    pow2(63) == 0x8000_0000_0000_0000,
            ;
        }
        r = r * 2;
        i += 1;
    }
    r
}

/// How a natural number compares with `m * 2^e / 2^1075`.
fn compare_magnitudes(n: u64, m: u64, e: u32) -> (r: Order)
    requires
        n <= SIGN_BIT,
        m < 0x20_0000_0000_0000,
        1 <= e < 2047,
        e > 1 ==> m >= EXPONENT_UNIT,
    ensures
        r == int_order(n * pow2(1075), m * pow2(e as nat)),
{
    proof {
        lemma2_to64();
        lemma2_to64_rest();
        lemma_pow2_pos(1075);
        lemma_pow2_pos(e as nat);
    }
    if e > 1086 {
        proof {
            let d = (e - 1075) as nat;
            lemma_pow2_adds(d, 1075);
            if d > 12 {
                lemma_pow2_strictly_increases(12, d);
            }
            let p = pow2(d);
            assert(m * p >= 0x10_0000_0000_0000 * 0x1000) by (nonlinear_arith)
                requires
                    m >= 0x10_0000_0000_0000,
                    p >= 0x1000,
            ;
            assert(m * pow2(e as nat) == (m * p) * pow2(1075)) by (nonlinear_arith)
                requires
                    pow2(e as nat) == p * pow2(1075),
            ;
            order_scales(n as int, (m * p) as int, pow2(1075));
        }
        Order::Less
    } else if e >= 1075 {
        let d = e - 1075;
        let p = power_of_two(d);
        proof {
            lemma_pow2_adds(d as nat, 1075);
            if d < 11 {
                lemma_pow2_strictly_increases(d as nat, 11);
            }
            assert(m * p < 0x20_0000_0000_0000 * 0x1000) by (nonlinear_arith)
                requires
                    m < 0x20_0000_0000_0000,
                    p <= 0x800,
            ;
            assert(m * pow2(e as nat) == (m * p) * pow2(1075)) by (nonlinear_arith)
                requires
                    pow2(e as nat) == p * pow2(1075),
            ;
            order_scales(n as int, (m * p) as int, pow2(1075));
        }
        order_i128(n as i128, ((m as u128) * p) as i128)
    } else {
        let d = 1075 - e;
        proof {
            lemma_pow2_adds(d as nat, e as nat);
            assert(n * pow2(1075) == (n * pow2(d as nat)) * pow2(e as nat)) by (nonlinear_arith)
                requires
                    pow2(1075) == pow2(d as nat) * pow2(e as nat),
            ;
            order_scales((n * pow2(d as nat)) as int, m as int, pow2(e as nat));
        }
        if d >= 63 {
            proof {
                if d > 63 {
                    lemma_pow2_strictly_increases(63, d as nat);
                }
                if n > 0 {
                    assert(n * pow2(d as nat) >= pow2(d as nat)) by (nonlinear_arith)
                        requires
                            n > 0,
                    ;
                }
            }
            if n > 0 {
                Order::Greater
            } else if m == 0 {
                Order::Equal
            } else {
                Order::Less
            }
        } else {
            let p = power_of_two(d);
            proof {
                lemma_pow2_strictly_increases(d as nat, 63);
                assert(n * p < 0x8000_0000_0000_0000 * 0x8000_0000_0000_0000) by (nonlinear_arith)
                    requires
                        n <= 0x8000_0000_0000_0000,
                        0 < p < 0x8000_0000_0000_0000,
                ;
            }
            order_i128(((n as u128) * p) as i128, m as i128)
        }
    }
}

fn parts(bits: u64) -> (r: (u64, u32))
    requires
        is_finite(bits),
    ensures
        r.0 == significand(bits),
        r.1 == exponent(bits),
        r.0 < 0x20_0000_0000_0000,
        1 <= r.1 < 2047,
        r.1 > 1 ==> r.0 >= EXPONENT_UNIT,
{
    let m = bits % SIGN_BIT;
    let fraction = m % EXPONENT_UNIT;
    if m < EXPONENT_UNIT {
        (fraction, 1)
    } else {
        (fraction + EXPONENT_UNIT, (m / EXPONENT_UNIT) as u32)
    }
}

/// Compares an integer with a floating-point value exactly, without rounding either.
pub fn compare_int_float(i: i64, bits: u64) -> (r: Option<Order>)
    ensures
        r == int_float_order(i, bits),
{
    if nan(bits) {
        return None;
    }
    let negative = bits >= SIGN_BIT;
    if !finite(bits) {
        return Some(if negative { Order::Greater } else { Order::Less });
    }
    let (m, e) = parts(bits);
    let n: u64 = if i < 0 { (-(i as i128)) as u64 } else { i as u64 };
    let sizes = compare_magnitudes(n, m, e);
    proof {
        lemma_pow2_pos(1075);
        lemma_pow2_pos(e as nat);
        let p = pow2(1075);
        let q = m * pow2(e as nat);
        assert(i * p == if i < 0 { -(n * p) } else { (n * p) as int }) by (nonlinear_arith)
            requires
                n == if i < 0 { -i } else { i as int },
        ;
        assert(q >= 0) by (nonlinear_arith)
            requires
                q == m * pow2(e as nat),
        ;
        assert(m > 0 ==> q > 0) by (nonlinear_arith)
            requires
                q == m * pow2(e as nat),
                pow2(e as nat) > 0,
        ;
        assert(n > 0 ==> n * p > 0) by (nonlinear_arith)
            requires
                p > 0,
        ;
        assert(m == 0 ==> q == 0) by (nonlinear_arith)
            requires
                q == m * pow2(e as nat),
        ;
        assert(n * p >= 0) by (nonlinear_arith)
            requires
                p > 0,
        ;
        assert(scaled(bits) == if negative { -q } else { q as int });
        assert(sizes == int_order(n * p, q as int));
        assert(n == 0 ==> n * p == 0) by (nonlinear_arith);
        assert(int_float_order(i, bits) == Some(int_order(i * p, scaled(bits))));
    }
    if i >= 0 && !negative {
        Some(sizes)
    } else if i < 0 && negative {
        Some(sizes.reverse())
    } else if i < 0 {
        Some(Order::Less)
    } else if n == 0 && m == 0 {
        Some(Order::Equal)
    } else {
        Some(Order::Greater)
    }
}

/// The integer part of a finite value, rounded toward zero.
pub open spec fn truncated(bits: u64) -> int {
    let whole = (significand(bits) * pow2(exponent(bits))) / (pow2(1075) as int);
    if is_negative(bits) {
        -whole
    } else {
        whole
    }
}

/// Whether a value lies in the half-open range of signed 64-bit integers.
pub open spec fn in_i64_range(bits: u64) -> bool {
    &&& is_finite(bits)
    &&& -(0x8000_0000_0000_0000 * pow2(1075)) <= scaled(bits)
    &&& scaled(bits) < 0x8000_0000_0000_0000 * pow2(1075)
}

/// The integer part of a value as a signed 64-bit integer, where the value is in range.
pub open spec fn float_to_i64(bits: u64) -> Option<i64> {
    if in_i64_range(bits) {
        Some(truncated(bits) as i64)
    } else {
        None
    }
}

/// Rounds a value toward zero to a signed 64-bit integer, if it is in range.
pub fn truncate_to_i64(bits: u64) -> (r: Option<i64>)
    ensures
        r == float_to_i64(bits),
        r matches Some(i) ==> i == truncated(bits),
{
    if !finite(bits) {
        return None;
    }
    let negative = bits >= SIGN_BIT;
    let (m, e) = parts(bits);
    let bound = compare_magnitudes(SIGN_BIT, m, e);
    let ghost p = pow2(1075);
    let ghost q = (m * pow2(e as nat)) as int;
    proof {
        lemma_pow2_pos(1075);
        lemma_pow2_pos(e as nat);
        lemma2_to64();
        lemma2_to64_rest();
        assert(q >= 0) by (nonlinear_arith)
            requires
                q == m * pow2(e as nat),
        ;
    }
    match bound {
        Order::Greater => {
            let whole: u64;
            if e >= 1075 {
                let d = e - 1075;
                proof {
                    lemma_pow2_adds(d as nat, 1075);
                    assert(q == (m * pow2(d as nat)) * p) by (nonlinear_arith)
                        requires
                            q == m * pow2(e as nat),
                            pow2(e as nat) == pow2(d as nat) * p,
                    ;
                    order_scales(SIGN_BIT as int, (m * pow2(d as nat)) as int, p);
                    vstd::arithmetic::div_mod::lemma_div_multiples_vanish(
                        (m * pow2(d as nat)) as int,
                        p as int,
                    );
                    assert(p * (m * pow2(d as nat)) == (m * pow2(d as nat)) * p)
                        by (nonlinear_arith);
                    if d >= 64 {
                        lemma_pow2_pos(d as nat);
                        if d > 64 {
                            lemma_pow2_strictly_increases(64, d as nat);
                        }
                        assert(m * pow2(d as nat) >= pow2(d as nat)) by (nonlinear_arith)
                            requires
                                m >= 1,
                        ;
                    }
                }
                whole = ((m as u128) * power_of_two(d)) as u64;
            } else {
                let d = 1075 - e;
                proof {
                    lemma_pow2_pos(d as nat);
                    lemma_pow2_adds(d as nat, e as nat);
                    vstd::arithmetic::div_mod::lemma_div_denominator(
                        q,
                        pow2(e as nat) as int,
                        pow2(d as nat) as int,
                    );
                    assert(pow2(e as nat) * pow2(d as nat) == p) by (nonlinear_arith)
                        requires
                            p == pow2(d as nat) * pow2(e as nat),
                    ;
                    vstd::arithmetic::div_mod::lemma_div_multiples_vanish(
                        m as int,
                        pow2(e as nat) as int,
                    );
                    assert(pow2(e as nat) * m == q) by (nonlinear_arith)
                        requires
                            q == m * pow2(e as nat),
                    ;
                    assert(q / (p as int) == (m as int) / (pow2(d as nat) as int));
                }
                if d >= 63 {
                    proof {
                        if d > 63 {
                            lemma_pow2_strictly_increases(63, d as nat);
                        }
                        vstd::arithmetic::div_mod::lemma_basic_div(m as int, pow2(d as nat) as int);
                    }
                    whole = 0;
                } else {
                    let divisor = power_of_two(d);
                    whole = ((m as u128) / divisor) as u64;
                    proof {
                        vstd::arithmetic::div_mod::lemma_div_is_ordered_by_denominator(
                            m as int,
                            1,
                            divisor as int,
                        );
                    }
                }
            }
            proof {
                assert(-(SIGN_BIT * p) <= -q && q < SIGN_BIT * p);
                assert(whole < SIGN_BIT) by {
                    if whole >= SIGN_BIT {
                        vstd::arithmetic::div_mod::lemma_fundamental_div_mod(q, p as int);
                        vstd::arithmetic::div_mod::lemma_mod_bound(q, p as int);
                        assert(p * whole >= p * SIGN_BIT) by (nonlinear_arith)
                            requires
                                whole >= SIGN_BIT,
                                p > 0,
                        ;
                        assert(p * SIGN_BIT == SIGN_BIT * p) by (nonlinear_arith);
                    }
                }
            }
            if negative {
                Some((-(whole as i128)) as i64)
            } else {
                Some(whole as i64)
            }
        },
        Order::Equal => {
            proof {
                vstd::arithmetic::div_mod::lemma_div_multiples_vanish(SIGN_BIT as int, p as int);
                assert(p * SIGN_BIT == SIGN_BIT * p) by (nonlinear_arith);
            }
            if negative {
                Some(i64::MIN)
            } else {
                None
            }
        },
        Order::Less => None,
    }
}

/// A request for floating-point arithmetic or text conversion.
#[derive(Clone, Debug)]
pub enum FloatRequest {
    Sum(u64, u64),
    Difference(u64, u64),
    Product(u64, u64),
    Quotient(u64, u64),
    Remainder(u64, u64),
    FromInteger(i128),
    Parse(String),
    Display(u64),
}

/// The answer to a floating-point request.
#[derive(Clone, Debug)]
pub enum FloatReply {
    Bits(u64),
    Text(String),
    Invalid,
}

/// What a request asks.
pub enum FloatQuestion {
    Sum(u64, u64),
    Difference(u64, u64),
    Product(u64, u64),
    Quotient(u64, u64),
    Remainder(u64, u64),
    FromInteger(int),
    Parse(Seq<char>),
    Display(u64),
}

/// What a reply answers.
pub enum FloatAnswer {
    Bits(u64),
    Text(Seq<char>),
    Invalid,
}

impl View for FloatRequest {
    type V = FloatQuestion;

    open spec fn view(&self) -> FloatQuestion {
        match *self {
            FloatRequest::Sum(a, b) => FloatQuestion::Sum(a, b),
            FloatRequest::Difference(a, b) => FloatQuestion::Difference(a, b),
            FloatRequest::Product(a, b) => FloatQuestion::Product(a, b),
            FloatRequest::Quotient(a, b) => FloatQuestion::Quotient(a, b),
            FloatRequest::Remainder(a, b) => FloatQuestion::Remainder(a, b),
            FloatRequest::FromInteger(a) => FloatQuestion::FromInteger(a as int),
            FloatRequest::Parse(s) => FloatQuestion::Parse(s@),
            FloatRequest::Display(a) => FloatQuestion::Display(a),
        }
    }
}

impl View for FloatReply {
    type V = FloatAnswer;

    open spec fn view(&self) -> FloatAnswer {
        match *self {
            FloatReply::Bits(b) => FloatAnswer::Bits(b),
            FloatReply::Text(s) => FloatAnswer::Text(s@),
            FloatReply::Invalid => FloatAnswer::Invalid,
        }
    }
}

/// Floating-point arithmetic as a function from questions to answers.
pub type FloatModel = spec_fn(FloatQuestion) -> FloatAnswer;

/// Whether `f` may be called on every request and answers equal questions equally.
pub open spec fn answers_floats<F: Fn(FloatRequest) -> FloatReply>(f: F) -> bool {
    &&& forall|q: FloatRequest| #[trigger] call_requires(f, (q,))
    &&& forall|q1: FloatRequest, a1: FloatReply, q2: FloatRequest, a2: FloatReply|
        #[trigger] call_ensures(f, (q1,), a1) && #[trigger] call_ensures(f, (q2,), a2) && q1@ == q2@
            ==> a1@ == a2@
}

/// Whether `answer` is an answer of `f` to `question`.
pub open spec fn may_answer<F: Fn(FloatRequest) -> FloatReply>(
    f: F,
    question: FloatQuestion,
    answer: FloatAnswer,
) -> bool {
    exists|q: FloatRequest, a: FloatReply|
        q@ == question && a@ == answer && #[trigger] call_ensures(f, (q,), a)
}

/// The arithmetic that `f` provides.
pub open spec fn float_model<F: Fn(FloatRequest) -> FloatReply>(f: F) -> FloatModel {
    |question: FloatQuestion| choose|answer: FloatAnswer| may_answer(f, question, answer)
}

/// Asks `f` one question.
pub fn ask<F: Fn(FloatRequest) -> FloatReply>(f: &F, request: FloatRequest) -> (reply: FloatReply)
    requires
        answers_floats(*f),
    ensures
        reply@ == float_model(*f)(request@),
{
    let ghost question = request@;
    let ghost asked = request;
    let reply = f(request);
    proof {
        assert(call_ensures(*f, (asked,), reply));
        assert(may_answer(*f, question, reply@));
        let chosen = choose|answer: FloatAnswer| may_answer(*f, question, answer);
        assert(may_answer(*f, question, chosen));
        let (q, a) = choose|q: FloatRequest, a: FloatReply|
            q@ == question && a@ == chosen && #[trigger] call_ensures(*f, (q,), a);
        assert(call_ensures(*f, (q,), a));
    }
    reply
}

/// The bits in an answer; an answer without bits counts as a NaN.
pub open spec fn answer_bits(answer: FloatAnswer) -> u64 {
    match answer {
        FloatAnswer::Bits(b) => b,
        _ => NAN_BITS,
    }
}

/// Asks for a value.
pub fn ask_bits<F: Fn(FloatRequest) -> FloatReply>(f: &F, request: FloatRequest) -> (bits: u64)
    requires
        answers_floats(*f),
    ensures
        bits == answer_bits(float_model(*f)(request@)),
{
    match ask(f, request) {
        FloatReply::Bits(b) => b,
        _ => NAN_BITS,
    }
}

/// The sum of two values.
pub open spec fn float_sum(m: FloatModel, a: u64, b: u64) -> u64 {
    answer_bits(m(FloatQuestion::Sum(a, b)))
}

/// The difference of two values.
pub open spec fn float_difference(m: FloatModel, a: u64, b: u64) -> u64 {
    answer_bits(m(FloatQuestion::Difference(a, b)))
}

/// The product of two values.
pub open spec fn float_product(m: FloatModel, a: u64, b: u64) -> u64 {
    answer_bits(m(FloatQuestion::Product(a, b)))
}

/// The quotient of two values.
pub open spec fn float_quotient(m: FloatModel, a: u64, b: u64) -> u64 {
    answer_bits(m(FloatQuestion::Quotient(a, b)))
}

/// The remainder of two values.
pub open spec fn float_remainder(m: FloatModel, a: u64, b: u64) -> u64 {
    answer_bits(m(FloatQuestion::Remainder(a, b)))
}

/// The value nearest to an integer.
pub open spec fn float_from(m: FloatModel, i: int) -> u64 {
    answer_bits(m(FloatQuestion::FromInteger(i)))
}

/// The value that `s` denotes, if it denotes one.
pub open spec fn float_parsed(m: FloatModel, s: Seq<char>) -> Option<u64> {
    match m(FloatQuestion::Parse(s)) {
        FloatAnswer::Bits(b) => Some(b),
        _ => None,
    }
}

/// The decimal text of a value.
pub open spec fn float_text(m: FloatModel, bits: u64) -> Seq<char> {
    match m(FloatQuestion::Display(bits)) {
        FloatAnswer::Text(s) => s,
        _ => Seq::empty(),
    }
}

/// Parses a value.
pub fn parse_float<F: Fn(FloatRequest) -> FloatReply>(f: &F, s: &str) -> (r: Option<u64>)
    requires
        answers_floats(*f),
    ensures
        r == float_parsed(float_model(*f), s@),
{
    match ask(f, FloatRequest::Parse(s.to_owned())) {
        FloatReply::Bits(b) => Some(b),
        _ => None,
    }
}

/// Writes a value in decimal.
pub fn display_float<F: Fn(FloatRequest) -> FloatReply>(f: &F, bits: u64) -> (s: String)
    requires
        answers_floats(*f),
    ensures
        s@ == float_text(float_model(*f), bits),
{
    match ask(f, FloatRequest::Display(bits)) {
        FloatReply::Text(s) => s,
        _ => {
            let s = String::new();
            s
        },
    }
}

} // verus!
