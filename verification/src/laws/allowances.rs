//! What allowances of bytes, and averages over many values, are for.

use vstd::prelude::*;
use crate::aggregates::{all_bits, avg_datum, finite_sum, running_mean};
use crate::budget::{data_bytes, datum_bytes, fits, Budget};
use crate::float::{float_difference, float_from, float_product, float_quotient, float_sum, is_finite, FloatModel};
use crate::laws::aggregates::{as_float, floating_sum};
use crate::text::utf8_len;
use crate::types::{Datum, Fault};

verus! {

/// Bytes can be taken exactly as long as the limit is kept, and what was taken is counted; the
/// limit never changes.
pub proof fn bytes_are_taken_up_to_the_limit(b: Budget, bytes: usize)
    requires
        b.used + bytes <= usize::MAX,
    ensures
        b.taken(bytes) is Ok <==> b.used + bytes <= b.limit,
        b.taken(bytes) matches Ok(next) ==> next.used == b.used + bytes && next.limit == b.limit,
        fits(Some(b), bytes) is Ok <==> b.used + bytes <= b.limit,
        fits(None, bytes) is Ok,
        b.plus(bytes).used == b.used + bytes && b.plus(bytes).limit == b.limit,
        b.limit < b.used ==> b.taken(bytes) is Err,
{
}

/// Bytes that are taken one after the other are taken together.
pub proof fn bytes_add_up(b: Budget, one: usize, two: usize)
    requires
        b.used + one + two <= usize::MAX,
    ensures
        (b.taken(one) matches Ok(next) && next.taken(two) is Ok) <==> b.taken(
            (one + two) as usize,
        ) is Ok,
        b.taken(one) matches Ok(next) ==> (next.taken(two) matches Ok(last) ==> b.taken(
            (one + two) as usize,
        ) == Ok::<Budget, Fault>(last)),
{
}

/// The bytes of data, one by one.
pub open spec fn total_bytes(data: Seq<Datum>) -> int
    decreases data.len(),
{
    if data.len() == 0 {
        0
    } else {
        total_bytes(data.drop_last()) + 24 + match data.last() {
            Datum::Text(s) => utf8_len(s) as int,
            _ => 0,
        }
    }
}

proof fn prefixes_take_less(data: Seq<Datum>, n: int)
    requires
        0 <= n <= data.len(),
    ensures
        0 <= total_bytes(data.take(n)) <= total_bytes(data),
    decreases data.len(),
{
    if n == data.len() {
        assert(data.take(n) =~= data);
        if data.len() > 0 {
            prefixes_take_less(data.drop_last(), n - 1);
            assert(data.drop_last().take(n - 1) =~= data.drop_last());
        }
    } else {
        prefixes_take_less(data.drop_last(), n);
        assert(data.drop_last().take(n) =~= data.take(n));
    }
}

/// A row of data takes the bytes of all its data.
pub proof fn rows_take_the_bytes_of_their_data(data: Seq<Datum>, n: int)
    requires
        0 <= n <= data.len(),
        total_bytes(data) <= usize::MAX,
    ensures
        data_bytes(0, data, n) == total_bytes(data.take(n)),
    decreases n,
{
    prefixes_take_less(data, n);
    if n > 0 {
        rows_take_the_bytes_of_their_data(data, n - 1);
        assert(data.take(n).drop_last() =~= data.take(n - 1));
        prefixes_take_less(data, n - 1);
        let d = data[n - 1];
        assert(data.take(n).last() == d);
        assert(total_bytes(data.take(n)) == total_bytes(data.take(n - 1)) + 24 + match d {
            Datum::Text(s) => utf8_len(s) as int,
            _ => 0,
        });
        assert(datum_bytes(d) == 24 + match d {
            Datum::Text(s) => utf8_len(s) as int,
            _ => 0,
        });
    }
}

/// The mean of numbers, each new one weighed by one over how many there are then.
pub open spec fn weighed_mean(m: FloatModel, data: Seq<Datum>) -> u64
    decreases data.len(),
{
    if data.len() == 0 {
        0
    } else {
        let n = float_from(m, data.len() as int);
        float_sum(
            m,
            float_product(
                m,
                weighed_mean(m, data.drop_last()),
                float_quotient(m, float_difference(m, n, 0x3ff0_0000_0000_0000), n),
            ),
            float_quotient(m, as_float(m, data.last()), n),
        )
    }
}

/// Data that are numbers.
pub open spec fn all_numbers(data: Seq<Datum>) -> bool {
    forall|k: int| 0 <= k < data.len() ==> (#[trigger] data[k] is Int64 || data[k] is Float64)
}

proof fn numbers_are_converted(m: FloatModel, data: Seq<Datum>, i: int, read: Seq<u64>)
    requires
        0 <= i <= data.len(),
        all_numbers(data),
        read == Seq::new(i as nat, |k: int| as_float(m, data[k])),
    ensures
        all_bits(m, data, i, read) == Ok::<Seq<u64>, Fault>(
            Seq::new(data.len(), |k: int| as_float(m, data[k])),
        ),
    decreases data.len() - i,
{
    if i < data.len() {
        let next = Seq::new((i + 1) as nat, |k: int| as_float(m, data[k]));
        assert(read.push(as_float(m, data[i])) =~= next);
        assert(data[i] is Int64 || data[i] is Float64);
        numbers_are_converted(m, data, i + 1, next);
    }
}

proof fn sum_breaks_off(m: FloatModel, data: Seq<Datum>, bits: Seq<u64>, i: int, sum: u64)
    requires
        bits == Seq::new(data.len(), |k: int| as_float(m, data[k])),
        0 <= i <= data.len(),
        sum == floating_sum(m, data.take(i)),
    ensures
        finite_sum(m, bits, i, sum) == (if forall|k: int|
            i < k <= data.len() ==> is_finite(floating_sum(m, #[trigger] data.take(k))) {
            Some(floating_sum(m, data))
        } else {
            None
        }),
    decreases data.len() - i,
{
    if i < data.len() {
        let next = data.take(i + 1);
        assert(next.drop_last() =~= data.take(i));
        assert(next.last() == data[i]);
        assert(floating_sum(m, next) == float_sum(m, sum, bits[i]));
        sum_breaks_off(m, data, bits, i + 1, floating_sum(m, next));
        if is_finite(floating_sum(m, next)) {
            assert((forall|k: int|
                i < k <= data.len() ==> is_finite(floating_sum(m, #[trigger] data.take(k)))) == (
            forall|k: int|
                i + 1 < k <= data.len() ==> is_finite(floating_sum(m, #[trigger] data.take(k)))));
        }
    } else {
        assert(data.take(i) =~= data);
    }
}

proof fn mean_is_weighed(m: FloatModel, data: Seq<Datum>, bits: Seq<u64>, i: int, mean: u64)
    requires
        bits == Seq::new(data.len(), |k: int| as_float(m, data[k])),
        0 <= i <= data.len(),
        mean == weighed_mean(m, data.take(i)),
    ensures
        running_mean(m, bits, i, mean) == weighed_mean(m, data),
    decreases data.len() - i,
{
    if i < data.len() {
        let next = data.take(i + 1);
        assert(next.drop_last() =~= data.take(i));
        assert(next.last() == data[i]);
        mean_is_weighed(m, data, bits, i + 1, weighed_mean(m, next));
    } else {
        assert(data.take(i) =~= data);
    }
}

/// With room for the numbers, `AVG` of numbers is the sum over the count where the sum stays
/// finite and the weighed mean where it does not, and fails only where that is not finite.
pub proof fn averages_are_found(m: FloatModel, data: Seq<Datum>, memory: Budget)
    requires
        data.len() > 0,
        all_numbers(data),
        memory.used + 24 + data.len() * 8 <= memory.limit,
    ensures
        ({
            let mean = if forall|k: int|
                0 < k <= data.len() ==> is_finite(floating_sum(m, #[trigger] data.take(k))) {
                float_quotient(m, floating_sum(m, data), float_from(m, data.len() as int))
            } else {
                weighed_mean(m, data)
            };
            &&& avg_datum(m, data, memory) is Ok <==> is_finite(mean)
            &&& avg_datum(m, data, memory) matches Ok(d) ==> d == Datum::Float64(mean)
        }),
{
    let none = Seq::<u64>::empty();
    assert(none =~= Seq::new(0nat, |k: int| as_float(m, data[k])));
    numbers_are_converted(m, data, 0, none);
    let bits = Seq::new(data.len(), |k: int| as_float(m, data[k]));
    assert(data.take(0) =~= Seq::<Datum>::empty());
    sum_breaks_off(m, data, bits, 0, 0);
    mean_is_weighed(m, data, bits, 0, 0);
}

} // verus!
