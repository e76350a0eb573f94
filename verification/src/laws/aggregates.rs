//! What aggregates over the rows of a group are for.

use vstd::prelude::*;
use crate::aggregates::{all_bits, any_float, avg_datum, extreme_datum, extreme_from, finite_sum, float_total, int_total, key_of, sum_datum};
use crate::ast::{ArgumentValue, SqlCall, SqlExpr};
use crate::binding::{call_distinct, call_items, call_name, Origin};
use crate::budget::Budget;
use crate::eval::{aggregate_start, eval, eval_column, reduce_datum, row_scope, Scope};
use crate::float::{float_from, float_quotient, float_sum, is_finite, is_nan, is_zero, FloatModel};
use crate::laws::values::{memory_decides_no_value, value_on};
use crate::laws::orders::{below, rank_puts_the_smaller_first};
use crate::ordering::{rank_chains, rank_flips, same_kind};
use crate::text::Order;
use crate::types::{datum_rank, Datum, Fault};

verus! {

/// Whether a call is an aggregate of one expression.
pub open spec fn aggregates(call: SqlCall, name: Seq<char>, e: SqlExpr, distinct: bool) -> bool {
    &&& call_name(call) == Ok::<Seq<char>, Fault>(name)
    &&& call.arguments is List
    &&& call_items(call).len() == 1
    &&& call_items(call)[0].named is None
    &&& call_items(call)[0].value == ArgumentValue::Expr(e)
    &&& call_distinct(call) == distinct
}

/// The values of an expression on rows.
pub open spec fn values_on(e: SqlExpr, rows: Seq<usize>, source: Origin, m: FloatModel) -> Seq<Datum> {
    Seq::new(rows.len(), |k: int| value_on(e, source, Some(rows[k]), m)->Ok_0)
}

/// The values that are not NULL.
pub open spec fn known(data: Seq<Datum>) -> Seq<Datum> {
    data.filter(|d: Datum| !(d is Null))
}

/// Whether two data count as one where each is taken only once: equal ones, two zeros, and two
/// that are no numbers.
pub open spec fn count_as_one(a: Datum, b: Datum) -> bool {
    a == b || (a matches Datum::Float64(x) && b matches Datum::Float64(y) && ((is_zero(x)
        && is_zero(y)) || (is_nan(x) && is_nan(y))))
}

/// Whether data are those of a list, each taken once.
pub open spec fn taken_once(data: Seq<Datum>, all: Seq<Datum>) -> bool {
    &&& forall|i: int| 0 <= i < data.len() ==> #[trigger] all.contains(data[i])
    &&& forall|i: int, j: int|
        0 <= i < j < data.len() ==> !count_as_one(#[trigger] data[i], #[trigger] data[j])
    &&& forall|k: int|
        0 <= k < all.len() ==> exists|i: int|
            0 <= i < data.len() && count_as_one(#[trigger] data[i], #[trigger] all[k])
}

/// Data have one key where they count as one.
pub proof fn keys_join_what_counts_as_one(a: Datum, b: Datum)
    ensures
        key_of(a) == key_of(b) <==> count_as_one(a, b),
{
}

proof fn known_grows(data: Seq<Datum>, d: Datum)
    ensures
        known(data.push(d)) == (if d is Null { known(data) } else { known(data).push(d) }),
{
    reveal(Seq::filter);
    assert(data.push(d).drop_last() =~= data);
}

proof fn known_is_kept(data: Seq<Datum>, i: int)
    ensures
        0 <= i < known(data).len() ==> data.contains(known(data)[i]) && !(known(data)[i] is Null),
        forall|k: int| 0 <= k < data.len() && !(data[k] is Null) ==> known(data).contains(data[k]),
        known(data).len() <= data.len(),
    decreases data.len(),
{
    reveal(Seq::filter);
    if data.len() > 0 {
        let before = data.drop_last();
        let last = data.last();
        known_is_kept(before, i);
        assert(before.push(last) =~= data);
        known_grows(before, last);
        if 0 <= i < known(data).len() {
            if i < known(before).len() {
                let k = choose|k: int| 0 <= k < before.len() && before[k] == known(before)[i];
                assert(data[k] == known(data)[i]);
            } else {
                assert(data[data.len() - 1] == known(data)[i]);
            }
        }
        assert forall|k: int| 0 <= k < data.len() && !(data[k] is Null) implies known(
            data,
        ).contains(data[k]) by {
            if k < before.len() {
                assert(known(before).contains(before[k]));
                let j = choose|j: int| 0 <= j < known(before).len() && known(before)[j] == before[k];
                assert(known(data)[j] == data[k]);
            } else {
                assert(known(data)[known(before).len() as int] == data[k]);
            }
        }
    }
}

/// An aggregate is fed with the values of its expression that are not NULL, in the order of the
/// rows.
pub proof fn known_values_are_taken(
    e: SqlExpr,
    rows: Seq<usize>,
    i: int,
    data: Seq<Datum>,
    memory: Budget,
    source: Origin,
    m: FloatModel,
)
    requires
        0 <= i <= rows.len(),
        data == known(values_on(e, rows.take(i), source, m)),
    ensures
        eval_column(e, rows, i, false, data, Seq::empty(), memory, source, m) matches Ok((all, _))
            ==> all == known(values_on(e, rows, source, m)),
    decreases rows.len() - i,
{
    if i < rows.len() {
        memory_decides_no_value(e, source, Some(rows[i]), memory, m);
        let before = values_on(e, rows.take(i), source, m);
        let d = value_on(e, source, Some(rows[i]), m)->Ok_0;
        assert(values_on(e, rows.take(i + 1), source, m) =~= before.push(d));
        known_grows(before, d);
        if let Ok(found) = eval(e, row_scope(source, Some(rows[i]), Some(memory)), m) {
            if found is Null {
                known_values_are_taken(e, rows, i + 1, data, memory, source, m);
            } else if let Ok(used) = memory.taken(crate::budget::datum_bytes(found)) {
                known_values_are_taken(e, rows, i + 1, data.push(found), used, source, m);
            }
        }
    } else {
        assert(rows.take(i) =~= rows);
    }
}

proof fn all_values_are_there(
    e: SqlExpr,
    rows: Seq<usize>,
    i: int,
    distinct: bool,
    data: Seq<Datum>,
    keys: Seq<Datum>,
    memory: Budget,
    source: Origin,
    m: FloatModel,
)
    requires
        0 <= i <= rows.len(),
        eval_column(e, rows, i, distinct, data, keys, memory, source, m) is Ok,
    ensures
        forall|k: int|
            i <= k < rows.len() ==> value_on(e, source, Some(#[trigger] rows[k]), m) is Ok,
    decreases rows.len() - i,
{
    if i < rows.len() {
        memory_decides_no_value(e, source, Some(rows[i]), memory, m);
        let d = eval(e, row_scope(source, Some(rows[i]), Some(memory)), m)->Ok_0;
        if d is Null || (distinct && keys.contains(key_of(d))) {
            all_values_are_there(e, rows, i + 1, distinct, data, keys, memory, source, m);
        } else {
            let bytes = crate::budget::sat_sum(
                crate::aggregates::key_bytes(key_of(d)),
                crate::budget::INDEX_BYTES,
            );
            let keyed = if distinct {
                memory.taken(bytes)
            } else {
                Ok(memory)
            };
            let used = keyed->Ok_0.taken(crate::budget::datum_bytes(d))->Ok_0;
            all_values_are_there(
                e,
                rows,
                i + 1,
                distinct,
                data.push(d),
                if distinct {
                    keys.push(key_of(d))
                } else {
                    keys
                },
                used,
                source,
                m,
            );
        }
    }
}

proof fn what_was_seen_adds_nothing(data: Seq<Datum>, all: Seq<Datum>, d: Datum, j: int)
    requires
        taken_once(data, all),
        0 <= j < data.len(),
        count_as_one(data[j], d),
    ensures
        taken_once(data, all.push(d)),
{
    let more = all.push(d);
    assert forall|i: int| 0 <= i < data.len() implies #[trigger] more.contains(data[i]) by {
        assert(all.contains(data[i]));
        let k = choose|k: int| 0 <= k < all.len() && all[k] == data[i];
        assert(more[k] == data[i]);
    }
    assert forall|k: int| 0 <= k < more.len() implies exists|i: int|
        0 <= i < data.len() && count_as_one(#[trigger] data[i], #[trigger] more[k]) by {
        if k < all.len() {
            let i = choose|i: int|
                0 <= i < data.len() && count_as_one(#[trigger] data[i], #[trigger] all[k]);
            assert(count_as_one(data[i], more[k]));
        } else {
            assert(count_as_one(data[j], more[k]));
        }
    }
}

proof fn what_is_new_is_added(data: Seq<Datum>, all: Seq<Datum>, d: Datum)
    requires
        taken_once(data, all),
        forall|j: int| 0 <= j < data.len() ==> !count_as_one(#[trigger] data[j], d),
    ensures
        taken_once(data.push(d), all.push(d)),
{
    let (taken, more) = (data.push(d), all.push(d));
    assert forall|i: int| 0 <= i < taken.len() implies #[trigger] more.contains(taken[i]) by {
        if i < data.len() {
            assert(all.contains(data[i]));
            let k = choose|k: int| 0 <= k < all.len() && all[k] == data[i];
            assert(more[k] == data[i]);
        } else {
            assert(more[all.len() as int] == d);
        }
    }
    assert forall|i: int, j: int| 0 <= i < j < taken.len() implies !count_as_one(
        #[trigger] taken[i],
        #[trigger] taken[j],
    ) by {
        assert(taken[i] == data[i]);
        if j < data.len() {
            assert(taken[j] == data[j]);
        }
    }
    assert forall|k: int| 0 <= k < more.len() implies exists|i: int|
        0 <= i < taken.len() && count_as_one(#[trigger] taken[i], #[trigger] more[k]) by {
        if k < all.len() {
            let i = choose|i: int|
                0 <= i < data.len() && count_as_one(#[trigger] data[i], #[trigger] all[k]);
            assert(count_as_one(taken[i], more[k]));
        } else {
            assert(count_as_one(taken[data.len() as int], more[k]));
        }
    }
}

spec fn keys_of(data: Seq<Datum>) -> Seq<Datum> {
    data.map_values(|d: Datum| key_of(d))
}

proof fn distinct_values_are_taken(
    e: SqlExpr,
    rows: Seq<usize>,
    i: int,
    data: Seq<Datum>,
    keys: Seq<Datum>,
    memory: Budget,
    source: Origin,
    m: FloatModel,
)
    requires
        0 <= i <= rows.len(),
        keys == keys_of(data),
        taken_once(data, known(values_on(e, rows.take(i), source, m))),
    ensures
        eval_column(e, rows, i, true, data, keys, memory, source, m) matches Ok((all, _))
            ==> taken_once(all, known(values_on(e, rows, source, m))),
    decreases rows.len() - i,
{
    if i < rows.len() {
        memory_decides_no_value(e, source, Some(rows[i]), memory, m);
        let before = values_on(e, rows.take(i), source, m);
        let d = value_on(e, source, Some(rows[i]), m)->Ok_0;
        assert(values_on(e, rows.take(i + 1), source, m) =~= before.push(d));
        known_grows(before, d);
        if let Ok(found) = eval(e, row_scope(source, Some(rows[i]), Some(memory)), m) {
            if found is Null {
                distinct_values_are_taken(e, rows, i + 1, data, keys, memory, source, m);
            } else if keys.contains(key_of(found)) {
                let j = choose|j: int| 0 <= j < keys.len() && keys[j] == key_of(found);
                keys_join_what_counts_as_one(data[j], d);
                what_was_seen_adds_nothing(data, known(before), d, j);
                distinct_values_are_taken(e, rows, i + 1, data, keys, memory, source, m);
            } else {
                assert forall|j: int| 0 <= j < data.len() implies !count_as_one(
                    #[trigger] data[j],
                    d,
                ) by {
                    keys_join_what_counts_as_one(data[j], d);
                    assert(keys[j] == key_of(data[j]));
                }
                what_is_new_is_added(data, known(before), d);
                let marks = keys.push(key_of(found));
                assert(marks =~= keys_of(data.push(found)));
                let bytes = crate::budget::sat_sum(
                    crate::aggregates::key_bytes(key_of(found)),
                    crate::budget::INDEX_BYTES,
                );
                if let Ok(keyed) = memory.taken(bytes) {
                    if let Ok(used) = keyed.taken(crate::budget::datum_bytes(found)) {
                        let more = data.push(found);
                        distinct_values_are_taken(e, rows, i + 1, more, marks, used, source, m);
                    }
                }
            }
        }
    } else {
        assert(rows.take(i) =~= rows);
    }
}

/// The data that an aggregate of a group is computed from.
spec fn fed(call: SqlCall, e: SqlExpr, rows: Seq<usize>, s: Scope, m: FloatModel) -> Result<
    (Seq<Datum>, Budget),
    Fault,
> {
    let distinct = call_distinct(call);
    match aggregate_start(s.memory->Some_0, distinct) {
        Err(fault) => Err(fault),
        Ok(started) => eval_column(
            e,
            rows,
            0,
            distinct,
            Seq::empty(),
            Seq::empty(),
            started,
            s.source,
            m,
        ),
    }
}

/// What an aggregate of a group is computed from: without `DISTINCT` the values that are not
/// NULL in the order of the rows, with it each of them once.
proof fn feed_is_known(
    call: SqlCall,
    name: Seq<char>,
    e: SqlExpr,
    distinct: bool,
    rows: Seq<usize>,
    s: Scope,
    m: FloatModel,
) -> (data: Seq<Datum>)
    requires
        aggregates(call, name, e, distinct),
        crate::binding::is_aggregate(name),
        s.rows == Some(rows),
        eval(SqlExpr::Call(call), s, m) is Ok,
    ensures
        fed(call, e, rows, s, m) matches Ok((all, used)) && all == data && eval(
            SqlExpr::Call(call),
            s,
            m,
        ) == reduce_datum(m, name, data, used),
        forall|k: int| 0 <= k < rows.len() ==> value_on(e, s.source, Some(#[trigger] rows[k]), m) is Ok,
        distinct ==> taken_once(data, known(values_on(e, rows, s.source, m))),
        !distinct ==> data == known(values_on(e, rows, s.source, m)),
{
    let started = aggregate_start(s.memory->Some_0, distinct)->Ok_0;
    let all = values_on(e, rows.take(0), s.source, m);
    assert(all =~= Seq::<Datum>::empty());
    assert(known(all) =~= Seq::<Datum>::empty()) by {
        reveal(Seq::filter);
    }
    reveal_strlit("count");
    reveal_strlit("sum");
    reveal_strlit("min");
    reveal_strlit("max");
    reveal_strlit("avg");
    assert(eval(SqlExpr::Call(call), s, m) == crate::eval::eval_call(call, s, m));
    assert(eval(SqlExpr::Call(call), s, m) == crate::eval::eval_aggregate_call(call, rows, s, m));
    let found = fed(call, e, rows, s, m);
    assert(found is Ok);
    let none = Seq::<Datum>::empty();
    all_values_are_there(e, rows, 0, distinct, none, none, started, s.source, m);
    if distinct {
        assert(none =~= keys_of(none));
        distinct_values_are_taken(e, rows, 0, none, none, started, s.source, m);
    } else {
        known_values_are_taken(e, rows, 0, none, started, s.source, m);
    }
    found->Ok_0.0
}

/// `COUNT` of an expression is the number of rows of the group on which the expression is not
/// NULL.
pub proof fn count_is_the_number_of_known_values(
    call: SqlCall,
    e: SqlExpr,
    rows: Seq<usize>,
    s: Scope,
    m: FloatModel,
)
    requires
        aggregates(call, "count"@, e, false),
        s.rows == Some(rows),
        rows.len() <= i64::MAX,
    ensures
        eval(SqlExpr::Call(call), s, m) matches Ok(d) ==> d == Datum::Int64(
            known(values_on(e, rows, s.source, m)).len() as i64,
        ),
{
    if eval(SqlExpr::Call(call), s, m) is Ok {
        let data = feed_is_known(call, "count"@, e, false, rows, s, m);
        known_is_kept(values_on(e, rows, s.source, m), 0);
    }
}

/// A row on which an expression is NULL does not change its count, and any other row adds one.
pub proof fn a_row_adds_one_where_it_is_known(
    call: SqlCall,
    e: SqlExpr,
    rows: Seq<usize>,
    row: usize,
    s: Scope,
    more: Scope,
    m: FloatModel,
)
    requires
        aggregates(call, "count"@, e, false),
        s.rows == Some(rows),
        more.rows == Some(rows.push(row)),
        more.source == s.source,
        rows.len() < i64::MAX,
        eval(SqlExpr::Call(call), s, m) is Ok,
        eval(SqlExpr::Call(call), more, m) is Ok,
    ensures
        ({
            let before = eval(SqlExpr::Call(call), s, m)->Ok_0;
            let after = eval(SqlExpr::Call(call), more, m)->Ok_0;
            &&& before is Int64 && after is Int64
            &&& value_on(e, s.source, Some(row), m) is Ok
            &&& after->Int64_0 - before->Int64_0 == (if value_on(e, s.source, Some(row), m)->Ok_0 is Null {
                0int
            } else {
                1
            })
        }),
{
    count_is_the_number_of_known_values(call, e, rows, s, m);
    count_is_the_number_of_known_values(call, e, rows.push(row), more, m);
    let data = feed_is_known(call, "count"@, e, false, rows.push(row), more, m);
    let d = value_on(e, s.source, Some(row), m)->Ok_0;
    assert(rows.push(row)[rows.len() as int] == row);
    let all = values_on(e, rows, s.source, m);
    assert(values_on(e, rows.push(row), s.source, m) =~= all.push(d));
    known_grows(all, d);
    known_is_kept(all, 0);
    known_is_kept(all.push(d), 0);
}

/// `COUNT` of a column that is NULL on all rows is 0.
pub proof fn nothing_known_counts_nothing(
    call: SqlCall,
    e: SqlExpr,
    rows: Seq<usize>,
    s: Scope,
    m: FloatModel,
)
    requires
        aggregates(call, "count"@, e, false),
        s.rows == Some(rows),
        rows.len() <= i64::MAX,
        forall|k: int|
            0 <= k < rows.len() ==> value_on(e, s.source, Some(#[trigger] rows[k]), m) == Ok::<
                Datum,
                Fault,
            >(Datum::Null),
    ensures
        eval(SqlExpr::Call(call), s, m) matches Ok(d) ==> d == Datum::Int64(0),
{
    count_is_the_number_of_known_values(call, e, rows, s, m);
    let all = values_on(e, rows, s.source, m);
    if known(all).len() > 0 {
        known_is_kept(all, 0);
        let k = choose|k: int| 0 <= k < all.len() && all[k] == known(all)[0];
        assert(value_on(e, s.source, Some(rows[k]), m) == Ok::<Datum, Fault>(Datum::Null));
    }
}

/// `COUNT(*)` and `COUNT()` are the number of rows of the group.
pub proof fn count_of_rows_is_their_number(call: SqlCall, rows: Seq<usize>, s: Scope, m: FloatModel)
    requires
        call_name(call) == Ok::<Seq<char>, Fault>("count"@),
        call.arguments is List,
        !call_distinct(call),
        call_items(call).len() == 0 || (call_items(call).len() == 1 && call_items(call)[0].named is None
            && !(call_items(call)[0].value is Expr)),
        s.rows == Some(rows),
        rows.len() <= i64::MAX,
    ensures
        eval(SqlExpr::Call(call), s, m) == Ok::<Datum, Fault>(Datum::Int64(rows.len() as i64)),
{
    assert(eval(SqlExpr::Call(call), s, m) == crate::eval::eval_call(call, s, m));
    assert(eval(SqlExpr::Call(call), s, m) == crate::eval::eval_aggregate_call(call, rows, s, m));
}

/// `COUNT(DISTINCT ..)` is the number of data that differ.
pub proof fn distinct_count_is_the_number_of_different_values(
    call: SqlCall,
    e: SqlExpr,
    rows: Seq<usize>,
    s: Scope,
    m: FloatModel,
)
    requires
        aggregates(call, "count"@, e, true),
        s.rows == Some(rows),
        rows.len() <= i64::MAX,
    ensures
        eval(SqlExpr::Call(call), s, m) matches Ok(d) ==> exists|different: Seq<Datum>|
            #[trigger] taken_once(different, known(values_on(e, rows, s.source, m))) && d
                == Datum::Int64(different.len() as i64),
{
    if eval(SqlExpr::Call(call), s, m) is Ok {
        let data = feed_is_known(call, "count"@, e, true, rows, s, m);
        assert(taken_once(data, known(values_on(e, rows, s.source, m))));
    }
}

/// Lists in which each of the same data is taken once are equally long.
pub proof fn lists_of_different_values_are_as_long(a: Seq<Datum>, b: Seq<Datum>, all: Seq<Datum>)
    requires
        taken_once(a, all),
        taken_once(b, all),
    ensures
        a.len() == b.len(),
{
    let ka = keys_of(a);
    let kb = keys_of(b);
    assert forall|i: int, j: int| 0 <= i < ka.len() && 0 <= j < ka.len() && i != j implies ka[i]
        != ka[j] by {
        keys_join_what_counts_as_one(a[i], a[j]);
        keys_join_what_counts_as_one(a[j], a[i]);
        if i < j {
            assert(!count_as_one(a[i], a[j]));
        } else {
            assert(!count_as_one(a[j], a[i]));
        }
    }
    assert forall|i: int, j: int| 0 <= i < kb.len() && 0 <= j < kb.len() && i != j implies kb[i]
        != kb[j] by {
        keys_join_what_counts_as_one(b[i], b[j]);
        keys_join_what_counts_as_one(b[j], b[i]);
        if i < j {
            assert(!count_as_one(b[i], b[j]));
        } else {
            assert(!count_as_one(b[j], b[i]));
        }
    }
    ka.unique_seq_to_set();
    kb.unique_seq_to_set();
    taken_keys_are_shared(a, b, all);
    taken_keys_are_shared(b, a, all);
    assert(ka.to_set() =~= kb.to_set());
}

proof fn taken_keys_are_shared(a: Seq<Datum>, b: Seq<Datum>, all: Seq<Datum>)
    requires
        taken_once(a, all),
        taken_once(b, all),
    ensures
        forall|k: Datum|
            #![auto]
            keys_of(a).contains(k) ==> keys_of(b).contains(k),
{
    let ka = keys_of(a);
    let kb = keys_of(b);
    assert forall|k: Datum| ka.contains(k) implies kb.contains(k) by {
        let i = choose|i: int| 0 <= i < ka.len() && ka[i] == k;
        assert(all.contains(a[i]));
        let n = choose|n: int| 0 <= n < all.len() && all[n] == a[i];
        let j = choose|j: int| 0 <= j < b.len() && count_as_one(#[trigger] b[j], #[trigger] all[n]);
        keys_join_what_counts_as_one(b[j], a[i]);
        assert(kb[j] == k);
    }
}

/// The sum of the integers among data.
pub open spec fn integer_sum(data: Seq<Datum>) -> int
    decreases data.len(),
{
    if data.len() == 0 {
        0
    } else {
        integer_sum(data.drop_last()) + (if let Datum::Int64(n) = data.last() {
            n as int
        } else {
            0
        })
    }
}

proof fn integer_sum_grows(data: Seq<Datum>, d: Datum)
    ensures
        integer_sum(data.push(d)) == integer_sum(data) + (if let Datum::Int64(n) = d {
            n as int
        } else {
            0
        }),
{
    assert(data.push(d).drop_last() =~= data);
}

proof fn int_total_adds_up(data: Seq<Datum>, i: int, total: i64)
    requires
        0 <= i <= data.len(),
        total == integer_sum(data.take(i)),
    ensures
        int_total(data, i, total) matches Ok(d) ==> d is Int64 && d->Int64_0 == integer_sum(data),
    decreases data.len() - i,
{
    if i < data.len() {
        assert(data.take(i + 1) =~= data.take(i).push(data[i]));
        integer_sum_grows(data.take(i), data[i]);
        if let Datum::Int64(n) = data[i] {
            if i64::MIN <= total + n <= i64::MAX {
                int_total_adds_up(data, i + 1, (total + n) as i64);
            }
        }
    } else {
        assert(data.take(i) =~= data);
    }
}

proof fn int_total_succeeds(data: Seq<Datum>, i: int, total: i64)
    requires
        0 <= i <= data.len(),
        total == integer_sum(data.take(i)),
        forall|k: int| 0 <= k < data.len() ==> #[trigger] data[k] is Int64,
        forall|k: int|
            0 <= k <= data.len() ==> i64::MIN <= integer_sum(#[trigger] data.take(k)) <= i64::MAX,
    ensures
        int_total(data, i, total) is Ok,
    decreases data.len() - i,
{
    if i < data.len() {
        assert(data.take(i + 1) =~= data.take(i).push(data[i]));
        integer_sum_grows(data.take(i), data[i]);
        assert(data[i] is Int64);
        assert(i64::MIN <= integer_sum(data.take(i + 1)) <= i64::MAX);
        int_total_succeeds(data, i + 1, integer_sum(data.take(i + 1)) as i64);
    }
}

proof fn no_float_among_integers(data: Seq<Datum>, i: int)
    requires
        0 <= i,
    ensures
        any_float(data, i) <==> exists|k: int| i <= k < data.len() && #[trigger] data[k] is Float64,
    decreases data.len() - i,
{
    if i < data.len() {
        no_float_among_integers(data, i + 1);
    }
}

/// `SUM` of nothing that is known is NULL, and otherwise `SUM` of integers is their sum. It
/// succeeds as long as no part of the sum leaves the range of integers.
pub proof fn sum_of_integers_is_their_sum(m: FloatModel, data: Seq<Datum>)
    requires
        forall|k: int| 0 <= k < data.len() ==> #[trigger] data[k] is Int64,
    ensures
        data.len() == 0 ==> sum_datum(m, data) == Ok::<Datum, Fault>(Datum::Null),
        data.len() > 0 ==> (sum_datum(m, data) matches Ok(d) ==> d is Int64 && d->Int64_0
            == integer_sum(data)),
        (forall|k: int|
            0 <= k <= data.len() ==> i64::MIN <= integer_sum(#[trigger] data.take(k)) <= i64::MAX)
            ==> sum_datum(m, data) is Ok,
{
    no_float_among_integers(data, 0);
    assert(data.take(0) =~= Seq::<Datum>::empty());
    int_total_adds_up(data, 0, 0);
    if forall|k: int|
        0 <= k <= data.len() ==> i64::MIN <= integer_sum(#[trigger] data.take(k)) <= i64::MAX {
        int_total_succeeds(data, 0, 0);
    }
}

/// A number as a floating-point value.
pub open spec fn as_float(m: FloatModel, d: Datum) -> u64 {
    match d {
        Datum::Int64(i) => float_from(m, i as int),
        Datum::Float64(b) => b,
        _ => 0,
    }
}

/// The floating-point sum of numbers, added in their order to zero.
pub open spec fn floating_sum(m: FloatModel, data: Seq<Datum>) -> u64
    decreases data.len(),
{
    if data.len() == 0 {
        0
    } else {
        float_sum(m, floating_sum(m, data.drop_last()), as_float(m, data.last()))
    }
}

proof fn floating_sum_grows(m: FloatModel, data: Seq<Datum>, d: Datum)
    ensures
        floating_sum(m, data.push(d)) == float_sum(m, floating_sum(m, data), as_float(m, d)),
{
    assert(data.push(d).drop_last() =~= data);
}

proof fn float_total_adds_up(m: FloatModel, data: Seq<Datum>, i: int, total: u64)
    requires
        0 <= i <= data.len(),
        total == floating_sum(m, data.take(i)),
    ensures
        float_total(m, data, i, total) matches Ok(d) ==> d == Datum::Float64(floating_sum(m, data))
            && is_finite(floating_sum(m, data)),
        (forall|k: int|
            i <= k < data.len() ==> (#[trigger] data[k] is Int64 || data[k] is Float64)) && is_finite(
            floating_sum(m, data),
        ) ==> float_total(m, data, i, total) is Ok,
    decreases data.len() - i,
{
    if i < data.len() {
        assert(data.take(i + 1) =~= data.take(i).push(data[i]));
        floating_sum_grows(m, data.take(i), data[i]);
        if data[i] is Int64 || data[i] is Float64 {
            float_total_adds_up(m, data, i + 1, float_sum(m, total, as_float(m, data[i])));
        }
    } else {
        assert(data.take(i) =~= data);
    }
}

/// `SUM` of numbers of which one is floating-point is their floating-point sum, if it is finite.
pub proof fn sum_with_floats_is_their_floating_sum(m: FloatModel, data: Seq<Datum>, at: int)
    requires
        0 <= at < data.len(),
        data[at] is Float64,
        forall|k: int| 0 <= k < data.len() ==> (#[trigger] data[k] is Int64 || data[k] is Float64),
    ensures
        sum_datum(m, data) is Ok <==> is_finite(floating_sum(m, data)),
        sum_datum(m, data) matches Ok(d) ==> d == Datum::Float64(floating_sum(m, data)),
{
    no_float_among_integers(data, 0);
    assert(data.take(0) =~= Seq::<Datum>::empty());
    float_total_adds_up(m, data, 0, 0);
}

proof fn all_bits_are_numbers(m: FloatModel, data: Seq<Datum>, i: int, read: Seq<u64>)
    requires
        0 <= i <= data.len(),
        read == Seq::new(i as nat, |k: int| as_float(m, data[k])),
    ensures
        all_bits(m, data, i, read) matches Ok(bits) ==> bits == Seq::new(
            data.len(),
            |k: int| as_float(m, data[k]),
        ),
    decreases data.len() - i,
{
    if i < data.len() {
        let next = Seq::new((i + 1) as nat, |k: int| as_float(m, data[k]));
        assert(read.push(as_float(m, data[i])) =~= next);
        if data[i] is Int64 || data[i] is Float64 {
            all_bits_are_numbers(m, data, i + 1, next);
        }
    }
}

proof fn finite_sum_adds_up(m: FloatModel, data: Seq<Datum>, bits: Seq<u64>, i: int, sum: u64)
    requires
        bits == Seq::new(data.len(), |k: int| as_float(m, data[k])),
        0 <= i <= data.len(),
        sum == floating_sum(m, data.take(i)),
        forall|k: int| i < k <= data.len() ==> is_finite(floating_sum(m, #[trigger] data.take(k))),
    ensures
        finite_sum(m, bits, i, sum) == Some(floating_sum(m, data)),
    decreases data.len() - i,
{
    if i < data.len() {
        assert(data.take(i + 1) =~= data.take(i).push(data[i]));
        floating_sum_grows(m, data.take(i), data[i]);
        assert(is_finite(floating_sum(m, data.take(i + 1))));
        finite_sum_adds_up(m, data, bits, i + 1, floating_sum(m, data.take(i + 1)));
    } else {
        assert(data.take(i) =~= data);
    }
}

/// `AVG` of nothing that is known is NULL, and otherwise `AVG` is the floating-point sum of the
/// numbers over how many they are, as long as the sum and its parts are finite.
pub proof fn average_is_the_sum_over_the_count(m: FloatModel, data: Seq<Datum>, memory: Budget)
    requires
        forall|k: int| 0 <= k <= data.len() ==> is_finite(floating_sum(m, #[trigger] data.take(k))),
    ensures
        data.len() == 0 ==> avg_datum(m, data, memory) == Ok::<Datum, Fault>(Datum::Null),
        data.len() > 0 ==> (avg_datum(m, data, memory) matches Ok(d) ==> d == Datum::Float64(
            float_quotient(m, floating_sum(m, data), float_from(m, data.len() as int)),
        )),
{
    let none = Seq::<u64>::empty();
    assert(none =~= Seq::new(0nat, |k: int| as_float(m, data[k])));
    all_bits_are_numbers(m, data, 0, none);
    assert(data.take(0) =~= Seq::<Datum>::empty());
    let bits = Seq::new(data.len(), |k: int| as_float(m, data[k]));
    finite_sum_adds_up(m, data, bits, 0, 0);
}

proof fn extreme_is_extreme(data: Seq<Datum>, maximum: bool, i: int, best: int)
    requires
        0 <= best < i <= data.len(),
        forall|k: int|
            0 <= k < i ==> !(if maximum {
                below(data[best], #[trigger] data[k])
            } else {
                below(data[k], data[best])
            }),
        forall|k: int| 0 <= k < i ==> k == best || same_kind(data[best], #[trigger] data[k]),
    ensures
        extreme_from(data, maximum, i, best) matches Ok(at) ==> 0 <= at < data.len() && forall|k: int|
            0 <= k < data.len() ==> !(if maximum {
                below(data[at], #[trigger] data[k])
            } else {
                below(data[k], data[at])
            }),
    decreases data.len() - i,
{
    if i < data.len() {
        rank_puts_the_smaller_first(data[i], data[best]);
        rank_puts_the_smaller_first(data[best], data[i]);
        if let Ok(order) = datum_rank(data[i], data[best]) {
            let moves = (maximum && order == Order::Greater) || (!maximum && order == Order::Less);
            rank_puts_the_smaller_first(data[i], data[i]);
            if moves {
                assert forall|k: int| 0 <= k < i + 1 implies !(if maximum {
                    below(data[i], #[trigger] data[k])
                } else {
                    below(data[k], data[i])
                }) && same_kind(data[i], data[k]) by {
                    if k < i {
                        rank_flips(data[i], data[best]);
                        rank_flips(data[best], data[k]);
                        rank_flips(data[i], data[k]);
                        rank_puts_the_smaller_first(data[k], data[best]);
                        rank_puts_the_smaller_first(data[best], data[k]);
                        rank_puts_the_smaller_first(data[i], data[k]);
                        rank_puts_the_smaller_first(data[k], data[i]);
                        if k != best {
                            if maximum {
                                rank_chains(data[k], data[best], data[i]);
                            } else {
                                rank_chains(data[i], data[best], data[k]);
                            }
                        }
                    }
                }
                extreme_is_extreme(data, maximum, i + 1, i);
            } else {
                extreme_is_extreme(data, maximum, i + 1, best);
            }
        }
    }
}

/// `MAX` is one of the data that are known and none of them is greater; `MIN` is one of them and
/// none is smaller. Of nothing that is known both are NULL.
pub proof fn extreme_is_one_that_none_exceeds(data: Seq<Datum>, maximum: bool, memory: Budget)
    ensures
        data.len() == 0 ==> extreme_datum(data, maximum, memory) == Ok::<Datum, Fault>(Datum::Null),
        data.len() > 0 ==> (extreme_datum(data, maximum, memory) matches Ok(d) ==> data.contains(d)
            && forall|k: int|
            0 <= k < data.len() ==> !(if maximum {
                below(d, #[trigger] data[k])
            } else {
                below(data[k], d)
            })),
{
    if data.len() > 0 {
        rank_puts_the_smaller_first(data[0], data[0]);
        extreme_is_extreme(data, maximum, 1, 0);
    }
}

proof fn aggregate_names_differ()
    ensures
        "count"@ != "sum"@,
        "count"@ != "avg"@,
        "count"@ != "min"@,
        "count"@ != "max"@,
        "sum"@ != "avg"@,
        "sum"@ != "min"@,
        "sum"@ != "max"@,
        "avg"@ != "min"@,
        "avg"@ != "max"@,
        "min"@ != "max"@,
{
    reveal_strlit("count");
    reveal_strlit("sum");
    reveal_strlit("avg");
    reveal_strlit("min");
    reveal_strlit("max");
    assert("max"@[1] == 'a' && "min"@[1] == 'i' && "sum"@[0] == 's' && "avg"@[0] == 'a');
    assert("count"@.len() == 5);
}

/// `MIN` and `MAX` of an expression over a group are values of the expression on a row of the
/// group, and none of its known values there is smaller or greater. They are NULL exactly where
/// nothing is known.
pub proof fn group_extreme_is_one_that_none_exceeds(
    call: SqlCall,
    maximum: bool,
    e: SqlExpr,
    rows: Seq<usize>,
    s: Scope,
    m: FloatModel,
)
    requires
        aggregates(call, if maximum { "max"@ } else { "min"@ }, e, false),
        s.rows == Some(rows),
        eval(SqlExpr::Call(call), s, m) is Ok,
    ensures
        ({
            let d = eval(SqlExpr::Call(call), s, m)->Ok_0;
            let all = values_on(e, rows, s.source, m);
            &&& forall|k: int|
                0 <= k < rows.len() && !(all[k] is Null) ==> !(d is Null) && !(if maximum {
                    below(d, #[trigger] all[k])
                } else {
                    below(all[k], d)
                })
            &&& !(d is Null) ==> all.contains(d)
        }),
{
    aggregate_names_differ();
    let name = if maximum { "max"@ } else { "min"@ };
    let data = feed_is_known(call, name, e, false, rows, s, m);
    let all = values_on(e, rows, s.source, m);
    let d = eval(SqlExpr::Call(call), s, m)->Ok_0;
    extreme_is_one_that_none_exceeds(data, maximum, fed(call, e, rows, s, m)->Ok_0.1);
    assert forall|k: int| 0 <= k < rows.len() && !(all[k] is Null) implies !(d is Null) && !(
    if maximum {
        below(d, #[trigger] all[k])
    } else {
        below(all[k], d)
    }) by {
        known_is_kept(all, 0);
        assert(data.contains(all[k]));
        let n = choose|n: int| 0 <= n < data.len() && data[n] == all[k];
        assert(data[n] == all[k]);
        let u = choose|u: int| 0 <= u < data.len() && data[u] == d;
        known_is_kept(all, u);
    }
    if !(d is Null) {
        let u = choose|u: int| 0 <= u < data.len() && data[u] == d;
        known_is_kept(all, u);
    }
}

/// `SUM` of an expression over a group, where its known values are integers, is their sum, and
/// NULL where there are none.
pub proof fn group_sum_is_the_sum_of_known_values(
    call: SqlCall,
    e: SqlExpr,
    rows: Seq<usize>,
    s: Scope,
    m: FloatModel,
)
    requires
        aggregates(call, "sum"@, e, false),
        s.rows == Some(rows),
        forall|k: int|
            0 <= k < rows.len() ==> (#[trigger] values_on(e, rows, s.source, m)[k] is Null || values_on(
                e,
                rows,
                s.source,
                m,
            )[k] is Int64),
    ensures
        eval(SqlExpr::Call(call), s, m) matches Ok(d) ==> {
            let kept = known(values_on(e, rows, s.source, m));
            if kept.len() == 0 {
                d is Null
            } else {
                d is Int64 && d->Int64_0 == integer_sum(kept)
            }
        },
{
    if eval(SqlExpr::Call(call), s, m) is Ok {
        aggregate_names_differ();
        let data = feed_is_known(call, "sum"@, e, false, rows, s, m);
        let all = values_on(e, rows, s.source, m);
        assert forall|k: int| 0 <= k < data.len() implies #[trigger] data[k] is Int64 by {
            known_is_kept(all, k);
            let n = choose|n: int| 0 <= n < all.len() && all[n] == data[k];
            assert(all[n] is Null || all[n] is Int64);
        }
        sum_of_integers_is_their_sum(m, data);
    }
}

/// `AVG` of an expression over a group is the floating-point sum of its known values over how
/// many they are, as long as the sum and its parts are finite, and NULL where there are none.
pub proof fn group_average_is_the_sum_over_the_count(
    call: SqlCall,
    e: SqlExpr,
    rows: Seq<usize>,
    s: Scope,
    m: FloatModel,
)
    requires
        aggregates(call, "avg"@, e, false),
        s.rows == Some(rows),
        ({
            let kept = known(values_on(e, rows, s.source, m));
            forall|k: int|
                0 <= k <= kept.len() ==> is_finite(floating_sum(m, #[trigger] kept.take(k)))
        }),
    ensures
        eval(SqlExpr::Call(call), s, m) matches Ok(d) ==> {
            let kept = known(values_on(e, rows, s.source, m));
            if kept.len() == 0 {
                d is Null
            } else {
                d == Datum::Float64(
                    float_quotient(m, floating_sum(m, kept), float_from(m, kept.len() as int)),
                )
            }
        },
{
    if eval(SqlExpr::Call(call), s, m) is Ok {
        aggregate_names_differ();
        let data = feed_is_known(call, "avg"@, e, false, rows, s, m);
        average_is_the_sum_over_the_count(m, data, fed(call, e, rows, s, m)->Ok_0.1);
    }
}

/// With `DISTINCT`, an aggregate is that of the different known values, each taken once.
pub proof fn distinct_takes_each_value_once(
    call: SqlCall,
    name: Seq<char>,
    e: SqlExpr,
    rows: Seq<usize>,
    s: Scope,
    m: FloatModel,
)
    requires
        crate::binding::is_aggregate(name),
        aggregates(call, name, e, true),
        s.rows == Some(rows),
    ensures
        eval(SqlExpr::Call(call), s, m) matches Ok(d) ==> exists|different: Seq<Datum>, memory: Budget|
            #[trigger] taken_once(different, known(values_on(e, rows, s.source, m)))
                && #[trigger] reduce_datum(m, name, different, memory) == Ok::<Datum, Fault>(d),
{
    if eval(SqlExpr::Call(call), s, m) is Ok {
        let data = feed_is_known(call, name, e, true, rows, s, m);
        let used = fed(call, e, rows, s, m)->Ok_0.1;
        assert(taken_once(data, known(values_on(e, rows, s.source, m))));
        assert(reduce_datum(m, name, data, used) == eval(SqlExpr::Call(call), s, m));
    }
}

} // verus!
