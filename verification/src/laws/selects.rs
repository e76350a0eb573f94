//! What the clauses of a `SELECT` are for.

use vstd::prelude::*;
use crate::aggregates::key_of;
use crate::ast::SqlExpr;
use crate::binding::Origin;
use crate::budget::Budget;
use crate::eval::eval;
use crate::float::FloatModel;
use crate::laws::aggregates::{count_as_one, keys_join_what_counts_as_one};
use crate::laws::values::{memory_decides_no_value, value_on};
use crate::selecting::{group_row, group_rows, groups_by_key, groups_of, key_place, row_key, row_passes, scanned, single_groups, Grouping};
use crate::types::{Datum, Fault};

verus! {

/// Whether a condition is true on a row.
pub open spec fn holds_on(condition: Option<SqlExpr>, source: Origin, row: usize, m: FloatModel) -> bool {
    condition matches Some(e) ==> value_on(e, source, Some(row), m) == Ok::<Datum, Fault>(
        Datum::Bool(true),
    )
}

/// The rows below a number on which a condition is true.
pub open spec fn matching(condition: Option<SqlExpr>, source: Origin, n: int, m: FloatModel) -> Seq<usize> {
    Seq::new(n as nat, |i: int| i as usize).filter(|row: usize| holds_on(condition, source, row, m))
}

proof fn one_more_row_is_matched(condition: Option<SqlExpr>, source: Origin, row: int, m: FloatModel)
    requires
        0 <= row <= usize::MAX,
    ensures
        matching(condition, source, row + 1, m) == (if holds_on(condition, source, row as usize, m) {
            matching(condition, source, row, m).push(row as usize)
        } else {
            matching(condition, source, row, m)
        }),
{
    reveal(Seq::filter);
    let more = Seq::new((row + 1) as nat, |i: int| i as usize);
    assert(more.drop_last() =~= Seq::new(row as nat, |i: int| i as usize));
}

proof fn rows_pass_where_the_condition_holds(
    condition: Option<SqlExpr>,
    source: Origin,
    row: usize,
    memory: Budget,
    m: FloatModel,
)
    ensures
        row_passes(condition, source, row, memory, m) matches Ok(passes) ==> passes == holds_on(
            condition,
            source,
            row,
            m,
        ),
{
    if let Some(e) = condition {
        memory_decides_no_value(e, source, Some(row), memory, m);
    }
}

proof fn scan_finds_matching(
    condition: Option<SqlExpr>,
    source: Origin,
    row: int,
    n: int,
    stop: usize,
    found: Seq<usize>,
    memory: Budget,
    m: FloatModel,
)
    requires
        0 <= row <= n <= usize::MAX,
        found == matching(condition, source, row, m),
        found.len() < stop,
    ensures
        scanned(condition, source, row, n, stop, found, memory, m) matches Ok((rows, _)) ==> exists|
            end: int,
        |
            row <= end <= n && rows == #[trigger] matching(condition, source, end, m) && (end == n
                || rows.len() == stop) && rows.len() <= stop,
    decreases n - row,
{
    if row < n {
        rows_pass_where_the_condition_holds(condition, source, row as usize, memory, m);
        one_more_row_is_matched(condition, source, row, m);
        match row_passes(condition, source, row as usize, memory, m) {
            Ok(true) => {
                if let Ok(used) = memory.taken(crate::budget::INDEX_BYTES) {
                    let more = found.push(row as usize);
                    if more.len() < stop {
                        scan_finds_matching(condition, source, row + 1, n, stop, more, used, m);
                    } else {
                        assert(more == matching(condition, source, row + 1, m));
                    }
                }
            },
            Ok(false) => {
                scan_finds_matching(condition, source, row + 1, n, stop, found, memory, m);
            },
            Err(_) => {},
        }
    }
}

/// `WHERE` keeps exactly the rows on which its condition is true, in the order of the table, up
/// to as many as were asked for: a row on which it is false or unknown is left out.
pub proof fn where_keeps_the_rows_on_which_it_holds(
    condition: Option<SqlExpr>,
    source: Origin,
    n: int,
    stop: usize,
    memory: Budget,
    m: FloatModel,
)
    requires
        0 <= n <= usize::MAX,
        stop > 0,
    ensures
        scanned(condition, source, 0, n, stop, Seq::empty(), memory, m) matches Ok((rows, _))
            ==> exists|end: int|
            0 <= end <= n && rows == #[trigger] matching(condition, source, end, m) && (end == n
                || rows.len() == stop) && rows.len() <= stop,
{
    reveal(Seq::filter);
    assert(matching(condition, source, 0, m) =~= Seq::<usize>::empty());
    scan_finds_matching(condition, source, 0, n, stop, Seq::empty(), memory, m);
}

/// Whether two rows belong to one group: each key has values on them that count as one.
pub open spec fn grouped_together(
    keys: Seq<SqlExpr>,
    source: Origin,
    a: usize,
    b: usize,
    m: FloatModel,
) -> bool {
    forall|i: int|
        0 <= i < keys.len() ==> count_as_one(
            value_on(#[trigger] keys[i], source, Some(a), m)->Ok_0,
            value_on(keys[i], source, Some(b), m)->Ok_0,
        )
}

/// The key of a row.
spec fn key_on(keys: Seq<SqlExpr>, source: Origin, row: usize, m: FloatModel) -> Seq<Datum> {
    Seq::new(keys.len(), |i: int| key_of(value_on(keys[i], source, Some(row), m)->Ok_0))
}

proof fn equal_keys_are_grouped_together(
    keys: Seq<SqlExpr>,
    source: Origin,
    a: usize,
    b: usize,
    m: FloatModel,
)
    ensures
        key_on(keys, source, a, m) == key_on(keys, source, b, m) <==> grouped_together(
            keys,
            source,
            a,
            b,
            m,
        ),
{
    let (x, y) = (key_on(keys, source, a, m), key_on(keys, source, b, m));
    assert forall|i: int| 0 <= i < keys.len() implies (x[i] == y[i] <==> count_as_one(
        value_on(#[trigger] keys[i], source, Some(a), m)->Ok_0,
        value_on(keys[i], source, Some(b), m)->Ok_0,
    )) by {
        keys_join_what_counts_as_one(
            value_on(keys[i], source, Some(a), m)->Ok_0,
            value_on(keys[i], source, Some(b), m)->Ok_0,
        );
    }
    if grouped_together(keys, source, a, b, m) {
        assert forall|i: int| 0 <= i < keys.len() implies x[i] == y[i] by {
            let e = keys[i];
        }
        assert(x =~= y);
    }
    if x == y {
        assert forall|i: int| 0 <= i < keys.len() implies count_as_one(
            value_on(#[trigger] keys[i], source, Some(a), m)->Ok_0,
            value_on(keys[i], source, Some(b), m)->Ok_0,
        ) by {
            assert(x[i] == y[i]);
        }
    }
}

proof fn row_key_is_the_key(
    keys: Seq<SqlExpr>,
    i: int,
    found: Seq<Datum>,
    source: Origin,
    row: usize,
    memory: Budget,
    m: FloatModel,
)
    requires
        0 <= i <= keys.len(),
        found == key_on(keys, source, row, m).take(i),
    ensures
        row_key(keys, i, found, source, row, memory, m) matches Ok(key) ==> key == key_on(
            keys,
            source,
            row,
            m,
        ),
    decreases keys.len() - i,
{
    let whole = key_on(keys, source, row, m);
    if i < keys.len() {
        memory_decides_no_value(keys[i], source, Some(row), memory, m);
        if let Ok(d) = eval(keys[i], crate::eval::row_scope(source, Some(row), Some(memory)), m) {
            assert(whole.take(i + 1) =~= whole.take(i).push(key_of(d)));
            row_key_is_the_key(keys, i + 1, found.push(key_of(d)), source, row, memory, m);
        }
    } else {
        assert(whole.take(i) =~= whole);
    }
}

proof fn key_place_is_first(known: Seq<Seq<Datum>>, key: Seq<Datum>, i: int)
    requires
        0 <= i,
    ensures
        match key_place(known, key, i) {
            Some(k) => i <= k < known.len() && known[k] == key,
            None => forall|k: int| i <= k < known.len() ==> #[trigger] known[k] != key,
        },
    decreases known.len() - i,
{
    if i < known.len() {
        key_place_is_first(known, key, i + 1);
    }
}

/// The rows of a list with a key.
spec fn rows_with(
    keys: Seq<SqlExpr>,
    source: Origin,
    rows: Seq<usize>,
    key: Seq<Datum>,
    m: FloatModel,
) -> Seq<usize> {
    rows.filter(|row: usize| key_on(keys, source, row, m) == key)
}

proof fn rows_with_grow(
    keys: Seq<SqlExpr>,
    source: Origin,
    rows: Seq<usize>,
    row: usize,
    key: Seq<Datum>,
    m: FloatModel,
)
    ensures
        rows_with(keys, source, rows.push(row), key, m) == (if key_on(keys, source, row, m) == key {
            rows_with(keys, source, rows, key, m).push(row)
        } else {
            rows_with(keys, source, rows, key, m)
        }),
{
    reveal(Seq::filter);
    assert(rows.push(row).drop_last() =~= rows);
}

proof fn rows_with_a_new_key(
    keys: Seq<SqlExpr>,
    source: Origin,
    rows: Seq<usize>,
    key: Seq<Datum>,
    m: FloatModel,
)
    requires
        forall|k: int| 0 <= k < rows.len() ==> key_on(keys, source, #[trigger] rows[k], m) != key,
    ensures
        rows_with(keys, source, rows, key, m).len() == 0,
    decreases rows.len(),
{
    reveal(Seq::filter);
    if rows.len() > 0 {
        assert forall|k: int| 0 <= k < rows.drop_last().len() implies key_on(
            keys,
            source,
            #[trigger] rows.drop_last()[k],
            m,
        ) != key by {
            assert(key_on(keys, source, rows[k], m) != key);
        }
        rows_with_a_new_key(keys, source, rows.drop_last(), key, m);
        assert(key_on(keys, source, rows[rows.len() - 1], m) != key);
    }
}

/// Whether groups are those of the rows so far.
spec fn grouped_so_far(
    g: Grouping,
    rows: Seq<usize>,
    keys: Seq<SqlExpr>,
    source: Origin,
    m: FloatModel,
) -> bool {
    &&& g.known.len() == g.groups.len()
    &&& forall|k: int|
        0 <= k < g.groups.len() ==> #[trigger] g.groups[k] == rows_with(
            keys,
            source,
            rows,
            g.known[k],
            m,
        ) && g.groups[k].len() > 0
    &&& forall|k: int, l: int|
        0 <= k < l < g.known.len() ==> #[trigger] g.known[k] != #[trigger] g.known[l]
    &&& forall|k: int|
        0 <= k < rows.len() ==> g.known.contains(key_on(keys, source, #[trigger] rows[k], m))
}

proof fn one_more_row_is_grouped(
    g: Grouping,
    rows: Seq<usize>,
    row: usize,
    keys: Seq<SqlExpr>,
    source: Origin,
    m: FloatModel,
)
    requires
        grouped_so_far(g, rows, keys, source, m),
    ensures
        group_row(g, row, keys, source, m) matches Ok(next) ==> grouped_so_far(
            next,
            rows.push(row),
            keys,
            source,
            m,
        ),
{
    let key = key_on(keys, source, row, m);
    assert(key.take(0) =~= Seq::<Datum>::empty());
    row_key_is_the_key(keys, 0, Seq::empty(), source, row, g.memory, m);
    key_place_is_first(g.known, key, 0);
    if let Ok(next) = group_row(g, row, keys, source, m) {
        let more = rows.push(row);
        let place = match key_place(g.known, key, 0) {
            Some(k) => k,
            None => g.known.len() as int,
        };
        assert(next.known[place] == key);
        assert forall|k: int| 0 <= k < next.groups.len() implies #[trigger] next.groups[k]
            == rows_with(keys, source, more, next.known[k], m) && next.groups[k].len() > 0 by {
            rows_with_grow(keys, source, rows, row, next.known[k], m);
            if k < g.known.len() {
                assert(next.known[k] == g.known[k]);
                assert(g.groups[k] == rows_with(keys, source, rows, g.known[k], m));
                if k != place {
                    assert(g.known[k] != key);
                }
            } else {
                assert forall|i: int| 0 <= i < rows.len() implies key_on(
                    keys,
                    source,
                    #[trigger] rows[i],
                    m,
                ) != key by {
                    assert(g.known.contains(key_on(keys, source, rows[i], m)));
                }
                rows_with_a_new_key(keys, source, rows, key, m);
                assert(rows_with(keys, source, rows, key, m) =~= Seq::<usize>::empty());
                assert(seq![row] =~= Seq::<usize>::empty().push(row));
            }
        }
        assert forall|k: int| 0 <= k < more.len() implies next.known.contains(
            key_on(keys, source, #[trigger] more[k], m),
        ) by {
            if k < rows.len() {
                assert(g.known.contains(key_on(keys, source, rows[k], m)));
                let n = choose|n: int|
                    0 <= n < g.known.len() && g.known[n] == key_on(keys, source, rows[k], m);
                assert(next.known[n] == key_on(keys, source, more[k], m));
            } else {
                assert(next.known[place] == key_on(keys, source, more[k], m));
            }
        }
    }
}

proof fn all_rows_are_grouped(
    g: Grouping,
    rows: Seq<usize>,
    i: int,
    keys: Seq<SqlExpr>,
    source: Origin,
    m: FloatModel,
)
    requires
        0 <= i <= rows.len(),
        grouped_so_far(g, rows.take(i), keys, source, m),
    ensures
        group_rows(g, rows, i, keys, source, m) matches Ok(after) ==> grouped_so_far(
            after,
            rows,
            keys,
            source,
            m,
        ),
    decreases rows.len() - i,
{
    if i < rows.len() {
        one_more_row_is_grouped(g, rows.take(i), rows[i], keys, source, m);
        assert(rows.take(i + 1) =~= rows.take(i).push(rows[i]));
        if let Ok(next) = group_row(g, rows[i], keys, source, m) {
            all_rows_are_grouped(next, rows, i + 1, keys, source, m);
        }
    } else {
        assert(rows.take(i) =~= rows);
    }
}

proof fn filters_agree(rows: Seq<usize>, p: spec_fn(usize) -> bool, q: spec_fn(usize) -> bool)
    requires
        forall|row: usize| #[trigger] p(row) == q(row),
    ensures
        rows.filter(p) == rows.filter(q),
    decreases rows.len(),
{
    reveal(Seq::filter);
    if rows.len() > 0 {
        filters_agree(rows.drop_last(), p, q);
        assert(p(rows.last()) == q(rows.last()));
    }
}

proof fn a_kept_row_is_there(rows: Seq<usize>, p: spec_fn(usize) -> bool, i: int)
    requires
        0 <= i < rows.filter(p).len(),
    ensures
        p(rows.filter(p)[i]),
        rows.contains(rows.filter(p)[i]),
    decreases rows.len(),
{
    reveal(Seq::filter);
    if rows.len() > 0 {
        let before = rows.drop_last();
        if i < before.filter(p).len() {
            a_kept_row_is_there(before, p, i);
            let k = choose|k: int| 0 <= k < before.len() && before[k] == before.filter(p)[i];
            assert(rows[k] == rows.filter(p)[i]);
        } else {
            assert(rows[rows.len() - 1] == rows.filter(p)[i]);
        }
    }
}

/// Whether a row belongs together with the first row of a group.
pub open spec fn in_a_group(
    groups: Seq<Seq<usize>>,
    keys: Seq<SqlExpr>,
    source: Origin,
    row: usize,
    m: FloatModel,
) -> bool {
    exists|g: int|
        0 <= g < groups.len() && #[trigger] grouped_together(keys, source, row, groups[g][0], m)
}

proof fn first_rows_have_the_key(
    g: Grouping,
    rows: Seq<usize>,
    keys: Seq<SqlExpr>,
    source: Origin,
    m: FloatModel,
    k: int,
)
    requires
        grouped_so_far(g, rows, keys, source, m),
        0 <= k < g.groups.len(),
    ensures
        key_on(keys, source, g.groups[k][0], m) == g.known[k],
        g.groups[k].len() > 0,
{
    assert(g.groups[k] == rows_with(keys, source, rows, g.known[k], m));
    a_kept_row_is_there(rows, |row: usize| key_on(keys, source, row, m) == g.known[k], 0);
}

proof fn a_group_is_whole(
    g: Grouping,
    rows: Seq<usize>,
    keys: Seq<SqlExpr>,
    source: Origin,
    m: FloatModel,
    k: int,
)
    requires
        grouped_so_far(g, rows, keys, source, m),
        0 <= k < g.groups.len(),
    ensures
        g.groups[k].len() > 0,
        g.groups[k] == rows.filter(
            |row: usize| grouped_together(keys, source, row, g.groups[k][0], m),
        ),
{
    first_rows_have_the_key(g, rows, keys, source, m, k);
    let p = |row: usize| key_on(keys, source, row, m) == g.known[k];
    let q = |row: usize| grouped_together(keys, source, row, g.groups[k][0], m);
    assert forall|row: usize| #[trigger] p(row) == q(row) by {
        equal_keys_are_grouped_together(keys, source, row, g.groups[k][0], m);
    }
    filters_agree(rows, p, q);
    assert(g.groups[k] == rows_with(keys, source, rows, g.known[k], m));
}

proof fn a_row_is_in_a_group(
    g: Grouping,
    rows: Seq<usize>,
    keys: Seq<SqlExpr>,
    source: Origin,
    m: FloatModel,
    k: int,
)
    requires
        grouped_so_far(g, rows, keys, source, m),
        0 <= k < rows.len(),
    ensures
        in_a_group(g.groups, keys, source, rows[k], m),
{
    assert(g.known.contains(key_on(keys, source, rows[k], m)));
    let h = choose|h: int|
        0 <= h < g.known.len() && g.known[h] == key_on(keys, source, rows[k], m);
    first_rows_have_the_key(g, rows, keys, source, m, h);
    equal_keys_are_grouped_together(keys, source, rows[k], g.groups[h][0], m);
}

/// `GROUP BY` puts together exactly the rows whose keys count as one, in their order: every group
/// is all rows that belong together with its first one, no two groups belong together, and every
/// row is in a group.
pub proof fn group_by_joins_rows_with_one_key(
    rows: Seq<usize>,
    keys: Seq<SqlExpr>,
    source: Origin,
    memory: Budget,
    m: FloatModel,
)
    requires
        keys.len() > 0,
        groups_by_key(rows, keys, source, memory, m) is Ok,
    ensures
        ({
            let groups = groups_by_key(rows, keys, source, memory, m)->Ok_0.0;
            &&& forall|g: int|
                0 <= g < groups.len() ==> (#[trigger] groups[g]).len() > 0 && groups[g]
                    == rows.filter(
                    |row: usize| grouped_together(keys, source, row, groups[g][0], m),
                )
            &&& forall|g: int, h: int|
                0 <= g < h < groups.len() ==> !grouped_together(
                    keys,
                    source,
                    (#[trigger] groups[g])[0],
                    (#[trigger] groups[h])[0],
                    m,
                )
            &&& forall|k: int|
                0 <= k < rows.len() ==> in_a_group(groups, keys, source, #[trigger] rows[k], m)
        }),
{
    let listed = memory.taken(crate::budget::LIST_BYTES)->Ok_0;
    let indexed = listed.taken(crate::budget::KEY_TABLE_BYTES)->Ok_0;
    let none = Grouping {
        groups: Seq::empty(),
        known: Seq::empty(),
        memory: indexed,
        held: crate::budget::LIST_BYTES,
    };
    assert(rows.take(0) =~= Seq::<usize>::empty());
    all_rows_are_grouped(none, rows, 0, keys, source, m);
    let g = group_rows(none, rows, 0, keys, source, m)->Ok_0;
    let groups = groups_by_key(rows, keys, source, memory, m)->Ok_0.0;
    assert(groups == g.groups);
    assert forall|k: int| 0 <= k < groups.len() implies (#[trigger] groups[k]).len() > 0 && groups[k]
        == rows.filter(|row: usize| grouped_together(keys, source, row, groups[k][0], m)) by {
        a_group_is_whole(g, rows, keys, source, m, k);
    }
    assert forall|k: int, l: int| 0 <= k < l < groups.len() implies !grouped_together(
        keys,
        source,
        (#[trigger] groups[k])[0],
        (#[trigger] groups[l])[0],
        m,
    ) by {
        assert(g.known[k] != g.known[l]);
        first_rows_have_the_key(g, rows, keys, source, m, k);
        first_rows_have_the_key(g, rows, keys, source, m, l);
        equal_keys_are_grouped_together(keys, source, groups[k][0], groups[l][0], m);
    }
    assert forall|k: int| 0 <= k < rows.len() implies in_a_group(
        groups,
        keys,
        source,
        #[trigger] rows[k],
        m,
    ) by {
        a_row_is_in_a_group(g, rows, keys, source, m, k);
    }
}

proof fn single_rows_are_groups(
    rows: Seq<usize>,
    i: int,
    found: Seq<Seq<usize>>,
    memory: Budget,
    held: usize,
)
    requires
        0 <= i <= rows.len(),
        found == Seq::new(i as nat, |k: int| seq![rows[k]]),
    ensures
        single_groups(rows, i, found, memory, held) matches Ok((groups, _)) ==> groups == Seq::new(
            rows.len(),
            |k: int| seq![rows[k]],
        ),
    decreases rows.len() - i,
{
    if i < rows.len() {
        let bytes = crate::budget::sat_sum(
            crate::budget::LIST_BYTES,
            crate::budget::INDEX_BYTES,
        );
        assert(found.push(seq![rows[i]]) =~= Seq::new((i + 1) as nat, |k: int| seq![rows[k]]));
        if let Ok(used) = memory.taken(bytes) {
            single_rows_are_groups(
                rows,
                i + 1,
                found.push(seq![rows[i]]),
                used,
                crate::budget::sat_sum(held, bytes),
            );
        }
    }
}

/// Without grouping each row stands alone; with grouping but without keys all rows form one
/// group, even if there are none.
pub proof fn rows_stand_alone_or_together(
    rows: Seq<usize>,
    keys: Seq<SqlExpr>,
    source: Origin,
    memory: Budget,
    m: FloatModel,
)
    ensures
        groups_of(false, rows, keys, source, memory, m) matches Ok((groups, _)) ==> groups
            == Seq::new(rows.len(), |k: int| seq![rows[k]]),
        keys.len() == 0 ==> (groups_of(true, rows, keys, source, memory, m) matches Ok((groups, _))
            ==> groups == seq![rows]),
{
    if let Ok(listed) = memory.taken(crate::budget::LIST_BYTES) {
        assert(Seq::<Seq<usize>>::empty() =~= Seq::new(0nat, |k: int| seq![rows[k]]));
        single_rows_are_groups(rows, 0, Seq::empty(), listed, crate::budget::LIST_BYTES);
    }
}

} // verus!
