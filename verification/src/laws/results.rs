//! What the rows of a `SELECT` show, and which of them are answered.

use vstd::prelude::*;
use crate::ast::{OrderKey, SqlExpr};
use crate::budget::{data_bytes, sat_sum, text_bytes, Budget};
use crate::eval::{eval, group_scope, Scope};
use crate::float::FloatModel;
use crate::laws::group_values::values_agree;
use crate::laws::orders::{sorted_rows_stand_in_order, stand_in_order};
use crate::ordering::{checked_rows_are_sortable, row_before, row_before_is_strict, sorted_places};
use crate::planning::header_names;
use crate::selecting::{finished, group_passes, key_data, key_place, plain_scope, produce_row, produce_rows, produced, project_group, sort_data, sort_datum, sort_table, Produced, Shape};
use crate::sorting::arrangement_exists;
use crate::types::{Datum, Fault};

verus! {

/// Whether a datum is the value of an expression in a scope, with enough memory.
pub open spec fn has_value(e: SqlExpr, s: Scope, d: Datum, m: FloatModel) -> bool {
    exists|memory: Budget|
        #[trigger] eval(e, (Scope { memory: Some(memory), ..s }), m) == Ok::<Datum, Fault>(d)
}

/// An expression has one value in a scope.
pub proof fn values_are_unique(e: SqlExpr, s: Scope, a: Datum, b: Datum, m: FloatModel)
    requires
        has_value(e, s, a, m),
        has_value(e, s, b, m),
    ensures
        a == b,
{
    let x = choose|memory: Budget|
        #[trigger] eval(e, (Scope { memory: Some(memory), ..s }), m) == Ok::<Datum, Fault>(a);
    let y = choose|memory: Budget|
        #[trigger] eval(e, (Scope { memory: Some(memory), ..s }), m) == Ok::<Datum, Fault>(b);
    values_agree(e, Scope { memory: Some(x), ..s }, Scope { memory: Some(y), ..s }, m);
}

/// The scope of a group in which result columns have no names.
pub open spec fn shown_scope(s: Shape, group: Seq<usize>) -> Scope {
    Scope {
        source: s.source,
        row: if group.len() == 0 {
            None
        } else {
            Some(group[0])
        },
        memory: None,
        rows: Some(group),
        value_names: Seq::empty(),
        values: Seq::empty(),
        lazy_names: Seq::empty(),
        projections: s.projections,
        type_names: Seq::empty(),
        types: Seq::empty(),
    }
}

/// Whether a row holds, column by column, the values of the result columns on a group.
pub open spec fn shows(s: Shape, group: Seq<usize>, row: Seq<Datum>, m: FloatModel) -> bool {
    &&& row.len() == s.projections.len()
    &&& forall|i: int|
        0 <= i < row.len() ==> has_value(
            s.projections[i].expr,
            shown_scope(s, group),
            #[trigger] row[i],
            m,
        )
}

/// The scope of a group in which `HAVING` is evaluated: result columns have names.
pub open spec fn having_scope(s: Shape, group: Seq<usize>) -> Scope {
    Scope {
        lazy_names: header_names(s.projections),
        type_names: header_names(s.projections),
        types: s.types,
        ..shown_scope(s, group)
    }
}

/// Whether the `HAVING` condition is true on a group.
pub open spec fn having_holds(s: Shape, group: Seq<usize>, m: FloatModel) -> bool {
    s.having matches Some(e) ==> has_value(e, having_scope(s, group), Datum::Bool(true), m)
}

proof fn groups_pass_where_having_holds(s: Shape, group: Seq<usize>, memory: Budget, m: FloatModel)
    ensures
        group_passes(s.having, s.source, group, s.projections, s.types, memory, m) matches Ok(passes)
            ==> passes == having_holds(s, group, m),
{
    if let Some(e) = s.having {
        let scope = having_scope(s, group);
        let used = Scope { memory: Some(memory), ..scope };
        let names = header_names(s.projections);
        assert(used == group_scope(
            s.source,
            group,
            Seq::empty(),
            Seq::empty(),
            names,
            s.projections,
            names,
            s.types,
            memory,
        ));
        if let Ok(d) = eval(e, used, m) {
            assert(has_value(e, scope, d, m));
            if having_holds(s, group, m) {
                values_are_unique(e, scope, d, Datum::Bool(true), m);
            }
        }
    }
}

proof fn projecting_shows(
    s: Shape,
    i: int,
    found: Seq<Datum>,
    group: Seq<usize>,
    memory: Budget,
    m: FloatModel,
)
    requires
        0 <= i <= s.projections.len(),
        found.len() == i,
        forall|k: int|
            0 <= k < i ==> has_value(
                s.projections[k].expr,
                shown_scope(s, group),
                #[trigger] found[k],
                m,
            ),
    ensures
        project_group(s.projections, i, found, group, s.source, memory, m) matches Ok((row, _))
            ==> shows(s, group, row, m),
    decreases s.projections.len() - i,
{
    if i < s.projections.len() {
        let scope = plain_scope(s.source, group, s.projections, memory);
        let e = s.projections[i].expr;
        assert(scope == (Scope { memory: Some(memory), ..shown_scope(s, group) }));
        if let Ok(d) = eval(e, scope, m) {
            assert(has_value(e, shown_scope(s, group), d, m));
            if let Ok(used) = memory.taken(text_bytes(d)) {
                projecting_shows(s, i + 1, found.push(d), group, used, m);
            }
        }
    }
}

/// The groups on which `HAVING` is true.
pub open spec fn having_groups(s: Shape, groups: Seq<Seq<usize>>, m: FloatModel) -> Seq<Seq<usize>> {
    groups.filter(|group: Seq<usize>| having_holds(s, group, m))
}

/// Whether rows show some groups, one row for each.
pub open spec fn rows_show(
    s: Shape,
    groups: Seq<Seq<usize>>,
    rows: Seq<Seq<Datum>>,
    m: FloatModel,
) -> bool {
    rows.len() == groups.len() && forall|k: int|
        0 <= k < rows.len() ==> shows(s, groups[k], #[trigger] rows[k], m)
}

proof fn one_more_group(s: Shape, groups: Seq<Seq<usize>>, i: int, m: FloatModel)
    requires
        0 <= i < groups.len(),
    ensures
        having_groups(s, groups.take(i + 1), m) == (if having_holds(s, groups[i], m) {
            having_groups(s, groups.take(i), m).push(groups[i])
        } else {
            having_groups(s, groups.take(i), m)
        }),
{
    reveal(Seq::filter);
    assert(groups.take(i + 1).drop_last() =~= groups.take(i));
    assert(groups.take(i + 1).last() == groups[i]);
}

proof fn producing_shows(p: Produced, groups: Seq<Seq<usize>>, i: int, s: Shape, m: FloatModel)
    requires
        !s.distinct,
        0 <= i <= groups.len(),
        rows_show(s, having_groups(s, groups.take(i), m), p.rows, m),
        s.ordered || p.rows.len() <= s.limit,
    ensures
        produce_rows(p, groups, i, s, m) matches Ok(done) ==> exists|end: int|
            0 <= end <= groups.len() && rows_show(
                s,
                having_groups(s, #[trigger] groups.take(end), m),
                done.rows,
                m,
            ) && (end == groups.len() || (!s.ordered && done.rows.len() == s.limit)),
    decreases groups.len() - i,
{
    if i < groups.len() && (s.ordered || p.rows.len() < s.limit) {
        groups_pass_where_having_holds(s, groups[i], p.memory, m);
        one_more_group(s, groups, i, m);
        let bytes = sat_sum(
            crate::budget::LIST_BYTES,
            crate::budget::sat_product(
                s.projections.len() as usize,
                crate::budget::VALUE_BYTES,
            ),
        );
        if let Ok(with_row) = p.memory.taken(bytes) {
            projecting_shows(s, 0, Seq::empty(), groups[i], with_row, m);
        }
        if let Ok(next) = produce_row(p, groups[i], s, m) {
            assert(rows_show(s, having_groups(s, groups.take(i + 1), m), next.rows, m));
            producing_shows(next, groups, i + 1, s, m);
        }
    } else {
        assert(groups.take(i) == groups.take(i));
    }
}

/// Each row of a `SELECT` without `DISTINCT` holds the values of the result columns on one group,
/// in the order of the groups, for exactly the groups on which `HAVING` is true; without `ORDER
/// BY` no more are made than `LIMIT` asks for.
pub proof fn rows_show_the_groups_that_pass(
    groups: Seq<Seq<usize>>,
    group_bytes: usize,
    budget: usize,
    s: Shape,
    m: FloatModel,
)
    requires
        !s.distinct,
    ensures
        produced(groups, group_bytes, budget, s, m) matches Ok(done) ==> exists|end: int|
            0 <= end <= groups.len() && rows_show(
                s,
                having_groups(s, #[trigger] groups.take(end), m),
                done.rows,
                m,
            ) && (end == groups.len() || (!s.ordered && done.rows.len() == s.limit)),
{
    if produced(groups, group_bytes, budget, s, m) is Ok {
        let start = sat_sum(
            crate::selecting::names_bytes(
                crate::selecting::headers(s.projections),
                s.projections.len() as int,
            ),
            crate::budget::LIST_BYTES,
        );
        let memory = (Budget { limit: budget, used: group_bytes }).taken(start)->Ok_0;
        let first = Produced {
            rows: Seq::empty(),
            sources: Seq::empty(),
            seen: Seq::empty(),
            memory,
            held: start,
        };
        reveal(Seq::filter);
        assert(groups.take(0) =~= Seq::<Seq<usize>>::empty());
        assert(having_groups(s, groups.take(0), m) =~= Seq::<Seq<usize>>::empty());
        producing_shows(first, groups, 0, s, m);
    }
}

/// Whether a row that shows a group is among rows, up to data that count as one.
pub open spec fn represented(
    s: Shape,
    group: Seq<usize>,
    rows: Seq<Seq<Datum>>,
    m: FloatModel,
) -> bool {
    exists|row: Seq<Datum>, k: int|
        #[trigger] shows(s, group, row, m) && 0 <= k < rows.len() && key_data(row) == key_data(
            #[trigger] rows[k],
        )
}

proof fn represented_stays(
    s: Shape,
    group: Seq<usize>,
    rows: Seq<Seq<Datum>>,
    data: Seq<Datum>,
    m: FloatModel,
)
    requires
        represented(s, group, rows, m),
    ensures
        represented(s, group, rows.push(data), m),
{
    let (row, k) = choose|row: Seq<Datum>, k: int|
        #[trigger] shows(s, group, row, m) && 0 <= k < rows.len() && key_data(row) == key_data(
            #[trigger] rows[k],
        );
    assert(rows.push(data)[k] == rows[k]);
}

proof fn seen_key_is_there(known: Seq<Seq<Datum>>, key: Seq<Datum>, i: int)
    requires
        0 <= i,
    ensures
        key_place(known, key, i) matches Some(k) ==> i <= k < known.len() && known[k] == key,
    decreases known.len() - i,
{
    if i < known.len() {
        seen_key_is_there(known, key, i + 1);
    }
}

/// Whether every group on which `HAVING` is true is represented.
pub open spec fn all_represented(
    s: Shape,
    groups: Seq<Seq<usize>>,
    rows: Seq<Seq<Datum>>,
    m: FloatModel,
) -> bool {
    forall|k: int|
        0 <= k < groups.len() && having_holds(s, groups[k], m) ==> represented(
            s,
            #[trigger] groups[k],
            rows,
            m,
        )
}

proof fn producing_represents(p: Produced, groups: Seq<Seq<usize>>, i: int, s: Shape, m: FloatModel)
    requires
        s.distinct,
        s.ordered,
        0 <= i <= groups.len(),
        p.seen.len() == p.rows.len(),
        forall|k: int| 0 <= k < p.rows.len() ==> #[trigger] p.seen[k] == key_data(p.rows[k]),
        all_represented(s, groups.take(i), p.rows, m),
    ensures
        produce_rows(p, groups, i, s, m) matches Ok(done) ==> all_represented(
            s,
            groups,
            done.rows,
            m,
        ),
    decreases groups.len() - i,
{
    if i < groups.len() {
        groups_pass_where_having_holds(s, groups[i], p.memory, m);
        let bytes = sat_sum(
            crate::budget::LIST_BYTES,
            crate::budget::sat_product(
                s.projections.len() as usize,
                crate::budget::VALUE_BYTES,
            ),
        );
        if let Ok(next) = produce_row(p, groups[i], s, m) {
            let passes = group_passes(
                s.having,
                s.source,
                groups[i],
                s.projections,
                s.types,
                p.memory,
                m,
            )->Ok_0;
            if passes {
                let with_row = p.memory.taken(bytes)->Ok_0;
                projecting_shows(s, 0, Seq::empty(), groups[i], with_row, m);
                let data = project_group(
                    s.projections,
                    0,
                    Seq::empty(),
                    groups[i],
                    s.source,
                    with_row,
                    m,
                )->Ok_0.0;
                assert(shows(s, groups[i], data, m));
                seen_key_is_there(p.seen, key_data(data), 0);
                if let Some(k) = key_place(p.seen, key_data(data), 0) {
                    assert(key_data(data) == key_data(next.rows[k]));
                } else {
                    assert(next.rows[p.rows.len() as int] == data);
                }
                assert(represented(s, groups[i], next.rows, m));
            }
            assert forall|k: int|
                0 <= k < groups.take(i + 1).len() && having_holds(s, groups.take(i + 1)[k], m)
                implies represented(s, #[trigger] groups.take(i + 1)[k], next.rows, m) by {
                if k < i {
                    assert(groups.take(i)[k] == groups[k]);
                    if next.rows != p.rows {
                        represented_stays(s, groups[k], p.rows, next.rows.last(), m);
                        assert(next.rows =~= p.rows.push(next.rows.last()));
                    }
                }
            }
            producing_represents(next, groups, i + 1, s, m);
        }
    } else {
        assert(groups.take(i) =~= groups);
    }
}

/// `DISTINCT` drops no row but those that another row stands for: what every group on which
/// `HAVING` is true shows is among the rows.
pub proof fn distinct_keeps_one_of_each(
    groups: Seq<Seq<usize>>,
    group_bytes: usize,
    budget: usize,
    s: Shape,
    m: FloatModel,
)
    requires
        s.distinct,
        s.ordered,
    ensures
        produced(groups, group_bytes, budget, s, m) matches Ok(done) ==> all_represented(
            s,
            groups,
            done.rows,
            m,
        ),
{
    if produced(groups, group_bytes, budget, s, m) is Ok {
        let start = sat_sum(
            crate::selecting::names_bytes(
                crate::selecting::headers(s.projections),
                s.projections.len() as int,
            ),
            crate::budget::LIST_BYTES,
        );
        let listed = (Budget { limit: budget, used: group_bytes }).taken(start)->Ok_0;
        let memory = listed.taken(crate::budget::KEY_TABLE_BYTES)->Ok_0;
        let first = Produced {
            rows: Seq::empty(),
            sources: Seq::empty(),
            seen: Seq::empty(),
            memory,
            held: sat_sum(start, crate::budget::KEY_TABLE_BYTES),
        };
        producing_represents(first, groups, 0, s, m);
    }
}

/// Whether a list of places holds each number below a bound once.
pub open spec fn each_once(places: Seq<usize>, n: nat) -> bool {
    &&& places.len() == n
    &&& forall|k: int| 0 <= k < n ==> #[trigger] places[k] < n
    &&& forall|i: int, j: int| 0 <= i < j < n ==> #[trigger] places[i] != #[trigger] places[j]
}

/// The answer has the rows that were made, in the order of `ORDER BY` or else in their own, and
/// of them the first ones up to `LIMIT`. Each made row stands at one place.
pub proof fn answers_are_the_first_rows_in_order(
    order: Seq<OrderKey>,
    p: Produced,
    s: Shape,
    budget: usize,
    m: FloatModel,
) -> (places: Seq<usize>)
    requires
        p.rows.len() <= usize::MAX,
        finished(order, p, s, budget, m) is Ok,
    ensures
        each_once(places, p.rows.len()),
        order.len() == 0 ==> forall|k: int| 0 <= k < places.len() ==> #[trigger] places[k] == k,
        ({
            let rows = finished(order, p, s, budget, m)->Ok_0.rows;
            &&& rows.len() == (if p.rows.len() <= s.limit {
                p.rows.len() as int
            } else {
                s.limit as int
            })
            &&& forall|k: int|
                0 <= k < rows.len() ==> #[trigger] rows[k] == p.rows[places[k] as int]
        }),
        order.len() > 0 ==> {
            let table = sort_table(
                order,
                p.rows,
                p.sources,
                0,
                Seq::empty(),
                s,
                Budget { limit: budget, used: p.held },
                m,
            )->Ok_0;
            &&& table.len() == p.rows.len()
            &&& forall|i: int, j: int|
                #![trigger places[i], places[j]]
                0 <= i < j < places.len() ==> stand_in_order(
                    table[places[i] as int],
                    table[places[j] as int],
                    order,
                )
        },
{
    let memory = Budget { limit: budget, used: p.held };
    if order.len() == 0 {
        Seq::new(p.rows.len(), |k: int| k as usize)
    } else {
        let table = sort_table(order, p.rows, p.sources, 0, Seq::empty(), s, memory, m)->Ok_0;
        sort_keys_are_listed(order, p.rows, p.sources, 0, Seq::empty(), s, memory, m);
        checked_rows_are_sortable(table, order.len() as int);
        row_before_is_strict(table, order);
        arrangement_exists(table.len() as int, row_before(table, order));
        let places = sorted_places(table, order);
        assert forall|i: int, j: int|
            #![trigger places[i], places[j]]
            0 <= i < j < places.len() implies stand_in_order(
            table[places[i] as int],
            table[places[j] as int],
            order,
        ) && places[i] != places[j] by {
            assert(row_before(table, order)(places[i] as int, places[j] as int));
            sorted_rows_stand_in_order(table, order, places, i, j);
        }
        places
    }
}

/// Whether a datum is what a row is sorted by under an expression, with enough memory.
pub open spec fn sorts_by(
    e: SqlExpr,
    row: Seq<Datum>,
    group: Seq<usize>,
    s: Shape,
    d: Datum,
    m: FloatModel,
) -> bool {
    exists|memory: Budget| #[trigger] sort_datum(e, row, group, s, memory, m) == Ok::<Datum, Fault>(d)
}

/// Whether data are what a row is sorted by, key by key.
pub open spec fn sorts_by_all(
    order: Seq<OrderKey>,
    row: Seq<Datum>,
    group: Seq<usize>,
    s: Shape,
    data: Seq<Datum>,
    m: FloatModel,
) -> bool {
    data.len() == order.len() && forall|i: int|
        0 <= i < data.len() ==> sorts_by(order[i].expr, row, group, s, #[trigger] data[i], m)
}

proof fn sort_data_are_found(
    order: Seq<OrderKey>,
    i: int,
    found: Seq<Datum>,
    row: Seq<Datum>,
    group: Seq<usize>,
    s: Shape,
    memory: Budget,
    m: FloatModel,
)
    requires
        0 <= i <= order.len(),
        found.len() == i,
        forall|k: int|
            0 <= k < i ==> sorts_by(order[k].expr, row, group, s, #[trigger] found[k], m),
    ensures
        sort_data(order, i, found, row, group, s, memory, m) matches Ok(data) ==> sorts_by_all(
            order,
            row,
            group,
            s,
            data,
            m,
        ),
    decreases order.len() - i,
{
    if i < order.len() {
        if let Ok(d) = sort_datum(order[i].expr, row, group, s, memory, m) {
            assert(sorts_by(order[i].expr, row, group, s, d, m));
            sort_data_are_found(order, i + 1, found.push(d), row, group, s, memory, m);
        }
    }
}

/// The data that rows are sorted by are listed row by row.
pub proof fn sort_keys_are_listed(
    order: Seq<OrderKey>,
    rows: Seq<Seq<Datum>>,
    sources: Seq<Seq<usize>>,
    k: int,
    found: Seq<Seq<Datum>>,
    s: Shape,
    memory: Budget,
    m: FloatModel,
)
    requires
        0 <= k <= rows.len(),
        found.len() == k,
        forall|r: int|
            0 <= r < k ==> sorts_by_all(order, rows[r], sources[r], s, #[trigger] found[r], m),
    ensures
        sort_table(order, rows, sources, k, found, s, memory, m) matches Ok(table) ==> table.len()
            == rows.len() && forall|r: int|
            0 <= r < rows.len() ==> sorts_by_all(
                order,
                rows[r],
                sources[r],
                s,
                #[trigger] table[r],
                m,
            ),
    decreases rows.len() - k,
{
    if k < rows.len() {
        sort_data_are_found(order, 0, Seq::empty(), rows[k], sources[k], s, memory, m);
        if let Ok(data) = sort_data(order, 0, Seq::empty(), rows[k], sources[k], s, memory, m) {
            if let Ok(used) = memory.taken(data_bytes(0, data, data.len() as int)) {
                sort_keys_are_listed(
                    order,
                    rows,
                    sources,
                    k + 1,
                    found.push(data),
                    s,
                    used,
                    m,
                );
            }
        }
    }
}

} // verus!
