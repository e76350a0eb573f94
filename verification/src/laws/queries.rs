//! What a whole `SELECT` answers.

use vstd::prelude::*;
use crate::ast::{Duplicates, OrderKey, SqlExpr, SqlSelect, SqlSelectItem};
use crate::binding::Origin;
use crate::budget::Budget;
use crate::engine::{from_origin, select_answer, Tables};
use crate::float::FloatModel;
use crate::grouping_rules::Projection;
use crate::guarantees::answers_are_bounded;
use crate::laws::results::{answers_are_the_first_rows_in_order, each_once, having_groups, having_holds, rows_show, rows_show_the_groups_that_pass};
use crate::laws::selects::{matching, rows_stand_alone_or_together, where_keeps_the_rows_on_which_it_holds};
use crate::laws::statements::constant;
use crate::planning::{expanded, resolved_from, select_checks};
use crate::selecting::{groups_of, headers, produced, scanned, selected, source_rows, Shape};
use crate::types::{Datum, Fault};

verus! {

proof fn all_groups_pass(s: Shape, groups: Seq<Seq<usize>>, m: FloatModel)
    requires
        s.having is None,
    ensures
        having_groups(s, groups, m) == groups,
    decreases groups.len(),
{
    reveal(Seq::filter);
    if groups.len() > 0 {
        all_groups_pass(s, groups.drop_last(), m);
        assert(having_holds(s, groups.last(), m));
        assert(groups.drop_last().push(groups.last()) =~= groups);
    } else {
        assert(having_groups(s, groups, m) =~= groups);
    }
}

/// Each row alone.
pub open spec fn alone(rows: Seq<usize>) -> Seq<Seq<usize>> {
    Seq::new(rows.len(), |k: int| seq![rows[k]])
}

/// A `SELECT` that neither groups nor sorts nor drops duplicates shows its result columns on the
/// rows on which `WHERE` is true, in the order of the table, up to its limit: on all of them, or
/// on the first ones as many as the limit.
pub proof fn plain_selects_show_matching_rows(
    selection: Option<SqlExpr>,
    s: Shape,
    budget: usize,
    m: FloatModel,
)
    requires
        !s.distinct,
        !s.ordered,
        s.having is None,
        s.limit > 0,
        0 <= source_rows(s.source) <= usize::MAX,
    ensures
        selected(selection, Seq::empty(), Seq::empty(), false, s, budget, m) matches Ok(answer)
            ==> exists|end: int|
            0 <= end <= source_rows(s.source) && rows_show(
                s,
                alone(#[trigger] matching(selection, s.source, end, m)),
                answer.rows,
                m,
            ) && (end == source_rows(s.source) || answer.rows.len() == s.limit)
                && answer.rows.len() <= s.limit,
{
    let keys = Seq::<SqlExpr>::empty();
    let order = Seq::<OrderKey>::empty();
    let result = selected(selection, keys, order, false, s, budget, m);
    if let Ok(answer) = result {
        let started = (Budget { limit: budget, used: 0 }).taken(crate::budget::LIST_BYTES)->Ok_0;
        let n = source_rows(s.source);
        let (rows, memory) = scanned(
            selection,
            s.source,
            0,
            n,
            s.limit,
            Seq::empty(),
            started,
            m,
        )->Ok_0;
        where_keeps_the_rows_on_which_it_holds(selection, s.source, n, s.limit, started, m);
        let end = choose|end: int|
            0 <= end <= n && rows == #[trigger] matching(selection, s.source, end, m) && (end == n
                || rows.len() == s.limit) && rows.len() <= s.limit;
        rows_stand_alone_or_together(rows, keys, s.source, memory, m);
        let (groups, group_bytes) = groups_of(false, rows, keys, s.source, memory, m)->Ok_0;
        assert(groups == alone(rows));
        rows_show_the_groups_that_pass(groups, group_bytes, budget, s, m);
        let p = produced(groups, group_bytes, budget, s, m)->Ok_0;
        let cut = choose|cut: int|
            0 <= cut <= groups.len() && rows_show(
                s,
                having_groups(s, #[trigger] groups.take(cut), m),
                p.rows,
                m,
            ) && (cut == groups.len() || (!s.ordered && p.rows.len() == s.limit));
        all_groups_pass(s, groups.take(cut), m);
        assert(cut == groups.len());
        assert(groups.take(cut) =~= groups);
        assert(answer.rows =~= p.rows);
        assert(rows_show(s, alone(matching(selection, s.source, end, m)), answer.rows, m));
    }
}

/// With `ORDER BY`, each of the rows on which `WHERE` is true gives one row, and the answer has
/// the first ones in the order of the keys, up to the limit.
pub proof fn sorted_selects_show_matching_rows(
    selection: Option<SqlExpr>,
    order: Seq<OrderKey>,
    s: Shape,
    budget: usize,
    m: FloatModel,
) -> (found: (Seq<Seq<Datum>>, Seq<usize>))
    requires
        !s.distinct,
        s.ordered,
        order.len() > 0,
        s.having is None,
        s.limit > 0,
        0 <= source_rows(s.source) < usize::MAX,
        selected(selection, Seq::empty(), order, false, s, budget, m) is Ok,
        matching(selection, s.source, source_rows(s.source), m).len() < usize::MAX,
    ensures
        ({
            let answer = selected(selection, Seq::empty(), order, false, s, budget, m)->Ok_0;
            let (rows, places) = found;
            &&& rows_show(
                s,
                alone(matching(selection, s.source, source_rows(s.source), m)),
                rows,
                m,
            )
            &&& each_once(places, rows.len())
            &&& answer.rows.len() == (if rows.len() <= s.limit {
                rows.len() as int
            } else {
                s.limit as int
            })
            &&& forall|k: int|
                0 <= k < answer.rows.len() ==> #[trigger] answer.rows[k] == rows[places[k] as int]
        }),
{
    let keys = Seq::<SqlExpr>::empty();
    let started = (Budget { limit: budget, used: 0 }).taken(crate::budget::LIST_BYTES)->Ok_0;
    let n = source_rows(s.source);
    let (rows, memory) = scanned(
        selection,
        s.source,
        0,
        n,
        usize::MAX,
        Seq::empty(),
        started,
        m,
    )->Ok_0;
    where_keeps_the_rows_on_which_it_holds(selection, s.source, n, usize::MAX, started, m);
    let end = choose|end: int|
        0 <= end <= n && rows == #[trigger] matching(selection, s.source, end, m) && (end == n
            || rows.len() == usize::MAX) && rows.len() <= usize::MAX;
    matching_rows_are_no_more(selection, s.source, end, m);
    rows_stand_alone_or_together(rows, keys, s.source, memory, m);
    let (groups, group_bytes) = groups_of(false, rows, keys, s.source, memory, m)->Ok_0;
    assert(groups == alone(rows));
    rows_show_the_groups_that_pass(groups, group_bytes, budget, s, m);
    let p = produced(groups, group_bytes, budget, s, m)->Ok_0;
    let cut = choose|cut: int|
        0 <= cut <= groups.len() && rows_show(
            s,
            having_groups(s, #[trigger] groups.take(cut), m),
            p.rows,
            m,
        ) && (cut == groups.len() || (!s.ordered && p.rows.len() == s.limit));
    all_groups_pass(s, groups.take(cut), m);
    assert(groups.take(cut) =~= groups);
    let places = answers_are_the_first_rows_in_order(order, p, s, budget, m);
    (p.rows, places)
}

proof fn matching_rows_are_no_more(selection: Option<SqlExpr>, source: Origin, n: int, m: FloatModel)
    requires
        0 <= n <= usize::MAX,
    ensures
        matching(selection, source, n, m).len() <= n,
    decreases n,
{
    let all = Seq::new(n as nat, |i: int| i as usize);
    let keeps = |row: usize| crate::laws::selects::holds_on(selection, source, row, m);
    kept_are_no_more(all, keeps);
}

proof fn kept_are_no_more(rows: Seq<usize>, keeps: spec_fn(usize) -> bool)
    ensures
        rows.filter(keeps).len() <= rows.len(),
    decreases rows.len(),
{
    reveal(Seq::filter);
    if rows.len() > 0 {
        kept_are_no_more(rows.drop_last(), keeps);
    }
}

/// `LIMIT` takes a whole number that is not negative, and the answer has no more rows than it
/// says.
pub proof fn limit_bounds_the_answer(
    select: SqlSelect,
    order: Seq<OrderKey>,
    limit: SqlExpr,
    tables: Tables,
    max_rows: usize,
    budget: usize,
    m: FloatModel,
)
    ensures
        select_answer(select, order, Some(limit), tables, max_rows, budget, m) matches Ok(answer) ==> {
            &&& constant(limit, m) matches Ok(d) && d is Int64 && d->Int64_0 >= 0
                && answer.rows.len() <= d->Int64_0
            &&& answer.rows.len() <= max_rows
        },
{
    if let Ok(answer) = select_answer(select, order, Some(limit), tables, max_rows, budget, m) {
        let source = from_origin(select.from@, tables)->Ok_0;
        let projections = expanded(select.projection@, 0, Seq::empty(), source)->Ok_0;
        let items = select.group_by->Some_0;
        let keys = resolved_from(items@, 0, Seq::empty(), projections, source)->Ok_0;
        let checked = select_checks(
            projections,
            keys,
            select.selection,
            select.having,
            order,
            Some(limit),
            source,
            m,
        )->Ok_0;
        answers_are_bounded(
            select.selection,
            keys,
            order,
            checked.grouped,
            Shape {
                source,
                projections,
                types: checked.types,
                having: select.having,
                distinct: select.duplicates == Duplicates::Remove,
                ordered: order.len() > 0,
                limit: checked.limit,
                max_rows,
            },
            budget,
            m,
        );
    }
}

/// Whether no item of a `SELECT` is a wildcard.
pub open spec fn all_single(items: Seq<SqlSelectItem>) -> bool {
    forall|k: int|
        0 <= k < items.len() ==> (#[trigger] items[k] is Unnamed || items[k] is Aliased)
}

/// Whether a result column is what an item asks for: its expression, under its alias or else
/// under its own text.
pub open spec fn asked_for(item: SqlSelectItem, p: Projection) -> bool {
    match item {
        SqlSelectItem::Unnamed { expr, text } => p.expr == expr && p.header == text,
        SqlSelectItem::Aliased { expr, alias } => p.expr == expr && p.header == alias.value,
        _ => false,
    }
}

proof fn items_are_expanded(
    items: Seq<SqlSelectItem>,
    i: int,
    found: Seq<Projection>,
    source: Origin,
)
    requires
        0 <= i <= items.len(),
        found.len() == i,
        all_single(items),
        forall|k: int| 0 <= k < i ==> asked_for(items[k], #[trigger] found[k]),
    ensures
        expanded(items, i, found, source) matches Ok(all) ==> all.len() == items.len() && forall|k: int|
            0 <= k < all.len() ==> asked_for(items[k], #[trigger] all[k]),
    decreases items.len() - i,
{
    if i < items.len() {
        assert(items[i] is Unnamed || items[i] is Aliased);
        match items[i] {
            SqlSelectItem::Unnamed { expr, text } => {
                items_are_expanded(items, i + 1, found.push(Projection { expr, header: text }), source);
            },
            SqlSelectItem::Aliased { expr, alias } => {
                items_are_expanded(
                    items,
                    i + 1,
                    found.push(Projection { expr, header: alias.value }),
                    source,
                );
            },
            _ => {},
        }
    }
}

/// Each item that is no wildcard is one result column, in the order of the items; and the names
/// of the answer are theirs.
pub proof fn items_are_result_columns(items: Seq<SqlSelectItem>, source: Origin)
    requires
        all_single(items),
    ensures
        expanded(items, 0, Seq::empty(), source) matches Ok(all) ==> all.len() == items.len() && (
        forall|k: int| 0 <= k < all.len() ==> asked_for(items[k], #[trigger] all[k])) && headers(all).len()
            == all.len() && forall|k: int|
            0 <= k < all.len() ==> #[trigger] headers(all)[k] == all[k].header@,
{
    items_are_expanded(items, 0, Seq::empty(), source);
}

/// The answer to a `SELECT` of one table without grouping, `HAVING`, `DISTINCT` and `ORDER BY`
/// shows the items on the rows of the table on which `WHERE` is true, in the order of the table,
/// up to the limit.
pub proof fn select_shows_its_items_on_matching_rows(
    select: SqlSelect,
    limit: Option<SqlExpr>,
    tables: Tables,
    max_rows: usize,
    budget: usize,
    m: FloatModel,
) -> (found: (Shape, int))
    requires
        select.duplicates is Keep,
        select.group_by matches Some(items) && items@.len() == 0,
        select.having is None,
        all_single(select.projection@),
        ({
            let source = from_origin(select.from@, tables)->Ok_0;
            let projections = expanded(select.projection@, 0, Seq::empty(), source)->Ok_0;
            &&& source_rows(source) <= usize::MAX
            &&& !crate::planning::any_aggregate(crate::planning::exprs_of(projections), 0)
        }),
        select_answer(select, Seq::empty(), limit, tables, max_rows, budget, m) matches Ok(answer)
            && answer.rows.len() > 0,
    ensures
        ({
            let answer = select_answer(
                select,
                Seq::empty(),
                limit,
                tables,
                max_rows,
                budget,
                m,
            )->Ok_0;
            let (s, end) = found;
            &&& Ok::<Origin, Fault>(s.source) == from_origin(select.from@, tables)
            &&& s.projections.len() == select.projection@.len()
            &&& forall|k: int|
                0 <= k < s.projections.len() ==> asked_for(
                    select.projection@[k],
                    #[trigger] s.projections[k],
                )
            &&& 0 <= end <= source_rows(s.source)
            &&& rows_show(s, alone(matching(select.selection, s.source, end, m)), answer.rows, m)
            &&& end == source_rows(s.source) || (limit matches Some(e) && constant(e, m) == Ok::<
                Datum,
                Fault,
            >(Datum::Int64(answer.rows.len() as i64)))
        }),
{
    let order = Seq::<OrderKey>::empty();
    let answer = select_answer(select, order, limit, tables, max_rows, budget, m)->Ok_0;
    let source = from_origin(select.from@, tables)->Ok_0;
    items_are_result_columns(select.projection@, source);
    let projections = expanded(select.projection@, 0, Seq::empty(), source)->Ok_0;
    let items = select.group_by->Some_0;
    let keys = resolved_from(items@, 0, Seq::empty(), projections, source)->Ok_0;
    assert(keys =~= Seq::<SqlExpr>::empty());
    let checked = select_checks(
        projections,
        keys,
        select.selection,
        select.having,
        order,
        limit,
        source,
        m,
    )->Ok_0;
    assert(!checked.grouped) by {
        assert(crate::planning::order_exprs(order) =~= Seq::<SqlExpr>::empty());
    }
    let s = Shape {
        source,
        projections,
        types: checked.types,
        having: select.having,
        distinct: select.duplicates == Duplicates::Remove,
        ordered: order.len() > 0,
        limit: checked.limit,
        max_rows,
    };
    assert(selected(select.selection, keys, order, false, s, budget, m) == Ok::<_, Fault>(answer));
    plain_selects_show_matching_rows(select.selection, s, budget, m);
    let end = choose|end: int|
        0 <= end <= source_rows(s.source) && rows_show(
            s,
            alone(#[trigger] matching(select.selection, s.source, end, m)),
            answer.rows,
            m,
        ) && (end == source_rows(s.source) || answer.rows.len() == s.limit) && answer.rows.len()
            <= s.limit;
    if end != source_rows(s.source) {
        matching_rows_are_no_more(select.selection, s.source, end, m);
        assert(limit is Some);
    }
    (s, end)
}

} // verus!
