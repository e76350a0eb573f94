//! What the clauses of a `SELECT` are for.

use vstd::prelude::*;
use crate::ast::{ArgumentValue, Duplicates, FromItem, OrderKey, Relation, SqlExpr, SqlSelect};
use crate::binding::{call_items, call_name, holds_aggregate, is_aggregate, last_position, simple_name, Origin};
use crate::engine::{from_origin, select_answer, Tables};
use crate::float::FloatModel;
use crate::grouping_rules::{aggregate_arguments_ok, canonical, grouped_ok, Projection};
use crate::guarantees::{distinct_rows_differ, keys_differ, made_rows, row_keys};
use crate::planning::{any_aggregate, expanded, exprs_of, is_grouped, order_exprs, resolved_from, select_checks};
use crate::selecting::{selected, Shape};
use crate::text::lower;
use crate::types::Fault;

verus! {

/// The name by which the columns of a `FROM` item can be qualified: its alias, or the name of the
/// table where it has none.
pub open spec fn shown_name(item: FromItem) -> Seq<char> {
    match item.relation {
        Relation::Table { name, alias, .. } => match alias {
            Some(a) => a.name.value@,
            None => simple_name(name)->Ok_0,
        },
        Relation::Other => Seq::empty(),
    }
}

/// `FROM` reads the table with the name, whatever its case, and its columns can be qualified by
/// the alias or else by the name of the table, and by nothing else.
pub proof fn from_reads_the_named_table(from: Seq<FromItem>, tables: Tables, qualifier: Seq<char>)
    ensures
        from_origin(from, tables) matches Ok(origin) ==> from.len() <= 1 && (from.len() == 1 ==> (
        from[0].relation matches Relation::Table { name, .. } && (simple_name(name) matches Ok(n)
            && tables.contains_key(lower(n)) && origin.table == Some(tables[lower(n)])))),
        from_origin(from, tables) matches Ok(origin) ==> from.len() == 1 ==> (origin.qualified(
            qualifier,
        ) is Ok <==> lower(qualifier) == lower(shown_name(from[0]))),
        from_origin(from, tables) matches Ok(origin) ==> from.len() == 0 ==> origin.table is None
            && origin.qualified(qualifier) is Err,
{
}

/// The answer to a `SELECT` is made under its own clauses: rows that are equal are dropped where
/// it says `DISTINCT` and not elsewhere, and then no two rows of the answer are equal.
pub proof fn select_heeds_its_clauses(
    select: SqlSelect,
    order: Seq<OrderKey>,
    limit: Option<SqlExpr>,
    tables: Tables,
    max_rows: usize,
    budget: usize,
    m: FloatModel,
) -> (r: (Seq<SqlExpr>, bool, Shape))
    requires
        select_answer(select, order, limit, tables, max_rows, budget, m) is Ok,
    ensures
        ({
            let (keys, grouped, s) = r;
            let answer = select_answer(select, order, limit, tables, max_rows, budget, m)->Ok_0;
            &&& selected(select.selection, keys, order, grouped, s, budget, m) == Ok::<_, Fault>(
                answer,
            )
            &&& Ok::<Origin, Fault>(s.source) == from_origin(select.from@, tables)
            &&& s.distinct <==> select.duplicates is Remove
            &&& s.having == select.having
            &&& s.ordered <==> order.len() > 0
            &&& s.max_rows == max_rows
            &&& select.having is Some ==> grouped
            &&& keys.len() > 0 ==> grouped
            &&& (exists|k: int|
                0 <= k < s.projections.len() && holds_aggregate((#[trigger] s.projections[k]).expr))
                ==> grouped
            &&& (exists|k: int| 0 <= k < order.len() && holds_aggregate((#[trigger] order[k]).expr))
                ==> grouped
            &&& select.duplicates is Remove && (made_rows(
                select.selection,
                keys,
                order,
                grouped,
                s,
                budget,
                m,
            ) matches Ok(p) ==> p.rows.len() <= usize::MAX) ==> keys_differ(row_keys(answer.rows))
        }),
{
    let source = from_origin(select.from@, tables)->Ok_0;
    let projections = expanded(select.projection@, 0, Seq::empty(), source)->Ok_0;
    let keys = resolved_from(
        select.group_by->Some_0@,
        0,
        Seq::empty(),
        projections,
        source,
    )->Ok_0;
    let checked = select_checks(
        projections,
        keys,
        select.selection,
        select.having,
        order,
        limit,
        source,
        m,
    )->Ok_0;
    let s = Shape {
        source,
        projections,
        types: checked.types,
        having: select.having,
        distinct: select.duplicates == Duplicates::Remove,
        ordered: order.len() > 0,
        limit: checked.limit,
        max_rows,
    };
    aggregates_are_noticed(exprs_of(projections), 0);
    aggregates_are_noticed(order_exprs(order), 0);
    assert(checked.grouped == is_grouped(projections, keys, select.having, order));
    if exists|k: int| 0 <= k < projections.len() && holds_aggregate((#[trigger] projections[k]).expr) {
        let k = choose|k: int|
            0 <= k < projections.len() && holds_aggregate((#[trigger] projections[k]).expr);
        assert(holds_aggregate(exprs_of(projections)[k]));
    }
    if exists|k: int| 0 <= k < order.len() && holds_aggregate((#[trigger] order[k]).expr) {
        let k = choose|k: int| 0 <= k < order.len() && holds_aggregate((#[trigger] order[k]).expr);
        assert(holds_aggregate(order_exprs(order)[k]));
    }
    if select.duplicates is Remove && (made_rows(
        select.selection,
        keys,
        order,
        checked.grouped,
        s,
        budget,
        m,
    ) matches Ok(p) ==> p.rows.len() <= usize::MAX) {
        distinct_rows_differ(select.selection, keys, order, checked.grouped, s, budget, m);
    }
    (keys, checked.grouped, s)
}

proof fn aggregates_are_noticed(list: Seq<SqlExpr>, i: int)
    requires
        0 <= i <= list.len(),
    ensures
        any_aggregate(list, i) <==> exists|k: int|
            i <= k < list.len() && holds_aggregate(#[trigger] list[k]),
    decreases list.len() - i,
{
    if i < list.len() {
        aggregates_are_noticed(list, i + 1);
    }
}

/// A call of an aggregate, in any case of its letters, is noticed, as is one inside an operator.
pub proof fn aggregates_are_found(e: SqlExpr)
    ensures
        e matches SqlExpr::Call(call) ==> (call_name(call) matches Ok(name) ==> is_aggregate(name)
            ==> holds_aggregate(e)),
        e matches SqlExpr::Binary { left, right, .. } ==> (holds_aggregate(e) <==> holds_aggregate(
            *left,
        ) || holds_aggregate(*right)),
        e matches SqlExpr::Unary { expr, .. } ==> (holds_aggregate(e) <==> holds_aggregate(*expr)),
        e matches SqlExpr::Nested(expr) ==> (holds_aggregate(e) <==> holds_aggregate(*expr)),
        e is Identifier || e is Value ==> !holds_aggregate(e),
{
}

proof fn nested_aggregates_are_noticed(items: Seq<crate::ast::Argument>, i: int, k: int)
    requires
        0 <= i <= k < items.len(),
        items[k].value matches ArgumentValue::Expr(e) && holds_aggregate(e),
    ensures
        aggregate_arguments_ok(items, i) is Err,
    decreases k - i,
{
    if i < k {
        nested_aggregates_are_noticed(items, i + 1, k);
    }
}

/// In a grouped `SELECT` a column must be a key of the groups, or stand for a result column, or
/// stand inside an aggregate; and no aggregate stands inside an aggregate.
pub proof fn groups_decide_what_can_be_shown(
    e: SqlExpr,
    keys: Seq<Seq<char>>,
    names: Seq<Seq<char>>,
    projections: Seq<Projection>,
    k: int,
)
    requires
        !keys.contains(canonical(e)),
    ensures
        e matches SqlExpr::Identifier(name) ==> last_position(names, lower(name.value@)) is None
            ==> grouped_ok(e, keys, names, projections) is Err,
        e is CompoundIdentifier ==> grouped_ok(e, keys, names, projections) is Err,
        e is Value ==> grouped_ok(e, keys, names, projections) is Ok,
        e matches SqlExpr::Binary { left, right, .. } ==> (grouped_ok(e, keys, names, projections) is Ok
            <==> grouped_ok(*left, keys, names, projections) is Ok && grouped_ok(
            *right,
            keys,
            names,
            projections,
        ) is Ok),
        e matches SqlExpr::Call(call) ==> (call_name(call) matches Ok(name) ==> is_aggregate(name)
            ==> 0 <= k < call_items(call).len() ==> (call_items(call)[k].value
            matches ArgumentValue::Expr(inner) ==> holds_aggregate(inner) ==> grouped_ok(
            e,
            keys,
            names,
            projections,
        ) is Err)),
{
    if let SqlExpr::Call(call) = e {
        if 0 <= k < call_items(call).len() {
            if let ArgumentValue::Expr(inner) = call_items(call)[k].value {
                if holds_aggregate(inner) {
                    nested_aggregates_are_noticed(call_items(call), 0, k);
                }
            }
        }
    }
}

} // verus!
