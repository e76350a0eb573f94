//! What holds of the engine across statements.

use vstd::prelude::*;
use crate::ast::{Duplicates, OrderKey, SqlExpr, SqlInsert, SqlSelect, SqlSelectItem, SqlStatement};
use crate::binding::{last_position, references, simple_name, type_of, Origin};
use crate::budget::{data_bytes, sat_product, sat_sum, text_bytes, Budget, INDEX_BYTES, LIST_BYTES, KEY_TABLE_BYTES, VALUE_BYTES};
use crate::engine::{from_origin, has_select_clause, insert_data, insert_effect, select_answer, statement_effect, statements_of, text_batch, EngineConfig, Reply, Tables};
use crate::eval::eval;
use crate::float::FloatModel;
use crate::grouping_rules::Projection;
use crate::ordering::{checked_rows_are_sortable, row_before, row_before_is_strict, row_order, sorted_places, sorting_orders_rows};
use crate::planning::{all_refer, any_aggregate, expanded, exprs_of, field_projection, order_exprs, resolved_from, select_checks, types_from, wildcard_options, with_fields};
use crate::selecting::{answer_bytes, finished, groups_of, headers, key_data, key_place, names_bytes, ordered_rows, plain_scope, produce_row, produce_rows, produced, project_group, scanned, selected, single_groups, sort_data, sort_table, source_rows, truncated, Produced, Shape};
use crate::sorting::{arrangement_exists, ascending, covers, strict_order};
use crate::storage::{distinct_names, duplicate_from, field_from, field_index, table_sound, Field, TableData};
use crate::text::{lower, Order};
use crate::types::{DataType, Datum, Fault};

verus! {

/// A query changes no table.
pub proof fn queries_keep_tables(
    statement: SqlStatement,
    tables: Tables,
    config: EngineConfig,
    budget: usize,
    m: FloatModel,
)
    requires
        statement is Query,
    ensures
        statement_effect(statement, tables, config, budget, m) matches Ok((reply, after)) ==> reply is Query
            && after == tables,
{
}

/// Text that is too long or not well formed changes nothing.
pub proof fn malformed_text_changes_nothing(
    sql: Seq<char>,
    tables: Tables,
    config: EngineConfig,
    m: FloatModel,
)
    requires
        statements_of(sql, config) is Err,
    ensures
        text_batch(sql, tables, config, m).1 == tables,
        text_batch(sql, tables, config, m).0 is Err,
{
}

/// A result has no more rows than its `LIMIT` and the engine allow, and fits into its
/// allowance of bytes.
pub proof fn answers_are_bounded(
    selection: Option<SqlExpr>,
    keys: Seq<SqlExpr>,
    order: Seq<OrderKey>,
    grouped: bool,
    s: Shape,
    budget: usize,
    m: FloatModel,
)
    ensures
        selected(selection, keys, order, grouped, s, budget, m) matches Ok(answer) ==> {
            &&& answer.rows.len() <= s.limit
            &&& answer.rows.len() <= s.max_rows
            &&& answer_bytes(answer, answer.rows.len() as int) <= budget
            &&& answer.columns == headers(s.projections)
        },
{
}

proof fn earlier_names_differ(fields: Seq<Field>, from: int, i: int)
    requires
        0 <= from <= i < fields.len(),
        duplicate_from(fields, from) is None,
    ensures
        field_from(fields.take(i), fields[i].name@, 0) is None,
    decreases i - from,
{
    if from < i {
        earlier_names_differ(fields, from + 1, i);
    }
}

proof fn found_at(fields: Seq<Field>, i: int, from: int)
    requires
        0 <= from <= i < fields.len(),
        field_from(fields.take(i), fields[i].name@, from) is None,
    ensures
        field_from(fields, fields[i].name@, from) == Some(i),
    decreases i - from,
{
    if from < i {
        assert(fields.take(i)[from] == fields[from]);
        found_at(fields, i, from + 1);
    }
}

/// Every column of a schema without repeated names is found under its own name.
pub proof fn columns_are_found(fields: Seq<Field>, i: int)
    requires
        distinct_names(fields),
        0 <= i < fields.len(),
    ensures
        field_index(fields, fields[i].name@) == Some(i),
{
    earlier_names_differ(fields, 0, i);
    found_at(fields, i, 0);
}

proof fn with_fields_at(fields: Seq<Field>, n: int)
    requires
        0 <= n <= fields.len(),
    ensures
        with_fields(Seq::empty(), fields, n).len() == n,
        forall|i: int|
            0 <= i < n ==> #[trigger] with_fields(Seq::empty(), fields, n)[i] == field_projection(
                fields[i],
            ),
    decreases n,
{
    if n > 0 {
        with_fields_at(fields, n - 1);
    }
}

/// The result columns that stand for all columns of a table.
pub open spec fn all_columns(fields: Seq<Field>) -> Seq<Projection> {
    with_fields(Seq::empty(), fields, fields.len() as int)
}

proof fn all_columns_refer(fields: Seq<Field>, source: Origin, i: int)
    requires
        0 <= i <= fields.len(),
        distinct_names(fields),
        source.table matches Some(table) && table.fields == fields,
    ensures
        all_refer(exprs_of(all_columns(fields)), i, source, Seq::empty()) is Ok,
        !any_aggregate(exprs_of(all_columns(fields)), i),
    decreases fields.len() - i,
{
    with_fields_at(fields, fields.len() as int);
    if i < fields.len() {
        columns_are_found(fields, i);
        let e = exprs_of(all_columns(fields))[i];
        assert(e == field_projection(fields[i]).expr);
        assert(references(e, source, Seq::empty()) is Ok);
        all_columns_refer(fields, source, i + 1);
    }
}

proof fn all_columns_typed(
    fields: Seq<Field>,
    source: Origin,
    i: int,
    found: Seq<Option<DataType>>,
    m: FloatModel,
)
    requires
        0 <= i <= fields.len(),
        distinct_names(fields),
        source.table matches Some(table) && table.fields == fields,
    ensures
        types_from(
            exprs_of(all_columns(fields)),
            i,
            found,
            source,
            Seq::empty(),
            Seq::empty(),
            m,
        ) is Ok,
    decreases fields.len() - i,
{
    with_fields_at(fields, fields.len() as int);
    if i < fields.len() {
        columns_are_found(fields, i);
        let e = exprs_of(all_columns(fields))[i];
        assert(e == field_projection(fields[i]).expr);
        let t = type_of(e, source, Seq::empty(), Seq::empty(), m);
        assert(t == source.column_type(fields[i].name@, fields[i].name@));
        all_columns_typed(fields, source, i + 1, found.push(t->Ok_0), m);
    }
}

/// The numbers below `n` in order.
pub open spec fn counting(n: int) -> Seq<usize> {
    Seq::new(n as nat, |i: int| i as usize)
}

proof fn scan_takes_all(source: Origin, row: int, n: int, memory: Budget, m: FloatModel)
    requires
        0 <= row <= n <= usize::MAX,
    ensures
        match scanned(None, source, row, n, usize::MAX, counting(row), memory, m) {
            Ok((rows, _)) => rows == counting(n),
            Err(fault) => fault is ResourceLimit,
        },
    decreases n - row,
{
    if row < n {
        assert(counting(row).push(row as usize) =~= counting(row + 1));
        if memory.taken(INDEX_BYTES) is Ok {
            scan_takes_all(source, row + 1, n, memory.taken(INDEX_BYTES)->Ok_0, m);
        }
    }
}

proof fn each_row_is_a_group(
    rows: Seq<usize>,
    i: int,
    found: Seq<Seq<usize>>,
    memory: Budget,
    held: usize,
)
    requires
        0 <= i <= rows.len(),
        found.len() == i,
        forall|k: int| 0 <= k < i ==> #[trigger] found[k] == seq![rows[k]],
    ensures
        match single_groups(rows, i, found, memory, held) {
            Ok((groups, _)) => groups.len() == rows.len() && forall|k: int|
                0 <= k < groups.len() ==> #[trigger] groups[k] == seq![rows[k]],
            Err(fault) => fault is ResourceLimit,
        },
    decreases rows.len() - i,
{
    if i < rows.len() {
        let bytes = sat_sum(LIST_BYTES, INDEX_BYTES);
        if memory.taken(bytes) is Ok {
            each_row_is_a_group(
                rows,
                i + 1,
                found.push(seq![rows[i]]),
                memory.taken(bytes)->Ok_0,
                sat_sum(held, bytes),
            );
        }
    }
}

proof fn row_is_projected(
    table: TableData,
    source: Origin,
    row: usize,
    i: int,
    memory: Budget,
    m: FloatModel,
)
    requires
        table_sound(table),
        source.table == Some(table),
        row < table.rows.len(),
        0 <= i <= table.fields.len(),
    ensures
        match project_group(
            all_columns(table.fields),
            i,
            table.rows[row as int].take(i),
            seq![row],
            source,
            memory,
            m,
        ) {
            Ok((data, _)) => data == table.rows[row as int],
            Err(fault) => fault is ResourceLimit,
        },
    decreases table.fields.len() - i,
{
    let projections = all_columns(table.fields);
    let data = table.rows[row as int];
    with_fields_at(table.fields, table.fields.len() as int);
    assert(data.len() == table.fields.len());
    if i < table.fields.len() {
        columns_are_found(table.fields, i);
        let scope = plain_scope(source, seq![row], projections, memory);
        let e = projections[i].expr;
        assert(e == field_projection(table.fields[i]).expr);
        assert(last_position(Seq::<Seq<char>>::empty(), lower(table.fields[i].name@)) is None);
        assert(eval(e, scope, m) == scope.column(table.fields[i].name@));
        assert(data.take(i).push(data[i]) =~= data.take(i + 1));
        if memory.taken(text_bytes(data[i])) is Ok {
            row_is_projected(
                table,
                source,
                row,
                i + 1,
                memory.taken(text_bytes(data[i]))->Ok_0,
                m,
            );
        }
    } else {
        assert(data.take(i) =~= data);
    }
}

proof fn rows_are_produced(
    table: TableData,
    groups: Seq<Seq<usize>>,
    i: int,
    p: Produced,
    s: Shape,
    m: FloatModel,
)
    requires
        table_sound(table),
        s.source.table == Some(table),
        s.projections == all_columns(table.fields),
        s.having is None,
        !s.distinct,
        !s.ordered,
        s.limit == usize::MAX,
        groups.len() == table.rows.len(),
        forall|k: int| 0 <= k < groups.len() ==> #[trigger] groups[k] == seq![k as usize],
        0 <= i <= groups.len(),
        p.rows == table.rows.take(i),
    ensures
        match produce_rows(p, groups, i, s, m) {
            Ok(done) => done.rows == table.rows,
            Err(fault) => fault is ResourceLimit,
        },
    decreases groups.len() - i,
{
    if i >= groups.len() || p.rows.len() >= s.limit {
        assert(table.rows.take(i) =~= table.rows);
    } else {
        let bytes = sat_sum(LIST_BYTES, sat_product(s.projections.len() as usize, VALUE_BYTES));
        assert(groups[i] == seq![i as usize]);
        if p.memory.taken(bytes) is Ok {
            let with_row = p.memory.taken(bytes)->Ok_0;
            row_is_projected(table, s.source, i as usize, 0, with_row, m);
            assert(table.rows[i].take(0) =~= Seq::<Datum>::empty());
            assert(table.rows.take(i).push(table.rows[i]) =~= table.rows.take(i + 1));
            if produce_row(p, groups[i], s, m) is Ok {
                rows_are_produced(
                    table,
                    groups,
                    i + 1,
                    produce_row(p, groups[i], s, m)->Ok_0,
                    s,
                    m,
                );
            }
        }
    }
}

/// Whether a `SELECT` reads all columns of one table and nothing else is asked of it.
pub open spec fn reads_all(select: SqlSelect) -> bool {
    &&& select.duplicates == Duplicates::Keep
    &&& !has_select_clause(select.clauses)
    &&& select.projection@.len() == 1
    &&& select.projection@[0] matches SqlSelectItem::Wildcard { modifiers } && wildcard_options(
        modifiers,
    ) is Ok
    &&& select.selection is None
    &&& select.having is None
    &&& (select.group_by matches Some(items) && items@.len() == 0)
}

/// The names of columns.
pub open spec fn field_names(fields: Seq<Field>) -> Seq<Seq<char>> {
    Seq::new(fields.len(), |i: int| fields[i].name@)
}

/// Reading all columns of a table, without a limit, gives its column names and its rows
/// in order, unless they exceed a limit of the engine.
pub proof fn reading_all_gives_the_table(
    select: SqlSelect,
    source: Origin,
    table: TableData,
    tables: Tables,
    max_rows: usize,
    budget: usize,
    m: FloatModel,
)
    requires
        reads_all(select),
        from_origin(select.from@, tables) == Ok::<Origin, Fault>(source),
        source.table == Some(table),
        table_sound(table),
    ensures
        match select_answer(select, Seq::empty(), None, tables, max_rows, budget, m) {
            Ok(answer) => answer.columns == field_names(table.fields) && answer.rows == table.rows,
            Err(fault) => fault is ResourceLimit,
        },
{
    let projections = all_columns(table.fields);
    with_fields_at(table.fields, table.fields.len() as int);
    assert(expanded(select.projection@, 1, projections, source) == Ok::<Seq<Projection>, Fault>(
        projections,
    ));
    assert(expanded(select.projection@, 0, Seq::empty(), source) == Ok::<Seq<Projection>, Fault>(
        projections,
    ));
    let items = select.group_by->Some_0@;
    let keys = Seq::<SqlExpr>::empty();
    let order = Seq::<OrderKey>::empty();
    assert(resolved_from(items, 0, keys, projections, source) == Ok::<Seq<SqlExpr>, Fault>(keys));
    all_columns_refer(table.fields, source, 0);
    all_columns_typed(table.fields, source, 0, Seq::empty(), m);
    assert(order_exprs(order) =~= Seq::<SqlExpr>::empty());
    assert(all_refer(keys, 0, source, Seq::empty()) is Ok);
    assert(!any_aggregate(keys, 0));
    let checked = select_checks(projections, keys, None, None, order, None, source, m);
    assert(checked is Ok);
    assert(!checked->Ok_0.grouped);
    assert(checked->Ok_0.limit == usize::MAX);
    let s = Shape {
        source,
        projections,
        types: checked->Ok_0.types,
        having: None,
        distinct: false,
        ordered: false,
        limit: usize::MAX,
        max_rows,
    };
    let n = table.rows.len() as int;
    let started = (Budget { limit: budget, used: 0 }).taken(LIST_BYTES);
    if started is Ok {
        assert(counting(0) =~= Seq::<usize>::empty());
        scan_takes_all(source, 0, n, started->Ok_0, m);
        let found = scanned(None, source, 0, n, usize::MAX, Seq::empty(), started->Ok_0, m);
        if found is Ok {
            let (rows, memory) = found->Ok_0;
            let listed = memory.taken(LIST_BYTES);
            if listed is Ok {
                each_row_is_a_group(rows, 0, Seq::empty(), listed->Ok_0, LIST_BYTES);
                let made = single_groups(rows, 0, Seq::empty(), listed->Ok_0, LIST_BYTES);
                if made is Ok {
                    let (groups, group_bytes) = made->Ok_0;
                    assert forall|k: int| 0 <= k < groups.len() implies #[trigger] groups[k]
                        == seq![k as usize] by {
                        assert(rows[k] == k as usize);
                    }
                    let start = sat_sum(
                        names_bytes(headers(projections), projections.len() as int),
                        LIST_BYTES,
                    );
                    let begun = (Budget { limit: budget, used: group_bytes }).taken(start);
                    if begun is Ok {
                        let p = Produced {
                            rows: Seq::empty(),
                            sources: Seq::empty(),
                            seen: Seq::empty(),
                            memory: begun->Ok_0,
                            held: start,
                        };
                        assert(table.rows.take(0) =~= Seq::<Seq<Datum>>::empty());
                        rows_are_produced(table, groups, 0, p, s, m);
                    }
                }
            }
        }
    }
    assert(headers(projections) =~= field_names(table.fields)) by {
        assert forall|i: int| 0 <= i < projections.len() implies headers(projections)[i]
            == field_names(table.fields)[i] by {
            assert(projections[i] == field_projection(table.fields[i]));
        }
    }
}

/// What an `INSERT` stored, reading all columns of the table gives back behind the rows
/// that were there before.
pub proof fn inserted_rows_are_read_back(
    insert: SqlInsert,
    name: Seq<char>,
    before: Tables,
    reply: Reply,
    after: Tables,
    select: SqlSelect,
    source: Origin,
    config: EngineConfig,
    budget: usize,
    m: FloatModel,
)
    requires
        insert_effect(insert, before, config, m) == Ok::<(Reply, Tables), Fault>((reply, after)),
        simple_name(insert.table_name) == Ok::<Seq<char>, Fault>(name),
        table_sound(after[lower(name)]),
        reads_all(select),
        from_origin(select.from@, after) == Ok::<Origin, Fault>(source),
        source.table == Some(after[lower(name)]),
    ensures
        match select_answer(
            select,
            Seq::empty(),
            None,
            after,
            config.max_result_rows,
            budget,
            m,
        ) {
            Ok(answer) => {
                let table = before[lower(name)];
                let stored = insert_data(
                    insert.source->Some_0.body->Values_0@,
                    insert.columns@,
                    table,
                    config,
                    m,
                );
                &&& stored is Ok
                &&& answer.columns == field_names(table.fields)
                &&& answer.rows == table.rows + stored->Ok_0
                &&& reply == (Reply::Command { affected_rows: stored->Ok_0.len() as usize })
            },
            Err(fault) => fault is ResourceLimit,
        },
{
    reading_all_gives_the_table(
        select,
        source,
        after[lower(name)],
        after,
        config.max_result_rows,
        budget,
        m,
    );
}

/// Whether no two of the keys are equal.
pub open spec fn keys_differ(keys: Seq<Seq<Datum>>) -> bool {
    forall|i: int, j: int|
        #![trigger keys[i], keys[j]]
        0 <= i < j < keys.len() ==> keys[i] != keys[j]
}

/// The keys of rows by which duplicates are told.
pub open spec fn row_keys(rows: Seq<Seq<Datum>>) -> Seq<Seq<Datum>> {
    Seq::new(rows.len(), |i: int| key_data(rows[i]))
}

proof fn key_is_new(known: Seq<Seq<Datum>>, key: Seq<Datum>, i: int)
    requires
        0 <= i,
        key_place(known, key, i) is None,
    ensures
        forall|k: int| i <= k < known.len() ==> known[k] != key,
    decreases known.len() - i,
{
    if i < known.len() {
        key_is_new(known, key, i + 1);
    }
}

proof fn produced_rows_differ(p: Produced, groups: Seq<Seq<usize>>, i: int, s: Shape, m: FloatModel)
    requires
        s.distinct,
        0 <= i,
        p.seen == row_keys(p.rows),
        keys_differ(p.seen),
    ensures
        produce_rows(p, groups, i, s, m) matches Ok(done) ==> keys_differ(row_keys(done.rows)),
    decreases groups.len() - i,
{
    if i < groups.len() && (s.ordered || p.rows.len() < s.limit) {
        let next = produce_row(p, groups[i], s, m);
        if next is Ok {
            let q = next->Ok_0;
            if q != p {
                let data = q.rows.last();
                assert(q.rows == p.rows.push(data));
                assert(row_keys(q.rows) =~= p.seen.push(key_data(data)));
                assert(q.seen == p.seen.push(key_data(data)));
                key_is_new(p.seen, key_data(data), 0);
            }
            produced_rows_differ(q, groups, i + 1, s, m);
        }
    }
}

proof fn places_differ(places: Seq<usize>, before: spec_fn(int, int) -> bool, n: int, i: int, j: int)
    requires
        strict_order(before, n),
        covers(places, 0, n),
        ascending(places, before),
        0 <= i < j < places.len(),
    ensures
        places[i] != places[j],
{
    assert(before(places[i] as int, places[j] as int));
}

/// The rows of a `SELECT DISTINCT` differ: no two have equal keys.
pub proof fn distinct_rows_differ(
    selection: Option<SqlExpr>,
    keys: Seq<SqlExpr>,
    order: Seq<OrderKey>,
    grouped: bool,
    s: Shape,
    budget: usize,
    m: FloatModel,
)
    requires
        s.distinct,
        s.ordered == (order.len() > 0),
        made_rows(selection, keys, order, grouped, s, budget, m) matches Ok(p) ==> p.rows.len()
            <= usize::MAX,
    ensures
        selected(selection, keys, order, grouped, s, budget, m) matches Ok(answer) ==> keys_differ(
            row_keys(answer.rows),
        ),
{
    let result = selected(selection, keys, order, grouped, s, budget, m);
    if result is Ok && s.limit > 0 {
        let p = made_rows(selection, keys, order, grouped, s, budget, m)->Ok_0;
        let groups = made_groups(selection, keys, order, grouped, s, budget, m)->Ok_0;
        let start = sat_sum(
            names_bytes(headers(s.projections), s.projections.len() as int),
            LIST_BYTES,
        );
        let begun = (Budget { limit: budget, used: groups.1 }).taken(start)->Ok_0.taken(
            KEY_TABLE_BYTES,
        )->Ok_0;
        let first = Produced {
            rows: Seq::empty(),
            sources: Seq::empty(),
            seen: Seq::empty(),
            memory: begun,
            held: sat_sum(start, KEY_TABLE_BYTES),
        };
        assert(row_keys(first.rows) =~= first.seen);
        produced_rows_differ(first, groups.0, 0, s, m);
        finished_rows_differ(order, p, s, budget, m);
    }
}

proof fn finished_rows_differ(order: Seq<OrderKey>, p: Produced, s: Shape, budget: usize, m: FloatModel)
    requires
        p.rows.len() <= usize::MAX,
        keys_differ(row_keys(p.rows)),
    ensures
        finished(order, p, s, budget, m) matches Ok(answer) ==> keys_differ(row_keys(answer.rows)),
{
    if finished(order, p, s, budget, m) is Ok {
        let memory = Budget { limit: budget, used: p.held };
        let rows = ordered_rows(order, p, s, memory, m)->Ok_0;
        if order.len() > 0 {
            let table = sort_table(order, p.rows, p.sources, 0, Seq::empty(), s, memory, m)->Ok_0;
            sort_table_counts(order, p.rows, p.sources, 0, Seq::empty(), s, memory, m);
            checked_rows_are_sortable(table, order.len() as int);
            row_before_is_strict(table, order);
            arrangement_exists(table.len() as int, row_before(table, order));
            let places = sorted_places(table, order);
            assert forall|i: int, j: int|
                #![trigger row_keys(rows)[i], row_keys(rows)[j]]
                0 <= i < j < row_keys(rows).len() implies row_keys(rows)[i] != row_keys(rows)[j] by {
                places_differ(places, row_before(table, order), table.len() as int, i, j);
                let (a, b) = (places[i] as int, places[j] as int);
                assert(row_keys(p.rows)[a] != row_keys(p.rows)[b]);
            }
        }
        let kept = truncated(rows, s.limit);
        assert forall|i: int, j: int|
            #![trigger row_keys(kept)[i], row_keys(kept)[j]]
            0 <= i < j < row_keys(kept).len() implies row_keys(kept)[i] != row_keys(kept)[j] by {
            assert(row_keys(rows)[i] != row_keys(rows)[j]);
        }
    }
}

proof fn sort_table_counts(
    order: Seq<OrderKey>,
    rows: Seq<Seq<Datum>>,
    sources: Seq<Seq<usize>>,
    k: int,
    found: Seq<Seq<Datum>>,
    s: Shape,
    memory: Budget,
    m: FloatModel,
)
    requires
        0 <= k <= rows.len(),
        found.len() == k,
    ensures
        sort_table(order, rows, sources, k, found, s, memory, m) matches Ok(table) ==> table.len()
            == rows.len(),
    decreases rows.len() - k,
{
    if k < rows.len() {
        let data = sort_data(order, 0, Seq::empty(), rows[k], sources[k], s, memory, m);
        if data is Ok {
            let used = memory.taken(data_bytes(0, data->Ok_0, data->Ok_0.len() as int));
            if used is Ok {
                sort_table_counts(
                    order,
                    rows,
                    sources,
                    k + 1,
                    found.push(data->Ok_0),
                    s,
                    used->Ok_0,
                    m,
                );
            }
        }
    }
}

/// The groups of a checked `SELECT` and the bytes that they hold.
pub open spec fn made_groups(
    selection: Option<SqlExpr>,
    keys: Seq<SqlExpr>,
    order: Seq<OrderKey>,
    grouped: bool,
    s: Shape,
    budget: usize,
    m: FloatModel,
) -> Result<(Seq<Seq<usize>>, usize), Fault> {
    match (Budget { limit: budget, used: 0 }).taken(LIST_BYTES) {
        Err(fault) => Err(fault),
        Ok(started) => {
            let stop = if !grouped && order.len() == 0 && !s.distinct {
                s.limit
            } else {
                usize::MAX
            };
            match scanned(
                selection,
                s.source,
                0,
                source_rows(s.source),
                stop,
                Seq::empty(),
                started,
                m,
            ) {
                Err(fault) => Err(fault),
                Ok((rows, memory)) => groups_of(grouped, rows, keys, s.source, memory, m),
            }
        },
    }
}

/// The rows of a checked `SELECT` before sorting.
pub open spec fn made_rows(
    selection: Option<SqlExpr>,
    keys: Seq<SqlExpr>,
    order: Seq<OrderKey>,
    grouped: bool,
    s: Shape,
    budget: usize,
    m: FloatModel,
) -> Result<Produced, Fault> {
    match made_groups(selection, keys, order, grouped, s, budget, m) {
        Err(fault) => Err(fault),
        Ok((groups, group_bytes)) => produced(groups, group_bytes, budget, s, m),
    }
}

/// The rows of a sorted `SELECT` stand in the order of their sort keys, and rows that tie
/// stand as they were made: each row of the result is the row made at `places[i]`, and the
/// sort keys at earlier places never come after those at later ones.
pub proof fn sorted_rows_are_in_order(
    order: Seq<OrderKey>,
    p: Produced,
    s: Shape,
    budget: usize,
    m: FloatModel,
    i: int,
    j: int,
)
    requires
        order.len() > 0,
        p.rows.len() <= usize::MAX,
        finished(order, p, s, budget, m) is Ok,
        0 <= i < j < finished(order, p, s, budget, m)->Ok_0.rows.len(),
    ensures
        ({
            let table = sort_table(
                order,
                p.rows,
                p.sources,
                0,
                Seq::empty(),
                s,
                Budget { limit: budget, used: p.held },
                m,
            )->Ok_0;
            let places = sorted_places(table, order);
            let rows = finished(order, p, s, budget, m)->Ok_0.rows;
            let way = row_order(table[places[i] as int], table[places[j] as int], order, 0);
            &&& rows[i] == p.rows[places[i] as int]
            &&& rows[j] == p.rows[places[j] as int]
            &&& way != Order::Greater
            &&& way == Order::Equal ==> places[i] < places[j]
        }),
{
    let memory = Budget { limit: budget, used: p.held };
    let table = sort_table(order, p.rows, p.sources, 0, Seq::empty(), s, memory, m)->Ok_0;
    sort_table_counts(order, p.rows, p.sources, 0, Seq::empty(), s, memory, m);
    checked_rows_are_sortable(table, order.len() as int);
    row_before_is_strict(table, order);
    arrangement_exists(table.len() as int, row_before(table, order));
    sorting_orders_rows(table, order, sorted_places(table, order), i, j);
}

} // verus!
