//! What statements do to tables.

use vstd::prelude::*;
use crate::ast::{ColumnRule, SqlColumn, SqlCreateTable, SqlExpr, SqlInsert, SqlName};
use crate::binding::{simple_name, Origin};
use crate::engine::{column_places, constants, create_effect, created_fields, insert_data, insert_effect, inserted_row, inserted_rows, nullable_after, repeats, spread, EngineConfig, Reply, Tables};
use crate::float::FloatModel;
use crate::laws::values::value_on;
use crate::scalar::parsed_data_type;
use crate::storage::{field_from, field_index, row_misfit, row_misfit_from, rows_misfit, Field};
use crate::text::lower;
use crate::types::{Datum, Fault};

verus! {

/// The value of an expression that refers to no table.
pub open spec fn constant(e: SqlExpr, m: FloatModel) -> Result<Datum, Fault> {
    value_on(e, Origin { table: None, qualifier: None }, None, m)
}

proof fn constants_are_evaluated(list: Seq<SqlExpr>, i: int, found: Seq<Datum>, m: FloatModel)
    requires
        0 <= i <= list.len(),
        found.len() == i,
        forall|k: int|
            0 <= k < i ==> constant(list[k], m) == Ok::<Datum, Fault>(#[trigger] found[k]),
    ensures
        constants(list, i, found, m) matches Ok(data) ==> data.len() == list.len() && forall|k: int|
            0 <= k < data.len() ==> constant(list[k], m) == Ok::<Datum, Fault>(#[trigger] data[k]),
    decreases list.len() - i,
{
    if i < list.len() {
        if let Ok(d) = constant(list[i], m) {
            constants_are_evaluated(list, i + 1, found.push(d), m);
        }
    }
}

/// A column is found by a name that differs from its own in the case of letters at most; the
/// first one is found.
pub proof fn columns_are_found_by_name(fields: Seq<Field>, name: Seq<char>)
    ensures
        match field_index(fields, name) {
            Some(k) => 0 <= k < fields.len() && lower(fields[k].name@) == lower(name) && forall|i: int|
                0 <= i < k ==> lower((#[trigger] fields[i]).name@) != lower(name),
            None => forall|i: int|
                0 <= i < fields.len() ==> lower((#[trigger] fields[i]).name@) != lower(name),
        },
{
    found_from(fields, name, 0);
}

proof fn found_from(fields: Seq<Field>, name: Seq<char>, i: int)
    requires
        0 <= i,
    ensures
        match field_from(fields, name, i) {
            Some(k) => i <= k < fields.len() && lower(fields[k].name@) == lower(name) && forall|j: int|
                i <= j < k ==> lower((#[trigger] fields[j]).name@) != lower(name),
            None => forall|j: int|
                i <= j < fields.len() ==> lower((#[trigger] fields[j]).name@) != lower(name),
        },
    decreases fields.len() - i,
{
    if i < fields.len() {
        found_from(fields, name, i + 1);
    }
}

proof fn places_are_found(columns: Seq<SqlName>, fields: Seq<Field>, i: int, found: Seq<usize>)
    requires
        0 <= i <= columns.len(),
        found.len() == i,
        fields.len() <= usize::MAX,
        forall|k: int|
            0 <= k < i ==> field_index(fields, columns[k].value@) == Some(#[trigger] found[k] as int),
    ensures
        column_places(columns, fields, i, found) matches Ok(places) ==> places.len()
            == columns.len() && forall|k: int|
            0 <= k < places.len() ==> field_index(fields, columns[k].value@) == Some(
                #[trigger] places[k] as int,
            ),
    decreases columns.len() - i,
{
    if i < columns.len() {
        columns_are_found_by_name(fields, columns[i].value@);
        if let Some(k) = field_index(fields, columns[i].value@) {
            places_are_found(columns, fields, i + 1, found.push(k as usize));
        }
    }
}

proof fn data_are_spread(data: Seq<Datum>, places: Seq<usize>, n: nat, k: int)
    requires
        0 <= k <= places.len(),
        places.len() == data.len(),
        !repeats(places),
        forall|i: int| 0 <= i < places.len() ==> #[trigger] places[i] < n,
    ensures
        spread(data, places, n, k).len() == n,
        forall|i: int|
            0 <= i < k ==> spread(data, places, n, k)[#[trigger] places[i] as int] == data[i],
        forall|p: int|
            0 <= p < n && (forall|i: int| 0 <= i < k ==> #[trigger] places[i] != p) ==> (
            #[trigger] spread(data, places, n, k)[p]) is Null,
    decreases k,
{
    if k > 0 {
        data_are_spread(data, places, n, k - 1);
        let last = places[k - 1];
        assert forall|i: int| 0 <= i < k implies spread(data, places, n, k)[#[trigger] places[i] as int]
            == data[i] by {
            if i < k - 1 {
                assert(places[i] != places[k - 1]);
            }
        }
        assert forall|p: int|
            0 <= p < n && (forall|i: int| 0 <= i < k ==> #[trigger] places[i] != p) implies (
        #[trigger] spread(data, places, n, k)[p]) is Null by {
            assert(places[k - 1] != p);
            assert(spread(data, places, n, k - 1)[p] is Null);
        }
    }
}

/// Whether a datum may stand in a column: it has the type of the column, or is NULL where the
/// column admits NULL.
pub open spec fn fits_column(field: Field, d: Datum) -> bool {
    match d {
        Datum::Null => field.nullable,
        Datum::Int64(_) => field.data_type is Int64,
        Datum::Float64(_) => field.data_type is Float64,
        Datum::Bool(_) => field.data_type is Bool,
        Datum::Text(_) => field.data_type is String,
    }
}

/// Whether a row has a datum that may stand there for each column.
pub open spec fn fits_table(fields: Seq<Field>, row: Seq<Datum>) -> bool {
    row.len() == fields.len() && forall|i: int|
        0 <= i < row.len() ==> fits_column(fields[i], #[trigger] row[i])
}

proof fn fitting_from(fields: Seq<Field>, row: Seq<Datum>, i: int)
    requires
        0 <= i,
        row.len() == fields.len(),
    ensures
        row_misfit_from(fields, row, i) is None <==> forall|k: int|
            i <= k < row.len() ==> fits_column(fields[k], #[trigger] row[k]),
    decreases fields.len() - i,
{
    if i < fields.len() {
        fitting_from(fields, row, i + 1);
        let d = row[i];
        if row_misfit_from(fields, row, i) is None {
            assert forall|k: int| i <= k < row.len() implies fits_column(
                fields[k],
                #[trigger] row[k],
            ) by {
                if k > i {
                    assert(row_misfit_from(fields, row, i + 1) is None);
                }
            }
        }
    }
}

/// A row is taken by a table exactly if each of its data may stand in its column.
pub proof fn rows_fit_where_their_data_fit(fields: Seq<Field>, row: Seq<Datum>)
    ensures
        row_misfit(fields, row) is None <==> fits_table(fields, row),
{
    if row.len() == fields.len() {
        fitting_from(fields, row, 0);
    }
}

proof fn all_rows_fit(fields: Seq<Field>, rows: Seq<Seq<Datum>>, i: int)
    requires
        0 <= i,
    ensures
        rows_misfit(fields, rows, i) is None ==> forall|k: int|
            i <= k < rows.len() ==> fits_table(fields, #[trigger] rows[k]),
    decreases rows.len() - i,
{
    if i < rows.len() {
        rows_fit_where_their_data_fit(fields, rows[i]);
        all_rows_fit(fields, rows, i + 1);
    }
}

/// Whether a row is what a list of expressions gives: without column names, the values in their
/// order; with them, each value in the column of its name and NULL in all others.
pub open spec fn made_of(
    row: Seq<Datum>,
    list: Seq<SqlExpr>,
    columns: Seq<SqlName>,
    fields: Seq<Field>,
    m: FloatModel,
) -> bool {
    &&& columns.len() == 0 ==> row.len() == list.len() && forall|k: int|
        0 <= k < row.len() ==> constant(list[k], m) == Ok::<Datum, Fault>(#[trigger] row[k])
    &&& columns.len() > 0 ==> {
        &&& list.len() == columns.len()
        &&& row.len() == fields.len()
        &&& forall|k: int|
            0 <= k < columns.len() ==> (field_index(fields, (#[trigger] columns[k]).value@) matches Some(
                p,
            ) && constant(list[k], m) == Ok::<Datum, Fault>(row[p]))
        &&& forall|p: int|
            0 <= p < row.len() && !named(columns, fields, p) ==> (#[trigger] row[p]) is Null
    }
}

/// Whether a column is among those that are named.
pub open spec fn named(columns: Seq<SqlName>, fields: Seq<Field>, p: int) -> bool {
    exists|k: int|
        0 <= k < columns.len() && field_index(fields, (#[trigger] columns[k]).value@) == Some(p)
}

proof fn a_row_is_made(
    list: Seq<SqlExpr>,
    columns: Seq<SqlName>,
    places: Seq<usize>,
    fields: Seq<Field>,
    m: FloatModel,
)
    requires
        fields.len() <= usize::MAX,
        places.len() == columns.len(),
        !repeats(places),
        forall|k: int|
            0 <= k < places.len() ==> field_index(fields, columns[k].value@) == Some(
                #[trigger] places[k] as int,
            ),
    ensures
        inserted_row(list, columns.len() as int, places, fields, m) matches Ok(row) ==> made_of(
            row,
            list,
            columns,
            fields,
            m,
        ),
{
    constants_are_evaluated(list, 0, Seq::empty(), m);
    if let Ok(row) = inserted_row(list, columns.len() as int, places, fields, m) {
        if columns.len() > 0 {
            let data = constants(list, 0, Seq::empty(), m)->Ok_0;
            assert forall|i: int| 0 <= i < places.len() implies #[trigger] places[i] < fields.len() by {
                columns_are_found_by_name(fields, columns[i].value@);
            }
            data_are_spread(data, places, fields.len(), places.len() as int);
            assert forall|k: int| 0 <= k < columns.len() implies (field_index(
                fields,
                (#[trigger] columns[k]).value@,
            ) matches Some(p) && constant(list[k], m) == Ok::<Datum, Fault>(row[p])) by {
                assert(row[places[k] as int] == data[k]);
            }
            assert forall|p: int| 0 <= p < row.len() && !named(columns, fields, p) implies (
            #[trigger] row[p]) is Null by {
                assert forall|i: int| 0 <= i < places.len() implies #[trigger] places[i] != p by {
                    let c = columns[i];
                    assert(field_index(fields, c.value@) == Some(places[i] as int));
                }
            }
        }
    }
}

proof fn rows_are_made(
    lists: Seq<Vec<SqlExpr>>,
    i: int,
    found: Seq<Seq<Datum>>,
    columns: Seq<SqlName>,
    places: Seq<usize>,
    fields: Seq<Field>,
    m: FloatModel,
)
    requires
        0 <= i <= lists.len(),
        found.len() == i,
        fields.len() <= usize::MAX,
        places.len() == columns.len(),
        !repeats(places),
        forall|k: int|
            0 <= k < places.len() ==> field_index(fields, columns[k].value@) == Some(
                #[trigger] places[k] as int,
            ),
        forall|k: int|
            0 <= k < i ==> made_of(#[trigger] found[k], lists[k]@, columns, fields, m),
    ensures
        inserted_rows(lists, i, found, columns.len() as int, places, fields, m) matches Ok(rows)
            ==> rows.len() == lists.len() && forall|k: int|
            0 <= k < rows.len() ==> made_of(#[trigger] rows[k], lists[k]@, columns, fields, m),
    decreases lists.len() - i,
{
    if i < lists.len() {
        a_row_is_made(lists[i]@, columns, places, fields, m);
        if let Ok(row) = inserted_row(lists[i]@, columns.len() as int, places, fields, m) {
            rows_are_made(lists, i + 1, found.push(row), columns, places, fields, m);
        }
    }
}

/// `INSERT` puts one row for each list of values behind the rows of the table, each made of its
/// list and of data that may stand in their columns; it changes no other table, keeps the columns,
/// and tells how many rows it put.
pub proof fn insert_appends_what_its_lists_give(
    insert: SqlInsert,
    name: Seq<char>,
    tables: Tables,
    config: EngineConfig,
    m: FloatModel,
)
    requires
        simple_name(insert.table_name) == Ok::<Seq<char>, Fault>(name),
        tables[lower(name)].fields.len() <= usize::MAX,
    ensures
        insert_effect(insert, tables, config, m) matches Ok((reply, after)) ==> {
            let lists = insert.source->Some_0.body->Values_0@;
            let (old_table, new_table) = (tables[lower(name)], after[lower(name)]);
            let n = old_table.rows.len();
            &&& tables.contains_key(lower(name))
            &&& new_table.fields == old_table.fields
            &&& new_table.rows.len() == n + lists.len()
            &&& forall|k: int| 0 <= k < n ==> #[trigger] new_table.rows[k] == old_table.rows[k]
            &&& forall|k: int|
                n <= k < new_table.rows.len() ==> made_of(
                    #[trigger] new_table.rows[k],
                    lists[k - n]@,
                    insert.columns@,
                    old_table.fields,
                    m,
                ) && fits_table(old_table.fields, new_table.rows[k])
            &&& forall|other: Seq<char>|
                other != lower(name) ==> (#[trigger] after.contains_key(other)
                    == tables.contains_key(other)) && (tables.contains_key(other) ==> after[other]
                    == tables[other])
            &&& lists.len() <= usize::MAX ==> reply == (Reply::Command {
                affected_rows: lists.len() as usize,
            })
        },
{
    if let Ok((reply, after)) = insert_effect(insert, tables, config, m) {
        let lists = insert.source->Some_0.body->Values_0@;
        let table = tables[lower(name)];
        places_are_found(insert.columns@, table.fields, 0, Seq::empty());
        let places = column_places(insert.columns@, table.fields, 0, Seq::empty())->Ok_0;
        rows_are_made(lists, 0, Seq::empty(), insert.columns@, places, table.fields, m);
        let rows = insert_data(lists, insert.columns@, table, config, m)->Ok_0;
        all_rows_fit(table.fields, rows, 0);
        assert(after[lower(name)].rows == table.rows + rows);
        assert forall|k: int|
            table.rows.len() <= k < after[lower(name)].rows.len() implies made_of(
            #[trigger] after[lower(name)].rows[k],
            lists[k - table.rows.len()]@,
            insert.columns@,
            table.fields,
            m,
        ) && fits_table(table.fields, after[lower(name)].rows[k]) by {
            assert(after[lower(name)].rows[k] == rows[k - table.rows.len()]);
        }
    }
}

proof fn fields_are_created(columns: Seq<SqlColumn>, i: int, found: Seq<Field>)
    requires
        0 <= i <= columns.len(),
        found.len() == i,
        forall|k: int| 0 <= k < i ==> declares(columns[k], #[trigger] found[k]),
    ensures
        created_fields(columns, i, found) matches Ok(fields) ==> fields.len() == columns.len()
            && forall|k: int| 0 <= k < fields.len() ==> declares(columns[k], #[trigger] fields[k]),
    decreases columns.len() - i,
{
    if i < columns.len() {
        if let Ok((data_type, nullable)) = parsed_data_type(columns[i].data_type@) {
            options_decide(columns[i], 0, nullable);
            let field = Field {
                name: columns[i].name.value,
                data_type,
                nullable: nullable_after(columns[i], 0, nullable),
            };
            fields_are_created(columns, i + 1, found.push(field));
        }
    }
}

/// Whether no option of a column from one on says whether it admits NULL.
pub open spec fn silent_from(column: SqlColumn, i: int) -> bool {
    forall|k: int|
        i <= k < column.options@.len() ==> (#[trigger] column.options@[k]).option is Other
}

/// Whether a declaration makes a field: its name and its type, and NULL admitted as the last
/// option that speaks of it says, or else as the type does.
pub open spec fn declares(column: SqlColumn, field: Field) -> bool {
    &&& field.name == column.name.value
    &&& parsed_data_type(column.data_type@) matches Ok((data_type, nullable)) && {
        &&& field.data_type == data_type
        &&& silent_from(column, 0) ==> field.nullable == nullable
        &&& forall|k: int|
            #![trigger column.options@[k]]
            0 <= k < column.options@.len() && silent_from(column, k + 1) ==> {
                &&& column.options@[k].option is Null ==> field.nullable
                &&& column.options@[k].option is NotNull ==> !field.nullable
            }
    }
}

proof fn options_decide(column: SqlColumn, i: int, nullable: bool)
    requires
        0 <= i,
    ensures
        silent_from(column, i) ==> nullable_after(column, i, nullable) == nullable,
        forall|k: int|
            #![trigger column.options@[k]]
            i <= k < column.options@.len() && silent_from(column, k + 1) ==> {
                &&& column.options@[k].option is Null ==> nullable_after(column, i, nullable)
                &&& column.options@[k].option is NotNull ==> !nullable_after(column, i, nullable)
            },
    decreases column.options@.len() - i,
{
    if i < column.options@.len() {
        let next = match column.options@[i].option {
            ColumnRule::Null => true,
            ColumnRule::NotNull => false,
            ColumnRule::Other => nullable,
        };
        options_decide(column, i + 1, next);
    }
}

/// `CREATE TABLE` adds an empty table with the declared columns and changes no other one; where
/// the name is taken, in any case of its letters, it fails, or does nothing if it says `IF NOT
/// EXISTS`.
pub proof fn create_adds_an_empty_table(create: SqlCreateTable, name: Seq<char>, tables: Tables)
    requires
        simple_name(create.name) == Ok::<Seq<char>, Fault>(name),
    ensures
        tables.contains_key(lower(name)) && !create.if_not_exists ==> create_effect(create, tables)
            is Err,
        tables.contains_key(lower(name)) && create.if_not_exists ==> (create_effect(create, tables) matches Ok(
            (_, after),
        ) && after == tables),
        !tables.contains_key(lower(name)) ==> (create_effect(create, tables) matches Ok((_, after))
            ==> {
            let made = after[lower(name)];
            &&& after.contains_key(lower(name))
            &&& made.rows.len() == 0
            &&& made.fields.len() == create.columns@.len()
            &&& forall|k: int|
                0 <= k < made.fields.len() ==> declares(create.columns@[k], #[trigger] made.fields[k])
            &&& forall|other: Seq<char>|
                other != lower(name) ==> (#[trigger] after.contains_key(other)
                    == tables.contains_key(other)) && (tables.contains_key(other) ==> after[other]
                    == tables[other])
        }),
{
    fields_are_created(create.columns@, 0, Seq::empty());
}

} // verus!
