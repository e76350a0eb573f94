//! The engine: a catalog of tables and the execution of SQL statements on it.

use vstd::prelude::*;
use crate::ast::{ColumnRule, Distribution, Duplicates, FormatParts, FromItem, OrderKey, QueryBody, Relation, SelectClauses, SqlColumn, SqlCreateTable, SqlExpr, SqlInsert, SqlName, SqlQuery, SqlSelect, SqlStatement};
use crate::binding::{object_name, quoted_error, quoted_fault, simple_name, Origin, Source};
use crate::catalog::Catalog;
use crate::budget::{sat_add, sat_sum, COMMAND_BYTES};
use crate::eval::{eval, row_scope};
use crate::float::{answers_floats, float_model, FloatModel, FloatReply, FloatRequest};
use crate::planning::{check_select, eval_constant, expand_projections, expanded, resolve_group_by, resolved_from, select_checks};
use crate::scalar::{parse_data_type, parsed_data_type};
use crate::selecting::{answer_bytes, answer_outcome, data_outcome, query_result_retained_bytes, run_select, selected, Answer, QueryResult, Shape};
use crate::sql::{parse_sql, parsed_sql};
use crate::sql_tokens::{part_before_upset, parser_accepts, parses_without_panic, readable_part, tokenize, tokenized};
use crate::storage::{field_index, rows_misfit, rows_of, table_sound, Field, Schema, Table, TableData};
use crate::text::{byte_len, chars_of, concat2, concat4, int_text, lower, same_text, string_from, to_lower, trim, trimmed, usize_text, utf8_len};
use crate::types::{data_of, plain, Datum, Error, Fault, Value};

verus! {

/// Limits of an engine.
#[derive(Debug, Clone, Copy)]
pub struct EngineConfig {
    pub max_input_bytes: usize,
    pub max_rows_per_insert: usize,
    pub max_rows_per_table: usize,
    pub max_result_rows: usize,
    pub max_batch_result_bytes: usize,
}

impl EngineConfig {
    /// The default limits.
    pub open spec fn standard() -> EngineConfig {
        EngineConfig {
            max_input_bytes: 16_777_216,
            max_rows_per_insert: 100_000,
            max_rows_per_table: 1_000_000,
            max_result_rows: 100_000,
            max_batch_result_bytes: 16_777_216,
        }
    }
}

impl Default for EngineConfig {
    fn default() -> (c: EngineConfig)
        ensures
            c == EngineConfig::standard(),
    {
        EngineConfig {
            max_input_bytes: 16_777_216,
            max_rows_per_insert: 100_000,
            max_rows_per_table: 1_000_000,
            max_result_rows: 100_000,
            max_batch_result_bytes: 16_777_216,
        }
    }
}

/// The result of one statement.
#[derive(Debug, Clone, PartialEq)]
pub enum StatementResult {
    Command { affected_rows: usize },
    Query(QueryResult),
}

/// The mathematical content of the result of one statement.
pub enum Reply {
    Command { affected_rows: usize },
    Query(Answer),
}

impl View for StatementResult {
    type V = Reply;

    open spec fn view(&self) -> Reply {
        match self {
            StatementResult::Command { affected_rows } => Reply::Command {
                affected_rows: *affected_rows,
            },
            StatementResult::Query(result) => Reply::Query(result@),
        }
    }
}

/// The contents of tables under their lowercase names.
pub type Tables = Map<Seq<char>, TableData>;

/// Whether a storage format has any part.
pub open spec fn has_format_part(parts: FormatParts) -> bool {
    parts.row_format || parts.serde_properties || parts.storage || parts.location
}

/// Whether a `CREATE TABLE` has an option beside its columns. The memory engine may be
/// named.
pub open spec fn has_table_option(c: SqlCreateTable) -> bool {
    ||| c.kind.or_replace
    ||| c.kind.temporary
    ||| c.kind.outer_storage
    ||| c.kind.global
    ||| c.kind.transient
    ||| c.kind.without_rowid
    ||| c.kind.strict
    ||| c.storage.constraints > 0
    ||| c.storage.distribution != Distribution::Unset
    ||| (c.storage.formats matches Some(parts) && has_format_part(parts))
    ||| c.storage.table_properties > 0
    ||| c.storage.with_options > 0
    ||| c.storage.file_format
    ||| c.storage.location
    ||| c.source.query
    ||| c.source.like
    ||| c.source.clone
    ||| (c.source.engine matches Some(engine) && lower(trimmed(engine@)) != "memory"@)
    ||| c.source.comment
    ||| c.source.on_commit
    ||| c.source.on_cluster
    ||| c.layout.auto_increment_offset
    ||| c.layout.default_charset
    ||| c.layout.collation
    ||| c.layout.order_by
    ||| c.layout.partition_by
    ||| c.layout.cluster_by
    ||| c.layout.options
}

/// Whether the options of a column from `i` on are `NULL` and `NOT NULL` without names.
pub open spec fn column_options(column: SqlColumn, i: int) -> Result<(), Fault>
    decreases column.options@.len() - i,
{
    if i < 0 || i >= column.options@.len() {
        Ok(())
    } else {
        let option = column.options@[i];
        if option.named || option.option is Other {
            Err(Fault::Unsupported("column option "@ + option.text@))
        } else {
            column_options(column, i + 1)
        }
    }
}

/// Whether the columns from `i` on have supported options only.
pub open spec fn columns_options(columns: Seq<SqlColumn>, i: int) -> Result<(), Fault>
    decreases columns.len() - i,
{
    if i < 0 || i >= columns.len() {
        Ok(())
    } else if columns[i].name.quoted {
        Err(quoted_fault())
    } else if columns[i].has_collation {
        Err(Fault::Unsupported("column collation"@))
    } else {
        match column_options(columns[i], 0) {
            Err(fault) => Err(fault),
            Ok(()) => columns_options(columns, i + 1),
        }
    }
}

/// Whether any of the names from `i` on is quoted.
pub open spec fn quoted_name(names: Seq<SqlName>, i: int) -> bool
    decreases names.len() - i,
{
    0 <= i < names.len() && (names[i].quoted || quoted_name(names, i + 1))
}

/// Whether an `INSERT` has an option.
pub open spec fn has_insert_option(insert: SqlInsert) -> bool {
    let o = insert.options;
    ||| o.or
    ||| o.ignore
    ||| o.table_alias
    ||| o.overwrite
    ||| o.partitioned
    ||| o.after_columns > 0
    ||| o.table
    ||| o.on
    ||| o.returning
    ||| o.replace_into
    ||| o.priority
    ||| o.insert_alias
}

/// Whether a query has a clause beside its body, `ORDER BY` and `LIMIT`.
pub open spec fn has_query_clause(query: SqlQuery) -> bool {
    let c = query.clauses;
    c.with || c.offset || c.fetch || c.limit_by > 0 || c.locks > 0 || c.for_clause
}

/// Whether an `INSERT` has supported options only.
pub open spec fn insert_options(insert: SqlInsert) -> Result<(), Fault> {
    if has_insert_option(insert) {
        Err(Fault::Unsupported("INSERT option or RETURNING"@))
    } else if quoted_name(insert.columns@, 0) {
        Err(quoted_fault())
    } else {
        match insert.source {
            Some(query) => if has_query_clause(query) || query.order_by@.len() > 0 || query.limit is Some {
                Err(Fault::Unsupported("clause on INSERT VALUES"@))
            } else {
                Ok(())
            },
            None => Ok(()),
        }
    }
}

/// Whether a statement has supported options only.
pub open spec fn statement_options(statement: SqlStatement) -> Result<(), Fault> {
    match statement {
        SqlStatement::CreateTable(create) => if has_table_option(create) {
            Err(Fault::Unsupported("CREATE TABLE option or table constraint"@))
        } else {
            columns_options(create.columns@, 0)
        },
        SqlStatement::Insert(insert) => insert_options(insert),
        _ => Ok(()),
    }
}

fn table_option(c: &SqlCreateTable) -> (r: bool)
    ensures
        r == has_table_option(*c),
{
    let engine = match &c.source.engine {
        Some(engine) => {
            let name = to_lower(trim(engine.as_str()).as_str());
            !same_text(name.as_str(), "memory")
        },
        None => false,
    };
    let kind = c.kind.or_replace || c.kind.temporary || c.kind.outer_storage || c.kind.global
        || c.kind.transient || c.kind.without_rowid || c.kind.strict;
    let distributed = !matches!(c.storage.distribution, Distribution::Unset);
    let formatted = match &c.storage.formats {
        Some(parts) => parts.row_format || parts.serde_properties || parts.storage
            || parts.location,
        None => false,
    };
    let storage = c.storage.constraints > 0 || distributed || formatted || c.storage.table_properties > 0 || c.storage.with_options > 0 || c.storage.file_format
        || c.storage.location;
    let source = c.source.query || c.source.like || c.source.clone || engine || c.source.comment
        || c.source.on_commit || c.source.on_cluster;
    let layout = c.layout.auto_increment_offset || c.layout.default_charset || c.layout.collation
        || c.layout.order_by || c.layout.partition_by || c.layout.cluster_by || c.layout.options;
    kind || storage || source || layout
}

fn check_column_options(column: &SqlColumn) -> (r: Result<(), Error>)
    ensures
        plain(r) == column_options(*column, 0),
{
    let mut i: usize = 0;
    while i < column.options.len()
        invariant
            i <= column.options.len(),
            column_options(*column, 0) == column_options(*column, i as int),
        decreases column.options.len() - i,
    {
        let option = &column.options[i];
        if option.named || matches!(option.option, ColumnRule::Other) {
            return Err(Error::Unsupported(concat2("column option ", option.text.as_str())));
        }
        i = i + 1;
    }
    Ok(())
}

fn check_columns(columns: &Vec<SqlColumn>) -> (r: Result<(), Error>)
    ensures
        plain(r) == columns_options(columns@, 0),
{
    let mut i: usize = 0;
    while i < columns.len()
        invariant
            i <= columns.len(),
            columns_options(columns@, 0) == columns_options(columns@, i as int),
        decreases columns.len() - i,
    {
        if columns[i].name.quoted {
            return Err(quoted_error());
        }
        if columns[i].has_collation {
            return Err(Error::Unsupported("column collation".to_owned()));
        }
        check_column_options(&columns[i])?;
        i = i + 1;
    }
    Ok(())
}

/// Checks that a statement has supported options only.
pub fn validate_statement_options(statement: &SqlStatement) -> (r: Result<(), Error>)
    ensures
        plain(r) == statement_options(*statement),
{
    match statement {
        SqlStatement::CreateTable(create) => {
            if table_option(create) {
                return Err(
                    Error::Unsupported("CREATE TABLE option or table constraint".to_owned()),
                );
            }
            check_columns(&create.columns)
        },
        SqlStatement::Insert(insert) => validate_insert_options(insert),
        _ => Ok(()),
    }
}

fn query_clause(query: &SqlQuery) -> (r: bool)
    ensures
        r == has_query_clause(*query),
{
    let c = &query.clauses;
    c.with || c.offset || c.fetch || c.limit_by > 0 || c.locks > 0 || c.for_clause
}

/// Checks that an `INSERT` has supported options only.
pub fn validate_insert_options(insert: &SqlInsert) -> (r: Result<(), Error>)
    ensures
        plain(r) == insert_options(*insert),
{
    let o = &insert.options;
    if o.or || o.ignore || o.table_alias || o.overwrite || o.partitioned || o.after_columns > 0
        || o.table || o.on || o.returning || o.replace_into || o.priority || o.insert_alias {
        return Err(Error::Unsupported("INSERT option or RETURNING".to_owned()));
    }
    let mut i: usize = 0;
    while i < insert.columns.len()
        invariant
            i <= insert.columns.len(),
            quoted_name(insert.columns@, 0) == quoted_name(insert.columns@, i as int),
            !has_insert_option(*insert),
        decreases insert.columns.len() - i,
    {
        if insert.columns[i].quoted {
            return Err(quoted_error());
        }
        i = i + 1;
    }
    match &insert.source {
        Some(query) => if query_clause(query) || query.order_by.len() > 0 || query.limit.is_some() {
            Err(Error::Unsupported("clause on INSERT VALUES".to_owned()))
        } else {
            Ok(())
        },
        None => Ok(()),
    }
}

/// Whether a column admits NULL after its options from `i` on.
pub open spec fn nullable_after(column: SqlColumn, i: int, nullable: bool) -> bool
    decreases column.options@.len() - i,
{
    if i < 0 || i >= column.options@.len() {
        nullable
    } else {
        nullable_after(
            column,
            i + 1,
            match column.options@[i].option {
                ColumnRule::Null => true,
                ColumnRule::NotNull => false,
                ColumnRule::Other => nullable,
            },
        )
    }
}

/// The fields of the columns from `i` on, behind those already found.
pub open spec fn created_fields(columns: Seq<SqlColumn>, i: int, found: Seq<Field>) -> Result<
    Seq<Field>,
    Fault,
>
    decreases columns.len() - i,
{
    if i < 0 || i >= columns.len() {
        Ok(found)
    } else {
        match parsed_data_type(columns[i].data_type@) {
            Err(fault) => Err(fault),
            Ok((data_type, nullable)) => created_fields(
                columns,
                i + 1,
                found.push(
                    Field {
                        name: columns[i].name.value,
                        data_type,
                        nullable: nullable_after(columns[i], 0, nullable),
                    },
                ),
            ),
        }
    }
}

fn column_nullable(column: &SqlColumn, nullable: bool) -> (r: bool)
    ensures
        r == nullable_after(*column, 0, nullable),
{
    let mut admits = nullable;
    let mut i: usize = 0;
    while i < column.options.len()
        invariant
            i <= column.options.len(),
            nullable_after(*column, 0, nullable) == nullable_after(*column, i as int, admits),
        decreases column.options.len() - i,
    {
        admits = match column.options[i].option {
            ColumnRule::Null => true,
            ColumnRule::NotNull => false,
            ColumnRule::Other => admits,
        };
        i = i + 1;
    }
    admits
}

/// Makes the fields of a new table.
#[verifier::loop_isolation(false)]
fn create_fields(columns: Vec<SqlColumn>) -> (r: Result<Vec<Field>, Error>)
    ensures
        match r {
            Ok(fields) => created_fields(columns@, 0, Seq::empty()) == Ok::<Seq<Field>, Fault>(fields@),
            Err(e) => created_fields(columns@, 0, Seq::empty()) == Err::<Seq<Field>, Fault>(e@),
        },
{
    let ghost all = columns@;
    let mut fields: Vec<Field> = Vec::new();
    for column in it: columns
        invariant
            it.seq() == all,
            created_fields(all, 0, Seq::empty()) == created_fields(all, it.index(), fields@),
    {
        let (data_type, type_nullable) = parse_data_type(column.data_type.as_str())?;
        let nullable = column_nullable(&column, type_nullable);
        fields.push(Field { name: column.name.value, data_type, nullable });
    }
    Ok(fields)
}

/// What a statement does: its reply and the tables behind it. A statement that fails
/// changes nothing.
pub type Effect = Result<(Reply, Map<Seq<char>, TableData>), Fault>;

/// What a `CREATE TABLE` does.
pub open spec fn create_effect(create: SqlCreateTable, tables: Tables) -> Effect {
    let done = Reply::Command { affected_rows: 0 };
    match simple_name(create.name) {
        Err(fault) => Err(fault),
        Ok(name) => if tables.contains_key(lower(name)) {
            if create.if_not_exists {
                Ok((done, tables))
            } else {
                Err(Fault::TableExists(name))
            }
        } else {
            match created_fields(create.columns@, 0, Seq::empty()) {
                Err(fault) => Err(fault),
                Ok(fields) => match Schema::checked(fields) {
                    Err(fault) => Err(fault),
                    Ok(schema) => Ok(
                        (
                            done,
                            tables.insert(
                                lower(name),
                                TableData { fields: schema, rows: Seq::empty() },
                            ),
                        ),
                    ),
                },
            }
        },
    }
}

/// The values of constant expressions from `i` on, behind those already found.
pub open spec fn constants(list: Seq<SqlExpr>, i: int, found: Seq<Datum>, m: FloatModel) -> Result<
    Seq<Datum>,
    Fault,
>
    decreases list.len() - i,
{
    if i < 0 || i >= list.len() {
        Ok(found)
    } else {
        match eval(list[i], row_scope(Origin { table: None, qualifier: None }, None, None), m) {
            Err(fault) => Err(fault),
            Ok(d) => constants(list, i + 1, found.push(d), m),
        }
    }
}

/// The places of the named columns from `i` on, behind those already found.
pub open spec fn column_places(
    columns: Seq<SqlName>,
    fields: Seq<Field>,
    i: int,
    found: Seq<usize>,
) -> Result<Seq<usize>, Fault>
    decreases columns.len() - i,
{
    if i < 0 || i >= columns.len() {
        Ok(found)
    } else {
        match field_index(fields, columns[i].value@) {
            None => Err(Fault::ColumnNotFound(columns[i].value@)),
            Some(k) => column_places(columns, fields, i + 1, found.push(k as usize)),
        }
    }
}

/// Whether a place occurs twice.
pub open spec fn repeats(places: Seq<usize>) -> bool {
    exists|i: int, j: int| 0 <= i < j < places.len() && places[i] == places[j]
}

/// A row of `n` data with the first `k` of the given data at their places, and NULL
/// elsewhere.
pub open spec fn spread(data: Seq<Datum>, places: Seq<usize>, n: nat, k: int) -> Seq<Datum>
    decreases k,
{
    if k <= 0 {
        Seq::new(n, |i: int| Datum::Null)
    } else {
        spread(data, places, n, k - 1).update(places[k - 1] as int, data[k - 1])
    }
}

/// The row that a list of expressions makes.
pub open spec fn inserted_row(
    list: Seq<SqlExpr>,
    columns: int,
    places: Seq<usize>,
    fields: Seq<Field>,
    m: FloatModel,
) -> Result<Seq<Datum>, Fault> {
    match constants(list, 0, Seq::empty(), m) {
        Err(fault) => Err(fault),
        Ok(data) => if columns == 0 {
            Ok(data)
        } else if data.len() != places.len() {
            Err(
                Fault::Constraint(
                    "expected "@ + int_text(places.len() as int) + " values, found "@ + int_text(
                        data.len() as int,
                    ),
                ),
            )
        } else {
            Ok(spread(data, places, fields.len(), places.len() as int))
        },
    }
}

/// The rows that the lists from `i` on make, behind those already made.
pub open spec fn inserted_rows(
    lists: Seq<Vec<SqlExpr>>,
    i: int,
    found: Seq<Seq<Datum>>,
    columns: int,
    places: Seq<usize>,
    fields: Seq<Field>,
    m: FloatModel,
) -> Result<Seq<Seq<Datum>>, Fault>
    decreases lists.len() - i,
{
    if i < 0 || i >= lists.len() {
        Ok(found)
    } else {
        match inserted_row(lists[i]@, columns, places, fields, m) {
            Err(fault) => Err(fault),
            Ok(row) => inserted_rows(lists, i + 1, found.push(row), columns, places, fields, m),
        }
    }
}

/// The rows that an `INSERT` of value lists into a table with `stored` rows makes.
pub open spec fn insert_data(
    lists: Seq<Vec<SqlExpr>>,
    columns: Seq<SqlName>,
    table: TableData,
    config: EngineConfig,
    m: FloatModel,
) -> Result<Seq<Seq<Datum>>, Fault> {
    let attempted = sat_sum(table.rows.len() as usize, lists.len() as usize);
    if attempted > config.max_rows_per_table {
        Err(
            Fault::ResourceLimit {
                resource: "rows per table"@,
                limit: config.max_rows_per_table,
                actual: attempted,
            },
        )
    } else {
        match column_places(columns, table.fields, 0, Seq::empty()) {
            Err(fault) => Err(fault),
            Ok(places) => if repeats(places) {
                Err(Fault::Constraint("an INSERT column may only be specified once"@))
            } else {
                match inserted_rows(
                    lists,
                    0,
                    Seq::empty(),
                    columns.len() as int,
                    places,
                    table.fields,
                    m,
                ) {
                    Err(fault) => Err(fault),
                    Ok(rows) => match rows_misfit(table.fields, rows, 0) {
                        Some(fault) => Err(fault),
                        None => Ok(rows),
                    },
                }
            },
        }
    }
}

/// What an `INSERT` does.
pub open spec fn insert_effect(
    insert: SqlInsert,
    tables: Tables,
    config: EngineConfig,
    m: FloatModel,
) -> Effect {
    match simple_name(insert.table_name) {
        Err(fault) => Err(fault),
        Ok(name) => match insert.source {
            None => Err(Fault::Unsupported("INSERT without VALUES"@)),
            Some(query) => match query.body {
                QueryBody::Values(lists) => if lists@.len() > config.max_rows_per_insert {
                    Err(
                        Fault::ResourceLimit {
                            resource: "rows per INSERT"@,
                            limit: config.max_rows_per_insert,
                            actual: lists@.len() as usize,
                        },
                    )
                } else if !tables.contains_key(lower(name)) {
                    Err(Fault::TableNotFound(name))
                } else {
                    let table = tables[lower(name)];
                    match insert_data(lists@, insert.columns@, table, config, m) {
                        Err(fault) => Err(fault),
                        Ok(rows) => Ok(
                            (
                                Reply::Command { affected_rows: rows.len() as usize },
                                tables.insert(
                                    lower(name),
                                    TableData { fields: table.fields, rows: table.rows + rows },
                                ),
                            ),
                        ),
                    }
                },
                _ => Err(Fault::Unsupported("INSERT source must be VALUES"@)),
            },
        },
    }
}

/// Evaluates constant expressions.
fn eval_constants<F: Fn(FloatRequest) -> FloatReply>(list: &Vec<SqlExpr>, f: &F) -> (r: Result<
    Vec<Value>,
    Error,
>)
    requires
        answers_floats(*f),
    ensures
        data_outcome(r) == constants(list@, 0, Seq::empty(), float_model(*f)),
{
    let ghost m = float_model(*f);
    let mut found: Vec<Value> = Vec::new();
    assert(data_of(found@) =~= Seq::<Datum>::empty());
    let mut i: usize = 0;
    while i < list.len()
        invariant
            i <= list.len(),
            answers_floats(*f),
            m == float_model(*f),
            constants(list@, 0, Seq::empty(), m) == constants(list@, i as int, data_of(found@), m),
        decreases list.len() - i,
    {
        let value = eval_constant(&list[i], f)?;
        let ghost before = data_of(found@);
        found.push(value);
        assert(data_of(found@) =~= before.push(value@));
        i = i + 1;
    }
    Ok(found)
}

/// Finds the places of named columns.
fn find_places(columns: &Vec<SqlName>, schema: &Schema) -> (r: Result<Vec<usize>, Error>)
    ensures
        match r {
            Ok(places) => {
                &&& column_places(columns@, schema@, 0, Seq::empty()) == Ok::<Seq<usize>, Fault>(
                    places@,
                )
                &&& places.len() == columns.len()
                &&& forall|i: int| 0 <= i < places.len() ==> #[trigger] places[i] < schema@.len()
            },
            Err(e) => column_places(columns@, schema@, 0, Seq::empty()) == Err::<Seq<usize>, Fault>(
                e@,
            ),
        },
{
    let mut places: Vec<usize> = Vec::new();
    let mut i: usize = 0;
    while i < columns.len()
        invariant
            i <= columns.len(),
            places.len() == i,
            forall|k: int| 0 <= k < places.len() ==> #[trigger] places[k] < schema@.len(),
            column_places(columns@, schema@, 0, Seq::empty()) == column_places(
                columns@,
                schema@,
                i as int,
                places@,
            ),
        decreases columns.len() - i,
    {
        let place = schema.index_of(columns[i].value.as_str())?;
        places.push(place);
        i = i + 1;
    }
    Ok(places)
}

/// Decides whether a place occurs twice.
fn has_repeats(places: &Vec<usize>) -> (r: bool)
    ensures
        r == repeats(places@),
{
    let mut j: usize = 0;
    while j < places.len()
        invariant
            j <= places.len(),
            forall|a: int, b: int| 0 <= a < b < j ==> places[a] != places[b],
        decreases places.len() - j,
    {
        let mut i: usize = 0;
        while i < j
            invariant
                i <= j < places.len(),
                forall|a: int| 0 <= a < i ==> places[a] != places[j as int],
            decreases j - i,
        {
            if places[i] == places[j] {
                return true;
            }
            i = i + 1;
        }
        j = j + 1;
    }
    false
}

/// Puts values at their places in a row, and NULL elsewhere.
fn spread_row(values: &Vec<Value>, places: &Vec<usize>, n: usize) -> (row: Vec<Value>)
    requires
        values.len() == places.len(),
        forall|i: int| 0 <= i < places.len() ==> #[trigger] places[i] < n,
    ensures
        data_of(row@) == spread(data_of(values@), places@, n as nat, places.len() as int),
{
    let mut row: Vec<Value> = Vec::new();
    while row.len() < n
        invariant
            row.len() <= n,
            forall|k: int| 0 <= k < row.len() ==> #[trigger] row[k]@ == Datum::Null,
        decreases n - row.len(),
    {
        row.push(Value::Null);
    }
    assert(data_of(row@) =~= Seq::new(n as nat, |i: int| Datum::Null));
    let mut k: usize = 0;
    while k < places.len()
        invariant
            k <= places.len(),
            values.len() == places.len(),
            row.len() == n,
            forall|i: int| 0 <= i < places.len() ==> #[trigger] places[i] < n,
            data_of(row@) == spread(data_of(values@), places@, n as nat, k as int),
        decreases places.len() - k,
    {
        let ghost before = data_of(row@);
        let value = values[k].clone();
        let ghost datum = value@;
        let place = places[k];
        row[place] = value;
        assert(data_of(row@) =~= before.update(place as int, datum));
        k = k + 1;
    }
    row
}

/// Makes the rows of value lists.
#[verifier::loop_isolation(false)]
fn make_rows<F: Fn(FloatRequest) -> FloatReply>(
    lists: &Vec<Vec<SqlExpr>>,
    columns: usize,
    places: &Vec<usize>,
    schema: &Schema,
    f: &F,
) -> (r: Result<Vec<Vec<Value>>, Error>)
    requires
        answers_floats(*f),
        forall|i: int| 0 <= i < places.len() ==> #[trigger] places[i] < schema@.len(),
    ensures
        match r {
            Ok(rows) => inserted_rows(
                lists@,
                0,
                Seq::empty(),
                columns as int,
                places@,
                schema@,
                float_model(*f),
            ) == Ok::<Seq<Seq<Datum>>, Fault>(rows_of(rows@)),
            Err(e) => inserted_rows(
                lists@,
                0,
                Seq::empty(),
                columns as int,
                places@,
                schema@,
                float_model(*f),
            ) == Err::<Seq<Seq<Datum>>, Fault>(e@),
        },
{
    let ghost m = float_model(*f);
    let mut rows: Vec<Vec<Value>> = Vec::new();
    assert(rows_of(rows@) =~= Seq::<Seq<Datum>>::empty());
    let mut i: usize = 0;
    while i < lists.len()
        invariant
            i <= lists.len(),
            inserted_rows(lists@, 0, Seq::empty(), columns as int, places@, schema@, m)
                == inserted_rows(
                lists@,
                i as int,
                rows_of(rows@),
                columns as int,
                places@,
                schema@,
                m,
            ),
        decreases lists.len() - i,
    {
        let values = eval_constants(&lists[i], f)?;
        assert(data_of(values@).len() == values.len());
        let row = if columns == 0 {
            values
        } else {
            if values.len() != places.len() {
                return Err(
                    Error::Constraint(
                        concat4(
                            "expected ",
                            usize_text(places.len()).as_str(),
                            " values, found ",
                            usize_text(values.len()).as_str(),
                        ),
                    ),
                );
            }
            spread_row(&values, places, schema.len())
        };
        let ghost before = rows_of(rows@);
        let ghost data = data_of(row@);
        rows.push(row);
        assert(rows_of(rows@) =~= before.push(data));
        i = i + 1;
    }
    Ok(rows)
}

/// Whether a `SELECT` has a clause that the engine does not evaluate.
pub open spec fn has_select_clause(c: SelectClauses) -> bool {
    c.top || c.into || c.lateral_views > 0 || c.cluster_by > 0 || c.distribute_by > 0 || c.sort_by > 0
        || c.named_window > 0 || c.qualify || c.value_table_mode || c.connect_by
}

/// The source that the `FROM` items name.
pub open spec fn from_origin(from: Seq<FromItem>, tables: Tables) -> Result<Origin, Fault> {
    if from.len() > 1 {
        Err(Fault::Unsupported("multiple FROM items and joins"@))
    } else if from.len() == 0 {
        Ok(Origin { table: None, qualifier: None })
    } else if from[0].joins > 0 {
        Err(Fault::Unsupported("JOIN"@))
    } else {
        match from[0].relation {
            Relation::Other => Err(Fault::Unsupported("derived and table-function sources"@)),
            Relation::Table { name, alias, clauses } => if clauses.args || clauses.with_hints > 0
                || clauses.version || clauses.partitions > 0 || (alias matches Some(a) && (a.name.quoted
                || a.columns > 0)) {
                Err(Fault::Unsupported("table source option"@))
            } else {
                match simple_name(name) {
                    Err(fault) => Err(fault),
                    Ok(name) => if !tables.contains_key(lower(name)) {
                        Err(Fault::TableNotFound(name))
                    } else {
                        Ok(
                            Origin {
                                table: Some(tables[lower(name)]),
                                qualifier: Some(
                                    lower(
                                        match alias {
                                            Some(a) => a.name.value@,
                                            None => name,
                                        },
                                    ),
                                ),
                            },
                        )
                    },
                }
            },
        }
    }
}

/// The result of a `SELECT`.
pub open spec fn select_answer(
    select: SqlSelect,
    order: Seq<OrderKey>,
    limit: Option<SqlExpr>,
    tables: Tables,
    max_rows: usize,
    budget: usize,
    m: FloatModel,
) -> Result<Answer, Fault> {
    if select.duplicates == Duplicates::RemoveOn {
        Err(Fault::Unsupported("DISTINCT ON"@))
    } else if has_select_clause(select.clauses) {
        Err(Fault::Unsupported("advanced SELECT clause"@))
    } else {
        match from_origin(select.from@, tables) {
            Err(fault) => Err(fault),
            Ok(source) => match expanded(select.projection@, 0, Seq::empty(), source) {
                Err(fault) => Err(fault),
                Ok(projections) => match select.group_by {
                    None => Err(Fault::Unsupported("GROUP BY ALL"@)),
                    Some(items) => match resolved_from(
                        items@,
                        0,
                        Seq::empty(),
                        projections,
                        source,
                    ) {
                        Err(fault) => Err(fault),
                        Ok(keys) => match select_checks(
                            projections,
                            keys,
                            select.selection,
                            select.having,
                            order,
                            limit,
                            source,
                            m,
                        ) {
                            Err(fault) => Err(fault),
                            Ok(checked) => selected(
                                select.selection,
                                keys,
                                order,
                                checked.grouped,
                                Shape {
                                    source,
                                    projections,
                                    types: checked.types,
                                    having: select.having,
                                    distinct: select.duplicates == Duplicates::Remove,
                                    ordered: order.len() > 0,
                                    limit: checked.limit,
                                    max_rows,
                                },
                                budget,
                                m,
                            ),
                        },
                    },
                },
            },
        }
    }
}

/// The result of a query.
pub open spec fn query_answer(
    query: SqlQuery,
    tables: Tables,
    max_rows: usize,
    budget: usize,
    m: FloatModel,
) -> Result<Answer, Fault> {
    if has_query_clause(query) {
        Err(Fault::Unsupported("WITH, OFFSET, FETCH, LIMIT BY, and locking clauses"@))
    } else {
        match query.body {
            QueryBody::Select(select) => select_answer(
                *select,
                query.order_by@,
                query.limit,
                tables,
                max_rows,
                budget,
                m,
            ),
            _ => Err(Fault::Unsupported("set operations and subqueries"@)),
        }
    }
}

/// What a statement does on tables, with an allowance of bytes for its result.
pub open spec fn statement_effect(
    statement: SqlStatement,
    tables: Tables,
    config: EngineConfig,
    budget: usize,
    m: FloatModel,
) -> Effect {
    match statement_options(statement) {
        Err(fault) => Err(fault),
        Ok(()) => match statement {
            SqlStatement::CreateTable(create) => create_effect(create, tables),
            SqlStatement::Insert(insert) => insert_effect(insert, tables, config, m),
            SqlStatement::Query(query) => match query_answer(
                query,
                tables,
                config.max_result_rows,
                budget,
                m,
            ) {
                Err(fault) => Err(fault),
                Ok(answer) => Ok((Reply::Query(answer), tables)),
            },
            SqlStatement::Other { text } => Err(Fault::Unsupported(text@)),
        },
    }
}

/// An in-memory catalog of tables and an analytical execution engine on it.
#[derive(Debug)]
pub struct Engine {
    config: EngineConfig,
    tables: Catalog,
}

/// Whether the reply and the tables behind a statement are those of an effect.
pub open spec fn has_effect(
    r: Result<StatementResult, Error>,
    before: Tables,
    after: Tables,
    effect: Effect,
) -> bool {
    match r {
        Ok(result) => effect == Ok::<(Reply, Tables), Fault>((result@, after)),
        Err(e) => effect == Err::<(Reply, Tables), Fault>(e@) && after == before,
    }
}

impl Engine {
    /// The limits.
    pub closed spec fn limits(&self) -> EngineConfig {
        self.config
    }

    /// The contents of the tables.
    pub closed spec fn view(&self) -> Tables {
        self.tables@
    }

    /// Whether the catalog is well formed.
    pub closed spec fn wf(&self) -> bool {
        self.tables.wf()
    }

    /// Every table of a well-formed engine is sound: column names differ, and every row
    /// has one datum for each column.
    pub proof fn tables_are_sound(&self, key: Seq<char>)
        requires
            self.wf(),
            self@.contains_key(key),
        ensures
            table_sound(self@[key]),
    {
        self.tables.tables_are_sound(key);
    }

    /// Makes an engine without tables.
    pub fn new(config: EngineConfig) -> (e: Engine)
        ensures
            e.wf(),
            e.limits() == config,
            e@ == Map::<Seq<char>, TableData>::empty(),
    {
        Engine { config, tables: Catalog::new() }
    }

    /// The limits.
    pub fn config(&self) -> (c: &EngineConfig)
        ensures
            *c == self.limits(),
    {
        &self.config
    }

    /// Finds a table by its name, case aside.
    pub fn table(&self, name: &str) -> (r: Option<&Table>)
        requires
            self.wf(),
        ensures
            match r {
                Some(table) => {
                    &&& self@.contains_key(lower(name@))
                    &&& self@[lower(name@)] == table.data()
                    &&& table.wf()
                },
                None => !self@.contains_key(lower(name@)),
            },
    {
        self.tables.get(to_lower(name).as_str())
    }

    fn create_table(&mut self, create: SqlCreateTable) -> (r: Result<StatementResult, Error>)
        requires
            old(self).wf(),
        ensures
            final(self).wf(),
            final(self).limits() == old(self).limits(),
            has_effect(r, old(self)@, final(self)@, create_effect(create, old(self)@)),
    {
        let name = object_name(&create.name)?;
        let key = to_lower(name.as_str());
        if self.tables.get(key.as_str()).is_some() {
            return if create.if_not_exists {
                Ok(StatementResult::Command { affected_rows: 0 })
            } else {
                Err(Error::TableExists(name))
            };
        }
        let fields = create_fields(create.columns)?;
        let schema = Schema::new(fields)?;
        let table = Table::new(schema);
        self.tables.insert(key, table);
        Ok(StatementResult::Command { affected_rows: 0 })
    }

    fn insert_values<F: Fn(FloatRequest) -> FloatReply>(&mut self, insert: SqlInsert, f: &F) -> (r:
        Result<StatementResult, Error>)
        requires
            old(self).wf(),
            answers_floats(*f),
        ensures
            final(self).wf(),
            final(self).limits() == old(self).limits(),
            has_effect(
                r,
                old(self)@,
                final(self)@,
                insert_effect(insert, old(self)@, old(self).limits(), float_model(*f)),
            ),
    {
        let name = object_name(&insert.table_name)?;
        let key = to_lower(name.as_str());
        let query = match insert.source {
            None => return Err(Error::Unsupported("INSERT without VALUES".to_owned())),
            Some(query) => query,
        };
        let lists = match query.body {
            QueryBody::Values(lists) => lists,
            _ => return Err(Error::Unsupported("INSERT source must be VALUES".to_owned())),
        };
        if lists.len() > self.config.max_rows_per_insert {
            return Err(
                Error::ResourceLimit {
                    resource: "rows per INSERT",
                    limit: self.config.max_rows_per_insert,
                    actual: lists.len(),
                },
            );
        }
        let rows = match self.tables.get(key.as_str()) {
            None => return Err(Error::TableNotFound(name)),
            Some(table) => {
                let attempted = sat_add(table.row_count(), lists.len());
                if attempted > self.config.max_rows_per_table {
                    return Err(
                        Error::ResourceLimit {
                            resource: "rows per table",
                            limit: self.config.max_rows_per_table,
                            actual: attempted,
                        },
                    );
                }
                let places = find_places(&insert.columns, table.schema())?;
                if has_repeats(&places) {
                    return Err(
                        Error::Constraint("an INSERT column may only be specified once".to_owned()),
                    );
                }
                make_rows(&lists, insert.columns.len(), &places, table.schema(), f)?
            },
        };
        let affected_rows = rows.len();
        assert(rows_of(rows@).len() == affected_rows);
        self.tables.append(key.as_str(), rows)?;
        Ok(StatementResult::Command { affected_rows })
    }

    fn from_source<'a>(&'a self, from: &Vec<FromItem>) -> (r: Result<Source<'a>, Error>)
        requires
            self.wf(),
        ensures
            match r {
                Ok(source) => from_origin(from@, self@) == Ok::<Origin, Fault>(source@) && source.wf(),
                Err(e) => from_origin(from@, self@) == Err::<Origin, Fault>(e@),
            },
    {
        if from.len() > 1 {
            return Err(Error::Unsupported("multiple FROM items and joins".to_owned()));
        }
        if from.len() == 0 {
            return Ok(Source { table: None, qualifier: None });
        }
        if from[0].joins > 0 {
            return Err(Error::Unsupported("JOIN".to_owned()));
        }
        match &from[0].relation {
            Relation::Other => Err(
                Error::Unsupported("derived and table-function sources".to_owned()),
            ),
            Relation::Table { name, alias, clauses } => {
                let bad_alias = match alias {
                    Some(a) => a.name.quoted || a.columns > 0,
                    None => false,
                };
                if clauses.args || clauses.with_hints > 0 || clauses.version || clauses.partitions > 0
                    || bad_alias {
                    return Err(Error::Unsupported("table source option".to_owned()));
                }
                let name = object_name(name)?;
                match self.tables.get(to_lower(name.as_str()).as_str()) {
                    None => Err(Error::TableNotFound(name)),
                    Some(table) => {
                        let qualifier = match alias {
                            Some(a) => to_lower(a.name.value.as_str()),
                            None => to_lower(name.as_str()),
                        };
                        Ok(Source { table: Some(table), qualifier: Some(qualifier) })
                    },
                }
            },
        }
    }

    /// Runs a `SELECT` with an allowance of bytes for its result.
    fn execute_select<F: Fn(FloatRequest) -> FloatReply>(
        &self,
        select: SqlSelect,
        order: &Vec<OrderKey>,
        limit: &Option<SqlExpr>,
        budget: usize,
        f: &F,
    ) -> (r: Result<QueryResult, Error>)
        requires
            self.wf(),
            answers_floats(*f),
        ensures
            answer_outcome(r) == select_answer(
                select,
                order@,
                *limit,
                self@,
                self.limits().max_result_rows,
                budget,
                float_model(*f),
            ),
    {
        if matches!(select.duplicates, Duplicates::RemoveOn) {
            return Err(Error::Unsupported("DISTINCT ON".to_owned()));
        }
        let c = &select.clauses;
        if c.top || c.into || c.lateral_views > 0 || c.cluster_by > 0 || c.distribute_by > 0 || c.sort_by > 0
            || c.named_window > 0 || c.qualify || c.value_table_mode || c.connect_by {
            return Err(Error::Unsupported("advanced SELECT clause".to_owned()));
        }
        let source = self.from_source(&select.from)?;
        let projections = expand_projections(select.projection, &source)?;
        let items = match select.group_by {
            None => return Err(Error::Unsupported("GROUP BY ALL".to_owned())),
            Some(items) => items,
        };
        let keys = resolve_group_by(&items, &projections, &source)?;
        let (aliases, grouped, limit) = check_select(
            &projections,
            &keys,
            &select.selection,
            &select.having,
            order,
            limit,
            &source,
            f,
        )?;
        run_select(
            &source,
            &projections,
            &aliases,
            &keys,
            &select.selection,
            &select.having,
            order,
            grouped,
            matches!(select.duplicates, Duplicates::Remove),
            limit,
            self.config.max_result_rows,
            budget,
            f,
        )
    }

    /// Runs a query with an allowance of bytes for its result.
    pub fn execute_query<F: Fn(FloatRequest) -> FloatReply>(
        &self,
        query: SqlQuery,
        budget: usize,
        f: &F,
    ) -> (r: Result<QueryResult, Error>)
        requires
            self.wf(),
            answers_floats(*f),
        ensures
            answer_outcome(r) == query_answer(
                query,
                self@,
                self.limits().max_result_rows,
                budget,
                float_model(*f),
            ),
    {
        if query_clause(&query) {
            return Err(
                Error::Unsupported(
                    "WITH, OFFSET, FETCH, LIMIT BY, and locking clauses".to_owned(),
                ),
            );
        }
        match query.body {
            QueryBody::Select(select) => self.execute_select(
                *select,
                &query.order_by,
                &query.limit,
                budget,
                f,
            ),
            _ => Err(Error::Unsupported("set operations and subqueries".to_owned())),
        }
    }

    /// Executes a statement with an allowance of bytes for its result. A statement that
    /// fails changes nothing.
    pub fn execute_statement_with_budget<F: Fn(FloatRequest) -> FloatReply>(
        &mut self,
        statement: SqlStatement,
        budget: usize,
        f: &F,
    ) -> (r: Result<StatementResult, Error>)
        requires
            old(self).wf(),
            answers_floats(*f),
        ensures
            final(self).wf(),
            final(self).limits() == old(self).limits(),
            has_effect(
                r,
                old(self)@,
                final(self)@,
                statement_effect(
                    statement,
                    old(self)@,
                    old(self).limits(),
                    budget,
                    float_model(*f),
                ),
            ),
    {
        validate_statement_options(&statement)?;
        match statement {
            SqlStatement::CreateTable(create) => self.create_table(create),
            SqlStatement::Insert(insert) => self.insert_values(insert, f),
            SqlStatement::Query(query) => {
                let result = self.execute_query(query, budget, f)?;
                Ok(StatementResult::Query(result))
            },
            SqlStatement::Other { text } => Err(Error::Unsupported(text)),
        }
    }
}

/// Bytes accounted for a reply.
pub open spec fn reply_bytes(reply: Reply) -> usize {
    match reply {
        Reply::Command { .. } => COMMAND_BYTES,
        Reply::Query(answer) => answer_bytes(answer, answer.rows.len() as int),
    }
}

/// Returns the bytes accounted for the result of a statement.
pub fn result_retained_bytes(result: &StatementResult) -> (n: usize)
    ensures
        n == reply_bytes(result@),
{
    match result {
        StatementResult::Command { .. } => COMMAND_BYTES,
        StatementResult::Query(result) => query_result_retained_bytes(result),
    }
}

/// The allowance that is left of `total` bytes when `used` are taken.
pub open spec fn remaining(total: usize, used: usize) -> usize {
    if used >= total {
        0
    } else {
        (total - used) as usize
    }
}

/// The error of a statement in a batch that retains bytes already: when the statement ran
/// out of the allowance that was left, it is the batch that did.
pub open spec fn batch_fault(fault: Fault, retained: usize, total: usize) -> Fault {
    match fault {
        Fault::ResourceLimit { resource, limit, actual } => if retained > 0 && (resource
            == "result bytes"@ || resource == "intermediate result bytes"@) {
            Fault::ResourceLimit {
                resource: "batch result bytes"@,
                limit: total,
                actual: sat_sum(retained, actual),
            }
        } else {
            fault
        },
        _ => fault,
    }
}

/// The replies to the statements from `i` on, behind those already made, and the tables
/// behind them. The batch stops at the first statement that fails; what the statements
/// before it did stays done.
pub open spec fn batch(
    statements: Seq<SqlStatement>,
    i: int,
    replies: Seq<Reply>,
    retained: usize,
    tables: Tables,
    config: EngineConfig,
    m: FloatModel,
) -> (Result<Seq<Reply>, Fault>, Tables)
    decreases statements.len() - i,
{
    if i < 0 || i >= statements.len() {
        (Ok(replies), tables)
    } else {
        let total = config.max_batch_result_bytes;
        match statement_effect(statements[i], tables, config, remaining(total, retained), m) {
            Err(fault) => (Err(batch_fault(fault, retained, total)), tables),
            Ok((reply, after)) => {
                let retains = sat_sum(retained, reply_bytes(reply));
                if retains > total {
                    (
                        Err(
                            Fault::ResourceLimit {
                                resource: "batch result bytes"@,
                                limit: total,
                                actual: retains,
                            },
                        ),
                        after,
                    )
                } else {
                    batch(statements, i + 1, replies.push(reply), retains, after, config, m)
                }
            },
        }
    }
}

/// The statements of a text, which must not be too long.
pub open spec fn statements_of(sql: Seq<char>, config: EngineConfig) -> Result<
    Seq<SqlStatement>,
    Fault,
> {
    if utf8_len(sql) > config.max_input_bytes {
        Err(
            Fault::ResourceLimit {
                resource: "SQL input bytes"@,
                limit: config.max_input_bytes,
                actual: utf8_len(sql) as usize,
            },
        )
    } else {
        text_statements(sql)
    }
}

/// Whether an error of the parser says that the text ends too early.
pub open spec fn ends_early(message: Seq<char>) -> bool {
    let end = "found: EOF"@;
    message.len() >= end.len() && message.skip(message.len() - end.len()) == end
}

/// The error of a text on which the parser may not return: an error before the place where it
/// may not, or else that the text cannot be parsed.
pub open spec fn refusal(sql: Seq<char>) -> Seq<char> {
    let part = match tokenized(sql) {
        Ok(tokens) => readable_part(sql, tokens),
        Err(_) => sql,
    };
    if !parses_without_panic(part) {
        "statement cannot be parsed"@
    } else {
        match parsed_sql(part) {
            Err(message) if !ends_early(message) => message,
            _ => "statement cannot be parsed"@,
        }
    }
}

/// The statements in SQL text.
pub open spec fn text_statements(sql: Seq<char>) -> Result<Seq<SqlStatement>, Fault> {
    if !parses_without_panic(sql) {
        Err(Fault::Sql(refusal(sql)))
    } else {
        match parsed_sql(sql) {
            Ok(statements) => Ok(statements),
            Err(message) => Err(Fault::Sql(message)),
        }
    }
}

fn says_too_early(message: &str) -> (r: bool)
    ensures
        r == ends_early(message@),
{
    let end = "found: EOF";
    let chars = chars_of(message);
    let n = chars_of(end).len();
    if chars.len() < n {
        return false;
    }
    let tail = string_from(&chars, chars.len() - n, chars.len());
    assert(tail@ =~= message@.skip(message@.len() - end@.len()));
    same_text(tail.as_str(), end)
}

/// The error of a text whose part before the place where the parser may not return is given.
fn refusal_of(part: &str) -> (message: String)
    ensures
        message@ == (if !parses_without_panic(part@) {
            "statement cannot be parsed"@
        } else {
            match parsed_sql(part@) {
                Err(message) if !ends_early(message) => message,
                _ => "statement cannot be parsed"@,
            }
        }),
{
    let accepted = match tokenize(part) {
        Ok(tokens) => parser_accepts(&tokens),
        Err(_) => true,
    };
    if accepted {
        if let Err(message) = parse_sql(part) {
            if !says_too_early(message.as_str()) {
                return message;
            }
        }
    }
    "statement cannot be parsed".to_owned()
}

/// Reads the statements in SQL text.
pub fn parse_text(sql: &str) -> (r: Result<Vec<SqlStatement>, Error>)
    ensures
        match r {
            Ok(statements) => text_statements(sql@) == Ok::<Seq<SqlStatement>, Fault>(statements@),
            Err(e) => text_statements(sql@) == Err::<Seq<SqlStatement>, Fault>(e@),
        },
{
    if let Ok(tokens) = tokenize(sql) {
        if !parser_accepts(&tokens) {
            let part = part_before_upset(sql, &tokens);
            return Err(Error::Sql(refusal_of(part.as_str())));
        }
    }
    match parse_sql(sql) {
        Ok(statements) => Ok(statements),
        Err(message) => Err(Error::Sql(message)),
    }
}

/// The replies to a text of statements, and the tables behind it. Nothing is executed
/// unless the whole text is well formed.
pub open spec fn text_batch(sql: Seq<char>, tables: Tables, config: EngineConfig, m: FloatModel) -> (
    Result<Seq<Reply>, Fault>,
    Tables,
) {
    match statements_of(sql, config) {
        Err(fault) => (Err(fault), tables),
        Ok(statements) => batch(statements, 0, Seq::empty(), 0, tables, config, m),
    }
}

/// The content of results.
pub open spec fn replies_of(results: Seq<StatementResult>) -> Seq<Reply> {
    Seq::new(results.len(), |i: int| results[i]@)
}

/// The results of a batch as an exact result.
pub open spec fn replies_outcome(r: Result<Vec<StatementResult>, Error>) -> Result<Seq<Reply>, Fault> {
    match r {
        Ok(results) => Ok(replies_of(results@)),
        Err(e) => Err(e@),
    }
}

fn batch_error(error: Error, retained: usize, total: usize) -> (e: Error)
    ensures
        e@ == batch_fault(error@, retained, total),
{
    match error {
        Error::ResourceLimit { resource, limit, actual } => {
            if retained > 0 && (same_text(resource, "result bytes") || same_text(
                resource,
                "intermediate result bytes",
            )) {
                Error::ResourceLimit {
                    resource: "batch result bytes",
                    limit: total,
                    actual: sat_add(retained, actual),
                }
            } else {
                Error::ResourceLimit { resource, limit, actual }
            }
        },
        other => other,
    }
}

/// Statements that wait to be executed one at a time.
#[derive(Debug)]
pub struct Pending {
    statements: Vec<SqlStatement>,
    failed: bool,
}

impl Pending {
    /// The statements that wait.
    pub closed spec fn view(&self) -> Seq<SqlStatement> {
        self.statements@
    }

    /// Whether a statement has failed.
    pub closed spec fn stopped(&self) -> bool {
        self.failed
    }

    /// Executes the next statement, unless none waits or one has failed.
    pub fn next<F: Fn(FloatRequest) -> FloatReply>(&mut self, engine: &mut Engine, f: &F) -> (r: Option<
        Result<StatementResult, Error>,
    >)
        requires
            old(engine).wf(),
            answers_floats(*f),
        ensures
            final(engine).wf(),
            final(engine).limits() == old(engine).limits(),
            match r {
                None => {
                    &&& old(self).stopped() || old(self)@.len() == 0
                    &&& *final(self) == *old(self)
                    &&& *final(engine) == *old(engine)
                },
                Some(result) => {
                    &&& !old(self).stopped() && old(self)@.len() > 0
                    &&& final(self)@ == old(self)@.skip(1)
                    &&& final(self).stopped() == (result is Err)
                    &&& has_effect(
                        result,
                        old(engine)@,
                        final(engine)@,
                        statement_effect(
                            old(self)@[0],
                            old(engine)@,
                            old(engine).limits(),
                            old(engine).limits().max_batch_result_bytes,
                            float_model(*f),
                        ),
                    )
                },
            },
    {
        if self.failed || self.statements.len() == 0 {
            return None;
        }
        let statement = self.statements.remove(0);
        assert(self.statements@ =~= old(self)@.skip(1));
        let budget = engine.config.max_batch_result_bytes;
        let result = engine.execute_statement_with_budget(statement, budget, f);
        self.failed = result.is_err();
        Some(result)
    }
}

impl Default for Engine {
    fn default() -> (e: Engine)
        ensures
            e.wf(),
            e.limits() == EngineConfig::standard(),
            e@ == Map::<Seq<char>, TableData>::empty(),
    {
        Engine::new(EngineConfig::default())
    }
}

impl Engine {
    fn parse_statements(&self, sql: &str) -> (r: Result<Vec<SqlStatement>, Error>)
        ensures
            match r {
                Ok(statements) => statements_of(sql@, self.limits()) == Ok::<
                    Seq<SqlStatement>,
                    Fault,
                >(statements@),
                Err(e) => statements_of(sql@, self.limits()) == Err::<Seq<SqlStatement>, Fault>(e@),
            },
    {
        let length = byte_len(sql);
        if length > self.config.max_input_bytes {
            return Err(
                Error::ResourceLimit {
                    resource: "SQL input bytes",
                    limit: self.config.max_input_bytes,
                    actual: length,
                },
            );
        }
        parse_text(sql)
    }

    /// Executes statements in order until one fails. The results together must fit into
    /// the batch allowance.
    #[verifier::loop_isolation(false)]
    pub fn execute_statements<F: Fn(FloatRequest) -> FloatReply>(
        &mut self,
        statements: Vec<SqlStatement>,
        f: &F,
    ) -> (r: Result<Vec<StatementResult>, Error>)
        requires
            old(self).wf(),
            answers_floats(*f),
        ensures
            final(self).wf(),
            final(self).limits() == old(self).limits(),
            (replies_outcome(r), final(self)@) == batch(
                statements@,
                0,
                Seq::empty(),
                0,
                old(self)@,
                old(self).limits(),
                float_model(*f),
            ),
    {
        let ghost m = float_model(*f);
        let ghost all = statements@;
        let ghost config = self.limits();
        let ghost first = self@;
        let total = self.config.max_batch_result_bytes;
        let mut retained: usize = 0;
        let mut results: Vec<StatementResult> = Vec::new();
        assert(replies_of(results@) =~= Seq::<Reply>::empty());
        for statement in it: statements
            invariant
                it.seq() == all,
                self.wf(),
                self.limits() == config,
                batch(all, 0, Seq::empty(), 0, first, config, m) == batch(
                    all,
                    it.index(),
                    replies_of(results@),
                    retained,
                    self@,
                    config,
                    m,
                ),
        {
            let budget = if retained >= total {
                0
            } else {
                total - retained
            };
            let result = match self.execute_statement_with_budget(statement, budget, f) {
                Ok(result) => result,
                Err(e) => return Err(batch_error(e, retained, total)),
            };
            retained = sat_add(retained, result_retained_bytes(&result));
            if retained > total {
                return Err(
                    Error::ResourceLimit {
                        resource: "batch result bytes",
                        limit: total,
                        actual: retained,
                    },
                );
            }
            let ghost before = replies_of(results@);
            results.push(result);
            assert(replies_of(results@) =~= before.push(result@));
        }
        Ok(results)
    }

    /// Executes a text of statements in order until one fails. Nothing is executed unless
    /// the whole text is well formed.
    pub fn execute<F: Fn(FloatRequest) -> FloatReply>(&mut self, sql: &str, f: &F) -> (r: Result<
        Vec<StatementResult>,
        Error,
    >)
        requires
            old(self).wf(),
            answers_floats(*f),
        ensures
            final(self).wf(),
            final(self).limits() == old(self).limits(),
            (replies_outcome(r), final(self)@) == text_batch(
                sql@,
                old(self)@,
                old(self).limits(),
                float_model(*f),
            ),
    {
        let statements = self.parse_statements(sql)?;
        self.execute_statements(statements, f)
    }

    /// Parses a text of statements that are then executed one at a time, so that callers
    /// can release each result before the next statement runs.
    pub fn execute_iter(&self, sql: &str) -> (r: Result<Pending, Error>)
        ensures
            match r {
                Ok(pending) => {
                    &&& statements_of(sql@, self.limits()) == Ok::<Seq<SqlStatement>, Fault>(
                        pending@,
                    )
                    &&& !pending.stopped()
                },
                Err(e) => statements_of(sql@, self.limits()) == Err::<Seq<SqlStatement>, Fault>(e@),
            },
    {
        let statements = self.parse_statements(sql)?;
        Ok(Pending { statements, failed: false })
    }
}

} // verus!
