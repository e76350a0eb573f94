//! The execution of a checked `SELECT`: filtering, grouping, projecting and sorting.

use vstd::prelude::*;
use crate::aggregates::{key_of, same_value, value_key};
use crate::ast::{OrderKey, SqlExpr};
use crate::binding::{names_of, AliasTypes, Origin, Source};
use crate::budget::{data_bytes, sat_add, sat_mul, sat_product, sat_sum, text_bytes, value_bytes, values_bytes, Budget, INDEX_BYTES, KEY_TABLE_BYTES, LIST_BYTES, NAME_BYTES, PROJECTED_ROW_BYTES, VALUE_BYTES};
use crate::eval::{eval, eval_group, eval_row_with_memory, group_scope, row_scope, Group};
use crate::float::{answers_floats, float_model, FloatModel, FloatReply, FloatRequest};
use crate::grouping_rules::Projection;
use crate::ordering::{checked_rows_are_sortable, sort_rows, sort_types, sorted_places, validate_sort_types};
use crate::planning::{find_header, header_from, header_names, order_ordinal, ordinal, targets};
use crate::sorting::covers;
use crate::storage::rows_of;
use crate::text::{byte_len, utf8_len};
use crate::types::{data_of, datum_truth, plain, DataType, Datum, Error, Fault, Value};

verus! {

/// Whether a condition that may be absent holds on a row.
pub open spec fn row_passes(
    condition: Option<SqlExpr>,
    source: Origin,
    row: usize,
    memory: Budget,
    m: FloatModel,
) -> Result<bool, Fault> {
    match condition {
        None => Ok(true),
        Some(e) => match eval(e, row_scope(source, Some(row), Some(memory)), m) {
            Err(fault) => Err(fault),
            Ok(d) => match datum_truth(d) {
                Err(fault) => Err(fault),
                Ok(t) => Ok(t == Some(true)),
            },
        },
    }
}

/// The rows from `row` below `n` on which a condition holds, behind those already found,
/// up to `stop` of them; and the allowance that is left.
pub open spec fn scanned(
    condition: Option<SqlExpr>,
    source: Origin,
    row: int,
    n: int,
    stop: usize,
    found: Seq<usize>,
    memory: Budget,
    m: FloatModel,
) -> Result<(Seq<usize>, Budget), Fault>
    decreases n - row,
{
    if row < 0 || row >= n {
        Ok((found, memory))
    } else {
        match row_passes(condition, source, row as usize, memory, m) {
            Err(fault) => Err(fault),
            Ok(false) => scanned(condition, source, row + 1, n, stop, found, memory, m),
            Ok(true) => match memory.taken(INDEX_BYTES) {
                Err(fault) => Err(fault),
                Ok(used) => {
                    let more = found.push(row as usize);
                    if more.len() >= stop {
                        Ok((more, used))
                    } else {
                        scanned(condition, source, row + 1, n, stop, more, used, m)
                    }
                },
            },
        }
    }
}

/// The number of rows that a source offers: one without a table.
pub open spec fn source_rows(source: Origin) -> int {
    match source.table {
        Some(table) => table.rows.len() as int,
        None => 1,
    }
}

/// Whether every row of a list exists in the source.
pub open spec fn rows_exist(rows: Seq<usize>, source: Origin) -> bool {
    source.table matches Some(table) ==> forall|i: int|
        0 <= i < rows.len() ==> #[trigger] rows[i] < table.rows.len()
}

/// Finds the rows on which a condition holds.
#[verifier::loop_isolation(false)]
fn scan_rows<F: Fn(FloatRequest) -> FloatReply>(
    condition: &Option<SqlExpr>,
    source: &Source<'_>,
    stop: usize,
    memory: Budget,
    f: &F,
) -> (r: Result<(Vec<usize>, Budget), Error>)
    requires
        source.wf(),
        answers_floats(*f),
    ensures
        match r {
            Ok((rows, used)) => {
                &&& scanned(
                    *condition,
                    source@,
                    0,
                    source_rows(source@),
                    stop,
                    Seq::empty(),
                    memory,
                    float_model(*f),
                ) == Ok::<(Seq<usize>, Budget), Fault>((rows@, used))
                &&& rows_exist(rows@, source@)
            },
            Err(e) => scanned(
                *condition,
                source@,
                0,
                source_rows(source@),
                stop,
                Seq::empty(),
                memory,
                float_model(*f),
            ) == Err::<(Seq<usize>, Budget), Fault>(e@),
        },
{
    let ghost m = float_model(*f);
    let n: usize = match source.table {
        Some(table) => table.row_count(),
        None => 1,
    };
    let mut found: Vec<usize> = Vec::new();
    let mut used = memory;
    let mut row: usize = 0;
    while row < n
        invariant
            row <= n,
            rows_exist(found@, source@),
            scanned(*condition, source@, 0, n as int, stop, Seq::empty(), memory, m) == scanned(
                *condition,
                source@,
                row as int,
                n as int,
                stop,
                found@,
                used,
                m,
            ),
        decreases n - row,
    {
        let passes = match condition {
            None => true,
            Some(e) => {
                let value = eval_row_with_memory(e, source, Some(row), Some(used), f)?;
                match value.sql_bool()? {
                    Some(b) => b,
                    None => false,
                }
            },
        };
        if passes {
            used = used.reserve(INDEX_BYTES)?;
            found.push(row);
            if found.len() >= stop {
                return Ok((found, used));
            }
        }
        row = row + 1;
    }
    Ok((found, used))
}

/// The grouping key of a row, from the expression at `i` on, behind what was found.
pub open spec fn row_key(
    keys: Seq<SqlExpr>,
    i: int,
    found: Seq<Datum>,
    source: Origin,
    row: usize,
    memory: Budget,
    m: FloatModel,
) -> Result<Seq<Datum>, Fault>
    decreases keys.len() - i,
{
    if i < 0 || i >= keys.len() {
        Ok(found)
    } else {
        match eval(keys[i], row_scope(source, Some(row), Some(memory)), m) {
            Err(fault) => Err(fault),
            Ok(d) => row_key(keys, i + 1, found.push(key_of(d)), source, row, memory, m),
        }
    }
}

/// Bytes accounted for a key of several data.
pub open spec fn keys_bytes(key: Seq<Datum>) -> usize {
    data_bytes(LIST_BYTES, key, key.len() as int)
}

/// The first key from `i` on that equals a key.
pub open spec fn key_place(known: Seq<Seq<Datum>>, key: Seq<Datum>, i: int) -> Option<int>
    decreases known.len() - i,
{
    if i < 0 || i >= known.len() {
        None
    } else if known[i] == key {
        Some(i)
    } else {
        key_place(known, key, i + 1)
    }
}

/// The state of grouping.
pub struct Grouping {
    /// The rows of each group, in the order in which groups were first met.
    pub groups: Seq<Seq<usize>>,
    /// The key of each group.
    pub known: Seq<Seq<Datum>>,
    /// The allowance with everything that is held meanwhile.
    pub memory: Budget,
    /// The bytes held by the groups themselves.
    pub held: usize,
}

/// Grouping after one more row.
pub open spec fn group_row(
    g: Grouping,
    row: usize,
    keys: Seq<SqlExpr>,
    source: Origin,
    m: FloatModel,
) -> Result<Grouping, Fault> {
    match row_key(keys, 0, Seq::empty(), source, row, g.memory, m) {
        Err(fault) => Err(fault),
        Ok(key) => match g.memory.taken(keys_bytes(key)) {
            Err(fault) => Err(fault),
            Ok(with_key) => match key_place(g.known, key, 0) {
                Some(k) => match with_key.taken(INDEX_BYTES) {
                    Err(fault) => Err(fault),
                    Ok(_) => Ok(
                        Grouping {
                            groups: g.groups.update(k, g.groups[k].push(row)),
                            known: g.known,
                            memory: g.memory.plus(INDEX_BYTES),
                            held: sat_sum(g.held, INDEX_BYTES),
                        },
                    ),
                },
                None => match g.memory.taken(
                    sat_sum(keys_bytes(key), sat_product(INDEX_BYTES, 2)),
                ) {
                    Err(fault) => Err(fault),
                    Ok(indexed) => match indexed.taken(sat_sum(LIST_BYTES, INDEX_BYTES)) {
                        Err(fault) => Err(fault),
                        Ok(memory) => Ok(
                            Grouping {
                                groups: g.groups.push(seq![row]),
                                known: g.known.push(key),
                                memory,
                                held: sat_sum(g.held, sat_sum(LIST_BYTES, INDEX_BYTES)),
                            },
                        ),
                    },
                },
            },
        },
    }
}

/// Grouping after the rows from `i` on.
pub open spec fn group_rows(
    g: Grouping,
    rows: Seq<usize>,
    i: int,
    keys: Seq<SqlExpr>,
    source: Origin,
    m: FloatModel,
) -> Result<Grouping, Fault>
    decreases rows.len() - i,
{
    if i < 0 || i >= rows.len() {
        Ok(g)
    } else {
        match group_row(g, rows[i], keys, source, m) {
            Err(fault) => Err(fault),
            Ok(next) => group_rows(next, rows, i + 1, keys, source, m),
        }
    }
}

/// The groups of rows by their keys, or one group of all rows without keys; and the bytes
/// that the groups hold.
pub open spec fn groups_by_key(
    rows: Seq<usize>,
    keys: Seq<SqlExpr>,
    source: Origin,
    memory: Budget,
    m: FloatModel,
) -> Result<(Seq<Seq<usize>>, usize), Fault> {
    match memory.taken(LIST_BYTES) {
        Err(fault) => Err(fault),
        Ok(listed) => if keys.len() == 0 {
            let bytes = sat_sum(LIST_BYTES, sat_product(rows.len() as usize, INDEX_BYTES));
            match listed.taken(bytes) {
                Err(fault) => Err(fault),
                Ok(_) => Ok((seq![rows], sat_sum(LIST_BYTES, bytes))),
            }
        } else {
            match listed.taken(KEY_TABLE_BYTES) {
                Err(fault) => Err(fault),
                Ok(indexed) => match group_rows(
                    Grouping {
                        groups: Seq::empty(),
                        known: Seq::empty(),
                        memory: indexed,
                        held: LIST_BYTES,
                    },
                    rows,
                    0,
                    keys,
                    source,
                    m,
                ) {
                    Err(fault) => Err(fault),
                    Ok(g) => Ok((g.groups, g.held)),
                },
            }
        },
    }
}

/// One group for each row from `i` on, behind those already made; and the bytes held.
pub open spec fn single_groups(
    rows: Seq<usize>,
    i: int,
    found: Seq<Seq<usize>>,
    memory: Budget,
    held: usize,
) -> Result<(Seq<Seq<usize>>, usize), Fault>
    decreases rows.len() - i,
{
    if i < 0 || i >= rows.len() {
        Ok((found, held))
    } else {
        let bytes = sat_sum(LIST_BYTES, INDEX_BYTES);
        match memory.taken(bytes) {
            Err(fault) => Err(fault),
            Ok(used) => single_groups(
                rows,
                i + 1,
                found.push(seq![rows[i]]),
                used,
                sat_sum(held, bytes),
            ),
        }
    }
}

/// The groups in which a `SELECT` evaluates its rows, and the bytes that they hold.
pub open spec fn groups_of(
    grouped: bool,
    rows: Seq<usize>,
    keys: Seq<SqlExpr>,
    source: Origin,
    memory: Budget,
    m: FloatModel,
) -> Result<(Seq<Seq<usize>>, usize), Fault> {
    if grouped {
        groups_by_key(rows, keys, source, memory, m)
    } else {
        match memory.taken(LIST_BYTES) {
            Err(fault) => Err(fault),
            Ok(listed) => single_groups(rows, 0, Seq::empty(), listed, LIST_BYTES),
        }
    }
}

/// The lists of rows in groups.
pub open spec fn lists_of(groups: Seq<Vec<usize>>) -> Seq<Seq<usize>> {
    Seq::new(groups.len(), |i: int| groups[i]@)
}

/// Whether every row of every group exists in the source.
pub open spec fn groups_exist(groups: Seq<Vec<usize>>, source: Origin) -> bool {
    forall|i: int| 0 <= i < groups.len() ==> rows_exist((#[trigger] groups[i])@, source)
}

/// Evaluates the grouping key of a row.
#[verifier::loop_isolation(false)]
fn eval_row_key<F: Fn(FloatRequest) -> FloatReply>(
    keys: &Vec<&SqlExpr>,
    source: &Source<'_>,
    row: usize,
    memory: Budget,
    f: &F,
) -> (r: Result<Vec<Value>, Error>)
    requires
        source.wf(),
        source.table matches Some(table) ==> row < table@.len(),
        answers_floats(*f),
    ensures
        data_outcome(r) == row_key(
            targets(keys@),
            0,
            Seq::empty(),
            source@,
            row,
            memory,
            float_model(*f),
        ),
{
    let ghost m = float_model(*f);
    let ghost list = targets(keys@);
    let mut found: Vec<Value> = Vec::new();
    assert(data_of(found@) =~= Seq::<Datum>::empty());
    let mut i: usize = 0;
    while i < keys.len()
        invariant
            i <= keys.len(),
            row_key(list, 0, Seq::empty(), source@, row, memory, m) == row_key(
                list,
                i as int,
                data_of(found@),
                source@,
                row,
                memory,
                m,
            ),
        decreases keys.len() - i,
    {
        let value = eval_row_with_memory(keys[i], source, Some(row), Some(memory), f)?;
        let key = value_key(&value);
        let ghost before = data_of(found@);
        found.push(key);
        assert(data_of(found@) =~= before.push(key@));
        i = i + 1;
    }
    Ok(found)
}

/// A list of values as an exact result.
pub open spec fn data_outcome(r: Result<Vec<Value>, Error>) -> Result<Seq<Datum>, Fault> {
    match r {
        Ok(values) => Ok(data_of(values@)),
        Err(e) => Err(e@),
    }
}

/// Decides whether two rows hold the same data.
pub fn same_values(a: &Vec<Value>, b: &Vec<Value>) -> (r: bool)
    ensures
        r == (data_of(a@) == data_of(b@)),
{
    if a.len() != b.len() {
        assert(data_of(a@).len() != data_of(b@).len());
        return false;
    }
    let mut i: usize = 0;
    while i < a.len()
        invariant
            i <= a.len(),
            a.len() == b.len(),
            forall|k: int| 0 <= k < i ==> data_of(a@)[k] == data_of(b@)[k],
        decreases a.len() - i,
    {
        if !same_value(&a[i], &b[i]) {
            assert(data_of(a@)[i as int] != data_of(b@)[i as int]);
            return false;
        }
        i = i + 1;
    }
    assert(data_of(a@) =~= data_of(b@));
    true
}

/// Finds the first of the known keys that equals a key.
pub fn find_key(known: &Vec<Vec<Value>>, key: &Vec<Value>) -> (r: Option<usize>)
    ensures
        match r {
            Some(k) => k < known.len() && key_place(rows_of(known@), data_of(key@), 0) == Some(
                k as int,
            ),
            None => key_place(rows_of(known@), data_of(key@), 0) is None,
        },
{
    let mut i: usize = 0;
    while i < known.len()
        invariant
            i <= known.len(),
            key_place(rows_of(known@), data_of(key@), 0) == key_place(
                rows_of(known@),
                data_of(key@),
                i as int,
            ),
        decreases known.len() - i,
    {
        assert(rows_of(known@)[i as int] == data_of(known[i as int]@));
        if same_values(&known[i], key) {
            return Some(i);
        }
        i = i + 1;
    }
    None
}

/// Returns the bytes accounted for a key of several values.
pub fn key_retained_bytes(key: &Vec<Value>) -> (n: usize)
    ensures
        n == keys_bytes(data_of(key@)),
{
    let mut n: usize = LIST_BYTES;
    let mut i: usize = 0;
    while i < key.len()
        invariant
            i <= key.len(),
            n == data_bytes(LIST_BYTES, data_of(key@), i as int),
        decreases key.len() - i,
    {
        n = sat_add(n, value_bytes(&key[i]));
        i = i + 1;
    }
    n
}

/// The groups and the bytes held as an exact result.
pub open spec fn groups_outcome(r: Result<(Vec<Vec<usize>>, usize), Error>) -> Result<
    (Seq<Seq<usize>>, usize),
    Fault,
> {
    match r {
        Ok((groups, held)) => Ok((lists_of(groups@), held)),
        Err(e) => Err(e@),
    }
}

/// Groups rows by their keys.
#[verifier::loop_isolation(false)]
fn make_groups<F: Fn(FloatRequest) -> FloatReply>(
    source: &Source<'_>,
    rows: Vec<usize>,
    keys: &Vec<&SqlExpr>,
    memory: Budget,
    f: &F,
) -> (r: Result<(Vec<Vec<usize>>, usize), Error>)
    requires
        source.wf(),
        rows_exist(rows@, source@),
        answers_floats(*f),
    ensures
        groups_outcome(r) == groups_by_key(
            rows@,
            targets(keys@),
            source@,
            memory,
            float_model(*f),
        ),
        r matches Ok((groups, _)) ==> groups_exist(groups@, source@),
{
    let ghost m = float_model(*f);
    let ghost list = targets(keys@);
    let listed = memory.reserve(LIST_BYTES)?;
    if keys.len() == 0 {
        let bytes = sat_add(LIST_BYTES, sat_mul(rows.len(), INDEX_BYTES));
        let used = listed.reserve(bytes)?;
        let ghost all = rows@;
        let mut groups: Vec<Vec<usize>> = Vec::new();
        groups.push(rows);
        assert(lists_of(groups@) =~= seq![all]);
        return Ok((groups, sat_add(LIST_BYTES, bytes)));
    }
    let mut used = listed.reserve(KEY_TABLE_BYTES)?;
    let mut known: Vec<Vec<Value>> = Vec::new();
    let mut groups: Vec<Vec<usize>> = Vec::new();
    let mut held: usize = LIST_BYTES;
    let ghost start = Grouping {
        groups: Seq::empty(),
        known: Seq::empty(),
        memory: used,
        held,
    };
    assert(lists_of(groups@) =~= Seq::<Seq<usize>>::empty());
    assert(rows_of(known@) =~= Seq::<Seq<Datum>>::empty());
    let mut i: usize = 0;
    while i < rows.len()
        invariant
            i <= rows.len(),
            known.len() == groups.len(),
            groups_exist(groups@, source@),
            group_rows(start, rows@, 0, list, source@, m) == group_rows(
                Grouping {
                    groups: lists_of(groups@),
                    known: rows_of(known@),
                    memory: used,
                    held,
                },
                rows@,
                i as int,
                list,
                source@,
                m,
            ),
        decreases rows.len() - i,
    {
        let row = rows[i];
        assert(rows@[i as int] == row);
        let key = eval_row_key(keys, source, row, used, f)?;
        let bytes = key_retained_bytes(&key);
        let with_key = used.reserve(bytes)?;
        let ghost old_groups = groups@;
        match find_key(&known, &key) {
            Some(k) => {
                let more = with_key.reserve(INDEX_BYTES)?;
                used = used.and(INDEX_BYTES);
                held = sat_add(held, INDEX_BYTES);
                assert(rows_exist(groups[k as int]@, source@));
                groups[k].push(row);
                assert(lists_of(groups@) =~= lists_of(old_groups).update(
                    k as int,
                    lists_of(old_groups)[k as int].push(row),
                ));
                assert forall|j: int| 0 <= j < groups.len() implies rows_exist(
                    (#[trigger] groups[j])@,
                    source@,
                ) by {
                    if j != k {
                        assert(groups@[j] == old_groups[j]);
                    }
                }
            },
            None => {
                used = used.reserve(sat_add(bytes, sat_mul(INDEX_BYTES, 2)))?;
                used = used.reserve(sat_add(LIST_BYTES, INDEX_BYTES))?;
                held = sat_add(held, sat_add(LIST_BYTES, INDEX_BYTES));
                let ghost old_known = rows_of(known@);
                let ghost key_data = data_of(key@);
                known.push(key);
                assert(rows_of(known@) =~= old_known.push(key_data));
                let mut group: Vec<usize> = Vec::new();
                group.push(row);
                assert(group@ =~= seq![row]);
                groups.push(group);
                assert(lists_of(groups@) =~= lists_of(old_groups).push(seq![row]));
                assert forall|j: int| 0 <= j < groups.len() implies rows_exist(
                    (#[trigger] groups[j])@,
                    source@,
                ) by {
                    if j < old_groups.len() {
                        assert(groups@[j] == old_groups[j]);
                    }
                }
            },
        }
        i = i + 1;
    }
    Ok((groups, held))
}

/// Makes one group for each row.
#[verifier::loop_isolation(false)]
fn make_single_row_groups(rows: &Vec<usize>, memory: Budget, Ghost(source): Ghost<Origin>) -> (r:
    Result<(Vec<Vec<usize>>, usize), Error>)
    requires
        rows_exist(rows@, source),
    ensures
        groups_outcome(r) == (match memory.taken(LIST_BYTES) {
            Err(fault) => Err::<(Seq<Seq<usize>>, usize), Fault>(fault),
            Ok(listed) => single_groups(rows@, 0, Seq::empty(), listed, LIST_BYTES),
        }),
        r matches Ok((groups, _)) ==> groups_exist(groups@, source),
{
    let mut used = memory.reserve(LIST_BYTES)?;
    let mut held: usize = LIST_BYTES;
    let mut groups: Vec<Vec<usize>> = Vec::new();
    assert(lists_of(groups@) =~= Seq::<Seq<usize>>::empty());
    let ghost listed = used;
    let mut i: usize = 0;
    while i < rows.len()
        invariant
            i <= rows.len(),
            groups_exist(groups@, source),
            single_groups(rows@, 0, Seq::empty(), listed, LIST_BYTES) == single_groups(
                rows@,
                i as int,
                lists_of(groups@),
                used,
                held,
            ),
        decreases rows.len() - i,
    {
        let bytes = sat_add(LIST_BYTES, INDEX_BYTES);
        used = used.reserve(bytes)?;
        held = sat_add(held, bytes);
        let mut group: Vec<usize> = Vec::new();
        group.push(rows[i]);
        assert(group@ =~= seq![rows@[i as int]]);
        let ghost before = groups@;
        groups.push(group);
        assert(lists_of(groups@) =~= lists_of(before).push(seq![rows@[i as int]]));
        i = i + 1;
    }
    Ok((groups, held))
}

/// The data of the result columns from `i` on for a group, behind those already found;
/// and the allowance with the row's text.
pub open spec fn project_group(
    projections: Seq<Projection>,
    i: int,
    found: Seq<Datum>,
    rows: Seq<usize>,
    source: Origin,
    memory: Budget,
    m: FloatModel,
) -> Result<(Seq<Datum>, Budget), Fault>
    decreases projections.len() - i,
{
    if i < 0 || i >= projections.len() {
        Ok((found, memory))
    } else {
        match eval(projections[i].expr, plain_scope(source, rows, projections, memory), m) {
            Err(fault) => Err(fault),
            Ok(d) => match memory.taken(text_bytes(d)) {
                Err(fault) => Err(fault),
                Ok(used) => project_group(projections, i + 1, found.push(d), rows, source, used, m),
            },
        }
    }
}

/// The scope of a group in which result columns have no names.
pub open spec fn plain_scope(
    source: Origin,
    rows: Seq<usize>,
    projections: Seq<Projection>,
    memory: Budget,
) -> crate::eval::Scope {
    group_scope(
        source,
        rows,
        Seq::empty(),
        Seq::empty(),
        Seq::empty(),
        projections,
        Seq::empty(),
        Seq::empty(),
        memory,
    )
}

/// Whether a group passes the `HAVING` condition, in which result columns have names.
pub open spec fn group_passes(
    having: Option<SqlExpr>,
    source: Origin,
    rows: Seq<usize>,
    projections: Seq<Projection>,
    types: Seq<Option<DataType>>,
    memory: Budget,
    m: FloatModel,
) -> Result<bool, Fault> {
    match having {
        None => Ok(true),
        Some(e) => match eval(
            e,
            group_scope(
                source,
                rows,
                Seq::empty(),
                Seq::empty(),
                header_names(projections),
                projections,
                header_names(projections),
                types,
                memory,
            ),
            m,
        ) {
            Err(fault) => Err(fault),
            Ok(d) => match datum_truth(d) {
                Err(fault) => Err(fault),
                Ok(t) => Ok(t == Some(true)),
            },
        },
    }
}

/// The keys of data by which duplicate rows are told.
pub open spec fn key_data(data: Seq<Datum>) -> Seq<Datum> {
    Seq::new(data.len(), |i: int| key_of(data[i]))
}

/// What a `SELECT` does with its groups.
pub struct Shape {
    pub source: Origin,
    pub projections: Seq<Projection>,
    pub types: Seq<Option<DataType>>,
    pub having: Option<SqlExpr>,
    pub distinct: bool,
    pub ordered: bool,
    pub limit: usize,
    /// The largest number of rows that any result may have.
    pub max_rows: usize,
}

/// The state of projection.
pub struct Produced {
    /// The rows made so far.
    pub rows: Seq<Seq<Datum>>,
    /// The group of each row, kept for sorting.
    pub sources: Seq<Seq<usize>>,
    /// The keys of the rows made so far.
    pub seen: Seq<Seq<Datum>>,
    /// The allowance with everything that is held meanwhile.
    pub memory: Budget,
    /// The bytes held by the rows and their keys.
    pub held: usize,
}

/// Projection after a row was made of a group.
pub open spec fn keep_row(p: Produced, data: Seq<Datum>, group: Seq<usize>, s: Shape) -> Result<
    Produced,
    Fault,
> {
    let source_group = if s.ordered { group } else { Seq::empty() };
    let bytes = sat_sum(
        sat_sum(PROJECTED_ROW_BYTES, data_bytes(0, data, data.len() as int)),
        sat_product(source_group.len() as usize, INDEX_BYTES),
    );
    match p.memory.taken(bytes) {
        Err(fault) => Err(fault),
        Ok(memory) => {
            let rows = p.rows.push(data);
            if !s.ordered && rows.len() > s.max_rows {
                Err(
                    Fault::ResourceLimit {
                        resource: "result rows"@,
                        limit: s.max_rows,
                        actual: rows.len() as usize,
                    },
                )
            } else {
                Ok(
                    Produced {
                        rows,
                        sources: p.sources.push(source_group),
                        seen: p.seen,
                        memory,
                        held: sat_sum(p.held, bytes),
                    },
                )
            }
        },
    }
}

/// Projection after one more group.
pub open spec fn produce_row(p: Produced, group: Seq<usize>, s: Shape, m: FloatModel) -> Result<
    Produced,
    Fault,
> {
    match group_passes(s.having, s.source, group, s.projections, s.types, p.memory, m) {
        Err(fault) => Err(fault),
        Ok(false) => Ok(p),
        Ok(true) => match p.memory.taken(
            sat_sum(LIST_BYTES, sat_product(s.projections.len() as usize, VALUE_BYTES)),
        ) {
            Err(fault) => Err(fault),
            Ok(with_row) => match project_group(
                s.projections,
                0,
                Seq::empty(),
                group,
                s.source,
                with_row,
                m,
            ) {
                Err(fault) => Err(fault),
                Ok((data, with_text)) => if !s.distinct {
                    keep_row(p, data, group, s)
                } else if key_place(p.seen, key_data(data), 0) is Some {
                    Ok(p)
                } else {
                    let bytes = sat_sum(keys_bytes(key_data(data)), INDEX_BYTES);
                    match with_text.taken(bytes) {
                        Err(fault) => Err(fault),
                        Ok(_) => keep_row(
                            Produced {
                                seen: p.seen.push(key_data(data)),
                                memory: p.memory.plus(bytes),
                                held: sat_sum(p.held, bytes),
                                ..p
                            },
                            data,
                            group,
                            s,
                        ),
                    }
                },
            },
        },
    }
}

/// Projection after the groups from `i` on; without sorting it stops at the limit.
pub open spec fn produce_rows(
    p: Produced,
    groups: Seq<Seq<usize>>,
    i: int,
    s: Shape,
    m: FloatModel,
) -> Result<Produced, Fault>
    decreases groups.len() - i,
{
    if i < 0 || i >= groups.len() || (!s.ordered && p.rows.len() >= s.limit) {
        Ok(p)
    } else {
        match produce_row(p, groups[i], s, m) {
            Err(fault) => Err(fault),
            Ok(next) => produce_rows(next, groups, i + 1, s, m),
        }
    }
}

/// The names of result columns.
pub open spec fn headers(projections: Seq<Projection>) -> Seq<Seq<char>> {
    Seq::new(projections.len(), |i: int| projections[i].header@)
}

/// Bytes accounted for the first `n` column names.
pub open spec fn names_bytes(names: Seq<Seq<char>>, n: int) -> usize
    decreases n,
{
    if n <= 0 {
        0
    } else {
        sat_sum(
            sat_sum(names_bytes(names, n - 1), NAME_BYTES),
            utf8_len(names[n - 1]) as usize,
        )
    }
}

/// Returns the bytes accounted for column names.
pub fn columns_retained_bytes(columns: &Vec<String>) -> (n: usize)
    ensures
        n == names_bytes(names_of(columns@), columns.len() as int),
{
    let mut n: usize = 0;
    let mut i: usize = 0;
    while i < columns.len()
        invariant
            i <= columns.len(),
            n == names_bytes(names_of(columns@), i as int),
        decreases columns.len() - i,
    {
        n = sat_add(sat_add(n, NAME_BYTES), byte_len(columns[i].as_str()));
        i = i + 1;
    }
    n
}

/// Copies the names of result columns.
fn column_names(projections: &Vec<Projection>) -> (names: Vec<String>)
    ensures
        names.len() == projections.len(),
        names_of(names@) == headers(projections@),
{
    let mut names: Vec<String> = Vec::new();
    let mut i: usize = 0;
    while i < projections.len()
        invariant
            i <= projections.len(),
            names.len() == i,
            forall|k: int| 0 <= k < i ==> #[trigger] names[k]@ == projections[k].header@,
        decreases projections.len() - i,
    {
        names.push(projections[i].header.clone());
        i = i + 1;
    }
    assert(names_of(names@) =~= headers(projections@));
    names
}

/// The rows made of groups that hold `group_bytes`.
pub open spec fn produced(groups: Seq<Seq<usize>>, group_bytes: usize, limit: usize, s: Shape, m: FloatModel) -> Result<
    Produced,
    Fault,
> {
    let start = sat_sum(
        names_bytes(headers(s.projections), s.projections.len() as int),
        LIST_BYTES,
    );
    match (Budget { limit, used: group_bytes }).taken(start) {
        Err(fault) => Err(fault),
        Ok(listed) => {
            let begun = if s.distinct {
                listed.taken(KEY_TABLE_BYTES)
            } else {
                Ok(listed)
            };
            match begun {
                Err(fault) => Err(fault),
                Ok(memory) => produce_rows(
                    Produced {
                        rows: Seq::empty(),
                        sources: Seq::empty(),
                        seen: Seq::empty(),
                        memory,
                        held: if s.distinct { sat_sum(start, KEY_TABLE_BYTES) } else { start },
                    },
                    groups,
                    0,
                    s,
                    m,
                ),
            }
        },
    }
}

/// The working part of what a `SELECT` does with its groups.
struct Work<'a> {
    source: &'a Source<'a>,
    projections: &'a Vec<Projection>,
    columns: &'a Vec<String>,
    aliases: &'a AliasTypes,
    having: &'a Option<SqlExpr>,
    distinct: bool,
    ordered: bool,
    limit: usize,
    max_rows: usize,
}

impl<'a> Work<'a> {
    spec fn wf(&self) -> bool {
        &&& self.source.wf()
        &&& self.aliases.wf()
        &&& self.aliases.names.len() == self.projections.len()
        &&& self.columns.len() == self.projections.len()
        &&& names_of(self.columns@) == headers(self.projections@)
        &&& names_of(self.aliases.names@) == header_names(self.projections@)
    }

    spec fn shape(&self) -> Shape {
        Shape {
            source: self.source@,
            projections: self.projections@,
            types: self.aliases.types@,
            having: *self.having,
            distinct: self.distinct,
            ordered: self.ordered,
            limit: self.limit,
            max_rows: self.max_rows,
        }
    }

    /// Decides whether a group passes the `HAVING` condition.
    fn passes<F: Fn(FloatRequest) -> FloatReply>(&self, group: &Vec<usize>, memory: Budget, f: &F) -> (r:
        Result<bool, Error>)
        requires
            self.wf(),
            rows_exist(group@, self.source@),
            answers_floats(*f),
        ensures
            plain(r) == group_passes(
                *self.having,
                self.source@,
                group@,
                self.projections@,
                self.aliases.types@,
                memory,
                float_model(*f),
            ),
    {
        match self.having {
            None => Ok(true),
            Some(e) => {
                let no_names: Vec<String> = Vec::new();
                let no_values: Vec<Value> = Vec::new();
                assert(names_of(no_names@) =~= Seq::<Seq<char>>::empty());
                assert(data_of(no_values@) =~= Seq::<Datum>::empty());
                let scope = Group {
                    rows: group,
                    value_names: &no_names,
                    values: &no_values,
                    lazy_names: &self.aliases.names,
                    projections: self.projections,
                    types: self.aliases,
                };
                let value = eval_group(e, self.source, &scope, memory, f)?;
                match value.sql_bool()? {
                    Some(b) => Ok(b),
                    None => Ok(false),
                }
            },
        }
    }

    /// Evaluates the result columns on a group.
    #[verifier::loop_isolation(false)]
    fn project<F: Fn(FloatRequest) -> FloatReply>(&self, group: &Vec<usize>, memory: Budget, f: &F) -> (r:
        Result<(Vec<Value>, Budget), Error>)
        requires
            self.wf(),
            rows_exist(group@, self.source@),
            answers_floats(*f),
        ensures
            match r {
                Ok((values, used)) => project_group(
                    self.projections@,
                    0,
                    Seq::empty(),
                    group@,
                    self.source@,
                    memory,
                    float_model(*f),
                ) == Ok::<(Seq<Datum>, Budget), Fault>((data_of(values@), used)),
                Err(e) => project_group(
                    self.projections@,
                    0,
                    Seq::empty(),
                    group@,
                    self.source@,
                    memory,
                    float_model(*f),
                ) == Err::<(Seq<Datum>, Budget), Fault>(e@),
            },
    {
        let ghost m = float_model(*f);
        let no_names: Vec<String> = Vec::new();
        let no_values: Vec<Value> = Vec::new();
        let no_types = AliasTypes::none();
        assert(names_of(no_names@) =~= Seq::<Seq<char>>::empty());
        assert(data_of(no_values@) =~= Seq::<Datum>::empty());
        let scope = Group {
            rows: group,
            value_names: &no_names,
            values: &no_values,
            lazy_names: &no_names,
            projections: self.projections,
            types: &no_types,
        };
        let mut values: Vec<Value> = Vec::new();
        assert(data_of(values@) =~= Seq::<Datum>::empty());
        let mut used = memory;
        let mut i: usize = 0;
        while i < self.projections.len()
            invariant
                i <= self.projections.len(),
                project_group(self.projections@, 0, Seq::empty(), group@, self.source@, memory, m)
                    == project_group(
                    self.projections@,
                    i as int,
                    data_of(values@),
                    group@,
                    self.source@,
                    used,
                    m,
                ),
            decreases self.projections.len() - i,
        {
            let value = eval_group(&self.projections[i].expr, self.source, &scope, used, f)?;
            let bytes = match &value {
                Value::String(s) => byte_len(s.as_str()),
                _ => 0,
            };
            used = used.reserve(bytes)?;
            let ghost before = data_of(values@);
            values.push(value);
            assert(data_of(values@) =~= before.push(value@));
            i = i + 1;
        }
        Ok((values, used))
    }
}

/// Makes the keys of values by which duplicate rows are told.
fn value_keys(values: &Vec<Value>) -> (keys: Vec<Value>)
    ensures
        data_of(keys@) == key_data(data_of(values@)),
{
    let mut keys: Vec<Value> = Vec::new();
    let mut i: usize = 0;
    while i < values.len()
        invariant
            i <= values.len(),
            keys.len() == i,
            forall|k: int| 0 <= k < i ==> #[trigger] keys[k]@ == key_of(values[k]@),
        decreases values.len() - i,
    {
        keys.push(value_key(&values[i]));
        i = i + 1;
    }
    assert(data_of(keys@) =~= key_data(data_of(values@)));
    keys
}

/// The rows made so far and what they hold.
struct Rows {
    rows: Vec<Vec<Value>>,
    sources: Vec<Vec<usize>>,
    seen: Vec<Vec<Value>>,
    memory: Budget,
    held: usize,
}

impl Rows {
    spec fn state(&self) -> Produced {
        Produced {
            rows: rows_of(self.rows@),
            sources: lists_of(self.sources@),
            seen: rows_of(self.seen@),
            memory: self.memory,
            held: self.held,
        }
    }
}

spec fn rows_outcome(r: Result<Rows, Error>) -> Result<Produced, Fault> {
    match r {
        Ok(rows) => Ok(rows.state()),
        Err(e) => Err(e@),
    }
}

/// Whether rows have one value for each column and their groups exist.
spec fn rows_sound(rows: Rows, columns: int, source: Origin) -> bool {
    &&& rows.rows.len() == rows.sources.len()
    &&& forall|i: int| 0 <= i < rows.rows.len() ==> #[trigger] rows.rows[i].len() == columns
    &&& groups_exist(rows.sources@, source)
}

proof fn project_group_counts(
    projections: Seq<Projection>,
    i: int,
    found: Seq<Datum>,
    rows: Seq<usize>,
    source: Origin,
    memory: Budget,
    m: FloatModel,
)
    requires
        0 <= i <= projections.len(),
        project_group(projections, i, found, rows, source, memory, m) is Ok,
    ensures
        project_group(projections, i, found, rows, source, memory, m)->Ok_0.0.len() == found.len()
            + projections.len() - i,
    decreases projections.len() - i,
{
    if i < projections.len() {
        let d = eval(projections[i].expr, plain_scope(source, rows, projections, memory), m)->Ok_0;
        project_group_counts(
            projections,
            i + 1,
            found.push(d),
            rows,
            source,
            memory.taken(text_bytes(d))->Ok_0,
            m,
        );
    }
}

impl<'a> Work<'a> {
    /// Keeps a row that was made of a group.
    fn keep(&self, state: Rows, values: Vec<Value>, group: Vec<usize>) -> (r: Result<Rows, Error>)
        requires
            rows_sound(state, values.len() as int, self.source@),
            rows_exist(group@, self.source@),
        ensures
            rows_outcome(r) == keep_row(state.state(), data_of(values@), group@, self.shape()),
            r matches Ok(rows) ==> rows_sound(rows, values.len() as int, self.source@),
    {
        let ghost before = state;
        let ghost data = data_of(values@);
        let ghost count = values.len();
        let mut state = state;
        let kept = if self.ordered {
            group
        } else {
            Vec::new()
        };
        assert(self.ordered || kept@ =~= Seq::<usize>::empty());
        let bytes = sat_add(
            sat_add(PROJECTED_ROW_BYTES, values_bytes(&values)),
            sat_mul(kept.len(), INDEX_BYTES),
        );
        state.memory = state.memory.reserve(bytes)?;
        state.held = sat_add(state.held, bytes);
        let ghost kept_rows = kept@;
        state.rows.push(values);
        state.sources.push(kept);
        proof {
            assert(rows_of(state.rows@) =~= rows_of(before.rows@).push(data));
            assert(lists_of(state.sources@) =~= lists_of(before.sources@).push(kept_rows));
            assert forall|i: int| 0 <= i < state.rows.len() implies #[trigger] state.rows[i].len()
                == count by {
                if i < before.rows.len() {
                    assert(state.rows[i] == before.rows[i]);
                }
            }
            assert forall|j: int| 0 <= j < state.sources.len() implies rows_exist(
                (#[trigger] state.sources[j])@,
                self.source@,
            ) by {
                if j < before.sources.len() {
                    assert(state.sources@[j] == before.sources@[j]);
                }
            }
        }
        if !self.ordered && state.rows.len() > self.max_rows {
            return Err(
                Error::ResourceLimit {
                    resource: "result rows",
                    limit: self.max_rows,
                    actual: state.rows.len(),
                },
            );
        }
        Ok(state)
    }

    /// Makes a row of a group, unless the group is filtered out or the row is a duplicate.
    fn produce<F: Fn(FloatRequest) -> FloatReply>(&self, state: Rows, group: Vec<usize>, f: &F) -> (r:
        Result<Rows, Error>)
        requires
            self.wf(),
            rows_sound(state, self.projections.len() as int, self.source@),
            rows_exist(group@, self.source@),
            answers_floats(*f),
        ensures
            rows_outcome(r) == produce_row(state.state(), group@, self.shape(), float_model(*f)),
            r matches Ok(rows) ==> rows_sound(rows, self.projections.len() as int, self.source@),
    {
        if !self.passes(&group, state.memory, f)? {
            return Ok(state);
        }
        let with_row = state.memory.reserve(
            sat_add(LIST_BYTES, sat_mul(self.projections.len(), VALUE_BYTES)),
        )?;
        let (values, with_text) = self.project(&group, with_row, f)?;
        proof {
            project_group_counts(
                self.projections@,
                0,
                Seq::empty(),
                group@,
                self.source@,
                with_row,
                float_model(*f),
            );
            assert(data_of(values@).len() == values.len());
        }
        if !self.distinct {
            return self.keep(state, values, group);
        }
        let key = value_keys(&values);
        if find_key(&state.seen, &key).is_some() {
            return Ok(state);
        }
        let bytes = sat_add(key_retained_bytes(&key), INDEX_BYTES);
        let more = with_text.reserve(bytes)?;
        let ghost before = state;
        let mut state = state;
        state.memory = state.memory.and(bytes);
        state.held = sat_add(state.held, bytes);
        let ghost key_of_row = data_of(key@);
        state.seen.push(key);
        assert(rows_of(state.seen@) =~= rows_of(before.seen@).push(key_of_row));
        self.keep(state, values, group)
    }

    /// Makes the rows of all groups that hold `group_bytes`.
    #[verifier::loop_isolation(false)]
    fn produce_all<F: Fn(FloatRequest) -> FloatReply>(
        &self,
        groups: Vec<Vec<usize>>,
        group_bytes: usize,
        budget: usize,
        f: &F,
    ) -> (r: Result<Rows, Error>)
        requires
            self.wf(),
            groups_exist(groups@, self.source@),
            answers_floats(*f),
        ensures
            rows_outcome(r) == produced(
                lists_of(groups@),
                group_bytes,
                budget,
                self.shape(),
                float_model(*f),
            ),
            r matches Ok(rows) ==> rows_sound(rows, self.projections.len() as int, self.source@),
    {
        let ghost m = float_model(*f);
        let ghost lists = lists_of(groups@);
        let ghost all = groups@;
        let mut held = sat_add(columns_retained_bytes(self.columns), LIST_BYTES);
        let mut memory = (Budget { limit: budget, used: group_bytes }).reserve(held)?;
        if self.distinct {
            memory = memory.reserve(KEY_TABLE_BYTES)?;
            held = sat_add(held, KEY_TABLE_BYTES);
        }
        let mut state = Rows {
            rows: Vec::new(),
            sources: Vec::new(),
            seen: Vec::new(),
            memory,
            held,
        };
        assert(rows_of(state.rows@) =~= Seq::<Seq<Datum>>::empty());
        assert(rows_of(state.seen@) =~= Seq::<Seq<Datum>>::empty());
        assert(lists_of(state.sources@) =~= Seq::<Seq<usize>>::empty());
        let ghost start = state.state();
        for group in it: groups
            invariant
                it.seq() == all,
                rows_sound(state, self.projections.len() as int, self.source@),
                produce_rows(start, lists, 0, self.shape(), m) == produce_rows(
                    state.state(),
                    lists,
                    it.index(),
                    self.shape(),
                    m,
                ),
        {
            if !self.ordered && state.rows.len() >= self.limit {
                return Ok(state);
            }
            assert(lists[it.index()] == group@);
            assert(rows_exist(all[it.index()]@, self.source@));
            state = self.produce(state, group, f)?;
        }
        Ok(state)
    }
}

/// The datum by which a row is sorted under a key: a result column by number or by name,
/// or the value of an expression in which result columns have names.
pub open spec fn sort_datum(
    e: SqlExpr,
    row: Seq<Datum>,
    group: Seq<usize>,
    s: Shape,
    memory: Budget,
    m: FloatModel,
) -> Result<Datum, Fault> {
    match ordinal(e, s.projections.len() as int) {
        Err(fault) => Err(fault),
        Ok(Some(i)) => Ok(row[i]),
        Ok(None) => {
            let names = header_names(s.projections);
            let evaluated = eval(
                e,
                group_scope(
                    s.source,
                    group,
                    names,
                    row,
                    names,
                    s.projections,
                    names,
                    s.types,
                    memory,
                ),
                m,
            );
            match e {
                SqlExpr::Identifier(name) => match header_from(s.projections, name.value@, 0) {
                    Some(k) => Ok(row[k]),
                    None => evaluated,
                },
                _ => evaluated,
            }
        },
    }
}

/// The data by which a row is sorted, from the key at `i` on, behind those already found.
pub open spec fn sort_data(
    order: Seq<OrderKey>,
    i: int,
    found: Seq<Datum>,
    row: Seq<Datum>,
    group: Seq<usize>,
    s: Shape,
    memory: Budget,
    m: FloatModel,
) -> Result<Seq<Datum>, Fault>
    decreases order.len() - i,
{
    if i < 0 || i >= order.len() {
        Ok(found)
    } else {
        match sort_datum(order[i].expr, row, group, s, memory, m) {
            Err(fault) => Err(fault),
            Ok(d) => sort_data(order, i + 1, found.push(d), row, group, s, memory, m),
        }
    }
}

/// The sort data of the rows from `k` on, behind those already found.
pub open spec fn sort_table(
    order: Seq<OrderKey>,
    rows: Seq<Seq<Datum>>,
    sources: Seq<Seq<usize>>,
    k: int,
    found: Seq<Seq<Datum>>,
    s: Shape,
    memory: Budget,
    m: FloatModel,
) -> Result<Seq<Seq<Datum>>, Fault>
    decreases rows.len() - k,
{
    if k < 0 || k >= rows.len() {
        Ok(found)
    } else {
        match sort_data(order, 0, Seq::empty(), rows[k], sources[k], s, memory, m) {
            Err(fault) => Err(fault),
            Ok(data) => match memory.taken(data_bytes(0, data, data.len() as int)) {
                Err(fault) => Err(fault),
                Ok(used) => sort_table(
                    order,
                    rows,
                    sources,
                    k + 1,
                    found.push(data),
                    s,
                    used,
                    m,
                ),
            },
        }
    }
}

/// The rows at the given places.
pub open spec fn rows_at(rows: Seq<Seq<Datum>>, places: Seq<usize>) -> Seq<Seq<Datum>> {
    Seq::new(places.len(), |i: int| rows[places[i] as int])
}

/// The rows in the order of the sort keys.
pub open spec fn ordered_rows(
    order: Seq<OrderKey>,
    p: Produced,
    s: Shape,
    memory: Budget,
    m: FloatModel,
) -> Result<Seq<Seq<Datum>>, Fault> {
    if order.len() == 0 {
        Ok(p.rows)
    } else {
        match sort_table(order, p.rows, p.sources, 0, Seq::empty(), s, memory, m) {
            Err(fault) => Err(fault),
            Ok(table) => match sort_types(table, order.len() as int, 0) {
                Err(fault) => Err(fault),
                Ok(()) => Ok(rows_at(p.rows, sorted_places(table, order))),
            },
        }
    }
}

/// The first `n` of the rows, or all if there are fewer.
pub open spec fn truncated(rows: Seq<Seq<Datum>>, n: usize) -> Seq<Seq<Datum>> {
    if rows.len() <= n {
        rows
    } else {
        rows.take(n as int)
    }
}

impl<'a> Work<'a> {
    /// Evaluates the data by which a row is sorted.
    #[verifier::loop_isolation(false)]
    fn sort_row<F: Fn(FloatRequest) -> FloatReply>(
        &self,
        order: &Vec<OrderKey>,
        row: &Vec<Value>,
        group: &Vec<usize>,
        memory: Budget,
        f: &F,
    ) -> (r: Result<Vec<Value>, Error>)
        requires
            self.wf(),
            row.len() == self.projections.len(),
            rows_exist(group@, self.source@),
            answers_floats(*f),
        ensures
            data_outcome(r) == sort_data(
                order@,
                0,
                Seq::empty(),
                data_of(row@),
                group@,
                self.shape(),
                memory,
                float_model(*f),
            ),
            r matches Ok(values) ==> values.len() == order.len(),
    {
        let ghost m = float_model(*f);
        let ghost data = data_of(row@);
        let ghost s = self.shape();
        let scope = Group {
            rows: group,
            value_names: &self.aliases.names,
            values: row,
            lazy_names: &self.aliases.names,
            projections: self.projections,
            types: self.aliases,
        };
        let mut values: Vec<Value> = Vec::new();
        assert(data_of(values@) =~= Seq::<Datum>::empty());
        let mut i: usize = 0;
        while i < order.len()
            invariant
                i <= order.len(),
                values.len() == i,
                sort_data(order@, 0, Seq::empty(), data, group@, s, memory, m) == sort_data(
                    order@,
                    i as int,
                    data_of(values@),
                    data,
                    group@,
                    s,
                    memory,
                    m,
                ),
            decreases order.len() - i,
        {
            let e = &order[i].expr;
            let place = match order_ordinal(e, self.projections.len())? {
                Some(k) => Some(k),
                None => match e {
                    SqlExpr::Identifier(name) => find_header(
                        self.projections,
                        name.value.as_str(),
                    ),
                    _ => None,
                },
            };
            let value = match place {
                Some(k) => row[k].clone(),
                None => eval_group(e, self.source, &scope, memory, f)?,
            };
            assert(sort_datum(*e, data, group@, s, memory, m) == Ok::<Datum, Fault>(value@));
            let ghost before = data_of(values@);
            values.push(value);
            assert(data_of(values@) =~= before.push(value@));
            i = i + 1;
        }
        Ok(values)
    }

    /// Evaluates the data by which the rows are sorted.
    #[verifier::loop_isolation(false)]
    fn sort_all<F: Fn(FloatRequest) -> FloatReply>(
        &self,
        order: &Vec<OrderKey>,
        state: &Rows,
        memory: Budget,
        f: &F,
    ) -> (r: Result<Vec<Vec<Value>>, Error>)
        requires
            self.wf(),
            rows_sound(*state, self.projections.len() as int, self.source@),
            answers_floats(*f),
        ensures
            table_outcome(r) == sort_table(
                order@,
                rows_of(state.rows@),
                lists_of(state.sources@),
                0,
                Seq::empty(),
                self.shape(),
                memory,
                float_model(*f),
            ),
            r matches Ok(table) ==> {
                &&& table.len() == state.rows.len()
                &&& forall|a: int| 0 <= a < table.len() ==> #[trigger] table[a].len() == order.len()
            },
    {
        let ghost m = float_model(*f);
        let ghost s = self.shape();
        let ghost rows = rows_of(state.rows@);
        let ghost lists = lists_of(state.sources@);
        let mut used = memory;
        let mut table: Vec<Vec<Value>> = Vec::new();
        assert(rows_of(table@) =~= Seq::<Seq<Datum>>::empty());
        let mut k: usize = 0;
        while k < state.rows.len()
            invariant
                k <= state.rows.len(),
                table.len() == k,
                forall|a: int| 0 <= a < table.len() ==> #[trigger] table[a].len() == order.len(),
                sort_table(order@, rows, lists, 0, Seq::empty(), s, memory, m) == sort_table(
                    order@,
                    rows,
                    lists,
                    k as int,
                    rows_of(table@),
                    s,
                    used,
                    m,
                ),
            decreases state.rows.len() - k,
        {
            assert(rows[k as int] == data_of(state.rows[k as int]@));
            assert(lists[k as int] == state.sources[k as int]@);
            assert(state.rows[k as int].len() == self.projections.len());
            assert(rows_exist(state.sources@[k as int]@, self.source@));
            let values = self.sort_row(order, &state.rows[k], &state.sources[k], used, f)?;
            used = used.reserve(values_bytes(&values))?;
            let ghost before = table@;
            let ghost data = data_of(values@);
            table.push(values);
            proof {
                assert(rows_of(table@) =~= rows_of(before).push(data));
                assert forall|a: int| 0 <= a < table.len() implies #[trigger] table[a].len()
                    == order.len() by {
                    if a < k {
                        assert(table@[a] == before[a]);
                    }
                }
            }
            k = k + 1;
        }
        Ok(table)
    }
}

/// A table of values as an exact result.
pub open spec fn table_outcome(r: Result<Vec<Vec<Value>>, Error>) -> Result<Seq<Seq<Datum>>, Fault> {
    match r {
        Ok(table) => Ok(rows_of(table@)),
        Err(e) => Err(e@),
    }
}

/// Copies values.
pub fn copy_values(values: &Vec<Value>) -> (copy: Vec<Value>)
    ensures
        data_of(copy@) == data_of(values@),
{
    let mut copy: Vec<Value> = Vec::new();
    let mut i: usize = 0;
    while i < values.len()
        invariant
            i <= values.len(),
            copy.len() == i,
            forall|k: int| 0 <= k < i ==> #[trigger] copy[k]@ == values[k]@,
        decreases values.len() - i,
    {
        copy.push(values[i].clone());
        i = i + 1;
    }
    assert(data_of(copy@) =~= data_of(values@));
    copy
}

/// Copies the rows at the given places.
#[verifier::loop_isolation(false)]
fn take_rows(rows: &Vec<Vec<Value>>, places: &Vec<usize>, limit: usize) -> (taken: Vec<Vec<Value>>)
    requires
        covers(places@, 0, rows.len() as int),
    ensures
        rows_of(taken@) == truncated(rows_at(rows_of(rows@), places@), limit),
{
    let ghost all = rows_at(rows_of(rows@), places@);
    let mut taken: Vec<Vec<Value>> = Vec::new();
    let mut i: usize = 0;
    while i < places.len() && i < limit
        invariant
            i <= places.len(),
            i <= limit,
            taken.len() == i,
            forall|k: int| 0 <= k < i ==> data_of((#[trigger] taken[k])@) == all[k],
        decreases places.len() - i,
    {
        assert(places@[i as int] < rows.len());
        taken.push(copy_values(&rows[places[i]]));
        i = i + 1;
    }
    assert(rows_of(taken@) =~= truncated(all, limit));
    taken
}

/// Copies the first rows.
#[verifier::loop_isolation(false)]
fn first_rows(rows: Vec<Vec<Value>>, limit: usize) -> (taken: Vec<Vec<Value>>)
    ensures
        rows_of(taken@) == truncated(rows_of(rows@), limit),
{
    let ghost all = rows@;
    let mut rows = rows;
    if rows.len() > limit {
        rows.truncate(limit);
        assert(rows_of(rows@) =~= truncated(rows_of(all), limit));
    }
    rows
}

/// The columns and the rows of a query's result.
#[derive(Debug, Clone, PartialEq)]
pub struct QueryResult {
    pub columns: Vec<String>,
    pub rows: Vec<Vec<Value>>,
}

/// The mathematical content of a query's result.
pub struct Answer {
    pub columns: Seq<Seq<char>>,
    pub rows: Seq<Seq<Datum>>,
}

impl View for QueryResult {
    type V = Answer;

    open spec fn view(&self) -> Answer {
        Answer { columns: names_of(self.columns@), rows: rows_of(self.rows@) }
    }
}

/// Bytes accounted for a row of a result.
pub open spec fn row_bytes(row: Seq<Datum>) -> usize {
    sat_sum(LIST_BYTES, data_bytes(0, row, row.len() as int))
}

/// Bytes accounted for the column names and the first `n` rows of a result.
pub open spec fn answer_bytes(answer: Answer, n: int) -> usize
    decreases n,
{
    if n <= 0 {
        names_bytes(answer.columns, answer.columns.len() as int)
    } else {
        sat_sum(answer_bytes(answer, n - 1), row_bytes(answer.rows[n - 1]))
    }
}

/// Returns the bytes accounted for a query's result.
pub fn query_result_retained_bytes(result: &QueryResult) -> (n: usize)
    ensures
        n == answer_bytes(result@, result.rows.len() as int),
{
    let mut n = columns_retained_bytes(&result.columns);
    let mut i: usize = 0;
    while i < result.rows.len()
        invariant
            i <= result.rows.len(),
            n == answer_bytes(result@, i as int),
        decreases result.rows.len() - i,
    {
        assert(result@.rows[i as int] == data_of(result.rows[i as int]@));
        n = sat_add(n, sat_add(LIST_BYTES, values_bytes(&result.rows[i])));
        i = i + 1;
    }
    n
}

/// A result that must fit into the allowance.
pub open spec fn within_bytes(answer: Answer, limit: usize) -> Result<Answer, Fault> {
    let actual = answer_bytes(answer, answer.rows.len() as int);
    if actual > limit {
        Err(Fault::ResourceLimit { resource: "result bytes"@, limit, actual })
    } else {
        Ok(answer)
    }
}

/// A query's result as an exact result.
pub open spec fn answer_outcome(r: Result<QueryResult, Error>) -> Result<Answer, Fault> {
    match r {
        Ok(result) => Ok(result@),
        Err(e) => Err(e@),
    }
}

/// Accepts a result if it fits into the allowance.
pub fn enforce_result_byte_limit(result: QueryResult, limit: usize) -> (r: Result<QueryResult, Error>)
    ensures
        answer_outcome(r) == within_bytes(result@, limit),
{
    let actual = query_result_retained_bytes(&result);
    if actual > limit {
        Err(Error::ResourceLimit { resource: "result bytes", limit, actual })
    } else {
        Ok(result)
    }
}

/// The result of a checked `SELECT`.
pub open spec fn selected(
    selection: Option<SqlExpr>,
    keys: Seq<SqlExpr>,
    order: Seq<OrderKey>,
    grouped: bool,
    s: Shape,
    budget: usize,
    m: FloatModel,
) -> Result<Answer, Fault> {
    let columns = headers(s.projections);
    if s.limit == 0 {
        within_bytes(Answer { columns, rows: Seq::empty() }, budget)
    } else {
        match (Budget { limit: budget, used: 0 }).taken(LIST_BYTES) {
            Err(fault) => Err(fault),
            Ok(started) => {
                let stop = if !grouped && order.len() == 0 && !s.distinct {
                    s.limit
                } else {
                    usize::MAX
                };
                match scanned(
                    selection,
                    s.source,
                    0,
                    source_rows(s.source),
                    stop,
                    Seq::empty(),
                    started,
                    m,
                ) {
                    Err(fault) => Err(fault),
                    Ok((rows, memory)) => match groups_of(grouped, rows, keys, s.source, memory, m) {
                        Err(fault) => Err(fault),
                        Ok((groups, group_bytes)) => match produced(
                            groups,
                            group_bytes,
                            budget,
                            s,
                            m,
                        ) {
                            Err(fault) => Err(fault),
                            Ok(p) => finished(order, p, s, budget, m),
                        },
                    },
                }
            },
        }
    }
}

/// The result of a `SELECT` whose rows are made.
pub open spec fn finished(
    order: Seq<OrderKey>,
    p: Produced,
    s: Shape,
    budget: usize,
    m: FloatModel,
) -> Result<Answer, Fault> {
    match ordered_rows(order, p, s, Budget { limit: budget, used: p.held }, m) {
        Err(fault) => Err(fault),
        Ok(rows) => {
            let kept = truncated(rows, s.limit);
            if kept.len() > s.max_rows {
                Err(
                    Fault::ResourceLimit {
                        resource: "result rows"@,
                        limit: s.max_rows,
                        actual: kept.len() as usize,
                    },
                )
            } else {
                within_bytes(Answer { columns: headers(s.projections), rows: kept }, budget)
            }
        },
    }
}

/// Runs a checked `SELECT`.
pub fn run_select<F: Fn(FloatRequest) -> FloatReply>(
    source: &Source<'_>,
    projections: &Vec<Projection>,
    aliases: &AliasTypes,
    keys: &Vec<&SqlExpr>,
    selection: &Option<SqlExpr>,
    having: &Option<SqlExpr>,
    order: &Vec<OrderKey>,
    grouped: bool,
    distinct: bool,
    limit: usize,
    max_rows: usize,
    budget: usize,
    f: &F,
) -> (r: Result<QueryResult, Error>)
    requires
        source.wf(),
        aliases.wf(),
        aliases.names.len() == projections.len(),
        names_of(aliases.names@) == header_names(projections@),
        answers_floats(*f),
    ensures
        answer_outcome(r) == selected(
            *selection,
            targets(keys@),
            order@,
            grouped,
            Shape {
                source: source@,
                projections: projections@,
                types: aliases.types@,
                having: *having,
                distinct,
                ordered: order.len() > 0,
                limit,
                max_rows,
            },
            budget,
            float_model(*f),
        ),
{
    let columns = column_names(projections);
    if limit == 0 {
        let result = QueryResult { columns, rows: Vec::new() };
        assert(result@.rows =~= Seq::<Seq<Datum>>::empty());
        return enforce_result_byte_limit(result, budget);
    }
    let work = Work {
        source,
        projections,
        columns: &columns,
        aliases,
        having,
        distinct,
        ordered: order.len() > 0,
        limit,
        max_rows,
    };
    let started = Budget::new(budget).reserve(LIST_BYTES)?;
    let stop = if !grouped && order.len() == 0 && !distinct {
        limit
    } else {
        usize::MAX
    };
    let (rows, memory) = scan_rows(selection, source, stop, started, f)?;
    let (groups, group_bytes) = if grouped {
        make_groups(source, rows, keys, memory, f)?
    } else {
        make_single_row_groups(&rows, memory, Ghost(source@))?
    };
    let state = work.produce_all(groups, group_bytes, budget, f)?;
    let kept = if order.len() > 0 {
        let base = Budget { limit: budget, used: state.held };
        let table = work.sort_all(order, &state, base, f)?;
        validate_sort_types(&table, order.len())?;
        proof {
            checked_rows_are_sortable(rows_of(table@), order.len() as int);
        }
        let places = sort_rows(&table, order);
        take_rows(&state.rows, &places, limit)
    } else {
        first_rows(state.rows, limit)
    };
    assert(rows_of(kept@).len() == kept.len());
    if kept.len() > max_rows {
        return Err(
            Error::ResourceLimit { resource: "result rows", limit: max_rows, actual: kept.len() },
        );
    }
    enforce_result_byte_limit(QueryResult { columns, rows: kept }, budget)
}

} // verus!
