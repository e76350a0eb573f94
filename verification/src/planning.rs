//! The checks that a `SELECT` passes before any row is read.

use vstd::prelude::*;
use crate::ast::{LiteralKind, OrderKey, SqlExpr, SqlName, SqlSelectItem, WildcardModifiers};
use crate::binding::{contains_aggregate, expected_type, holds_aggregate, ensure_type, infer_expression_type, names_of, object_name, quoted_error, quoted_fault, references, simple_name, type_of, validate_expression_references, AliasTypes, Origin, Source};
use crate::eval::{eval, eval_row_with_memory, row_scope};
use crate::float::{answers_floats, float_model, FloatModel, FloatReply, FloatRequest};
use crate::grouping_rules::{canonical, canonical_expression, grouped_ok, validate_grouped_expression, Projection};
use crate::scalar::{has_float_mark, is_float_text};
use crate::storage::{field_index, Field};
use crate::text::{concat2, concat3, i64_text, int_text, lower, parse_usize, same_ignoring_case, to_lower, usize_text, usize_value};
use crate::types::{datum_text, outcome, plain, DataType, Datum, Error, Fault, Value};

verus! {

/// The result column that an expression names by its number, counted from one.
pub open spec fn ordinal(e: SqlExpr, columns: int) -> Result<Option<int>, Fault> {
    match e {
        SqlExpr::Value(literal) => match literal.kind {
            LiteralKind::Number(s) => if is_float_text(s@) {
                Ok(None)
            } else {
                match usize_value(s@) {
                    None => Err(Fault::Constraint("invalid ORDER BY ordinal "@ + s@)),
                    Some(n) => if n == 0 || n > columns {
                        Err(
                            Fault::Constraint(
                                "ORDER BY ordinal "@ + int_text(n as int)
                                    + " is outside the projection"@,
                            ),
                        )
                    } else {
                        Ok(Some(n - 1))
                    },
                }
            },
            _ => Ok(None),
        },
        _ => Ok(None),
    }
}

/// The column of an ordinal as an exact result.
pub open spec fn place_outcome(r: Result<Option<usize>, Error>) -> Result<Option<int>, Fault> {
    match r {
        Ok(Some(i)) => Ok(Some(i as int)),
        Ok(None) => Ok(None),
        Err(e) => Err(e@),
    }
}

/// Finds the result column that an expression names by its number.
pub fn order_ordinal(e: &SqlExpr, columns: usize) -> (r: Result<Option<usize>, Error>)
    ensures
        place_outcome(r) == ordinal(*e, columns as int),
        r matches Ok(Some(i)) ==> i < columns,
{
    match e {
        SqlExpr::Value(literal) => match &literal.kind {
            LiteralKind::Number(s) => {
                if has_float_mark(s.as_str()) {
                    return Ok(None);
                }
                match parse_usize(s.as_str()) {
                    None => Err(
                        Error::Constraint(concat2("invalid ORDER BY ordinal ", s.as_str())),
                    ),
                    Some(n) => if n == 0 || n > columns {
                        Err(
                            Error::Constraint(
                                concat3(
                                    "ORDER BY ordinal ",
                                    usize_text(n).as_str(),
                                    " is outside the projection",
                                ),
                            ),
                        )
                    } else {
                        Ok(Some(n - 1))
                    },
                }
            },
            _ => Ok(None),
        },
        _ => Ok(None),
    }
}

/// The result column of a table column.
pub open spec fn field_projection(field: Field) -> Projection {
    Projection {
        expr: SqlExpr::Identifier(SqlName { value: field.name, quoted: false }),
        header: field.name,
    }
}

/// The result columns of the first `n` table columns, behind those already found.
pub open spec fn with_fields(found: Seq<Projection>, fields: Seq<Field>, n: int) -> Seq<Projection>
    decreases n,
{
    if n <= 0 {
        found
    } else {
        with_fields(found, fields, n - 1).push(field_projection(fields[n - 1]))
    }
}

/// Whether a wildcard has no modifiers.
pub open spec fn wildcard_options(w: WildcardModifiers) -> Result<(), Fault> {
    if w.ilike || w.exclude || w.except || w.rename || w.replace {
        Err(Fault::Unsupported("wildcard modifiers"@))
    } else {
        Ok(())
    }
}

/// Checks that a wildcard has no modifiers.
pub fn validate_wildcard_options(w: &WildcardModifiers) -> (r: Result<(), Error>)
    ensures
        plain(r) == wildcard_options(*w),
{
    if w.ilike || w.exclude || w.except || w.rename || w.replace {
        Err(Error::Unsupported("wildcard modifiers".to_owned()))
    } else {
        Ok(())
    }
}

/// The result columns that a wildcard stands for, behind those already found.
pub open spec fn with_wildcard(found: Seq<Projection>, source: Origin) -> Result<
    Seq<Projection>,
    Fault,
> {
    match source.table {
        None => Err(Fault::Constraint("wildcard requires a FROM table"@)),
        Some(table) => Ok(with_fields(found, table.fields, table.fields.len() as int)),
    }
}

/// The result columns that the items from `i` on stand for, behind those already found.
pub open spec fn expanded(
    items: Seq<SqlSelectItem>,
    i: int,
    found: Seq<Projection>,
    source: Origin,
) -> Result<Seq<Projection>, Fault>
    decreases items.len() - i,
{
    if i < 0 || i >= items.len() {
        Ok(found)
    } else {
        let next = match items[i] {
            SqlSelectItem::Unnamed { expr, text } => Ok(
                found.push(Projection { expr, header: text }),
            ),
            SqlSelectItem::Aliased { expr, alias } => if alias.quoted {
                Err(quoted_fault())
            } else {
                Ok(found.push(Projection { expr, header: alias.value }))
            },
            SqlSelectItem::Wildcard { modifiers } => match wildcard_options(modifiers) {
                Err(fault) => Err(fault),
                Ok(()) => with_wildcard(found, source),
            },
            SqlSelectItem::QualifiedWildcard { name, modifiers } => match wildcard_options(
                modifiers,
            ) {
                Err(fault) => Err(fault),
                Ok(()) => match simple_name(name) {
                    Err(fault) => Err(fault),
                    Ok(qualifier) => match source.qualified(qualifier) {
                        Err(fault) => Err(fault),
                        Ok(()) => with_wildcard(found, source),
                    },
                },
            },
        };
        match next {
            Err(fault) => Err(fault),
            Ok(more) => expanded(items, i + 1, more, source),
        }
    }
}

/// A list of result columns as an exact result.
pub open spec fn columns_outcome(r: Result<Vec<Projection>, Error>) -> Result<Seq<Projection>, Fault> {
    match r {
        Ok(list) => Ok(list@),
        Err(e) => Err(e@),
    }
}

fn push_fields(found: Vec<Projection>, source: &Source<'_>) -> (r: Result<Vec<Projection>, Error>)
    ensures
        columns_outcome(r) == with_wildcard(found@, source@),
{
    match source.table {
        None => Err(Error::Constraint("wildcard requires a FROM table".to_owned())),
        Some(table) => {
            let fields = table.schema().fields();
            let ghost before = found@;
            let mut found = found;
            let mut i: usize = 0;
            while i < fields.len()
                invariant
                    i <= fields.len(),
                    found@ == with_fields(before, fields@, i as int),
                decreases fields.len() - i,
            {
                found.push(
                    Projection {
                        expr: SqlExpr::Identifier(
                            SqlName { value: fields[i].name.clone(), quoted: false },
                        ),
                        header: fields[i].name.clone(),
                    },
                );
                i = i + 1;
            }
            Ok(found)
        },
    }
}

/// Finds the result columns that a select list stands for.
#[verifier::loop_isolation(false)]
pub fn expand_projections(items: Vec<SqlSelectItem>, source: &Source<'_>) -> (r: Result<
    Vec<Projection>,
    Error,
>)
    ensures
        columns_outcome(r) == expanded(items@, 0, Seq::empty(), source@),
{
    let ghost all = items@;
    let mut found: Vec<Projection> = Vec::new();
    for item in it: items
        invariant
            it.seq() == all,
            expanded(all, 0, Seq::empty(), source@) == expanded(all, it.index(), found@, source@),
    {
        match item {
            SqlSelectItem::Unnamed { expr, text } => {
                found.push(Projection { expr, header: text });
            },
            SqlSelectItem::Aliased { expr, alias } => {
                if alias.quoted {
                    return Err(quoted_error());
                }
                found.push(Projection { expr, header: alias.value });
            },
            SqlSelectItem::Wildcard { modifiers } => {
                validate_wildcard_options(&modifiers)?;
                found = push_fields(found, source)?;
            },
            SqlSelectItem::QualifiedWildcard { name, modifiers } => {
                validate_wildcard_options(&modifiers)?;
                let qualifier = object_name(&name)?;
                source.validate_qualifier(qualifier.as_str())?;
                found = push_fields(found, source)?;
            },
        }
    }
    Ok(found)
}

/// The lowercase names of result columns.
pub open spec fn header_names(projections: Seq<Projection>) -> Seq<Seq<char>> {
    Seq::new(projections.len(), |i: int| lower(projections[i].header@))
}

/// Collects the lowercase names of result columns.
pub fn lower_headers(projections: &Vec<Projection>) -> (names: Vec<String>)
    ensures
        names_of(names@) == header_names(projections@),
        names.len() == projections.len(),
{
    let mut names: Vec<String> = Vec::new();
    let mut i: usize = 0;
    while i < projections.len()
        invariant
            i <= projections.len(),
            names.len() == i,
            forall|k: int| 0 <= k < i ==> #[trigger] names[k]@ == lower(projections[k].header@),
        decreases projections.len() - i,
    {
        names.push(to_lower(projections[i].header.as_str()));
        i = i + 1;
    }
    assert(names_of(names@) =~= header_names(projections@));
    names
}

/// The first result column from `i` on with a name, case aside.
pub open spec fn header_from(projections: Seq<Projection>, name: Seq<char>, i: int) -> Option<int>
    decreases projections.len() - i,
{
    if i < 0 || i >= projections.len() {
        None
    } else if lower(projections[i].header@) == lower(name) {
        Some(i)
    } else {
        header_from(projections, name, i + 1)
    }
}

/// Finds the first result column with a name.
pub fn find_header(projections: &Vec<Projection>, name: &str) -> (r: Option<usize>)
    ensures
        match r {
            Some(k) => k < projections.len() && header_from(projections@, name@, 0) == Some(k as int),
            None => header_from(projections@, name@, 0) is None,
        },
{
    let mut i: usize = 0;
    while i < projections.len()
        invariant
            i <= projections.len(),
            header_from(projections@, name@, 0) == header_from(projections@, name@, i as int),
        decreases projections.len() - i,
    {
        if same_ignoring_case(projections[i].header.as_str(), name) {
            return Some(i);
        }
        i = i + 1;
    }
    None
}

/// The expression that a `GROUP BY` item stands for: a result column by number, a column
/// of the source, or else a result column by name.
pub open spec fn resolved(e: SqlExpr, projections: Seq<Projection>, source: Origin) -> Result<
    SqlExpr,
    Fault,
> {
    match ordinal(e, projections.len() as int) {
        Err(fault) => Err(fault),
        Ok(Some(i)) => Ok(projections[i].expr),
        Ok(None) => match e {
            SqlExpr::Identifier(name) => if name.quoted {
                Err(quoted_fault())
            } else if source.table matches Some(table) && field_index(table.fields, name.value@) is Some {
                Ok(e)
            } else {
                match header_from(projections, name.value@, 0) {
                    Some(k) => Ok(projections[k].expr),
                    None => Ok(e),
                }
            },
            _ => Ok(e),
        },
    }
}

/// The expressions that the items from `i` on stand for, behind those already found.
pub open spec fn resolved_from(
    items: Seq<SqlExpr>,
    i: int,
    found: Seq<SqlExpr>,
    projections: Seq<Projection>,
    source: Origin,
) -> Result<Seq<SqlExpr>, Fault>
    decreases items.len() - i,
{
    if i < 0 || i >= items.len() {
        Ok(found)
    } else {
        match resolved(items[i], projections, source) {
            Err(fault) => Err(fault),
            Ok(e) => resolved_from(items, i + 1, found.push(e), projections, source),
        }
    }
}

/// The expressions behind references.
pub open spec fn targets(list: Seq<&SqlExpr>) -> Seq<SqlExpr> {
    Seq::new(list.len(), |i: int| *list[i])
}

fn resolve_item<'a>(e: &'a SqlExpr, projections: &'a Vec<Projection>, source: &Source<'_>) -> (r: Result<
    &'a SqlExpr,
    Error,
>)
    ensures
        match r {
            Ok(found) => resolved(*e, projections@, source@) == Ok::<SqlExpr, Fault>(*found),
            Err(fault) => resolved(*e, projections@, source@) == Err::<SqlExpr, Fault>(fault@),
        },
{
    if let Some(i) = order_ordinal(e, projections.len())? {
        return Ok(&projections[i].expr);
    }
    match e {
        SqlExpr::Identifier(name) => {
            if name.quoted {
                return Err(quoted_error());
            }
            let in_source = match source.table {
                Some(table) => table.schema().index_of(name.value.as_str()).is_ok(),
                None => false,
            };
            if in_source {
                return Ok(e);
            }
            match find_header(projections, name.value.as_str()) {
                Some(k) => Ok(&projections[k].expr),
                None => Ok(e),
            }
        },
        _ => Ok(e),
    }
}

/// Resolves the items of a `GROUP BY` clause.
pub fn resolve_group_by<'a>(
    items: &'a Vec<SqlExpr>,
    projections: &'a Vec<Projection>,
    source: &Source<'_>,
) -> (r: Result<Vec<&'a SqlExpr>, Error>)
    ensures
        match r {
            Ok(found) => resolved_from(items@, 0, Seq::empty(), projections@, source@) == Ok::<
                Seq<SqlExpr>,
                Fault,
            >(targets(found@)),
            Err(e) => resolved_from(items@, 0, Seq::empty(), projections@, source@) == Err::<
                Seq<SqlExpr>,
                Fault,
            >(e@),
        },
{
    let mut found: Vec<&'a SqlExpr> = Vec::new();
    assert(targets(found@) =~= Seq::<SqlExpr>::empty());
    let mut i: usize = 0;
    while i < items.len()
        invariant
            i <= items.len(),
            resolved_from(items@, 0, Seq::empty(), projections@, source@) == resolved_from(
                items@,
                i as int,
                targets(found@),
                projections@,
                source@,
            ),
        decreases items.len() - i,
    {
        let e = resolve_item(&items[i], projections, source)?;
        let ghost before = targets(found@);
        found.push(e);
        assert(targets(found@) =~= before.push(*e));
        i = i + 1;
    }
    Ok(found)
}

/// The expressions of result columns.
pub open spec fn exprs_of(projections: Seq<Projection>) -> Seq<SqlExpr> {
    Seq::new(projections.len(), |i: int| projections[i].expr)
}

/// Whether the expressions from `i` on refer to known names only.
pub open spec fn all_refer(list: Seq<SqlExpr>, i: int, source: Origin, names: Seq<Seq<char>>) -> Result<
    (),
    Fault,
>
    decreases list.len() - i,
{
    if i < 0 || i >= list.len() {
        Ok(())
    } else {
        match references(list[i], source, names) {
            Err(fault) => Err(fault),
            Ok(()) => all_refer(list, i + 1, source, names),
        }
    }
}

/// Whether an expression that may be absent refers to known names only.
pub open spec fn optional_refers(e: Option<SqlExpr>, source: Origin, names: Seq<Seq<char>>) -> Result<
    (),
    Fault,
> {
    match e {
        Some(e) => references(e, source, names),
        None => Ok(()),
    }
}

/// Whether the sort keys from `i` on name result columns that exist and refer to known
/// names only.
pub open spec fn order_refers(
    order: Seq<OrderKey>,
    i: int,
    columns: int,
    source: Origin,
    names: Seq<Seq<char>>,
) -> Result<(), Fault>
    decreases order.len() - i,
{
    if i < 0 || i >= order.len() {
        Ok(())
    } else {
        match ordinal(order[i].expr, columns) {
            Err(fault) => Err(fault),
            Ok(_) => match references(order[i].expr, source, names) {
                Err(fault) => Err(fault),
                Ok(()) => order_refers(order, i + 1, columns, source, names),
            },
        }
    }
}

/// The types of the expressions from `i` on, behind those already found.
pub open spec fn types_from(
    list: Seq<SqlExpr>,
    i: int,
    found: Seq<Option<DataType>>,
    source: Origin,
    names: Seq<Seq<char>>,
    types: Seq<Option<DataType>>,
    m: FloatModel,
) -> Result<Seq<Option<DataType>>, Fault>
    decreases list.len() - i,
{
    if i < 0 || i >= list.len() {
        Ok(found)
    } else {
        match type_of(list[i], source, names, types, m) {
            Err(fault) => Err(fault),
            Ok(t) => types_from(list, i + 1, found.push(t), source, names, types, m),
        }
    }
}

/// Whether a condition that may be absent has the type of truth values.
pub open spec fn condition_typed(
    e: Option<SqlExpr>,
    clause: Seq<char>,
    source: Origin,
    names: Seq<Seq<char>>,
    types: Seq<Option<DataType>>,
    m: FloatModel,
) -> Result<(), Fault> {
    match e {
        None => Ok(()),
        Some(e) => match type_of(e, source, names, types, m) {
            Err(fault) => Err(fault),
            Ok(t) => expected_type(t, DataType::Bool, clause),
        },
    }
}

/// Whether the expressions from `i` on have one value for each group.
pub open spec fn all_grouped(
    list: Seq<SqlExpr>,
    i: int,
    keys: Seq<Seq<char>>,
    names: Seq<Seq<char>>,
    projections: Seq<Projection>,
) -> Result<(), Fault>
    decreases list.len() - i,
{
    if i < 0 || i >= list.len() {
        Ok(())
    } else {
        match grouped_ok(list[i], keys, names, projections) {
            Err(fault) => Err(fault),
            Ok(()) => all_grouped(list, i + 1, keys, names, projections),
        }
    }
}

/// Whether an expression that may be absent has one value for each group.
pub open spec fn optional_grouped(
    e: Option<SqlExpr>,
    keys: Seq<Seq<char>>,
    names: Seq<Seq<char>>,
    projections: Seq<Projection>,
) -> Result<(), Fault> {
    match e {
        Some(e) => grouped_ok(e, keys, names, projections),
        None => Ok(()),
    }
}

/// The expressions of sort keys.
pub open spec fn order_exprs(order: Seq<OrderKey>) -> Seq<SqlExpr> {
    Seq::new(order.len(), |i: int| order[i].expr)
}

/// Whether any of the expressions from `i` on holds an aggregate.
pub open spec fn any_aggregate(list: Seq<SqlExpr>, i: int) -> bool
    decreases list.len() - i,
{
    0 <= i < list.len() && (holds_aggregate(list[i]) || any_aggregate(list, i + 1))
}

/// The canonical texts of expressions.
pub open spec fn canonical_texts(list: Seq<SqlExpr>) -> Seq<Seq<char>> {
    Seq::new(list.len(), |i: int| canonical(list[i]))
}

fn list_refers(list: &Vec<&SqlExpr>, source: &Source<'_>, names: &Vec<String>) -> (r: Result<
    (),
    Error,
>)
    ensures
        plain(r) == all_refer(targets(list@), 0, source@, names_of(names@)),
{
    let mut i: usize = 0;
    while i < list.len()
        invariant
            i <= list.len(),
            all_refer(targets(list@), 0, source@, names_of(names@)) == all_refer(
                targets(list@),
                i as int,
                source@,
                names_of(names@),
            ),
        decreases list.len() - i,
    {
        validate_expression_references(list[i], source, names)?;
        i = i + 1;
    }
    Ok(())
}

fn maybe_refers(e: &Option<SqlExpr>, source: &Source<'_>, names: &Vec<String>) -> (r: Result<
    (),
    Error,
>)
    ensures
        plain(r) == optional_refers(*e, source@, names_of(names@)),
{
    match e {
        Some(e) => validate_expression_references(e, source, names),
        None => Ok(()),
    }
}

fn sort_keys_refer(order: &Vec<OrderKey>, columns: usize, source: &Source<'_>, names: &Vec<String>) -> (r:
    Result<(), Error>)
    ensures
        plain(r) == order_refers(order@, 0, columns as int, source@, names_of(names@)),
{
    let mut i: usize = 0;
    while i < order.len()
        invariant
            i <= order.len(),
            order_refers(order@, 0, columns as int, source@, names_of(names@)) == order_refers(
                order@,
                i as int,
                columns as int,
                source@,
                names_of(names@),
            ),
        decreases order.len() - i,
    {
        let place = order_ordinal(&order[i].expr, columns)?;
        validate_expression_references(&order[i].expr, source, names)?;
        i = i + 1;
    }
    Ok(())
}

fn list_types<F: Fn(FloatRequest) -> FloatReply>(
    list: &Vec<&SqlExpr>,
    source: &Source<'_>,
    aliases: &AliasTypes,
    f: &F,
) -> (r: Result<Vec<Option<DataType>>, Error>)
    requires
        answers_floats(*f),
        aliases.wf(),
    ensures
        match r {
            Ok(found) => found.len() == list.len() && types_from(
                targets(list@),
                0,
                Seq::empty(),
                source@,
                names_of(aliases.names@),
                aliases.types@,
                float_model(*f),
            ) == Ok::<Seq<Option<DataType>>, Fault>(found@),
            Err(e) => types_from(
                targets(list@),
                0,
                Seq::empty(),
                source@,
                names_of(aliases.names@),
                aliases.types@,
                float_model(*f),
            ) == Err::<Seq<Option<DataType>>, Fault>(e@),
        },
{
    let ghost names = names_of(aliases.names@);
    let ghost types = aliases.types@;
    let ghost m = float_model(*f);
    let mut found: Vec<Option<DataType>> = Vec::new();
    let mut i: usize = 0;
    while i < list.len()
        invariant
            i <= list.len(),
            found.len() == i,
            answers_floats(*f),
            aliases.wf(),
            m == float_model(*f),
            names == names_of(aliases.names@),
            types == aliases.types@,
            types_from(targets(list@), 0, Seq::empty(), source@, names, types, m) == types_from(
                targets(list@),
                i as int,
                found@,
                source@,
                names,
                types,
                m,
            ),
        decreases list.len() - i,
    {
        let t = infer_expression_type(list[i], source, aliases, f)?;
        found.push(t);
        i = i + 1;
    }
    Ok(found)
}

fn check_condition<F: Fn(FloatRequest) -> FloatReply>(
    e: &Option<SqlExpr>,
    clause: &str,
    source: &Source<'_>,
    aliases: &AliasTypes,
    f: &F,
) -> (r: Result<(), Error>)
    requires
        answers_floats(*f),
        aliases.wf(),
    ensures
        plain(r) == condition_typed(
            *e,
            clause@,
            source@,
            names_of(aliases.names@),
            aliases.types@,
            float_model(*f),
        ),
{
    match e {
        None => Ok(()),
        Some(e) => {
            let t = infer_expression_type(e, source, aliases, f)?;
            ensure_type(t, DataType::Bool, clause)
        },
    }
}

fn list_grouped(
    list: &Vec<&SqlExpr>,
    keys: &Vec<String>,
    names: &Vec<String>,
    projections: &Vec<Projection>,
) -> (r: Result<(), Error>)
    requires
        names.len() <= projections.len(),
    ensures
        plain(r) == all_grouped(
            targets(list@),
            0,
            names_of(keys@),
            names_of(names@),
            projections@,
        ),
{
    let mut i: usize = 0;
    while i < list.len()
        invariant
            i <= list.len(),
            names.len() <= projections.len(),
            all_grouped(targets(list@), 0, names_of(keys@), names_of(names@), projections@)
                == all_grouped(
                targets(list@),
                i as int,
                names_of(keys@),
                names_of(names@),
                projections@,
            ),
        decreases list.len() - i,
    {
        validate_grouped_expression(list[i], keys, names, projections)?;
        i = i + 1;
    }
    Ok(())
}

fn list_aggregates(list: &Vec<&SqlExpr>) -> (r: bool)
    ensures
        r == any_aggregate(targets(list@), 0),
{
    let mut i: usize = 0;
    while i < list.len()
        invariant
            i <= list.len(),
            any_aggregate(targets(list@), 0) == any_aggregate(targets(list@), i as int),
        decreases list.len() - i,
    {
        if contains_aggregate(list[i]) {
            return true;
        }
        i = i + 1;
    }
    false
}

fn list_canonical(list: &Vec<&SqlExpr>) -> (texts: Vec<String>)
    ensures
        names_of(texts@) == canonical_texts(targets(list@)),
{
    let mut texts: Vec<String> = Vec::new();
    let mut i: usize = 0;
    while i < list.len()
        invariant
            i <= list.len(),
            texts.len() == i,
            forall|k: int| 0 <= k < i ==> #[trigger] texts[k]@ == canonical(*list[k]),
        decreases list.len() - i,
    {
        texts.push(canonical_expression(list[i]));
        i = i + 1;
    }
    assert(names_of(texts@) =~= canonical_texts(targets(list@)));
    texts
}

fn projected_exprs<'a>(projections: &'a Vec<Projection>) -> (list: Vec<&'a SqlExpr>)
    ensures
        targets(list@) == exprs_of(projections@),
{
    let mut list: Vec<&'a SqlExpr> = Vec::new();
    let mut i: usize = 0;
    while i < projections.len()
        invariant
            i <= projections.len(),
            list.len() == i,
            forall|k: int| 0 <= k < i ==> *(#[trigger] list[k]) == projections[k].expr,
        decreases projections.len() - i,
    {
        list.push(&projections[i].expr);
        i = i + 1;
    }
    assert(targets(list@) =~= exprs_of(projections@));
    list
}

fn sorted_exprs<'a>(order: &'a Vec<OrderKey>) -> (list: Vec<&'a SqlExpr>)
    ensures
        targets(list@) == order_exprs(order@),
{
    let mut list: Vec<&'a SqlExpr> = Vec::new();
    let mut i: usize = 0;
    while i < order.len()
        invariant
            i <= order.len(),
            list.len() == i,
            forall|k: int| 0 <= k < i ==> *(#[trigger] list[k]) == order[k].expr,
        decreases order.len() - i,
    {
        list.push(&order[i].expr);
        i = i + 1;
    }
    assert(targets(list@) =~= order_exprs(order@));
    list
}

/// The number of rows that a `LIMIT` expression allows.
pub open spec fn limit_value(e: SqlExpr, m: FloatModel) -> Result<usize, Fault> {
    match eval(e, row_scope(Origin { table: None, qualifier: None }, None, None), m) {
        Err(fault) => Err(fault),
        Ok(Datum::Int64(i)) if i >= 0 => if i <= usize::MAX {
            Ok(i as usize)
        } else {
            Err(Fault::Constraint("LIMIT is too large: "@ + int_text(i as int)))
        },
        Ok(d) => Err(
            Fault::Constraint(
                "LIMIT must be a non-negative integer, found "@ + datum_text(m, d),
            ),
        ),
    }
}

/// Evaluates an expression that refers to no columns.
pub fn eval_constant<F: Fn(FloatRequest) -> FloatReply>(e: &SqlExpr, f: &F) -> (r: Result<Value, Error>)
    requires
        answers_floats(*f),
    ensures
        outcome(r) == eval(
            *e,
            row_scope(Origin { table: None, qualifier: None }, None, None),
            float_model(*f),
        ),
{
    eval_row_with_memory(e, &Source { table: None, qualifier: None }, None, None, f)
}

/// Evaluates a `LIMIT` expression.
pub fn parse_limit<F: Fn(FloatRequest) -> FloatReply>(e: &SqlExpr, f: &F) -> (r: Result<usize, Error>)
    requires
        answers_floats(*f),
    ensures
        plain(r) == limit_value(*e, float_model(*f)),
{
    let value = eval_constant(e, f)?;
    match &value {
        Value::Int64(i) if *i >= 0 => if *i as u64 <= usize::MAX as u64 {
            Ok(*i as usize)
        } else {
            Err(Error::Constraint(concat2("LIMIT is too large: ", i64_text(*i).as_str())))
        },
        _ => Err(
            Error::Constraint(
                concat2(
                    "LIMIT must be a non-negative integer, found ",
                    value.display(f).as_str(),
                ),
            ),
        ),
    }
}

/// What the checks of a `SELECT` establish.
pub struct Checked {
    /// The types of the result columns.
    pub types: Seq<Option<DataType>>,
    /// Whether rows are evaluated in groups.
    pub grouped: bool,
    /// The largest number of rows in the result.
    pub limit: usize,
}

/// The checks of a `SELECT` on its result columns, grouping expressions, conditions, sort
/// keys and limit.
pub open spec fn select_checks(
    projections: Seq<Projection>,
    keys: Seq<SqlExpr>,
    selection: Option<SqlExpr>,
    having: Option<SqlExpr>,
    order: Seq<OrderKey>,
    limit: Option<SqlExpr>,
    source: Origin,
    m: FloatModel,
) -> Result<Checked, Fault> {
    let names = header_names(projections);
    let none = Seq::<Seq<char>>::empty();
    let untyped = Seq::<Option<DataType>>::empty();
    let list = exprs_of(projections);
    let sorted = order_exprs(order);
    if any_aggregate(keys, 0) {
        Err(Fault::Constraint("aggregate functions are not allowed in GROUP BY"@))
    } else if selection matches Some(e) && holds_aggregate(e) {
        Err(Fault::Constraint("aggregate functions are not allowed in WHERE"@))
    } else {
        match references_check(projections, keys, selection, having, order, source) {
            Err(fault) => Err(fault),
            Ok(()) => match types_from(list, 0, untyped, source, none, untyped, m) {
                Err(fault) => Err(fault),
                Ok(types) => match types_check(
                    keys,
                    selection,
                    having,
                    sorted,
                    source,
                    names,
                    types,
                    m,
                ) {
                    Err(fault) => Err(fault),
                    Ok(()) => {
                        let grouped = is_grouped(projections, keys, having, order);
                        match grouping_check(grouped, projections, keys, having, sorted) {
                            Err(fault) => Err(fault),
                            Ok(()) => match limit {
                                None => Ok(Checked { types, grouped, limit: usize::MAX }),
                                Some(e) => match limit_value(e, m) {
                                    Err(fault) => Err(fault),
                                    Ok(n) => Ok(Checked { types, grouped, limit: n }),
                                },
                            },
                        }
                    },
                },
            },
        }
    }
}

/// Whether all expressions of a `SELECT` refer to known names only.
pub open spec fn references_check(
    projections: Seq<Projection>,
    keys: Seq<SqlExpr>,
    selection: Option<SqlExpr>,
    having: Option<SqlExpr>,
    order: Seq<OrderKey>,
    source: Origin,
) -> Result<(), Fault> {
    let names = header_names(projections);
    let none = Seq::<Seq<char>>::empty();
    match all_refer(exprs_of(projections), 0, source, none) {
        Err(fault) => Err(fault),
        Ok(()) => match optional_refers(selection, source, none) {
            Err(fault) => Err(fault),
            Ok(()) => match all_refer(keys, 0, source, none) {
                Err(fault) => Err(fault),
                Ok(()) => match optional_refers(having, source, names) {
                    Err(fault) => Err(fault),
                    Ok(()) => order_refers(order, 0, projections.len() as int, source, names),
                },
            },
        },
    }
}

/// Whether the conditions, grouping expressions and sort keys of a `SELECT` are well typed.
pub open spec fn types_check(
    keys: Seq<SqlExpr>,
    selection: Option<SqlExpr>,
    having: Option<SqlExpr>,
    sorted: Seq<SqlExpr>,
    source: Origin,
    names: Seq<Seq<char>>,
    types: Seq<Option<DataType>>,
    m: FloatModel,
) -> Result<(), Fault> {
    let none = Seq::<Seq<char>>::empty();
    let untyped = Seq::<Option<DataType>>::empty();
    match condition_typed(selection, "WHERE"@, source, none, untyped, m) {
        Err(fault) => Err(fault),
        Ok(()) => match types_from(keys, 0, untyped, source, none, untyped, m) {
            Err(fault) => Err(fault),
            Ok(_) => match condition_typed(having, "HAVING"@, source, names, types, m) {
                Err(fault) => Err(fault),
                Ok(()) => match types_from(sorted, 0, untyped, source, names, types, m) {
                    Err(fault) => Err(fault),
                    Ok(_) => Ok(()),
                },
            },
        },
    }
}

/// Whether a `SELECT` evaluates its rows in groups.
pub open spec fn is_grouped(
    projections: Seq<Projection>,
    keys: Seq<SqlExpr>,
    having: Option<SqlExpr>,
    order: Seq<OrderKey>,
) -> bool {
    ||| keys.len() > 0
    ||| any_aggregate(exprs_of(projections), 0)
    ||| having is Some
    ||| any_aggregate(order_exprs(order), 0)
}

/// Whether a grouped `SELECT` has one value for each group everywhere.
pub open spec fn grouping_check(
    grouped: bool,
    projections: Seq<Projection>,
    keys: Seq<SqlExpr>,
    having: Option<SqlExpr>,
    sorted: Seq<SqlExpr>,
) -> Result<(), Fault> {
    let texts = canonical_texts(keys);
    let names = header_names(projections);
    if !grouped {
        Ok(())
    } else {
        match all_grouped(exprs_of(projections), 0, texts, Seq::empty(), projections) {
            Err(fault) => Err(fault),
            Ok(()) => match optional_grouped(having, texts, names, projections) {
                Err(fault) => Err(fault),
                Ok(()) => all_grouped(sorted, 0, texts, names, projections),
            },
        }
    }
}

/// Runs the checks of a `SELECT`; the result columns' types, whether it is grouped, and
/// its limit come out.
pub fn check_select<F: Fn(FloatRequest) -> FloatReply>(
    projections: &Vec<Projection>,
    keys: &Vec<&SqlExpr>,
    selection: &Option<SqlExpr>,
    having: &Option<SqlExpr>,
    order: &Vec<OrderKey>,
    limit: &Option<SqlExpr>,
    source: &Source<'_>,
    f: &F,
) -> (r: Result<(AliasTypes, bool, usize), Error>)
    requires
        answers_floats(*f),
    ensures
        match r {
            Ok((aliases, grouped, n)) => {
                &&& select_checks(
                    projections@,
                    targets(keys@),
                    *selection,
                    *having,
                    order@,
                    *limit,
                    source@,
                    float_model(*f),
                ) == Ok::<Checked, Fault>(Checked { types: aliases.types@, grouped, limit: n })
                &&& aliases.wf()
                &&& names_of(aliases.names@) == header_names(projections@)
                &&& aliases.names.len() == projections.len()
            },
            Err(e) => select_checks(
                projections@,
                targets(keys@),
                *selection,
                *having,
                order@,
                *limit,
                source@,
                float_model(*f),
            ) == Err::<Checked, Fault>(e@),
        },
{
    if list_aggregates(keys) {
        return Err(
            Error::Constraint("aggregate functions are not allowed in GROUP BY".to_owned()),
        );
    }
    if let Some(e) = selection {
        if contains_aggregate(e) {
            return Err(
                Error::Constraint("aggregate functions are not allowed in WHERE".to_owned()),
            );
        }
    }
    let names = lower_headers(projections);
    let none: Vec<String> = Vec::new();
    assert(names_of(none@) =~= Seq::<Seq<char>>::empty());
    let list = projected_exprs(projections);
    let sorted = sorted_exprs(order);
    list_refers(&list, source, &none)?;
    maybe_refers(selection, source, &none)?;
    list_refers(keys, source, &none)?;
    maybe_refers(having, source, &names)?;
    sort_keys_refer(order, projections.len(), source, &names)?;
    let untyped = AliasTypes::none();
    let types = list_types(&list, source, &untyped, f)?;
    proof {
        assert(targets(list@).len() == list.len());
    }
    let aliases = AliasTypes { names, types };
    check_condition(selection, "WHERE", source, &untyped, f)?;
    let key_types = list_types(keys, source, &untyped, f)?;
    check_condition(having, "HAVING", source, &aliases, f)?;
    let sort_types = list_types(&sorted, source, &aliases, f)?;
    let grouped = keys.len() > 0 || list_aggregates(&list) || having.is_some() || list_aggregates(
        &sorted,
    );
    if grouped {
        let texts = list_canonical(keys);
        list_grouped(&list, &texts, &none, projections)?;
        if let Some(e) = having {
            validate_grouped_expression(e, &texts, &aliases.names, projections)?;
        }
        list_grouped(&sorted, &texts, &aliases.names, projections)?;
    }
    let n = match limit {
        Some(e) => parse_limit(e, f)?,
        None => usize::MAX,
    };
    Ok((aliases, grouped, n))
}

} // verus!
