//! Evaluation of expressions on rows and on groups of rows.

use vstd::prelude::*;
use crate::aggregates::{aggregate_avg, aggregate_extreme, aggregate_sum, avg_datum, contains_value, extreme_datum, key_bytes, key_of, key_value_bytes, sum_datum, value_key};
use crate::ast::{Argument, ArgumentValue, Arguments, BinaryKind, SqlCall, SqlExpr, SqlName, Test};
use crate::binding::{call_distinct, call_name, call_type, find_last, function_parts, infer_function_type, is_aggregate, is_aggregate_name, last_position, named_error, named_fault, names_of, object_name, simple_name, AliasTypes, Origin, Source};
use crate::budget::{check_fits, datum_bytes, fits, sat_add, sat_sum, value_bytes, Budget, INDEX_BYTES, KEY_TABLE_BYTES, LIST_BYTES};
use crate::float::{absolute, answers_floats, float_model, magnitude, FloatModel, FloatReply, FloatRequest};
use crate::grouping_rules::Projection;
use crate::scalar::{binary_datum, case_with_memory, cased_datum, cast_datum, cast_expr_datum, cast_value, eval_binary_with_memory, eval_cast, eval_like, eval_not, eval_unary, is_minimum, like_datum, literal_datum, minimum_int_literal, negated_truth, sql_value_with_memory, unary_datum};
use crate::text::{chars_of, concat2, lower, same_text, to_lower};
use crate::types::{data_of, datum_truth, is_null, outcome, DataType, Datum, Error, Fault, Value};

verus! {

/// What an expression on a group may refer to beside the source.
pub struct Group<'a> {
    /// The rows of the group.
    pub rows: &'a Vec<usize>,
    /// Names of result columns whose values are known.
    pub value_names: &'a Vec<String>,
    pub values: &'a Vec<Value>,
    /// Names of result columns that are evaluated on demand.
    pub lazy_names: &'a Vec<String>,
    pub projections: &'a Vec<Projection>,
    /// The types of the names.
    pub types: &'a AliasTypes,
}

/// What the evaluation of an expression depends on.
pub struct Scope {
    pub source: Origin,
    pub row: Option<usize>,
    pub memory: Option<Budget>,
    /// The rows of the group; `None` where a single row is evaluated.
    pub rows: Option<Seq<usize>>,
    pub value_names: Seq<Seq<char>>,
    pub values: Seq<Datum>,
    pub lazy_names: Seq<Seq<char>>,
    pub projections: Seq<Projection>,
    pub type_names: Seq<Seq<char>>,
    pub types: Seq<Option<DataType>>,
}

/// The scope of a single row.
pub open spec fn row_scope(source: Origin, row: Option<usize>, memory: Option<Budget>) -> Scope {
    Scope {
        source,
        row,
        memory,
        rows: None,
        value_names: Seq::empty(),
        values: Seq::empty(),
        lazy_names: Seq::empty(),
        projections: Seq::empty(),
        type_names: Seq::empty(),
        types: Seq::empty(),
    }
}

impl Scope {
    /// The datum of the column that `name` denotes, which must fit into the allowance.
    pub open spec fn column(self, name: Seq<char>) -> Result<Datum, Fault> {
        match self.source.column(name, name) {
            Err(fault) => Err(fault),
            Ok(i) => match self.row {
                None => Err(Fault::ColumnNotFound(name)),
                Some(r) => {
                    let d = self.source.table->Some_0.rows[r as int][i];
                    match fits(self.memory, datum_bytes(d)) {
                        Err(fault) => Err(fault),
                        Ok(()) => Ok(d),
                    }
                },
            },
        }
    }

    /// The same group without names.
    pub open spec fn bare(self) -> Scope {
        Scope {
            value_names: Seq::empty(),
            values: Seq::empty(),
            lazy_names: Seq::empty(),
            ..self
        }
    }
}

/// What an expression is evaluated on.
pub struct Context<'a> {
    pub source: &'a Source<'a>,
    pub row: Option<usize>,
    pub memory: Option<Budget>,
    pub group: Option<&'a Group<'a>>,
}

impl<'a> Context<'a> {
    /// Whether the rows exist and names have values, expressions and types.
    pub open spec fn wf(&self) -> bool {
        &&& self.source.wf()
        &&& self.source.table matches Some(table) ==> {
            &&& self.row matches Some(r) ==> r < table@.len()
            &&& self.group matches Some(group) ==> forall|i: int|
                0 <= i < group.rows.len() ==> #[trigger] group.rows[i] < table@.len()
        }
        &&& self.group matches Some(group) ==> {
            &&& group.value_names.len() <= group.values.len()
            &&& group.lazy_names.len() <= group.projections.len()
            &&& group.types.wf()
            &&& self.memory is Some
        }
    }

    /// What evaluation in this context depends on.
    pub open spec fn scope(&self) -> Scope {
        match self.group {
            None => row_scope(self.source@, self.row, self.memory),
            Some(group) => Scope {
                source: self.source@,
                row: self.row,
                memory: self.memory,
                rows: Some(group.rows@),
                value_names: names_of(group.value_names@),
                values: data_of(group.values@),
                lazy_names: names_of(group.lazy_names@),
                projections: group.projections@,
                type_names: names_of(group.types.names@),
                types: group.types.types@,
            },
        }
    }

    /// Reads the column that `name` denotes.
    pub fn lookup_column(&self, name: &str) -> (r: Result<Value, Error>)
        requires
            self.wf(),
        ensures
            outcome(r) == self.scope().column(name@),
    {
        let i = self.source.find_column(name, name)?;
        match (self.row, self.source.table) {
            (Some(row), Some(table)) => {
                check_fits(self.memory, table.value_retained_bytes(row, i))?;
                Ok(table.value(row, i))
            },
            _ => Err(Error::ColumnNotFound(name.to_owned())),
        }
    }
}

/// The truth of a one-operand predicate on a datum.
pub open spec fn test_datum(test: Test, d: Datum) -> Result<Datum, Fault> {
    match test {
        Test::Null => Ok(Datum::Bool(is_null(d))),
        Test::NotNull => Ok(Datum::Bool(!is_null(d))),
        _ => match datum_truth(d) {
            Err(fault) => Err(fault),
            Ok(t) => Ok(
                Datum::Bool(
                    match test {
                        Test::True => t == Some(true),
                        Test::False => t == Some(false),
                        Test::NotTrue => t != Some(true),
                        _ => t != Some(false),
                    },
                ),
            ),
        },
    }
}

fn eval_test(test: Test, value: &Value) -> (r: Result<Value, Error>)
    ensures
        outcome(r) == test_datum(test, value@),
{
    match test {
        Test::Null => Ok(Value::Bool(value.is_null())),
        Test::NotNull => Ok(Value::Bool(!value.is_null())),
        _ => {
            let t = value.sql_bool()?;
            let is_true = match t {
                Some(b) => b,
                None => false,
            };
            let is_false = match t {
                Some(b) => !b,
                None => false,
            };
            Ok(
                Value::Bool(
                    match test {
                        Test::True => is_true,
                        Test::False => is_false,
                        Test::NotTrue => !is_true,
                        _ => !is_false,
                    },
                ),
            )
        },
    }
}

/// The datum, negated where `negated` holds.
pub open spec fn negate_if(negated: bool, d: Datum) -> Result<Datum, Fault> {
    if negated {
        negated_truth(d)
    } else {
        Ok(d)
    }
}

fn eval_negate_if(negated: bool, value: Value) -> (r: Result<Value, Error>)
    ensures
        outcome(r) == negate_if(negated, value@),
{
    if negated {
        eval_not(value)
    } else {
        Ok(value)
    }
}

/// The result of a scalar function other than `COALESCE` on evaluated arguments.
pub open spec fn scalar_datum(name: Seq<char>, data: Seq<Datum>, memory: Option<Budget>) -> Result<
    Datum,
    Fault,
> {
    let unknown = Err::<Datum, Fault>(Fault::Unsupported("scalar function "@ + name));
    if data.len() != 1 {
        unknown
    } else if name == "abs"@ {
        match data[0] {
            Datum::Int64(i) => if i == i64::MIN {
                Err(Fault::Type("Int64 absolute-value overflow"@))
            } else {
                Ok(Datum::Int64(if i < 0 { (-i) as i64 } else { i }))
            },
            Datum::Float64(b) => Ok(Datum::Float64(magnitude(b))),
            Datum::Null => Ok(Datum::Null),
            _ => unknown,
        }
    } else if name == "lower"@ || name == "upper"@ {
        match data[0] {
            Datum::Text(s) => cased_datum(s, name != "lower"@, memory),
            Datum::Null => Ok(Datum::Null),
            _ => unknown,
        }
    } else if name == "length"@ {
        match data[0] {
            Datum::Text(s) => Ok(Datum::Int64(s.len() as i64)),
            Datum::Null => Ok(Datum::Null),
            _ => unknown,
        }
    } else {
        unknown
    }
}

fn eval_scalar(name: &str, values: &Vec<Value>, memory: Option<Budget>) -> (r: Result<Value, Error>)
    ensures
        outcome(r) == scalar_datum(name@, data_of(values@), memory),
{
    let unknown = Err(Error::Unsupported(concat2("scalar function ", name)));
    if values.len() != 1 {
        return unknown;
    }
    assert(data_of(values@)[0] == values[0]@);
    if same_text(name, "abs") {
        match &values[0] {
            Value::Int64(i) => if *i == i64::MIN {
                Err(Error::Type("Int64 absolute-value overflow".to_owned()))
            } else {
                Ok(Value::Int64(if *i < 0 { -*i } else { *i }))
            },
            Value::Float64(b) => Ok(Value::Float64(absolute(*b))),
            Value::Null => Ok(Value::Null),
            _ => unknown,
        }
    } else if same_text(name, "lower") || same_text(name, "upper") {
        match &values[0] {
            Value::String(s) => {
                let upper = !same_text(name, "lower");
                case_with_memory(s.as_str(), upper, memory)
            },
            Value::Null => Ok(Value::Null),
            _ => unknown,
        }
    } else if same_text(name, "length") {
        match &values[0] {
            Value::String(s) => Ok(Value::Int64(chars_of(s.as_str()).len() as i64)),
            Value::Null => Ok(Value::Null),
            _ => unknown,
        }
    } else {
        unknown
    }
}

/// The result of an aggregate on the data that its argument takes.
pub open spec fn reduce_datum(m: FloatModel, name: Seq<char>, data: Seq<Datum>, memory: Budget) -> Result<
    Datum,
    Fault,
> {
    if name == "count"@ {
        Ok(Datum::Int64(data.len() as i64))
    } else if name == "sum"@ {
        sum_datum(m, data)
    } else if name == "avg"@ {
        avg_datum(m, data, memory)
    } else {
        extreme_datum(data, name == "max"@, memory)
    }
}

fn eval_reduce<F: Fn(FloatRequest) -> FloatReply>(
    name: &str,
    values: &Vec<Value>,
    memory: Budget,
    f: &F,
) -> (r: Result<Value, Error>)
    requires
        answers_floats(*f),
    ensures
        outcome(r) == reduce_datum(float_model(*f), name@, data_of(values@), memory),
{
    if same_text(name, "count") {
        Ok(Value::Int64(values.len() as i64))
    } else if same_text(name, "sum") {
        aggregate_sum(values, f)
    } else if same_text(name, "avg") {
        aggregate_avg(values, memory, f)
    } else {
        aggregate_extreme(values, same_text(name, "max"), memory)
    }
}

/// The value of an expression in a scope.
pub open spec fn eval(e: SqlExpr, s: Scope, m: FloatModel) -> Result<Datum, Fault>
    decreases s.lazy_names.len(), e, 0nat,
{
    match e {
        SqlExpr::Value(literal) => literal_datum(m, literal, s.memory),
        SqlExpr::Identifier(name) => match last_position(s.value_names, lower(name.value@)) {
            Some(k) => match fits(s.memory, datum_bytes(s.values[k])) {
                Err(fault) => Err(fault),
                Ok(()) => Ok(s.values[k]),
            },
            None => match last_position(s.lazy_names, lower(name.value@)) {
                Some(k) if s.lazy_names.len() > 0 => eval(s.projections[k].expr, s.bare(), m),
                _ => s.column(name.value@),
            },
        },
        SqlExpr::CompoundIdentifier { parts, text, .. } => if parts@.len() != 2 {
            Err(Fault::ColumnNotFound(text@))
        } else {
            match s.source.qualified(parts@[0].value@) {
                Err(fault) => Err(fault),
                Ok(()) => s.column(parts@[1].value@),
            }
        },
        SqlExpr::Nested(expr) => eval(*expr, s, m),
        SqlExpr::Unary { op, expr } => if is_minimum(op, *expr) {
            Ok(Datum::Int64(i64::MIN))
        } else {
            match eval(*expr, s, m) {
                Err(fault) => Err(fault),
                Ok(d) => unary_datum(op, d),
            }
        },
        SqlExpr::Binary { left, op, right } => match eval(*left, s, m) {
            Err(fault) => Err(fault),
            Ok(a) => match eval(*right, s, m) {
                Err(fault) => Err(fault),
                Ok(b) => binary_datum(m, a, op.kind, op.text@, b, s.memory),
            },
        },
        SqlExpr::Is { test, expr } => match eval(*expr, s, m) {
            Err(fault) => Err(fault),
            Ok(d) => test_datum(test, d),
        },
        SqlExpr::Between { expr, negated, low, high } => match eval(*expr, s, m) {
            Err(fault) => Err(fault),
            Ok(d) => match eval(*low, s, m) {
                Err(fault) => Err(fault),
                Ok(a) => match binary_datum(m, d, BinaryKind::GtEq, ">="@, a, s.memory) {
                    Err(fault) => Err(fault),
                    Ok(above) => match eval(*high, s, m) {
                        Err(fault) => Err(fault),
                        Ok(b) => match binary_datum(m, d, BinaryKind::LtEq, "<="@, b, s.memory) {
                            Err(fault) => Err(fault),
                            Ok(below) => match binary_datum(
                                m,
                                above,
                                BinaryKind::And,
                                "AND"@,
                                below,
                                s.memory,
                            ) {
                                Err(fault) => Err(fault),
                                Ok(within) => negate_if(negated, within),
                            },
                        },
                    },
                },
            },
        },
        SqlExpr::InList { expr, list, negated } => match eval(*expr, s, m) {
            Err(fault) => Err(fault),
            Ok(d) => match eval_membership(d, list@, 0, Datum::Bool(false), s, m) {
                Err(fault) => Err(fault),
                Ok(found) => negate_if(negated, found),
            },
        },
        SqlExpr::Like { expr, pattern, matching } => match eval(*expr, s, m) {
            Err(fault) => Err(fault),
            Ok(d) => match eval(*pattern, s, m) {
                Err(fault) => Err(fault),
                Ok(p) => like_datum(d, p, matching),
            },
        },
        SqlExpr::Cast { expr, target } => match eval(*expr, s, m) {
            Err(fault) => Err(fault),
            Ok(d) => cast_expr_datum(m, target, d),
        },
        SqlExpr::Call(call) => eval_call(call, s, m),
        SqlExpr::Other { text, .. } => Err(Fault::Unsupported("expression "@ + text@)),
    }
}

/// Whether a datum is among the expressions from `i` on, in three-valued logic.
pub open spec fn eval_membership(
    needle: Datum,
    list: Seq<SqlExpr>,
    i: int,
    so_far: Datum,
    s: Scope,
    m: FloatModel,
) -> Result<Datum, Fault>
    decreases s.lazy_names.len(), list, list.len() - i,
{
    if i < 0 || i >= list.len() {
        Ok(so_far)
    } else {
        match eval(list[i], s, m) {
            Err(fault) => Err(fault),
            Ok(d) => match binary_datum(m, needle, BinaryKind::Eq, "="@, d, s.memory) {
                Err(fault) => Err(fault),
                Ok(equal) => if equal == Datum::Bool(true) {
                    Ok(equal)
                } else {
                    eval_membership(
                        needle,
                        list,
                        i + 1,
                        if is_null(equal) { Datum::Null } else { so_far },
                        s,
                        m,
                    )
                },
            },
        }
    }
}

/// The value of a function call: an aggregate over the rows of a group, or a scalar
/// function.
pub open spec fn eval_call(call: SqlCall, s: Scope, m: FloatModel) -> Result<Datum, Fault>
    decreases s.lazy_names.len(), call, 1nat,
{
    match s.rows {
        Some(rows) => match simple_name(call.name) {
            Err(fault) => Err(fault),
            Ok(written) => if is_aggregate(lower(written)) {
                eval_aggregate_call(call, rows, s, m)
            } else {
                eval_scalar_call(call, s, m)
            },
        },
        None => eval_scalar_call(call, s, m),
    }
}

/// The value of a scalar function call.
pub open spec fn eval_scalar_call(call: SqlCall, s: Scope, m: FloatModel) -> Result<Datum, Fault>
    decreases s.lazy_names.len(), call, 0nat,
{
    let distinct = call_distinct(call);
    match call_type(call, s.source, s.type_names, s.types, m) {
        Err(fault) => Err(fault),
        Ok(result_type) => match call_name(call) {
            Err(fault) => Err(fault),
            Ok(name) => match call.arguments {
                Arguments::Other { .. } => Err(Fault::Unsupported("arguments to "@ + name)),
                Arguments::List { items, .. } => if distinct {
                    Err(Fault::Unsupported("DISTINCT on scalar function "@ + name))
                } else if name == "coalesce"@ {
                    if items@.len() == 0 {
                        Err(Fault::Constraint("COALESCE expects at least one argument"@))
                    } else {
                        eval_coalesce(items@, 0, result_type, s, m)
                    }
                } else {
                    match eval_arguments(items@, 0, Seq::empty(), name, s, m) {
                        Err(fault) => Err(fault),
                        Ok(data) => scalar_datum(name, data, s.memory),
                    }
                },
            },
        },
    }
}

/// The first value from argument `i` on that is not NULL, cast to the result type.
pub open spec fn eval_coalesce(
    items: Seq<Argument>,
    i: int,
    result_type: Option<DataType>,
    s: Scope,
    m: FloatModel,
) -> Result<Datum, Fault>
    decreases s.lazy_names.len(), items, items.len() - i,
{
    if i < 0 || i >= items.len() {
        Ok(Datum::Null)
    } else if items[i].named is Some {
        Err(named_fault())
    } else {
        match items[i].value {
            ArgumentValue::Expr(e) => match eval(e, s, m) {
                Err(fault) => Err(fault),
                Ok(d) => if !is_null(d) {
                    match result_type {
                        Some(t) => cast_datum(m, d, t),
                        None => Ok(d),
                    }
                } else {
                    eval_coalesce(items, i + 1, result_type, s, m)
                },
            },
            _ => Err(Fault::Unsupported("wildcard argument to coalesce"@)),
        }
    }
}

/// The values of the arguments from `i` on, behind those already evaluated.
pub open spec fn eval_arguments(
    items: Seq<Argument>,
    i: int,
    read: Seq<Datum>,
    name: Seq<char>,
    s: Scope,
    m: FloatModel,
) -> Result<Seq<Datum>, Fault>
    decreases s.lazy_names.len(), items, items.len() - i,
{
    if i < 0 || i >= items.len() {
        Ok(read)
    } else if items[i].named is Some {
        Err(named_fault())
    } else {
        match items[i].value {
            ArgumentValue::Expr(e) => match eval(e, s, m) {
                Err(fault) => Err(fault),
                Ok(d) => eval_arguments(items, i + 1, read.push(d), name, s, m),
            },
            _ => Err(Fault::Unsupported("wildcard argument to "@ + name)),
        }
    }
}

/// The value of an aggregate over the rows of a group.
pub open spec fn eval_aggregate_call(call: SqlCall, rows: Seq<usize>, s: Scope, m: FloatModel) -> Result<
    Datum,
    Fault,
>
    decreases s.lazy_names.len(), call, 0nat,
{
    let distinct = call_distinct(call);
    match call_name(call) {
        Err(fault) => Err(fault),
        Ok(name) => match call.arguments {
            Arguments::Other { .. } => Err(Fault::Unsupported("arguments to "@ + name)),
            Arguments::List { items, .. } => if name == "count"@ && items@.len() == 0 {
                if distinct {
                    Err(Fault::Constraint("COUNT(DISTINCT) requires an expression"@))
                } else {
                    Ok(Datum::Int64(rows.len() as i64))
                }
            } else if items@.len() != 1 {
                Err(Fault::Constraint(name + " expects one argument"@))
            } else if items@[0].named is Some {
                Err(named_fault())
            } else {
                match items@[0].value {
                    ArgumentValue::Expr(e) => match aggregate_start(
                        s.memory->Some_0,
                        distinct,
                    ) {
                        Err(fault) => Err(fault),
                        Ok(started) => match eval_column(
                            e,
                            rows,
                            0,
                            distinct,
                            Seq::empty(),
                            Seq::empty(),
                            started,
                            s.source,
                            m,
                        ) {
                            Err(fault) => Err(fault),
                            Ok((data, used)) => reduce_datum(m, name, data, used),
                        },
                    },
                    _ => if distinct {
                        Err(Fault::Constraint("COUNT(DISTINCT *) is not supported"@))
                    } else if name == "count"@ {
                        Ok(Datum::Int64(rows.len() as i64))
                    } else {
                        Err(Fault::Constraint(name + "(*) is invalid"@))
                    },
                }
            },
        },
    }
}

/// The allowance after setting up the lists that an aggregate fills.
pub open spec fn aggregate_start(memory: Budget, distinct: bool) -> Result<Budget, Fault> {
    match memory.taken(LIST_BYTES) {
        Err(fault) => Err(fault),
        Ok(started) => if distinct {
            started.taken(KEY_TABLE_BYTES)
        } else {
            Ok(started)
        },
    }
}

/// The data other than NULL that an expression takes on the rows from `i` on, each only
/// once if `distinct`, behind the data and keys already found; and the allowance left.
pub open spec fn eval_column(
    e: SqlExpr,
    rows: Seq<usize>,
    i: int,
    distinct: bool,
    data: Seq<Datum>,
    keys: Seq<Datum>,
    memory: Budget,
    source: Origin,
    m: FloatModel,
) -> Result<(Seq<Datum>, Budget), Fault>
    decreases 0nat, e, rows.len() - i + 1,
{
    if i < 0 || i >= rows.len() {
        Ok((data, memory))
    } else {
        match eval(e, row_scope(source, Some(rows[i]), Some(memory)), m) {
            Err(fault) => Err(fault),
            Ok(d) => if is_null(d) || (distinct && keys.contains(key_of(d))) {
                eval_column(e, rows, i + 1, distinct, data, keys, memory, source, m)
            } else {
                let keyed = if distinct {
                    memory.taken(sat_sum(key_bytes(key_of(d)), INDEX_BYTES))
                } else {
                    Ok(memory)
                };
                match keyed {
                    Err(fault) => Err(fault),
                    Ok(keyed) => match keyed.taken(datum_bytes(d)) {
                        Err(fault) => Err(fault),
                        Ok(used) => eval_column(
                            e,
                            rows,
                            i + 1,
                            distinct,
                            data.push(d),
                            if distinct { keys.push(key_of(d)) } else { keys },
                            used,
                            source,
                            m,
                        ),
                    },
                }
            },
        }
    }
}

/// Evaluates an expression.
#[verifier::rlimit(50)]
#[verifier::spinoff_prover]
pub fn eval_in<F: Fn(FloatRequest) -> FloatReply>(e: &SqlExpr, ctx: &Context<'_>, f: &F) -> (r: Result<
    Value,
    Error,
>)
    requires
        ctx.wf(),
        answers_floats(*f),
    ensures
        outcome(r) == eval(*e, ctx.scope(), float_model(*f)),
    decreases ctx.scope().lazy_names.len(), e, 1nat,
{
    match e {
        SqlExpr::Value(literal) => sql_value_with_memory(literal, ctx.memory, f),
        SqlExpr::Identifier(name) => eval_name(name, ctx, f),
        SqlExpr::CompoundIdentifier { parts, text, .. } => {
            if parts.len() != 2 {
                return Err(Error::ColumnNotFound(text.clone()));
            }
            ctx.source.validate_qualifier(parts[0].value.as_str())?;
            ctx.lookup_column(parts[1].value.as_str())
        },
        SqlExpr::Nested(expr) => eval_in(expr, ctx, f),
        SqlExpr::Unary { op, expr } => {
            if minimum_int_literal(op, expr) {
                return Ok(Value::Int64(i64::MIN));
            }
            let value = eval_in(expr, ctx, f)?;
            eval_unary(op, value)
        },
        SqlExpr::Binary { left, op, right } => {
            let a = eval_in(left, ctx, f)?;
            let b = eval_in(right, ctx, f)?;
            eval_binary_with_memory(&a, op.kind, op.text.as_str(), &b, ctx.memory, f)
        },
        SqlExpr::Is { test, expr } => {
            let value = eval_in(expr, ctx, f)?;
            eval_test(*test, &value)
        },
        SqlExpr::Between { expr, negated, low, high } => {
            let value = eval_in(expr, ctx, f)?;
            let a = eval_in(low, ctx, f)?;
            let above = eval_binary_with_memory(&value, BinaryKind::GtEq, ">=", &a, ctx.memory, f)?;
            let b = eval_in(high, ctx, f)?;
            let below = eval_binary_with_memory(&value, BinaryKind::LtEq, "<=", &b, ctx.memory, f)?;
            let within = eval_binary_with_memory(
                &above,
                BinaryKind::And,
                "AND",
                &below,
                ctx.memory,
                f,
            )?;
            eval_negate_if(*negated, within)
        },
        SqlExpr::InList { expr, list, negated } => {
            let value = eval_in(expr, ctx, f)?;
            let found = eval_in_list(&value, list, ctx, f)?;
            eval_negate_if(*negated, found)
        },
        SqlExpr::Like { expr, pattern, matching } => {
            let value = eval_in(expr, ctx, f)?;
            let pattern = eval_in(pattern, ctx, f)?;
            eval_like(&value, &pattern, matching)
        },
        SqlExpr::Cast { expr, target } => {
            let value = eval_in(expr, ctx, f)?;
            eval_cast(target, value, f)
        },
        SqlExpr::Call(call) => eval_function(call, ctx, f),
        SqlExpr::Other { text, .. } => Err(
            Error::Unsupported(concat2("expression ", text.as_str())),
        ),
    }
}

/// Evaluates a name: a known value, a result column, or a column of the source.
fn eval_name<F: Fn(FloatRequest) -> FloatReply>(name: &SqlName, ctx: &Context<'_>, f: &F) -> (r: Result<
    Value,
    Error,
>)
    requires
        ctx.wf(),
        answers_floats(*f),
    ensures
        outcome(r) == eval(SqlExpr::Identifier(*name), ctx.scope(), float_model(*f)),
    decreases ctx.scope().lazy_names.len(), SqlExpr::Identifier(*name), 0nat,
{
    if let Some(group) = ctx.group {
        let key = to_lower(name.value.as_str());
        if let Some(k) = find_last(group.value_names, key.as_str()) {
            check_fits(ctx.memory, value_bytes(&group.values[k]))?;
            return Ok(group.values[k].clone());
        }
        if let Some(k) = find_last(group.lazy_names, key.as_str()) {
            let no_names: Vec<String> = Vec::new();
            let no_values: Vec<Value> = Vec::new();
            let bare = Group {
                rows: group.rows,
                value_names: &no_names,
                values: &no_values,
                lazy_names: &no_names,
                projections: group.projections,
                types: group.types,
            };
            let inner = Context {
                source: ctx.source,
                row: ctx.row,
                memory: ctx.memory,
                group: Some(&bare),
            };
            proof {
                assert(names_of(no_names@) =~= Seq::<Seq<char>>::empty());
                assert(data_of(no_values@) =~= Seq::<Datum>::empty());
                assert(inner.scope() == ctx.scope().bare());
            }
            return eval_in(&group.projections[k].expr, &inner, f);
        }
    }
    ctx.lookup_column(name.value.as_str())
}

/// Evaluates whether a value is among the expressions of a list.
#[verifier::loop_isolation(false)]
fn eval_in_list<F: Fn(FloatRequest) -> FloatReply>(
    needle: &Value,
    list: &Vec<SqlExpr>,
    ctx: &Context<'_>,
    f: &F,
) -> (r: Result<Value, Error>)
    requires
        ctx.wf(),
        answers_floats(*f),
    ensures
        outcome(r) == eval_membership(
            needle@,
            list@,
            0,
            Datum::Bool(false),
            ctx.scope(),
            float_model(*f),
        ),
    decreases ctx.scope().lazy_names.len(), list, 0nat,
{
    let mut unknown = false;
    let mut i: usize = 0;
    while i < list.len()
        invariant
            i <= list.len(),
            eval_membership(
                needle@,
                list@,
                0,
                Datum::Bool(false),
                ctx.scope(),
                float_model(*f),
            ) == eval_membership(
                needle@,
                list@,
                i as int,
                if unknown { Datum::Null } else { Datum::Bool(false) },
                ctx.scope(),
                float_model(*f),
            ),
        decreases list.len() - i,
    {
        let value = eval_in(&list[i], ctx, f)?;
        let equal = eval_binary_with_memory(needle, BinaryKind::Eq, "=", &value, ctx.memory, f)?;
        match equal {
            Value::Bool(true) => return Ok(Value::Bool(true)),
            Value::Null => unknown = true,
            _ => {},
        }
        i = i + 1;
    }
    if unknown {
        Ok(Value::Null)
    } else {
        Ok(Value::Bool(false))
    }
}

/// Evaluates a function call.
fn eval_function<F: Fn(FloatRequest) -> FloatReply>(call: &SqlCall, ctx: &Context<'_>, f: &F) -> (r:
    Result<Value, Error>)
    requires
        ctx.wf(),
        answers_floats(*f),
    ensures
        outcome(r) == eval_call(*call, ctx.scope(), float_model(*f)),
    decreases ctx.scope().lazy_names.len(), call, 1nat,
{
    match ctx.group {
        Some(group) => {
            let name = to_lower(object_name(&call.name)?.as_str());
            if is_aggregate_name(name.as_str()) {
                eval_aggregate(call, ctx, group, f)
            } else {
                let result_type = infer_function_type(call, ctx.source, group.types, f)?;
                eval_scalar_function(call, result_type, ctx, f)
            }
        },
        None => {
            let none = AliasTypes::none();
            let result_type = infer_function_type(call, ctx.source, &none, f)?;
            eval_scalar_function(call, result_type, ctx, f)
        },
    }
}

/// Evaluates a scalar function call whose result type is known.
#[verifier::loop_isolation(false)]
fn eval_scalar_function<F: Fn(FloatRequest) -> FloatReply>(
    call: &SqlCall,
    result_type: Option<DataType>,
    ctx: &Context<'_>,
    f: &F,
) -> (r: Result<Value, Error>)
    requires
        ctx.wf(),
        answers_floats(*f),
        call_type(*call, ctx.scope().source, ctx.scope().type_names, ctx.scope().types, float_model(*f))
            == Ok::<Option<DataType>, Fault>(result_type),
    ensures
        outcome(r) == eval_scalar_call(*call, ctx.scope(), float_model(*f)),
    decreases ctx.scope().lazy_names.len(), call, 0nat,
{
    let ghost s = ctx.scope();
    let ghost m = float_model(*f);
    let (name, items, distinct) = function_parts(call)?;
    if distinct {
        return Err(Error::Unsupported(concat2("DISTINCT on scalar function ", name.as_str())));
    }
    if same_text(name.as_str(), "coalesce") {
        if items.len() == 0 {
            return Err(Error::Constraint("COALESCE expects at least one argument".to_owned()));
        }
        let mut i: usize = 0;
        while i < items.len()
            invariant
                i <= items.len(),
                eval_coalesce(items@, 0, result_type, s, m) == eval_coalesce(
                    items@,
                    i as int,
                    result_type,
                    s,
                    m,
                ),
            decreases items.len() - i,
        {
            if items[i].named.is_some() {
                return Err(named_error());
            }
            match &items[i].value {
                ArgumentValue::Expr(e) => {
                    let value = eval_in(e, ctx, f)?;
                    if !value.is_null() {
                        return match result_type {
                            Some(t) => cast_value(value, t, f),
                            None => Ok(value),
                        };
                    }
                },
                _ => return Err(Error::Unsupported("wildcard argument to coalesce".to_owned())),
            }
            i = i + 1;
        }
        return Ok(Value::Null);
    }
    let mut values: Vec<Value> = Vec::new();
    assert(data_of(values@) =~= Seq::<Datum>::empty());
    let mut i: usize = 0;
    while i < items.len()
        invariant
            i <= items.len(),
            eval_arguments(items@, 0, Seq::empty(), name@, s, m) == eval_arguments(
                items@,
                i as int,
                data_of(values@),
                name@,
                s,
                m,
            ),
        decreases items.len() - i,
    {
        if items[i].named.is_some() {
            return Err(named_error());
        }
        match &items[i].value {
            ArgumentValue::Expr(e) => {
                let value = eval_in(e, ctx, f)?;
                let ghost before = data_of(values@);
                values.push(value);
                assert(data_of(values@) =~= before.push(value@));
            },
            _ => return Err(
                Error::Unsupported(concat2("wildcard argument to ", name.as_str())),
            ),
        }
        i = i + 1;
    }
    eval_scalar(name.as_str(), &values, ctx.memory)
}

/// Evaluates an aggregate over the rows of a group.
#[verifier::loop_isolation(false)]
pub fn eval_aggregate<F: Fn(FloatRequest) -> FloatReply>(
    call: &SqlCall,
    ctx: &Context<'_>,
    group: &Group<'_>,
    f: &F,
) -> (r: Result<Value, Error>)
    requires
        ctx.wf(),
        ctx.group == Some(group),
        answers_floats(*f),
    ensures
        outcome(r) == eval_aggregate_call(*call, group.rows@, ctx.scope(), float_model(*f)),
    decreases ctx.scope().lazy_names.len(), call, 0nat,
{
    let ghost m = float_model(*f);
    let (name, items, distinct) = function_parts(call)?;
    let rows = group.rows;
    if same_text(name.as_str(), "count") && items.len() == 0 {
        if distinct {
            return Err(Error::Constraint("COUNT(DISTINCT) requires an expression".to_owned()));
        }
        return Ok(Value::Int64(rows.len() as i64));
    }
    if items.len() != 1 {
        return Err(Error::Constraint(concat2(name.as_str(), " expects one argument")));
    }
    if items[0].named.is_some() {
        return Err(named_error());
    }
    match (&items[0].value, ctx.memory) {
        (ArgumentValue::Expr(e), Some(memory)) => {
            let mut used = memory.reserve(LIST_BYTES)?;
            if distinct {
                used = used.reserve(KEY_TABLE_BYTES)?;
            }
            let ghost started = used;
            let mut values: Vec<Value> = Vec::new();
            let mut keys: Vec<Value> = Vec::new();
            assert(data_of(values@) =~= Seq::<Datum>::empty());
            assert(data_of(keys@) =~= Seq::<Datum>::empty());
            let mut i: usize = 0;
            while i < rows.len()
                invariant
                    i <= rows.len(),
                    eval_column(
                        *e,
                        rows@,
                        0,
                        distinct,
                        Seq::empty(),
                        Seq::empty(),
                        started,
                        ctx.source@,
                        m,
                    ) == eval_column(
                        *e,
                        rows@,
                        i as int,
                        distinct,
                        data_of(values@),
                        data_of(keys@),
                        used,
                        ctx.source@,
                        m,
                    ),
                decreases rows.len() - i,
            {
                assert(group.rows[i as int] == rows[i as int]);
                let single = Context {
                    source: ctx.source,
                    row: Some(rows[i]),
                    memory: Some(used),
                    group: None,
                };
                let value = eval_in(e, &single, f)?;
                if value.is_null() {
                    i = i + 1;
                    continue ;
                }
                if distinct {
                    let key = value_key(&value);
                    if contains_value(&keys, &key) {
                        i = i + 1;
                        continue ;
                    }
                    used = used.reserve(sat_add(key_value_bytes(&key), INDEX_BYTES))?;
                    let ghost before = data_of(keys@);
                    keys.push(key);
                    assert(data_of(keys@) =~= before.push(key@));
                }
                used = used.reserve(value_bytes(&value))?;
                let ghost before = data_of(values@);
                values.push(value);
                assert(data_of(values@) =~= before.push(value@));
                i = i + 1;
            }
            eval_reduce(name.as_str(), &values, used, f)
        },
        _ => {
            if distinct {
                return Err(Error::Constraint("COUNT(DISTINCT *) is not supported".to_owned()));
            }
            if same_text(name.as_str(), "count") {
                Ok(Value::Int64(rows.len() as i64))
            } else {
                Err(Error::Constraint(concat2(name.as_str(), "(*) is invalid")))
            }
        },
    }
}

/// Evaluates an expression on one row of the source, or on no row.
pub fn eval_row_with_memory<F: Fn(FloatRequest) -> FloatReply>(
    e: &SqlExpr,
    source: &Source<'_>,
    row: Option<usize>,
    memory: Option<Budget>,
    f: &F,
) -> (r: Result<Value, Error>)
    requires
        source.wf(),
        source.table matches Some(table) ==> row matches Some(i) ==> i < table@.len(),
        answers_floats(*f),
    ensures
        outcome(r) == eval(*e, row_scope(source@, row, memory), float_model(*f)),
{
    eval_in(e, &Context { source, row, memory, group: None }, f)
}

/// The scope of a group of rows: columns are read from its first row.
pub open spec fn group_scope(
    source: Origin,
    rows: Seq<usize>,
    value_names: Seq<Seq<char>>,
    values: Seq<Datum>,
    lazy_names: Seq<Seq<char>>,
    projections: Seq<Projection>,
    type_names: Seq<Seq<char>>,
    types: Seq<Option<DataType>>,
    memory: Budget,
) -> Scope {
    Scope {
        source,
        row: if rows.len() == 0 { None } else { Some(rows[0]) },
        memory: Some(memory),
        rows: Some(rows),
        value_names,
        values,
        lazy_names,
        projections,
        type_names,
        types,
    }
}

/// Evaluates an expression on a group of rows.
pub fn eval_group<F: Fn(FloatRequest) -> FloatReply>(
    e: &SqlExpr,
    source: &Source<'_>,
    group: &Group<'_>,
    memory: Budget,
    f: &F,
) -> (r: Result<Value, Error>)
    requires
        source.wf(),
        source.table matches Some(table) ==> forall|i: int|
            0 <= i < group.rows.len() ==> #[trigger] group.rows[i] < table@.len(),
        group.value_names.len() <= group.values.len(),
        group.lazy_names.len() <= group.projections.len(),
        group.types.wf(),
        answers_floats(*f),
    ensures
        outcome(r) == eval(
            *e,
            group_scope(
                source@,
                group.rows@,
                names_of(group.value_names@),
                data_of(group.values@),
                names_of(group.lazy_names@),
                group.projections@,
                names_of(group.types.names@),
                group.types.types@,
                memory,
            ),
            float_model(*f),
        ),
{
    let row = if group.rows.len() == 0 {
        None
    } else {
        Some(group.rows[0])
    };
    eval_in(e, &Context { source, row, memory: Some(memory), group: Some(group) }, f)
}

} // verus!
