//! Scalar types, scalar values and the engine's errors.

use vstd::prelude::*;
use crate::float::{compare_floats, compare_int_float, display_float, float_model, float_order, float_text, int_float_order, is_nan, is_negative, nan, order_key, total_key, answers_floats, FloatModel, FloatReply, FloatRequest, SIGN_BIT};
use crate::text::{bool_order, concat2, concat4, i64_text, int_order, int_text, order_bool, order_i64, order_text, same_text, text_order, Order};

verus! {

/// The type of a column or of an expression.
#[derive(Clone, Copy, Debug, PartialEq, Eq, Structural)]
pub enum DataType {
    Int64,
    Float64,
    Bool,
    String,
}

impl DataType {
    /// The name of the type.
    pub open spec fn text(self) -> Seq<char> {
        match self {
            DataType::Int64 => "Int64"@,
            DataType::Float64 => "Float64"@,
            DataType::Bool => "Bool"@,
            DataType::String => "String"@,
        }
    }

    /// Returns the name of the type.
    pub fn name(self) -> (s: &'static str)
        ensures
            s@ == self.text(),
    {
        match self {
            DataType::Int64 => "Int64",
            DataType::Float64 => "Float64",
            DataType::Bool => "Bool",
            DataType::String => "String",
        }
    }
}

/// A SQL value. A floating-point value is held as its bit pattern.
#[derive(Debug)]
pub enum Value {
    Null,
    Int64(i64),
    Float64(u64),
    Bool(bool),
    String(String),
}

/// The mathematical content of a value.
pub enum Datum {
    Null,
    Int64(i64),
    Float64(u64),
    Bool(bool),
    Text(Seq<char>),
}

impl View for Value {
    type V = Datum;

    open spec fn view(&self) -> Datum {
        match *self {
            Value::Null => Datum::Null,
            Value::Int64(i) => Datum::Int64(i),
            Value::Float64(b) => Datum::Float64(b),
            Value::Bool(b) => Datum::Bool(b),
            Value::String(s) => Datum::Text(s@),
        }
    }
}

impl Clone for Value {
    fn clone(&self) -> (r: Value)
        ensures
            r == *self,
    {
        match self {
            Value::Null => Value::Null,
            Value::Int64(i) => Value::Int64(*i),
            Value::Float64(b) => Value::Float64(*b),
            Value::Bool(b) => Value::Bool(*b),
            Value::String(s) => Value::String(s.clone()),
        }
    }
}

/// Whether two floating-point values are equal: a value that is not a number equals none, and
/// zeros are equal whatever their signs.
pub open spec fn equal_floats(a: u64, b: u64) -> bool {
    float_order(a, b) == Some(Order::Equal)
}

/// Compares two floating-point values for equality.
pub fn same_float(a: u64, b: u64) -> (r: bool)
    ensures
        r == equal_floats(a, b),
{
    matches!(compare_floats(a, b), Some(Order::Equal))
}

/// Whether two values are equal: of one type, and equal there. Unlike in a condition, two NULLs
/// are equal.
pub open spec fn equal_data(a: Datum, b: Datum) -> bool {
    match (a, b) {
        (Datum::Float64(x), Datum::Float64(y)) => equal_floats(x, y),
        _ => a == b,
    }
}

impl PartialEq for Value {
    fn eq(&self, other: &Self) -> (r: bool) {
        match (self, other) {
            (Value::Null, Value::Null) => true,
            (Value::Int64(x), Value::Int64(y)) => *x == *y,
            (Value::Float64(x), Value::Float64(y)) => same_float(*x, *y),
            (Value::Bool(x), Value::Bool(y)) => *x == *y,
            (Value::String(x), Value::String(y)) => same_text(x.as_str(), y.as_str()),
            _ => false,
        }
    }
}

impl vstd::std_specs::cmp::PartialEqSpecImpl for Value {
    open spec fn obeys_eq_spec() -> bool {
        true
    }

    open spec fn eq_spec(&self, other: &Self) -> bool {
        equal_data(self@, other@)
    }
}

/// The contents of a row of values.
pub open spec fn data_of(values: Seq<Value>) -> Seq<Datum> {
    Seq::new(values.len(), |i: int| values[i]@)
}

/// An error of the engine.
#[derive(Debug, Clone, PartialEq, Eq)]
pub enum Error {
    ResourceLimit { resource: &'static str, limit: usize, actual: usize },
    Sql(String),
    Unsupported(String),
    TableExists(String),
    TableNotFound(String),
    ColumnNotFound(String),
    Constraint(String),
    Type(String),
}

/// The mathematical content of an error.
pub enum Fault {
    ResourceLimit { resource: Seq<char>, limit: usize, actual: usize },
    Sql(Seq<char>),
    Unsupported(Seq<char>),
    TableExists(Seq<char>),
    TableNotFound(Seq<char>),
    ColumnNotFound(Seq<char>),
    Constraint(Seq<char>),
    Type(Seq<char>),
}

impl View for Error {
    type V = Fault;

    open spec fn view(&self) -> Fault {
        match *self {
            Error::ResourceLimit { resource, limit, actual } => Fault::ResourceLimit {
                resource: resource@,
                limit,
                actual,
            },
            Error::Sql(s) => Fault::Sql(s@),
            Error::Unsupported(s) => Fault::Unsupported(s@),
            Error::TableExists(s) => Fault::TableExists(s@),
            Error::TableNotFound(s) => Fault::TableNotFound(s@),
            Error::ColumnNotFound(s) => Fault::ColumnNotFound(s@),
            Error::Constraint(s) => Fault::Constraint(s@),
            Error::Type(s) => Fault::Type(s@),
        }
    }
}

/// The content of a result whose value is plain.
pub open spec fn plain<T>(r: Result<T, Error>) -> Result<T, Fault> {
    match r {
        Ok(v) => Ok(v),
        Err(e) => Err(e@),
    }
}

/// The content of a result that holds a value.
pub open spec fn outcome(r: Result<Value, Error>) -> Result<Datum, Fault> {
    match r {
        Ok(v) => Ok(v@),
        Err(e) => Err(e@),
    }
}

/// Whether a datum is NULL.
pub open spec fn is_null(d: Datum) -> bool {
    d is Null
}

/// The name of a datum's type, NULL included.
pub open spec fn datum_type_text(d: Datum) -> Seq<char> {
    match d {
        Datum::Null => "NULL"@,
        Datum::Int64(_) => "Int64"@,
        Datum::Float64(_) => "Float64"@,
        Datum::Bool(_) => "Bool"@,
        Datum::Text(_) => "String"@,
    }
}

/// The type of a datum; NULL has none.
pub open spec fn datum_type(d: Datum) -> Option<DataType> {
    match d {
        Datum::Null => None,
        Datum::Int64(_) => Some(DataType::Int64),
        Datum::Float64(_) => Some(DataType::Float64),
        Datum::Bool(_) => Some(DataType::Bool),
        Datum::Text(_) => Some(DataType::String),
    }
}

/// The truth value of a datum in three-valued logic: `None` is unknown.
pub open spec fn datum_truth(d: Datum) -> Result<Option<bool>, Fault> {
    match d {
        Datum::Null => Ok(None),
        Datum::Bool(b) => Ok(Some(b)),
        _ => Err(Fault::Type("expected Bool, found "@ + datum_type_text(d))),
    }
}

/// The error for values that cannot be compared.
pub open spec fn incomparable(a: Datum, b: Datum) -> Fault {
    Fault::Type("cannot compare "@ + datum_type_text(a) + " and "@ + datum_type_text(b))
}

/// A rank that orders floating-point values: zeros are equal and NaNs lie outside.
pub open spec fn float_rank(bits: u64) -> int {
    if is_nan(bits) {
        total_key(bits)
    } else {
        order_key(bits)
    }
}

/// How an integer ranks beside a floating-point value.
pub open spec fn int_float_rank(i: i64, bits: u64) -> Order {
    match int_float_order(i, bits) {
        Some(order) => order,
        None => if is_negative(bits) { Order::Greater } else { Order::Less },
    }
}

/// The comparison that SQL operators use; NaN compares with nothing.
pub open spec fn datum_compare(a: Datum, b: Datum) -> Result<Order, Fault> {
    let partial = match (a, b) {
        (Datum::Int64(x), Datum::Int64(y)) => Some(int_order(x as int, y as int)),
        (Datum::Int64(x), Datum::Float64(y)) => int_float_order(x, y),
        (Datum::Float64(x), Datum::Int64(y)) => match int_float_order(y, x) {
            Some(order) => Some(order.flipped()),
            None => None,
        },
        (Datum::Float64(x), Datum::Float64(y)) => float_order(x, y),
        (Datum::Bool(x), Datum::Bool(y)) => Some(bool_order(x, y)),
        (Datum::Text(x), Datum::Text(y)) => Some(text_order(x, y)),
        _ => None,
    };
    match partial {
        Some(order) => Ok(order),
        None => Err(incomparable(a, b)),
    }
}

/// The total comparison that sorting and extremes use.
pub open spec fn datum_rank(a: Datum, b: Datum) -> Result<Order, Fault> {
    match (a, b) {
        (Datum::Int64(x), Datum::Int64(y)) => Ok(int_order(x as int, y as int)),
        (Datum::Int64(x), Datum::Float64(y)) => Ok(int_float_rank(x, y)),
        (Datum::Float64(x), Datum::Int64(y)) => Ok(int_float_rank(y, x).flipped()),
        (Datum::Float64(x), Datum::Float64(y)) => Ok(int_order(float_rank(x), float_rank(y))),
        (Datum::Bool(x), Datum::Bool(y)) => Ok(bool_order(x, y)),
        (Datum::Text(x), Datum::Text(y)) => Ok(text_order(x, y)),
        _ => Err(incomparable(a, b)),
    }
}

/// The text that a datum is shown as.
pub open spec fn datum_text(m: FloatModel, d: Datum) -> Seq<char> {
    match d {
        Datum::Null => "NULL"@,
        Datum::Int64(i) => int_text(i as int),
        Datum::Float64(b) => float_text(m, b),
        Datum::Bool(b) => if b { "true"@ } else { "false"@ },
        Datum::Text(s) => s,
    }
}

fn rank_of(bits: u64) -> (r: i128)
    ensures
        r == float_rank(bits),
{
    let m = (bits % SIGN_BIT) as i128;
    if bits >= SIGN_BIT {
        if nan(bits) {
            -m - 1
        } else {
            -m
        }
    } else {
        m
    }
}

fn rank_int_float(i: i64, bits: u64) -> (r: Order)
    ensures
        r == int_float_rank(i, bits),
{
    match compare_int_float(i, bits) {
        Some(order) => order,
        None => if bits >= SIGN_BIT { Order::Greater } else { Order::Less },
    }
}

impl Value {
    /// Whether the value is NULL.
    pub fn is_null(&self) -> (r: bool)
        ensures
            r == is_null(self@),
    {
        matches!(self, Value::Null)
    }

    /// The name of the value's type.
    pub fn kind_name(&self) -> (s: &'static str)
        ensures
            s@ == datum_type_text(self@),
    {
        match self {
            Value::Null => "NULL",
            Value::Int64(_) => "Int64",
            Value::Float64(_) => "Float64",
            Value::Bool(_) => "Bool",
            Value::String(_) => "String",
        }
    }

    /// The type of the value; NULL has none.
    pub fn data_type(&self) -> (t: Option<DataType>)
        ensures
            t == datum_type(self@),
    {
        match self {
            Value::Null => None,
            Value::Int64(_) => Some(DataType::Int64),
            Value::Float64(_) => Some(DataType::Float64),
            Value::Bool(_) => Some(DataType::Bool),
            Value::String(_) => Some(DataType::String),
        }
    }

    /// The truth value in three-valued logic.
    pub fn sql_bool(&self) -> (r: Result<Option<bool>, Error>)
        ensures
            plain(r) == datum_truth(self@),
    {
        match self {
            Value::Null => Ok(None),
            Value::Bool(b) => Ok(Some(*b)),
            _ => Err(Error::Type(concat2("expected Bool, found ", self.kind_name()))),
        }
    }

    fn incomparable(&self, other: &Value) -> (e: Error)
        ensures
            e@ == incomparable(self@, other@),
    {
        Error::Type(concat4("cannot compare ", self.kind_name(), " and ", other.kind_name()))
    }

    /// Compares two values as SQL operators do.
    pub fn sql_order(&self, other: &Value) -> (r: Result<Order, Error>)
        ensures
            plain(r) == datum_compare(self@, other@),
    {
        let partial = match (self, other) {
            (Value::Int64(x), Value::Int64(y)) => Some(order_i64(*x, *y)),
            (Value::Int64(x), Value::Float64(y)) => compare_int_float(*x, *y),
            (Value::Float64(x), Value::Int64(y)) => match compare_int_float(*y, *x) {
                Some(order) => Some(order.reverse()),
                None => None,
            },
            (Value::Float64(x), Value::Float64(y)) => compare_floats(*x, *y),
            (Value::Bool(x), Value::Bool(y)) => Some(order_bool(*x, *y)),
            (Value::String(x), Value::String(y)) => Some(order_text(x.as_str(), y.as_str())),
            _ => None,
        };
        match partial {
            Some(order) => Ok(order),
            None => Err(self.incomparable(other)),
        }
    }

    /// Compares two values of one type in a total order.
    pub fn total_order(&self, other: &Value) -> (r: Result<Order, Error>)
        ensures
            plain(r) == datum_rank(self@, other@),
    {
        match (self, other) {
            (Value::Int64(x), Value::Int64(y)) => Ok(order_i64(*x, *y)),
            (Value::Int64(x), Value::Float64(y)) => Ok(rank_int_float(*x, *y)),
            (Value::Float64(x), Value::Int64(y)) => Ok(rank_int_float(*y, *x).reverse()),
            (Value::Float64(x), Value::Float64(y)) => {
                let (a, b) = (rank_of(*x), rank_of(*y));
                Ok(
                    if a < b {
                        Order::Less
                    } else if a == b {
                        Order::Equal
                    } else {
                        Order::Greater
                    },
                )
            },
            (Value::Bool(x), Value::Bool(y)) => Ok(order_bool(*x, *y)),
            (Value::String(x), Value::String(y)) => Ok(order_text(x.as_str(), y.as_str())),
            _ => Err(self.incomparable(other)),
        }
    }

    /// The text of the value.
    pub fn display<F: Fn(FloatRequest) -> FloatReply>(&self, f: &F) -> (s: String)
        requires
            answers_floats(*f),
        ensures
            s@ == datum_text(float_model(*f), self@),
    {
        match self {
            Value::Null => "NULL".to_owned(),
            Value::Int64(i) => i64_text(*i),
            Value::Float64(b) => display_float(f, *b),
            Value::Bool(b) => if *b { "true".to_owned() } else { "false".to_owned() },
            Value::String(s) => s.clone(),
        }
    }
}

} // verus!
