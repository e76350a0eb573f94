//! Name resolution and static typing of expressions.

use vstd::prelude::*;
use crate::ast::{Argument, ArgumentValue, Arguments, BinaryKind, SqlCall, SqlExpr, SqlName, SqlPath, SqlUnary, Test, Treatment, UnaryKind};
use crate::storage::{field_index, Table, TableData};
use crate::text::{concat2, concat3, concat4, lower, same_text, to_lower};
use crate::types::{datum_type, plain, DataType, Error, Fault};
use crate::float::{answers_floats, float_model, FloatModel, FloatReply, FloatRequest};
use crate::scalar::{is_minimum, literal_datum, minimum_int_literal, parse_data_type, parsed_data_type, sql_value_with_memory};

verus! {

/// What an expression may refer to: a table and the name that qualifies its columns.
pub struct Source<'a> {
    pub table: Option<&'a Table>,
    pub qualifier: Option<String>,
}

/// The mathematical content of a source.
pub struct Origin {
    pub table: Option<TableData>,
    pub qualifier: Option<Seq<char>>,
}

impl<'a> View for Source<'a> {
    type V = Origin;

    open spec fn view(&self) -> Origin {
        Origin {
            table: match self.table {
                Some(table) => Some(table.data()),
                None => None,
            },
            qualifier: match self.qualifier {
                Some(qualifier) => Some(qualifier@),
                None => None,
            },
        }
    }
}

impl Origin {
    /// The error for a qualifier that names nothing.
    pub open spec fn unknown_qualifier(qualifier: Seq<char>) -> Fault {
        Fault::ColumnNotFound(qualifier + ".*"@)
    }

    /// Whether `qualifier` names the source, case aside.
    pub open spec fn qualified(self, qualifier: Seq<char>) -> Result<(), Fault> {
        match self.qualifier {
            Some(expected) if expected == lower(qualifier) => Ok(()),
            _ => Err(Origin::unknown_qualifier(qualifier)),
        }
    }

    /// The column that `name` denotes; `shown` is the name in the error without a table.
    pub open spec fn column(self, name: Seq<char>, shown: Seq<char>) -> Result<int, Fault> {
        match self.table {
            None => Err(Fault::ColumnNotFound(shown)),
            Some(table) => match field_index(table.fields, name) {
                Some(i) => Ok(i),
                None => Err(Fault::ColumnNotFound(name)),
            },
        }
    }

    /// The type of the column that `name` denotes.
    pub open spec fn column_type(self, name: Seq<char>, shown: Seq<char>) -> Result<
        Option<DataType>,
        Fault,
    > {
        match self.column(name, shown) {
            Ok(i) => Ok(Some(self.table->Some_0.fields[i].data_type)),
            Err(fault) => Err(fault),
        }
    }
}

impl<'a> Source<'a> {
    /// Whether the table, if there is one, is well formed.
    pub open spec fn wf(&self) -> bool {
        self.table matches Some(table) ==> table.wf()
    }

    /// Checks that `qualifier` names the source, case aside.
    pub fn validate_qualifier(&self, qualifier: &str) -> (r: Result<(), Error>)
        ensures
            plain(r) == self@.qualified(qualifier@),
    {
        if let Some(expected) = &self.qualifier {
            let key = to_lower(qualifier);
            if same_text(expected.as_str(), key.as_str()) {
                return Ok(());
            }
        }
        Err(Error::ColumnNotFound(concat2(qualifier, ".*")))
    }

    /// Finds the column that `name` denotes.
    pub fn find_column(&self, name: &str, shown: &str) -> (r: Result<usize, Error>)
        ensures
            match r {
                Ok(i) => {
                    &&& self@.column(name@, shown@) == Ok::<int, Fault>(i as int)
                    &&& self.table is Some
                    &&& i < self.table->Some_0.fields().len()
                },
                Err(e) => self@.column(name@, shown@) == Err::<int, Fault>(e@),
            },
    {
        match self.table {
            None => Err(Error::ColumnNotFound(shown.to_owned())),
            Some(table) => table.schema().index_of(name),
        }
    }

    /// Finds the type of the column that `name` denotes.
    pub fn find_column_type(&self, name: &str, shown: &str) -> (r: Result<Option<DataType>, Error>)
        ensures
            plain(r) == self@.column_type(name@, shown@),
    {
        let i = self.find_column(name, shown)?;
        match self.table {
            Some(table) => Ok(Some(table.schema().fields()[i].data_type)),
            None => Err(Error::ColumnNotFound(shown.to_owned())),
        }
    }
}

/// The error for an identifier in quotes.
pub open spec fn quoted_fault() -> Fault {
    Fault::Unsupported("quoted identifiers"@)
}

/// The error value for an identifier in quotes.
pub fn quoted_error() -> (e: Error)
    ensures
        e@ == quoted_fault(),
{
    Error::Unsupported("quoted identifiers".to_owned())
}

/// Whether a name at or after `i` is in quotes.
pub open spec fn any_quoted(parts: Seq<SqlName>, i: int) -> bool
    decreases parts.len() - i,
{
    0 <= i < parts.len() && (parts[i].quoted || any_quoted(parts, i + 1))
}

/// Decides whether one of the names is in quotes.
pub fn has_quoted(parts: &Vec<SqlName>) -> (r: bool)
    ensures
        r == any_quoted(parts@, 0),
{
    let mut i: usize = 0;
    while i < parts.len()
        invariant
            i <= parts.len(),
            any_quoted(parts@, 0) == any_quoted(parts@, i as int),
        decreases parts.len() - i,
    {
        if parts[i].quoted {
            return true;
        }
        i += 1;
    }
    false
}

/// The single name that a path consists of.
pub open spec fn simple_name(path: SqlPath) -> Result<Seq<char>, Fault> {
    if any_quoted(path.parts@, 0) {
        Err(quoted_fault())
    } else if path.parts@.len() != 1 {
        Err(Fault::Unsupported("qualified object name "@ + path.text@))
    } else {
        Ok(path.parts@[0].value@)
    }
}

/// The content of a result that holds text.
pub open spec fn text_outcome(r: Result<String, Error>) -> Result<Seq<char>, Fault> {
    match r {
        Ok(s) => Ok(s@),
        Err(e) => Err(e@),
    }
}

/// Reads the single, unquoted name of a path.
pub fn object_name(path: &SqlPath) -> (r: Result<String, Error>)
    ensures
        text_outcome(r) == simple_name(*path),
{
    if has_quoted(&path.parts) {
        return Err(quoted_error());
    }
    if path.parts.len() != 1 {
        return Err(Error::Unsupported(concat2("qualified object name ", path.text.as_str())));
    }
    Ok(path.parts[0].value.clone())
}

/// The names of the aggregate functions.
pub open spec fn is_aggregate(name: Seq<char>) -> bool {
    name == "count"@ || name == "sum"@ || name == "min"@ || name == "max"@ || name == "avg"@
}

/// Decides whether `name` is an aggregate function.
pub fn is_aggregate_name(name: &str) -> (r: bool)
    ensures
        r == is_aggregate(name@),
{
    same_text(name, "count") || same_text(name, "sum") || same_text(name, "min") || same_text(
        name,
        "max",
    ) || same_text(name, "avg")
}

/// Whether a clause follows the call.
pub open spec fn call_modified(call: SqlCall) -> bool {
    call.over || call.filter || call.null_treatment || call.within_group > 0
}

/// The lower-case name of a call whose clauses and argument form are supported.
pub open spec fn call_name(call: SqlCall) -> Result<Seq<char>, Fault> {
    match simple_name(call.name) {
        Err(fault) => Err(fault),
        Ok(written) => {
            let name = lower(written);
            if call_modified(call) {
                Err(Fault::Unsupported("function modifiers on "@ + name))
            } else {
                match call.arguments {
                    Arguments::Other { .. } => Err(Fault::Unsupported("arguments to "@ + name)),
                    Arguments::List { clauses, .. } => if clauses > 0 {
                        Err(Fault::Unsupported("argument clauses on "@ + name))
                    } else {
                        Ok(name)
                    },
                }
            }
        },
    }
}

/// The arguments of a call.
pub open spec fn call_items(call: SqlCall) -> Seq<Argument> {
    match call.arguments {
        Arguments::List { items, .. } => items@,
        Arguments::Other { .. } => Seq::empty(),
    }
}

/// Whether the call is over distinct arguments.
pub open spec fn call_distinct(call: SqlCall) -> bool {
    match call.arguments {
        Arguments::List { treatment, .. } => treatment == Some(Treatment::Distinct),
        Arguments::Other { .. } => false,
    }
}

/// Reads the name, the arguments and the distinctness of a supported call.
pub fn function_parts(call: &SqlCall) -> (r: Result<(String, &Vec<Argument>, bool), Error>)
    ensures
        match r {
            Ok((name, items, distinct)) => {
                &&& call_name(*call) == Ok::<Seq<char>, Fault>(name@)
                &&& call.arguments matches Arguments::List { items: list, .. }
                &&& *items == list
                &&& items@ == call_items(*call)
                &&& distinct == call_distinct(*call)
            },
            Err(e) => call_name(*call) == Err::<Seq<char>, Fault>(e@),
        },
{
    let written = object_name(&call.name)?;
    let name = to_lower(written.as_str());
    if call.over || call.filter || call.null_treatment || call.within_group > 0 {
        return Err(Error::Unsupported(concat2("function modifiers on ", name.as_str())));
    }
    match &call.arguments {
        Arguments::Other { .. } => Err(Error::Unsupported(concat2("arguments to ", name.as_str()))),
        Arguments::List { items, treatment, clauses } => {
            if *clauses > 0 {
                Err(Error::Unsupported(concat2("argument clauses on ", name.as_str())))
            } else {
                let distinct = match treatment {
                    Some(Treatment::Distinct) => true,
                    _ => false,
                };
                Ok((name, items, distinct))
            }
        },
    }
}

/// The error for a named argument.
pub open spec fn named_fault() -> Fault {
    Fault::Unsupported("named function argument"@)
}

/// The error value for a named argument.
pub fn named_error() -> (e: Error)
    ensures
        e@ == named_fault(),
{
    Error::Unsupported("named function argument".to_owned())
}

/// Whether all references of an expression resolve; `aliases` may be referred to by name.
pub open spec fn references(e: SqlExpr, source: Origin, aliases: Seq<Seq<char>>) -> Result<(), Fault>
    decreases e, 0nat,
{
    match e {
        SqlExpr::Identifier(name) => if name.quoted {
            Err(quoted_fault())
        } else if aliases.contains(lower(name.value@)) {
            Ok(())
        } else {
            match source.column(name.value@, name.value@) {
                Ok(_) => Ok(()),
                Err(fault) => Err(fault),
            }
        },
        SqlExpr::CompoundIdentifier { parts, text, .. } => if any_quoted(parts@, 0) {
            Err(quoted_fault())
        } else if parts@.len() != 2 {
            Err(Fault::ColumnNotFound(text@))
        } else {
            match source.qualified(parts@[0].value@) {
                Err(fault) => Err(fault),
                Ok(()) => match source.column(parts@[1].value@, text@) {
                    Ok(_) => Ok(()),
                    Err(fault) => Err(fault),
                },
            }
        },
        SqlExpr::Value(_) => Ok(()),
        SqlExpr::Unary { expr, .. } => references(*expr, source, aliases),
        SqlExpr::Nested(expr) => references(*expr, source, aliases),
        SqlExpr::Is { expr, .. } => references(*expr, source, aliases),
        SqlExpr::Cast { expr, .. } => references(*expr, source, aliases),
        SqlExpr::Binary { left, right, .. } => match references(*left, source, aliases) {
            Err(fault) => Err(fault),
            Ok(()) => references(*right, source, aliases),
        },
        SqlExpr::Between { expr, low, high, .. } => match references(*expr, source, aliases) {
            Err(fault) => Err(fault),
            Ok(()) => match references(*low, source, aliases) {
                Err(fault) => Err(fault),
                Ok(()) => references(*high, source, aliases),
            },
        },
        SqlExpr::InList { expr, list, .. } => match references(*expr, source, aliases) {
            Err(fault) => Err(fault),
            Ok(()) => list_references(list@, 0, source, aliases),
        },
        SqlExpr::Like { expr, pattern, .. } => match references(*expr, source, aliases) {
            Err(fault) => Err(fault),
            Ok(()) => references(*pattern, source, aliases),
        },
        SqlExpr::Call(call) => match call_name(call) {
            Err(fault) => Err(fault),
            Ok(_) => match call.arguments {
                Arguments::List { items, .. } => argument_references(items@, 0, source, aliases),
                Arguments::Other { .. } => Ok(()),
            },
        },
        SqlExpr::Other { .. } => Ok(()),
    }
}

/// Whether the references of the expressions from `i` on resolve.
pub open spec fn list_references(
    list: Seq<SqlExpr>,
    i: int,
    source: Origin,
    aliases: Seq<Seq<char>>,
) -> Result<(), Fault>
    decreases list, list.len() - i,
{
    if i < 0 || i >= list.len() {
        Ok(())
    } else {
        match references(list[i], source, aliases) {
            Err(fault) => Err(fault),
            Ok(()) => list_references(list, i + 1, source, aliases),
        }
    }
}

/// Whether the references of the arguments from `i` on resolve.
pub open spec fn argument_references(
    items: Seq<Argument>,
    i: int,
    source: Origin,
    aliases: Seq<Seq<char>>,
) -> Result<(), Fault>
    decreases items, items.len() - i,
{
    if i < 0 || i >= items.len() {
        Ok(())
    } else if items[i].named is Some {
        Err(named_fault())
    } else {
        let one = match items[i].value {
            ArgumentValue::Expr(e) => references(e, source, aliases),
            ArgumentValue::QualifiedWildcard(path) => match simple_name(path) {
                Err(fault) => Err(fault),
                Ok(qualifier) => source.qualified(qualifier),
            },
            ArgumentValue::Wildcard => Ok(()),
        };
        match one {
            Err(fault) => Err(fault),
            Ok(()) => argument_references(items, i + 1, source, aliases),
        }
    }
}

/// The names in a list of strings.
pub open spec fn names_of(names: Seq<String>) -> Seq<Seq<char>> {
    Seq::new(names.len(), |i: int| names[i]@)
}

/// Decides whether a list of names holds `name`.
pub fn names_contain(names: &Vec<String>, name: &str) -> (r: bool)
    ensures
        r == names_of(names@).contains(name@),
{
    let mut i: usize = 0;
    while i < names.len()
        invariant
            i <= names.len(),
            forall|j: int| 0 <= j < i ==> names_of(names@)[j] != name@,
        decreases names.len() - i,
    {
        if same_text(names[i].as_str(), name) {
            assert(names_of(names@)[i as int] == name@);
            return true;
        }
        i += 1;
    }
    false
}

/// Checks that all references of an expression resolve.
#[verifier::loop_isolation(false)]
pub fn validate_expression_references(
    e: &SqlExpr,
    source: &Source<'_>,
    aliases: &Vec<String>,
) -> (r: Result<(), Error>)
    ensures
        plain(r) == references(*e, source@, names_of(aliases@)),
    decreases *e, 0nat,
{
    match e {
        SqlExpr::Identifier(name) => {
            if name.quoted {
                return Err(quoted_error());
            }
            let key = to_lower(name.value.as_str());
            if names_contain(aliases, key.as_str()) {
                return Ok(());
            }
            let found = source.find_column(name.value.as_str(), name.value.as_str())?;
            Ok(())
        },
        SqlExpr::CompoundIdentifier { parts, text, .. } => {
            if has_quoted(parts) {
                return Err(quoted_error());
            }
            if parts.len() != 2 {
                return Err(Error::ColumnNotFound(text.clone()));
            }
            source.validate_qualifier(parts[0].value.as_str())?;
            let found = source.find_column(parts[1].value.as_str(), text.as_str())?;
            Ok(())
        },
        SqlExpr::Value(_) => Ok(()),
        SqlExpr::Unary { expr, .. } => validate_expression_references(expr, source, aliases),
        SqlExpr::Nested(expr) => validate_expression_references(expr, source, aliases),
        SqlExpr::Is { expr, .. } => validate_expression_references(expr, source, aliases),
        SqlExpr::Cast { expr, .. } => validate_expression_references(expr, source, aliases),
        SqlExpr::Binary { left, right, .. } => {
            validate_expression_references(left, source, aliases)?;
            validate_expression_references(right, source, aliases)
        },
        SqlExpr::Between { expr, low, high, .. } => {
            validate_expression_references(expr, source, aliases)?;
            validate_expression_references(low, source, aliases)?;
            validate_expression_references(high, source, aliases)
        },
        SqlExpr::InList { expr, list, .. } => {
            validate_expression_references(expr, source, aliases)?;
            let mut i: usize = 0;
            while i < list.len()
                invariant
                    i <= list.len(),
                    *e matches SqlExpr::InList { list: l, .. } && l == *list,
                    list_references(list@, 0, source@, names_of(aliases@)) == list_references(
                        list@,
                        i as int,
                        source@,
                        names_of(aliases@),
                    ),
                decreases list.len() - i,
            {
                validate_expression_references(&list[i], source, aliases)?;
                i += 1;
            }
            Ok(())
        },
        SqlExpr::Like { expr, pattern, .. } => {
            validate_expression_references(expr, source, aliases)?;
            validate_expression_references(pattern, source, aliases)
        },
        SqlExpr::Call(call) => {
            let (name, items, distinct) = function_parts(call)?;
            let mut i: usize = 0;
            while i < items.len()
                invariant
                    i <= items.len(),
                    *e matches SqlExpr::Call(c) && c.arguments matches Arguments::List { items: l, .. } && l == *items,
                    argument_references(items@, 0, source@, names_of(aliases@))
                        == argument_references(items@, i as int, source@, names_of(aliases@)),
                decreases items.len() - i,
            {
                let item = &items[i];
                if item.named.is_some() {
                    return Err(named_error());
                }
                match &item.value {
                    ArgumentValue::Expr(inner) => {
                        validate_expression_references(inner, source, aliases)?;
                    },
                    ArgumentValue::QualifiedWildcard(path) => {
                        let qualifier = object_name(path)?;
                        source.validate_qualifier(qualifier.as_str())?;
                    },
                    ArgumentValue::Wildcard => {},
                }
                i += 1;
            }
            Ok(())
        },
        SqlExpr::Other { .. } => Ok(()),
    }
}

/// The last position before `n` that holds `key`.
pub open spec fn last_before(names: Seq<Seq<char>>, key: Seq<char>, n: int) -> Option<int>
    decreases n,
{
    if n <= 0 {
        None
    } else if names[n - 1] == key {
        Some(n - 1)
    } else {
        last_before(names, key, n - 1)
    }
}

/// The position that a repeated name denotes: the last one.
pub open spec fn last_position(names: Seq<Seq<char>>, key: Seq<char>) -> Option<int> {
    last_before(names, key, names.len() as int)
}

/// A found position is in range and holds the key.
pub proof fn last_before_in_range(names: Seq<Seq<char>>, key: Seq<char>, n: int)
    requires
        n <= names.len(),
    ensures
        last_before(names, key, n) matches Some(k) ==> 0 <= k < n && names[k] == key,
    decreases n,
{
    if n > 0 && names[n - 1] != key {
        last_before_in_range(names, key, n - 1);
    }
}

/// A name is found exactly when the list holds it.
pub proof fn last_before_complete(names: Seq<Seq<char>>, key: Seq<char>, n: int)
    requires
        n <= names.len(),
    ensures
        last_before(names, key, n) is Some <==> exists|k: int| 0 <= k < n && names[k] == key,
    decreases n,
{
    if n > 0 {
        last_before_complete(names, key, n - 1);
        if last_before(names, key, n - 1) is Some {
            let k = choose|k: int| 0 <= k < n - 1 && names[k] == key;
            assert(0 <= k < n && names[k] == key);
        }
        if names[n - 1] != key && exists|k: int| 0 <= k < n && names[k] == key {
            let k = choose|k: int| 0 <= k < n && names[k] == key;
            assert(0 <= k < n - 1 && names[k] == key);
        }
    }
}

/// Finds the position that a repeated name denotes.
pub fn find_last(names: &Vec<String>, key: &str) -> (r: Option<usize>)
    ensures
        match r {
            Some(k) => k < names.len() && last_position(names_of(names@), key@) == Some(k as int),
            None => last_position(names_of(names@), key@) is None,
        },
{
    let mut n: usize = names.len();
    while n > 0
        invariant
            n <= names.len(),
            last_position(names_of(names@), key@) == last_before(names_of(names@), key@, n as int),
        decreases n,
    {
        if same_text(names[n - 1].as_str(), key) {
            return Some(n - 1);
        }
        n -= 1;
    }
    None
}

/// Names that an expression may use for typed columns of the result.
pub struct AliasTypes {
    pub names: Vec<String>,
    pub types: Vec<Option<DataType>>,
}

impl AliasTypes {
    /// Whether every name has a type.
    pub open spec fn wf(&self) -> bool {
        self.names.len() == self.types.len()
    }

    /// The type of the name, if it is one of these.
    pub open spec fn lookup(names: Seq<Seq<char>>, types: Seq<Option<DataType>>, key: Seq<char>) -> Option<
        Option<DataType>,
    > {
        match last_position(names, key) {
            Some(k) => Some(types[k]),
            None => None,
        }
    }

    /// No names.
    pub fn none() -> (r: AliasTypes)
        ensures
            r.wf(),
            names_of(r.names@) == Seq::<Seq<char>>::empty(),
            r.types@ == Seq::<Option<DataType>>::empty(),
    {
        let r = AliasTypes { names: Vec::new(), types: Vec::new() };
        assert(names_of(r.names@) =~= Seq::<Seq<char>>::empty());
        r
    }

    /// Finds the type of a name.
    pub fn get(&self, key: &str) -> (r: Option<Option<DataType>>)
        requires
            self.wf(),
        ensures
            r == AliasTypes::lookup(names_of(self.names@), self.types@, key@),
    {
        match find_last(&self.names, key) {
            Some(k) => Some(self.types[k]),
            None => None,
        }
    }
}

/// Whether a type is numeric.
pub open spec fn numeric(t: DataType) -> bool {
    t == DataType::Int64 || t == DataType::Float64
}

/// Decides whether a type is numeric.
pub fn is_numeric(t: DataType) -> (r: bool)
    ensures
        r == numeric(t),
{
    matches!(t, DataType::Int64) || matches!(t, DataType::Float64)
}

/// The type that values of two types share.
pub open spec fn common(a: Option<DataType>, b: Option<DataType>) -> Result<Option<DataType>, Fault> {
    match (a, b) {
        (None, t) => Ok(t),
        (t, None) => Ok(t),
        (Some(x), Some(y)) => if x == y {
            Ok(Some(x))
        } else if numeric(x) && numeric(y) {
            Ok(Some(DataType::Float64))
        } else {
            Err(Fault::Type("incompatible types "@ + x.text() + " and "@ + y.text()))
        },
    }
}

/// Finds the type that values of two types share.
pub fn common_type(a: Option<DataType>, b: Option<DataType>) -> (r: Result<Option<DataType>, Error>)
    ensures
        plain(r) == common(a, b),
{
    match (a, b) {
        (None, t) => Ok(t),
        (t, None) => Ok(t),
        (Some(x), Some(y)) => if x == y {
            Ok(Some(x))
        } else if is_numeric(x) && is_numeric(y) {
            Ok(Some(DataType::Float64))
        } else {
            Err(Error::Type(concat4("incompatible types ", x.name(), " and ", y.name())))
        },
    }
}

/// Whether values of two types can be compared.
pub open spec fn comparable(a: Option<DataType>, b: Option<DataType>) -> Result<(), Fault> {
    match common(a, b) {
        Ok(_) => Ok(()),
        Err(fault) => Err(fault),
    }
}

/// Checks that values of two types can be compared.
pub fn ensure_comparable(a: Option<DataType>, b: Option<DataType>) -> (r: Result<(), Error>)
    ensures
        plain(r) == comparable(a, b),
{
    let shared = common_type(a, b)?;
    Ok(())
}

/// Whether an operand has the expected type; NULL fits every type.
pub open spec fn expected_type(
    actual: Option<DataType>,
    expected: DataType,
    context: Seq<char>,
) -> Result<(), Fault> {
    match actual {
        None => Ok(()),
        Some(t) => if t == expected {
            Ok(())
        } else {
            Err(
                Fault::Type(
                    context + " expects "@ + expected.text() + ", found "@ + t.text(),
                ),
            )
        },
    }
}

/// Checks that an operand has the expected type.
pub fn ensure_type(actual: Option<DataType>, expected: DataType, context: &str) -> (r: Result<
    (),
    Error,
>)
    ensures
        plain(r) == expected_type(actual, expected, context@),
{
    match actual {
        None => Ok(()),
        Some(t) => if t == expected {
            Ok(())
        } else {
            let head = concat3(context, " expects ", expected.name());
            Err(Error::Type(concat3(head.as_str(), ", found ", t.name())))
        },
    }
}

/// Whether values of one type can be cast to another.
pub open spec fn castable(source: DataType, target: DataType) -> bool {
    source == target || target == DataType::String || match (source, target) {
        (DataType::Int64, DataType::Float64) => true,
        (DataType::Float64, DataType::Int64) => true,
        (DataType::String, _) => true,
        _ => false,
    }
}

/// Decides whether values of one type can be cast to another.
pub fn cast_is_supported(source: DataType, target: DataType) -> (r: bool)
    ensures
        r == castable(source, target),
{
    source == target || target == DataType::String || match (source, target) {
        (DataType::Int64, DataType::Float64) => true,
        (DataType::Float64, DataType::Int64) => true,
        (DataType::String, _) => true,
        _ => false,
    }
}

/// The type of a binary operation.
pub open spec fn binary_type(left: Option<DataType>, op: crate::ast::SqlBinary, right: Option<DataType>) -> Result<
    Option<DataType>,
    Fault,
> {
    match op.kind {
        BinaryKind::And | BinaryKind::Or => match expected_type(
            left,
            DataType::Bool,
            "boolean operand"@,
        ) {
            Err(fault) => Err(fault),
            Ok(()) => match expected_type(right, DataType::Bool, "boolean operand"@) {
                Err(fault) => Err(fault),
                Ok(()) => Ok(Some(DataType::Bool)),
            },
        },
        BinaryKind::Eq | BinaryKind::NotEq | BinaryKind::Gt | BinaryKind::GtEq | BinaryKind::Lt
        | BinaryKind::LtEq => match comparable(left, right) {
            Err(fault) => Err(fault),
            Ok(()) => Ok(Some(DataType::Bool)),
        },
        BinaryKind::Plus | BinaryKind::Minus | BinaryKind::Multiply | BinaryKind::Divide
        | BinaryKind::Modulo => match common(left, right) {
            Err(fault) => Err(fault),
            Ok(None) => Ok(None),
            Ok(Some(t)) => if numeric(t) {
                Ok(Some(if op.kind == BinaryKind::Divide { DataType::Float64 } else { t }))
            } else {
                Err(Fault::Type("numeric operator does not accept "@ + t.text()))
            },
        },
        BinaryKind::Concat => match expected_type(
            left,
            DataType::String,
            "concatenation operand"@,
        ) {
            Err(fault) => Err(fault),
            Ok(()) => match expected_type(right, DataType::String, "concatenation operand"@) {
                Err(fault) => Err(fault),
                Ok(()) => Ok(Some(DataType::String)),
            },
        },
        BinaryKind::Other => Err(Fault::Unsupported("operator "@ + op.text@)),
    }
}

/// Infers the type of a binary operation.
pub fn infer_binary_type(
    left: Option<DataType>,
    op: &crate::ast::SqlBinary,
    right: Option<DataType>,
) -> (r: Result<Option<DataType>, Error>)
    ensures
        plain(r) == binary_type(left, *op, right),
{
    match op.kind {
        BinaryKind::And | BinaryKind::Or => {
            ensure_type(left, DataType::Bool, "boolean operand")?;
            ensure_type(right, DataType::Bool, "boolean operand")?;
            Ok(Some(DataType::Bool))
        },
        BinaryKind::Eq | BinaryKind::NotEq | BinaryKind::Gt | BinaryKind::GtEq | BinaryKind::Lt
        | BinaryKind::LtEq => {
            ensure_comparable(left, right)?;
            Ok(Some(DataType::Bool))
        },
        BinaryKind::Plus | BinaryKind::Minus | BinaryKind::Multiply | BinaryKind::Divide
        | BinaryKind::Modulo => match common_type(left, right)? {
            None => Ok(None),
            Some(t) => if is_numeric(t) {
                Ok(Some(if matches!(op.kind, BinaryKind::Divide) { DataType::Float64 } else { t }))
            } else {
                Err(Error::Type(concat2("numeric operator does not accept ", t.name())))
            },
        },
        BinaryKind::Concat => {
            ensure_type(left, DataType::String, "concatenation operand")?;
            ensure_type(right, DataType::String, "concatenation operand")?;
            Ok(Some(DataType::String))
        },
        BinaryKind::Other => Err(Error::Unsupported(concat2("operator ", op.text.as_str()))),
    }
}

/// The type of a unary operation.
pub open spec fn unary_type(op: SqlUnary, operand: Option<DataType>) -> Result<Option<DataType>, Fault> {
    match operand {
        None => Ok(None),
        Some(t) => if (op.kind == UnaryKind::Plus || op.kind == UnaryKind::Minus) && numeric(t) {
            Ok(Some(t))
        } else if op.kind == UnaryKind::Not && t == DataType::Bool {
            Ok(Some(t))
        } else {
            Err(Fault::Type("operator "@ + op.text@ + " does not accept "@ + t.text()))
        },
    }
}

/// Infers the type of a unary operation.
pub fn infer_unary_type(op: &SqlUnary, operand: Option<DataType>) -> (r: Result<
    Option<DataType>,
    Error,
>)
    ensures
        plain(r) == unary_type(*op, operand),
{
    match operand {
        None => Ok(None),
        Some(t) => {
            let signed = matches!(op.kind, UnaryKind::Plus) || matches!(op.kind, UnaryKind::Minus);
            if signed && is_numeric(t) {
                Ok(Some(t))
            } else if matches!(op.kind, UnaryKind::Not) && matches!(t, DataType::Bool) {
                Ok(Some(t))
            } else {
                Err(
                    Error::Type(
                        concat4("operator ", op.text.as_str(), " does not accept ", t.name()),
                    ),
                )
            }
        },
    }
}

/// Whether an expression refers to a result column by a name that the source lacks.
pub open spec fn uses_alias(e: SqlExpr, source: Origin, names: Seq<Seq<char>>) -> bool
    decreases e, 0nat,
{
    match e {
        SqlExpr::Identifier(name) => names.contains(lower(name.value@)) && match source.table {
            None => true,
            Some(table) => field_index(table.fields, name.value@) is None,
        },
        SqlExpr::CompoundIdentifier { .. } => false,
        SqlExpr::Value(_) => false,
        SqlExpr::Unary { expr, .. } => uses_alias(*expr, source, names),
        SqlExpr::Nested(expr) => uses_alias(*expr, source, names),
        SqlExpr::Is { expr, .. } => uses_alias(*expr, source, names),
        SqlExpr::Cast { expr, .. } => uses_alias(*expr, source, names),
        SqlExpr::Binary { left, right, .. } => uses_alias(*left, source, names) || uses_alias(
            *right,
            source,
            names,
        ),
        SqlExpr::Between { expr, low, high, .. } => uses_alias(*expr, source, names) || uses_alias(
            *low,
            source,
            names,
        ) || uses_alias(*high, source, names),
        SqlExpr::InList { expr, list, .. } => uses_alias(*expr, source, names) || list_uses_alias(
            list@,
            0,
            source,
            names,
        ),
        SqlExpr::Like { expr, pattern, .. } => uses_alias(*expr, source, names) || uses_alias(
            *pattern,
            source,
            names,
        ),
        SqlExpr::Call(call) => match call.arguments {
            Arguments::List { items, .. } => argument_uses_alias(items@, 0, source, names),
            Arguments::Other { .. } => false,
        },
        SqlExpr::Other { .. } => false,
    }
}

/// Whether an expression from `i` on refers to such a name.
pub open spec fn list_uses_alias(list: Seq<SqlExpr>, i: int, source: Origin, names: Seq<Seq<char>>) -> bool
    decreases list, list.len() - i,
{
    0 <= i < list.len() && (uses_alias(list[i], source, names) || list_uses_alias(
        list,
        i + 1,
        source,
        names,
    ))
}

/// Whether an argument from `i` on refers to such a name.
pub open spec fn argument_uses_alias(
    items: Seq<Argument>,
    i: int,
    source: Origin,
    names: Seq<Seq<char>>,
) -> bool
    decreases items, items.len() - i,
{
    0 <= i < items.len() && ((match items[i].value {
        ArgumentValue::Expr(e) => uses_alias(e, source, names),
        _ => false,
    }) || argument_uses_alias(items, i + 1, source, names))
}

/// Decides whether an expression refers to a result column by a name that the source lacks.
#[verifier::loop_isolation(false)]
pub fn references_projection_alias(e: &SqlExpr, source: &Source<'_>, names: &Vec<String>) -> (r: bool)
    ensures
        r == uses_alias(*e, source@, names_of(names@)),
    decreases *e, 0nat,
{
    match e {
        SqlExpr::Identifier(name) => {
            let key = to_lower(name.value.as_str());
            if !names_contain(names, key.as_str()) {
                return false;
            }
            match source.table {
                None => true,
                Some(table) => table.schema().index_of(name.value.as_str()).is_err(),
            }
        },
        SqlExpr::CompoundIdentifier { .. } => false,
        SqlExpr::Value(_) => false,
        SqlExpr::Unary { expr, .. } => references_projection_alias(expr, source, names),
        SqlExpr::Nested(expr) => references_projection_alias(expr, source, names),
        SqlExpr::Is { expr, .. } => references_projection_alias(expr, source, names),
        SqlExpr::Cast { expr, .. } => references_projection_alias(expr, source, names),
        SqlExpr::Binary { left, right, .. } => references_projection_alias(left, source, names)
            || references_projection_alias(right, source, names),
        SqlExpr::Between { expr, low, high, .. } => references_projection_alias(expr, source, names)
            || references_projection_alias(low, source, names) || references_projection_alias(
            high,
            source,
            names,
        ),
        SqlExpr::InList { expr, list, .. } => {
            if references_projection_alias(expr, source, names) {
                return true;
            }
            let mut i: usize = 0;
            while i < list.len()
                invariant
                    i <= list.len(),
                    list_uses_alias(list@, 0, source@, names_of(names@)) == list_uses_alias(
                        list@,
                        i as int,
                        source@,
                        names_of(names@),
                    ),
                decreases list.len() - i,
            {
                if references_projection_alias(&list[i], source, names) {
                    return true;
                }
                i += 1;
            }
            false
        },
        SqlExpr::Like { expr, pattern, .. } => references_projection_alias(expr, source, names)
            || references_projection_alias(pattern, source, names),
        SqlExpr::Call(call) => match &call.arguments {
            Arguments::List { items, .. } => {
                let mut i: usize = 0;
                while i < items.len()
                    invariant
                        i <= items.len(),
                        argument_uses_alias(items@, 0, source@, names_of(names@))
                            == argument_uses_alias(items@, i as int, source@, names_of(names@)),
                    decreases items.len() - i,
                {
                    if let ArgumentValue::Expr(inner) = &items[i].value {
                        if references_projection_alias(inner, source, names) {
                            return true;
                        }
                    }
                    i += 1;
                }
                false
            },
            Arguments::Other { .. } => false,
        },
        SqlExpr::Other { .. } => false,
    }
}

/// The type that the arguments of `COALESCE` share, looking from `i` on.
pub open spec fn coalesce_type(types: Seq<Option<DataType>>, i: int, so_far: Option<DataType>) -> Result<
    Option<DataType>,
    Fault,
>
    decreases types.len() - i,
{
    if i < 0 || i >= types.len() {
        Ok(so_far)
    } else {
        match common(so_far, types[i]) {
            Err(fault) => Err(fault),
            Ok(t) => coalesce_type(types, i + 1, t),
        }
    }
}

/// The type of a scalar function on arguments of known types.
pub open spec fn scalar_type(name: Seq<char>, types: Seq<Option<DataType>>) -> Result<
    Option<DataType>,
    Fault,
> {
    if name == "abs"@ && types.len() == 1 {
        match types[0] {
            None => Ok(None),
            Some(t) => if numeric(t) {
                Ok(Some(t))
            } else {
                Err(Fault::Type("ABS does not accept "@ + t.text()))
            },
        }
    } else if (name == "lower"@ || name == "upper"@) && types.len() == 1 {
        match expected_type(types[0], DataType::String, name) {
            Err(fault) => Err(fault),
            Ok(()) => Ok(Some(DataType::String)),
        }
    } else if name == "length"@ && types.len() == 1 {
        match expected_type(types[0], DataType::String, name) {
            Err(fault) => Err(fault),
            Ok(()) => Ok(Some(DataType::Int64)),
        }
    } else if name == "coalesce"@ {
        if types.len() == 0 {
            Err(Fault::Constraint("COALESCE expects at least one argument"@))
        } else {
            coalesce_type(types, 0, None)
        }
    } else {
        Err(Fault::Unsupported("scalar function "@ + name))
    }
}

/// Infers the type of a scalar function on arguments of known types.
pub fn infer_scalar_type(name: &str, types: &Vec<Option<DataType>>) -> (r: Result<
    Option<DataType>,
    Error,
>)
    ensures
        plain(r) == scalar_type(name@, types@),
{
    if same_text(name, "abs") && types.len() == 1 {
        match types[0] {
            None => Ok(None),
            Some(t) => if is_numeric(t) {
                Ok(Some(t))
            } else {
                Err(Error::Type(concat2("ABS does not accept ", t.name())))
            },
        }
    } else if (same_text(name, "lower") || same_text(name, "upper")) && types.len() == 1 {
        ensure_type(types[0], DataType::String, name)?;
        Ok(Some(DataType::String))
    } else if same_text(name, "length") && types.len() == 1 {
        ensure_type(types[0], DataType::String, name)?;
        Ok(Some(DataType::Int64))
    } else if same_text(name, "coalesce") {
        if types.len() == 0 {
            return Err(Error::Constraint("COALESCE expects at least one argument".to_owned()));
        }
        let mut shared: Option<DataType> = None;
        let mut i: usize = 0;
        while i < types.len()
            invariant
                i <= types.len(),
                coalesce_type(types@, 0, None) == coalesce_type(types@, i as int, shared),
                name@ == "coalesce"@,
                scalar_type(name@, types@) == coalesce_type(types@, 0, None),
            decreases types.len() - i,
        {
            shared = common_type(shared, types[i])?;
            i += 1;
        }
        Ok(shared)
    } else {
        Err(Error::Unsupported(concat2("scalar function ", name)))
    }
}

/// The type of an aggregate over an argument of a known type.
pub open spec fn aggregate_type(name: Seq<char>, t: Option<DataType>) -> Result<Option<DataType>, Fault> {
    if name == "count"@ {
        Ok(Some(DataType::Int64))
    } else if name == "sum"@ {
        match t {
            None => Ok(None),
            Some(t) => if numeric(t) {
                Ok(Some(t))
            } else {
                Err(Fault::Type("SUM does not accept "@ + t.text()))
            },
        }
    } else if name == "avg"@ {
        match t {
            None => Ok(None),
            Some(t) => if numeric(t) {
                Ok(Some(DataType::Float64))
            } else {
                Err(Fault::Type("AVG does not accept "@ + t.text()))
            },
        }
    } else {
        Ok(t)
    }
}

/// Infers the type of an aggregate over an argument of a known type.
pub fn infer_aggregate_type(name: &str, t: Option<DataType>) -> (r: Result<Option<DataType>, Error>)
    ensures
        plain(r) == aggregate_type(name@, t),
{
    if same_text(name, "count") {
        Ok(Some(DataType::Int64))
    } else if same_text(name, "sum") {
        match t {
            None => Ok(None),
            Some(t) => if is_numeric(t) {
                Ok(Some(t))
            } else {
                Err(Error::Type(concat2("SUM does not accept ", t.name())))
            },
        }
    } else if same_text(name, "avg") {
        match t {
            None => Ok(None),
            Some(t) => if is_numeric(t) {
                Ok(Some(DataType::Float64))
            } else {
                Err(Error::Type(concat2("AVG does not accept ", t.name())))
            },
        }
    } else {
        Ok(t)
    }
}

/// The static type of an expression; `None` is the type of NULL.
pub open spec fn type_of(
    e: SqlExpr,
    source: Origin,
    names: Seq<Seq<char>>,
    types: Seq<Option<DataType>>,
    m: FloatModel,
) -> Result<Option<DataType>, Fault>
    decreases e, 0nat,
{
    match e {
        SqlExpr::Identifier(name) => match AliasTypes::lookup(names, types, lower(name.value@)) {
            Some(t) => Ok(t),
            None => source.column_type(name.value@, name.value@),
        },
        SqlExpr::CompoundIdentifier { parts, text, .. } => if parts@.len() == 2 {
            match source.qualified(parts@[0].value@) {
                Err(fault) => Err(fault),
                Ok(()) => source.column_type(parts@[1].value@, text@),
            }
        } else {
            Err(Fault::ColumnNotFound(text@))
        },
        SqlExpr::Value(literal) => match literal_datum(m, literal, None) {
            Err(fault) => Err(fault),
            Ok(d) => Ok(datum_type(d)),
        },
        SqlExpr::Nested(expr) => type_of(*expr, source, names, types, m),
        SqlExpr::Unary { op, expr } => if is_minimum(op, *expr) {
            Ok(Some(DataType::Int64))
        } else {
            match type_of(*expr, source, names, types, m) {
                Err(fault) => Err(fault),
                Ok(t) => unary_type(op, t),
            }
        },
        SqlExpr::Binary { left, op, right } => match type_of(*left, source, names, types, m) {
            Err(fault) => Err(fault),
            Ok(x) => match type_of(*right, source, names, types, m) {
                Err(fault) => Err(fault),
                Ok(y) => binary_type(x, op, y),
            },
        },
        SqlExpr::Is { test, expr } => match type_of(*expr, source, names, types, m) {
            Err(fault) => Err(fault),
            Ok(t) => if test == Test::Null || test == Test::NotNull {
                Ok(Some(DataType::Bool))
            } else {
                match expected_type(t, DataType::Bool, "truth predicate"@) {
                    Err(fault) => Err(fault),
                    Ok(()) => Ok(Some(DataType::Bool)),
                }
            },
        },
        SqlExpr::Between { expr, low, high, .. } => match type_of(*expr, source, names, types, m) {
            Err(fault) => Err(fault),
            Ok(value) => match type_of(*low, source, names, types, m) {
                Err(fault) => Err(fault),
                Ok(x) => match comparable(value, x) {
                    Err(fault) => Err(fault),
                    Ok(()) => match type_of(*high, source, names, types, m) {
                        Err(fault) => Err(fault),
                        Ok(y) => match comparable(value, y) {
                            Err(fault) => Err(fault),
                            Ok(()) => Ok(Some(DataType::Bool)),
                        },
                    },
                },
            },
        },
        SqlExpr::InList { expr, list, .. } => match type_of(*expr, source, names, types, m) {
            Err(fault) => Err(fault),
            Ok(value) => match list_comparable(list@, 0, value, source, names, types, m) {
                Err(fault) => Err(fault),
                Ok(()) => Ok(Some(DataType::Bool)),
            },
        },
        SqlExpr::Like { expr, pattern, matching } => match crate::pattern::escape_of(
            crate::pattern::optional_text(matching.escape),
        ) {
            Err(fault) => Err(fault),
            Ok(_) => match type_of(*expr, source, names, types, m) {
                Err(fault) => Err(fault),
                Ok(x) => match expected_type(x, DataType::String, "LIKE value"@) {
                    Err(fault) => Err(fault),
                    Ok(()) => match type_of(*pattern, source, names, types, m) {
                        Err(fault) => Err(fault),
                        Ok(y) => match expected_type(y, DataType::String, "LIKE pattern"@) {
                            Err(fault) => Err(fault),
                            Ok(()) => Ok(Some(DataType::Bool)),
                        },
                    },
                },
            },
        },
        SqlExpr::Cast { expr, target } => if target.has_format {
            Err(Fault::Unsupported("CAST FORMAT"@))
        } else {
            match type_of(*expr, source, names, types, m) {
                Err(fault) => Err(fault),
                Ok(x) => match parsed_data_type(target.data_type@) {
                    Err(fault) => Err(fault),
                    Ok((t, _)) => match x {
                        Some(x) if !castable(x, t) => Err(
                            Fault::Type("cannot cast "@ + x.text() + " to "@ + t.text()),
                        ),
                        _ => Ok(Some(t)),
                    },
                },
            }
        },
        SqlExpr::Call(call) => call_type(call, source, names, types, m),
        SqlExpr::Other { text, .. } => Err(Fault::Unsupported("expression "@ + text@)),
    }
}

/// Whether the expressions from `i` on can be compared with a value of a known type.
pub open spec fn list_comparable(
    list: Seq<SqlExpr>,
    i: int,
    value: Option<DataType>,
    source: Origin,
    names: Seq<Seq<char>>,
    types: Seq<Option<DataType>>,
    m: FloatModel,
) -> Result<(), Fault>
    decreases list, list.len() - i,
{
    if i < 0 || i >= list.len() {
        Ok(())
    } else {
        match type_of(list[i], source, names, types, m) {
            Err(fault) => Err(fault),
            Ok(t) => match comparable(value, t) {
                Err(fault) => Err(fault),
                Ok(()) => list_comparable(list, i + 1, value, source, names, types, m),
            },
        }
    }
}

/// The static type of a function call.
pub open spec fn call_type(
    call: SqlCall,
    source: Origin,
    names: Seq<Seq<char>>,
    types: Seq<Option<DataType>>,
    m: FloatModel,
) -> Result<Option<DataType>, Fault>
    decreases call, 0nat,
{
    let distinct = call_distinct(call);
    match call_name(call) {
        Err(fault) => Err(fault),
        Ok(name) => match call.arguments {
            Arguments::Other { .. } => Err(Fault::Unsupported("arguments to "@ + name)),
            Arguments::List { items, .. } => if is_aggregate(name) {
                if name == "count"@ && items@.len() == 0 {
                    if distinct {
                        Err(Fault::Constraint("COUNT(DISTINCT) requires an expression"@))
                    } else {
                        Ok(Some(DataType::Int64))
                    }
                } else if items@.len() != 1 {
                    Err(Fault::Constraint(name + " expects one argument"@))
                } else if items@[0].named is Some {
                    Err(named_fault())
                } else {
                    match items@[0].value {
                        ArgumentValue::Expr(e) => if uses_alias(e, source, names) {
                            Err(
                                Fault::Unsupported(
                                    "projection aliases inside aggregate arguments"@,
                                ),
                            )
                        } else {
                            match type_of(e, source, Seq::empty(), Seq::empty(), m) {
                                Err(fault) => Err(fault),
                                Ok(t) => aggregate_type(name, t),
                            }
                        },
                        _ => if distinct {
                            Err(Fault::Constraint("COUNT(DISTINCT *) is not supported"@))
                        } else if name == "count"@ {
                            Ok(Some(DataType::Int64))
                        } else {
                            Err(Fault::Constraint(name + "(*) is invalid"@))
                        },
                    }
                }
            } else if distinct {
                Err(Fault::Unsupported("DISTINCT on scalar function "@ + name))
            } else {
                match argument_types(items@, 0, Seq::empty(), name, source, names, types, m) {
                    Err(fault) => Err(fault),
                    Ok(found) => scalar_type(name, found),
                }
            },
        },
    }
}

/// The static types of the arguments from `i` on, behind those already found.
pub open spec fn argument_types(
    items: Seq<Argument>,
    i: int,
    found: Seq<Option<DataType>>,
    name: Seq<char>,
    source: Origin,
    names: Seq<Seq<char>>,
    types: Seq<Option<DataType>>,
    m: FloatModel,
) -> Result<Seq<Option<DataType>>, Fault>
    decreases items, items.len() - i,
{
    if i < 0 || i >= items.len() {
        Ok(found)
    } else if items[i].named is Some {
        Err(named_fault())
    } else {
        match items[i].value {
            ArgumentValue::Expr(e) => match type_of(e, source, names, types, m) {
                Err(fault) => Err(fault),
                Ok(t) => argument_types(
                    items,
                    i + 1,
                    found.push(t),
                    name,
                    source,
                    names,
                    types,
                    m,
                ),
            },
            _ => Err(Fault::Unsupported("wildcard argument to "@ + name)),
        }
    }
}

/// Infers the static type of an expression.
#[verifier::loop_isolation(false)]
pub fn infer_expression_type<F: Fn(FloatRequest) -> FloatReply>(
    e: &SqlExpr,
    source: &Source<'_>,
    aliases: &AliasTypes,
    f: &F,
) -> (r: Result<Option<DataType>, Error>)
    requires
        answers_floats(*f),
        aliases.wf(),
    ensures
        plain(r) == type_of(
            *e,
            source@,
            names_of(aliases.names@),
            aliases.types@,
            float_model(*f),
        ),
    decreases *e, 0nat,
{
    let ghost names = names_of(aliases.names@);
    let ghost types = aliases.types@;
    let ghost m = float_model(*f);
    match e {
        SqlExpr::Identifier(name) => {
            let key = to_lower(name.value.as_str());
            if let Some(t) = aliases.get(key.as_str()) {
                return Ok(t);
            }
            source.find_column_type(name.value.as_str(), name.value.as_str())
        },
        SqlExpr::CompoundIdentifier { parts, text, .. } => {
            if parts.len() != 2 {
                return Err(Error::ColumnNotFound(text.clone()));
            }
            source.validate_qualifier(parts[0].value.as_str())?;
            source.find_column_type(parts[1].value.as_str(), text.as_str())
        },
        SqlExpr::Value(literal) => {
            let value = sql_value_with_memory(literal, None, f)?;
            Ok(value.data_type())
        },
        SqlExpr::Nested(expr) => infer_expression_type(expr, source, aliases, f),
        SqlExpr::Unary { op, expr } => {
            if minimum_int_literal(op, expr) {
                return Ok(Some(DataType::Int64));
            }
            let operand = infer_expression_type(expr, source, aliases, f)?;
            infer_unary_type(op, operand)
        },
        SqlExpr::Binary { left, op, right } => {
            let x = infer_expression_type(left, source, aliases, f)?;
            let y = infer_expression_type(right, source, aliases, f)?;
            infer_binary_type(x, op, y)
        },
        SqlExpr::Is { test, expr } => {
            let t = infer_expression_type(expr, source, aliases, f)?;
            if !matches!(test, Test::Null) && !matches!(test, Test::NotNull) {
                ensure_type(t, DataType::Bool, "truth predicate")?;
            }
            Ok(Some(DataType::Bool))
        },
        SqlExpr::Between { expr, low, high, .. } => {
            let value = infer_expression_type(expr, source, aliases, f)?;
            let x = infer_expression_type(low, source, aliases, f)?;
            ensure_comparable(value, x)?;
            let y = infer_expression_type(high, source, aliases, f)?;
            ensure_comparable(value, y)?;
            Ok(Some(DataType::Bool))
        },
        SqlExpr::InList { expr, list, .. } => {
            let value = infer_expression_type(expr, source, aliases, f)?;
            let mut i: usize = 0;
            while i < list.len()
                invariant
                    i <= list.len(),
                    list_comparable(list@, 0, value, source@, names, types, m) == list_comparable(
                        list@,
                        i as int,
                        value,
                        source@,
                        names,
                        types,
                        m,
                    ),
                decreases list.len() - i,
            {
                let t = infer_expression_type(&list[i], source, aliases, f)?;
                ensure_comparable(value, t)?;
                i += 1;
            }
            Ok(Some(DataType::Bool))
        },
        SqlExpr::Like { expr, pattern, matching } => {
            let escape = crate::pattern::like_escape_char(&matching.escape)?;
            let x = infer_expression_type(expr, source, aliases, f)?;
            ensure_type(x, DataType::String, "LIKE value")?;
            let y = infer_expression_type(pattern, source, aliases, f)?;
            ensure_type(y, DataType::String, "LIKE pattern")?;
            Ok(Some(DataType::Bool))
        },
        SqlExpr::Cast { expr, target } => {
            if target.has_format {
                return Err(Error::Unsupported("CAST FORMAT".to_owned()));
            }
            let x = infer_expression_type(expr, source, aliases, f)?;
            let (t, nullable) = parse_data_type(target.data_type.as_str())?;
            if let Some(x) = x {
                if !cast_is_supported(x, t) {
                    return Err(
                        Error::Type(concat4("cannot cast ", x.name(), " to ", t.name())),
                    );
                }
            }
            Ok(Some(t))
        },
        SqlExpr::Call(call) => infer_function_type(call, source, aliases, f),
        SqlExpr::Other { text, .. } => Err(
            Error::Unsupported(concat2("expression ", text.as_str())),
        ),
    }
}

/// Infers the static type of a function call.
#[verifier::loop_isolation(false)]
pub fn infer_function_type<F: Fn(FloatRequest) -> FloatReply>(
    call: &SqlCall,
    source: &Source<'_>,
    aliases: &AliasTypes,
    f: &F,
) -> (r: Result<Option<DataType>, Error>)
    requires
        answers_floats(*f),
        aliases.wf(),
    ensures
        plain(r) == call_type(
            *call,
            source@,
            names_of(aliases.names@),
            aliases.types@,
            float_model(*f),
        ),
    decreases *call, 0nat,
{
    let ghost names = names_of(aliases.names@);
    let ghost types = aliases.types@;
    let ghost m = float_model(*f);
    let (name, items, distinct) = function_parts(call)?;
    if is_aggregate_name(name.as_str()) {
        if same_text(name.as_str(), "count") && items.len() == 0 {
            if distinct {
                return Err(Error::Constraint("COUNT(DISTINCT) requires an expression".to_owned()));
            }
            return Ok(Some(DataType::Int64));
        }
        if items.len() != 1 {
            return Err(Error::Constraint(concat2(name.as_str(), " expects one argument")));
        }
        let item = &items[0];
        if item.named.is_some() {
            return Err(named_error());
        }
        return match &item.value {
            ArgumentValue::Expr(e) => {
                if references_projection_alias(e, source, &aliases.names) {
                    return Err(
                        Error::Unsupported(
                            "projection aliases inside aggregate arguments".to_owned(),
                        ),
                    );
                }
                let t = infer_expression_type(e, source, &AliasTypes::none(), f)?;
                infer_aggregate_type(name.as_str(), t)
            },
            _ => {
                if distinct {
                    Err(Error::Constraint("COUNT(DISTINCT *) is not supported".to_owned()))
                } else if same_text(name.as_str(), "count") {
                    Ok(Some(DataType::Int64))
                } else {
                    Err(Error::Constraint(concat2(name.as_str(), "(*) is invalid")))
                }
            },
        };
    }
    if distinct {
        return Err(
            Error::Unsupported(concat2("DISTINCT on scalar function ", name.as_str())),
        );
    }
    let mut found: Vec<Option<DataType>> = Vec::new();
    let mut i: usize = 0;
    while i < items.len()
        invariant
            i <= items.len(),
            argument_types(items@, 0, Seq::empty(), name@, source@, names, types, m)
                == argument_types(items@, i as int, found@, name@, source@, names, types, m),
        decreases items.len() - i,
    {
        let item = &items[i];
        if item.named.is_some() {
            return Err(named_error());
        }
        match &item.value {
            ArgumentValue::Expr(e) => {
                let t = infer_expression_type(e, source, aliases, f)?;
                found.push(t);
            },
            _ => {
                return Err(
                    Error::Unsupported(concat2("wildcard argument to ", name.as_str())),
                );
            },
        }
        i += 1;
    }
    infer_scalar_type(name.as_str(), &found)
}

/// Whether an expression holds an aggregate function.
pub open spec fn holds_aggregate(e: SqlExpr) -> bool
    decreases e, 0nat,
{
    match e {
        SqlExpr::Call(call) => (match simple_name(call.name) {
            Ok(name) => is_aggregate(lower(name)),
            Err(_) => false,
        }) || match call.arguments {
            Arguments::List { items, .. } => argument_holds_aggregate(items@, 0),
            Arguments::Other { .. } => false,
        },
        SqlExpr::Binary { left, right, .. } => holds_aggregate(*left) || holds_aggregate(*right),
        SqlExpr::Unary { expr, .. } => holds_aggregate(*expr),
        SqlExpr::Nested(expr) => holds_aggregate(*expr),
        SqlExpr::Is { expr, .. } => holds_aggregate(*expr),
        SqlExpr::Cast { expr, .. } => holds_aggregate(*expr),
        SqlExpr::Between { expr, low, high, .. } => holds_aggregate(*expr) || holds_aggregate(*low)
            || holds_aggregate(*high),
        SqlExpr::InList { expr, list, .. } => holds_aggregate(*expr) || list_holds_aggregate(
            list@,
            0,
        ),
        SqlExpr::Like { expr, pattern, .. } => holds_aggregate(*expr) || holds_aggregate(*pattern),
        _ => false,
    }
}

/// Whether an expression from `i` on holds an aggregate function.
pub open spec fn list_holds_aggregate(list: Seq<SqlExpr>, i: int) -> bool
    decreases list, list.len() - i,
{
    0 <= i < list.len() && (holds_aggregate(list[i]) || list_holds_aggregate(list, i + 1))
}

/// Whether an argument from `i` on holds an aggregate function.
pub open spec fn argument_holds_aggregate(items: Seq<Argument>, i: int) -> bool
    decreases items, items.len() - i,
{
    0 <= i < items.len() && ((match items[i].value {
        ArgumentValue::Expr(e) => holds_aggregate(e),
        _ => false,
    }) || argument_holds_aggregate(items, i + 1))
}

/// Decides whether an expression holds an aggregate function.
#[verifier::loop_isolation(false)]
pub fn contains_aggregate(e: &SqlExpr) -> (r: bool)
    ensures
        r == holds_aggregate(*e),
    decreases *e, 0nat,
{
    match e {
        SqlExpr::Call(call) => {
            if let Ok(written) = object_name(&call.name) {
                let name = to_lower(written.as_str());
                if is_aggregate_name(name.as_str()) {
                    return true;
                }
            }
            match &call.arguments {
                Arguments::List { items, .. } => {
                    let mut i: usize = 0;
                    while i < items.len()
                        invariant
                            i <= items.len(),
                            argument_holds_aggregate(items@, 0) == argument_holds_aggregate(
                                items@,
                                i as int,
                            ),
                        decreases items.len() - i,
                    {
                        if let ArgumentValue::Expr(inner) = &items[i].value {
                            if contains_aggregate(inner) {
                                return true;
                            }
                        }
                        i += 1;
                    }
                    false
                },
                Arguments::Other { .. } => false,
            }
        },
        SqlExpr::Binary { left, right, .. } => contains_aggregate(left) || contains_aggregate(right),
        SqlExpr::Unary { expr, .. } => contains_aggregate(expr),
        SqlExpr::Nested(expr) => contains_aggregate(expr),
        SqlExpr::Is { expr, .. } => contains_aggregate(expr),
        SqlExpr::Cast { expr, .. } => contains_aggregate(expr),
        SqlExpr::Between { expr, low, high, .. } => contains_aggregate(expr) || contains_aggregate(
            low,
        ) || contains_aggregate(high),
        SqlExpr::InList { expr, list, .. } => {
            if contains_aggregate(expr) {
                return true;
            }
            let mut i: usize = 0;
            while i < list.len()
                invariant
                    i <= list.len(),
                    list_holds_aggregate(list@, 0) == list_holds_aggregate(list@, i as int),
                decreases list.len() - i,
            {
                if contains_aggregate(&list[i]) {
                    return true;
                }
                i += 1;
            }
            false
        },
        SqlExpr::Like { expr, pattern, .. } => contains_aggregate(expr) || contains_aggregate(
            pattern,
        ),
        _ => false,
    }
}

} // verus!
