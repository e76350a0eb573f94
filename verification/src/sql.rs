//! Parsing of SQL text by the `sqlparser` crate into the statements of [`crate::ast`].

use vstd::prelude::*;
use sqlparser::ast as raw;
use crate::ast::{Argument, ArgumentValue, Arguments, BinaryKind, CastForm, CastTarget, ColumnRule, Distribution, Duplicates, FormatParts, FromItem, InsertOptions, LayoutOptions, LiteralKind, OrderKey, PatternMatch, QueryBody, QueryClauses, Relation, SelectClauses, SourceOptions, SqlAlias, SqlBinary, SqlCall, SqlColumn, SqlColumnOption, SqlCreateTable, SqlExpr, SqlInsert, SqlLiteral, SqlName, SqlPath, SqlQuery, SqlSelect, SqlSelectItem, SqlStatement, SqlUnary, StorageOptions, TableClauses, TableKind, Test, Treatment, UnaryKind, WildcardModifiers};
use crate::sql_tokens::parses_without_panic;

verus! {

/// `sqlparser`'s `Statement`, held as an opaque value.
#[verifier::external_type_specification]
#[verifier::external_body]
pub struct RawStatement(sqlparser::ast::Statement);

/// `sqlparser`'s `Query`, held as an opaque value.
#[verifier::external_type_specification]
#[verifier::external_body]
pub struct RawQuery(sqlparser::ast::Query);

/// `sqlparser`'s `SetExpr`, held as an opaque value.
#[verifier::external_type_specification]
#[verifier::external_body]
pub struct RawSetExpr(sqlparser::ast::SetExpr);

/// `sqlparser`'s `Select`, held as an opaque value.
#[verifier::external_type_specification]
#[verifier::external_body]
pub struct RawSelect(sqlparser::ast::Select);

/// `sqlparser`'s `SelectItem`, held as an opaque value.
#[verifier::external_type_specification]
#[verifier::external_body]
pub struct RawSelectItem(sqlparser::ast::SelectItem);

/// `sqlparser`'s `Ident`, held as an opaque value.
#[verifier::external_type_specification]
#[verifier::external_body]
pub struct RawIdent(sqlparser::ast::Ident);

/// `sqlparser`'s `ObjectName`, held as an opaque value.
#[verifier::external_type_specification]
#[verifier::external_body]
pub struct RawObjectName(sqlparser::ast::ObjectName);

/// `sqlparser`'s `Function`, held as an opaque value.
#[verifier::external_type_specification]
#[verifier::external_body]
pub struct RawFunction(sqlparser::ast::Function);

/// `sqlparser`'s `FunctionArguments`, held as an opaque value.
#[verifier::external_type_specification]
#[verifier::external_body]
pub struct RawFunctionArguments(sqlparser::ast::FunctionArguments);

/// `sqlparser`'s `FunctionArg`, held as an opaque value.
#[verifier::external_type_specification]
#[verifier::external_body]
pub struct RawFunctionArg(sqlparser::ast::FunctionArg);

/// `sqlparser`'s `FunctionArgExpr`, held as an opaque value.
#[verifier::external_type_specification]
#[verifier::external_body]
pub struct RawFunctionArgExpr(sqlparser::ast::FunctionArgExpr);

/// `sqlparser`'s `OrderByExpr`, held as an opaque value.
#[verifier::external_type_specification]
#[verifier::external_body]
pub struct RawOrderByExpr(sqlparser::ast::OrderByExpr);

/// `sqlparser`'s `TableWithJoins`, held as an opaque value.
#[verifier::external_type_specification]
#[verifier::external_body]
pub struct RawTableWithJoins(sqlparser::ast::TableWithJoins);

/// `sqlparser`'s `TableFactor`, held as an opaque value.
#[verifier::external_type_specification]
#[verifier::external_body]
pub struct RawTableFactor(sqlparser::ast::TableFactor);

/// `sqlparser`'s `TableAlias`, held as an opaque value.
#[verifier::external_type_specification]
#[verifier::external_body]
pub struct RawTableAlias(sqlparser::ast::TableAlias);

/// `sqlparser`'s `ColumnDef`, held as an opaque value.
#[verifier::external_type_specification]
#[verifier::external_body]
pub struct RawColumnDef(sqlparser::ast::ColumnDef);

/// `sqlparser`'s `ColumnOptionDef`, held as an opaque value.
#[verifier::external_type_specification]
#[verifier::external_body]
pub struct RawColumnOptionDef(sqlparser::ast::ColumnOptionDef);

/// `sqlparser`'s `Insert`, held as an opaque value.
#[verifier::external_type_specification]
#[verifier::external_body]
pub struct RawInsert(sqlparser::ast::Insert);

/// `sqlparser`'s `GroupByExpr`, held as an opaque value.
#[verifier::external_type_specification]
#[verifier::external_body]
pub struct RawGroupByExpr(sqlparser::ast::GroupByExpr);

/// `sqlparser`'s `Distinct`, held as an opaque value.
#[verifier::external_type_specification]
#[verifier::external_body]
pub struct RawDistinct(sqlparser::ast::Distinct);

/// `sqlparser`'s `WildcardAdditionalOptions`, held as an opaque value.
#[verifier::external_type_specification]
#[verifier::external_body]
pub struct RawWildcardAdditionalOptions(sqlparser::ast::WildcardAdditionalOptions);

/// `sqlparser`'s `HiveDistributionStyle`, held as an opaque value.
#[verifier::external_type_specification]
#[verifier::external_body]
pub struct RawHiveDistributionStyle(sqlparser::ast::HiveDistributionStyle);

/// `sqlparser`'s `HiveFormat`, held as an opaque value.
#[verifier::external_type_specification]
#[verifier::external_body]
pub struct RawHiveFormat(sqlparser::ast::HiveFormat);

/// `sqlparser`'s `DuplicateTreatment`, held as an opaque value.
#[verifier::external_type_specification]
#[verifier::external_body]
pub struct RawDuplicateTreatment(sqlparser::ast::DuplicateTreatment);

/// The statements that `sqlparser` reads from SQL text in its generic dialect, or the
/// text of its error.
pub uninterp spec fn parsed_sql(sql: Seq<char>) -> Result<Seq<SqlStatement>, Seq<char>>;

/// The statements or the error text in the result of parsing.
pub open spec fn statements_view(r: Result<Vec<SqlStatement>, String>) -> Result<
    Seq<SqlStatement>,
    Seq<char>,
> {
    match r {
        Ok(statements) => Ok(statements@),
        Err(message) => Err(message@),
    }
}

/// `sqlparser::parser::Parser::parse_sql` with the generic dialect: the result is a
/// function of the text alone. Each statement is handed over field by field. Texts on which
/// the parser, or the rendering of a statement, panics are left out. The depth to which
/// expressions may nest rests on the stack of the machine and is left unsaid.
#[verifier::external_body]
pub(crate) fn parse_sql(sql: &str) -> (r: Result<Vec<SqlStatement>, String>)
    requires
        parses_without_panic(sql@),
    ensures
        statements_view(r) == parsed_sql(sql@),
{
    match sqlparser::parser::Parser::parse_sql(&sqlparser::dialect::GenericDialect {}, sql) {
        Ok(statements) => Ok(statements.into_iter().map(statement).collect()),
        Err(error) => Err(error.to_string()),
    }
}

/// Hands over a parsed identifier; nothing is claimed of it.
#[verifier::external_body]
fn name(i: raw::Ident) -> (r: SqlName) {
    SqlName { value: i.value, quoted: i.quote_style.is_some() }
}

/// Hands over a parsed object name; nothing is claimed of it.
#[verifier::external_body]
fn path(n: raw::ObjectName) -> (r: SqlPath) {
    let text = n.to_string();
    SqlPath { parts: n.0.into_iter().map(name).collect(), text }
}

/// Hands over a parsed literal; nothing is claimed of it.
#[verifier::external_body]
fn literal(a: raw::FunctionArgExpr) -> (r: SqlLiteral) {
    let (text, debug) = (a.to_string(), format!("{a:?}"));
    let kind = match a {
        raw::FunctionArgExpr::Expr(raw::Expr::Value(v)) => match v {
            raw::Value::Number(s, _) => LiteralKind::Number(s),
            raw::Value::SingleQuotedString(s) => LiteralKind::SingleQuoted(s),
            raw::Value::DoubleQuotedString(s) => LiteralKind::DoubleQuoted(s),
            raw::Value::EscapedStringLiteral(s) => LiteralKind::Escaped(s),
            raw::Value::NationalStringLiteral(s) => LiteralKind::National(s),
            raw::Value::RawStringLiteral(s) => LiteralKind::Unprocessed(s),
            raw::Value::Boolean(b) => LiteralKind::Boolean(b),
            raw::Value::Null => LiteralKind::Null,
            _ => LiteralKind::Other,
        },
        _ => LiteralKind::Other };
    SqlLiteral { kind, text, debug }
}

/// Hands over a parsed operation with one operand; nothing is claimed of it.
#[verifier::external_body]
fn unary(a: raw::FunctionArgExpr) -> (r: SqlExpr) {
    match a {
        raw::FunctionArgExpr::Expr(raw::Expr::UnaryOp { op, expr }) => {
            let (text, debug) = (op.to_string(), format!("{op:?}"));
            let kind = match op {
                raw::UnaryOperator::Plus => UnaryKind::Plus,
                raw::UnaryOperator::Minus => UnaryKind::Minus,
                raw::UnaryOperator::Not => UnaryKind::Not,
                _ => UnaryKind::Other,
            };
            SqlExpr::Unary { op: SqlUnary { kind, text, debug }, expr: operand((*expr).into()) }
        },
        other => binary(other),
    }
}

/// Hands over a parsed operation with two operands; nothing is claimed of it.
#[verifier::external_body]
fn binary(a: raw::FunctionArgExpr) -> (r: SqlExpr) {
    let kind = binary_kind(&a);
    match a {
        raw::FunctionArgExpr::Expr(raw::Expr::BinaryOp { left, op, right }) => SqlExpr::Binary {
            left: operand((*left).into()),
            op: SqlBinary { kind, text: op.to_string(), debug: format!("{op:?}") },
            right: operand((*right).into()),
        },
        other => predicate(other),
    }
}

/// Tells the operators of parsed operations with two operands apart; nothing is claimed
/// of the result.
#[verifier::external_body]
fn binary_kind(a: &raw::FunctionArgExpr) -> (r: BinaryKind) {
    match a {
        raw::FunctionArgExpr::Expr(raw::Expr::BinaryOp { op, .. }) => match op {
            raw::BinaryOperator::Plus => BinaryKind::Plus, raw::BinaryOperator::Minus => BinaryKind::Minus,
            raw::BinaryOperator::Multiply => BinaryKind::Multiply, raw::BinaryOperator::Divide => BinaryKind::Divide,
            raw::BinaryOperator::Modulo => BinaryKind::Modulo, raw::BinaryOperator::StringConcat => BinaryKind::Concat,
            raw::BinaryOperator::Eq => BinaryKind::Eq, raw::BinaryOperator::NotEq => BinaryKind::NotEq,
            raw::BinaryOperator::Gt => BinaryKind::Gt, raw::BinaryOperator::GtEq => BinaryKind::GtEq,
            raw::BinaryOperator::Lt => BinaryKind::Lt, raw::BinaryOperator::LtEq => BinaryKind::LtEq,
            raw::BinaryOperator::And => BinaryKind::And, raw::BinaryOperator::Or => BinaryKind::Or,
            _ => BinaryKind::Other,
        },
        _ => BinaryKind::Other,
    }
}

/// Hands over a parsed expression in a box; nothing is claimed of it.
#[verifier::external_body]
fn operand(a: raw::FunctionArgExpr) -> (r: Box<SqlExpr>) {
    Box::new(expr(a))
}

/// Hands over a parsed expression; nothing is claimed of it.
#[verifier::external_body]
fn expr(a: raw::FunctionArgExpr) -> (r: SqlExpr) {
    match a {
        raw::FunctionArgExpr::Expr(raw::Expr::Identifier(i)) => SqlExpr::Identifier(name(i)),
        raw::FunctionArgExpr::Expr(ref e @ raw::Expr::CompoundIdentifier(ref ids)) => {
            SqlExpr::CompoundIdentifier { parts: ids.iter().cloned().map(name).collect(), text: e.to_string(), debug: format!("{e:?}") }
        },
        raw::FunctionArgExpr::Expr(raw::Expr::Value(v)) => SqlExpr::Value(literal(raw::Expr::Value(v).into())),
        raw::FunctionArgExpr::Expr(raw::Expr::Nested(e)) => SqlExpr::Nested(operand((*e).into())),
        raw::FunctionArgExpr::Expr(raw::Expr::Function(f)) => SqlExpr::Call(call(f)),
        other => unary(other),
    }
}

/// Hands over a parsed predicate on one operand; nothing is claimed of it.
#[verifier::external_body]
fn predicate(a: raw::FunctionArgExpr) -> (r: SqlExpr) {
    let (test, e) = match a {
        raw::FunctionArgExpr::Expr(raw::Expr::IsNull(e)) => (Test::Null, e),
        raw::FunctionArgExpr::Expr(raw::Expr::IsNotNull(e)) => (Test::NotNull, e),
        raw::FunctionArgExpr::Expr(raw::Expr::IsTrue(e)) => (Test::True, e),
        raw::FunctionArgExpr::Expr(raw::Expr::IsFalse(e)) => (Test::False, e),
        raw::FunctionArgExpr::Expr(raw::Expr::IsNotTrue(e)) => (Test::NotTrue, e),
        raw::FunctionArgExpr::Expr(raw::Expr::IsNotFalse(e)) => (Test::NotFalse, e),
        other => return membership(other),
    };
    SqlExpr::Is { test, expr: operand((*e).into()) }
}

/// Hands over a parsed range or list test; nothing is claimed of it.
#[verifier::external_body]
fn membership(a: raw::FunctionArgExpr) -> (r: SqlExpr) {
    match a {
        raw::FunctionArgExpr::Expr(raw::Expr::Between { expr, negated, low, high }) => {
            let (expr, low, high) = (operand((*expr).into()), operand((*low).into()), operand((*high).into()));
            SqlExpr::Between { expr, negated, low, high }
        },
        raw::FunctionArgExpr::Expr(raw::Expr::InList { expr: e, list, negated }) => {
            let list = list.into_iter().map(raw::FunctionArgExpr::from).map(expr).collect();
            SqlExpr::InList { expr: operand((*e).into()), list, negated }
        },
        other => pattern(other),
    }
}

/// Hands over a parsed pattern match; nothing is claimed of it.
#[verifier::external_body]
fn pattern(a: raw::FunctionArgExpr) -> (r: SqlExpr) {
    let (insensitive, negated, expr, pattern, escape) = match a {
        raw::FunctionArgExpr::Expr(raw::Expr::Like { negated, expr, pattern, escape_char }) => (false, negated, expr, pattern, escape_char),
        raw::FunctionArgExpr::Expr(raw::Expr::ILike { negated, expr, pattern, escape_char }) => (true, negated, expr, pattern, escape_char),
        other => return cast(other),
    };
    let matching = PatternMatch { negated, insensitive, escape_debug: format!("{escape:?}"), escape };
    SqlExpr::Like { expr: operand((*expr).into()), pattern: operand((*pattern).into()), matching }
}

/// Hands over a parsed cast, or the text of any other expression; nothing is claimed
/// of it.
#[verifier::external_body]
fn cast(a: raw::FunctionArgExpr) -> (r: SqlExpr) {
    match a {
        raw::FunctionArgExpr::Expr(raw::Expr::Cast { kind, expr, data_type, format }) => {
            let (kind_debug, format_debug) = (format!("{kind:?}"), format!("{format:?}"));
            let kind = match kind {
                raw::CastKind::Cast => CastForm::Cast,
                raw::CastKind::TryCast => CastForm::TryCast,
                raw::CastKind::SafeCast => CastForm::SafeCast,
                raw::CastKind::DoubleColon => CastForm::DoubleColon,
            };
            SqlExpr::Cast { expr: operand((*expr).into()), target: CastTarget { kind, kind_debug, data_type: data_type.to_string(), has_format: format.is_some(), format_debug } }
        },
        other => SqlExpr::Other { text: other.to_string(), debug: format!("{other:?}") },
    }
}

/// Hands over a parsed function call; nothing is claimed of it.
#[verifier::external_body]
fn call(f: raw::Function) -> (r: SqlCall) {
    SqlCall {
        name: path(f.name),
        over: f.over.is_some(),
        filter: f.filter.is_some(),
        null_treatment: f.null_treatment.is_some(),
        within_group: f.within_group.len(),
        arguments: arguments(f.args),
    }
}

/// Hands over what was parsed on duplicate arguments; nothing is claimed of it.
#[verifier::external_body]
fn treatment(t: raw::DuplicateTreatment) -> (r: Treatment) {
    match t {
        raw::DuplicateTreatment::Distinct => Treatment::Distinct,
        raw::DuplicateTreatment::All => Treatment::All,
    }
}

/// Hands over parsed function arguments; nothing is claimed of them.
#[verifier::external_body]
fn arguments(a: raw::FunctionArguments) -> (r: Arguments) {
    match a {
        raw::FunctionArguments::List(list) => Arguments::List {
            items: list.args.into_iter().map(argument).collect(),
            treatment: list.duplicate_treatment.map(treatment),
            clauses: list.clauses.len(),
        },
        other => Arguments::Other { debug: format!("{other:?}") },
    }
}

/// Hands over one parsed function argument; nothing is claimed of it.
#[verifier::external_body]
fn argument(a: raw::FunctionArg) -> (r: Argument) {
    let debug = format!("{a:?}");
    match a {
        raw::FunctionArg::Named { arg, .. } => Argument { named: Some(debug), value: argument_value(arg) },
        raw::FunctionArg::Unnamed(arg) => Argument { named: None, value: argument_value(arg) },
    }
}

/// Hands over the value of a parsed function argument; nothing is claimed of it.
#[verifier::external_body]
fn argument_value(a: raw::FunctionArgExpr) -> (r: ArgumentValue) {
    match a {
        raw::FunctionArgExpr::Expr(e) => ArgumentValue::Expr(expr(e.into())),
        raw::FunctionArgExpr::QualifiedWildcard(n) => ArgumentValue::QualifiedWildcard(path(n)),
        raw::FunctionArgExpr::Wildcard => ArgumentValue::Wildcard,
    }
}

/// Hands over which modifiers of a wildcard were parsed; nothing is claimed of them.
#[verifier::external_body]
fn wildcard_modifiers(o: raw::WildcardAdditionalOptions) -> (r: WildcardModifiers) {
    WildcardModifiers {
        ilike: o.opt_ilike.is_some(),
        exclude: o.opt_exclude.is_some(),
        except: o.opt_except.is_some(),
        rename: o.opt_rename.is_some(),
        replace: o.opt_replace.is_some(),
    }
}

/// Hands over one parsed item of a select list; nothing is claimed of it.
#[verifier::external_body]
fn select_item(i: raw::SelectItem) -> (r: SqlSelectItem) {
    match i {
        raw::SelectItem::UnnamedExpr(e) => SqlSelectItem::Unnamed { text: e.to_string(), expr: expr(e.into()) },
        raw::SelectItem::ExprWithAlias { expr: e, alias } => SqlSelectItem::Aliased { expr: expr(e.into()), alias: name(alias) },
        raw::SelectItem::Wildcard(o) => SqlSelectItem::Wildcard { modifiers: wildcard_modifiers(o) },
        raw::SelectItem::QualifiedWildcard(n, o) => SqlSelectItem::QualifiedWildcard { name: path(n), modifiers: wildcard_modifiers(o) },
    }
}

/// Hands over one parsed sort key; nothing is claimed of it.
#[verifier::external_body]
fn order_key(o: raw::OrderByExpr) -> (r: OrderKey) {
    OrderKey { expr: expr(o.expr.into()), ascending: o.asc, nulls_first: o.nulls_first }
}

/// Hands over a parsed table alias; nothing is claimed of it.
#[verifier::external_body]
fn table_alias(a: raw::TableAlias) -> (r: SqlAlias) {
    SqlAlias { name: name(a.name), columns: a.columns.len() }
}

/// Hands over a parsed relation; nothing is claimed of it.
#[verifier::external_body]
fn relation(t: raw::TableFactor) -> (r: Relation) {
    match t {
        raw::TableFactor::Table { name, alias, args, with_hints, version, partitions } => Relation::Table {
            name: path(name),
            alias: alias.map(table_alias),
            clauses: TableClauses {
                args: args.is_some(),
                with_hints: with_hints.len(),
                version: version.is_some(),
                partitions: partitions.len(),
            },
        },
        _ => Relation::Other,
    }
}

/// Hands over one parsed `FROM` item; nothing is claimed of it.
#[verifier::external_body]
fn from_item(t: raw::TableWithJoins) -> (r: FromItem) {
    FromItem { joins: t.joins.len(), relation: relation(t.relation) }
}

/// Hands over the parsed treatment of duplicates; nothing is claimed of it.
#[verifier::external_body]
fn duplicates(d: Option<raw::Distinct>) -> (r: Duplicates) {
    match d {
        None => Duplicates::Keep,
        Some(raw::Distinct::Distinct) => Duplicates::Remove,
        Some(raw::Distinct::On(_)) => Duplicates::RemoveOn,
    }
}

/// Hands over which further clauses a parsed `SELECT` has; nothing is claimed of it.
#[verifier::external_body]
fn select_clauses(s: &raw::Select) -> (r: SelectClauses) {
    SelectClauses {
        top: s.top.is_some(),
        into: s.into.is_some(),
        lateral_views: s.lateral_views.len(),
        cluster_by: s.cluster_by.len(),
        distribute_by: s.distribute_by.len(),
        sort_by: s.sort_by.len(),
        named_window: s.named_window.len(),
        qualify: s.qualify.is_some(),
        value_table_mode: s.value_table_mode.is_some(),
        connect_by: s.connect_by.is_some(),
    }
}

/// Hands over a parsed `GROUP BY`; nothing is claimed of it.
#[verifier::external_body]
fn group_by(g: raw::GroupByExpr) -> (r: Option<Vec<SqlExpr>>) {
    match g {
        raw::GroupByExpr::All => None,
        raw::GroupByExpr::Expressions(list) => Some(list.into_iter().map(raw::FunctionArgExpr::from).map(expr).collect()),
    }
}

/// Hands over a parsed `SELECT`; nothing is claimed of it.
#[verifier::external_body]
fn select(s: raw::Select) -> (r: SqlSelect) {
    SqlSelect {
        clauses: select_clauses(&s),
        duplicates: duplicates(s.distinct),
        projection: s.projection.into_iter().map(select_item).collect(),
        from: s.from.into_iter().map(from_item).collect(),
        selection: s.selection.map(raw::FunctionArgExpr::from).map(expr),
        group_by: group_by(s.group_by),
        having: s.having.map(raw::FunctionArgExpr::from).map(expr),
    }
}

/// Hands over one parsed row of values; nothing is claimed of it.
#[verifier::external_body]
fn value_row(row: Vec<raw::FunctionArgExpr>) -> (r: Vec<SqlExpr>) {
    row.into_iter().map(expr).collect()
}

/// Hands over the body of a parsed query; nothing is claimed of it.
#[verifier::external_body]
fn query_body(b: raw::SetExpr) -> (r: QueryBody) {
    match b {
        raw::SetExpr::Select(s) => QueryBody::Select(Box::new(select(*s))),
        raw::SetExpr::Values(v) => QueryBody::Values(v.rows.into_iter().map(|row| value_row(row.into_iter().map(raw::FunctionArgExpr::from).collect())).collect()),
        _ => QueryBody::Other,
    }
}

/// Hands over which further clauses a parsed query has; nothing is claimed of it.
#[verifier::external_body]
fn query_clauses(q: &raw::Query) -> (r: QueryClauses) {
    QueryClauses {
        with: q.with.is_some(),
        offset: q.offset.is_some(),
        fetch: q.fetch.is_some(),
        limit_by: q.limit_by.len(),
        locks: q.locks.len(),
        for_clause: q.for_clause.is_some(),
    }
}

/// Hands over a parsed query; nothing is claimed of it.
#[verifier::external_body]
fn query(q: raw::Query) -> (r: SqlQuery) {
    SqlQuery {
        clauses: query_clauses(&q),
        body: query_body(*q.body),
        order_by: q.order_by.into_iter().map(order_key).collect(),
        limit: q.limit.map(raw::FunctionArgExpr::from).map(expr),
    }
}

/// Hands over one parsed column option; nothing is claimed of it.
#[verifier::external_body]
fn column_option(o: raw::ColumnOptionDef) -> (r: SqlColumnOption) {
    let text = o.option.to_string();
    let option = match o.option {
        raw::ColumnOption::Null => ColumnRule::Null,
        raw::ColumnOption::NotNull => ColumnRule::NotNull,
        _ => ColumnRule::Other,
    };
    SqlColumnOption { option, named: o.name.is_some(), text }
}

/// Hands over one parsed column definition; nothing is claimed of it.
#[verifier::external_body]
fn column(c: raw::ColumnDef) -> (r: SqlColumn) {
    SqlColumn {
        name: name(c.name),
        data_type: c.data_type.to_string(),
        has_collation: c.collation.is_some(),
        options: c.options.into_iter().map(column_option).collect(),
    }
}

/// Hands over the words that qualify a parsed `CREATE TABLE`; nothing is claimed of them.
#[verifier::external_body]
fn table_kind(s: &raw::Statement) -> (r: Option<TableKind>) {
    match s {
        raw::Statement::CreateTable { or_replace, temporary, external, global, transient, without_rowid, strict, .. } => Some(TableKind {
            or_replace: *or_replace,
            temporary: *temporary,
            outer_storage: *external,
            global: global.is_some(),
            transient: *transient,
            without_rowid: *without_rowid,
            strict: *strict,
        }),
        _ => None,
    }
}

/// Hands over the parsed distribution of a table; nothing is claimed of it.
#[verifier::external_body]
fn distribution(d: &raw::HiveDistributionStyle) -> (r: Distribution) {
    match d {
        raw::HiveDistributionStyle::PARTITIONED { .. } => Distribution::Partitioned,
        raw::HiveDistributionStyle::CLUSTERED { .. } => Distribution::Clustered,
        raw::HiveDistributionStyle::SKEWED { .. } => Distribution::Skewed,
        raw::HiveDistributionStyle::NONE => Distribution::Unset,
    }
}

/// Hands over which parts of a storage format were parsed; nothing is claimed of them.
#[verifier::external_body]
fn format_parts(f: &raw::HiveFormat) -> (r: FormatParts) {
    FormatParts {
        row_format: f.row_format.is_some(),
        serde_properties: f.serde_properties.is_some(),
        storage: f.storage.is_some(),
        location: f.location.is_some(),
    }
}

/// Hands over the storage clauses of a parsed `CREATE TABLE`; nothing is claimed of them.
#[verifier::external_body]
fn storage_options(s: &raw::Statement) -> (r: Option<StorageOptions>) {
    match s {
        raw::Statement::CreateTable { constraints, hive_distribution, hive_formats, table_properties, with_options, file_format, location, .. } => Some(StorageOptions {
            constraints: constraints.len(),
            distribution: distribution(hive_distribution),
            formats: hive_formats.as_ref().map(format_parts),
            table_properties: table_properties.len(),
            with_options: with_options.len(),
            file_format: file_format.is_some(),
            location: location.is_some(),
        }),
        _ => None,
    }
}

/// Hands over the source clauses of a parsed `CREATE TABLE`; nothing is claimed of them.
#[verifier::external_body]
fn source_options(s: &raw::Statement) -> (r: Option<SourceOptions>) {
    match s {
        raw::Statement::CreateTable { query, like, clone, engine, comment, on_commit, on_cluster, .. } => Some(SourceOptions {
            query: query.is_some(),
            like: like.is_some(),
            clone: clone.is_some(),
            engine: engine.clone(),
            comment: comment.is_some(),
            on_commit: on_commit.is_some(),
            on_cluster: on_cluster.is_some(),
        }),
        _ => None,
    }
}

/// Hands over the layout clauses of a parsed `CREATE TABLE`; nothing is claimed of them.
#[verifier::external_body]
fn layout_options(s: &raw::Statement) -> (r: Option<LayoutOptions>) {
    match s {
        raw::Statement::CreateTable { auto_increment_offset, default_charset, collation, order_by, partition_by, cluster_by, options, .. } => Some(LayoutOptions {
            auto_increment_offset: auto_increment_offset.is_some(),
            default_charset: default_charset.is_some(),
            collation: collation.is_some(),
            order_by: order_by.is_some(),
            partition_by: partition_by.is_some(),
            cluster_by: cluster_by.is_some(),
            options: options.is_some(),
        }),
        _ => None,
    }
}

/// Hands over which options a parsed `INSERT` has; nothing is claimed of them.
#[verifier::external_body]
fn insert_options(i: &raw::Insert) -> (r: InsertOptions) {
    InsertOptions {
        or: i.or.is_some(),
        ignore: i.ignore,
        table_alias: i.table_alias.is_some(),
        overwrite: i.overwrite,
        partitioned: i.partitioned.is_some(),
        after_columns: i.after_columns.len(),
        table: i.table,
        on: i.on.is_some(),
        returning: i.returning.is_some(),
        replace_into: i.replace_into,
        priority: i.priority.is_some(),
        insert_alias: i.insert_alias.is_some(),
    }
}

/// Hands over a parsed `INSERT`; nothing is claimed of it.
#[verifier::external_body]
fn insert(i: raw::Insert) -> (r: SqlInsert) {
    SqlInsert {
        options: insert_options(&i),
        table_name: path(i.table_name),
        columns: i.columns.into_iter().map(name).collect(),
        source: i.source.map(|q| query(*q)),
    }
}

/// Hands over a parsed `CREATE TABLE`; nothing is claimed of it.
#[verifier::external_body]
fn create_table(s: raw::Statement) -> (r: SqlStatement) {
    match (table_kind(&s), storage_options(&s), source_options(&s), layout_options(&s), s) {
        (Some(kind), Some(storage), Some(source), Some(layout), raw::Statement::CreateTable { name, columns, if_not_exists, .. }) => {
            let columns = columns.into_iter().map(column).collect();
            SqlStatement::CreateTable(SqlCreateTable { name: path(name), columns, if_not_exists, kind, storage, source, layout })
        },
        (_, _, _, _, other) => SqlStatement::Other { text: other.to_string() },
    }
}

/// Hands over a parsed statement; nothing is claimed of it.
#[verifier::external_body]
fn statement(s: raw::Statement) -> (r: SqlStatement) {
    match s {
        raw::Statement::Insert(i) => SqlStatement::Insert(insert(i)),
        raw::Statement::Query(q) => SqlStatement::Query(query(*q)),
        other => create_table(other),
    }
}

} // verus!
