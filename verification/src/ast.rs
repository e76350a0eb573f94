//! The parsed form of SQL statements that the engine works on.
//!
//! Constructs that the engine refuses are kept as flags or as their SQL text.

use vstd::prelude::*;

verus! {

/// An identifier and whether it was written in quotes.
#[derive(Debug)]
pub struct SqlName {
    pub value: String,
    pub quoted: bool,
}

/// A possibly qualified name with its SQL text.
#[derive(Debug)]
pub struct SqlPath {
    pub parts: Vec<SqlName>,
    pub text: String,
}

/// The kind of a literal.
#[derive(Debug)]
pub enum LiteralKind {
    Number(String),
    SingleQuoted(String),
    DoubleQuoted(String),
    Escaped(String),
    National(String),
    Unprocessed(String),
    Boolean(bool),
    Null,
    Other,
}

/// A literal with its SQL text and an exact rendering of its form.
#[derive(Debug)]
pub struct SqlLiteral {
    pub kind: LiteralKind,
    pub text: String,
    pub debug: String,
}

/// The unary operators that the engine evaluates.
#[derive(Clone, Copy, Debug, PartialEq, Eq, Structural)]
pub enum UnaryKind {
    Plus,
    Minus,
    Not,
    Other,
}

/// A unary operator with its SQL text and an exact rendering.
#[derive(Debug)]
pub struct SqlUnary {
    pub kind: UnaryKind,
    pub text: String,
    pub debug: String,
}

/// The binary operators that the engine evaluates.
#[derive(Clone, Copy, Debug, PartialEq, Eq, Structural)]
pub enum BinaryKind {
    Plus,
    Minus,
    Multiply,
    Divide,
    Modulo,
    Concat,
    Eq,
    NotEq,
    Gt,
    GtEq,
    Lt,
    LtEq,
    And,
    Or,
    Other,
}

/// A binary operator with its SQL text and an exact rendering.
#[derive(Debug)]
pub struct SqlBinary {
    pub kind: BinaryKind,
    pub text: String,
    pub debug: String,
}

/// The test that a one-operand predicate makes.
#[derive(Clone, Copy, Debug, PartialEq, Eq, Structural)]
pub enum Test {
    Null,
    NotNull,
    True,
    False,
    NotTrue,
    NotFalse,
}

/// The form of a cast.
#[derive(Clone, Copy, Debug, PartialEq, Eq, Structural)]
pub enum CastForm {
    Cast,
    TryCast,
    SafeCast,
    DoubleColon,
}

/// The target of a cast.
#[derive(Debug)]
pub struct CastTarget {
    pub kind: CastForm,
    /// An exact rendering of the form of the cast.
    pub kind_debug: String,
    pub data_type: String,
    pub has_format: bool,
    /// An exact rendering of the format clause.
    pub format_debug: String,
}

/// A pattern match.
#[derive(Debug)]
pub struct PatternMatch {
    pub negated: bool,
    pub insensitive: bool,
    pub escape: Option<String>,
    /// An exact rendering of the escape clause.
    pub escape_debug: String,
}

/// An expression.
#[derive(Debug)]
pub enum SqlExpr {
    Identifier(SqlName),
    CompoundIdentifier { parts: Vec<SqlName>, text: String, debug: String },
    Value(SqlLiteral),
    Nested(Box<SqlExpr>),
    Unary { op: SqlUnary, expr: Box<SqlExpr> },
    Binary { left: Box<SqlExpr>, op: SqlBinary, right: Box<SqlExpr> },
    Is { test: Test, expr: Box<SqlExpr> },
    Between { expr: Box<SqlExpr>, negated: bool, low: Box<SqlExpr>, high: Box<SqlExpr> },
    InList { expr: Box<SqlExpr>, list: Vec<SqlExpr>, negated: bool },
    Like { expr: Box<SqlExpr>, pattern: Box<SqlExpr>, matching: PatternMatch },
    Cast { expr: Box<SqlExpr>, target: CastTarget },
    Call(SqlCall),
    Other { text: String, debug: String },
}

/// A function call; the flags and the count tell which clauses follow it.
#[derive(Debug)]
pub struct SqlCall {
    pub name: SqlPath,
    pub over: bool,
    pub filter: bool,
    pub null_treatment: bool,
    pub within_group: usize,
    pub arguments: Arguments,
}

/// What is written before the arguments of a function call on duplicates among them.
#[derive(Clone, Copy, Debug, PartialEq, Eq, Structural)]
pub enum Treatment {
    Distinct,
    All,
}

/// The arguments of a function call.
#[derive(Debug)]
pub enum Arguments {
    List { items: Vec<Argument>, treatment: Option<Treatment>, clauses: usize },
    Other { debug: String },
}

/// One argument of a function call.
#[derive(Debug)]
pub struct Argument {
    /// The exact rendering of a named argument; `None` for one without a name.
    pub named: Option<String>,
    pub value: ArgumentValue,
}

/// The value of an argument.
#[derive(Debug)]
pub enum ArgumentValue {
    Expr(SqlExpr),
    QualifiedWildcard(SqlPath),
    Wildcard,
}

/// Which modifiers follow a wildcard.
#[derive(Clone, Copy, Debug, PartialEq, Eq, Structural)]
pub struct WildcardModifiers {
    pub ilike: bool,
    pub exclude: bool,
    pub except: bool,
    pub rename: bool,
    pub replace: bool,
}

/// One item of a select list.
#[derive(Debug)]
pub enum SqlSelectItem {
    Unnamed { expr: SqlExpr, text: String },
    Aliased { expr: SqlExpr, alias: SqlName },
    Wildcard { modifiers: WildcardModifiers },
    QualifiedWildcard { name: SqlPath, modifiers: WildcardModifiers },
}

/// One key of an `ORDER BY` clause.
#[derive(Debug)]
pub struct OrderKey {
    pub expr: SqlExpr,
    pub ascending: Option<bool>,
    pub nulls_first: Option<bool>,
}

/// An alias of a table, and the number of column names with it.
#[derive(Debug)]
pub struct SqlAlias {
    pub name: SqlName,
    pub columns: usize,
}

/// The clauses that may follow a table name; a list counts its items.
#[derive(Debug)]
pub struct TableClauses {
    pub args: bool,
    pub with_hints: usize,
    pub version: bool,
    pub partitions: usize,
}

/// The relation of a `FROM` item.
#[derive(Debug)]
pub enum Relation {
    Table { name: SqlPath, alias: Option<SqlAlias>, clauses: TableClauses },
    Other,
}

/// One `FROM` item, and the number of joins with it.
#[derive(Debug)]
pub struct FromItem {
    pub relation: Relation,
    pub joins: usize,
}

/// How duplicate rows are treated.
#[derive(Clone, Copy, Debug, PartialEq, Eq, Structural)]
pub enum Duplicates {
    Keep,
    Remove,
    RemoveOn,
}

/// The clauses of a `SELECT` beside those that the engine evaluates; a list counts its items.
#[derive(Debug)]
pub struct SelectClauses {
    pub top: bool,
    pub into: bool,
    pub lateral_views: usize,
    pub cluster_by: usize,
    pub distribute_by: usize,
    pub sort_by: usize,
    pub named_window: usize,
    pub qualify: bool,
    pub value_table_mode: bool,
    pub connect_by: bool,
}

/// A `SELECT`.
#[derive(Debug)]
pub struct SqlSelect {
    pub duplicates: Duplicates,
    pub clauses: SelectClauses,
    pub projection: Vec<SqlSelectItem>,
    pub from: Vec<FromItem>,
    pub selection: Option<SqlExpr>,
    /// `None` stands for `GROUP BY ALL`.
    pub group_by: Option<Vec<SqlExpr>>,
    pub having: Option<SqlExpr>,
}

/// The body of a query.
#[derive(Debug)]
pub enum QueryBody {
    Select(Box<SqlSelect>),
    Values(Vec<Vec<SqlExpr>>),
    Other,
}

/// The clauses of a query beside `ORDER BY` and `LIMIT`; a list counts its items.
#[derive(Debug)]
pub struct QueryClauses {
    pub with: bool,
    pub offset: bool,
    pub fetch: bool,
    pub limit_by: usize,
    pub locks: usize,
    pub for_clause: bool,
}

/// A query.
#[derive(Debug)]
pub struct SqlQuery {
    pub body: QueryBody,
    pub clauses: QueryClauses,
    pub order_by: Vec<OrderKey>,
    pub limit: Option<SqlExpr>,
}

/// One option of a column definition.
#[derive(Debug)]
pub enum ColumnRule {
    Null,
    NotNull,
    Other,
}

/// A column option, its SQL text and whether it carries a constraint name.
#[derive(Debug)]
pub struct SqlColumnOption {
    pub option: ColumnRule,
    pub named: bool,
    pub text: String,
}

/// A column definition.
#[derive(Debug)]
pub struct SqlColumn {
    pub name: SqlName,
    pub data_type: String,
    pub has_collation: bool,
    pub options: Vec<SqlColumnOption>,
}

/// The words that qualify the table of a `CREATE TABLE`.
#[derive(Debug)]
pub struct TableKind {
    pub or_replace: bool,
    pub temporary: bool,
    pub outer_storage: bool,
    pub global: bool,
    pub transient: bool,
    pub without_rowid: bool,
    pub strict: bool,
}

/// How a table is distributed.
#[derive(Clone, Copy, Debug, PartialEq, Eq, Structural)]
pub enum Distribution {
    Partitioned,
    Clustered,
    Skewed,
    Unset,
}

/// Which parts of a storage format are given.
#[derive(Clone, Copy, Debug, PartialEq, Eq, Structural)]
pub struct FormatParts {
    pub row_format: bool,
    pub serde_properties: bool,
    pub storage: bool,
    pub location: bool,
}

/// The storage clauses of a `CREATE TABLE`; a list counts its items.
#[derive(Debug)]
pub struct StorageOptions {
    pub constraints: usize,
    pub distribution: Distribution,
    pub formats: Option<FormatParts>,
    pub table_properties: usize,
    pub with_options: usize,
    pub file_format: bool,
    pub location: bool,
}

/// The clauses of a `CREATE TABLE` on where its contents come from and belong.
#[derive(Debug)]
pub struct SourceOptions {
    pub query: bool,
    pub like: bool,
    pub clone: bool,
    pub engine: Option<String>,
    pub comment: bool,
    pub on_commit: bool,
    pub on_cluster: bool,
}

/// The layout clauses of a `CREATE TABLE`.
#[derive(Debug)]
pub struct LayoutOptions {
    pub auto_increment_offset: bool,
    pub default_charset: bool,
    pub collation: bool,
    pub order_by: bool,
    pub partition_by: bool,
    pub cluster_by: bool,
    pub options: bool,
}

/// A `CREATE TABLE` statement.
#[derive(Debug)]
pub struct SqlCreateTable {
    pub name: SqlPath,
    pub columns: Vec<SqlColumn>,
    pub if_not_exists: bool,
    pub kind: TableKind,
    pub storage: StorageOptions,
    pub source: SourceOptions,
    pub layout: LayoutOptions,
}

/// The options of an `INSERT`; a list counts its items.
#[derive(Debug)]
pub struct InsertOptions {
    pub or: bool,
    pub ignore: bool,
    pub table_alias: bool,
    pub overwrite: bool,
    pub partitioned: bool,
    pub after_columns: usize,
    pub table: bool,
    pub on: bool,
    pub returning: bool,
    pub replace_into: bool,
    pub priority: bool,
    pub insert_alias: bool,
}

/// An `INSERT` statement.
#[derive(Debug)]
pub struct SqlInsert {
    pub table_name: SqlPath,
    pub columns: Vec<SqlName>,
    pub options: InsertOptions,
    pub source: Option<SqlQuery>,
}

/// A token of SQL text.
#[derive(Debug)]
pub enum SqlToken {
    /// A word with the name of its keyword, which is `NoKeyword` for any other word and for
    /// one in quotes.
    Word { keyword: String },
    Number(String),
    SingleQuoted,
    DoubleQuoted,
    Escaped,
    LeftBrace,
    RightBrace,
    LeftParenthesis,
    RightParenthesis,
    Comma,
    Period,
    Equals,
    Semicolon,
    Space,
    Other,
}

/// A token of SQL text and where it begins: its line and its column there, both from 1 on.
#[derive(Debug)]
pub struct LocatedToken {
    pub token: SqlToken,
    pub line: u64,
    pub column: u64,
}

/// A statement.
#[derive(Debug)]
pub enum SqlStatement {
    CreateTable(SqlCreateTable),
    Insert(SqlInsert),
    Query(SqlQuery),
    Other { text: String },
}

} // verus!
