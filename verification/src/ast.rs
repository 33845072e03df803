use vstd::prelude::*;
use vstd::string::StringExecFns;

verus! {

/// Every fatal condition of the engine. Any of these aborts the whole
/// query; none is retried and none is silently ignored.
#[derive(Debug, Clone, Copy, PartialEq, Eq, Structural)]
pub enum EngineError {
    /// A statement, operator, select item or table factor outside the
    /// supported `SELECT`-from-one-table grammar.
    UnsupportedConstruct,
    /// A column reference that the current attribute list does not contain.
    UnresolvedColumn,
    /// An operand of `>` that did not evaluate to an integer.
    NotAnInteger,
    /// A numeric literal that is not a well-formed 64-bit signed integer.
    MalformedNumber,
    /// A query without a usable FROM source.
    MissingFrom,
    /// A CSV source whose header record cannot be read.
    BadSource,
}

impl EngineError {
    /// A short diagnostic text for each condition.
    pub fn describe(&self) -> (s: String)
        ensures
            s@ == match self {
                EngineError::UnsupportedConstruct => "unsupported construct"@,
                EngineError::UnresolvedColumn => "unresolved column reference"@,
                EngineError::NotAnInteger => "comparison operand is not an integer"@,
                EngineError::MalformedNumber => "malformed numeric literal"@,
                EngineError::MissingFrom => "FROM must be provided"@,
                EngineError::BadSource => "could not read CSV header"@,
            },
    {
        match self {
            EngineError::UnsupportedConstruct => String::from_str("unsupported construct"),
            EngineError::UnresolvedColumn => String::from_str("unresolved column reference"),
            EngineError::NotAnInteger => String::from_str("comparison operand is not an integer"),
            EngineError::MalformedNumber => String::from_str("malformed numeric literal"),
            EngineError::MissingFrom => String::from_str("FROM must be provided"),
            EngineError::BadSource => String::from_str("could not read CSV header"),
        }
    }
}

/// A binary operator of a WHERE expression. `Other` stands for every
/// operator the SQL grammar knows but this engine does not support.
#[derive(Debug, Clone, Copy, PartialEq, Eq, Structural)]
pub enum BinOp {
    And,
    Or,
    Gt,
    Other,
}

/// A scalar/boolean expression, re-evaluated per row and never mutated.
/// `Unsupported` stands for every expression shape outside the grammar
/// (function calls, arithmetic, subqueries, unrecognised literals).
#[derive(Debug, PartialEq, Eq)]
pub enum Expr {
    Identifier(String),
    BoolLiteral(bool),
    StringLiteral(String),
    NumberLiteral(String),
    BinaryOp { op: BinOp, left: Box<Expr>, right: Box<Expr> },
    Unsupported,
}

/// One entry of the SELECT list: the wildcard, a bare column reference
/// with an optional output alias, or an unsupported shape (computed
/// expressions, qualified wildcards, and the like).
#[derive(Debug, PartialEq, Eq)]
pub enum SelectItem {
    Wildcard,
    Column { name: String, alias: Option<String> },
    Unsupported,
}

/// One FROM source: the dot-separated parts of the table's qualified name,
/// how many joins are attached to it, and whether it is a plain named
/// table (rather than a derived table, function call, or similar).
#[derive(Debug)]
pub struct TableRef {
    pub name_parts: Vec<String>,
    pub join_count: usize,
    pub is_plain_table: bool,
}

/// The parsed shape of one SELECT statement, as this engine consumes it.
#[derive(Debug)]
pub struct SelectQuery {
    pub from: Vec<TableRef>,
    pub projection: Vec<SelectItem>,
    pub selection: Option<Expr>,
}

/// One parsed SQL statement. Anything other than a plain SELECT query
/// (INSERT, UPDATE, DDL, set operations, ...) is `Unsupported`.
#[derive(Debug)]
pub enum StatementAst {
    Select(SelectQuery),
    Unsupported,
}

} // verus!
