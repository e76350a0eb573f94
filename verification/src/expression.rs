//! Scalar expressions: parsing and evaluation.

pub mod context;
pub mod evaluation;
pub mod fault;
pub mod functions;
pub mod guarantees;
pub mod lexing;
pub mod operators;
pub mod parsing;
pub mod precedence;
pub mod spelling;
pub mod tree;

pub use crate::expression::context::EvaluationContext;
pub use crate::expression::fault::ExpressionError;
pub use crate::expression::parsing::{evaluate, parse};
pub use crate::expression::tree::{BinaryOperator, Expr, UnaryOperator, MAX_EXPRESSION_DEPTH};
