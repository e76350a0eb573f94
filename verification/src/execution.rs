//! Execution of statements against tables of one column.

pub mod errors;
pub mod operators;
pub mod running;
pub mod statements;
pub mod table;
