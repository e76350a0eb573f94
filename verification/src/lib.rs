//! An in-memory analytical SQL engine with verified behaviour.

pub mod aggregates;
pub mod ast;
pub mod binding;
pub mod budget;
pub mod bytes;
pub mod catalog;
pub mod columnar;
pub mod engine;
pub mod error;
pub mod eval;
pub mod evaluator;
pub mod execution;
pub mod executor;
pub mod expression;
pub mod float;
pub mod format;
pub mod formats;
pub mod group_spill;
pub mod grouping;
pub mod grouping_rules;
pub mod guarantees;
pub mod http;
pub mod identifier;
pub mod input;
pub mod insert;
pub mod join;
pub mod json_each_row;
pub mod json_text;
pub mod kernels;
pub mod laws;
pub mod lexer;
pub mod ordering;
pub mod pattern;
pub mod planning;
pub mod scalar;
pub mod selecting;
pub mod sorting;
pub mod sql;
pub mod sql_tokens;
pub mod stable_hash;
pub mod storage;
pub mod text;
pub mod types;
