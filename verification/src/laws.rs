//! What operations are for, stated over their inputs and results alone.

pub mod aggregates;
pub mod allowances;
pub mod batch_groups;
pub mod batches;
pub mod clauses;
pub mod columns;
pub mod conditions;
pub mod counts;
pub mod expressions;
pub mod group_values;
pub mod names;
pub mod orders;
pub mod patterns;
pub mod plan_rows;
pub mod plans;
pub mod queries;
pub mod readings;
pub mod rendering;
pub mod requests;
pub mod results;
pub mod scalars;
pub mod selects;
pub mod statements;
pub mod static_types;
pub mod values;
