//! Execution of logical plans over typed columns.

pub mod grouping;
pub mod guarantees;
pub mod plan;
pub mod ranking;
pub mod running;
