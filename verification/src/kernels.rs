//! Kernels over the selected rows of batches of nullable columns.

pub mod aggregate;
pub mod batch;
pub mod controlled;
pub mod group;
pub mod guarantees;
pub mod predicate;
pub mod slots;
