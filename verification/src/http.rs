//! Bounded HTTP exchanges.

pub mod exchange;
pub mod guarantees;
pub mod headers;
pub mod listener;
pub mod metrics;
pub mod parameters;
pub mod reading;
pub mod request;
pub mod response;
pub mod sql_format;
