//! Bulk formats with bounded parsing and transactional ingestion.

pub mod csv;
pub mod csv_export;
pub mod csv_round_trip;
pub mod json_record;
pub mod limits;
pub mod ndjson;
pub mod ndjson_round_trip;
pub mod staging;
pub mod with_names;
