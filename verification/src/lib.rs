//! Driver layer for an embedded analytical database: connection
//! configuration, safe SQL identifier generation, ingestion SQL
//! generation for uploaded files, conversion of native column values
//! to JSON, and the statement planning that backs per-dataset storage.

pub mod codec;
pub mod config;
pub mod driver;
pub mod error;
pub mod ingest;
pub mod models;
pub mod sanitize;
pub mod strutil;
