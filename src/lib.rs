//! Ingestion core of a log collection and search service: records, the schema,
//! coercion of records against it, extraction of records from log lines, the
//! framing of records on the transport stream, and the declaration of the
//! schema to the index engine.
pub mod coerce;
pub mod config;
pub mod decimal;
pub mod engine;
pub mod extract;
pub mod frame;
pub mod record;
