//! An in-memory OTLP trace store: span ingestion, string interning, per-trace columnar
//! storage with parent linkage, budgeted eviction, receiver diagnostics and a span filter
//! query language.

pub mod api;
pub mod cli;
pub mod demo;
pub mod dump;
pub mod client;
pub mod fxmap;
pub mod ingest;
pub mod port_conflict;
pub mod receiver;
pub mod store;
pub mod text;
