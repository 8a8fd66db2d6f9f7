//! A streaming log-to-metric correlation engine for a multimedia pipeline
//! debugger.
//!
//! The library turns a pipeline description string into a directed element
//! graph, classifies diagnostic log lines into typed metric records, binds
//! those records to graph entities by a name-prefix policy, and keeps them in
//! an append-only store with most-recent-wins queries.

pub mod classify;
pub mod correlate;
pub mod graph;
pub mod ingest;
pub mod store;
pub mod text;
