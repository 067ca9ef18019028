//! Incremental trace-topology reconstruction.
//!
//! The library ingests distributed-tracing spans, stitches parent/child
//! references into a caller/callee graph of services and operations, applies
//! time-windowed retention, and materializes the retained state into an
//! items-and-relations document for a downstream relation-graph service.

pub mod ingest;
pub mod keys;
pub mod laws;
pub mod materialize;
pub mod retain;
pub mod span;
pub mod state;
pub mod table;
