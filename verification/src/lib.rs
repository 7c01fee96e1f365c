//! Verified core of the finstack blotter service and of the helper logic
//! behind the finstack quant Python surface.
//!
//! The blotter half covers the book's risk and kill-switch records, the
//! staleness rule, the ingest authorization rule and the start-up plan of the
//! service state. The quant half covers the small pieces of logic that the
//! Python surface performs on its own: sequence indexing, composite calendar
//! codes, row-major matrices and grids, per-period lookups and the label
//! vocabularies.
pub mod ingest;
pub mod metrics;
pub mod quant;
pub mod state;
pub mod text;
pub mod types;

pub use state::AppStateConfig;
