//! Content-addressed string analysis: a deterministic analyzer, a store keyed
//! by content hash, a filter engine over stored entries, and a small
//! phrase-based translator from free text to filters.

pub mod analysis;
pub mod filter;
pub mod interpret;
pub mod laws;
pub mod store;
pub mod text;
