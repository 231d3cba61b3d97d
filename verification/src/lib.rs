//! Verified core of a block-range ingestion pipeline: it walks an inclusive
//! range of block numbers, normalizes fetched blocks, classifies transactions
//! that carry blob payloads, decodes their blob metadata, and aggregates and
//! persists the results idempotently.

pub mod aggregate;
pub mod chain;
pub mod classifier;
pub mod decoder;
pub mod extract;
pub mod pipeline;
pub mod store;
pub mod types;
pub mod walker;
