//! Reconstruction of structured records from the flat, sentinel-delimited
//! XML exports of an accounting system's reporting interface.
//!
//! The exporter emits a report of N records as one flat sequence of sibling
//! tags: tag identity, not nesting, says which record and field a value
//! belongs to. This crate turns such a stream back into ordered, structured
//! records, with a sentinel-grouping reconstructor as the canonical strategy
//! and a positional parallel-column reconstructor as a legacy alternative.

pub mod reconstruct;
pub mod stock_query;
pub mod stock_vouchers;
pub mod text;
pub mod types;
pub mod xml_source;
