//! Builds a compact per-codepoint Unicode dataset from the raw Unicode
//! Character Database text exports and an HTML entity mapping, persists it
//! into a fixed-schema keyed store, packages that store for distribution,
//! and answers lookup queries against the finished store.

pub mod text;
pub mod numbers;
pub mod category;
pub mod bidi;
pub mod record;
pub mod record_map;
pub mod error;
pub mod ucd;
pub mod annotate;
pub mod store;
pub mod lookup;
pub mod package;
pub mod sources;
pub mod pipeline;
