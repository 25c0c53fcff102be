//! Verified core of a multi-version, two-phase-commit key-value write path.
//!
//! The central modules implement the optimistic prewrite/flush engine: given a
//! batch of mutations for one transaction, they decide per key whether the
//! current state (committed versions, locks, rollbacks) permits the mutation,
//! and if so stage a provisional lock. Around that core sit small verified
//! utilities: human-readable size and duration units, a TOML patcher, JSON
//! value comparison, path normalization, and parsers for storage options.

pub mod collation;
pub mod config;
pub mod gcs;
pub mod errors;
pub mod json;
pub mod flush;
pub mod laws;
pub mod mysql;
pub mod paths;
pub mod prewrite;
pub mod store;
pub mod toml_writer;
pub mod types;

pub use types::TimeStamp;
