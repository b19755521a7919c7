//! Storage encoding and query-resolution layer of a ledger archive.
//!
//! The crate lays out ledger rows as bytes, decodes the single reply of a
//! store lookup, and derives ledger state (solidity, inclusion, spent
//! outputs) from the decoded rows.
pub mod api;
pub mod codec;
pub mod dispatch;
pub mod error;
pub mod ids;
pub mod metadata;
pub mod outputs;
pub mod records;
pub mod transaction;
pub mod wrappers;
