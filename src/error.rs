//! Errors of the storage layer.
use vstd::prelude::*;

verus! {

#[derive(Clone, PartialEq, Eq, Debug)]
pub enum AccessError {
    /// The key is valid but no matching row exists.
    NotFound,
    /// The store's payload decoded to no row.
    EmptyResult,
    /// The store's payload is malformed.
    DecodeError,
    /// The store or the routing layer failed; its report is kept verbatim.
    WorkerError(String),
    /// The reply channel closed before any event arrived.
    NoResponse,
    /// A message row has no metadata.
    NoMetadata,
    /// A message row has no message body.
    NoMessageData,
    /// A transaction-variant column holds an unknown tag.
    MalformedVariant,
    /// An index key is not an even number of hexadecimal digits.
    InvalidHex,
    /// An index key does not have the length of a hashed index.
    InvalidIndexLength,
}

} // verus!
