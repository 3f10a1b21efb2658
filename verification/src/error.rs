//! The typed error surface: every failure is distinguishable and returned
//! to the immediate caller; nothing is swallowed inside this crate.

use vstd::prelude::*;

verus! {

/// Why a byte sequence was rejected by the decoder.
#[derive(Clone, Copy, Debug, PartialEq, Eq)]
pub enum DecodeError {
    /// The input ends before the record does (empty input included).
    Truncated,
    /// The leading tag byte names no known record variant.
    UnknownTag,
    /// A key position holds a value that is not a Unicode scalar value.
    InvalidChar,
}

/// An error in the WAL layer.
#[derive(Clone, Copy, Debug, PartialEq, Eq)]
pub enum WalError {
    /// A record could not be encoded.
    Encode,
    /// A byte sequence could not be decoded into a record.
    Decode(DecodeError),
    /// The writer's underlying resource failed (open, append, flush or sync).
    Io,
    /// An acknowledgment channel closed before a reply arrived.
    RecvClosed,
    /// The request queue is closed: the consumer is gone.
    SendClosed,
}

/// An error in the storage layer: either a WAL failure that gated a
/// mutation, or a missing key.
#[derive(Clone, Copy, Debug, PartialEq, Eq)]
pub enum StorageError {
    Wal(WalError),
    NotFound,
}

impl From<WalError> for StorageError {
    fn from(value: WalError) -> (r: Self) {
        StorageError::Wal(value)
    }
}

impl vstd::std_specs::convert::FromSpecImpl<WalError> for StorageError {
    open spec fn obeys_from_spec() -> bool {
        true
    }

    open spec fn from_spec(value: WalError) -> Self {
        StorageError::Wal(value)
    }
}

/// An error of the plain in-memory store.
#[derive(Clone, Copy, Debug, PartialEq, Eq)]
pub enum StoreError {
    NotFound,
}

} // verus!
