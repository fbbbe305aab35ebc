//! Error taxonomy of the lookup index.
//!
//! Codec-level failures never panic: malformed or truncated bytes are
//! surfaced as typed decode errors. A decode error on bytes read back from
//! the store is a corruption signal (`StoreDamaged`), never silently skipped.

use vstd::prelude::*;

verus! {

/// Failure while decoding key or value bytes.
#[derive(Clone, Copy, Debug, PartialEq, Eq, Structural)]
pub enum CodecError {
    /// Fewer bytes remain than the field requires.
    Truncated,
    /// The name bytes are not valid UTF-8.
    InvalidUtf8,
    /// A variable-length length prefix does not fit in 64 bits.
    LengthOverflow,
}

/// Failure of a lookup-index read: bytes already persisted in the store
/// failed to decode, which cannot be told apart from a software bug that
/// wrote bad bytes.
#[derive(Clone, Copy, Debug, PartialEq, Eq, Structural)]
pub enum IndexError {
    StoreDamaged,
}

/// Failure to apply one committed log entry.
#[derive(Clone, Copy, Debug, PartialEq, Eq, Structural)]
pub enum ApplyError {
    /// Persisted state failed to decode; the replica faults.
    StoreDamaged,
    /// A create or rename target already holds an entry.
    DatabaseAlreadyExists,
    /// A drop or rename source has no entry.
    UnknownDatabase,
    /// The replica already faulted; it refuses further entries.
    ReplicaFaulted,
}

} // verus!
