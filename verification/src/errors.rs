//! The error taxonomy of the engine.
//!
//! Storage failures are surfaced as the coarse `StorageError` kind: no query
//! text or driver detail ever travels up to a caller.

use vstd::prelude::*;

verus! {

/// Every failure an engine operation can report.
#[derive(Clone, Copy, Debug, PartialEq, Eq, Structural)]
pub enum VaultError {
    /// The addressed table (or row) does not exist.
    NotFound,
    /// An imported record's field count differs from the table's column count.
    ColumnMismatch,
    /// The imported text is not valid CSV (or not valid UTF-8).
    ValidationError,
    /// The underlying relational store failed.
    StorageError,
    /// Encryption of a cell failed (e.g. the plaintext is too large for the key).
    CryptoError,
}

} // verus!
