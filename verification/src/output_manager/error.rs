//! The errors of the output manager's storage.

use crate::output_manager::database::{DbKey, DbKeyRecord};
use vstd::prelude::*;

verus! {

/// Why a storage operation did nothing.
#[derive(Debug, PartialEq, Eq)]
pub enum OutputManagerStorageError {
    /// An output with this spending key is already held as unspent or spent.
    DuplicateOutput,
    /// Nothing is held under this key.
    ValueNotFound(DbKey),
    /// An output that was asked for is not among the unspent outputs.
    ValuesNotFound,
    /// The key names a whole collection, which cannot be removed.
    OperationNotSupported,
    /// No key manager state has been stored yet.
    KeyManagerNotInitialized,
    /// The timeout period is longer than the clock arithmetic can represent.
    DurationOutOfRange,
}

/// The view of an [`OutputManagerStorageError`].
pub enum StorageErrorRecord {
    DuplicateOutput,
    ValueNotFound(DbKeyRecord),
    ValuesNotFound,
    OperationNotSupported,
    KeyManagerNotInitialized,
    DurationOutOfRange,
}

impl View for OutputManagerStorageError {
    type V = StorageErrorRecord;

    open spec fn view(&self) -> StorageErrorRecord {
        match self {
            OutputManagerStorageError::DuplicateOutput => StorageErrorRecord::DuplicateOutput,
            OutputManagerStorageError::ValueNotFound(key) => StorageErrorRecord::ValueNotFound(
                key@,
            ),
            OutputManagerStorageError::ValuesNotFound => StorageErrorRecord::ValuesNotFound,
            OutputManagerStorageError::OperationNotSupported => {
                StorageErrorRecord::OperationNotSupported
            },
            OutputManagerStorageError::KeyManagerNotInitialized => {
                StorageErrorRecord::KeyManagerNotInitialized
            },
            OutputManagerStorageError::DurationOutOfRange => StorageErrorRecord::DurationOutOfRange,
        }
    }
}

} // verus!
