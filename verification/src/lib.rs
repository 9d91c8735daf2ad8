//! An embedded, transactional key-value store with named column families and
//! point-in-time versioning.
//!
//! The store keeps its state as plain verified data: a live database of
//! column families (each a map from byte keys to byte values), transactions
//! that buffer writes with nested savepoints, and a history of retained
//! versions identified by a number and a caller-supplied id.  All decisions —
//! read/write semantics, savepoint rollback, version-directory parsing,
//! contiguity validation, retention trimming, rollback to a version — are
//! made here under contracts; the host process performs the surrounding disk
//! and engine work and hands the results in as plain values.

use vstd::prelude::*;

pub mod assoc;
pub mod bytes;
pub mod handles;
pub mod iterator;
pub mod kvmap;
pub mod marshal;
pub mod storage;
pub mod storage_versioned;
pub mod store;
pub mod transaction;
pub mod transaction_versioned;
pub mod versions;

verus! {

/// The kind of every error the store can return.
///
/// Failing operations leave observable state unchanged and report one of
/// these kinds; the store never panics on handled conditions.
#[derive(Clone, Copy, Debug, PartialEq, Eq, Structural)]
pub enum StorageError {
    /// A requested column family, version or key is absent where required.
    NotFound,
    /// A malformed argument: an iterator `From` mode without a key, an
    /// unknown iterator mode or direction code, an empty or
    /// delimiter-bearing version id.
    InvalidArgument,
    /// An attempt to create a version with an id that already exists.
    AlreadyExists,
    /// The operation is not allowed in the current state: rollback to a
    /// savepoint with an empty stack, commit or rollback after commit,
    /// commit of a snapshot transaction, or a column-family lookup made on
    /// the wrong transaction kind.
    FailedPrecondition,
    /// The version directory is damaged: an unparseable entry name or a
    /// non-contiguous or duplicated set of version numbers or ids.
    Corruption,
    /// A filesystem failure reported by the host.
    Io,
    /// A failure surfaced from the underlying storage engine.
    Engine,
}

impl StorageError {
    /// The name of the error kind, for host exception messages.
    pub fn kind_name(&self) -> (r: String)
        ensures
            r@ == match *self {
                StorageError::NotFound => "NotFound"@,
                StorageError::InvalidArgument => "InvalidArgument"@,
                StorageError::AlreadyExists => "AlreadyExists"@,
                StorageError::FailedPrecondition => "FailedPrecondition"@,
                StorageError::Corruption => "Corruption"@,
                StorageError::Io => "Io"@,
                StorageError::Engine => "Engine"@,
            },
    {
        match *self {
            StorageError::NotFound => "NotFound".to_owned(),
            StorageError::InvalidArgument => "InvalidArgument".to_owned(),
            StorageError::AlreadyExists => "AlreadyExists".to_owned(),
            StorageError::FailedPrecondition => "FailedPrecondition".to_owned(),
            StorageError::Corruption => "Corruption".to_owned(),
            StorageError::Io => "Io".to_owned(),
            StorageError::Engine => "Engine".to_owned(),
        }
    }
}

} // verus!
