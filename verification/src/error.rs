//! Errors of the data layer.
use vstd::prelude::*;

verus! {

/// What the storage engine reported, or what made a stored row unreadable.
#[derive(Debug, PartialEq, Eq)]
pub enum StorageFault {
    /// The column of this number holds a value of another type.
    WrongType(u8),
    /// A position that does not fit the 32 bits an item has for it.
    OrderOutOfRange(i64),
    /// The text of the creation time is no timestamp.
    BadCreatedAt,
    /// The text of the modification time is no timestamp.
    BadUpdatedAt,
    /// A number in the type column that stands for no kind of item.
    UnknownKind(i64),
    /// The file was opened for reading only.
    ReadOnly,
    /// The file does not hold a readable database.
    NotADatabase(String),
    /// Any other report, in the engine's own words.
    Other(String),
}

/// Errors of the data layer.
#[allow(inconsistent_fields)]
#[derive(Debug, PartialEq, Eq)]
pub enum DataError {
    /// There is no database at this path.
    NotFound(String),
    /// An item without an id cannot be updated.
    MissingId,
    /// No item has this id.
    ItemNotFound(i64),
    /// A `parent_id` that would break the tree: the item itself, one of its own descendants,
    /// or a row that does not exist.
    InvalidParent { id: i64, parent_id: i64 },
    /// The schema version on disk is ahead of this build.
    CorruptSchema { found: Option<u32>, expected: u32 },
    Sqlite(StorageFault),
    Io(String),
    Migration(String),
    /// The file is encrypted and this build cannot open it.
    EncryptedButUnsupported,
    /// The file did not decrypt under the given key.
    WrongPassphrase,
    /// A converted file does not hold as many items as the original.
    ConversionMismatch { expected: i64, got: i64 },
}

} // verus!
