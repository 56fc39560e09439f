use vstd::prelude::*;

verus! {

/// The kinds of failure that the storage layers report.
#[derive(Debug, Clone, Copy, PartialEq, Eq, Structural)]
pub enum StorageError {
    /// A slice's offset and length run past the page's capacity,
    /// or a page index lies past the instance's page count.
    OutOfRange,
    /// An operation named an id that does not exist.
    UnknownId,
    /// A creation named an id that is already taken.
    AlreadyExists,
    /// An operation reached an instance that was already committed or discarded.
    FinalizedInstance,
    /// A write reached a buffer that was frozen read-only.
    FrozenBuffer,
    /// The backing key-value store failed.
    BackingStoreFailure,
    /// A foreign byte encoding could not be decoded.
    MalformedEncoding,
}

} // verus!
