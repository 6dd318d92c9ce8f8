use vstd::prelude::*;

verus! {

/// The error taxonomy of the storage layer.
#[derive(Clone, Copy, Debug, PartialEq, Eq, Structural)]
pub enum StoreError {
    /// The requested id is absent or soft-deleted.
    NotFound,
    /// An insert collided with a record that already holds the same id.
    Conflict,
    /// A filesystem step failed, such as a name collision in the trash.
    IoFailure,
    /// The underlying relational engine failed.
    StoreFailure,
    /// A multi-step operation was left half done: metadata and content
    /// no longer agree and the caller must reconcile.
    Internal,
}

} // verus!
