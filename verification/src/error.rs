//! Error values returned by the library.
//!
//! Every failure is reported as a value; the verified functions of this
//! library never panic.

use vstd::prelude::*;

verus! {

/// Why a borrow of a storage cell was refused.
#[derive(Clone, Copy, PartialEq, Eq, Structural, Debug)]
pub enum BorrowError {
    /// A shared borrow was requested while an exclusive borrow is live.
    Shared,
    /// An exclusive borrow was requested while any borrow is live.
    Unique,
    /// The storage may only be borrowed from its owning thread.
    WrongThread,
    /// The storage admits one thread at a time and is already held.
    MultipleThreads,
    /// The shared-borrow count would exceed its representational limit.
    TooManyBorrows,
}

/// Why a storage could not be handed out by the registry.
#[derive(Clone, Copy, PartialEq, Eq, Structural, Debug)]
pub enum StorageError {
    /// The storage exists but its borrow cell refused the access.
    StorageBorrow(BorrowError),
    /// No storage is registered under the requested id.
    MissingStorage,
    /// A view demanded tracking (the flags carried here) that the storage
    /// does not have enabled.
    TrackingNotEnabled(u32),
    /// An entity does not own a component in the storage.
    MissingComponent,
    /// Two entities were given where distinct ones are needed, but they
    /// point at the same component.
    IdenticalIds,
}

/// Why a workload could not be registered, renamed or made the default.
#[derive(Clone, Copy, PartialEq, Eq, Structural, Debug)]
pub enum WorkloadError {
    /// No workload is registered under the given name.
    MissingWorkload,
    /// A workload is already registered under the given name.
    AlreadyExists,
}

} // verus!
