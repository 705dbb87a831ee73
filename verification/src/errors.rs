//! Errors surfaced by the registry, the event queues and the dispatcher.

use vstd::prelude::*;

verus! {

/// Why a registry or queue operation was refused.
#[derive(Clone, Copy, Debug, PartialEq, Eq, Structural)]
pub enum EcsError {
    /// A lock or store was requested for a component type that was never
    /// registered.
    UnknownComponentType,
    /// A component type or an event name was registered a second time.
    DuplicateRegistration,
    /// A store handle was used against a slot that holds a different
    /// component type.
    TypeMismatch,
    /// A trigger or a handler registration named an event that does not
    /// exist.
    UnknownEvent,
    /// The store's lock is held in a way that excludes the requested access.
    LockAcquisitionFailed,
    /// A handler declared the same component type in both its read set and
    /// its write set, which would self-deadlock at dispatch time.
    OverlappingAccessSets,
}

} // verus!
