//! Entity handles and the shape of a component list.

use vstd::prelude::*;

verus! {

/// An opaque entity handle. Callers are responsible for supplying fresh
/// identifiers; the core performs no uniqueness enforcement on them.
pub type EntityID = usize;

/// An insertion-ordered list of components of one type, each paired with the
/// entity it belongs to.
pub type ComponentList<T> = Vec<(EntityID, T)>;

} // verus!
