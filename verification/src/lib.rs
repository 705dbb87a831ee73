//! An entity-component-system dispatch core.
//!
//! Components are typed values attached to entities; each component type is
//! kept in an insertion-ordered store inside a [`components::ComponentRegistry`],
//! guarded by a per-type lock state. Events are named occurrences with a
//! payload queue for the current tick and one for the next tick; a
//! [`world::World`] ties the registry, the event queues and the registered
//! handlers together and drives dispatch with `next_tick` and `run_events`.

use vstd::prelude::*;

pub mod components;
pub mod events;
pub mod laws;
pub mod systems;
pub mod world;
pub mod entities;
pub mod errors;

verus! {

} // verus!
