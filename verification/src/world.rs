//! The dispatch core's context object: a component registry, the registered
//! events with their two-phase queues, and the handler implementations,
//! threaded explicitly through every operation instead of living in
//! process-wide state.

use vstd::prelude::*;

use crate::components::{
    copy_stores, copy_vec, create_spec, first_failure, has_type, index_of,
    lemma_first_failure_congruent, lemma_first_failure_none, lemma_set_store_views,
    lemma_view_preserved, put_spec, register_spec, registry_wf, slot_of, snapshots_spec,
    take_spec, view_spec, views_model, ComponentRegistry, ComponentStore, ExclusiveView,
    SharedView, SlotModel, StoreHandle, StoreModel,
};
use crate::entities::EntityID;
use crate::errors::EcsError;
use crate::events::{
    contains_tid, drain_spec, has_event_named, overlapping, promote_spec, register_event_spec,
    register_handler_spec, sorted_unique, strictly_increasing, trigger_next_spec,
    trigger_this_spec, DescModel, Event, EventModel, Handler, HandlerDesc,
};

verus! {

/// Every handler registration points into a handler list of length `n`.
pub open spec fn handlers_in_bounds<P>(evs: Seq<EventModel<P>>, n: int) -> bool {
    forall|e: int, k: int|
        0 <= e < evs.len() && 0 <= k < evs[e].handlers.len() ==> 0 <= #[trigger] evs[e].handlers[k].handler < n
}

/// Event names are unique: one entry per distinct event kind.
pub open spec fn names_unique<P>(evs: Seq<EventModel<P>>) -> bool {
    forall|i: int, j: int| 0 <= i < j < evs.len() ==> evs[i].name != evs[j].name
}

/// Every registration's access sets are kept canonical: sorted by type
/// identity, free of duplicates.
pub open spec fn descs_wf<P>(evs: Seq<EventModel<P>>) -> bool {
    forall|e: int, k: int|
        0 <= e < evs.len() && 0 <= k < evs[e].handlers.len() ==> strictly_increasing(
            (#[trigger] evs[e].handlers[k]).reads,
        ) && strictly_increasing(evs[e].handlers[k].writes)
}

/// Distinct registrations name distinct handler implementations, so one
/// dispatch pass invokes each handler implementation at most once.
pub open spec fn handlers_injective<P>(evs: Seq<EventModel<P>>) -> bool {
    forall|e1: int, k1: int, e2: int, k2: int|
        0 <= e1 < evs.len() && 0 <= k1 < evs[e1].handlers.len() && 0 <= e2 < evs.len() && 0 <= k2
            < evs[e2].handlers.len() && (e1 != e2 || k1 != k2) ==> (
        #[trigger] evs[e1].handlers[k1]).handler != (#[trigger] evs[e2].handlers[k2]).handler
}

/// Registration well-formedness carries over to an event list whose
/// handler registrations are unchanged entry for entry.
pub proof fn lemma_handlers_meta_preserved<P>(
    evs1: Seq<EventModel<P>>,
    evs2: Seq<EventModel<P>>,
    n: int,
)
    requires
        evs2.len() == evs1.len(),
        forall|i: int| 0 <= i < evs1.len() ==> (#[trigger] evs2[i]).handlers == evs1[i].handlers,
        handlers_in_bounds(evs1, n),
        descs_wf(evs1),
        handlers_injective(evs1),
    ensures
        handlers_in_bounds(evs2, n),
        descs_wf(evs2),
        handlers_injective(evs2),
{
    assert forall|e: int, k: int|
        0 <= e < evs2.len() && 0 <= k < evs2[e].handlers.len() implies 0 <= (
    #[trigger] evs2[e].handlers[k]).handler < n && strictly_increasing(evs2[e].handlers[k].reads)
        && strictly_increasing(evs2[e].handlers[k].writes) by {
        assert(evs2[e].handlers == evs1[e].handlers);
    }
    assert forall|e1: int, k1: int, e2: int, k2: int|
        0 <= e1 < evs2.len() && 0 <= k1 < evs2[e1].handlers.len() && 0 <= e2 < evs2.len() && 0
            <= k2 < evs2[e2].handlers.len() && (e1 != e2 || k1 != k2) implies (
    #[trigger] evs2[e1].handlers[k1]).handler != (#[trigger] evs2[e2].handlers[k2]).handler by {
        assert(evs2[e1].handlers == evs1[e1].handlers);
        assert(evs2[e2].handlers == evs1[e2].handlers);
    }
}

/// The entity-component-system context: component stores indexed by type
/// identity, events indexed by the handle their registration returned, and
/// the handler implementations that dispatch invokes.
///
/// `P` is the payload type of events, `C` the component value type (a
/// closed enumeration when several component kinds coexist), and `H` the
/// handler implementation type.
pub struct World<P, C, H> {
    /// The component registry.
    pub components: ComponentRegistry<C>,
    /// The registered events, in registration order; an event handle is an
    /// index into this list.
    pub events: Vec<Event<P>>,
    /// The handler implementations, in registration order.
    pub handlers: Vec<H>,
}

impl<P, C, H> World<P, C, H> {
    /// The ghost model of the event list.
    pub open spec fn events_model(self) -> Seq<EventModel<P>> {
        self.events@.map_values(|e: Event<P>| e@)
    }

    /// A well-formed world: component type identities are unique, handler
    /// registrations point into the handler list, and event names are
    /// unique.
    pub open spec fn wf(self) -> bool {
        &&& registry_wf(self.components@)
        &&& handlers_in_bounds(self.events_model(), self.handlers@.len() as int)
        &&& names_unique(self.events_model())
        &&& descs_wf(self.events_model())
        &&& handlers_injective(self.events_model())
    }

    /// An empty world.
    pub fn new() -> (r: World<P, C, H>)
        ensures
            r.wf(),
            r.components@ == Seq::<SlotModel<C>>::empty(),
            r.events_model() == Seq::<EventModel<P>>::empty(),
            r.handlers@ == Seq::<H>::empty(),
    {
        let r = World {
            components: ComponentRegistry::new(),
            events: Vec::new(),
            handlers: Vec::new(),
        };
        proof {
            assert(r.events_model() =~= Seq::<EventModel<P>>::empty());
        }
        r
    }

    /// The handler implementations, for inspection after dispatch.
    pub fn handler_list(&self) -> (r: &Vec<H>)
        ensures
            *r == self.handlers,
    {
        &self.handlers
    }

    /// Registers a new component type under `type_id`, creating its store.
    /// A second registration of the same identity is refused, so no second,
    /// divergent store can appear.
    pub fn register_component(&mut self, type_id: u64) -> (r: Result<StoreHandle, EcsError>)
        requires
            old(self).wf(),
        ensures
            final(self).wf(),
            final(self).events_model() == old(self).events_model(),
            final(self).handlers@ == old(self).handlers@,
            !has_type(old(self).components@, type_id) ==> {
                &&& final(self).components@ == register_spec(old(self).components@, type_id)
                &&& r matches Ok(h) && h.index as int == old(self).components@.len() && h.type_id
                    == type_id
            },
            has_type(old(self).components@, type_id) ==> {
                &&& final(self).components@ == old(self).components@
                &&& r == Err::<StoreHandle, EcsError>(EcsError::DuplicateRegistration)
            },
    {
        self.components.register(type_id)
    }

    /// Appends one (entity, value) pair to the store named by `handle`.
    pub fn create_component(
        &mut self,
        handle: StoreHandle,
        entity: EntityID,
        value: C,
    ) -> (r: Result<(), EcsError>)
        requires
            old(self).wf(),
        ensures
            final(self).wf(),
            final(self).events_model() == old(self).events_model(),
            final(self).handlers@ == old(self).handlers@,
            (handle.index as int) >= old(self).components@.len() ==> final(self).components@ == old(self).components@ && r == Err::<(), EcsError>(EcsError::UnknownComponentType),
            (handle.index as int) < old(self).components@.len() && old(self).components@[handle.index as int].type_id
                != handle.type_id ==> final(self).components@ == old(self).components@ && r
                == Err::<(), EcsError>(EcsError::TypeMismatch),
            (handle.index as int) < old(self).components@.len() && old(self).components@[handle.index as int].type_id
                == handle.type_id && old(self).components@[handle.index as int].locked ==> final(self).components@ == old(self).components@ && r == Err::<(), EcsError>(
                EcsError::LockAcquisitionFailed,
            ),
            (handle.index as int) < old(self).components@.len() && old(self).components@[handle.index as int].type_id
                == handle.type_id && !old(self).components@[handle.index as int].locked ==> final(self).components@ == create_spec(old(self).components@, handle.index as int, entity, value)
                && r == Ok::<(), EcsError>(()),
    {
        let r = self.components.create_component(handle, entity, value);
        proof {
            assert forall|a: int, b: int|
                0 <= a < b < self.components@.len() implies self.components@[a].type_id
                != self.components@[b].type_id by {
                assert(self.components@[a].type_id == old(self).components@[a].type_id);
                assert(self.components@[b].type_id == old(self).components@[b].type_id);
            }
        }
        r
    }

    /// Takes the writer view of the store registered under `type_id`; the
    /// slot stays locked until the view is handed back.
    pub fn acquire_exclusive(&mut self, type_id: u64) -> (r: Result<ExclusiveView<C>, EcsError>)
        requires
            old(self).wf(),
        ensures
            final(self).wf(),
            final(self).events_model() == old(self).events_model(),
            final(self).handlers@ == old(self).handlers@,
            !has_type(old(self).components@, type_id) ==> final(self).components@ == old(self).components@ && r == Err::<ExclusiveView<C>, EcsError>(EcsError::UnknownComponentType),
            has_type(old(self).components@, type_id) && slot_of(
                old(self).components@,
                type_id,
            ).locked ==> final(self).components@ == old(self).components@ && r == Err::<
                ExclusiveView<C>,
                EcsError,
            >(EcsError::LockAcquisitionFailed),
            has_type(old(self).components@, type_id) && !slot_of(
                old(self).components@,
                type_id,
            ).locked ==> {
                &&& r matches Ok(v)
                &&& v.store.type_id == type_id
                &&& v.store.entries@ == view_spec(old(self).components@, type_id)
                &&& final(self).components@ == take_spec(old(self).components@, type_id)
            },
    {
        self.components.acquire_exclusive(type_id)
    }

    /// Hands an exclusive view back, restoring (possibly mutated) pairs to
    /// the slot and unlocking it.
    pub fn release_exclusive(&mut self, view: ExclusiveView<C>) -> (r: Result<(), EcsError>)
        requires
            old(self).wf(),
        ensures
            final(self).wf(),
            final(self).events_model() == old(self).events_model(),
            final(self).handlers@ == old(self).handlers@,
            !has_type(old(self).components@, view.store.type_id) ==> final(self).components@ == old(self).components@ && r == Err::<(), EcsError>(EcsError::UnknownComponentType),
            has_type(old(self).components@, view.store.type_id) && !slot_of(
                old(self).components@,
                view.store.type_id,
            ).locked ==> final(self).components@ == old(self).components@ && r == Err::<
                (),
                EcsError,
            >(EcsError::LockAcquisitionFailed),
            has_type(old(self).components@, view.store.type_id) && slot_of(
                old(self).components@,
                view.store.type_id,
            ).locked ==> final(self).components@ == put_spec(
                old(self).components@,
                view.store.type_id,
                view.store.entries@,
            ) && r == Ok::<(), EcsError>(()),
    {
        self.components.release_exclusive(view)
    }

    /// Registers a new event under `name` and returns its handle. A second
    /// event of the same name is refused.
    pub fn register_event(&mut self, name: String) -> (r: Result<usize, EcsError>)
        requires
            old(self).wf(),
        ensures
            final(self).wf(),
            final(self).components@ == old(self).components@,
            final(self).handlers@ == old(self).handlers@,
            !has_event_named(old(self).events_model(), name@) ==> {
                &&& final(self).events_model() == register_event_spec(
                    old(self).events_model(),
                    name@,
                )
                &&& r matches Ok(h) && h as int == old(self).events_model().len()
            },
            has_event_named(old(self).events_model(), name@) ==> {
                &&& final(self).events_model() == old(self).events_model()
                &&& r == Err::<usize, EcsError>(EcsError::DuplicateRegistration)
            },
    {
        let ghost evs0 = self.events_model();
        let mut i: usize = 0;
        while i < self.events.len()
            invariant
                i <= self.events.len(),
                self == old(self),
                old(self).wf(),
                evs0 == self.events_model(),
                evs0.len() == self.events@.len(),
                forall|j: int| 0 <= j < i ==> evs0[j].name != name@,
            decreases self.events.len() - i,
        {
            if self.events[i].name == name {
                proof {
                    assert(evs0[i as int].name == name@);
                }
                return Err(EcsError::DuplicateRegistration);
            }
            i += 1;
        }
        let handle = self.events.len();
        let ghost nm = name@;
        self.events.push(
            Event { name, this_tick: Vec::new(), next_tick: Vec::new(), handlers: Vec::new() },
        );
        proof {
            assert(self.events_model() =~~= register_event_spec(evs0, nm));
            assert forall|a: int, b: int|
                0 <= a < b < self.events_model().len() implies self.events_model()[a].name
                != self.events_model()[b].name by {
                if b < evs0.len() {
                    assert(self.events_model()[a] == evs0[a]);
                    assert(self.events_model()[b] == evs0[b]);
                } else {
                    assert(self.events_model()[b].name == name@);
                    assert(self.events_model()[a] == evs0[a]);
                }
            }
            assert(handlers_in_bounds(self.events_model(), self.handlers@.len() as int));
        }
        Ok(handle)
    }

    /// Queues `payload` on event `event`'s current-tick queue and marks it
    /// pending for the next dispatch. Callers accept the same-tick
    /// recursion risk that the deferred default avoids.
    pub fn trigger_this_tick(&mut self, event: usize, payload: P) -> (r: Result<(), EcsError>)
        requires
            old(self).wf(),
        ensures
            final(self).wf(),
            final(self).components@ == old(self).components@,
            final(self).handlers@ == old(self).handlers@,
            (event as int) < old(self).events_model().len() ==> {
                &&& final(self).events_model() == trigger_this_spec(
                    old(self).events_model(),
                    event as int,
                    payload,
                )
                &&& r == Ok::<(), EcsError>(())
            },
            (event as int) >= old(self).events_model().len() ==> {
                &&& final(self).events_model() == old(self).events_model()
                &&& r == Err::<(), EcsError>(EcsError::UnknownEvent)
            },
    {
        if event >= self.events.len() {
            return Err(EcsError::UnknownEvent);
        }
        let ghost evs_pre = self.events_model();
        let ev = &mut self.events[event];
        ev.this_tick.push(payload);
        proof {
            assert forall|i: int|
                0 <= i < evs_pre.len() implies self.events_model()[i] =~~= trigger_this_spec(
                evs_pre,
                event as int,
                payload,
            )[i] by {
                if i != event {
                    assert(self.events_model()[i] == evs_pre[i]);
                } else {
                    assert(self.events_model()[i].this_tick == evs_pre[i].this_tick.push(payload));
                    assert(self.events_model()[i].name == evs_pre[i].name);
                    assert(self.events_model()[i].next_tick == evs_pre[i].next_tick);
                    assert(self.events_model()[i].handlers == evs_pre[i].handlers);
                }
            }
            assert(self.events_model() =~~= trigger_this_spec(evs_pre, event as int, payload));
            assert forall|a: int, b: int|
                0 <= a < b < self.events_model().len() implies self.events_model()[a].name
                != self.events_model()[b].name by {
                assert(self.events_model()[a].name == evs_pre[a].name);
                assert(self.events_model()[b].name == evs_pre[b].name);
            }
            assert(handlers_in_bounds(self.events_model(), self.handlers@.len() as int));
        }
        Ok(())
    }

    /// Queues `payload` on event `event`'s next-tick queue: the default
    /// trigger discipline, deferring delivery by one tick so that
    /// triggering during dispatch cannot recurse within the same tick.
    pub fn trigger_next_tick(&mut self, event: usize, payload: P) -> (r: Result<(), EcsError>)
        requires
            old(self).wf(),
        ensures
            final(self).wf(),
            final(self).components@ == old(self).components@,
            final(self).handlers@ == old(self).handlers@,
            (event as int) < old(self).events_model().len() ==> {
                &&& final(self).events_model() == trigger_next_spec(
                    old(self).events_model(),
                    event as int,
                    payload,
                )
                &&& r == Ok::<(), EcsError>(())
            },
            (event as int) >= old(self).events_model().len() ==> {
                &&& final(self).events_model() == old(self).events_model()
                &&& r == Err::<(), EcsError>(EcsError::UnknownEvent)
            },
    {
        if event >= self.events.len() {
            return Err(EcsError::UnknownEvent);
        }
        let ghost evs_pre = self.events_model();
        let ev = &mut self.events[event];
        ev.next_tick.push(payload);
        proof {
            assert forall|i: int|
                0 <= i < evs_pre.len() implies self.events_model()[i] =~~= trigger_next_spec(
                evs_pre,
                event as int,
                payload,
            )[i] by {
                if i != event {
                    assert(self.events_model()[i] == evs_pre[i]);
                } else {
                    assert(self.events_model()[i].next_tick == evs_pre[i].next_tick.push(payload));
                    assert(self.events_model()[i].name == evs_pre[i].name);
                    assert(self.events_model()[i].this_tick == evs_pre[i].this_tick);
                    assert(self.events_model()[i].handlers == evs_pre[i].handlers);
                }
            }
            assert(self.events_model() =~~= trigger_next_spec(evs_pre, event as int, payload));
            assert forall|a: int, b: int|
                0 <= a < b < self.events_model().len() implies self.events_model()[a].name
                != self.events_model()[b].name by {
                assert(self.events_model()[a].name == evs_pre[a].name);
                assert(self.events_model()[b].name == evs_pre[b].name);
            }
            assert(handlers_in_bounds(self.events_model(), self.handlers@.len() as int));
        }
        Ok(())
    }

    /// The default trigger: defers the payload to the following tick.
    pub fn trigger(&mut self, event: usize, payload: P) -> (r: Result<(), EcsError>)
        requires
            old(self).wf(),
        ensures
            final(self).wf(),
            final(self).components@ == old(self).components@,
            final(self).handlers@ == old(self).handlers@,
            (event as int) < old(self).events_model().len() ==> {
                &&& final(self).events_model() == trigger_next_spec(
                    old(self).events_model(),
                    event as int,
                    payload,
                )
                &&& r == Ok::<(), EcsError>(())
            },
            (event as int) >= old(self).events_model().len() ==> {
                &&& final(self).events_model() == old(self).events_model()
                &&& r == Err::<(), EcsError>(EcsError::UnknownEvent)
            },
    {
        self.trigger_next_tick(event, payload)
    }

    /// The escape hatch: queues the payload for the current tick.
    pub fn trigger_immediate(&mut self, event: usize, payload: P) -> (r: Result<(), EcsError>)
        requires
            old(self).wf(),
        ensures
            final(self).wf(),
            final(self).components@ == old(self).components@,
            final(self).handlers@ == old(self).handlers@,
            (event as int) < old(self).events_model().len() ==> {
                &&& final(self).events_model() == trigger_this_spec(
                    old(self).events_model(),
                    event as int,
                    payload,
                )
                &&& r == Ok::<(), EcsError>(())
            },
            (event as int) >= old(self).events_model().len() ==> {
                &&& final(self).events_model() == old(self).events_model()
                &&& r == Err::<(), EcsError>(EcsError::UnknownEvent)
            },
    {
        self.trigger_this_tick(event, payload)
    }

    /// Registers `handler` for event `event`, declaring the component types
    /// it reads (shared) and the component types it writes (exclusive).
    /// Each set is sorted by type identity and freed of duplicates, the
    /// canonical acquisition order. A type in both sets would self-deadlock
    /// a reader/writer lock at dispatch time, so it is refused here, at
    /// registration time.
    pub fn register_handler(
        &mut self,
        event: usize,
        handler: H,
        reads: Vec<u64>,
        writes: Vec<u64>,
    ) -> (r: Result<(), EcsError>)
        requires
            old(self).wf(),
        ensures
            final(self).wf(),
            final(self).components@ == old(self).components@,
            (event as int) >= old(self).events_model().len() ==> final(self).events_model() == old(self).events_model() && final(self).handlers@ == old(self).handlers@ && r == Err::<
                (),
                EcsError,
            >(EcsError::UnknownEvent),
            (event as int) < old(self).events_model().len() && overlapping(reads@, writes@)
                ==> final(self).events_model() == old(self).events_model() && final(self).handlers@
                == old(self).handlers@ && r == Err::<(), EcsError>(EcsError::OverlappingAccessSets),
            (event as int) < old(self).events_model().len() && !overlapping(reads@, writes@) ==> {
                &&& r == Ok::<(), EcsError>(())
                &&& final(self).handlers@ == old(self).handlers@.push(handler)
                &&& ({
                    let d = final(self).events_model()[event as int].handlers.last();
                    &&& final(self).events_model() == register_handler_spec(
                        old(self).events_model(),
                        event as int,
                        d,
                    )
                    &&& d.handler == old(self).handlers@.len()
                    &&& strictly_increasing(d.reads)
                    &&& strictly_increasing(d.writes)
                    &&& (forall|t: u64| d.reads.contains(t) <==> reads@.contains(t))
                    &&& (forall|t: u64| d.writes.contains(t) <==> writes@.contains(t))
                })
            },
    {
        if event >= self.events.len() {
            return Err(EcsError::UnknownEvent);
        }
        let sreads = sorted_unique(&reads);
        let swrites = sorted_unique(&writes);
        let mut i: usize = 0;
        while i < sreads.len()
            invariant
                i <= sreads.len(),
                self == old(self),
                old(self).wf(),
                (event as int) < old(self).events_model().len(),
                strictly_increasing(sreads@),
                strictly_increasing(swrites@),
                forall|t: u64| sreads@.contains(t) <==> reads@.contains(t),
                forall|t: u64| swrites@.contains(t) <==> writes@.contains(t),
                forall|j: int| 0 <= j < i ==> !swrites@.contains(sreads@[j]),
            decreases sreads.len() - i,
        {
            if contains_tid(&swrites, sreads[i]) {
                proof {
                    assert(sreads@.contains(sreads@[i as int]));
                    assert(reads@.contains(sreads@[i as int]) && writes@.contains(
                        sreads@[i as int],
                    ));
                }
                return Err(EcsError::OverlappingAccessSets);
            }
            i += 1;
        }
        proof {
            assert(!overlapping(reads@, writes@)) by {
                if overlapping(reads@, writes@) {
                    let t = choose|t: u64| reads@.contains(t) && writes@.contains(t);
                    assert(sreads@.contains(t));
                    let w = choose|w: int| 0 <= w < sreads@.len() && sreads@[w] == t;
                    assert(!swrites@.contains(sreads@[w]));
                    assert(false);
                }
            }
            assert(!overlapping(sreads@, swrites@)) by {
                if overlapping(sreads@, swrites@) {
                    let t = choose|t: u64| sreads@.contains(t) && swrites@.contains(t);
                    assert(reads@.contains(t) && writes@.contains(t));
                    assert(overlapping(reads@, writes@));
                }
            }
        }
        let hidx = self.handlers.len();
        self.handlers.push(handler);
        let ghost evs_pre = self.events_model();
        let desc = HandlerDesc { handler: hidx, reads: sreads, writes: swrites };
        let ghost dm = desc@;
        let ev = &mut self.events[event];
        ev.handlers.push(desc);
        proof {
            assert forall|i2: int|
                0 <= i2 < evs_pre.len() implies self.events_model()[i2] =~~= register_handler_spec(
                evs_pre,
                event as int,
                dm,
            )[i2] by {
                if i2 != event {
                    assert(self.events_model()[i2] == evs_pre[i2]);
                } else {
                    assert(self.events_model()[i2].handlers =~= evs_pre[i2].handlers.push(dm));
                    assert(self.events_model()[i2].name == evs_pre[i2].name);
                    assert(self.events_model()[i2].this_tick == evs_pre[i2].this_tick);
                    assert(self.events_model()[i2].next_tick == evs_pre[i2].next_tick);
                }
            }
            assert(self.events_model() =~~= register_handler_spec(evs_pre, event as int, dm));
            assert(self.events_model()[event as int].handlers.last() == dm);
            assert forall|a: int, b: int|
                0 <= a < b < self.events_model().len() implies self.events_model()[a].name
                != self.events_model()[b].name by {
                assert(self.events_model()[a].name == evs_pre[a].name);
                assert(self.events_model()[b].name == evs_pre[b].name);
            }
            assert(handlers_in_bounds(self.events_model(), self.handlers@.len() as int)) by {
                assert forall|e2: int, k2: int|
                    0 <= e2 < self.events_model().len() && 0 <= k2
                        < self.events_model()[e2].handlers.len() implies 0 <= #[trigger] self.events_model()[e2].handlers[k2].handler
                    < self.handlers@.len() by {
                    if e2 == event as int && k2 == self.events_model()[e2].handlers.len() - 1 {
                        assert(self.events_model()[e2].handlers[k2] == dm);
                    } else {
                        assert(self.events_model()[e2].handlers[k2] == evs_pre[e2].handlers[k2]);
                    }
                }
            }
        }
        Ok(())
    }

    /// Advances the tick: every event's deferred payloads are appended after
    /// the payloads already queued for the current tick, in order, and the
    /// deferred queues empty.
    pub fn next_tick(&mut self)
        requires
            old(self).wf(),
        ensures
            final(self).wf(),
            final(self).components@ == old(self).components@,
            final(self).handlers@ == old(self).handlers@,
            final(self).events_model() == promote_spec(old(self).events_model()),
    {
        let ghost evs0 = self.events_model();
        let n = self.events.len();
        let mut i: usize = 0;
        while i < n
            invariant
                i <= n,
                n == self.events@.len(),
                self.components@ == old(self).components@,
                self.handlers@ == old(self).handlers@,
                self.events_model().len() == n,
                evs0 == old(self).events_model(),
                evs0.len() == n,
                forall|k: int| 0 <= k < i ==> self.events_model()[k] == promote_spec(evs0)[k],
                forall|k: int| i <= k < n ==> self.events_model()[k] == evs0[k],
            decreases n - i,
        {
            let ghost evs_pre = self.events_model();
            let ev = &mut self.events[i];
            let mut moved: Vec<P> = Vec::new();
            core::mem::swap(&mut ev.next_tick, &mut moved);
            ev.this_tick.append(&mut moved);
            proof {
                assert forall|k: int| 0 <= k < n && k != i implies self.events_model()[k]
                    == evs_pre[k] by {}
                assert(self.events_model()[i as int].this_tick == evs_pre[i as int].this_tick
                    + evs_pre[i as int].next_tick);
                assert(self.events_model()[i as int] == promote_spec(evs0)[i as int]);
            }
            i += 1;
        }
        proof {
            assert(self.events_model() =~= promote_spec(evs0));
            assert forall|a: int, b: int|
                0 <= a < b < self.events_model().len() implies self.events_model()[a].name
                != self.events_model()[b].name by {
                assert(self.events_model()[a].name == evs0[a].name);
                assert(self.events_model()[b].name == evs0[b].name);
            }
            assert(handlers_in_bounds(self.events_model(), self.handlers@.len() as int));
        }
    }
}

/// What one handler invocation reported: which event and which of its
/// registrations was dispatched, the payload batch that was delivered, the
/// views handed to the handler, what the handler left in its write views,
/// and whether lock resolution let the handler run.
pub struct DispatchRecord<P, C> {
    /// The event that was dispatched.
    pub event: usize,
    /// The position of the handler in that event's registration list.
    pub handler_slot: usize,
    /// The payload batch delivered to the handler, in trigger order.
    pub batch: Vec<P>,
    /// The read snapshots handed to the handler, in the declared (sorted)
    /// order; empty when the handler was skipped.
    pub reads: Vec<ComponentStore<C>>,
    /// The write stores as handed to the handler; empty when skipped.
    pub writes_before: Vec<ComponentStore<C>>,
    /// The write stores as the handler left them, which the dispatcher
    /// wrote back into the registry; empty when skipped.
    pub writes_after: Vec<ComponentStore<C>>,
    /// `Ok` when every declared component type resolved and was free, and
    /// the handler ran; otherwise the first failure, with the handler
    /// skipped and the rest of the dispatch pass unaffected.
    pub outcome: Result<(), EcsError>,
}

/// Ghost model of one dispatch record.
#[verifier::ext_equal]
pub ghost struct RecordModel<P, C> {
    pub event: int,
    pub handler_slot: int,
    pub batch: Seq<P>,
    pub reads: Seq<StoreModel<C>>,
    pub writes_before: Seq<StoreModel<C>>,
    pub writes_after: Seq<StoreModel<C>>,
    pub outcome: Result<(), EcsError>,
}

impl<P, C> View for DispatchRecord<P, C> {
    type V = RecordModel<P, C>;

    open spec fn view(&self) -> RecordModel<P, C> {
        RecordModel {
            event: self.event as int,
            handler_slot: self.handler_slot as int,
            batch: self.batch@,
            reads: views_model(self.reads@),
            writes_before: views_model(self.writes_before@),
            writes_after: views_model(self.writes_after@),
            outcome: self.outcome,
        }
    }
}

/// The dispatch-protocol core of one record: which registration ran, with
/// which batch, and whether lock resolution let it run.
#[verifier::ext_equal]
pub ghost struct RecordCore<P> {
    pub event: int,
    pub handler_slot: int,
    pub batch: Seq<P>,
    pub outcome: Result<(), EcsError>,
}

/// The protocol core of a record's model.
pub open spec fn core_of<P, C>(rec: RecordModel<P, C>) -> RecordCore<P> {
    RecordCore {
        event: rec.event,
        handler_slot: rec.handler_slot,
        batch: rec.batch,
        outcome: rec.outcome,
    }
}

/// The protocol cores of a dispatch report.
pub open spec fn report_cores<P, C>(report: Seq<DispatchRecord<P, C>>) -> Seq<RecordCore<P>> {
    report.map_values(|d: DispatchRecord<P, C>| core_of(d@))
}

/// Whether one handler registration can be dispatched against these slots:
/// `Ok` when every declared type resolves to an unlocked slot, otherwise
/// the first failure, checking the read set before the write set, each in
/// sorted order.
pub open spec fn expected_outcome<C>(slots: Seq<SlotModel<C>>, desc: DescModel) -> Result<
    (),
    EcsError,
> {
    match first_failure(slots, desc.reads) {
        Some(e) => Err(e),
        None => match first_failure(slots, desc.writes) {
            Some(e) => Err(e),
            None => Ok(()),
        },
    }
}

/// The records a dispatch of event `e` produces from handler position `k`
/// on: one per registered handler, in registration order, each carrying the
/// drained batch and the outcome its lock resolution must have.
pub open spec fn records_for_event<P, C>(
    slots: Seq<SlotModel<C>>,
    ev: EventModel<P>,
    e: int,
    k: int,
) -> Seq<RecordCore<P>>
    decreases ev.handlers.len() - k,
{
    if k < 0 || k >= ev.handlers.len() {
        Seq::empty()
    } else {
        seq![
            RecordCore {
                event: e,
                handler_slot: k,
                batch: ev.this_tick,
                outcome: expected_outcome(slots, ev.handlers[k]),
            },
        ] + records_for_event(slots, ev, e, k + 1)
    }
}

/// The full report of one dispatch pass, from event `e` on: every event
/// with a non-empty current-tick queue contributes one record per
/// registered handler, in event order then registration order.
pub open spec fn expected_report<P, C>(
    slots: Seq<SlotModel<C>>,
    evs: Seq<EventModel<P>>,
    e: int,
) -> Seq<RecordCore<P>>
    decreases evs.len() - e,
{
    if e < 0 || e >= evs.len() {
        Seq::empty()
    } else {
        (if evs[e].this_tick.len() > 0 {
            records_for_event(slots, evs[e], e, 0)
        } else {
            Seq::empty()
        }) + expected_report(slots, evs, e + 1)
    }
}

/// Whether some successfully dispatched record's handler declared type `t`
/// in its write set: only such stores may have changed.
pub open spec fn may_write<P>(
    records: Seq<RecordCore<P>>,
    evs: Seq<EventModel<P>>,
    t: u64,
) -> bool {
    exists|j: int|
        #![trigger records[j]]
        0 <= j < records.len() && records[j].outcome is Ok && 0 <= records[j].event < evs.len()
            && 0 <= records[j].handler_slot < evs[records[j].event].handlers.len()
            && evs[records[j].event].handlers[records[j].handler_slot].writes.contains(t)
}

/// Whether some successfully dispatched record named handler `h`: only
/// such handler implementations are invoked, so only they may change.
pub open spec fn may_run<P>(records: Seq<RecordCore<P>>, evs: Seq<EventModel<P>>, h: int) -> bool {
    exists|j: int|
        #![trigger records[j]]
        0 <= j < records.len() && records[j].outcome is Ok && 0 <= records[j].event < evs.len()
            && 0 <= records[j].handler_slot < evs[records[j].event].handlers.len()
            && evs[records[j].event].handlers[records[j].handler_slot].handler == h
}

/// What one successful dispatch record attests, relative to the pass's
/// initial stores `slots0`, initial event list `evs0`, initial handlers
/// `handlers0`, and the current stores and handlers: the handler named by
/// the registration was invoked, so its `run` relation holds between its
/// initial and current state, the recorded batch, the recorded views it
/// was handed, and the write views it left; the recorded views carry the
/// declared type identities; a view of a type no earlier successful record
/// wrote shows the initial store; and a written type's store holds what
/// the handler left until a later successful record writes it again.
pub open spec fn record_accurate<P, C, H: Handler<P, C>>(
    report: Seq<DispatchRecord<P, C>>,
    j: int,
    slots0: Seq<SlotModel<C>>,
    evs0: Seq<EventModel<P>>,
    handlers0: Seq<H>,
    slots_now: Seq<SlotModel<C>>,
    handlers_now: Seq<H>,
) -> bool {
    let rec = report[j]@;
    let desc = evs0[rec.event].handlers[rec.handler_slot];
    &&& 0 <= rec.event < evs0.len()
    &&& 0 <= rec.handler_slot < evs0[rec.event].handlers.len()
    &&& 0 <= desc.handler < handlers0.len()
    &&& desc.handler < handlers_now.len()
    &&& H::run_post(
        handlers0[desc.handler],
        rec.batch,
        rec.reads,
        rec.writes_before,
        handlers_now[desc.handler],
        rec.writes_after,
    )
    &&& rec.reads.len() == desc.reads.len()
    &&& rec.writes_before.len() == desc.writes.len()
    &&& (forall|i: int|
        #![trigger desc.reads[i]]
        0 <= i < desc.reads.len() ==> rec.reads[i].type_id == desc.reads[i] && has_type(
            slots0,
            desc.reads[i],
        ))
    &&& (forall|i: int|
        #![trigger desc.writes[i]]
        0 <= i < desc.writes.len() ==> rec.writes_before[i].type_id == desc.writes[i]
            && has_type(slots0, desc.writes[i]))
    &&& (forall|i: int|
        #![trigger desc.reads[i]]
        0 <= i < desc.reads.len() && !may_write(report_cores(report).take(j), evs0, desc.reads[i])
            ==> rec.reads[i].entries == view_spec(slots0, desc.reads[i]))
    &&& (forall|i: int|
        #![trigger desc.writes[i]]
        0 <= i < desc.writes.len() && !may_write(
            report_cores(report).take(j),
            evs0,
            desc.writes[i],
        ) ==> rec.writes_before[i].entries == view_spec(slots0, desc.writes[i]))
    &&& (forall|i: int|
        #![trigger desc.writes[i]]
        0 <= i < desc.writes.len() && !may_write(
            report_cores(report).skip(j + 1),
            evs0,
            desc.writes[i],
        ) ==> view_spec(slots_now, desc.writes[i]) == (if i < rec.writes_after.len() {
            rec.writes_after[i].entries
        } else {
            rec.writes_before[i].entries
        }))
}

/// Every successful record of the report attests its invocation.
pub open spec fn report_accurate<P, C, H: Handler<P, C>>(
    report: Seq<DispatchRecord<P, C>>,
    slots0: Seq<SlotModel<C>>,
    evs0: Seq<EventModel<P>>,
    handlers0: Seq<H>,
    slots_now: Seq<SlotModel<C>>,
    handlers_now: Seq<H>,
) -> bool {
    forall|j: int|
        #![trigger report[j]]
        0 <= j < report.len() && report[j]@.outcome is Ok ==> record_accurate(
            report,
            j,
            slots0,
            evs0,
            handlers0,
            slots_now,
            handlers_now,
        )
}

/// The state of the event list after events before `e` have been drained.
pub open spec fn drain_upto<P>(evs: Seq<EventModel<P>>, e: int) -> Seq<EventModel<P>> {
    Seq::new(
        evs.len(),
        |i: int|
            if i < e {
                EventModel { this_tick: Seq::empty(), ..evs[i] }
            } else {
                evs[i]
            },
    )
}

impl<P, C: Copy, H> World<P, C, H> {
    /// Takes a reader view of the store registered under `type_id`: a
    /// snapshot of its pairs at acquisition time. Fails without blocking
    /// when the type was never registered, or when an exclusive view
    /// currently holds the store.
    pub fn acquire_shared(&self, type_id: u64) -> (r: Result<SharedView<C>, EcsError>)
        requires
            self.wf(),
        ensures
            !has_type(self.components@, type_id) ==> r == Err::<SharedView<C>, EcsError>(
                EcsError::UnknownComponentType,
            ),
            has_type(self.components@, type_id) && slot_of(self.components@, type_id).locked ==> r
                == Err::<SharedView<C>, EcsError>(EcsError::LockAcquisitionFailed),
            has_type(self.components@, type_id) && !slot_of(self.components@, type_id).locked
                ==> {
                &&& r matches Ok(v)
                &&& v.store.type_id == type_id
                &&& v.store.entries@ == view_spec(self.components@, type_id)
            },
    {
        self.components.acquire_shared(type_id)
    }
}

impl<P: Copy, C: Copy, H: Handler<P, C>> World<P, C, H> {
    /// Dispatches one handler registration of event `e`: resolves its
    /// declared read and write sets, and when every type resolves to an
    /// unlocked slot, snapshots the read and write stores, invokes the
    /// handler on the batch and those views, and writes what the handler
    /// left in the write views back into the registry. A resolution
    /// failure skips the handler and touches nothing. The returned record
    /// carries the batch, the handed views, what came back, and the
    /// outcome.
    fn dispatch_one(&mut self, e: usize, k: usize, batch: &Vec<P>) -> (rec: DispatchRecord<P, C>)
        requires
            old(self).wf(),
            (e as int) < old(self).events_model().len(),
            (k as int) < old(self).events_model()[e as int].handlers.len(),
        ensures
            final(self).wf(),
            final(self).events_model() == old(self).events_model(),
            final(self).handlers@.len() == old(self).handlers@.len(),
            forall|h: int|
                0 <= h < old(self).handlers@.len() && h != old(self).events_model()[e as int].handlers[k as int].handler
                    ==> final(self).handlers@[h] == old(self).handlers@[h],
            rec@.event == e as int,
            rec@.handler_slot == k as int,
            rec@.batch == batch@,
            rec@.outcome == expected_outcome(
                old(self).components@,
                old(self).events_model()[e as int].handlers[k as int],
            ),
            final(self).components@.len() == old(self).components@.len(),
            forall|s: int|
                0 <= s < old(self).components@.len() ==> final(self).components@[s].type_id == old(self).components@[s].type_id && final(self).components@[s].locked == old(self).components@[s].locked,
            rec@.outcome is Err ==> final(self).components@ == old(self).components@ && final(self).handlers@ == old(self).handlers@,
            rec@.outcome is Ok ==> ({
                let desc = old(self).events_model()[e as int].handlers[k as int];
                &&& rec@.reads == snapshots_spec(old(self).components@, desc.reads)
                &&& rec@.writes_before == snapshots_spec(old(self).components@, desc.writes)
                &&& H::run_post(
                    old(self).handlers@[desc.handler],
                    batch@,
                    rec@.reads,
                    rec@.writes_before,
                    final(self).handlers@[desc.handler],
                    rec@.writes_after,
                )
                &&& forall|i: int|
                    0 <= i < desc.writes.len() ==> view_spec(
                        final(self).components@,
                        #[trigger] desc.writes[i],
                    ) == (if i < rec@.writes_after.len() {
                        rec@.writes_after[i].entries
                    } else {
                        view_spec(old(self).components@, desc.writes[i])
                    })
                &&& forall|s: int|
                    0 <= s < old(self).components@.len() && !desc.writes.contains(
                        old(self).components@[s].type_id,
                    ) ==> final(self).components@[s] == old(self).components@[s]
            }),
    {
        let ghost desc = old(self).events_model()[e as int].handlers[k as int];
        let reads = copy_vec(&self.events[e].handlers[k].reads);
        let writes = copy_vec(&self.events[e].handlers[k].writes);
        let hidx = self.events[e].handlers[k].handler;
        proof {
            assert(self.events_model()[e as int].handlers[k as int] == desc);
            assert(reads@ == desc.reads && writes@ == desc.writes && hidx as int == desc.handler);
            assert(strictly_increasing(desc.writes));
        }
        match self.components.validate(&reads) {
            Err(err) => {
                let rec = DispatchRecord {
                    event: e,
                    handler_slot: k,
                    batch: copy_vec(batch),
                    reads: Vec::new(),
                    writes_before: Vec::new(),
                    writes_after: Vec::new(),
                    outcome: Err(err),
                };
                return rec;
            },
            Ok(_) => {},
        }
        match self.components.validate(&writes) {
            Err(err) => {
                let rec = DispatchRecord {
                    event: e,
                    handler_slot: k,
                    batch: copy_vec(batch),
                    reads: Vec::new(),
                    writes_before: Vec::new(),
                    writes_after: Vec::new(),
                    outcome: Err(err),
                };
                return rec;
            },
            Ok(_) => {},
        }
        proof {
            lemma_first_failure_none(self.components@, reads@);
            lemma_first_failure_none(self.components@, writes@);
        }
        let ghost slots0 = self.components@;
        let mut read_views: Vec<ComponentStore<C>> = Vec::new();
        let mut i: usize = 0;
        while i < reads.len()
            invariant
                i <= reads.len(),
                self == old(self),
                reads@ == desc.reads,
                slots0 == self.components@,
                registry_wf(self.components@),
                forall|x: int| 0 <= x < reads@.len() ==> has_type(self.components@, reads@[x]),
                read_views@.len() == i,
                forall|j2: int|
                    0 <= j2 < i ==> (#[trigger] read_views@[j2])@ == snapshots_spec(
                        slots0,
                        reads@,
                    )[j2],
            decreases reads.len() - i,
        {
            read_views.push(self.components.snapshot(reads[i]));
            i += 1;
        }
        let mut write_views: Vec<ComponentStore<C>> = Vec::new();
        let mut j: usize = 0;
        while j < writes.len()
            invariant
                j <= writes.len(),
                self == old(self),
                writes@ == desc.writes,
                slots0 == self.components@,
                registry_wf(self.components@),
                forall|x: int| 0 <= x < writes@.len() ==> has_type(self.components@, writes@[x]),
                write_views@.len() == j,
                forall|j2: int|
                    0 <= j2 < j ==> (#[trigger] write_views@[j2])@ == snapshots_spec(
                        slots0,
                        writes@,
                    )[j2],
            decreases writes.len() - j,
        {
            write_views.push(self.components.snapshot(writes[j]));
            j += 1;
        }
        proof {
            assert(views_model(read_views@) =~~= snapshots_spec(slots0, desc.reads));
            assert(views_model(write_views@) =~~= snapshots_spec(slots0, desc.writes));
        }
        let writes_before = copy_stores(&write_views);
        let h = &mut self.handlers[hidx];
        h.run(batch, &read_views, &mut write_views);
        let ghost wpost = views_model(write_views@);
        let ghost handlers_mid = self.handlers@;
        let mut w: usize = 0;
        while w < writes.len()
            invariant
                w <= writes.len(),
                writes@ == desc.writes,
                strictly_increasing(desc.writes),
                wpost == views_model(write_views@),
                self.events@ == old(self).events@,
                self.handlers@ == handlers_mid,
                registry_wf(self.components@),
                self.components@.len() == slots0.len(),
                slots0 == old(self).components@,
                forall|s: int|
                    0 <= s < slots0.len() ==> self.components@[s].type_id == slots0[s].type_id
                        && self.components@[s].locked == slots0[s].locked,
                forall|x: int| 0 <= x < writes@.len() ==> has_type(slots0, writes@[x]),
                forall|x: int|
                    0 <= x < w ==> view_spec(self.components@, #[trigger] writes@[x]) == (if x
                        < wpost.len() {
                        wpost[x].entries
                    } else {
                        view_spec(slots0, writes@[x])
                    }),
                forall|x: int|
                    w <= x < writes@.len() ==> view_spec(self.components@, #[trigger] writes@[x])
                        == view_spec(slots0, writes@[x]),
                forall|s: int|
                    0 <= s < slots0.len() && !desc.writes.contains(slots0[s].type_id)
                        ==> self.components@[s] == slots0[s],
            decreases writes.len() - w,
        {
            let ghost slots_pre = self.components@;
            proof {
                assert forall|x: int|
                    0 <= x < writes@.len() implies has_type(slots_pre, writes@[x]) by {
                    let t2 = writes@[x];
                    let ws = choose|ws: int| 0 <= ws < slots0.len() && slots0[ws].type_id == t2;
                    assert(slots_pre[ws].type_id == t2);
                }
            }
            if w < write_views.len() {
                let entries = copy_vec(&write_views[w].entries);
                match self.components.find(writes[w]) {
                    Some(idx) => {
                        self.components.set_store(idx, entries);
                        proof {
                            assert(slots_pre[idx as int].type_id == writes@[w as int]);
                            lemma_set_store_views(
                                slots_pre,
                                self.components@,
                                idx as int,
                                writes@[w as int],
                                entries@,
                            );
                            assert(wpost[w as int].entries == entries@);
                            assert forall|x: int|
                                0 <= x < writes@.len() && x != w implies view_spec(
                                self.components@,
                                #[trigger] writes@[x],
                            ) == view_spec(slots_pre, writes@[x]) by {
                                assert(writes@[x] != writes@[w as int]);
                                assert(has_type(slots_pre, writes@[x]));
                            }
                            assert(desc.writes.contains(writes@[w as int]));
                            assert forall|s: int|
                                0 <= s < slots0.len() && !desc.writes.contains(slots0[s].type_id)
                                    implies self.components@[s] == slots0[s] by {
                                assert(s != idx as int);
                                assert(self.components@[s] == slots_pre[s]);
                            }
                        }
                    },
                    None => {
                        proof {
                            assert(false);
                        }
                    },
                }
            }
            w += 1;
        }
        let rec = DispatchRecord {
            event: e,
            handler_slot: k,
            batch: copy_vec(batch),
            reads: read_views,
            writes_before,
            writes_after: write_views,
            outcome: Ok(()),
        };
        proof {
            assert(self.events_model() == old(self).events_model());
            assert(rec@.reads == snapshots_spec(slots0, desc.reads));
            assert(rec@.writes_before =~~= snapshots_spec(slots0, desc.writes));
            assert(rec@.writes_after == wpost);
        }
        rec
    }

    /// One dispatch pass: drains the set of events with pending current-tick
    /// payloads (copy-and-clear, so payloads queued during this call wait
    /// for the next pass), and for each drained event invokes its handlers
    /// in registration order, each receiving the full drained batch, a
    /// snapshot of each store in its read set, and the stores of its write
    /// set, whose final content becomes what the handler leaves behind. A
    /// handler whose locks cannot be resolved is skipped and reported; the
    /// remaining handlers and events still run. Deferred (next-tick) queues,
    /// stores outside the dispatched write sets, and handlers that were not
    /// successfully dispatched are untouched; each record of the returned
    /// report attests its handler's invocation through `record_accurate`.
    #[verifier::rlimit(100)]
    pub fn run_events(&mut self) -> (report: Vec<DispatchRecord<P, C>>)
        requires
            old(self).wf(),
        ensures
            final(self).wf(),
            final(self).events_model() == drain_spec(old(self).events_model()),
            final(self).handlers@.len() == old(self).handlers@.len(),
            final(self).components@.len() == old(self).components@.len(),
            forall|s: int|
                0 <= s < old(self).components@.len() ==> final(self).components@[s].type_id == old(self).components@[s].type_id && final(self).components@[s].locked == old(self).components@[s].locked,
            report_cores(report@) == expected_report(
                old(self).components@,
                old(self).events_model(),
                0,
            ),
            forall|s: int|
                0 <= s < old(self).components@.len() && !may_write(
                    report_cores(report@),
                    old(self).events_model(),
                    old(self).components@[s].type_id,
                ) ==> final(self).components@[s] == old(self).components@[s],
            forall|h: int|
                0 <= h < old(self).handlers@.len() && !may_run(
                    report_cores(report@),
                    old(self).events_model(),
                    h,
                ) ==> final(self).handlers@[h] == old(self).handlers@[h],
            report_accurate(
                report@,
                old(self).components@,
                old(self).events_model(),
                old(self).handlers@,
                final(self).components@,
                final(self).handlers@,
            ),
    {
        let ghost slots0 = self.components@;
        let ghost evs0 = self.events_model();
        let mut report: Vec<DispatchRecord<P, C>> = Vec::new();
        let n = self.events.len();
        let mut e: usize = 0;
        proof {
            assert(self.events_model() =~= drain_upto(evs0, 0));
            assert(report_cores(report@) + expected_report(slots0, evs0, 0) =~= expected_report(
                slots0,
                evs0,
                0,
            ));
        }
        while e < n
            invariant
                e <= n,
                n == self.events@.len(),
                evs0.len() == n,
                old(self).wf(),
                evs0 == old(self).events_model(),
                slots0 == old(self).components@,
                slots0.len() == self.components@.len(),
                self.wf(),
                self.handlers@.len() == old(self).handlers@.len(),
                forall|s: int|
                    0 <= s < slots0.len() ==> self.components@[s].type_id == slots0[s].type_id
                        && self.components@[s].locked == slots0[s].locked,
                self.events_model() == drain_upto(evs0, e as int),
                report_cores(report@) + expected_report(slots0, evs0, e as int) == expected_report(
                    slots0,
                    evs0,
                    0,
                ),
                forall|s: int|
                    0 <= s < slots0.len() && !may_write(
                        report_cores(report@),
                        evs0,
                        slots0[s].type_id,
                    ) ==> self.components@[s] == slots0[s],
                forall|h: int|
                    0 <= h < old(self).handlers@.len() && !may_run(
                        report_cores(report@),
                        evs0,
                        h,
                    ) ==> self.handlers@[h] == old(self).handlers@[h],
                forall|j: int|
                    #![trigger report@[j]]
                    0 <= j < report@.len() ==> report@[j]@.event < e as int,
                report_accurate(
                    report@,
                    slots0,
                    evs0,
                    old(self).handlers@,
                    self.components@,
                    self.handlers@,
                ),
            decreases n - e,
        {
            proof {
                assert(self.events_model()[e as int] == evs0[e as int]);
            }
            if self.events[e].this_tick.len() > 0 {
                let ghost evs_pre = self.events_model();
                let ev = &mut self.events[e];
                let mut batch: Vec<P> = Vec::new();
                core::mem::swap(&mut ev.this_tick, &mut batch);
                proof {
                    assert(batch@ == evs0[e as int].this_tick);
                    assert forall|i: int|
                        0 <= i < n implies self.events_model()[i] =~~= drain_upto(
                        evs0,
                        e as int + 1,
                    )[i] by {
                        if i != e {
                            assert(self.events_model()[i] == evs_pre[i]);
                            assert(evs_pre[i] == drain_upto(evs0, e as int)[i]);
                        } else {
                            assert(self.events_model()[e as int].this_tick == Seq::<P>::empty());
                            assert(self.events_model()[e as int].name == evs0[e as int].name);
                            assert(self.events_model()[e as int].next_tick
                                == evs0[e as int].next_tick);
                            assert(self.events_model()[e as int].handlers
                                == evs0[e as int].handlers);
                        }
                    }
                    assert(self.events_model() =~~= drain_upto(evs0, e as int + 1));
                    assert forall|a: int, b: int|
                        0 <= a < b < self.events_model().len() implies self.events_model()[a].name
                        != self.events_model()[b].name by {
                        assert(self.events_model()[a].name == evs0[a].name);
                        assert(self.events_model()[b].name == evs0[b].name);
                    }
                    assert(handlers_in_bounds(self.events_model(), self.handlers@.len() as int));
                }
                let hn = self.events[e].handlers.len();
                let mut k: usize = 0;
                while k < hn
                    invariant
                        k <= hn,
                        (e as int) < n,
                        hn == evs0[e as int].handlers.len(),
                        n == self.events@.len(),
                        evs0.len() == n,
                        old(self).wf(),
                        evs0 == old(self).events_model(),
                        slots0 == old(self).components@,
                        slots0.len() == self.components@.len(),
                        self.wf(),
                        self.handlers@.len() == old(self).handlers@.len(),
                        batch@ == evs0[e as int].this_tick,
                        batch@.len() > 0,
                        forall|s: int|
                            0 <= s < slots0.len() ==> self.components@[s].type_id
                                == slots0[s].type_id && self.components@[s].locked
                                == slots0[s].locked,
                        self.events_model() == drain_upto(evs0, e as int + 1),
                        report_cores(report@) + records_for_event(
                            slots0,
                            evs0[e as int],
                            e as int,
                            k as int,
                        ) + expected_report(slots0, evs0, e as int + 1) == expected_report(
                            slots0,
                            evs0,
                            0,
                        ),
                        forall|s: int|
                            0 <= s < slots0.len() && !may_write(
                                report_cores(report@),
                                evs0,
                                slots0[s].type_id,
                            ) ==> self.components@[s] == slots0[s],
                        forall|h: int|
                            0 <= h < old(self).handlers@.len() && !may_run(
                                report_cores(report@),
                                evs0,
                                h,
                            ) ==> self.handlers@[h] == old(self).handlers@[h],
                        forall|j: int|
                            #![trigger report@[j]]
                            0 <= j < report@.len() ==> (report@[j]@.event < e as int) || (
                            report@[j]@.event == e as int && report@[j]@.handler_slot < k as int),
                        report_accurate(
                            report@,
                            slots0,
                            evs0,
                            old(self).handlers@,
                            self.components@,
                            self.handlers@,
                        ),
                    decreases hn - k,
                {
                    let ghost desc = evs0[e as int].handlers[k as int];
                    let ghost slots_pre = self.components@;
                    let ghost handlers_pre = self.handlers@;
                    let ghost report_pre = report@;
                    let ghost cores_pre = report_cores(report@);
                    proof {
                        assert(self.events_model()[e as int].handlers == evs0[e as int].handlers);
                    }
                    let rec = self.dispatch_one(e, k, &batch);
                    let ghost recm = rec@;
                    report.push(rec);
                    proof {
                        lemma_first_failure_congruent(slots_pre, slots0, desc.reads);
                        lemma_first_failure_congruent(slots_pre, slots0, desc.writes);
                        assert(recm.outcome == expected_outcome(slots0, desc));
                        let core = RecordCore {
                            event: e as int,
                            handler_slot: k as int,
                            batch: evs0[e as int].this_tick,
                            outcome: recm.outcome,
                        };
                        assert(core_of(recm) == core);
                        assert(report_cores(report@) =~= cores_pre + seq![core]);
                        assert(records_for_event(slots0, evs0[e as int], e as int, k as int)
                            == seq![core] + records_for_event(
                            slots0,
                            evs0[e as int],
                            e as int,
                            k as int + 1,
                        ));
                        assert(report_cores(report@) + records_for_event(
                            slots0,
                            evs0[e as int],
                            e as int,
                            k as int + 1,
                        ) + expected_report(slots0, evs0, e as int + 1) =~= (cores_pre
                            + records_for_event(slots0, evs0[e as int], e as int, k as int)
                            + expected_report(slots0, evs0, e as int + 1)));
                        assert forall|s: int|
                            0 <= s < slots0.len() && !may_write(
                                report_cores(report@),
                                evs0,
                                slots0[s].type_id,
                            ) implies self.components@[s] == slots0[s] by {
                            let t = slots0[s].type_id;
                            if may_write(cores_pre, evs0, t) {
                                let j = choose|j: int|
                                    #![trigger cores_pre[j]]
                                    0 <= j < cores_pre.len() && cores_pre[j].outcome is Ok && 0
                                        <= cores_pre[j].event < evs0.len() && 0
                                        <= cores_pre[j].handler_slot
                                        < evs0[cores_pre[j].event].handlers.len()
                                        && evs0[cores_pre[j].event].handlers[cores_pre[j].handler_slot].writes.contains(
                                        t,
                                    );
                                assert(report_cores(report@)[j] == cores_pre[j]);
                                assert(may_write(report_cores(report@), evs0, t));
                            }
                            assert(slots_pre[s] == slots0[s]);
                            if recm.outcome is Ok {
                                if desc.writes.contains(t) {
                                    let last = report_cores(report@).len() - 1;
                                    assert(report_cores(report@)[last] == core);
                                    assert(may_write(report_cores(report@), evs0, t));
                                }
                                assert(!desc.writes.contains(t));
                                assert(self.components@[s] == slots_pre[s]);
                            }
                        }
                        assert forall|h2: int|
                            0 <= h2 < old(self).handlers@.len() && !may_run(
                                report_cores(report@),
                                evs0,
                                h2,
                            ) implies self.handlers@[h2] == old(self).handlers@[h2] by {
                            if may_run(cores_pre, evs0, h2) {
                                let j = choose|j: int|
                                    #![trigger cores_pre[j]]
                                    0 <= j < cores_pre.len() && cores_pre[j].outcome is Ok && 0
                                        <= cores_pre[j].event < evs0.len() && 0
                                        <= cores_pre[j].handler_slot
                                        < evs0[cores_pre[j].event].handlers.len()
                                        && evs0[cores_pre[j].event].handlers[cores_pre[j].handler_slot].handler
                                        == h2;
                                assert(report_cores(report@)[j] == cores_pre[j]);
                                assert(may_run(report_cores(report@), evs0, h2));
                            }
                            assert(handlers_pre[h2] == old(self).handlers@[h2]);
                            if recm.outcome is Ok && desc.handler == h2 {
                                let last = report_cores(report@).len() - 1;
                                assert(report_cores(report@)[last] == core);
                                assert(may_run(report_cores(report@), evs0, h2));
                            }
                            assert(self.handlers@[h2] == handlers_pre[h2]);
                        }
                        assert forall|j: int|
                            0 <= j < report@.len() && (#[trigger] report@[j])@.outcome is Ok
                            implies record_accurate(
                            report@,
                            j,
                            slots0,
                            evs0,
                            old(self).handlers@,
                            self.components@,
                            self.handlers@,
                        ) by {
                            if j < report_pre.len() {
                                assert(report@[j] == report_pre[j]);
                                assert(record_accurate(
                                    report_pre,
                                    j,
                                    slots0,
                                    evs0,
                                    old(self).handlers@,
                                    slots_pre,
                                    handlers_pre,
                                ));
                                let recj = report_pre[j]@;
                                let descj = evs0[recj.event].handlers[recj.handler_slot];
                                assert((recj.event != e as int) || (recj.handler_slot
                                    != k as int));
                                assert(descj.handler != desc.handler);
                                assert(self.handlers@[descj.handler]
                                    == handlers_pre[descj.handler]);
                                assert(report_cores(report@).take(j) =~= cores_pre.take(j));
                                assert forall|i: int|
                                    #![trigger descj.writes[i]]
                                    0 <= i < descj.writes.len() && !may_write(
                                        report_cores(report@).skip(j + 1),
                                        evs0,
                                        descj.writes[i],
                                    ) implies view_spec(self.components@, descj.writes[i]) == (
                                if i < recj.writes_after.len() {
                                    recj.writes_after[i].entries
                                } else {
                                    recj.writes_before[i].entries
                                }) by {
                                    let t = descj.writes[i];
                                    assert(!may_write(cores_pre.skip(j + 1), evs0, t)) by {
                                        if may_write(cores_pre.skip(j + 1), evs0, t) {
                                            let w = choose|w: int|
                                                #![trigger cores_pre.skip(j + 1)[w]]
                                                0 <= w < cores_pre.skip(j + 1).len()
                                                    && cores_pre.skip(j + 1)[w].outcome is Ok && 0
                                                    <= cores_pre.skip(j + 1)[w].event < evs0.len()
                                                    && 0 <= cores_pre.skip(j + 1)[w].handler_slot
                                                    < evs0[cores_pre.skip(
                                                    j + 1,
                                                )[w].event].handlers.len() && evs0[cores_pre.skip(
                                                    j + 1,
                                                )[w].event].handlers[cores_pre.skip(
                                                    j + 1,
                                                )[w].handler_slot].writes.contains(t);
                                            assert(report_cores(report@).skip(j + 1)[w]
                                                == cores_pre.skip(j + 1)[w]);
                                            assert(may_write(
                                                report_cores(report@).skip(j + 1),
                                                evs0,
                                                t,
                                            ));
                                        }
                                    }
                                    assert(has_type(slots_pre, t)) by {
                                        let ws = choose|ws: int|
                                            0 <= ws < slots0.len() && slots0[ws].type_id == t;
                                        assert(slots_pre[ws].type_id == t);
                                    }
                                    if recm.outcome is Ok {
                                        if desc.writes.contains(t) {
                                            let core2 = RecordCore {
                                                event: e as int,
                                                handler_slot: k as int,
                                                batch: evs0[e as int].this_tick,
                                                outcome: recm.outcome,
                                            };
                                            assert(report_cores(report@).skip(j + 1)[cores_pre.len()
                                                - j - 1] == core2);
                                            assert(may_write(
                                                report_cores(report@).skip(j + 1),
                                                evs0,
                                                t,
                                            ));
                                            assert(false);
                                        }
                                        let si = index_of(slots_pre, t);
                                        assert(0 <= si < slots_pre.len() && slots_pre[si].type_id
                                            == t);
                                        assert(!desc.writes.contains(slots_pre[si].type_id));
                                        assert(self.components@[si] == slots_pre[si]);
                                        lemma_view_preserved(slots_pre, self.components@, t);
                                    } else {
                                        assert(self.components@ == slots_pre);
                                    }
                                }
                            } else {
                                assert(report@[j]@ == recm);
                                assert(recm.event == e as int && recm.handler_slot == k as int);
                                assert(desc == evs0[recm.event].handlers[recm.handler_slot]);
                                assert(0 <= desc.handler < old(self).handlers@.len());
                                assert(!may_run(cores_pre, evs0, desc.handler)) by {
                                    if may_run(cores_pre, evs0, desc.handler) {
                                        let w = choose|w: int|
                                            #![trigger cores_pre[w]]
                                            0 <= w < cores_pre.len() && cores_pre[w].outcome is Ok
                                                && 0 <= cores_pre[w].event < evs0.len() && 0
                                                <= cores_pre[w].handler_slot
                                                < evs0[cores_pre[w].event].handlers.len()
                                                && evs0[cores_pre[w].event].handlers[cores_pre[w].handler_slot].handler
                                                == desc.handler;
                                            assert(cores_pre[w].event
                                                == report_pre[w]@.event);
                                            assert(cores_pre[w].handler_slot
                                                == report_pre[w]@.handler_slot);
                                            assert((cores_pre[w].event != e as int) || (
                                            cores_pre[w].handler_slot != k as int));
                                            assert(evs0[cores_pre[w].event].handlers[cores_pre[w].handler_slot].handler
                                                != evs0[e as int].handlers[k as int].handler);
                                    }
                                }
                                assert(handlers_pre[desc.handler] == old(self).handlers@[desc.handler]);
                                assert(recm.outcome is Ok);
                                assert(recm.reads == snapshots_spec(slots_pre, desc.reads));
                                assert(recm.writes_before == snapshots_spec(
                                    slots_pre,
                                    desc.writes,
                                ));
                                assert(expected_outcome(slots_pre, desc) is Ok);
                                lemma_first_failure_none(slots_pre, desc.reads);
                                lemma_first_failure_none(slots_pre, desc.writes);
                                assert forall|i: int|
                                    #![trigger desc.reads[i]]
                                    0 <= i < desc.reads.len() implies rec@.reads[i].type_id
                                    == desc.reads[i] && has_type(slots0, desc.reads[i]) by {
                                    let t = desc.reads[i];
                                    assert(has_type(slots_pre, t));
                                    let ws = choose|ws: int|
                                        0 <= ws < slots_pre.len() && slots_pre[ws].type_id == t;
                                    assert(slots0[ws].type_id == t);
                                }
                                assert forall|i: int|
                                    #![trigger desc.writes[i]]
                                    0 <= i < desc.writes.len() implies rec@.writes_before[i].type_id
                                    == desc.writes[i] && has_type(slots0, desc.writes[i]) by {
                                    let t = desc.writes[i];
                                    assert(has_type(slots_pre, t));
                                    let ws = choose|ws: int|
                                        0 <= ws < slots_pre.len() && slots_pre[ws].type_id == t;
                                    assert(slots0[ws].type_id == t);
                                }
                                assert(report_cores(report@).take(j) =~= cores_pre);
                                assert forall|i: int|
                                    #![trigger desc.reads[i]]
                                    0 <= i < desc.reads.len() && !may_write(
                                        report_cores(report@).take(j),
                                        evs0,
                                        desc.reads[i],
                                    ) implies recm.reads[i].entries == view_spec(
                                    slots0,
                                    desc.reads[i],
                                ) by {
                                    let t = desc.reads[i];
                                    assert(!may_write(cores_pre, evs0, t));
                                    assert(has_type(slots0, t));
                                    let si = index_of(slots0, t);
                                    assert(0 <= si < slots0.len() && slots0[si].type_id == t);
                                    assert(slots_pre[si] == slots0[si]);
                                    lemma_view_preserved(slots0, slots_pre, t);
                                    assert(recm.reads[i].entries == view_spec(slots_pre, t));
                                }
                                assert forall|i: int|
                                    #![trigger desc.writes[i]]
                                    0 <= i < desc.writes.len() && !may_write(
                                        report_cores(report@).take(j),
                                        evs0,
                                        desc.writes[i],
                                    ) implies recm.writes_before[i].entries == view_spec(
                                    slots0,
                                    desc.writes[i],
                                ) by {
                                    let t = desc.writes[i];
                                    assert(!may_write(cores_pre, evs0, t));
                                    assert(has_type(slots0, t));
                                    let si = index_of(slots0, t);
                                    assert(0 <= si < slots0.len() && slots0[si].type_id == t);
                                    assert(slots_pre[si] == slots0[si]);
                                    lemma_view_preserved(slots0, slots_pre, t);
                                    assert(recm.writes_before[i].entries == view_spec(
                                        slots_pre,
                                        t,
                                    ));
                                }
                                assert forall|i: int|
                                    #![trigger desc.writes[i]]
                                    0 <= i < desc.writes.len() && !may_write(
                                        report_cores(report@).skip(j + 1),
                                        evs0,
                                        desc.writes[i],
                                    ) implies view_spec(self.components@, desc.writes[i]) == (
                                if i < recm.writes_after.len() {
                                    recm.writes_after[i].entries
                                } else {
                                    recm.writes_before[i].entries
                                }) by {
                                    let t = desc.writes[i];
                                    assert(view_spec(self.components@, t) == (if i
                                        < recm.writes_after.len() {
                                        recm.writes_after[i].entries
                                    } else {
                                        view_spec(slots_pre, t)
                                    }));
                                    assert(recm.writes_before[i].entries == view_spec(
                                        slots_pre,
                                        t,
                                    ));
                                }
                            }
                        }
                    }
                    k += 1;
                }
                proof {
                    assert(records_for_event(slots0, evs0[e as int], e as int, hn as int)
                        =~= Seq::<RecordCore<P>>::empty());
                    assert(evs0[e as int].this_tick.len() > 0);
                    assert(expected_report(slots0, evs0, e as int) == records_for_event(
                        slots0,
                        evs0[e as int],
                        e as int,
                        0,
                    ) + expected_report(slots0, evs0, e as int + 1));
                    assert(report_cores(report@) + expected_report(slots0, evs0, e as int + 1)
                        =~= (report_cores(report@) + records_for_event(
                        slots0,
                        evs0[e as int],
                        e as int,
                        hn as int,
                    ) + expected_report(slots0, evs0, e as int + 1)));
                }
            } else {
                proof {
                    assert(evs0[e as int].this_tick.len() == 0);
                    assert(self.events_model() =~~= drain_upto(evs0, e as int + 1));
                    assert(expected_report(slots0, evs0, e as int) == Seq::<
                        RecordCore<P>,
                    >::empty() + expected_report(slots0, evs0, e as int + 1));
                    assert(report_cores(report@) + expected_report(slots0, evs0, e as int + 1)
                        =~= (report_cores(report@) + expected_report(slots0, evs0, e as int)));
                }
            }
            e += 1;
        }
        proof {
            assert(self.events_model() =~~= drain_spec(evs0));
            assert(expected_report(slots0, evs0, n as int) =~= Seq::<RecordCore<P>>::empty());
            assert(report_cores(report@) =~= expected_report(slots0, evs0, 0));
        }
        report
    }
}

/// Relies on `uuid::Uuid::new_v4` and its `Simple` formatting: a freshly
/// drawn random identifier rendered as exactly 32 hexadecimal characters.
/// Nothing is assumed beyond the rendered length; in particular no
/// uniqueness is promised of a random draw.
#[verifier::external_body]
fn fresh_event_name() -> (r: String)
    ensures
        r@.len() == 32,
{
    uuid::Uuid::new_v4().simple().to_string()
}

impl<P, C, H> World<P, C, H> {
    /// Registers an event under a freshly generated anonymous name, as the
    /// declarative layer does for events it has no name for. The draw is
    /// random, so a collision with an existing name surfaces as
    /// `DuplicateRegistration`.
    pub fn register_anonymous_event(&mut self) -> (r: Result<usize, EcsError>)
        requires
            old(self).wf(),
        ensures
            final(self).wf(),
            final(self).components@ == old(self).components@,
            final(self).handlers@ == old(self).handlers@,
            r matches Ok(h) ==> {
                &&& h as int == old(self).events_model().len()
                &&& exists|name: Seq<char>|
                    name.len() == 32 && !has_event_named(old(self).events_model(), name)
                        && final(self).events_model() == register_event_spec(
                        old(self).events_model(),
                        name,
                    )
            },
            r is Err ==> {
                &&& final(self).events_model() == old(self).events_model()
                &&& r == Err::<usize, EcsError>(EcsError::DuplicateRegistration)
            },
            (forall|i: int|
                0 <= i < old(self).events_model().len()
                    ==> old(self).events_model()[i].name.len() != 32) ==> r is Ok,
    {
        let name = fresh_event_name();
        let ghost n = name@;
        let r = self.register_event(name);
        proof {
            if !has_event_named(old(self).events_model(), n) {
                assert(n.len() == 32 && !has_event_named(old(self).events_model(), n)
                    && self.events_model() == register_event_spec(old(self).events_model(), n));
            }
            if forall|i: int|
                0 <= i < old(self).events_model().len()
                    ==> old(self).events_model()[i].name.len() != 32 {
                assert(!has_event_named(old(self).events_model(), n)) by {
                    if has_event_named(old(self).events_model(), n) {
                        let w = choose|w: int|
                            0 <= w < old(self).events_model().len()
                                && old(self).events_model()[w].name == n;
                        assert(old(self).events_model()[w].name.len() != 32);
                    }
                }
            }
        }
        r
    }
}

} // verus!
