//! The component registry: one insertion-ordered store per registered
//! component type, each guarded by a lock state.
//!
//! The registry maps a caller-chosen type identity (a `u64`) to a slot that
//! holds the store and its lock. A shared view is a snapshot of the store at
//! acquisition time and needs no release; an exclusive view takes the store
//! out of its slot, leaving the slot locked until the view is handed back
//! with `release_exclusive`.

use vstd::prelude::*;

use crate::entities::{ComponentList, EntityID};
use crate::errors::EcsError;

verus! {

/// One component type's data as handed to readers and handlers: the type
/// identity it was registered under and the (entity, value) pairs.
#[derive(Debug)]
pub struct ComponentStore<C> {
    /// The type identity this store was registered under.
    pub type_id: u64,
    /// The (entity, value) pairs, in insertion order.
    pub entries: ComponentList<C>,
}

/// Ghost model of one component store as a handler or a view sees it.
#[verifier::ext_equal]
pub ghost struct StoreModel<C> {
    pub type_id: u64,
    pub entries: Seq<(EntityID, C)>,
}

impl<C> View for ComponentStore<C> {
    type V = StoreModel<C>;

    open spec fn view(&self) -> StoreModel<C> {
        StoreModel { type_id: self.type_id, entries: self.entries@ }
    }
}

/// The ghost models of a list of stores.
pub open spec fn views_model<C>(stores: Seq<ComponentStore<C>>) -> Seq<StoreModel<C>> {
    stores.map_values(|s: ComponentStore<C>| s@)
}

/// One registered component type inside the registry: its identity, whether
/// an exclusive view is currently out, and the stored component list.
#[derive(Debug)]
pub struct Component<C> {
    /// The type identity this slot was registered under.
    pub type_id: u64,
    /// True while an exclusive view holds this slot's store.
    pub locked: bool,
    /// The stored (entity, value) pairs; empty while an exclusive view is out.
    pub store: ComponentList<C>,
}

/// Ghost model of one registry slot.
#[verifier::ext_equal]
pub ghost struct SlotModel<C> {
    pub type_id: u64,
    pub locked: bool,
    pub store: Seq<(EntityID, C)>,
}

impl<C> View for Component<C> {
    type V = SlotModel<C>;

    open spec fn view(&self) -> SlotModel<C> {
        SlotModel { type_id: self.type_id, locked: self.locked, store: self.store@ }
    }
}

/// The handle returned by component registration; it names the slot a store
/// lives in and remembers the type identity for a checked match on use.
#[derive(Clone, Copy, Debug, PartialEq, Eq, Structural)]
pub struct StoreHandle {
    /// Index of the slot inside the registry.
    pub index: usize,
    /// The type identity the slot was registered under.
    pub type_id: u64,
}

/// A read view of one component type: a snapshot of the store at acquisition
/// time. Dropping it releases nothing because nothing is held.
#[derive(Debug)]
pub struct SharedView<C> {
    /// The snapshot taken at acquisition time.
    pub store: ComponentStore<C>,
}

/// A write view of one component type: the store itself, taken out of its
/// slot. The slot stays locked until the view is returned with
/// `release_exclusive`.
#[derive(Debug)]
pub struct ExclusiveView<C> {
    /// The store, owned by the view while the slot is locked.
    pub store: ComponentStore<C>,
}

/// The process-wide map from component type identity to store slot.
pub struct ComponentRegistry<C> {
    /// The slots, one per registered component type, in registration order.
    pub components: Vec<Component<C>>,
}

impl<C> View for ComponentRegistry<C> {
    type V = Seq<SlotModel<C>>;

    open spec fn view(&self) -> Seq<SlotModel<C>> {
        self.components@.map_values(|c: Component<C>| c@)
    }
}

/// Whether some slot is registered under type identity `t`.
pub open spec fn has_type<C>(slots: Seq<SlotModel<C>>, t: u64) -> bool {
    exists|i: int| 0 <= i < slots.len() && slots[i].type_id == t
}

/// The index of the slot registered under `t`; meaningful when `has_type`
/// holds and the registry is well-formed.
pub open spec fn index_of<C>(slots: Seq<SlotModel<C>>, t: u64) -> int {
    choose|i: int| 0 <= i < slots.len() && slots[i].type_id == t
}

/// The slot registered under `t`.
pub open spec fn slot_of<C>(slots: Seq<SlotModel<C>>, t: u64) -> SlotModel<C> {
    slots[index_of(slots, t)]
}

/// The stored pairs of the slot registered under `t`.
pub open spec fn view_spec<C>(slots: Seq<SlotModel<C>>, t: u64) -> Seq<(EntityID, C)> {
    slot_of(slots, t).store
}

/// A well-formed registry has at most one slot per type identity.
pub open spec fn registry_wf<C>(slots: Seq<SlotModel<C>>) -> bool {
    forall|i: int, j: int|
        0 <= i < j < slots.len() ==> slots[i].type_id != slots[j].type_id
}

/// Registration appends a fresh, unlocked, empty slot.
pub open spec fn register_spec<C>(slots: Seq<SlotModel<C>>, t: u64) -> Seq<SlotModel<C>> {
    slots.push(SlotModel { type_id: t, locked: false, store: Seq::empty() })
}

/// Creating a component appends one pair to the slot at `idx`.
pub open spec fn create_spec<C>(
    slots: Seq<SlotModel<C>>,
    idx: int,
    entity: EntityID,
    value: C,
) -> Seq<SlotModel<C>> {
    slots.update(
        idx,
        SlotModel { store: slots[idx].store.push((entity, value)), ..slots[idx] },
    )
}

/// Taking an exclusive view empties the slot registered under `t` and locks it.
pub open spec fn take_spec<C>(slots: Seq<SlotModel<C>>, t: u64) -> Seq<SlotModel<C>> {
    slots.update(
        index_of(slots, t),
        SlotModel { locked: true, store: Seq::empty(), ..slot_of(slots, t) },
    )
}

/// Releasing an exclusive view puts `entries` back under `t` and unlocks it.
pub open spec fn put_spec<C>(
    slots: Seq<SlotModel<C>>,
    t: u64,
    entries: Seq<(EntityID, C)>,
) -> Seq<SlotModel<C>> {
    slots.update(
        index_of(slots, t),
        SlotModel { locked: false, store: entries, ..slot_of(slots, t) },
    )
}

/// The snapshots a dispatch hands a handler for the type identities in
/// `tids`: each named store's identity and its pairs at that moment.
pub open spec fn snapshots_spec<C>(
    slots: Seq<SlotModel<C>>,
    tids: Seq<u64>,
) -> Seq<StoreModel<C>> {
    Seq::new(
        tids.len(),
        |i: int| StoreModel { type_id: tids[i], entries: view_spec(slots, tids[i]) },
    )
}

/// The first reason the types in `tids` could not all be resolved and read or
/// written right now: an unregistered type, or a slot whose store an
/// exclusive view holds.
pub open spec fn first_failure<C>(slots: Seq<SlotModel<C>>, tids: Seq<u64>) -> Option<EcsError>
    decreases tids.len(),
{
    if tids.len() == 0 {
        None
    } else if !has_type(slots, tids[0]) {
        Some(EcsError::UnknownComponentType)
    } else if slot_of(slots, tids[0]).locked {
        Some(EcsError::LockAcquisitionFailed)
    } else {
        first_failure(slots, tids.drop_first())
    }
}

/// Copies a vector of plainly copyable values.
pub(crate) fn copy_vec<T: Copy>(v: &Vec<T>) -> (r: Vec<T>)
    ensures
        r@ == v@,
{
    let mut r: Vec<T> = Vec::new();
    let mut i: usize = 0;
    while i < v.len()
        invariant
            i <= v.len(),
            r@ == v@.subrange(0, i as int),
        decreases v.len() - i,
    {
        r.push(v[i]);
        i += 1;
    }
    assert(r@ == v@.subrange(0, v@.len() as int));
    assert(v@.subrange(0, v@.len() as int) == v@);
    r
}

impl<C> ComponentStore<C> {
    /// The number of stored pairs.
    pub fn len(&self) -> (r: usize)
        ensures
            r == self.entries@.len(),
    {
        self.entries.len()
    }

    /// Appends one (entity, value) pair.
    pub fn push(&mut self, entity: EntityID, value: C)
        ensures
            final(self).type_id == old(self).type_id,
            final(self).entries@ == old(self).entries@.push((entity, value)),
    {
        self.entries.push((entity, value));
    }
}

impl<C: Copy> ComponentStore<C> {
    /// The pair at position `i`.
    pub fn get(&self, i: usize) -> (r: (EntityID, C))
        requires
            i < self.entries@.len(),
        ensures
            r == self.entries@[i as int],
    {
        self.entries[i]
    }

    /// Replaces the value at position `i`, keeping its entity.
    pub fn set_value(&mut self, i: usize, value: C)
        requires
            i < old(self).entries@.len(),
        ensures
            final(self).type_id == old(self).type_id,
            final(self).entries@ == old(self).entries@.update(
                i as int,
                (old(self).entries@[i as int].0, value),
            ),
    {
        let entity = self.entries[i].0;
        let slot = &mut self.entries[i];
        *slot = (entity, value);
    }
}

impl<C> ComponentRegistry<C> {
    /// An empty registry.
    pub fn new() -> (r: ComponentRegistry<C>)
        ensures
            r@ == Seq::<SlotModel<C>>::empty(),
    {
        ComponentRegistry { components: Vec::new() }
    }

    /// Finds the slot registered under `t`, if any.
    pub(crate) fn find(&self, t: u64) -> (r: Option<usize>)
        ensures
            match r {
                Some(i) => i < self@.len() && self@[i as int].type_id == t && has_type(self@, t),
                None => !has_type(self@, t),
            },
            registry_wf(self@) && r is Some ==> r->Some_0 as int == index_of(self@, t),
    {
        let ghost slots = self@;
        let mut i: usize = 0;
        while i < self.components.len()
            invariant
                i <= self.components.len(),
                slots == self@,
                slots.len() == self.components.len(),
                forall|j: int| 0 <= j < i ==> slots[j].type_id != t,
            decreases self.components.len() - i,
        {
            if self.components[i].type_id == t {
                proof {
                    assert(slots[i as int].type_id == t);
                    if registry_wf(slots) {
                        let w = index_of(slots, t);
                        assert(0 <= w < slots.len() && slots[w].type_id == t);
                        assert(w == i as int);
                    }
                }
                return Some(i);
            }
            i += 1;
        }
        None
    }

    /// Registers a new component type under identity `type_id`, creating its
    /// (empty, unlocked) store. Registering the same identity twice is
    /// refused so no second, divergent store can appear.
    pub fn register(&mut self, type_id: u64) -> (r: Result<StoreHandle, EcsError>)
        ensures
            !has_type(old(self)@, type_id) ==> {
                &&& final(self)@ == register_spec(old(self)@, type_id)
                &&& r matches Ok(h) && h.index as int == old(self)@.len() && h.type_id == type_id
            },
            has_type(old(self)@, type_id) ==> {
                &&& final(self)@ == old(self)@
                &&& r == Err::<StoreHandle, EcsError>(EcsError::DuplicateRegistration)
            },
            registry_wf(old(self)@) ==> registry_wf(final(self)@),
    {
        match self.find(type_id) {
            Some(_) => Err(EcsError::DuplicateRegistration),
            None => {
                let index = self.components.len();
                self.components.push(Component { type_id, locked: false, store: Vec::new() });
                proof {
                    assert(self@ =~= register_spec(old(self)@, type_id));
                }
                Ok(StoreHandle { index, type_id })
            },
        }
    }

    /// Appends one (entity, value) pair to the store named by `handle`. The
    /// handle must name a live slot of the same type identity, and the store
    /// must not be held by an exclusive view.
    pub fn create_component(
        &mut self,
        handle: StoreHandle,
        entity: EntityID,
        value: C,
    ) -> (r: Result<(), EcsError>)
        ensures
            (handle.index as int) >= old(self)@.len() ==> {
                &&& final(self)@ == old(self)@
                &&& r == Err::<(), EcsError>(EcsError::UnknownComponentType)
            },
            (handle.index as int) < old(self)@.len()
                && old(self)@[handle.index as int].type_id != handle.type_id ==> {
                &&& final(self)@ == old(self)@
                &&& r == Err::<(), EcsError>(EcsError::TypeMismatch)
            },
            (handle.index as int) < old(self)@.len()
                && old(self)@[handle.index as int].type_id == handle.type_id
                && old(self)@[handle.index as int].locked ==> {
                &&& final(self)@ == old(self)@
                &&& r == Err::<(), EcsError>(EcsError::LockAcquisitionFailed)
            },
            (handle.index as int) < old(self)@.len()
                && old(self)@[handle.index as int].type_id == handle.type_id
                && !old(self)@[handle.index as int].locked ==> {
                &&& final(self)@ == create_spec(old(self)@, handle.index as int, entity, value)
                &&& r == Ok::<(), EcsError>(())
            },
    {
        if handle.index >= self.components.len() {
            return Err(EcsError::UnknownComponentType);
        }
        if self.components[handle.index].type_id != handle.type_id {
            return Err(EcsError::TypeMismatch);
        }
        if self.components[handle.index].locked {
            return Err(EcsError::LockAcquisitionFailed);
        }
        let slot = &mut self.components[handle.index];
        slot.store.push((entity, value));
        proof {
            assert(self@ =~= create_spec(old(self)@, handle.index as int, entity, value));
        }
        Ok(())
    }

    /// Checks that every type identity in `tids` names a registered slot
    /// whose store no exclusive view holds, reporting the first failure in
    /// list order.
    pub(crate) fn validate(&self, tids: &Vec<u64>) -> (r: Result<(), EcsError>)
        requires
            registry_wf(self@),
        ensures
            match first_failure(self@, tids@) {
                None => r is Ok,
                Some(e) => r == Err::<(), EcsError>(e),
            },
    {
        let mut i: usize = 0;
        proof {
            assert(tids@.skip(0) =~= tids@);
        }
        while i < tids.len()
            invariant
                registry_wf(self@),
                i <= tids.len(),
                first_failure(self@, tids@) == first_failure(self@, tids@.skip(i as int)),
            decreases tids.len() - i,
        {
            let t = tids[i];
            proof {
                assert(tids@.skip(i as int)[0] == tids@[i as int]);
            }
            match self.find(t) {
                None => {
                    return Err(EcsError::UnknownComponentType);
                },
                Some(s) => {
                    if self.components[s].locked {
                        return Err(EcsError::LockAcquisitionFailed);
                    }
                },
            }
            proof {
                assert(tids@.skip(i as int).drop_first() =~= tids@.skip(i as int + 1));
            }
            i += 1;
        }
        proof {
            assert(tids@.skip(tids@.len() as int) =~= Seq::<u64>::empty());
        }
        Ok(())
    }

    /// Replaces the stored pairs of the slot at `index`, leaving its type
    /// identity and lock state alone.
    pub(crate) fn set_store(&mut self, index: usize, entries: ComponentList<C>)
        requires
            (index as int) < old(self)@.len(),
        ensures
            final(self)@ == old(self)@.update(
                index as int,
                (SlotModel { store: entries@, ..old(self)@[index as int] }),
            ),
    {
        let slot = &mut self.components[index];
        slot.store = entries;
        proof {
            assert(self@ =~= old(self)@.update(
                index as int,
                (SlotModel { store: entries@, ..old(self)@[index as int] }),
            ));
        }
    }
}

impl<C> ComponentRegistry<C> {
    /// Takes the writer view of the store registered under `type_id`,
    /// moving the store out of its slot and locking the slot until the view
    /// is handed back. Fails without blocking when the type was never
    /// registered, or when another exclusive view is already out.
    pub fn acquire_exclusive(&mut self, type_id: u64) -> (r: Result<ExclusiveView<C>, EcsError>)
        requires
            registry_wf(old(self)@),
        ensures
            registry_wf(final(self)@),
            !has_type(old(self)@, type_id) ==> final(self)@ == old(self)@ && r == Err::<
                ExclusiveView<C>,
                EcsError,
            >(EcsError::UnknownComponentType),
            has_type(old(self)@, type_id) && slot_of(old(self)@, type_id).locked ==> final(self)@
                == old(self)@ && r == Err::<ExclusiveView<C>, EcsError>(
                EcsError::LockAcquisitionFailed,
            ),
            has_type(old(self)@, type_id) && !slot_of(old(self)@, type_id).locked ==> {
                &&& r matches Ok(v)
                &&& v.store.type_id == type_id
                &&& v.store.entries@ == view_spec(old(self)@, type_id)
                &&& final(self)@ == take_spec(old(self)@, type_id)
            },
    {
        match self.find(type_id) {
            None => Err(EcsError::UnknownComponentType),
            Some(i) => {
                if self.components[i].locked {
                    Err(EcsError::LockAcquisitionFailed)
                } else {
                    let slot = &mut self.components[i];
                    slot.locked = true;
                    let mut entries: ComponentList<C> = Vec::new();
                    core::mem::swap(&mut slot.store, &mut entries);
                    proof {
                        assert(self@ =~= take_spec(old(self)@, type_id));
                        assert forall|a: int, b: int|
                            0 <= a < b < self@.len() implies self@[a].type_id
                            != self@[b].type_id by {
                            assert(self@[a].type_id == old(self)@[a].type_id);
                            assert(self@[b].type_id == old(self)@[b].type_id);
                        }
                    }
                    Ok(ExclusiveView { store: ComponentStore { type_id, entries } })
                }
            },
        }
    }

    /// Hands an exclusive view back: the view's pairs become the slot's
    /// store again and the slot unlocks. Fails when the view's type identity
    /// names no slot, or names a slot that is not currently locked.
    pub fn release_exclusive(&mut self, view: ExclusiveView<C>) -> (r: Result<(), EcsError>)
        requires
            registry_wf(old(self)@),
        ensures
            registry_wf(final(self)@),
            !has_type(old(self)@, view.store.type_id) ==> final(self)@ == old(self)@ && r
                == Err::<(), EcsError>(EcsError::UnknownComponentType),
            has_type(old(self)@, view.store.type_id) && !slot_of(
                old(self)@,
                view.store.type_id,
            ).locked ==> final(self)@ == old(self)@ && r == Err::<(), EcsError>(
                EcsError::LockAcquisitionFailed,
            ),
            has_type(old(self)@, view.store.type_id) && slot_of(
                old(self)@,
                view.store.type_id,
            ).locked ==> final(self)@ == put_spec(old(self)@, view.store.type_id, view.store.entries@)
                && r == Ok::<(), EcsError>(()),
    {
        let type_id = view.store.type_id;
        match self.find(type_id) {
            None => Err(EcsError::UnknownComponentType),
            Some(i) => {
                if !self.components[i].locked {
                    Err(EcsError::LockAcquisitionFailed)
                } else {
                    let slot = &mut self.components[i];
                    slot.locked = false;
                    slot.store = view.store.entries;
                    proof {
                        assert(self@ =~= put_spec(old(self)@, type_id, view.store.entries@));
                        assert forall|a: int, b: int|
                            0 <= a < b < self@.len() implies self@[a].type_id
                            != self@[b].type_id by {
                            assert(self@[a].type_id == old(self)@[a].type_id);
                            assert(self@[b].type_id == old(self)@[b].type_id);
                        }
                    }
                    Ok(())
                }
            },
        }
    }

}

impl<C: Copy> ComponentRegistry<C> {
    /// Takes a reader view of the store registered under `type_id`: a
    /// snapshot of its pairs at acquisition time. Fails without blocking
    /// when the type was never registered, or when an exclusive view
    /// currently holds the store.
    pub fn acquire_shared(&self, type_id: u64) -> (r: Result<SharedView<C>, EcsError>)
        requires
            registry_wf(self@),
        ensures
            !has_type(self@, type_id) ==> r == Err::<SharedView<C>, EcsError>(
                EcsError::UnknownComponentType,
            ),
            has_type(self@, type_id) && slot_of(self@, type_id).locked ==> r == Err::<
                SharedView<C>,
                EcsError,
            >(EcsError::LockAcquisitionFailed),
            has_type(self@, type_id) && !slot_of(self@, type_id).locked ==> {
                &&& r matches Ok(v)
                &&& v.store.type_id == type_id
                &&& v.store.entries@ == view_spec(self@, type_id)
            },
    {
        match self.find(type_id) {
            None => Err(EcsError::UnknownComponentType),
            Some(i) => {
                if self.components[i].locked {
                    Err(EcsError::LockAcquisitionFailed)
                } else {
                    let entries = copy_vec(&self.components[i].store);
                    Ok(SharedView { store: ComponentStore { type_id, entries } })
                }
            },
        }
    }

    /// A snapshot of the store registered under `type_id`, for handing to a
    /// handler as a read view.
    pub(crate) fn snapshot(&self, type_id: u64) -> (r: ComponentStore<C>)
        requires
            registry_wf(self@),
            has_type(self@, type_id),
        ensures
            r.type_id == type_id,
            r.entries@ == view_spec(self@, type_id),
    {
        let i = match self.find(type_id) {
            Some(i) => i,
            None => {
                proof {
                    assert(false);
                }
                0
            },
        };
        ComponentStore { type_id, entries: copy_vec(&self.components[i].store) }
    }
}

/// When no failure is reported for `tids`, every one of them names a
/// registered slot whose store no exclusive view holds.
pub proof fn lemma_first_failure_none<C>(slots: Seq<SlotModel<C>>, tids: Seq<u64>)
    requires
        first_failure(slots, tids) is None,
    ensures
        forall|i: int|
            0 <= i < tids.len() ==> has_type(slots, tids[i]) && !slot_of(slots, tids[i]).locked,
    decreases tids.len(),
{
    if tids.len() == 0 {
    } else {
        lemma_first_failure_none(slots, tids.drop_first());
        assert forall|i: int|
            0 <= i < tids.len() implies has_type(slots, tids[i]) && !slot_of(
            slots,
            tids[i],
        ).locked by {
            if i > 0 {
                assert(tids.drop_first()[i - 1] == tids[i]);
            }
        }
    }
}

/// The failure reported for `tids` depends only on which type identities
/// exist and which slots are locked, not on the stored pairs.
pub proof fn lemma_first_failure_congruent<C>(
    s1: Seq<SlotModel<C>>,
    s2: Seq<SlotModel<C>>,
    tids: Seq<u64>,
)
    requires
        registry_wf(s1),
        s1.len() == s2.len(),
        forall|i: int|
            0 <= i < s1.len() ==> s2[i].type_id == s1[i].type_id && s2[i].locked == s1[i].locked,
    ensures
        first_failure(s2, tids) == first_failure(s1, tids),
    decreases tids.len(),
{
    if tids.len() == 0 {
    } else {
        let t = tids[0];
        assert(has_type(s1, t) == has_type(s2, t)) by {
            if has_type(s1, t) {
                let w = choose|w: int| 0 <= w < s1.len() && s1[w].type_id == t;
                assert(s2[w].type_id == t);
            }
            if has_type(s2, t) {
                let w = choose|w: int| 0 <= w < s2.len() && s2[w].type_id == t;
                assert(s1[w].type_id == t);
            }
        }
        if has_type(s1, t) {
            let i1 = index_of(s1, t);
            let i2 = index_of(s2, t);
            assert(0 <= i1 < s1.len() && s1[i1].type_id == t);
            assert(0 <= i2 < s2.len() && s2[i2].type_id == t);
            assert(s1[i2].type_id == t);
            assert(i1 == i2);
            assert(slot_of(s2, t).locked == slot_of(s1, t).locked);
        }
        lemma_first_failure_congruent(s1, s2, tids.drop_first());
    }
}

/// Replacing the stored pairs of the slot registered under `t` changes
/// that type's view to exactly the new pairs and no other type's view.
pub proof fn lemma_set_store_views<C>(
    s1: Seq<SlotModel<C>>,
    s2: Seq<SlotModel<C>>,
    idx: int,
    t: u64,
    entries: Seq<(EntityID, C)>,
)
    requires
        registry_wf(s1),
        0 <= idx < s1.len(),
        s1[idx].type_id == t,
        s2 == s1.update(idx, (SlotModel { store: entries, ..s1[idx] })),
    ensures
        registry_wf(s2),
        has_type(s2, t),
        view_spec(s2, t) == entries,
        forall|t2: u64| #![trigger has_type(s2, t2)] has_type(s2, t2) == has_type(s1, t2),
        forall|t2: u64|
            #![trigger view_spec(s2, t2)]
            has_type(s1, t2) && t2 != t ==> view_spec(s2, t2) == view_spec(s1, t2),
{
    assert forall|t2: u64|
        #![trigger has_type(s2, t2)]
        has_type(s2, t2) == has_type(s1, t2) by {
        if has_type(s1, t2) {
            let w = choose|w: int| 0 <= w < s1.len() && s1[w].type_id == t2;
            assert(s2[w].type_id == t2);
        }
        if has_type(s2, t2) {
            let w = choose|w: int| 0 <= w < s2.len() && s2[w].type_id == t2;
            assert(s1[w].type_id == t2);
        }
    }
    assert forall|a: int, b: int|
        0 <= a < b < s2.len() implies s2[a].type_id != s2[b].type_id by {
        assert(s2[a].type_id == s1[a].type_id);
        assert(s2[b].type_id == s1[b].type_id);
    }
    assert(s2[idx].type_id == t);
    let j = index_of(s2, t);
    assert(0 <= j < s2.len() && s2[j].type_id == t);
    if j != idx {
        assert(s2[j].type_id == s1[j].type_id);
        assert(false);
    }
    assert forall|t2: u64|
        #![trigger view_spec(s2, t2)]
        has_type(s1, t2) && t2 != t implies view_spec(s2, t2) == view_spec(s1, t2) by {
        let i1 = index_of(s1, t2);
        assert(0 <= i1 < s1.len() && s1[i1].type_id == t2);
        assert(s2[i1].type_id == t2);
        assert(has_type(s2, t2));
        let i2 = index_of(s2, t2);
        assert(0 <= i2 < s2.len() && s2[i2].type_id == t2);
        assert(s1[i2].type_id == t2);
        assert(i1 == i2);
        assert(i1 != idx);
        assert(s2[i1] == s1[i1]);
    }
}

/// A type's view is unchanged when every slot keeps its identity and the
/// slot registered under that type keeps its stored pairs.
pub proof fn lemma_view_preserved<C>(s1: Seq<SlotModel<C>>, s2: Seq<SlotModel<C>>, t: u64)
    requires
        registry_wf(s1),
        s2.len() == s1.len(),
        forall|i: int| 0 <= i < s1.len() ==> s2[i].type_id == s1[i].type_id,
        has_type(s1, t),
        s2[index_of(s1, t)].store == s1[index_of(s1, t)].store,
    ensures
        has_type(s2, t),
        view_spec(s2, t) == view_spec(s1, t),
{
    let i1 = index_of(s1, t);
    assert(0 <= i1 < s1.len() && s1[i1].type_id == t);
    assert(s2[i1].type_id == t);
    assert(has_type(s2, t));
    let i2 = index_of(s2, t);
    assert(0 <= i2 < s2.len() && s2[i2].type_id == t);
    assert(s1[i2].type_id == t);
    assert forall|a: int, b: int|
        0 <= a < b < s2.len() implies s2[a].type_id != s2[b].type_id by {
        assert(s2[a].type_id == s1[a].type_id);
        assert(s2[b].type_id == s1[b].type_id);
    }
    if i2 != i1 {
        assert(false);
    }
}

/// Copies a list of component stores, pair for pair.
pub(crate) fn copy_stores<C: Copy>(v: &Vec<ComponentStore<C>>) -> (r: Vec<ComponentStore<C>>)
    ensures
        views_model(r@) == views_model(v@),
        r@.len() == v@.len(),
{
    let mut r: Vec<ComponentStore<C>> = Vec::new();
    let mut i: usize = 0;
    while i < v.len()
        invariant
            i <= v.len(),
            r@.len() == i,
            forall|j: int| 0 <= j < i ==> (#[trigger] r@[j])@ == v@[j]@,
        decreases v.len() - i,
    {
        let entries = copy_vec(&v[i].entries);
        r.push(ComponentStore { type_id: v[i].type_id, entries });
        i += 1;
    }
    proof {
        assert(views_model(r@) =~= views_model(v@));
    }
    r
}

} // verus!
