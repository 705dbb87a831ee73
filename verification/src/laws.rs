//! The laws the library states of its tick protocol and its stores, proved
//! over the same ghost models its executable contracts are written in.

use vstd::prelude::*;

use crate::components::{
    create_spec, has_type, index_of, registry_wf, view_spec, SlotModel,
};
use crate::entities::EntityID;
use crate::events::{
    batch_spec, drain_spec, promote_spec, trigger_next_spec, trigger_this_spec, EventModel,
};

verus! {

/// The event list after a sequence of deferred triggers on event `e`, one
/// per payload in `ps`, in call order.
pub open spec fn trigger_all_next<P>(
    evs: Seq<EventModel<P>>,
    e: int,
    ps: Seq<P>,
) -> Seq<EventModel<P>>
    decreases ps.len(),
{
    if ps.len() == 0 {
        evs
    } else {
        trigger_all_next(trigger_next_spec(evs, e, ps[0]), e, ps.drop_first())
    }
}

/// A sequence of deferred triggers appends exactly its payloads, in call
/// order, to the event's deferred queue, and touches nothing else.
pub proof fn lemma_trigger_all_next<P>(evs: Seq<EventModel<P>>, e: int, ps: Seq<P>)
    requires
        0 <= e < evs.len(),
    ensures
        trigger_all_next(evs, e, ps).len() == evs.len(),
        trigger_all_next(evs, e, ps)[e].next_tick == evs[e].next_tick + ps,
        trigger_all_next(evs, e, ps)[e].this_tick == evs[e].this_tick,
        trigger_all_next(evs, e, ps)[e].name == evs[e].name,
        trigger_all_next(evs, e, ps)[e].handlers == evs[e].handlers,
        forall|i: int| 0 <= i < evs.len() && i != e ==> trigger_all_next(evs, e, ps)[i] == evs[i],
    decreases ps.len(),
{
    if ps.len() == 0 {
        assert(evs[e].next_tick + ps =~= evs[e].next_tick);
    } else {
        let evs1 = trigger_next_spec(evs, e, ps[0]);
        lemma_trigger_all_next(evs1, e, ps.drop_first());
        assert(trigger_all_next(evs, e, ps) == trigger_all_next(evs1, e, ps.drop_first()));
        assert(evs1[e].next_tick == evs[e].next_tick.push(ps[0]));
        assert(evs[e].next_tick.push(ps[0]) + ps.drop_first() =~= evs[e].next_tick + ps);
        assert forall|i: int|
            0 <= i < evs.len() && i != e implies trigger_all_next(evs, e, ps)[i] == evs[i] by {
            assert(trigger_all_next(evs1, e, ps.drop_first())[i] == evs1[i]);
            assert(evs1[i] == evs[i]);
        }
    }
}

/// Within one tick, for any sequence of deferred `trigger` calls on an
/// event whose queues start empty: after the tick advances, one dispatch
/// hands that event's handlers exactly those payloads, in call order, and
/// the dispatch leaves the current-tick queue empty — so each payload is
/// delivered exactly once.
pub proof fn law_triggers_delivered_in_order<P>(evs: Seq<EventModel<P>>, e: int, ps: Seq<P>)
    requires
        0 <= e < evs.len(),
        evs[e].this_tick.len() == 0,
        evs[e].next_tick.len() == 0,
    ensures
        batch_spec(promote_spec(trigger_all_next(evs, e, ps)), e) == ps,
        batch_spec(drain_spec(promote_spec(trigger_all_next(evs, e, ps))), e) == Seq::<P>::empty(),
{
    lemma_trigger_all_next(evs, e, ps);
    let evs1 = trigger_all_next(evs, e, ps);
    assert(evs1[e].this_tick + evs1[e].next_tick =~= ps);
    assert(batch_spec(promote_spec(evs1), e) == evs1[e].this_tick + evs1[e].next_tick);
}

/// A deferred trigger is invisible to a dispatch in the same tick: the
/// batch a dispatch would deliver is exactly what it was before the
/// trigger. After the tick advances, the batch is what the advanced tick
/// would have delivered anyway, with the deferred payload appended.
pub proof fn law_deferred_until_next_tick<P>(evs: Seq<EventModel<P>>, e: int, p: P)
    requires
        0 <= e < evs.len(),
    ensures
        batch_spec(trigger_next_spec(evs, e, p), e) == batch_spec(evs, e),
        batch_spec(promote_spec(trigger_next_spec(evs, e, p)), e) == batch_spec(
            promote_spec(evs),
            e,
        ).push(p),
{
    assert(trigger_next_spec(evs, e, p)[e].this_tick == evs[e].this_tick);
    assert(evs[e].this_tick + evs[e].next_tick.push(p) =~= (evs[e].this_tick
        + evs[e].next_tick).push(p));
}

/// An immediate trigger is delivered by a dispatch in the same tick, after
/// every payload already queued: no `next_tick` is needed in between.
pub proof fn law_immediate_delivered_same_tick<P>(evs: Seq<EventModel<P>>, e: int, p: P)
    requires
        0 <= e < evs.len(),
    ensures
        batch_spec(trigger_this_spec(evs, e, p), e) == batch_spec(evs, e).push(p),
{
}

/// An immediate trigger on an event with nothing queued for the current
/// tick is the whole batch a dispatch in the same call delivers, and the
/// dispatch leaves the queue empty again.
pub proof fn law_immediate_delivered_alone<P>(evs: Seq<EventModel<P>>, e: int, p: P)
    requires
        0 <= e < evs.len(),
        evs[e].this_tick.len() == 0,
    ensures
        batch_spec(trigger_this_spec(evs, e, p), e) == seq![p],
        batch_spec(drain_spec(trigger_this_spec(evs, e, p)), e) == Seq::<P>::empty(),
{
    assert(batch_spec(evs, e).push(p) =~= seq![p]);
}

/// The component round trip: creating a component appends its (entity,
/// value) pair to that type's store, and a reader view taken afterwards
/// yields the previous pairs with the new pair at the end, unchanged.
pub proof fn law_component_round_trip<C>(
    slots: Seq<SlotModel<C>>,
    t: u64,
    entity: EntityID,
    value: C,
)
    requires
        registry_wf(slots),
        has_type(slots, t),
    ensures
        view_spec(create_spec(slots, index_of(slots, t), entity, value), t) == view_spec(
            slots,
            t,
        ).push((entity, value)),
        view_spec(create_spec(slots, index_of(slots, t), entity, value), t).last() == (
            entity,
            value,
        ),
{
    let i = index_of(slots, t);
    assert(0 <= i < slots.len() && slots[i].type_id == t);
    let slots2 = create_spec(slots, i, entity, value);
    assert(slots2[i].type_id == t);
    assert(has_type(slots2, t));
    let j = index_of(slots2, t);
    assert(0 <= j < slots2.len() && slots2[j].type_id == t);
    if j != i {
        assert(slots2[j] == slots[j]);
        assert(false);
    }
}

} // verus!
