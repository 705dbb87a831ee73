//! Events: named occurrences, each with a payload queue for the current
//! tick, a payload queue deferred to the following tick, and the ordered
//! list of handlers registered for it.
//!
//! The two-queue protocol is the tick state machine: a default trigger
//! appends to the next-tick queue so that triggering during a dispatch can
//! never recurse within the same tick; `next_tick` promotes deferred
//! payloads, appending them after any payloads already queued for the
//! current tick; a dispatch drains the current-tick queue exactly once.

use vstd::prelude::*;

use crate::components::{views_model, ComponentStore, StoreModel};

verus! {

/// One handler registration: the handler implementation to invoke (an index
/// into the world's handler list), the component types it reads, and the
/// component types it writes. Both type lists are kept sorted and free of
/// duplicates, and are disjoint from each other.
pub struct HandlerDesc {
    /// Index of the handler implementation in the world's handler list.
    pub handler: usize,
    /// Type identities acquired as shared views, sorted strictly increasing.
    pub reads: Vec<u64>,
    /// Type identities acquired as exclusive views, sorted strictly increasing.
    pub writes: Vec<u64>,
}

/// Ghost model of one handler registration.
#[verifier::ext_equal]
pub ghost struct DescModel {
    pub handler: int,
    pub reads: Seq<u64>,
    pub writes: Seq<u64>,
}

impl View for HandlerDesc {
    type V = DescModel;

    open spec fn view(&self) -> DescModel {
        DescModel { handler: self.handler as int, reads: self.reads@, writes: self.writes@ }
    }
}

/// One registered event.
pub struct Event<P> {
    /// The event's name; unique within one world.
    pub name: String,
    /// Payloads to hand to handlers at the current dispatch, in trigger order.
    pub this_tick: Vec<P>,
    /// Payloads deferred to the following tick, in trigger order.
    pub next_tick: Vec<P>,
    /// The handlers registered for this event, in registration order.
    pub handlers: Vec<HandlerDesc>,
}

/// Ghost model of one registered event.
#[verifier::ext_equal]
pub ghost struct EventModel<P> {
    pub name: Seq<char>,
    pub this_tick: Seq<P>,
    pub next_tick: Seq<P>,
    pub handlers: Seq<DescModel>,
}

impl<P> View for Event<P> {
    type V = EventModel<P>;

    open spec fn view(&self) -> EventModel<P> {
        EventModel {
            name: self.name@,
            this_tick: self.this_tick@,
            next_tick: self.next_tick@,
            handlers: self.handlers@.map_values(|d: HandlerDesc| d@),
        }
    }
}

/// The handler interface: a system's reaction to one event. The dispatcher
/// hands it the drained payload batch, a snapshot of each store in the
/// declared read set, and the stores of the declared write set (in sorted
/// type-identity order); whatever is left in `writes` when the handler
/// returns becomes the new content of those stores.
pub trait Handler<P, C>: Sized {
    /// What one invocation of `run` establishes: a relation between the
    /// handler before and after the call, the delivered batch, the read
    /// and write views it was handed, and the write views it left behind.
    /// The default promises nothing; an implementation overrides it with
    /// its own contract, and the dispatch report carries it to callers.
    open spec fn run_post(
        pre: Self,
        batch: Seq<P>,
        reads: Seq<StoreModel<C>>,
        writes_pre: Seq<StoreModel<C>>,
        post: Self,
        writes_post: Seq<StoreModel<C>>,
    ) -> bool {
        true
    }

    /// Reacts to one event dispatch.
    fn run(
        &mut self,
        batch: &Vec<P>,
        reads: &Vec<ComponentStore<C>>,
        writes: &mut Vec<ComponentStore<C>>,
    )
        ensures
            Self::run_post(
                *old(self),
                batch@,
                views_model(reads@),
                views_model(old(writes)@),
                *final(self),
                views_model(final(writes)@),
            ),
    ;
}

/// Whether an event of this name exists.
pub open spec fn has_event_named<P>(evs: Seq<EventModel<P>>, name: Seq<char>) -> bool {
    exists|i: int| 0 <= i < evs.len() && evs[i].name == name
}

/// Whether event `e` has payloads queued for the current dispatch.
pub open spec fn pending_this_tick<P>(evs: Seq<EventModel<P>>, e: int) -> bool {
    evs[e].this_tick.len() > 0
}

/// Whether event `e` has payloads deferred to the following tick.
pub open spec fn pending_next_tick<P>(evs: Seq<EventModel<P>>, e: int) -> bool {
    evs[e].next_tick.len() > 0
}

/// The batch a dispatch would hand to every handler of event `e`.
pub open spec fn batch_spec<P>(evs: Seq<EventModel<P>>, e: int) -> Seq<P> {
    evs[e].this_tick
}

/// Registering an event appends an empty entry under `name`.
pub open spec fn register_event_spec<P>(
    evs: Seq<EventModel<P>>,
    name: Seq<char>,
) -> Seq<EventModel<P>> {
    evs.push(
        EventModel {
            name,
            this_tick: Seq::empty(),
            next_tick: Seq::empty(),
            handlers: Seq::empty(),
        },
    )
}

/// A this-tick trigger appends the payload to event `e`'s current queue.
pub open spec fn trigger_this_spec<P>(evs: Seq<EventModel<P>>, e: int, p: P) -> Seq<EventModel<P>> {
    evs.update(e, EventModel { this_tick: evs[e].this_tick.push(p), ..evs[e] })
}

/// A next-tick trigger appends the payload to event `e`'s deferred queue.
pub open spec fn trigger_next_spec<P>(evs: Seq<EventModel<P>>, e: int, p: P) -> Seq<EventModel<P>> {
    evs.update(e, EventModel { next_tick: evs[e].next_tick.push(p), ..evs[e] })
}

/// Advancing the tick promotes every deferred queue: its payloads are
/// appended after the payloads already queued for the current tick, in
/// order, and the deferred queue empties.
pub open spec fn promote_spec<P>(evs: Seq<EventModel<P>>) -> Seq<EventModel<P>> {
    Seq::new(
        evs.len(),
        |i: int|
            EventModel {
                this_tick: evs[i].this_tick + evs[i].next_tick,
                next_tick: Seq::empty(),
                ..evs[i]
            },
    )
}

/// A dispatch drains every current-tick queue; names, handlers and deferred
/// queues are untouched.
pub open spec fn drain_spec<P>(evs: Seq<EventModel<P>>) -> Seq<EventModel<P>> {
    Seq::new(evs.len(), |i: int| EventModel { this_tick: Seq::empty(), ..evs[i] })
}

/// Adding a handler registration to event `e`.
pub open spec fn register_handler_spec<P>(
    evs: Seq<EventModel<P>>,
    e: int,
    desc: DescModel,
) -> Seq<EventModel<P>> {
    evs.update(e, EventModel { handlers: evs[e].handlers.push(desc), ..evs[e] })
}

/// A strictly increasing sequence of type identities: sorted, no duplicates.
pub open spec fn strictly_increasing(s: Seq<u64>) -> bool {
    forall|i: int, j: int| 0 <= i < j < s.len() ==> s[i] < s[j]
}

/// Whether two type-identity sequences share an element.
pub open spec fn overlapping(a: Seq<u64>, b: Seq<u64>) -> bool {
    exists|t: u64| a.contains(t) && b.contains(t)
}

/// Whether `v` holds the type identity `t`.
pub fn contains_tid(v: &Vec<u64>, t: u64) -> (r: bool)
    ensures
        r == v@.contains(t),
{
    let mut i: usize = 0;
    while i < v.len()
        invariant
            i <= v.len(),
            forall|j: int| 0 <= j < i ==> v@[j] != t,
        decreases v.len() - i,
    {
        if v[i] == t {
            return true;
        }
        i += 1;
    }
    false
}

/// Sorts a list of type identities and drops duplicates, yielding the
/// canonical acquisition order for a handler's declared access set.
pub fn sorted_unique(tids: &Vec<u64>) -> (r: Vec<u64>)
    ensures
        strictly_increasing(r@),
        forall|t: u64| r@.contains(t) <==> tids@.contains(t),
{
    let mut r: Vec<u64> = Vec::new();
    let mut i: usize = 0;
    while i < tids.len()
        invariant
            i <= tids.len(),
            strictly_increasing(r@),
            forall|t: u64| r@.contains(t) <==> tids@.subrange(0, i as int).contains(t),
        decreases tids.len() - i,
    {
        let x = tids[i];
        let ghost r0 = r@;
        let mut j: usize = 0;
        while j < r.len() && r[j] < x
            invariant
                j <= r.len(),
                r@ == r0,
                forall|k: int| 0 <= k < j ==> r@[k] < x,
            decreases r.len() - j,
        {
            j += 1;
        }
        if j == r.len() {
            r.push(x);
            proof {
                assert forall|a: int, b: int|
                    0 <= a < b < r@.len() implies r@[a] < r@[b] by {
                    if b == r@.len() - 1 {
                        assert(r@[a] == r0[a]);
                    }
                }
                assert forall|t: u64| r@.contains(t) <==> (r0.contains(t) || t == x) by {
                    if r@.contains(t) {
                        let w = choose|w: int| 0 <= w < r@.len() && r@[w] == t;
                        if w < r0.len() {
                            assert(r0[w] == t);
                        }
                    }
                    if r0.contains(t) {
                        let w = choose|w: int| 0 <= w < r0.len() && r0[w] == t;
                        assert(r@[w] == t);
                    }
                    if t == x {
                        assert(r@[r0.len() as int] == t);
                    }
                }
            }
        } else if x < r[j] {
            proof {
                r0.insert_ensures(j as int, x);
            }
            r.insert(j, x);
            proof {
                assert forall|a: int, b: int|
                    0 <= a < b < r@.len() implies r@[a] < r@[b] by {
                    if a < j && b < j {
                    } else if a < j && b == j {
                    } else if a < j && b > j {
                        assert(r@[b] == r0[b - 1]);
                        assert(r0[j as int] <= r0[b - 1] || (j as int) == b - 1);
                        if (j as int) == b - 1 {
                            assert(r@[b] == r0[j as int]);
                            assert(x < r0[j as int]);
                        } else {
                            assert(r0[j as int] < r0[b - 1]);
                        }
                    } else if a == j {
                        assert(r@[a] == x);
                        assert(r@[b] == r0[b - 1]);
                        assert(x < r0[j as int]);
                        if (j as int) < b - 1 {
                            assert(r0[j as int] < r0[b - 1]);
                        }
                    } else {
                        assert(r@[a] == r0[a - 1]);
                        assert(r@[b] == r0[b - 1]);
                    }
                }
                assert forall|t: u64| r@.contains(t) <==> (r0.contains(t) || t == x) by {
                    if r@.contains(t) {
                        let w = choose|w: int| 0 <= w < r@.len() && r@[w] == t;
                        if w < j {
                            assert(r0[w] == t);
                        } else if w == j {
                        } else {
                            assert(r0[w - 1] == t);
                        }
                    }
                    if r0.contains(t) {
                        let w = choose|w: int| 0 <= w < r0.len() && r0[w] == t;
                        if w < j {
                            assert(r@[w] == t);
                        } else {
                            assert(r@[w + 1] == t);
                        }
                    }
                    if t == x {
                        assert(r@[j as int] == t);
                    }
                }
            }
        } else {
            proof {
                assert(r@[j as int] == x);
                assert(r@.contains(x));
            }
        }
        proof {
            assert(tids@.subrange(0, i + 1) =~= tids@.subrange(0, i as int).push(x));
            assert forall|t: u64|
                tids@.subrange(0, i + 1).contains(t) <==> (tids@.subrange(
                    0,
                    i as int,
                ).contains(t) || t == x) by {
                let pre = tids@.subrange(0, i as int);
                let post = tids@.subrange(0, i + 1);
                if post.contains(t) {
                    let w = choose|w: int| 0 <= w < post.len() && post[w] == t;
                    if w < pre.len() {
                        assert(pre[w] == t);
                    }
                }
                if pre.contains(t) {
                    let w = choose|w: int| 0 <= w < pre.len() && pre[w] == t;
                    assert(post[w] == t);
                }
                if t == x {
                    assert(post[i as int] == t);
                }
            }
            assert forall|t: u64|
                r@.contains(t) <==> tids@.subrange(0, i as int + 1).contains(t) by {
                assert(r@.contains(t) <==> (r0.contains(t) || t == x));
                assert(r0.contains(t) <==> tids@.subrange(0, i as int).contains(t));
                assert(tids@.subrange(0, i as int + 1).contains(t) <==> (tids@.subrange(
                    0,
                    i as int,
                ).contains(t) || t == x));
            }
        }
        i += 1;
    }
    proof {
        assert(tids@.subrange(0, tids@.len() as int) =~= tids@);
    }
    r
}

} // verus!
