//! A sample system against the dispatch core, in the shape the declarative
//! layer produces: a state struct, an event payload, a component type, a
//! handler that folds the first payload and the first stored component into
//! the state, and a registration helper.

use vstd::prelude::*;

use crate::components::{views_model, ComponentStore, StoreModel};
use crate::errors::EcsError;
use crate::events::{overlapping, register_handler_spec, Handler};
use crate::world::World;

verus! {

/// The sample event's payload.
#[derive(Clone, Copy, Debug, PartialEq, Eq, Structural)]
pub struct Data {
    /// First payload value.
    pub x: i64,
    /// Second payload value.
    pub y: i64,
}

/// The sample component: two plain values attached to an entity.
#[derive(Clone, Copy, Debug, PartialEq, Eq, Structural)]
pub struct Component {
    /// First component value.
    pub a: i64,
    /// Second component value.
    pub b: i64,
}

/// The type identity the sample component registers under.
pub const COMPONENT_TYPE: u64 = 1;

/// The sample system's state.
#[derive(Clone, Copy, Debug, PartialEq, Eq, Structural, Default)]
pub struct State {
    /// The running value the handler folds payloads and components into.
    pub x: i64,
}

impl State {
    /// Folds one dispatch into the state: the first payload's `x` and the
    /// first stored component's `a` are added to the running value.
    pub fn event_name(&mut self, data: &Vec<Data>, positions: &ComponentStore<Component>)
        requires
            data@.len() > 0,
            positions.entries@.len() > 0,
            i64::MIN <= old(self).x + data@[0].x <= i64::MAX,
            i64::MIN <= old(self).x + data@[0].x + positions.entries@[0].1.a <= i64::MAX,
        ensures
            final(self).x == old(self).x + data@[0].x + positions.entries@[0].1.a,
    {
        self.x = self.x + data[0].x;
        let pair = positions.get(0);
        self.x = self.x + pair.1.a;
    }
}

impl Handler<Data, Component> for State {
    /// What one invocation did: when a payload and a first read store with
    /// an entry were handed over and the sum stays in range, the running
    /// value gained the first payload's `x` and the first component's `a`;
    /// on any other input the state is unchanged. The write views are
    /// handed back untouched.
    open spec fn run_post(
        pre: State,
        batch: Seq<Data>,
        reads: Seq<StoreModel<Component>>,
        writes_pre: Seq<StoreModel<Component>>,
        post: State,
        writes_post: Seq<StoreModel<Component>>,
    ) -> bool {
        &&& writes_post == writes_pre
        &&& if batch.len() > 0 && reads.len() > 0 && reads[0].entries.len() > 0 && i64::MIN
            <= pre.x + batch[0].x <= i64::MAX && i64::MIN <= pre.x + batch[0].x
            + reads[0].entries[0].1.a <= i64::MAX {
            post.x == pre.x + batch[0].x + reads[0].entries[0].1.a
        } else {
            post == pre
        }
    }

    /// Reacts to one dispatch of the sample event: defensive about what it
    /// was handed, it folds the first payload and the first component of
    /// the first read store into the state, and skips a dispatch whose sum
    /// would overflow.
    fn run(
        &mut self,
        batch: &Vec<Data>,
        reads: &Vec<ComponentStore<Component>>,
        writes: &mut Vec<ComponentStore<Component>>,
    ) {
        proof {
            if reads@.len() > 0 {
                assert(views_model(reads@)[0] == reads@[0]@);
            }
        }
        if batch.len() > 0 && reads.len() > 0 {
            let first = &reads[0];
            if first.len() > 0 {
                let d = batch[0];
                let pair = first.get(0);
                if let Some(v1) = self.x.checked_add(d.x) {
                    if v1.checked_add(pair.1.a).is_some() {
                        self.event_name(batch, first);
                    }
                }
            }
        }
    }
}

/// Registers the sample system on `event`: one `State` handler, reading
/// the sample component type and writing nothing.
pub fn register(world: &mut World<Data, Component, State>, event: usize) -> (r: Result<
    (),
    EcsError,
>)
    requires
        old(world).wf(),
    ensures
        final(world).wf(),
        final(world).components@ == old(world).components@,
        (event as int) >= old(world).events_model().len() ==> final(world).events_model() == old(
            world,
        ).events_model() && final(world).handlers@ == old(world).handlers@ && r == Err::<
            (),
            EcsError,
        >(EcsError::UnknownEvent),
        (event as int) < old(world).events_model().len() ==> {
            &&& r == Ok::<(), EcsError>(())
            &&& final(world).handlers@ == old(world).handlers@.push((State { x: 0 }))
            &&& ({
                let d = final(world).events_model()[event as int].handlers.last();
                &&& final(world).events_model() == register_handler_spec(
                    old(world).events_model(),
                    event as int,
                    d,
                )
                &&& d.handler == old(world).handlers@.len()
                &&& d.reads == seq![COMPONENT_TYPE]
                &&& d.writes == Seq::<u64>::empty()
            })
        },
{
    let mut reads: Vec<u64> = Vec::new();
    reads.push(COMPONENT_TYPE);
    let writes: Vec<u64> = Vec::new();
    let ghost rv = reads@;
    let ghost wv = writes@;
    let r = world.register_handler(event, State { x: 0 }, reads, writes);
    proof {
        assert(!overlapping(rv, wv)) by {
            if overlapping(rv, wv) {
                let t = choose|t: u64| rv.contains(t) && wv.contains(t);
                let w = choose|w: int| 0 <= w < wv.len() && wv[w] == t;
                assert(false);
            }
        }
        if (event as int) < old(world).events_model().len() {
            let d = world.events_model()[event as int].handlers.last();
            assert forall|t: u64| d.reads.contains(t) implies t == COMPONENT_TYPE by {
                assert(rv.contains(t));
                let w = choose|w: int| 0 <= w < rv.len() && rv[w] == t;
                assert(w == 0);
            }
            assert(d.reads.contains(COMPONENT_TYPE)) by {
                assert(rv[0] == COMPONENT_TYPE);
                assert(rv.contains(COMPONENT_TYPE));
            }
            assert(d.reads.len() >= 1);
            if d.reads.len() > 1 {
                assert(d.reads.contains(d.reads[0])) by {
                    assert(d.reads[0] == d.reads[0]);
                }
                assert(d.reads.contains(d.reads[1])) by {
                    assert(d.reads[1] == d.reads[1]);
                }
                assert(d.reads[0] == COMPONENT_TYPE && d.reads[1] == COMPONENT_TYPE);
                assert(false);
            }
            assert(d.reads =~= seq![COMPONENT_TYPE]);
            assert forall|t: u64| !d.writes.contains(t) by {
                if d.writes.contains(t) {
                    assert(wv.contains(t));
                    let w = choose|w: int| 0 <= w < wv.len() && wv[w] == t;
                }
            }
            if d.writes.len() > 0 {
                assert(d.writes.contains(d.writes[0])) by {
                    assert(d.writes[0] == d.writes[0]);
                }
                assert(false);
            }
            assert(d.writes =~= Seq::<u64>::empty());
        }
    }
    r
}

} // verus!
