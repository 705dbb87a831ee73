use entity_rust::components::{ComponentStore, StoreHandle};
use entity_rust::errors::EcsError;
use entity_rust::events::Handler;
use entity_rust::world::World;

#[derive(Clone, Copy, Debug, PartialEq, Eq)]
enum Val {
    A(i64),
    B(i64),
}

#[derive(Default)]
struct Observer {
    seen_batch: Vec<i64>,
    seen_reads: Vec<(usize, Val)>,
    seen_writes: Vec<(usize, Val)>,
    runs: usize,
}

impl Handler<i64, Val> for Observer {
    fn run(
        &mut self,
        batch: &Vec<i64>,
        reads: &Vec<ComponentStore<Val>>,
        writes: &mut Vec<ComponentStore<Val>>,
    ) {
        self.runs += 1;
        self.seen_batch = batch.clone();
        if !reads.is_empty() {
            self.seen_reads = reads[0].entries.clone();
        }
        if !writes.is_empty() {
            self.seen_writes = writes[0].entries.clone();
            if !writes[0].entries.is_empty() {
                writes[0].entries[0].1 = Val::B(99);
            }
        }
    }
}

#[derive(Default)]
struct Recorder {
    batches: Vec<Vec<i64>>,
}

impl Handler<i64, i64> for Recorder {
    fn run(
        &mut self,
        batch: &Vec<i64>,
        _reads: &Vec<ComponentStore<i64>>,
        _writes: &mut Vec<ComponentStore<i64>>,
    ) {
        self.batches.push(batch.clone());
    }
}

#[test]
fn handler_observes_declared_stores() {
    let mut world: World<i64, Val, Observer> = World::new();
    let ev = world.register_event(String::from("bump")).unwrap();
    let a = world.register_component(1).unwrap();
    let b = world.register_component(2).unwrap();
    world
        .register_handler(ev, Observer::default(), vec![1], vec![2])
        .unwrap();
    world.create_component(a, 10, Val::A(7)).unwrap();
    world.create_component(b, 11, Val::B(8)).unwrap();

    world.trigger(ev, 42).unwrap();
    world.next_tick();
    let report = world.run_events();

    assert_eq!(report.len(), 1);
    assert_eq!(report[0].event, ev);
    assert_eq!(report[0].handler_slot, 0);
    assert!(report[0].outcome.is_ok());
    assert_eq!(report[0].batch, vec![42]);
    assert_eq!(report[0].reads.len(), 1);
    assert_eq!(report[0].reads[0].type_id, 1);
    assert_eq!(report[0].reads[0].entries, vec![(10, Val::A(7))]);
    assert_eq!(report[0].writes_before.len(), 1);
    assert_eq!(report[0].writes_before[0].entries, vec![(11, Val::B(8))]);
    assert_eq!(report[0].writes_after[0].entries, vec![(11, Val::B(99))]);

    let obs = &world.handler_list()[0];
    assert_eq!(obs.seen_batch, vec![42]);
    assert_eq!(obs.seen_reads, vec![(10, Val::A(7))]);
    assert_eq!(obs.seen_writes, vec![(11, Val::B(8))]);

    let view = world.acquire_shared(2).unwrap();
    assert_eq!(view.store.entries, vec![(11, Val::B(99))]);
    let untouched = world.acquire_shared(1).unwrap();
    assert_eq!(untouched.store.entries, vec![(10, Val::A(7))]);
}

#[test]
fn distinct_payloads_all_delivered() {
    let mut world: World<i64, i64, Recorder> = World::new();
    let ev = world.register_event(String::from("fanin")).unwrap();
    world
        .register_handler(ev, Recorder::default(), vec![], vec![])
        .unwrap();
    for p in 0..8 {
        world.trigger(ev, p).unwrap();
    }
    world.next_tick();
    let report = world.run_events();
    assert_eq!(report.len(), 1);
    let batch = &world.handler_list()[0].batches[0];
    assert_eq!(batch.len(), 8);
    for p in 0..8 {
        assert!(batch.contains(&p));
    }
    assert!(world.events[ev].this_tick.is_empty());
}

#[test]
fn unregistered_lock_fails_without_blocking() {
    let mut world: World<i64, i64, Recorder> = World::new();
    assert_eq!(
        world.acquire_shared(5).unwrap_err(),
        EcsError::UnknownComponentType
    );
    assert_eq!(
        world.acquire_exclusive(5).unwrap_err(),
        EcsError::UnknownComponentType
    );
}

#[test]
fn duplicate_registration_refused() {
    let mut world: World<i64, i64, Recorder> = World::new();
    world.register_component(3).unwrap();
    assert_eq!(
        world.register_component(3).unwrap_err(),
        EcsError::DuplicateRegistration
    );
    world.register_event(String::from("once")).unwrap();
    assert_eq!(
        world.register_event(String::from("once")).unwrap_err(),
        EcsError::DuplicateRegistration
    );
}

#[test]
fn stale_handle_is_a_type_mismatch() {
    let mut world: World<i64, i64, Recorder> = World::new();
    world.register_component(3).unwrap();
    let stale = StoreHandle { index: 0, type_id: 99 };
    assert_eq!(
        world.create_component(stale, 1, 5).unwrap_err(),
        EcsError::TypeMismatch
    );
}

#[test]
fn locked_store_refuses_other_access() {
    let mut world: World<i64, i64, Recorder> = World::new();
    let h = world.register_component(3).unwrap();
    world.create_component(h, 1, 10).unwrap();
    let view = world.acquire_exclusive(3).unwrap();
    assert_eq!(
        world.create_component(h, 2, 20).unwrap_err(),
        EcsError::LockAcquisitionFailed
    );
    assert_eq!(
        world.acquire_shared(3).unwrap_err(),
        EcsError::LockAcquisitionFailed
    );
    assert_eq!(
        world.acquire_exclusive(3).unwrap_err(),
        EcsError::LockAcquisitionFailed
    );
    world.release_exclusive(view).unwrap();
    world.create_component(h, 2, 20).unwrap();
    let shared = world.acquire_shared(3).unwrap();
    assert_eq!(shared.store.entries, vec![(1, 10), (2, 20)]);
}

#[test]
fn release_of_unlocked_store_refused() {
    let mut world: World<i64, i64, Recorder> = World::new();
    world.register_component(3).unwrap();
    let view = world.acquire_exclusive(3).unwrap();
    world.release_exclusive(view).unwrap();
    let view2 = world.acquire_exclusive(3).unwrap();
    world.release_exclusive(view2).unwrap();
    let mut other: World<i64, i64, Recorder> = World::new();
    other.register_component(3).unwrap();
    let foreign = other.acquire_exclusive(3).unwrap();
    assert_eq!(
        world.release_exclusive(foreign).unwrap_err(),
        EcsError::LockAcquisitionFailed
    );
}

#[test]
fn overlapping_access_sets_refused() {
    let mut world: World<i64, i64, Recorder> = World::new();
    let ev = world.register_event(String::from("clash")).unwrap();
    assert_eq!(
        world
            .register_handler(ev, Recorder::default(), vec![1, 2], vec![2])
            .unwrap_err(),
        EcsError::OverlappingAccessSets
    );
}

#[test]
fn unknown_event_refused() {
    let mut world: World<i64, i64, Recorder> = World::new();
    assert_eq!(world.trigger(5, 1).unwrap_err(), EcsError::UnknownEvent);
    assert_eq!(
        world.trigger_immediate(5, 1).unwrap_err(),
        EcsError::UnknownEvent
    );
    assert_eq!(
        world
            .register_handler(5, Recorder::default(), vec![], vec![])
            .unwrap_err(),
        EcsError::UnknownEvent
    );
}

#[test]
fn failing_handler_is_isolated() {
    let mut world: World<i64, i64, Recorder> = World::new();
    let ev = world.register_event(String::from("mixed")).unwrap();
    world.register_component(3).unwrap();
    world
        .register_handler(ev, Recorder::default(), vec![9], vec![])
        .unwrap();
    world
        .register_handler(ev, Recorder::default(), vec![], vec![3])
        .unwrap();
    world
        .register_handler(ev, Recorder::default(), vec![], vec![])
        .unwrap();

    let held = world.acquire_exclusive(3).unwrap();
    world.trigger_immediate(ev, 7).unwrap();
    let report = world.run_events();
    world.release_exclusive(held).unwrap();

    assert_eq!(report.len(), 3);
    assert_eq!(report[0].outcome, Err(EcsError::UnknownComponentType));
    assert_eq!(report[1].outcome, Err(EcsError::LockAcquisitionFailed));
    assert_eq!(report[2].outcome, Ok(()));
    assert!(world.handler_list()[0].batches.is_empty());
    assert!(world.handler_list()[1].batches.is_empty());
    assert_eq!(world.handler_list()[2].batches, vec![vec![7]]);
}

#[test]
fn exclusive_view_mutates_in_place() {
    let mut world: World<i64, i64, Recorder> = World::new();
    let h = world.register_component(3).unwrap();
    world.create_component(h, 1, 10).unwrap();
    let mut view = world.acquire_exclusive(3).unwrap();
    view.store.set_value(0, 42);
    view.store.push(2, 50);
    world.release_exclusive(view).unwrap();
    let shared = world.acquire_shared(3).unwrap();
    assert_eq!(shared.store.entries, vec![(1, 42), (2, 50)]);
}
