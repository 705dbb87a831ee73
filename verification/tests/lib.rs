use entity_rust::systems::{self, Component, Data, State};
use entity_rust::world::World;

#[test]
fn run_event_runs_system_events() {
    let mut world: World<Data, Component, State> = World::new();
    let ev = world.register_event(String::from("test_event")).unwrap();
    systems::register(&mut world, ev).expect("System lock corrupted");
    let handle = world.register_component(systems::COMPONENT_TYPE).unwrap();
    world
        .create_component(handle, 1, Component { a: 2, b: 10 })
        .unwrap();

    {
        let state = &world.handler_list()[0];
        assert!(state.x == 0);
    }

    world.trigger_immediate(ev, Data { x: 1, y: 39 }).unwrap();
    world.run_events();
    {
        let state = &world.handler_list()[0];
        assert_eq!(state.x, 3);
    }
}

#[test]
fn deferred_trigger_waits_for_next_tick() {
    let mut world: World<Data, Component, State> = World::new();
    let ev = world.register_event(String::from("tick_event")).unwrap();
    systems::register(&mut world, ev).unwrap();
    let handle = world.register_component(systems::COMPONENT_TYPE).unwrap();
    world
        .create_component(handle, 1, Component { a: 2, b: 10 })
        .unwrap();

    world.trigger(ev, Data { x: 1, y: 0 }).unwrap();
    let report = world.run_events();
    assert!(report.is_empty());
    assert_eq!(world.handler_list()[0].x, 0);

    world.next_tick();
    let report = world.run_events();
    assert_eq!(report.len(), 1);
    assert_eq!(report[0].batch, vec![Data { x: 1, y: 0 }]);
    assert_eq!(world.handler_list()[0].x, 3);
}

#[test]
fn promoted_payloads_append_after_existing() {
    let mut world: World<Data, Component, State> = World::new();
    let ev = world.register_event(String::from("ordered")).unwrap();
    world.trigger_immediate(ev, Data { x: 1, y: 0 }).unwrap();
    world.trigger(ev, Data { x: 2, y: 0 }).unwrap();
    world.next_tick();
    let queue = &world.events[ev].this_tick;
    assert_eq!(
        queue.as_slice(),
        &[Data { x: 1, y: 0 }, Data { x: 2, y: 0 }]
    );
    assert!(world.events[ev].next_tick.is_empty());
}

#[test]
fn anonymous_event_gets_generated_name() {
    let mut world: World<Data, Component, State> = World::new();
    let ev = world.register_anonymous_event().unwrap();
    assert_eq!(world.events[ev].name.len(), 32);
    let ev2 = world.register_anonymous_event().unwrap();
    assert_eq!(world.events[ev2].name.len(), 32);
    assert_ne!(world.events[ev].name, world.events[ev2].name);
}
