use entity_rust::systems::{Component, Data, State};
use entity_rust::world::World;

#[test]
fn events_example_trigger() {
    let mut world: World<Data, Component, State> = World::new();
    let ev = world.register_event(String::from("example")).unwrap();
    let arg = Data { x: 1, y: 2 };
    world.trigger_immediate(ev, arg.clone()).unwrap();
    let queue = &world.events[ev].this_tick;
    assert!(queue.len() == 1);
    assert!(arg == queue[0]);
}

#[test]
fn register_handler_works() {
    let mut world: World<Data, Component, State> = World::new();
    let ev = world.register_event(String::from("test_event")).unwrap();
    world
        .register_handler(ev, State::default(), vec![], vec![])
        .unwrap();
}
