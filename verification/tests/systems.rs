use entity_rust::systems::{self, Component, Data, State};
use entity_rust::world::World;

#[test]
fn systems_generates_functions() {
    let mut world: World<Data, Component, State> = World::new();
    let ev = world.register_event(String::from("my_event")).unwrap();
    systems::register(&mut world, ev).unwrap();
}

#[test]
fn generates_state() {
    let s = State::default();
    assert!(s.x == 0);

    let mut state = State::default();
    state.x = 2;

    assert!(state.x == 2);
}
