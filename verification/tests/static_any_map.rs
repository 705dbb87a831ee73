use std::collections::HashMap;

use entity_rust::components::ComponentStore;
use entity_rust::events::Handler;
use entity_rust::world::World;

struct Noop;

impl Handler<i64, i64> for Noop {
    fn run(
        &mut self,
        _batch: &Vec<i64>,
        _reads: &Vec<ComponentStore<i64>>,
        _writes: &mut Vec<ComponentStore<i64>>,
    ) {
    }
}

#[test]
fn static_map_initial_set() {
    let i: i64 = 5;
    let name = String::from("my_queue");
    let mut world: World<i64, i64, Noop> = World::new();
    let ev = world.register_event(name).expect("Static Map is not initialized.");
    world.trigger_immediate(ev, i).unwrap();
    let queue = &world.events[ev].this_tick;
    assert!(queue.len() == 1);
    assert!(i == queue[0]);
}

#[test]
fn static_map_multi_set() {
    let i: i64 = 5;
    let j: i64 = 352;
    let k: i64 = 234;
    let name = String::from("my_queue");
    let mut world: World<i64, i64, Noop> = World::new();
    let ev = world.register_event(name).expect("Static Map is not initialized.");
    world.trigger_immediate(ev, i).unwrap();
    world.trigger_immediate(ev, j).unwrap();
    world.trigger_immediate(ev, k).unwrap();
    let queue = &world.events[ev].this_tick;
    assert!(queue.len() == 3);
    assert!(i == queue[0]);
    assert!(j == queue[1]);
    assert!(k == queue[2]);
}

#[test]
fn static_map_multi_queue_set() {
    let i: i64 = 5;
    let j: i64 = 352;
    let name = String::from("my_queue");
    let name2 = String::from("next_queue");
    let mut world: World<i64, i64, Noop> = World::new();
    let ev = world.register_event(name).expect("Static Map is not initialized.");
    let ev2 = world.register_event(name2).expect("Static Map is not initialized.");
    world.trigger_immediate(ev, i).unwrap();
    world.trigger_immediate(ev2, j).unwrap();
    {
        let queue = &world.events[ev].this_tick;
        assert!(queue.len() == 1);
        assert!(i == queue[0]);
    }
    {
        let queue2 = &world.events[ev2].this_tick;
        assert!(queue2.len() == 1);
        assert!(j == queue2[0]);
    }
}

#[test]
fn test_how_string_works_as_hashmap_index() {
    let name = String::from("my_queue");
    let mut m: HashMap<String, i64> = HashMap::new();
    let i = 543;
    m.insert(name.clone(), i);
    let j = *m.get(&name.clone()).unwrap();
    assert!(i == j);
}
