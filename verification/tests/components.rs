use entity_rust::components::ComponentRegistry;
use entity_rust::systems::Component;

#[test]
fn components_generates_functions() {
    let mut reg: ComponentRegistry<Component> = ComponentRegistry::new();
    let handle = reg.register(7).expect("Component lock corrupted.");
    reg.create_component(handle, 1, Component { a: 2, b: 3 })
        .expect("Component lock corrupted.");
    let view = reg.acquire_shared(7).expect("Component lock corrupted.");
    assert!(view.store.entries.len() > 0, "Component list too short");
    let component = view.store.entries[0];
    assert!(component.0 == 1);
    assert!(component.1.a == 2);
}

#[test]
fn gettable_lock() {
    let mut reg: ComponentRegistry<Component> = ComponentRegistry::new();
    let handle = reg.register(7).expect("Component lock corrupted.");
    let _ = handle;
    let mut view = reg
        .acquire_exclusive(7)
        .expect("Components mutex was not of expected type");
    view.store.push(1, Component { a: 2, b: 3 });
    reg.release_exclusive(view).expect("Component lock corrupted.");
    let shared = reg.acquire_shared(7).expect("Component lock corrupted.");
    assert!(shared.store.entries[0] == (1, Component { a: 2, b: 3 }));
}
