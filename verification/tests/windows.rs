use glimmer::actors::glimmer_instance::Geometry;
use glimmer::gtk_utils::{Messages, WindowAction, WindowRegistry, WindowShim};

fn shim(id: usize, x: i32) -> WindowShim {
    WindowShim { id, label: None, geometry: Geometry { x, y: 1, width: 2, height: 3 } }
}

#[test]
fn create_asks_for_a_build_and_attach_replaces() {
    let mut registry: WindowRegistry<&str> = WindowRegistry::new();
    let mut create = shim(5, 9);
    create.label = Some("editor".to_string());
    let action = registry.receive(Messages::Create(create));
    assert!(matches!(
        action,
        WindowAction::Build(5, Some(ref t), g) if t == "editor" && g == Geometry { x: 9, y: 1, width: 2, height: 3 }
    ));
    assert_eq!(registry.attach(5, "first"), None);
    assert_eq!(registry.window(5), Some(&"first"));
    assert_eq!(registry.attach(5, "second"), Some("first"));
    assert_eq!(registry.window(5), Some(&"second"));
}

#[test]
fn update_repositions_only_held_windows() {
    let mut registry: WindowRegistry<&str> = WindowRegistry::new();
    assert!(matches!(registry.receive(Messages::Update(shim(1, 4))), WindowAction::Nothing));
    registry.attach(1, "deco");
    assert!(matches!(
        registry.receive(Messages::Update(shim(1, 4))),
        WindowAction::Reposition(1, g) if g == Geometry { x: 4, y: 1, width: 2, height: 3 }
    ));
    assert_eq!(registry.window(1), Some(&"deco"));
}

#[test]
fn destroy_hands_back_the_window_once() {
    let mut registry: WindowRegistry<&str> = WindowRegistry::new();
    registry.attach(2, "deco");
    registry.attach(3, "other");
    assert!(matches!(registry.receive(Messages::Destroy(2)), WindowAction::Close("deco")));
    assert_eq!(registry.window(2), None);
    assert!(matches!(registry.receive(Messages::Destroy(2)), WindowAction::Nothing));
    assert_eq!(registry.window(3), Some(&"other"));
}

#[test]
fn an_empty_request_does_nothing() {
    let mut registry: WindowRegistry<&str> = WindowRegistry::new();
    registry.attach(2, "deco");
    assert!(matches!(registry.receive(Messages::Nothing), WindowAction::Nothing));
    assert_eq!(registry.window(2), Some(&"deco"));
}

#[test]
fn every_built_window_is_held_or_closed_once() {
    let mut registry: WindowRegistry<u32> = WindowRegistry::new();
    let mut closed: Vec<u32> = Vec::new();
    let mut take = |action: WindowAction<u32>, closed: &mut Vec<u32>| {
        if let WindowAction::Close(w) = action {
            closed.push(w);
        }
    };
    let a = registry.receive(Messages::Create(shim(1, 0)));
    take(a, &mut closed);
    if let Some(old) = registry.attach(1, 10) { closed.push(old); }
    let a = registry.receive(Messages::Create(shim(1, 0)));
    take(a, &mut closed);
    if let Some(old) = registry.attach(1, 11) { closed.push(old); }
    if let Some(old) = registry.attach(2, 20) { closed.push(old); }
    let a = registry.receive(Messages::Destroy(2));
    take(a, &mut closed);
    let a = registry.receive(Messages::Destroy(2));
    take(a, &mut closed);
    if let Some(old) = registry.attach(3, 30) { closed.push(old); }
    assert_eq!(closed, vec![10, 20]);
    assert_eq!(registry.window(1), Some(&11));
    assert_eq!(registry.window(2), None);
    assert_eq!(registry.window(3), Some(&30));
}
