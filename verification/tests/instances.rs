use glimmer::actors::glimmer_instance::{Geometry, GlimmerInstance, InstanceKillNotificationMsg};
use glimmer::actors::glimmer_manager::{I3WindowDataMsg, WindowDataMsgWrapper};
use glimmer::actors::glint_instance::GlintInstance;
use glimmer::gtk_utils::{Messages, WindowAction, WindowRegistry, WindowShim};
use glimmer::ipc::{Node, Rect, WindowChange};

fn event(change: WindowChange, id: usize) -> WindowDataMsgWrapper {
    WindowDataMsgWrapper {
        i3wdm: Some(I3WindowDataMsg {
            change,
            container: Node {
                id,
                name: Some("win".to_string()),
                rect: Rect { x: 10, y: 20, width: 30, height: 40 },
                nodes: vec![],
            },
        }),
        swaywdm: None,
    }
}

fn shim(id: usize) -> WindowShim {
    WindowShim { id, label: Some("win".to_string()), geometry: Geometry { x: 10, y: 20, width: 30, height: 40 } }
}

#[test]
fn focus_creates_the_decoration() {
    let mut instance: GlimmerInstance<u32> = GlimmerInstance::new(8);
    assert_eq!(instance.id, 8);
    let step = instance.handle(&event(WindowChange::Focus, 8));
    assert_eq!(step.message, Messages::Create(shim(8)));
    assert_eq!(step.cancel, None);
}

#[test]
fn close_destroys_the_decoration_of_the_container() {
    let mut instance: GlimmerInstance<u32> = GlimmerInstance::new(8);
    let step = instance.handle(&event(WindowChange::Close, 8));
    assert_eq!(step.message, Messages::Destroy(8));
}

#[test]
fn move_and_fullscreen_update_the_decoration() {
    let mut instance: GlimmerInstance<u32> = GlimmerInstance::new(2);
    assert_eq!(instance.handle(&event(WindowChange::Move, 2)).message, Messages::Update(shim(2)));
    assert_eq!(instance.handle(&event(WindowChange::FullscreenMode, 2)).message, Messages::Update(shim(2)));
}

#[test]
fn other_changes_ask_for_nothing() {
    let mut instance: GlimmerInstance<u32> = GlimmerInstance::new(2);
    for change in [WindowChange::New, WindowChange::Title, WindowChange::Floating, WindowChange::Urgent, WindowChange::Mark] {
        assert_eq!(instance.handle(&event(change, 2)).message, Messages::Nothing);
    }
}

#[test]
fn each_event_cancels_the_dismount_armed_before() {
    let mut instance: GlimmerInstance<u32> = GlimmerInstance::new(4);
    let first = instance.handle(&event(WindowChange::Focus, 4));
    assert_eq!(first.cancel, None);
    instance.dismount_scheduled(100);
    let second = instance.handle(&event(WindowChange::Move, 4));
    assert_eq!(second.cancel, Some(100));
    instance.dismount_scheduled(101);
    let third = instance.handle(&event(WindowChange::Title, 4));
    assert_eq!(third.cancel, Some(101));
    let fourth = instance.handle(&event(WindowChange::Title, 4));
    assert_eq!(fourth.cancel, None);
}

#[test]
fn stopping_notifies_the_manager_and_destroys_the_decoration() {
    let instance: GlimmerInstance<u32> = GlimmerInstance::new(17);
    let (notice, message) = instance.stopped();
    assert_eq!(notice, InstanceKillNotificationMsg { id: 17 });
    assert_eq!(message, Messages::Destroy(17));
}

#[test]
fn glint_instance_keeps_the_last_mounted_window() {
    let mut instance: GlintInstance<&str> = GlintInstance::new(3);
    assert_eq!(instance.id, 3);
    assert_eq!(instance.stopped(), None);
    let _dismount = instance.mount("first");
    assert_eq!(instance.stopped(), Some(&"first"));
    let _dismount = instance.mount("second");
    assert_eq!(instance.stopped(), Some(&"second"));
}

#[test]
fn focus_then_close_builds_and_takes_down_the_decoration() {
    let mut instance: GlimmerInstance<u32> = GlimmerInstance::new(6);
    let mut windows: WindowRegistry<&str> = WindowRegistry::new();
    let focus = instance.handle(&event(WindowChange::Focus, 6));
    assert!(matches!(windows.receive(focus.message), WindowAction::Build(6, Some(ref t), g) if t == "win" && g == shim(6).geometry));
    windows.attach(6, "deco");
    let moved = instance.handle(&event(WindowChange::Move, 6));
    assert!(matches!(windows.receive(moved.message), WindowAction::Reposition(6, _)));
    let close = instance.handle(&event(WindowChange::Close, 6));
    assert!(matches!(windows.receive(close.message), WindowAction::Close("deco")));
    assert_eq!(windows.window(6), None);
}

#[test]
fn a_stopped_instance_leaves_no_decoration() {
    let instance: GlimmerInstance<u32> = GlimmerInstance::new(6);
    let mut windows: WindowRegistry<&str> = WindowRegistry::new();
    windows.attach(6, "deco");
    windows.attach(7, "other");
    let (_, destroy) = instance.stopped();
    assert!(matches!(windows.receive(destroy), WindowAction::Close("deco")));
    assert_eq!(windows.window(6), None);
    assert_eq!(windows.window(7), Some(&"other"));
}
