use glimmer::actors::glimmer_instance::InstanceKillNotificationMsg;
use glimmer::actors::glimmer_manager::{AttachSenderMsg, GlimmerManager, I3WindowDataMsg, WindowDataMsgWrapper};
use glimmer::actors::glint_manager::{self, GlintManager, WindowDataMsg};
use glimmer::ipc::{Node, Rect, WindowChange};

fn container(id: usize) -> Node {
    Node { id, name: None, rect: Rect { x: 0, y: 0, width: 1, height: 1 }, nodes: vec![] }
}

fn event(id: usize) -> WindowDataMsgWrapper {
    WindowDataMsgWrapper { i3wdm: Some(I3WindowDataMsg { change: WindowChange::Focus, container: container(id) }), swaywdm: None }
}

fn with_sender() -> GlimmerManager<(usize, String), String> {
    let mut manager: GlimmerManager<(usize, String), String> = GlimmerManager::default();
    manager.handle_attach_sender(AttachSenderMsg { sender: "gtk".to_string() });
    manager
}

#[test]
fn first_event_spawns_an_instance_with_the_channel() {
    let mut manager = with_sender();
    let mut spawned = 0;
    let instance = manager.get_instance(&event(7), |id, sender| {
        spawned += 1;
        (id, sender)
    });
    assert_eq!(instance, &(7, "gtk".to_string()));
    assert_eq!(spawned, 1);
}

#[test]
fn later_events_reuse_the_instance() {
    let mut manager = with_sender();
    manager.get_instance(&event(7), |id, _| (id, "first".to_string()));
    let mut spawned = 0;
    let again = manager.get_instance(&event(7), |id, _| {
        spawned += 1;
        (id, "second".to_string())
    });
    assert_eq!(again, &(7, "first".to_string()));
    assert_eq!(spawned, 0);
}

#[test]
fn windows_get_instances_of_their_own() {
    let mut manager = with_sender();
    manager.get_instance(&event(1), |id, _| (id, "one".to_string()));
    manager.get_instance(&event(2), |id, _| (id, "two".to_string()));
    assert_eq!(manager.get_instance(&event(1), |id, _| (id, "x".to_string())), &(1, "one".to_string()));
    assert_eq!(manager.get_instance(&event(2), |id, _| (id, "x".to_string())), &(2, "two".to_string()));
}

#[test]
fn a_stopped_instance_is_replaced_on_the_next_event() {
    let mut manager = with_sender();
    manager.get_instance(&event(1), |id, _| (id, "old".to_string()));
    manager.get_instance(&event(2), |id, _| (id, "other".to_string()));
    manager.handle_instance_kill(InstanceKillNotificationMsg { id: 1 });
    assert_eq!(manager.get_instance(&event(1), |id, _| (id, "new".to_string())), &(1, "new".to_string()));
    assert_eq!(manager.get_instance(&event(2), |id, _| (id, "x".to_string())), &(2, "other".to_string()));
}

#[test]
fn killing_an_unknown_window_changes_nothing() {
    let mut manager = with_sender();
    manager.get_instance(&event(3), |id, _| (id, "kept".to_string()));
    manager.handle_instance_kill(InstanceKillNotificationMsg { id: 4 });
    assert_eq!(manager.get_instance(&event(3), |id, _| (id, "x".to_string())), &(3, "kept".to_string()));
}

#[test]
fn a_new_channel_reaches_only_new_instances() {
    let mut manager = with_sender();
    manager.get_instance(&event(1), |id, sender| (id, sender));
    manager.handle_attach_sender(AttachSenderMsg { sender: "other".to_string() });
    assert_eq!(manager.get_instance(&event(1), |id, sender| (id, sender)), &(1, "gtk".to_string()));
    assert_eq!(manager.get_instance(&event(2), |id, sender| (id, sender)), &(2, "other".to_string()));
}

#[test]
fn glint_manager_keeps_one_instance_per_container() {
    let mut manager: GlintManager<(usize, u8), u8> = GlintManager::default();
    manager.handle_attach_sender(glint_manager::AttachSenderMsg { sender: 9 });
    let msg = WindowDataMsg { change: WindowChange::Focus, container: container(11) };
    assert_eq!(manager.get_instance(&msg, |id, s| (id, s)), &(11, 9));
    assert_eq!(manager.get_instance(&msg, |id, _| (id, 0)), &(11, 9));
    manager.handle_instance_kill(InstanceKillNotificationMsg { id: 11 });
    assert_eq!(manager.get_instance(&msg, |id, _| (id, 1)), &(11, 1));
}

#[test]
fn the_channel_stays_once_attached() {
    let mut manager: GlimmerManager<(usize, String), String> = GlimmerManager::default();
    assert!(!manager.has_sender());
    manager.handle_attach_sender(AttachSenderMsg { sender: "gtk".to_string() });
    assert!(manager.has_sender());
    manager.get_instance(&event(1), |id, s| (id, s));
    manager.handle_instance_kill(InstanceKillNotificationMsg { id: 1 });
    assert!(manager.has_sender());
    manager.handle_attach_sender(AttachSenderMsg { sender: "again".to_string() });
    assert!(manager.has_sender());
}
