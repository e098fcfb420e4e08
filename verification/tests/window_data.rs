use glimmer::actors::glimmer_instance::Geometry;
use glimmer::actors::glimmer_manager::{
    I3WindowDataMsg, SwayWindowDataMsg, WindowDataMsgTrait, WindowDataMsgWrapper,
};
use glimmer::gtk_utils::WindowShim;
use glimmer::ipc::{Node, Rect, SwayNode, SwayRect, SwayWindowChange, WindowChange};

fn i3_msg(change: WindowChange, id: usize, name: Option<&str>) -> I3WindowDataMsg {
    I3WindowDataMsg {
        change,
        container: Node {
            id,
            name: name.map(|s| s.to_string()),
            rect: Rect { x: 1, y: 2, width: 640, height: 480 },
            nodes: vec![],
        },
    }
}

fn sway_msg(change: SwayWindowChange, id: i64, name: Option<&str>) -> SwayWindowDataMsg {
    SwayWindowDataMsg {
        change,
        container: SwayNode {
            id,
            name: name.map(|s| s.to_string()),
            rect: SwayRect { x: -3, y: 4, width: 800, height: 600 },
            nodes: vec![],
            floating_nodes: vec![],
        },
    }
}

#[test]
fn i3_data_gives_its_shim() {
    let msg = i3_msg(WindowChange::Focus, 12, Some("editor"));
    assert_eq!(msg.get_container_id(), 12);
    assert_eq!(msg.get_change(), WindowChange::Focus);
    assert_eq!(
        msg.get_window_shim(),
        WindowShim {
            id: 12,
            label: Some("editor".to_string()),
            geometry: Geometry { x: 1, y: 2, width: 640, height: 480 },
        }
    );
}

#[test]
fn i3_data_without_a_name_has_no_label() {
    let msg = i3_msg(WindowChange::Title, 3, None);
    assert_eq!(msg.get_window_shim().label, None);
}

#[test]
fn sway_data_gives_its_shim() {
    let msg = sway_msg(SwayWindowChange::Focus, 44, Some("shell"));
    assert_eq!(msg.get_container_id(), 44);
    assert_eq!(
        msg.get_window_shim(),
        WindowShim {
            id: 44,
            label: Some("shell".to_string()),
            geometry: Geometry { x: -3, y: 4, width: 800, height: 600 },
        }
    );
}

#[test]
fn sway_negative_id_wraps_to_usize() {
    let msg = sway_msg(SwayWindowChange::New, -1, None);
    assert_eq!(msg.get_container_id(), usize::MAX);
}

#[test]
fn sway_changes_keep_their_names() {
    let pairs = [
        (SwayWindowChange::New, WindowChange::New),
        (SwayWindowChange::Close, WindowChange::Close),
        (SwayWindowChange::Focus, WindowChange::Focus),
        (SwayWindowChange::Title, WindowChange::Title),
        (SwayWindowChange::FullscreenMode, WindowChange::FullscreenMode),
        (SwayWindowChange::Move, WindowChange::Move),
        (SwayWindowChange::Floating, WindowChange::Floating),
        (SwayWindowChange::Urgent, WindowChange::Urgent),
        (SwayWindowChange::Mark, WindowChange::Mark),
    ];
    for (sway, i3) in pairs {
        assert_eq!(sway_msg(sway, 1, None).get_change(), i3);
    }
}

#[test]
fn wrapper_prefers_the_i3_data() {
    let wrapper = WindowDataMsgWrapper {
        i3wdm: Some(i3_msg(WindowChange::Move, 5, Some("i3"))),
        swaywdm: Some(sway_msg(SwayWindowChange::Close, 6, Some("sway"))),
    };
    assert_eq!(wrapper.get_container_id(), 5);
    assert_eq!(wrapper.get_change(), WindowChange::Move);
    assert_eq!(wrapper.get_window_shim().label.as_deref(), Some("i3"));
}

#[test]
fn wrapper_falls_back_to_the_sway_data() {
    let wrapper = WindowDataMsgWrapper { i3wdm: None, swaywdm: Some(sway_msg(SwayWindowChange::Urgent, 6, Some("sway"))) };
    assert_eq!(wrapper.get_container_id(), 6);
    assert_eq!(wrapper.get_change(), WindowChange::Urgent);
    assert_eq!(wrapper.get_window_shim().geometry, Geometry { x: -3, y: 4, width: 800, height: 600 });
}
