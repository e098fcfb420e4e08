use glimmer::actors::glimmer_instance::Geometry;
use glimmer::actors::glimmer_manager::WindowDataMsgTrait;
use glimmer::actors::i3_ipc::{i3_window_data_msg, sway_window_data_msg};
use glimmer::ipc::{Node, Rect, SwayNode, SwayRect, SwayWindowChange, WindowChange};

fn rect(x: isize, y: isize, width: isize, height: isize) -> Rect {
    Rect { x, y, width, height }
}

fn node(id: usize, name: &str, nodes: Vec<Node>) -> Node {
    Node { id, name: Some(name.to_string()), rect: rect(id as isize, 0, 10, 20), nodes }
}

fn sample_tree() -> Node {
    node(
        1,
        "root",
        vec![
            node(2, "left", vec![node(4, "left-child", vec![]), node(5, "dup-in-left", vec![])]),
            node(3, "right", vec![node(5, "dup-in-right", vec![]), node(6, "deep", vec![node(7, "leaf", vec![])])]),
        ],
    )
}

#[test]
fn find_node_finds_the_root_itself() {
    let found = sample_tree().find_node(1).expect("root");
    assert_eq!(found.id, 1);
    assert_eq!(found.name.as_deref(), Some("root"));
    assert_eq!(found.nodes.len(), 2);
}

#[test]
fn find_node_finds_a_deep_leaf() {
    let found = sample_tree().find_node(7).expect("leaf");
    assert_eq!(found.name.as_deref(), Some("leaf"));
    assert_eq!(found.rect, rect(7, 0, 10, 20));
}

#[test]
fn find_node_takes_the_first_in_preorder() {
    let found = sample_tree().find_node(5).expect("dup");
    assert_eq!(found.name.as_deref(), Some("dup-in-left"));
}

#[test]
fn find_node_parent_before_child_with_same_id() {
    let tree = node(9, "outer", vec![node(8, "parent", vec![node(8, "child", vec![])])]);
    let found = tree.find_node(8).expect("parent");
    assert_eq!(found.name.as_deref(), Some("parent"));
    assert_eq!(found.nodes.len(), 1);
}

#[test]
fn find_node_misses_an_absent_id() {
    assert!(sample_tree().find_node(42).is_none());
    assert!(node(3, "lonely", vec![]).find_node(4).is_none());
}

#[test]
fn geometry_from_rect_copies_coordinates() {
    let g = Geometry::from(rect(10, -20, 300, 400));
    assert_eq!(g, Geometry { x: 10, y: -20, width: 300, height: 400 });
}

#[test]
fn geometry_from_rect_truncates_to_i32() {
    let big: isize = (1isize << 32) + 5;
    let g = Geometry::from(rect(big, -1, 0, 7));
    assert_eq!(g.x, 5);
    assert_eq!(g.y, -1);
    assert_eq!(g.width, 0);
    assert_eq!(g.height, 7);
}

#[test]
fn i3_event_takes_the_container_from_the_tree() {
    let container = Node { id: 6, name: Some("stale".to_string()), rect: rect(0, 0, 1, 1), nodes: vec![] };
    let msg = i3_window_data_msg(WindowChange::Focus, container, sample_tree());
    assert!(msg.swaywdm.is_none());
    let data = msg.i3wdm.as_ref().expect("i3 data");
    assert_eq!(data.change, WindowChange::Focus);
    assert_eq!(data.container.name.as_deref(), Some("deep"));
    assert_eq!(data.container.nodes.len(), 1);
    assert_eq!(msg.get_container_id(), 6);
}

#[test]
fn i3_event_falls_back_to_its_own_container() {
    let container = Node { id: 99, name: Some("gone".to_string()), rect: rect(1, 2, 3, 4), nodes: vec![] };
    let msg = i3_window_data_msg(WindowChange::Close, container, sample_tree());
    let data = msg.i3wdm.as_ref().expect("i3 data");
    assert_eq!(data.container.id, 99);
    assert_eq!(data.container.name.as_deref(), Some("gone"));
    assert_eq!(data.change, WindowChange::Close);
}

fn sway(id: i64, name: &str, nodes: Vec<SwayNode>, floating_nodes: Vec<SwayNode>) -> SwayNode {
    SwayNode {
        id,
        name: Some(name.to_string()),
        rect: SwayRect { x: id as i32, y: 0, width: 3, height: 4 },
        nodes,
        floating_nodes,
    }
}

fn sway_tree() -> SwayNode {
    sway(
        1,
        "root",
        vec![sway(2, "tiled", vec![sway(5, "tiled-deep", vec![], vec![])], vec![sway(6, "float-in-tiled", vec![], vec![])])],
        vec![sway(5, "floating", vec![], vec![]), sway(7, "floating-only", vec![], vec![])],
    )
}

#[test]
fn sway_find_by_id_finds_the_root() {
    assert_eq!(sway_tree().find_by_id(1).expect("root").name.as_deref(), Some("root"));
}

#[test]
fn sway_find_by_id_prefers_tiling_children() {
    assert_eq!(sway_tree().find_by_id(5).expect("5").name.as_deref(), Some("tiled-deep"));
}

#[test]
fn sway_find_by_id_searches_floating_children() {
    assert_eq!(sway_tree().find_by_id(6).expect("6").name.as_deref(), Some("float-in-tiled"));
    assert_eq!(sway_tree().find_by_id(7).expect("7").name.as_deref(), Some("floating-only"));
}

#[test]
fn sway_find_by_id_misses_an_absent_id() {
    assert!(sway_tree().find_by_id(-4).is_none());
}

#[test]
fn sway_event_takes_the_container_from_the_tree() {
    let own = SwayNode { id: 7, name: None, rect: SwayRect { x: 0, y: 0, width: 1, height: 1 }, nodes: vec![], floating_nodes: vec![] };
    let msg = sway_window_data_msg(SwayWindowChange::Move, own, sway_tree());
    assert!(msg.i3wdm.is_none());
    let data = msg.swaywdm.as_ref().expect("sway data");
    assert_eq!(data.container.id, 7);
    assert_eq!(data.container.name.as_deref(), Some("floating-only"));
    assert_eq!(data.change, SwayWindowChange::Move);
}

#[test]
fn sway_event_falls_back_to_its_own_container() {
    let own = SwayNode { id: 70, name: Some("gone".to_string()), rect: SwayRect { x: 0, y: 0, width: 1, height: 1 }, nodes: vec![], floating_nodes: vec![] };
    let msg = sway_window_data_msg(SwayWindowChange::Title, own, sway_tree());
    let data = msg.swaywdm.as_ref().expect("sway data");
    assert_eq!(data.container.id, 70);
    assert_eq!(data.container.name.as_deref(), Some("gone"));
}
