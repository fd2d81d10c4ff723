use ecoord::frame_graph::FrameGraph;
use ecoord::{FrameId, TransformId};

fn tid(parent: &str, child: &str) -> TransformId {
    TransformId::new(FrameId::from(parent), FrameId::from(child))
}

fn ids(graph: &FrameGraph) -> Vec<String> {
    graph.get_frame_ids().iter().map(|f| f.as_string().clone()).collect()
}

fn contains(frames: &Vec<FrameId>, name: &str) -> bool {
    frames.iter().any(|f| f.as_string() == name)
}

#[test]
fn frame_graph_test_basic_interpolation() {
    let transform_ids = vec![
        tid("map", "base_link"),
        tid("base_link", "lidar_front_left"),
        tid("base_link", "lidar_front_right"),
    ];

    let frame_graph = FrameGraph::new(&transform_ids);
    let result = frame_graph.get_frame_id_path(&tid("map", "lidar_front_right")).unwrap();

    assert_eq!(
        result,
        vec![FrameId::map(), FrameId::base_link(), FrameId::from("lidar_front_right")]
    );
}

#[test]
fn frame_graph_test_two_direct_root_nodes() {
    let transform_ids = vec![
        tid("map", "submap"),
        tid("global", "submap"),
        tid("base_link", "lidar_front_right"),
    ];

    let frame_graph = FrameGraph::new(&transform_ids);
    let result = frame_graph.get_frame_id_path(&tid("global", "submap")).unwrap();

    assert_eq!(result, vec![FrameId::global(), FrameId::submap()]);
}

#[test]
fn frame_graph_test_two_root_nodes() {
    let transform_ids = vec![
        tid("submap", "base_link"),
        tid("map", "submap"),
        tid("global", "submap"),
    ];

    let frame_graph = FrameGraph::new(&transform_ids);
    let result = frame_graph.get_frame_id_path(&tid("global", "base_link")).unwrap();

    assert_eq!(result, vec![FrameId::global(), FrameId::submap(), FrameId::base_link()]);
}

#[test]
fn frame_graph_test_three_level_nodes() {
    let transform_ids = vec![
        tid("global", "submap"),
        tid("submap", "base_link"),
        tid("map", "submap"),
        tid("base_link", "lidar_front_left"),
        tid("base_link", "lidar_front_right"),
    ];

    let frame_graph = FrameGraph::new(&transform_ids);
    let result = frame_graph.get_frame_id_path(&tid("global", "lidar_front_right")).unwrap();

    assert_eq!(
        result,
        vec![
            FrameId::global(),
            FrameId::submap(),
            FrameId::base_link(),
            FrameId::from("lidar_front_right"),
        ]
    );
}

#[test]
fn test_root_frames_single_root() {
    let transform_ids = vec![
        tid("map", "base_link"),
        tid("base_link", "lidar_front_left"),
        tid("base_link", "lidar_front_right"),
    ];

    let frame_graph = FrameGraph::new(&transform_ids);
    let root_nodes = frame_graph.root_frames();

    assert_eq!(root_nodes.len(), 1);
    assert!(contains(&root_nodes, "map"));
}

#[test]
fn test_root_frames_multiple_disconnected_roots() {
    let transform_ids = vec![
        tid("map", "submap"),
        tid("global", "base_link"),
        tid("base_link", "lidar_front_right"),
    ];

    let frame_graph = FrameGraph::new(&transform_ids);
    let root_nodes = frame_graph.root_frames();

    assert_eq!(root_nodes.len(), 2);
    assert!(contains(&root_nodes, "map"));
    assert!(contains(&root_nodes, "global"));
}

#[test]
fn test_root_frames_converging_roots() {
    let transform_ids = vec![
        tid("global", "submap"),
        tid("submap", "base_link"),
        tid("map", "submap"),
        tid("base_link", "lidar_front_left"),
    ];

    let frame_graph = FrameGraph::new(&transform_ids);
    let root_nodes = frame_graph.root_frames();

    assert_eq!(root_nodes.len(), 2);
    assert!(contains(&root_nodes, "global"));
    assert!(contains(&root_nodes, "map"));
    // submap is not a root node because it has incoming edges
    assert!(!contains(&root_nodes, "submap"));
}

#[test]
fn test_root_frames_simple_parent_child() {
    let transform_ids = vec![tid("map", "base_link")];

    let frame_graph = FrameGraph::new(&transform_ids);
    let root_nodes = frame_graph.root_frames();

    assert_eq!(root_nodes.len(), 1);
    assert!(contains(&root_nodes, "map"));
    assert!(!contains(&root_nodes, "base_link"));
}

#[test]
fn test_child_frames_single_child() {
    let transform_ids = vec![
        tid("map", "base_link"),
        tid("base_link", "lidar_front_left"),
        tid("base_link", "lidar_front_right"),
    ];

    let frame_graph = FrameGraph::new(&transform_ids);
    let child_nodes = frame_graph.child_frames();

    assert_eq!(child_nodes.len(), 2);
    assert!(contains(&child_nodes, "lidar_front_left"));
    assert!(contains(&child_nodes, "lidar_front_right"));
}

#[test]
fn test_child_frames_multiple_disconnected_children() {
    let transform_ids = vec![
        tid("map", "submap"),
        tid("global", "base_link"),
        tid("base_link", "lidar_front_right"),
    ];

    let frame_graph = FrameGraph::new(&transform_ids);
    let child_nodes = frame_graph.child_frames();

    assert_eq!(child_nodes.len(), 2);
    assert!(contains(&child_nodes, "submap"));
    assert!(contains(&child_nodes, "lidar_front_right"));
}

#[test]
fn test_child_frames_converging_to_single_child() {
    let transform_ids = vec![
        tid("global", "submap"),
        tid("submap", "base_link"),
        tid("map", "submap"),
        tid("base_link", "lidar_front_left"),
    ];

    let frame_graph = FrameGraph::new(&transform_ids);
    let child_nodes = frame_graph.child_frames();

    assert_eq!(child_nodes.len(), 1);
    assert!(contains(&child_nodes, "lidar_front_left"));
    // base_link is not a child node because it has outgoing edges
    assert!(!contains(&child_nodes, "base_link"));
}

#[test]
fn test_child_frames_simple_parent_child() {
    let transform_ids = vec![tid("map", "base_link")];

    let frame_graph = FrameGraph::new(&transform_ids);
    let child_nodes = frame_graph.child_frames();

    assert_eq!(child_nodes.len(), 1);
    assert!(contains(&child_nodes, "base_link"));
    assert!(!contains(&child_nodes, "map"));
}

#[test]
fn test_child_frames_deep_hierarchy() {
    let transform_ids = vec![
        tid("global", "submap"),
        tid("submap", "base_link"),
        tid("map", "submap"),
        tid("base_link", "lidar_front_left"),
        tid("base_link", "lidar_front_right"),
    ];

    let frame_graph = FrameGraph::new(&transform_ids);
    let child_nodes = frame_graph.child_frames();

    assert_eq!(child_nodes.len(), 2);
    assert!(contains(&child_nodes, "lidar_front_left"));
    assert!(contains(&child_nodes, "lidar_front_right"));
}

#[test]
fn test_graph_frame_id_listing() {
    let transform_ids = vec![tid("map", "base_link")];
    let frame_graph = FrameGraph::new(&transform_ids);
    let mut names = ids(&frame_graph);
    names.sort();
    assert_eq!(names, vec!["base_link".to_string(), "map".to_string()]);
    assert!(frame_graph.contains_frame_id(&FrameId::map()));
    assert!(!frame_graph.contains_frame_id(&FrameId::odom()));
}
