use ecoord::transform_edge::{DynamicTransform, StaticTransform, TransformEdge};
use ecoord::transform_tree::{merge, TransformTree};
use ecoord::{
    Error, FrameId, InterpolationMethod, Quat, Time, TimedTransform, Transform, TransformEval,
    TransformId, Vec3,
};
use nalgebra::{Isometry3, Translation3, UnitQuaternion, Vector3};

fn time(sec: i64, nanosec: u32) -> Time {
    Time::new(sec, nanosec).unwrap()
}

fn vec3(x: f64, y: f64, z: f64) -> Vec3 {
    Vec3::new(x.to_bits(), y.to_bits(), z.to_bits())
}

fn quat_from_euler(roll: f64, pitch: f64, yaw: f64) -> Quat {
    let q = UnitQuaternion::from_euler_angles(roll, pitch, yaw);
    Quat::new(q.i.to_bits(), q.j.to_bits(), q.k.to_bits(), q.w.to_bits())
}

fn isometry_of(t: &Transform) -> Isometry3<f64> {
    let translation = Translation3::new(
        f64::from_bits(t.translation.x),
        f64::from_bits(t.translation.y),
        f64::from_bits(t.translation.z),
    );
    let rotation = UnitQuaternion::new_unchecked(nalgebra::Quaternion::new(
        f64::from_bits(t.rotation.w),
        f64::from_bits(t.rotation.x),
        f64::from_bits(t.rotation.y),
        f64::from_bits(t.rotation.z),
    ));
    Isometry3::from_parts(translation, rotation)
}

fn execute(eval: &TransformEval) -> Isometry3<f64> {
    match eval {
        TransformEval::Exact(t) => isometry_of(t),
        TransformEval::Blend { first, second, num, den } => {
            let alpha = (*num as f64) / (*den as f64);
            let a = isometry_of(first);
            let b = isometry_of(second);
            let translation = a.translation.vector + alpha * (b.translation.vector - a.translation.vector);
            let rotation = a.rotation.slerp(&b.rotation, alpha);
            Isometry3::from_parts(Translation3::from(translation), rotation)
        },
    }
}

/// The left-to-right product of the per-edge evaluations: path composition.
fn compose(factors: &Vec<TransformEval>) -> Isometry3<f64> {
    factors.iter().fold(Isometry3::identity(), |acc, f| acc * execute(f))
}

fn static_edge(parent: &str, child: &str, t: Vec3) -> TransformEdge {
    TransformEdge::Static(StaticTransform::new(
        FrameId::from(parent),
        FrameId::from(child),
        Transform::new(t, Quat::identity()),
    ))
}

#[test]
fn test_scenario_static_two_lidars() {
    let edges = vec![
        static_edge("map", "base_link", vec3(0.0, 0.0, 0.0)),
        static_edge("base_link", "lidar_front_left", vec3(20.0, 0.0, 0.0)),
        static_edge("base_link", "lidar_front_right", vec3(40.0, 0.0, 0.0)),
    ];
    let tree = TransformTree::new(edges, Vec::new()).unwrap();
    let query = TransformId::new(FrameId::map(), FrameId::from("lidar_front_right"));
    let factors = tree.get_transform_at_time(&query, &time(123, 0)).unwrap();
    let composed = compose(&factors);
    assert!((composed.translation.vector - Vector3::new(40.0, 0.0, 0.0)).norm() < 1e-12);
}

#[test]
fn test_scenario_static_chain() {
    let edges = vec![
        static_edge("global", "submap", vec3(100.0, 0.0, 0.0)),
        static_edge("submap", "base_link", vec3(3.0, 0.0, 0.0)),
        static_edge("base_link", "lidar_front_left", vec3(0.0, 5.0, 0.0)),
    ];
    let tree = TransformTree::new(edges, Vec::new()).unwrap();
    let query = TransformId::new(FrameId::global(), FrameId::from("lidar_front_left"));
    let factors = tree.get_transform_at_time(&query, &time(0, 0)).unwrap();
    let composed = compose(&factors);
    assert!((composed.translation.vector - Vector3::new(103.0, 5.0, 0.0)).norm() < 1e-12);
}

fn dynamic_odom_tree() -> TransformTree {
    let samples = vec![
        TimedTransform::new(
            time(0, 0),
            Transform::new(vec3(0.0, 0.0, 0.0), Quat::identity()),
        ),
        TimedTransform::new(
            time(10, 0),
            Transform::new(
                vec3(10.0, 0.0, 0.0),
                quat_from_euler(std::f64::consts::FRAC_PI_2, 0.0, 0.0),
            ),
        ),
    ];
    let dynamic = DynamicTransform::new(
        FrameId::odom(),
        FrameId::base_link(),
        Some(InterpolationMethod::Linear),
        None,
        samples,
    )
    .unwrap();
    TransformTree::new(vec![TransformEdge::Dynamic(dynamic)], Vec::new()).unwrap()
}

#[test]
fn test_scenario_dynamic_linear_midpoint() {
    let tree = dynamic_odom_tree();
    let query = TransformId::new(FrameId::odom(), FrameId::base_link());
    let factors = tree.get_transform_at_time(&query, &time(5, 0)).unwrap();
    let composed = compose(&factors);
    assert!((composed.translation.vector - Vector3::new(5.0, 0.0, 0.0)).norm() < 1e-9);
    let (roll, _, _) = composed.rotation.euler_angles();
    assert!((roll - std::f64::consts::FRAC_PI_4).abs() < 1e-9);
}

#[test]
fn test_multiple_paths_rejected() {
    let edges = vec![
        static_edge("a", "b", vec3(1.0, 0.0, 0.0)),
        static_edge("a", "c", vec3(2.0, 0.0, 0.0)),
        static_edge("b", "d", vec3(3.0, 0.0, 0.0)),
        static_edge("c", "d", vec3(4.0, 0.0, 0.0)),
    ];
    let tree = TransformTree::new(edges, Vec::new()).unwrap();
    let query = TransformId::new(FrameId::from("a"), FrameId::from("d"));
    let result = tree.get_transform_at_time(&query, &time(0, 0));
    assert!(matches!(result, Err(Error::MultipleTransformPaths(_))));
}

#[test]
fn test_no_path_and_invalid_frame() {
    let edges = vec![
        static_edge("a", "b", vec3(1.0, 0.0, 0.0)),
        static_edge("c", "d", vec3(1.0, 0.0, 0.0)),
    ];
    let tree = TransformTree::new(edges, Vec::new()).unwrap();
    let no_path = TransformId::new(FrameId::from("a"), FrameId::from("d"));
    assert!(matches!(
        tree.get_transform_at_time(&no_path, &time(0, 0)),
        Err(Error::NoTransformPath(_))
    ));
    let missing = TransformId::new(FrameId::from("a"), FrameId::from("zzz"));
    assert!(matches!(
        tree.get_transform_at_time(&missing, &time(0, 0)),
        Err(Error::InvalidFrameId(_))
    ));
}

#[test]
fn test_roots_and_leaves_of_pair() {
    let edges = vec![static_edge("a", "b", vec3(1.0, 0.0, 0.0))];
    let tree = TransformTree::new(edges, Vec::new()).unwrap();
    let roots = tree.root_frames();
    let leaves = tree.child_frames();
    assert_eq!(roots.len(), 1);
    assert_eq!(roots[0].as_string(), "a");
    assert_eq!(leaves.len(), 1);
    assert_eq!(leaves[0].as_string(), "b");
}

#[test]
fn test_merge_disjoint_and_colliding() {
    let t1 =
        TransformTree::new(vec![static_edge("a", "b", vec3(1.0, 0.0, 0.0))], Vec::new()).unwrap();
    let t2 =
        TransformTree::new(vec![static_edge("b", "c", vec3(2.0, 0.0, 0.0))], Vec::new()).unwrap();
    let merged = merge(&vec![t1, t2]).unwrap();
    assert_eq!(merged.edges().len(), 2);

    let t3 =
        TransformTree::new(vec![static_edge("a", "b", vec3(1.0, 0.0, 0.0))], Vec::new()).unwrap();
    let t4 =
        TransformTree::new(vec![static_edge("a", "b", vec3(9.0, 0.0, 0.0))], Vec::new()).unwrap();
    let collision = merge(&vec![t3, t4]);
    assert!(matches!(collision, Err(Error::ChannelTransformCollisions { .. })));
}

#[test]
fn test_dynamic_edge_construction_errors() {
    let empty = DynamicTransform::new(FrameId::odom(), FrameId::base_link(), None, None, Vec::new());
    assert!(matches!(empty, Err(Error::NoTransforms())));

    let duplicated = vec![
        TimedTransform::new(time(1, 0), Transform::new(vec3(0.0, 0.0, 0.0), Quat::identity())),
        TimedTransform::new(time(1, 0), Transform::new(vec3(1.0, 0.0, 0.0), Quat::identity())),
    ];
    let dup = DynamicTransform::new(FrameId::odom(), FrameId::base_link(), None, None, duplicated);
    assert!(matches!(dup, Err(Error::DuplicateTimestamp(_))));

    let single = vec![TimedTransform::new(
        time(1, 0),
        Transform::new(vec3(2.0, 0.0, 0.0), Quat::identity()),
    )];
    let dynamic =
        DynamicTransform::new(FrameId::odom(), FrameId::base_link(), None, None, single).unwrap();
    for sec in [-3, 1, 42] {
        let eval = dynamic.interpolate(&time(sec, 0));
        assert_eq!(
            eval,
            TransformEval::Exact(Transform::new(vec3(2.0, 0.0, 0.0), Quat::identity()))
        );
    }
}

#[test]
fn test_insert_replaces_and_remove_drops() {
    let mut tree =
        TransformTree::new(vec![static_edge("a", "b", vec3(1.0, 0.0, 0.0))], Vec::new()).unwrap();
    tree.insert_edge(static_edge("a", "b", vec3(5.0, 0.0, 0.0)));
    assert_eq!(tree.edges().len(), 1);
    let query = TransformId::new(FrameId::from("a"), FrameId::from("b"));
    let factors = tree.get_transform_at_time(&query, &time(0, 0)).unwrap();
    let composed = compose(&factors);
    assert!((composed.translation.vector - Vector3::new(5.0, 0.0, 0.0)).norm() < 1e-12);

    tree.remove_transform(&query);
    assert!(tree.is_empty());
}

#[test]
fn test_snapshot_matches_live_query() {
    let tree = dynamic_odom_tree();
    let at = time(5, 0);
    let evals = tree.edge_evals_at(&at);
    let mut resolved: Vec<(TransformId, Transform)> = Vec::new();
    for (tid, eval) in &evals {
        let executed = execute(eval);
        let t = Transform::new(
            Vec3::new(
                executed.translation.x.to_bits(),
                executed.translation.y.to_bits(),
                executed.translation.z.to_bits(),
            ),
            Quat::new(
                executed.rotation.i.to_bits(),
                executed.rotation.j.to_bits(),
                executed.rotation.k.to_bits(),
                executed.rotation.w.to_bits(),
            ),
        );
        resolved.push((tid.clone(), t));
    }
    let snapshot = tree.with_static_edges(&resolved).unwrap();

    let query = TransformId::new(FrameId::odom(), FrameId::base_link());
    let from_snapshot = compose(&snapshot.get_transform_at_time(&query, &time(777, 0)).unwrap());
    let from_live = compose(&tree.get_transform_at_time(&query, &at).unwrap());
    assert!((from_snapshot.translation.vector - from_live.translation.vector).norm() < 1e-12);
    assert!(from_snapshot.rotation.angle_to(&from_live.rotation) < 1e-12);

    // the snapshot answers static-only queries
    let statics = snapshot.get_static_transform(&query).unwrap();
    assert_eq!(statics.len(), 1);
    assert!(matches!(tree.get_static_transform(&query), Err(Error::ContainsDynamicTransform())));
    assert_eq!(snapshot.is_transform_path_static(&query).unwrap(), true);
    assert_eq!(tree.is_transform_path_static(&query).unwrap(), false);
}

#[test]
fn test_compute_timed_transforms_for_all_samples() {
    let tree = dynamic_odom_tree();
    let query = TransformId::new(FrameId::odom(), FrameId::base_link());
    let timed = tree.compute_timed_transforms_for_all_samples(&query).unwrap();
    assert_eq!(timed.len(), 2);
    assert!(timed[0].0.le(&timed[1].0));
    let first = compose(&timed[0].1);
    assert!((first.translation.vector - Vector3::new(0.0, 0.0, 0.0)).norm() < 1e-12);
    let second = compose(&timed[1].1);
    assert!((second.translation.vector - Vector3::new(10.0, 0.0, 0.0)).norm() < 1e-12);
}
