use ecoord::ingest::{derive_transform_edge, kitti_tree, tree_from_csv_records, CsvRecord, TimeStamp};
use ecoord::transform_edge::TransformEdge;
use ecoord::{FrameId, IoError, Quat, Time, Transform, TransformId, Vec3};

fn time(sec: i64) -> Time {
    Time::new(sec, 0).unwrap()
}

fn identity() -> Transform {
    Transform::new(
        Vec3::new(0.0f64.to_bits(), 0.0f64.to_bits(), 0.0f64.to_bits()),
        Quat::identity(),
    )
}

fn record(
    parent: &str,
    child: &str,
    timestamp: Option<TimeStamp>,
    timestamp_sec: Option<i64>,
    timestamp_nanosec: Option<u32>,
) -> CsvRecord {
    CsvRecord {
        parent_frame_id: parent.to_string(),
        child_frame_id: child.to_string(),
        timestamp,
        timestamp_sec,
        timestamp_nanosec,
        translation: Vec3::new(1.0f64.to_bits(), 2.0f64.to_bits(), 3.0f64.to_bits()),
        rotation: Quat::identity(),
    }
}

#[test]
fn test_kitti_ingest_three_identity_poses() {
    let poses = vec![identity(), identity(), identity()];
    let start = time(100);
    let end = time(109);
    let tree = kitti_tree(
        &poses,
        &start,
        &end,
        FrameId::local(),
        FrameId::base_link(),
        FrameId::global(),
        None,
    )
    .unwrap();

    // one dynamic edge with timestamps start, start + delta/3, start + 2*delta/3
    assert_eq!(tree.edges().len(), 1);
    match &tree.edges()[0] {
        TransformEdge::Dynamic(d) => {
            let stamps: Vec<Time> = d.samples().iter().map(|s| s.timestamp).collect();
            assert_eq!(stamps, vec![time(100), time(103), time(106)]);
        },
        TransformEdge::Static(_) => panic!("expected a dynamic edge"),
    }

    let query = TransformId::new(FrameId::local(), FrameId::base_link());
    let timed = tree.compute_timed_transforms_for_all_samples(&query).unwrap();
    assert_eq!(timed.len(), 3);
    assert!(timed[0].0.le(&timed[1].0));
    assert!(timed[1].0.le(&timed[2].0));
}

#[test]
fn test_kitti_ingest_with_local_origin_offset() {
    let poses = vec![identity(), identity()];
    let offset = Vec3::new(7.0f64.to_bits(), 0.0f64.to_bits(), 0.0f64.to_bits());
    let tree = kitti_tree(
        &poses,
        &time(0),
        &time(10),
        FrameId::local(),
        FrameId::base_link(),
        FrameId::global(),
        Some(offset),
    )
    .unwrap();
    assert_eq!(tree.edges().len(), 2);
    let global_edge = TransformId::new(FrameId::global(), FrameId::local());
    assert!(tree.contains_transform(&global_edge));
}

#[test]
fn test_csv_single_row_without_timestamp_is_static() {
    let rows = vec![record("world", "body", None, None, None)];
    let tid = TransformId::new(FrameId::from("world"), FrameId::from("body"));
    let edge = derive_transform_edge(tid, &rows).unwrap();
    assert!(matches!(edge, TransformEdge::Static(_)));
}

#[test]
fn test_csv_single_row_with_timestamp_is_dynamic() {
    let rows = vec![record("world", "body", None, Some(5), Some(0))];
    let tid = TransformId::new(FrameId::from("world"), FrameId::from("body"));
    let edge = derive_transform_edge(tid, &rows).unwrap();
    match edge {
        TransformEdge::Dynamic(d) => {
            assert_eq!(d.samples().len(), 1);
            assert_eq!(d.samples()[0].timestamp, time(5));
            assert!(d.interpolation.is_none());
            assert!(d.extrapolation.is_none());
        },
        TransformEdge::Static(_) => panic!("expected a dynamic edge"),
    }
}

#[test]
fn test_csv_missing_timestamp_in_group() {
    let rows = vec![
        record("world", "body", None, Some(1), Some(0)),
        record("world", "body", None, None, None),
    ];
    let tid = TransformId::new(FrameId::from("world"), FrameId::from("body"));
    let result = derive_transform_edge(tid, &rows);
    assert!(matches!(result, Err(IoError::NoTimestamp())));
}

#[test]
fn test_csv_timestamp_defined_twice() {
    let rows = vec![record(
        "world",
        "body",
        Some(TimeStamp { sec: 1, nanosec: 0 }),
        Some(1),
        None,
    )];
    let tid = TransformId::new(FrameId::from("world"), FrameId::from("body"));
    let result = derive_transform_edge(tid, &rows);
    assert!(matches!(result, Err(IoError::TimestampDefinedTwice())));
}

#[test]
fn test_csv_grouping_by_transform_id() {
    let rows = vec![
        record("world", "body", None, Some(1), None),
        record("body", "sensor", None, None, None),
        record("world", "body", None, Some(2), None),
    ];
    let tree = tree_from_csv_records(rows).unwrap();
    assert_eq!(tree.edges().len(), 2);
    assert!(tree.contains_transform(&TransformId::new(
        FrameId::from("world"),
        FrameId::from("body")
    )));
    assert!(tree.contains_transform(&TransformId::new(
        FrameId::from("body"),
        FrameId::from("sensor")
    )));
}

#[test]
fn test_csv_self_loop_rejected() {
    let rows = vec![record("world", "world", None, None, None)];
    let result = tree_from_csv_records(rows);
    assert!(result.is_err());
}

#[test]
fn test_csv_dynamic_group_carries_row_values() {
    let mut first = record("world", "body", None, Some(1), None);
    first.translation = Vec3::new(5.0f64.to_bits(), 0, 0);
    let mut second = record("world", "body", None, Some(2), None);
    second.translation = Vec3::new(6.0f64.to_bits(), 0, 0);
    let tid = TransformId::new(FrameId::from("world"), FrameId::from("body"));
    let edge = derive_transform_edge(tid, &vec![first, second]).unwrap();
    match edge {
        TransformEdge::Dynamic(d) => {
            assert_eq!(d.samples().len(), 2);
            assert_eq!(d.samples()[0].timestamp, time(1));
            assert_eq!(d.samples()[0].transform.translation, Vec3::new(5.0f64.to_bits(), 0, 0));
            assert_eq!(d.samples()[1].transform.translation, Vec3::new(6.0f64.to_bits(), 0, 0));
        },
        TransformEdge::Static(_) => panic!("expected a dynamic edge"),
    }
}

#[test]
fn test_csv_duplicate_instants_rejected() {
    let rows = vec![
        record("world", "body", None, Some(1), None),
        record("world", "body", None, Some(1), None),
    ];
    let tid = TransformId::new(FrameId::from("world"), FrameId::from("body"));
    assert!(matches!(derive_transform_edge(tid, &rows), Err(IoError::Ecoord(_))));
}
