use ecoord::reference_frames::{ChannelTransforms, ReferenceFrames};
use ecoord::{
    ChannelId, ChannelInfo, Error, FrameId, Quat, Time, TimedTransform, Transform, TransformId,
    TransformInfo, InterpolationMethod, ExtrapolationMethod, Vec3,
};

fn time(sec: i64) -> Time {
    Time::new(sec, 0).unwrap()
}

fn sample(sec: i64, x: f64) -> TimedTransform {
    TimedTransform::new(
        time(sec),
        Transform::new(Vec3::new(x.to_bits(), 0, 0), Quat::identity()),
    )
}

fn entry(channel: &str, parent: &str, child: &str, samples: Vec<TimedTransform>) -> ChannelTransforms {
    ChannelTransforms {
        channel_id: ChannelId::from(channel),
        transform_id: TransformId::new(FrameId::from(parent), FrameId::from(child)),
        transforms: samples,
    }
}

fn info(channel: &str, priority: i32) -> (ChannelId, ChannelInfo) {
    (ChannelId::from(channel), ChannelInfo::new(Some(priority)))
}

#[test]
fn test_reference_frames_new_rejects_unsorted() {
    let unsorted = entry("slam", "map", "base_link", vec![sample(5, 1.0), sample(1, 2.0)]);
    let result = ReferenceFrames::new(vec![unsorted], Vec::new(), Vec::new(), Vec::new());
    assert!(matches!(result, Err(Error::TransformsNotSorted { .. })));

    let sorted = entry("slam", "map", "base_link", vec![sample(1, 1.0), sample(5, 2.0)]);
    assert!(ReferenceFrames::new(vec![sorted], Vec::new(), Vec::new(), Vec::new()).is_ok());
}

#[test]
fn test_priority_resolution_prefers_higher_priority() {
    let rf = ReferenceFrames::new(
        vec![
            entry("odometry", "map", "base_link", vec![sample(1, 1.0)]),
            entry("slam", "map", "base_link", vec![sample(1, 2.0)]),
        ],
        Vec::new(),
        vec![info("odometry", 1), info("slam", 2)],
        Vec::new(),
    )
    .unwrap();

    let query = TransformId::new(FrameId::map(), FrameId::base_link());
    let chosen = rf.select_channel(&query).unwrap();
    assert_eq!(chosen.as_string(), "slam");
    assert_eq!(rf.get_channel_priority(&chosen).unwrap(), 2);
}

#[test]
fn test_priority_tie_breaks_lexicographically() {
    let rf = ReferenceFrames::new(
        vec![
            entry("beta", "map", "base_link", vec![sample(1, 1.0)]),
            entry("alpha", "map", "base_link", vec![sample(1, 2.0)]),
        ],
        Vec::new(),
        vec![info("beta", 3), info("alpha", 3)],
        Vec::new(),
    )
    .unwrap();

    let query = TransformId::new(FrameId::map(), FrameId::base_link());
    let chosen = rf.select_channel(&query).unwrap();
    assert_eq!(chosen.as_string(), "alpha");
}

#[test]
fn test_channel_priority_defaults_and_errors() {
    let rf = ReferenceFrames::new(
        vec![entry("slam", "map", "base_link", vec![sample(1, 1.0)])],
        Vec::new(),
        Vec::new(),
        Vec::new(),
    )
    .unwrap();
    assert_eq!(rf.get_channel_priority(&ChannelId::from("slam")).unwrap(), 0);
    assert!(matches!(
        rf.get_channel_priority(&ChannelId::from("missing")),
        Err(Error::InvalidChannelId(_))
    ));
    assert!(rf.contains_channel(&ChannelId::from("slam")));
    assert!(rf.contains_frame(&FrameId::map()));
    assert!(!rf.is_empty());
}

#[test]
fn test_filter_by_channel_ids() {
    let rf = ReferenceFrames::new(
        vec![
            entry("slam", "map", "base_link", vec![sample(1, 1.0)]),
            entry("odometry", "odom", "base_link", vec![sample(1, 2.0)]),
        ],
        Vec::new(),
        vec![info("slam", 1), info("odometry", 2)],
        Vec::new(),
    )
    .unwrap();

    let kept = rf.filter_by_channel_ids(&vec![ChannelId::from("slam")]).unwrap();
    assert_eq!(kept.transforms().len(), 1);
    assert_eq!(kept.transforms()[0].channel_id.as_string(), "slam");
    assert_eq!(kept.channel_info().len(), 1);
    assert!(kept.contains_frame(&FrameId::map()));
    assert!(!kept.contains_frame(&FrameId::odom()));
}

#[test]
fn test_filter_by_transform_ids() {
    let rf = ReferenceFrames::new(
        vec![
            entry("slam", "map", "base_link", vec![sample(1, 1.0)]),
            entry("slam", "odom", "base_link", vec![sample(1, 2.0)]),
        ],
        Vec::new(),
        Vec::new(),
        Vec::new(),
    )
    .unwrap();

    let query = TransformId::new(FrameId::map(), FrameId::base_link());
    let kept = rf.filter_by_transform_ids(&vec![query]).unwrap();
    assert_eq!(kept.transforms().len(), 1);
    assert_eq!(kept.transforms()[0].transform_id.parent_frame_id.as_string(), "map");
}

#[test]
fn test_filter_by_time_interval() {
    let rf = ReferenceFrames::new(
        vec![
            entry("slam", "map", "base_link", vec![sample(1, 1.0), sample(5, 2.0), sample(9, 3.0)]),
            entry("slam", "odom", "base_link", vec![sample(20, 4.0)]),
        ],
        Vec::new(),
        Vec::new(),
        Vec::new(),
    )
    .unwrap();

    let kept = rf
        .filter_by_time_interval(&Some(time(2)), &Some(time(10)))
        .unwrap();
    // the second entry falls outside the window and is dropped entirely
    assert_eq!(kept.transforms().len(), 1);
    let samples = &kept.transforms()[0].transforms;
    assert_eq!(samples.len(), 2);
    assert_eq!(samples[0].timestamp, time(5));
    assert_eq!(samples[1].timestamp, time(9));
}

#[test]
fn test_interpolation_methods_stored_per_transform() {
    let mut rf = ReferenceFrames::new(
        vec![entry("slam", "map", "base_link", vec![sample(1, 1.0)])],
        Vec::new(),
        Vec::new(),
        Vec::new(),
    )
    .unwrap();
    let tid = TransformId::new(FrameId::map(), FrameId::base_link());
    assert_eq!(rf.get_interpolation_method(&tid), InterpolationMethod::Step);
    assert_eq!(rf.get_extrapolation_method(&tid), ExtrapolationMethod::Constant);

    rf.set_interpolation_method(
        TransformId::new(FrameId::map(), FrameId::base_link()),
        InterpolationMethod::Linear,
    );
    rf.set_extrapolation_method(
        TransformId::new(FrameId::map(), FrameId::base_link()),
        ExtrapolationMethod::Linear,
    );
    assert_eq!(rf.get_interpolation_method(&tid), InterpolationMethod::Linear);
    assert_eq!(rf.get_extrapolation_method(&tid), ExtrapolationMethod::Linear);

    let other = TransformId::new(FrameId::odom(), FrameId::base_link());
    assert_eq!(rf.get_interpolation_method(&other), InterpolationMethod::Step);
    let _ = TransformInfo::new(InterpolationMethod::Step, ExtrapolationMethod::Constant);
}

#[test]
fn test_get_transforms_of_channel() {
    let rf = ReferenceFrames::new(
        vec![entry("slam", "map", "base_link", vec![sample(1, 1.0), sample(2, 2.0)])],
        Vec::new(),
        Vec::new(),
        Vec::new(),
    )
    .unwrap();
    let tid = TransformId::new(FrameId::map(), FrameId::base_link());
    let samples = rf.get_transforms_of_channel(&ChannelId::from("slam"), &tid).unwrap();
    assert_eq!(samples.len(), 2);
    assert!(matches!(
        rf.get_transforms_of_channel(&ChannelId::from("other"), &tid),
        Err(Error::NoTransforms())
    ));
}

#[test]
fn test_derive_transform_graph_uses_best_channel() {
    let rf = ReferenceFrames::new(
        vec![
            entry("odometry", "map", "base_link", vec![sample(1, 1.0)]),
            entry("slam", "map", "base_link", vec![sample(1, 2.0)]),
            entry("slam", "base_link", "sensor", vec![sample(1, 3.0)]),
        ],
        Vec::new(),
        vec![info("odometry", 1), info("slam", 2)],
        Vec::new(),
    )
    .unwrap();

    let graph = rf.derive_transform_graph(&None, &Some(time(1))).unwrap();
    let query = TransformId::new(FrameId::map(), FrameId::from("sensor"));
    let factors = graph.get_isometry(&query).unwrap();
    assert_eq!(factors.len(), 2);
    // the winning channel for map -> base_link is the higher-priority one,
    // whose sample moves 2 along the first axis; the chain adds 3 more
    let mut total = 0.0f64;
    for f in &factors {
        match f {
            ecoord::TransformEval::Exact(t) => total += f64::from_bits(t.translation.x),
            ecoord::TransformEval::Blend { .. } => panic!("expected exact samples"),
        }
    }
    assert!((total - 5.0).abs() < 1e-12);
}

#[test]
fn test_derive_transform_graph_rejects_empty_selection() {
    let rf = ReferenceFrames::new(
        vec![entry("slam", "map", "base_link", vec![sample(1, 1.0)])],
        Vec::new(),
        Vec::new(),
        Vec::new(),
    )
    .unwrap();
    let result = rf.derive_transform_graph(&Some(Vec::new()), &Some(time(1)));
    assert!(matches!(result, Err(Error::NoChannels())));
}

#[test]
fn test_get_timed_subset_evaluates_each_entry() {
    let rf = ReferenceFrames::new(
        vec![entry(
            "slam",
            "map",
            "base_link",
            vec![sample(0, 0.0), sample(10, 10.0)],
        )],
        Vec::new(),
        Vec::new(),
        Vec::new(),
    )
    .unwrap();
    let subset = rf.get_timed_subset(&time(-5)).unwrap();
    assert_eq!(subset.len(), 1);
    // the default extrapolation clamps to the first sample
    assert_eq!(
        subset[0].2,
        ecoord::TransformEval::Exact(Transform::new(
            Vec3::new(0.0f64.to_bits(), 0, 0),
            Quat::identity()
        ))
    );
}

#[test]
fn test_add_and_extend_transforms() {
    let mut rf = ReferenceFrames::new(
        vec![entry("slam", "map", "base_link", vec![sample(1, 1.0)])],
        Vec::new(),
        Vec::new(),
        Vec::new(),
    )
    .unwrap();
    let tid = TransformId::new(FrameId::odom(), FrameId::base_link());
    rf.add_transforms(
        ChannelId::from("odometry"),
        TransformId::new(FrameId::odom(), FrameId::base_link()),
        vec![sample(2, 2.0), sample(4, 4.0)],
        Some(ChannelInfo::new(Some(7))),
        None,
    )
    .unwrap();
    assert_eq!(rf.get_channel_priority(&ChannelId::from("odometry")).unwrap(), 7);
    assert_eq!(
        rf.get_transforms_of_channel(&ChannelId::from("odometry"), &tid).unwrap().len(),
        2
    );

    // unsorted additions are rejected, the model unchanged
    let unsorted = rf.add_transforms(
        ChannelId::from("odometry"),
        TransformId::new(FrameId::odom(), FrameId::base_link()),
        vec![sample(9, 9.0), sample(3, 3.0)],
        None,
        None,
    );
    assert!(matches!(unsorted, Err(Error::TransformsNotSorted { .. })));

    rf.extend_transforms(
        ChannelId::from("odometry"),
        TransformId::new(FrameId::odom(), FrameId::base_link()),
        vec![sample(3, 3.0)],
    )
    .unwrap();
    let merged = rf.get_transforms_of_channel(&ChannelId::from("odometry"), &tid).unwrap();
    let stamps: Vec<Time> = merged.iter().map(|s| s.timestamp).collect();
    assert_eq!(stamps, vec![time(2), time(3), time(4)]);

    // an addition colliding on an instant is rejected
    let collision = rf.extend_transforms(
        ChannelId::from("odometry"),
        TransformId::new(FrameId::odom(), FrameId::base_link()),
        vec![sample(3, 30.0)],
    );
    assert!(matches!(collision, Err(Error::DuplicateTimestamp(_))));
}

#[test]
fn test_get_valid_transform_windows() {
    let rf = ReferenceFrames::new(
        vec![entry(
            "slam",
            "map",
            "base_link",
            vec![sample(0, 0.0), sample(10, 1.0), sample(20, 2.0)],
        )],
        Vec::new(),
        Vec::new(),
        Vec::new(),
    )
    .unwrap();
    let tid = TransformId::new(FrameId::map(), FrameId::base_link());

    let all = rf.get_valid_transform(&ChannelId::from("slam"), &tid, &None).unwrap();
    assert_eq!(all.len(), 3);

    let mid = rf.get_valid_transform(&ChannelId::from("slam"), &tid, &Some(time(12))).unwrap();
    assert_eq!(mid.len(), 1);
    assert_eq!(mid[0].timestamp, time(10));

    let late = rf.get_valid_transform(&ChannelId::from("slam"), &tid, &Some(time(99))).unwrap();
    assert_eq!(late.len(), 1);
    assert_eq!(late[0].timestamp, time(20));

    let early = rf.get_valid_transform(&ChannelId::from("slam"), &tid, &Some(time(-5))).unwrap();
    assert_eq!(early.len(), 0);

    assert!(rf.get_valid_transform(&ChannelId::from("none"), &tid, &None).is_err());
}
