use ecoord::documents::{
    DynamicTransformSerde, QuaternionSerde, TimeSerde, TimedTransformSerde, TransformEdgeSerde,
    TransformSerde, TransformTreeSerde, VectorSerde,
};
use ecoord::io::{candidate_file_names, classify_extension_tokens, Compression, Format};
use ecoord::transform_edge::{DynamicTransform, TransformEdge};
use ecoord::transform_tree::TransformTree;
use ecoord::{FrameId, InterpolationMethod, Quat, Time, TimedTransform, Transform, TransformId, Vec3};

fn time(sec: i64) -> Time {
    Time::new(sec, 0).unwrap()
}

fn quat_roll(roll: f64) -> Quat {
    let q = nalgebra::UnitQuaternion::from_euler_angles(roll, 0.0, 0.0);
    Quat::new(q.i.to_bits(), q.j.to_bits(), q.k.to_bits(), q.w.to_bits())
}

fn vec3(x: f64, y: f64, z: f64) -> Vec3 {
    Vec3::new(x.to_bits(), y.to_bits(), z.to_bits())
}

fn odom_tree() -> TransformTree {
    let samples = vec![
        TimedTransform::new(time(0), Transform::new(vec3(0.0, 0.0, 0.0), Quat::identity())),
        TimedTransform::new(
            time(10),
            Transform::new(vec3(10.0, 0.0, 0.0), quat_roll(std::f64::consts::FRAC_PI_2)),
        ),
    ];
    let dynamic = DynamicTransform::new(
        FrameId::odom(),
        FrameId::base_link(),
        Some(InterpolationMethod::Linear),
        None,
        samples,
    )
    .unwrap();
    TransformTree::new(vec![TransformEdge::Dynamic(dynamic)], Vec::new()).unwrap()
}

fn trees_structurally_equal(a: &TransformTree, b: &TransformTree) {
    assert_eq!(a.edges().len(), b.edges().len());
    for edge in a.edges().iter() {
        let tid = TransformId::new(
            edge.parent_frame_id().clone(),
            edge.child_frame_id().clone(),
        );
        assert!(b.contains_transform(&tid));
    }
    for (ea, eb) in a.edges().iter().zip(b.edges().iter()) {
        match (ea, eb) {
            (TransformEdge::Dynamic(da), TransformEdge::Dynamic(db)) => {
                assert_eq!(da.samples(), db.samples());
                assert_eq!(da.interpolation, db.interpolation);
                assert_eq!(da.extrapolation, db.extrapolation);
            },
            (TransformEdge::Static(sa), TransformEdge::Static(sb)) => {
                assert_eq!(sa.transform, sb.transform);
            },
            _ => panic!("edge kinds differ"),
        }
    }
    assert_eq!(a.frames().len(), b.frames().len());
}

#[test]
fn test_document_round_trip_in_memory() {
    let tree = odom_tree();
    let document = TransformTreeSerde::from_tree(&tree);
    let rebuilt = document.to_tree().unwrap();
    trees_structurally_equal(&tree, &rebuilt);
}

#[test]
fn test_document_round_trip_keeps_frame_metadata() {
    let samples = vec![
        TimedTransform::new(time(0), Transform::new(vec3(0.0, 0.0, 0.0), Quat::identity())),
        TimedTransform::new(time(5), Transform::new(vec3(1.0, 0.0, 0.0), Quat::identity())),
    ];
    let dynamic = DynamicTransform::new(FrameId::odom(), FrameId::base_link(), None, None, samples)
        .unwrap();
    let frames = vec![
        ecoord::FrameInfo::new(
            FrameId::odom(),
            Some("wheel odometry origin".to_string()),
            Some(25832),
        ),
        ecoord::FrameInfo::new(FrameId::base_link(), None, None),
    ];
    let tree = TransformTree::new(vec![TransformEdge::Dynamic(dynamic)], frames).unwrap();

    let document = TransformTreeSerde::from_tree(&tree);
    let rebuilt = document.to_tree().unwrap();

    assert_eq!(rebuilt.frames().len(), tree.frames().len());
    for (fa, fb) in tree.frames().iter().zip(rebuilt.frames().iter()) {
        assert_eq!(fa.id, fb.id);
        assert_eq!(fa.description, fb.description);
        assert_eq!(fa.crs_epsg, fb.crs_epsg);
    }
    let odom = rebuilt.frames().iter().find(|f| f.id == FrameId::odom()).unwrap();
    assert_eq!(odom.description.as_deref(), Some("wheel odometry origin"));
    assert_eq!(odom.crs_epsg, Some(25832));
}

#[test]
fn test_document_round_trip_through_json_and_zstd() {
    let tree = odom_tree();
    let document = TransformTreeSerde::from_tree(&tree);

    // write the document as its JSON text
    let mut edges_json: Vec<String> = Vec::new();
    for edge in &document.edges {
        match edge {
            TransformEdgeSerde::Dynamic(d) => {
                let mut samples_json: Vec<String> = Vec::new();
                for s in &d.samples {
                    samples_json.push(format!(
                        "{{\"timestamp\":{{\"sec\":{},\"nanosec\":{}}},\"transform\":{{\"translation\":{{\"x\":{},\"y\":{},\"z\":{}}},\"rotation\":{{\"x\":{},\"y\":{},\"z\":{},\"w\":{}}}}}}}",
                        s.timestamp.sec,
                        s.timestamp.nanosec,
                        f64::from_bits(s.transform.translation.x),
                        f64::from_bits(s.transform.translation.y),
                        f64::from_bits(s.transform.translation.z),
                        f64::from_bits(s.transform.rotation.x),
                        f64::from_bits(s.transform.rotation.y),
                        f64::from_bits(s.transform.rotation.z),
                        f64::from_bits(s.transform.rotation.w),
                    ));
                }
                edges_json.push(format!(
                    "{{\"type\":\"dynamic\",\"parent_frame_id\":\"{}\",\"child_frame_id\":\"{}\",\"interpolation\":\"linear\",\"extrapolation\":null,\"samples\":[{}]}}",
                    d.parent_frame_id,
                    d.child_frame_id,
                    samples_json.join(",")
                ));
            },
            TransformEdgeSerde::Static(_) => panic!("the sample tree has no static edge"),
        }
    }
    let json = format!("{{\"edges\":[{}],\"frames\":[]}}", edges_json.join(","));

    // compress, store, reopen, decompress
    let compressed = zstd::encode_all(json.as_bytes(), 10).unwrap();
    let decompressed = zstd::decode_all(compressed.as_slice()).unwrap();
    let value: serde_json::Value = serde_json::from_slice(&decompressed).unwrap();

    // read the document back out of the JSON
    let mut edges: Vec<TransformEdgeSerde> = Vec::new();
    for e in value["edges"].as_array().unwrap() {
        assert_eq!(e["type"].as_str().unwrap(), "dynamic");
        let mut samples: Vec<TimedTransformSerde> = Vec::new();
        for s in e["samples"].as_array().unwrap() {
            samples.push(TimedTransformSerde {
                timestamp: TimeSerde {
                    sec: s["timestamp"]["sec"].as_i64().unwrap(),
                    nanosec: s["timestamp"]["nanosec"].as_u64().unwrap() as u32,
                },
                transform: TransformSerde {
                    translation: VectorSerde {
                        x: s["transform"]["translation"]["x"].as_f64().unwrap().to_bits(),
                        y: s["transform"]["translation"]["y"].as_f64().unwrap().to_bits(),
                        z: s["transform"]["translation"]["z"].as_f64().unwrap().to_bits(),
                    },
                    rotation: QuaternionSerde {
                        x: s["transform"]["rotation"]["x"].as_f64().unwrap().to_bits(),
                        y: s["transform"]["rotation"]["y"].as_f64().unwrap().to_bits(),
                        z: s["transform"]["rotation"]["z"].as_f64().unwrap().to_bits(),
                        w: s["transform"]["rotation"]["w"].as_f64().unwrap().to_bits(),
                    },
                },
            });
        }
        edges.push(TransformEdgeSerde::Dynamic(DynamicTransformSerde {
            parent_frame_id: e["parent_frame_id"].as_str().unwrap().to_string(),
            child_frame_id: e["child_frame_id"].as_str().unwrap().to_string(),
            interpolation: Some(ecoord::documents::InterpolationMethodSerde::Linear),
            extrapolation: None,
            samples,
        }));
    }
    let reread = TransformTreeSerde { edges, frames: Vec::new() };
    let rebuilt = reread.to_tree().unwrap();
    trees_structurally_equal(&odom_tree(), &rebuilt);

    // a query against the reopened tree matches the original
    let query = TransformId::new(FrameId::odom(), FrameId::base_link());
    let original = odom_tree().get_transform_at_time(&query, &time(5)).unwrap();
    let reopened = rebuilt.get_transform_at_time(&query, &time(5)).unwrap();
    assert_eq!(original, reopened);
}

#[test]
fn test_format_tokens() {
    assert_eq!(Format::from_str("json"), Some(Format::Json));
    assert_eq!(Format::from_str("JSON"), Some(Format::Json));
    assert_eq!(Format::from_str("Csv"), Some(Format::Csv));
    assert_eq!(Format::from_str("yaml"), None);
    assert_eq!(Format::Json.as_str(), "json");
    assert_eq!(Format::Csv.as_str(), "csv");
}

#[test]
fn test_compression_tokens() {
    assert_eq!(Compression::from_str("zst"), Some(Compression::Zstd(10)));
    assert_eq!(Compression::from_str("gz"), None);
    assert_eq!(Compression::default_zstd(), Compression::Zstd(10));
    assert!(Compression::default_zstd().is_enabled());
    assert!(!Compression::Uncompressed.is_enabled());
    assert_eq!(Compression::default_zstd().level(), Some(10));
    assert_eq!(Compression::Uncompressed.level(), None);
    assert_eq!(Compression::default_zstd().as_str(), Some("zst"));
    assert_eq!(Compression::Uncompressed.as_str(), None);
}

#[test]
fn test_candidate_file_names() {
    let names = candidate_file_names("out");
    assert_eq!(
        names,
        vec![
            "out.ecoord.json".to_string(),
            "out.ecoord.json.zst".to_string(),
            "out.ecoord.csv".to_string(),
            "out.ecoord.csv.zst".to_string(),
        ]
    );
}

#[test]
fn test_classify_extension_tokens() {
    assert_eq!(
        classify_extension_tokens("json", None),
        Some((Format::Json, Compression::Uncompressed))
    );
    assert_eq!(
        classify_extension_tokens("zst", Some("json")),
        Some((Format::Json, Compression::Zstd(10)))
    );
    assert_eq!(
        classify_extension_tokens("zst", Some("csv")),
        Some((Format::Csv, Compression::Zstd(10)))
    );
    assert_eq!(classify_extension_tokens("zst", None), None);
    assert_eq!(classify_extension_tokens("bin", None), None);
}

#[test]
fn test_reader_writer_builders() {
    let reader = ecoord::io::EcoordReader::new(Vec::<u8>::new())
        .with_compression(Compression::default_zstd())
        .with_format(Format::Csv);
    let (_, compression, format) = reader.into_parts();
    assert_eq!(compression, Compression::Zstd(10));
    assert_eq!(format, Format::Csv);

    let writer = ecoord::io::EcoordWriter::new(Vec::<u8>::new()).with_pretty(true);
    let (_, c2, f2, pretty) = writer.into_parts();
    assert_eq!(c2, Compression::Uncompressed);
    assert_eq!(f2, Format::Json);
    assert!(pretty);

    let tabular = ecoord::io::TabularReader::new(Vec::<u8>::new())
        .with_trajectory_channel_id(ecoord::ChannelId::from("gps"))
        .with_trajectory_frame_id(FrameId::from("earth"))
        .with_trajectory_child_frame_id(FrameId::from("rover"));
    assert_eq!(tabular.trajectory_channel_id.as_string(), "gps");
    assert_eq!(tabular.trajectory_frame_id.as_string(), "earth");
    assert_eq!(tabular.trajectory_child_frame_id.as_string(), "rover");

    let kitti = ecoord::io::KittiReader::new(Vec::<u8>::new());
    assert_eq!(kitti.trajectory_frame_id.as_string(), "local");
    assert_eq!(kitti.global_frame_id.as_string(), "global");
}

#[test]
fn test_document_invalid_nanoseconds_rejected() {
    let bad = TransformTreeSerde {
        edges: vec![TransformEdgeSerde::Dynamic(DynamicTransformSerde {
            parent_frame_id: "a".to_string(),
            child_frame_id: "b".to_string(),
            interpolation: None,
            extrapolation: None,
            samples: vec![TimedTransformSerde {
                timestamp: TimeSerde { sec: 0, nanosec: 2_000_000_000 },
                transform: TransformSerde {
                    translation: VectorSerde { x: 0, y: 0, z: 0 },
                    rotation: QuaternionSerde { x: 0, y: 0, z: 0, w: 0 },
                },
            }],
        })],
        frames: Vec::new(),
    };
    assert!(bad.to_tree().is_err());
}

#[test]
fn test_select_existing_candidate() {
    assert_eq!(
        ecoord::io::select_existing_candidate(&vec![false, false, false, false]).unwrap(),
        None
    );
    assert_eq!(
        ecoord::io::select_existing_candidate(&vec![false, true, false, false]).unwrap(),
        Some(1)
    );
    assert!(ecoord::io::select_existing_candidate(&vec![true, false, true, false]).is_err());
}
