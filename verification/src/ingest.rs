//! Converters into the core model: pose-file ingest with synthesized
//! timestamps, and the tabular record dialect.
//!
//! The caller parses bytes into the plain records here; every decision over
//! them — timestamp synthesis and validation, grouping, edge construction —
//! is proved.

use vstd::prelude::*;
use crate::error::{Error, IoError};
use crate::frames::FrameId;
use crate::time::Time;
use crate::transform::{Quat, TimedTransform, Transform, TransformId, Vec3};
use crate::transform_edge::{DynamicTransform, StaticTransform, TransformEdge};
use crate::transform_tree::{contains_edge_id, edge_with_id, TransformTree};

verus! {

/// Synthesizes the sample instants of a pose ingest: pose `i` of `n` is
/// stamped `start + (end - start) / n * i`, the division truncating on
/// nanoseconds.
#[verifier::loop_isolation(false)]
pub fn kitti_timed_transforms(poses: &Vec<Transform>, start: &Time, end: &Time) -> (r: Result<
    Vec<TimedTransform>,
    IoError,
>)
    requires
        start.wf(),
        end.wf(),
        start.as_nanos() <= end.as_nanos(),
        poses@.len() >= 1,
        poses@.len() <= 0x10_0000,
    ensures
        r is Ok,
        r matches Ok(v) ==> {
            &&& v@.len() == poses@.len()
            &&& forall|i: int| 0 <= i < v@.len() ==> (#[trigger] v@[i]).transform == poses@[i]
            &&& forall|i: int| 0 <= i < v@.len() ==> (#[trigger] v@[i]).timestamp.as_nanos()
                == start.as_nanos() + ((end.as_nanos() - start.as_nanos()) / (poses@.len() as int))
                    * i && v@[i].timestamp.wf()
        },
{
    let n = poses.len();
    let diff: i128 = end.diff_nanos(start);
    let step: i128 = diff / (n as i128);
    proof {
        assert(step == (end.as_nanos() - start.as_nanos()) / (poses@.len() as int));
        assert(step >= 0) by (nonlinear_arith)
            requires
                diff >= 0,
                n >= 1,
                step == diff / (n as i128),
        ;
        vstd::arithmetic::div_mod::lemma_fundamental_div_mod(diff as int, n as int);
        assert((n as int) * (step as int) <= diff);
        assert(step <= diff) by (nonlinear_arith)
            requires
                (n as int) * (step as int) <= diff,
                n >= 1,
                step >= 0,
        ;
    }
    let mut out: Vec<TimedTransform> = Vec::new();
    let mut i: usize = 0;
    while i < n
        invariant
            0 <= i <= n,
            n == poses@.len(),
            n >= 1,
            start.wf(),
            0 <= step,
            step == (end.as_nanos() - start.as_nanos()) / (poses@.len() as int),
            step <= end.as_nanos() - start.as_nanos(),
            (poses@.len() as int) * (step as int) <= end.as_nanos() - start.as_nanos(),
            out@.len() == i,
            forall|k: int| 0 <= k < i ==> (#[trigger] out@[k]).transform == poses@[k],
            forall|k: int| 0 <= k < i ==> (#[trigger] out@[k]).timestamp.as_nanos()
                == start.as_nanos() + step * k && out@[k].timestamp.wf(),
        decreases n - i,
    {
        proof {
            assert(step * i >= 0) by (nonlinear_arith)
                requires
                    step >= 0,
                    i >= 0,
            ;
            assert((step as int) * (i as int) <= end.as_nanos() - start.as_nanos())
                by (nonlinear_arith)
                requires
                    step >= 0,
                    0 <= i < poses@.len(),
                    (poses@.len() as int) * (step as int) <= end.as_nanos() - start.as_nanos(),
            ;
        }
        let offset: i128 = step * (i as i128);
        let base: i128 = (start.sec as i128) * 1_000_000_000 + (start.nanosec as i128);
        proof {
            assert(base == start.as_nanos());
        }
        let stamp_nanos: i128 = base + offset;
        proof {
            // the stamp lies between the two well-formed instants, so it is
            // representable
            assert(start.as_nanos() <= stamp_nanos <= end.as_nanos());
            assert(start.sec * 1_000_000_000 >= i64::MIN * 1_000_000_000) by (nonlinear_arith)
                requires
                    start.sec >= i64::MIN,
            ;
            assert(end.sec * 1_000_000_000 <= i64::MAX * 1_000_000_000) by (nonlinear_arith)
                requires
                    end.sec <= i64::MAX,
            ;
        }
        let timestamp = match Time::from_nanos(stamp_nanos) {
            Some(t) => t,
            None => {
                proof {
                    assert(false);
                }
                return Err(IoError::InvalidTimestamp());
            },
        };
        out.push(TimedTransform { timestamp, transform: poses[i] });
        i = i + 1;
    }
    Ok(out)
}

/// Builds the pose-ingest tree: one dynamic edge from the trajectory parent
/// to its child carrying the stamped poses, and, when a local origin offset
/// is given, one static edge from the global frame to the trajectory parent
/// carrying that translation with the identity rotation.
///
/// The bounds on the pose count and on the recording window are
/// representation limits: the synthesized timestamps divide the window
/// evenly, and a window of fewer nanoseconds than poses could not give each
/// pose a distinct instant, which the dynamic edge's strictly ascending
/// sample order demands.
#[verifier::loop_isolation(false)]
pub fn kitti_tree(
    poses: &Vec<Transform>,
    start: &Time,
    end: &Time,
    trajectory_frame_id: FrameId,
    trajectory_child_frame_id: FrameId,
    global_frame_id: FrameId,
    local_origin_offset: Option<Vec3>,
) -> (r: Result<TransformTree, IoError>)
    requires
        start.wf(),
        end.wf(),
        start.as_nanos() < end.as_nanos(),
        poses@.len() >= 1,
        poses@.len() <= 0x10_0000,
        end.as_nanos() - start.as_nanos() >= poses@.len(),
        trajectory_frame_id@ != trajectory_child_frame_id@,
        global_frame_id@ != trajectory_frame_id@,
    ensures
        r is Ok,
        r matches Ok(t) ==> {
            &&& t.wf()
            &&& contains_edge_id(t.edges@, (trajectory_frame_id@, trajectory_child_frame_id@))
            &&& (local_origin_offset is Some ==> contains_edge_id(
                t.edges@,
                (global_frame_id@, trajectory_frame_id@),
            ))
            &&& edge_with_id(
                t.edges@,
                (trajectory_frame_id@, trajectory_child_frame_id@),
            )@ matches crate::transform_edge::TransformEdgeView::Dynamic(d) && d.samples.len()
                == poses@.len() && (forall|i: int|
                0 <= i < d.samples.len() ==> (#[trigger] d.samples[i]).transform == poses@[i]
                    && d.samples[i].timestamp.as_nanos() == start.as_nanos() + ((end.as_nanos()
                    - start.as_nanos()) / (poses@.len() as int)) * i)
        },
{
    let samples = match kitti_timed_transforms(poses, start, end) {
        Ok(s) => s,
        Err(e) => {
            proof {
                assert(false);
            }
            return Err(e);
        },
    };
    proof {
        let n = poses@.len() as int;
        let d = end.as_nanos() - start.as_nanos();
        let step = d / n;
        vstd::arithmetic::div_mod::lemma_fundamental_div_mod(d, n);
        assert(step >= 1) by {
            if step <= 0 {
                assert(d == n * step + d % n);
                assert(n * step <= 0) by (nonlinear_arith)
                    requires
                        n >= 1,
                        step <= 0,
                ;
                assert(d < n);
            }
        }
        assert forall|a: int, b: int|
            0 <= a < b < samples@.len() implies (#[trigger] samples@[a]).timestamp.as_nanos() < (
        #[trigger] samples@[b]).timestamp.as_nanos() by {
            assert(step * a < step * b) by (nonlinear_arith)
                requires
                    0 <= a < b,
                    step >= 1,
            ;
        }
        assert(crate::interpolation::times_wf(samples@));
    }
    let dynamic = match DynamicTransform::new(
        trajectory_frame_id.clone(),
        trajectory_child_frame_id,
        None,
        None,
        samples,
    ) {
        Ok(d) => d,
        Err(_) => {
            proof {
                assert(false);
            }
            return Err(IoError::NoTimestamp());
        },
    };
    let mut edges: Vec<TransformEdge> = Vec::new();
    edges.push(TransformEdge::Dynamic(dynamic));
    match local_origin_offset {
        Some(offset) => {
            let st = StaticTransform::new(
                global_frame_id,
                trajectory_frame_id,
                Transform { translation: offset, rotation: Quat::identity() },
            );
            edges.push(TransformEdge::Static(st));
        },
        None => {},
    }
    let ghost built = edges@;
    match TransformTree::new(edges, Vec::new()) {
        Ok(t) => {
            proof {
                assert(crate::transform_tree::distinct_edge_ids(built));
                assert(crate::transform_tree::evs(t.edges@) == crate::transform_tree::evs(built));
                assert(t.edges@.len() == built.len()) by {
                    assert(crate::transform_tree::evs(t.edges@).len()
                        == crate::transform_tree::evs(built).len());
                }
                assert(crate::transform_tree::evs(t.edges@)[0] == t.edges@[0]@);
                assert(crate::transform_tree::evs(built)[0] == built[0]@);
                assert(t.edges@[0]@ == built[0]@);
                assert(t.edges@[0].spec_transform_id() == (
                    trajectory_frame_id@,
                    trajectory_child_frame_id@,
                ));
                assert(contains_edge_id(
                    t.edges@,
                    (trajectory_frame_id@, trajectory_child_frame_id@),
                ));
                crate::transform_tree::lemma_edge_with_id(t.edges@, 0);
                if built.len() == 2 {
                    assert(crate::transform_tree::evs(t.edges@)[1] == t.edges@[1]@);
                    assert(crate::transform_tree::evs(built)[1] == built[1]@);
                    assert(t.edges@[1]@ == built[1]@);
                    assert(t.edges@[1].spec_transform_id() == (
                        global_frame_id@,
                        trajectory_frame_id@,
                    ));
                    assert(contains_edge_id(t.edges@, (global_frame_id@, trajectory_frame_id@)));
                }
            }
            Ok(t)
        },
        Err(_) => {
            proof {
                assert(false);
            }
            Err(IoError::NoTimestamp())
        },
    }
}

/// One row of the tabular dialect, already parsed into plain values: the
/// fractional-seconds timestamp, when the row carries one, arrives already
/// split into whole seconds and nanoseconds.
#[derive(Debug)]
pub struct CsvRecord {
    pub parent_frame_id: String,
    pub child_frame_id: String,
    pub timestamp: Option<TimeStamp>,
    pub timestamp_sec: Option<i64>,
    pub timestamp_nanosec: Option<u32>,
    pub translation: Vec3,
    pub rotation: Quat,
}

/// A split fractional-seconds timestamp.
#[derive(Debug, Clone, Copy, PartialEq, Eq, Structural)]
pub struct TimeStamp {
    pub sec: i64,
    pub nanosec: u32,
}

/// The spec-level value of a row.
pub struct CsvRecordView {
    pub parent_frame_id: Seq<char>,
    pub child_frame_id: Seq<char>,
    pub timestamp: Option<TimeStamp>,
    pub timestamp_sec: Option<i64>,
    pub timestamp_nanosec: Option<u32>,
    pub translation: Vec3,
    pub rotation: Quat,
}

impl View for CsvRecord {
    type V = CsvRecordView;

    open spec fn view(&self) -> CsvRecordView {
        CsvRecordView {
            parent_frame_id: self.parent_frame_id@,
            child_frame_id: self.child_frame_id@,
            timestamp: self.timestamp,
            timestamp_sec: self.timestamp_sec,
            timestamp_nanosec: self.timestamp_nanosec,
            translation: self.translation,
            rotation: self.rotation,
        }
    }
}

/// The views of a sequence of rows.
pub open spec fn row_views(s: Seq<CsvRecord>) -> Seq<CsvRecordView> {
    s.map_values(|r: CsvRecord| r@)
}

/// The instant a row names, by the column rules: the split columns when
/// given, else the fractional column, else none.
pub open spec fn row_time(r: CsvRecordView) -> Option<Time> {
    match r.timestamp_sec {
        Option::Some(sec) => Option::Some(
            Time {
                sec,
                nanosec: match r.timestamp_nanosec {
                    Option::Some(ns) => ns,
                    Option::None => 0,
                },
            },
        ),
        Option::None => match r.timestamp {
            Option::Some(ts) => Option::Some(Time { sec: ts.sec, nanosec: ts.nanosec }),
            Option::None => Option::None,
        },
    }
}

/// A row's timestamp columns are consistent: not both forms, and a named
/// instant is representable.
pub open spec fn row_time_ok(r: CsvRecordView) -> bool {
    &&& !(r.timestamp is Some && (r.timestamp_sec is Some || r.timestamp_nanosec is Some))
    &&& (row_time(r) matches Some(t) ==> t.wf())
}

/// The sample a timestamped row denotes.
pub open spec fn row_sample(r: CsvRecordView) -> TimedTransform {
    TimedTransform {
        timestamp: match row_time(r) {
            Option::Some(t) => t,
            Option::None => Time { sec: 0, nanosec: 0 },
        },
        transform: Transform { translation: r.translation, rotation: r.rotation },
    }
}

/// The samples of a group of rows.
pub open spec fn rows_samples(rows: Seq<CsvRecordView>) -> Seq<TimedTransform> {
    rows.map_values(|r: CsvRecordView| row_sample(r))
}

/// A group that becomes a static edge: one row naming no instant.
pub open spec fn group_static(rows: Seq<CsvRecordView>) -> bool {
    rows.len() == 1 && row_time_ok(rows[0]) && row_time(rows[0]) is None
}

/// A group that becomes a dynamic edge: every row names an instant, no two
/// of them the same.
pub open spec fn group_dynamic_ok(rows: Seq<CsvRecordView>) -> bool {
    &&& rows.len() >= 1
    &&& forall|k: int| 0 <= k < rows.len() ==> row_time_ok(#[trigger] rows[k]) && row_time(
        rows[k],
    ) is Some
    &&& !crate::transform_edge::has_duplicate_times(rows_samples(rows))
}

impl CsvRecord {
    /// The row's instant, by the column rules: naming both the fractional
    /// and the split columns is an error, as is an unrepresentable instant;
    /// a row may carry no timestamp at all.
    pub fn timestamp(&self) -> (r: Result<Option<Time>, IoError>)
        ensures
            r is Ok <==> row_time_ok(self@),
            r matches Ok(o) ==> o == row_time(self@),
            r matches Err(e) ==> ((e matches IoError::TimestampDefinedTwice() <==> (self@.timestamp
                is Some && (self@.timestamp_sec is Some || self@.timestamp_nanosec is Some))) && (e
                matches IoError::TimestampDefinedTwice() || e matches IoError::InvalidTimestamp())),
    {
        if self.timestamp.is_some() && (self.timestamp_sec.is_some()
            || self.timestamp_nanosec.is_some()) {
            return Err(IoError::TimestampDefinedTwice());
        }
        match self.timestamp_sec {
            Some(sec) => {
                let nanosec = match self.timestamp_nanosec {
                    Some(ns) => ns,
                    None => 0,
                };
                match Time::new(sec, nanosec) {
                    Some(t) => Ok(Some(t)),
                    None => Err(IoError::InvalidTimestamp()),
                }
            },
            None => {
                match &self.timestamp {
                    Some(ts) => {
                        match Time::new(ts.sec, ts.nanosec) {
                            Some(t) => Ok(Some(t)),
                            None => Err(IoError::InvalidTimestamp()),
                        }
                    },
                    None => Ok(None),
                }
            },
        }
    }

    /// The row's transform.
    pub fn get_transform(&self) -> (r: Transform)
        ensures
            r.translation == self.translation,
            r.rotation == self.rotation,
    {
        Transform { translation: self.translation, rotation: self.rotation }
    }
}

/// Builds one edge from the rows sharing one transform identifier: a single
/// row without a timestamp becomes a static edge; otherwise every row needs
/// an instant, no two the same, and the group becomes a dynamic edge with
/// unset policies carrying exactly the rows' samples.
#[verifier::loop_isolation(false)]
pub fn derive_transform_edge(transform_id: TransformId, records: &Vec<CsvRecord>) -> (r: Result<
    TransformEdge,
    IoError,
>)
    requires
        transform_id.wf(),
        records@.len() >= 1,
    ensures
        r is Ok <==> group_static(row_views(records@)) || group_dynamic_ok(row_views(records@)),
        r matches Ok(e) ==> {
            &&& e.wf()
            &&& e.spec_transform_id() == transform_id@
            &&& (group_static(row_views(records@)) ==> (e@ matches
                crate::transform_edge::TransformEdgeView::Static(s) && s.transform == (Transform {
                translation: records@[0]@.translation,
                rotation: records@[0]@.rotation,
            })))
            &&& (group_dynamic_ok(row_views(records@)) ==> (e@ matches
                crate::transform_edge::TransformEdgeView::Dynamic(d) && d.interpolation is None
                && d.extrapolation is None && d.samples.to_multiset() == rows_samples(
                row_views(records@),
            ).to_multiset()))
        },
        r matches Err(e) ==> (e matches IoError::NoTimestamp() || e
            matches IoError::TimestampDefinedTwice() || e matches IoError::InvalidTimestamp() || e
            matches IoError::Ecoord(_)),
{
    let ghost views = row_views(records@);
    if records.len() == 1 {
        let stamp = match records[0].timestamp() {
            Ok(s) => s,
            Err(e) => {
                return Err(e);
            },
        };
        match stamp {
            None => {
                let transform = records[0].get_transform();
                return Ok(
                    TransformEdge::Static(
                        StaticTransform::new(
                            transform_id.parent_frame_id,
                            transform_id.child_frame_id,
                            transform,
                        ),
                    ),
                );
            },
            Some(_) => {},
        }
    }
    let mut samples: Vec<TimedTransform> = Vec::new();
    let mut i: usize = 0;
    while i < records.len()
        invariant
            0 <= i <= records@.len(),
            samples@.len() == i,
            forall|k: int| 0 <= k < i ==> row_time_ok(#[trigger] views[k]) && row_time(
                views[k],
            ) is Some,
            forall|k: int| 0 <= k < i ==> #[trigger] samples@[k] == row_sample(views[k]),
            forall|k: int| 0 <= k < i ==> (#[trigger] samples@[k]).timestamp.wf(),
        decreases records@.len() - i,
    {
        let stamp = match records[i].timestamp() {
            Ok(Some(t)) => t,
            Ok(None) => {
                proof {
                    assert(!group_dynamic_ok(views));
                    assert(!group_static(views));
                }
                return Err(IoError::NoTimestamp());
            },
            Err(e) => {
                proof {
                    assert(!row_time_ok(views[i as int]));
                    assert(!group_dynamic_ok(views));
                    assert(!group_static(views));
                }
                return Err(e);
            },
        };
        samples.push(TimedTransform { timestamp: stamp, transform: records[i].get_transform() });
        i = i + 1;
    }
    let ghost in_samples = samples@;
    proof {
        assert(in_samples =~= rows_samples(views));
    }
    match DynamicTransform::new(
        transform_id.parent_frame_id,
        transform_id.child_frame_id,
        None,
        None,
        samples,
    ) {
        Ok(d) => {
            proof {
                assert(group_dynamic_ok(views));
            }
            Ok(TransformEdge::Dynamic(d))
        },
        Err(e) => {
            proof {
                assert(crate::transform_edge::has_duplicate_times(in_samples));
                assert(!group_dynamic_ok(views));
                assert(!group_static(views));
            }
            Err(IoError::Ecoord(e))
        },
    }
}

/// The rows carrying one transform identifier, in order, as views.
pub open spec fn keep_rows(s: Seq<CsvRecord>, tidv: (Seq<char>, Seq<char>)) -> Seq<CsvRecordView>
    decreases s.len(),
{
    if s.len() == 0 {
        Seq::empty()
    } else {
        let rest = keep_rows(s.drop_last(), tidv);
        if (s.last()@.parent_frame_id, s.last()@.child_frame_id) == tidv {
            rest.push(s.last()@)
        } else {
            rest
        }
    }
}

/// A row with the identifier stands behind every member of its group.
proof fn lemma_keep_rows_source(s: Seq<CsvRecord>, tidv: (Seq<char>, Seq<char>))
    requires
        keep_rows(s, tidv).len() > 0,
    ensures
        exists|k: int|
            0 <= k < s.len() && ((#[trigger] s[k])@.parent_frame_id, s[k]@.child_frame_id) == tidv,
    decreases s.len(),
{
    if s.len() > 0 {
        if (s.last()@.parent_frame_id, s.last()@.child_frame_id) == tidv {
            assert(((s[s.len() - 1])@.parent_frame_id, s[s.len() - 1]@.child_frame_id) == tidv);
        } else {
            lemma_keep_rows_source(s.drop_last(), tidv);
            let k = choose|k: int|
                0 <= k < s.drop_last().len() && ((#[trigger] s.drop_last()[k])@.parent_frame_id,
                s.drop_last()[k]@.child_frame_id) == tidv;
            assert((s[k]@.parent_frame_id, s[k]@.child_frame_id) == tidv);
        }
    }
}

/// Builds the tree of a tabular document: rows are grouped by their
/// transform identifier, in order of first appearance, and each group
/// becomes one edge by the rules above. A row naming one frame as both
/// parent and child is rejected.
#[verifier::loop_isolation(false)]
#[verifier::rlimit(100)]
#[verifier::spinoff_prover]
pub fn tree_from_csv_records(records: Vec<CsvRecord>) -> (r: Result<TransformTree, IoError>)
    requires
        records@.len() <= 0x7FFF_FFFF,
    ensures
        r is Ok <==> forall|k: int|
            0 <= k < records@.len() ==> ((#[trigger] records@[k])@.parent_frame_id != records@[
                k
            ]@.child_frame_id && (group_static(
                keep_rows(
                    records@,
                    (records@[k]@.parent_frame_id, records@[k]@.child_frame_id),
                ),
            ) || group_dynamic_ok(
                keep_rows(
                    records@,
                    (records@[k]@.parent_frame_id, records@[k]@.child_frame_id),
                ),
            ))),
        r matches Ok(t) ==> {
            &&& t.wf()
            &&& forall|k: int| 0 <= k < records@.len() ==> contains_edge_id(
                t.edges@,
                ((#[trigger] records@[k])@.parent_frame_id, records@[k]@.child_frame_id),
            )
            &&& forall|k: int|
                #![trigger records@[k]]
                0 <= k < records@.len() ==> csv_edge_matches(
                    edge_with_id(
                        t.edges@,
                        (records@[k]@.parent_frame_id, records@[k]@.child_frame_id),
                    )@,
                    keep_rows(
                        records@,
                        (records@[k]@.parent_frame_id, records@[k]@.child_frame_id),
                    ),
                )
        },
{
    let mut groups: Vec<(TransformId, Vec<CsvRecord>)> = Vec::new();
    let mut remaining = records;
    let ghost all = remaining@;
    let mut consumed: usize = 0;
    while remaining.len() > 0
        invariant
            consumed + remaining@.len() == all.len(),
            remaining@ =~= all.skip(consumed as int),
            groups@.len() <= consumed,
            forall|g: int| 0 <= g < groups@.len() ==> (#[trigger] groups@[g]).0.wf() && groups@[
                g
            ].1@.len() >= 1,
            forall|a: int, b: int| 0 <= a < b < groups@.len() ==> (#[trigger] groups@[a]).0@ != (
            #[trigger] groups@[b]).0@,
            forall|k: int|
                #![trigger all[k]]
                0 <= k < consumed ==> (all[k]@.parent_frame_id != all[k]@.child_frame_id && exists|
                    g: int,
                |
                    0 <= g < groups@.len() && (#[trigger] groups@[g]).0@ == (
                        all[k]@.parent_frame_id,
                        all[k]@.child_frame_id,
                    )),
            forall|g: int| 0 <= g < groups@.len() ==> row_views((#[trigger] groups@[g]).1@)
                == keep_rows(all.take(consumed as int), groups@[g].0@),
        decreases remaining@.len(),
    {
        let rec = remaining.remove(0);
        proof {
            assert(all.skip(consumed as int)[0] == all[consumed as int]);
            assert(remaining@ =~= all.skip(consumed as int + 1));
            assert(all.take(consumed as int + 1).drop_last() == all.take(consumed as int));
            assert(all.take(consumed as int + 1).last() == all[consumed as int]);
        }
        let parent = FrameId::from_string(rec.parent_frame_id.clone());
        let child = FrameId::from_string(rec.child_frame_id.clone());
        let tid = match TransformId::try_new(parent, child) {
            Some(t) => t,
            None => {
                return Err(IoError::Ecoord(Error::InvalidFrameId(FrameId::from_string(
                    rec.parent_frame_id,
                ))));
            },
        };
        let mut found = false;
        let mut hit: usize = 0;
        let mut g: usize = 0;
        while g < groups.len()
            invariant
                0 <= g <= groups@.len(),
                !found ==> forall|m: int| 0 <= m < g ==> (#[trigger] groups@[m]).0@ != tid@,
                found ==> hit < groups@.len() && groups@[hit as int].0@ == tid@,
            decreases groups@.len() - g + if found {
                0int
            } else {
                1int
            },
        {
            if found {
                g = groups.len();
            } else if &groups[g].0 == &tid {
                found = true;
                hit = g;
            } else {
                g = g + 1;
            }
        }
        let ghost pre = groups@;
        let ghost target: int = if found {
            hit as int
        } else {
            pre.len() as int
        };
        let ghost rec_v = rec@;
        if found {
            let slot = &mut groups[hit];
            let ghost slot_pre = slot.1@;
            slot.1.push(rec);
            proof {
                assert(groups@[hit as int].0 == pre[hit as int].0);
                assert(groups@[hit as int].1@ == slot_pre.push(groups@[hit as int].1@.last()));
                assert(row_views(groups@[hit as int].1@) =~= row_views(slot_pre).push(rec_v));
                assert forall|a: int, b: int|
                    0 <= a < b < groups@.len() implies (#[trigger] groups@[a]).0@ != (
                #[trigger] groups@[b]).0@ by {
                    assert(groups@[a].0 == pre[a].0 && groups@[b].0 == pre[b].0);
                }
            }
        } else {
            let mut g_records: Vec<CsvRecord> = Vec::new();
            g_records.push(rec);
            groups.push((tid, g_records));
            proof {
                assert(row_views(groups@[pre.len() as int].1@) =~= Seq::empty().push(rec_v));
                assert forall|a: int, b: int|
                    0 <= a < b < groups@.len() implies (#[trigger] groups@[a]).0@ != (
                #[trigger] groups@[b]).0@ by {
                    if b == groups@.len() - 1 {
                        assert(groups@[a].0 == pre[a].0);
                    } else {
                        assert(groups@[a].0 == pre[a].0 && groups@[b].0 == pre[b].0);
                    }
                }
            }
        }
        proof {
            let cw = consumed as int;
            assert(groups@[target].0@ == (all[cw]@.parent_frame_id, all[cw]@.child_frame_id));
            assert forall|g2: int| 0 <= g2 < groups@.len() implies row_views(
                (#[trigger] groups@[g2]).1@,
            ) == keep_rows(all.take(cw + 1), groups@[g2].0@) by {
                if g2 == target {
                    if found {
                        assert(row_views(groups@[g2].1@) =~= keep_rows(all.take(cw), groups@[
                            g2
                        ].0@).push(all[cw]@));
                    } else {
                        assert(keep_rows(all.take(cw), groups@[g2].0@) =~= Seq::empty()) by {
                            if keep_rows(all.take(cw), groups@[g2].0@).len() > 0 {
                                lemma_keep_rows_source(all.take(cw), groups@[g2].0@);
                                let k = choose|k: int|
                                    0 <= k < all.take(cw).len() && ((#[trigger] all.take(cw)[
                                        k
                                    ])@.parent_frame_id, all.take(cw)[k]@.child_frame_id)
                                        == groups@[g2].0@;
                                assert(all[k]@.parent_frame_id == groups@[g2].0@.0);
                                let gk = choose|gk: int|
                                    0 <= gk < pre.len() && (#[trigger] pre[gk]).0@ == (
                                        all[k]@.parent_frame_id,
                                        all[k]@.child_frame_id,
                                    );
                                assert(false);
                            }
                        }
                        assert(row_views(groups@[g2].1@) =~= keep_rows(
                            all.take(cw + 1),
                            groups@[g2].0@,
                        ));
                    }
                } else {
                    if g2 < pre.len() {
                        assert(groups@[g2] == pre[g2]);
                        assert(groups@[g2].0@ != groups@[target].0@);
                        assert(keep_rows(all.take(cw + 1), groups@[g2].0@) == keep_rows(
                            all.take(cw),
                            groups@[g2].0@,
                        ));
                    }
                }
            }
            assert forall|k: int| 0 <= k < cw + 1 implies ((#[trigger] all[k])@.parent_frame_id
                != all[k]@.child_frame_id && exists|g2: int|
                0 <= g2 < groups@.len() && (#[trigger] groups@[g2]).0@ == (
                    all[k]@.parent_frame_id,
                    all[k]@.child_frame_id,
                )) by {
                if k < cw {
                    let g2 = choose|g2: int|
                        0 <= g2 < pre.len() && (#[trigger] pre[g2]).0@ == (
                            all[k]@.parent_frame_id,
                            all[k]@.child_frame_id,
                        );
                    assert(groups@[g2].0 == pre[g2].0);
                } else {
                    assert(groups@[target].0@ == (
                        all[k]@.parent_frame_id,
                        all[k]@.child_frame_id,
                    ));
                }
            }
        }
        consumed = consumed + 1;
    }
    proof {
        assert(all.take(all.len() as int) == all);
    }
    let mut edges: Vec<TransformEdge> = Vec::new();
    let mut gi: usize = 0;
    while gi < groups.len()
        invariant
            0 <= gi <= groups@.len(),
            forall|g: int| 0 <= g < groups@.len() ==> (#[trigger] groups@[g]).0.wf() && groups@[
                g
            ].1@.len() >= 1,
            edges@.len() == gi,
            forall|k: int| 0 <= k < gi ==> (#[trigger] edges@[k]).wf() && edges@[
                k
            ].spec_transform_id() == groups@[k].0@,
            forall|k: int| 0 <= k < gi ==> csv_edge_matches(
                (#[trigger] edges@[k])@,
                row_views(groups@[k].1@),
            ),
        decreases groups@.len() - gi,
    {
        let tid = groups[gi].0.clone();
        let edge = match derive_transform_edge(tid, &groups[gi].1) {
            Ok(e) => e,
            Err(e) => {
                proof {
                    let tv = groups@[gi as int].0@;
                    lemma_keep_rows_source(all, tv);
                    assert(row_views(groups@[gi as int].1@).len() > 0);
                    assert(keep_rows(all, tv).len() > 0);
                    let k = choose|k: int|
                        0 <= k < all.len() && ((#[trigger] all[k])@.parent_frame_id,
                        all[k]@.child_frame_id) == tv;
                    assert(!(group_static(keep_rows(all, tv)) || group_dynamic_ok(
                        keep_rows(all, tv),
                    )));
                }
                return Err(e);
            },
        };
        edges.push(edge);
        gi = gi + 1;
    }
    let ghost built = edges@;
    match TransformTree::new(edges, Vec::new()) {
        Ok(t) => {
            proof {
                assert(crate::transform_tree::distinct_edge_ids(built));
                assert(crate::transform_tree::evs(t.edges@) == crate::transform_tree::evs(built));
                assert(t.edges@.len() == built.len()) by {
                    assert(crate::transform_tree::evs(t.edges@).len()
                        == crate::transform_tree::evs(built).len());
                }
                assert forall|k: int| 0 <= k < all.len() implies (contains_edge_id(
                    t.edges@,
                    ((#[trigger] all[k])@.parent_frame_id, all[k]@.child_frame_id),
                ) && csv_edge_matches(
                    edge_with_id(
                        t.edges@,
                        (all[k]@.parent_frame_id, all[k]@.child_frame_id),
                    )@,
                    keep_rows(all, (all[k]@.parent_frame_id, all[k]@.child_frame_id)),
                )) by {
                    let tv = (all[k]@.parent_frame_id, all[k]@.child_frame_id);
                    let g2 = choose|g2: int|
                        0 <= g2 < groups@.len() && (#[trigger] groups@[g2]).0@ == tv;
                    assert(built[g2].spec_transform_id() == tv);
                    assert(contains_edge_id(built, built[g2].spec_transform_id()));
                    assert(crate::transform_tree::evs(t.edges@)[g2]
                        == crate::transform_tree::evs(built)[g2]);
                    assert(t.edges@[g2]@ == built[g2]@);
                    assert(t.edges@[g2].spec_transform_id() == tv);
                    assert(contains_edge_id(t.edges@, tv));
                    crate::transform_tree::lemma_edge_with_id(t.edges@, g2);
                    assert(row_views(groups@[g2].1@) == keep_rows(all, tv));
                }
                assert forall|k: int|
                    0 <= k < all.len() implies ((#[trigger] all[k])@.parent_frame_id
                    != all[k]@.child_frame_id && (group_static(
                    keep_rows(all, (all[k]@.parent_frame_id, all[k]@.child_frame_id)),
                ) || group_dynamic_ok(
                    keep_rows(all, (all[k]@.parent_frame_id, all[k]@.child_frame_id)),
                ))) by {
                    let tv = (all[k]@.parent_frame_id, all[k]@.child_frame_id);
                    let g2 = choose|g2: int|
                        0 <= g2 < groups@.len() && (#[trigger] groups@[g2]).0@ == tv;
                    assert(row_views(groups@[g2].1@) == keep_rows(all, tv));
                }
            }
            Ok(t)
        },
        Err(_) => {
            proof {
                assert(false);
            }
            Err(IoError::NoTimestamp())
        },
    }
}

/// Whether an edge is the one a group of rows denotes: static with the
/// single row's transform, or dynamic with unset policies and exactly the
/// rows' samples.
pub open spec fn csv_edge_matches(
    e: crate::transform_edge::TransformEdgeView,
    rows: Seq<CsvRecordView>,
) -> bool {
    match e {
        crate::transform_edge::TransformEdgeView::Static(s) => group_static(rows) && s.transform
            == (Transform { translation: rows[0].translation, rotation: rows[0].rotation }),
        crate::transform_edge::TransformEdgeView::Dynamic(d) => group_dynamic_ok(rows)
            && d.interpolation is None && d.extrapolation is None && d.samples.to_multiset()
            == rows_samples(rows).to_multiset(),
    }
}

} // verus!
