//! The persisted document model of a transform tree, and the proved
//! conversions between it and the core types.
//!
//! The document mirrors the JSON layout: a list of edges — a discriminated
//! union of static and dynamic records — and a list of frame records.
//! Serializing the document to bytes is the caller's work; the mapping
//! between document and core values, in both directions, is proved here,
//! with the round trip stated as a law.

use vstd::prelude::*;
use crate::error::{Error, IoError};
use crate::frames::{FrameId, FrameInfo};
use crate::interpolation::{strictly_sorted, times_wf};
use crate::time::Time;
use crate::transform::{Quat, TimedTransform, Transform, Vec3};
use crate::transform_edge::{
    has_duplicate_times, DynamicTransform, StaticTransform, TransformEdge, TransformEdgeView,
};
use crate::transform_info::{ExtrapolationMethod, InterpolationMethod};
use crate::transform_tree::TransformTree;

verus! {

/// A vector record: the bit patterns of three double-precision components.
#[derive(Debug, Clone, Copy, PartialEq, Eq, Structural)]
pub struct VectorSerde {
    pub x: u64,
    pub y: u64,
    pub z: u64,
}

/// A quaternion record: the bit patterns of four double-precision components.
#[derive(Debug, Clone, Copy, PartialEq, Eq, Structural)]
pub struct QuaternionSerde {
    pub x: u64,
    pub y: u64,
    pub z: u64,
    pub w: u64,
}

/// A timestamp record: whole seconds and a nanosecond part.
#[derive(Debug, Clone, Copy, PartialEq, Eq, Structural)]
pub struct TimeSerde {
    pub sec: i64,
    pub nanosec: u32,
}

/// A transform record.
#[derive(Debug, Clone, Copy, PartialEq, Eq, Structural)]
pub struct TransformSerde {
    pub translation: VectorSerde,
    pub rotation: QuaternionSerde,
}

/// A time-stamped transform record.
#[derive(Debug, Clone, Copy, PartialEq, Eq, Structural)]
pub struct TimedTransformSerde {
    pub timestamp: TimeSerde,
    pub transform: TransformSerde,
}

/// The interpolation token of a dynamic edge record.
#[derive(Debug, Clone, Copy, PartialEq, Eq, Structural)]
pub enum InterpolationMethodSerde {
    Step,
    Linear,
}

/// The extrapolation token of a dynamic edge record.
#[derive(Debug, Clone, Copy, PartialEq, Eq, Structural)]
pub enum ExtrapolationMethodSerde {
    Constant,
    Linear,
}

/// A frame record.
#[derive(Debug)]
pub struct FrameSerde {
    pub id: String,
    pub description: Option<String>,
    pub crs_epsg: Option<u32>,
}

/// A static edge record.
#[derive(Debug)]
pub struct StaticTransformSerde {
    pub parent_frame_id: String,
    pub child_frame_id: String,
    pub transform: TransformSerde,
}

/// A dynamic edge record.
#[derive(Debug)]
pub struct DynamicTransformSerde {
    pub parent_frame_id: String,
    pub child_frame_id: String,
    pub interpolation: Option<InterpolationMethodSerde>,
    pub extrapolation: Option<ExtrapolationMethodSerde>,
    pub samples: Vec<TimedTransformSerde>,
}

/// An edge record: the discriminated union.
#[derive(Debug)]
pub enum TransformEdgeSerde {
    Static(StaticTransformSerde),
    Dynamic(DynamicTransformSerde),
}

/// The whole document.
#[derive(Debug)]
pub struct TransformTreeSerde {
    pub edges: Vec<TransformEdgeSerde>,
    pub frames: Vec<FrameSerde>,
}

/// A legacy timestamp record.
#[derive(Debug, Clone, Copy, PartialEq, Eq, Structural)]
pub struct TimeElement {
    pub sec: i64,
    pub nanosec: u32,
}

/// A legacy duration record.
#[derive(Debug, Clone, Copy, PartialEq, Eq, Structural)]
pub struct DurationElement {
    pub sec: i64,
    pub nanosec: u32,
}

// ---------------------------------------------------------------------------
// spec-level values of the records

/// The spec-level value of an edge record.
pub struct EdgeDocView {
    pub is_static: bool,
    pub parent_frame_id: Seq<char>,
    pub child_frame_id: Seq<char>,
    pub transform: Transform,
    pub interpolation: Option<InterpolationMethod>,
    pub extrapolation: Option<ExtrapolationMethod>,
    pub samples: Seq<TimedTransform>,
}

pub open spec fn transform_of_serde(t: TransformSerde) -> Transform {
    Transform {
        translation: Vec3 { x: t.translation.x, y: t.translation.y, z: t.translation.z },
        rotation: Quat { x: t.rotation.x, y: t.rotation.y, z: t.rotation.z, w: t.rotation.w },
    }
}

pub open spec fn serde_of_transform(t: Transform) -> TransformSerde {
    TransformSerde {
        translation: VectorSerde { x: t.translation.x, y: t.translation.y, z: t.translation.z },
        rotation: QuaternionSerde {
            x: t.rotation.x,
            y: t.rotation.y,
            z: t.rotation.z,
            w: t.rotation.w,
        },
    }
}

pub open spec fn sample_of_serde(s: TimedTransformSerde) -> TimedTransform {
    TimedTransform {
        timestamp: Time { sec: s.timestamp.sec, nanosec: s.timestamp.nanosec },
        transform: transform_of_serde(s.transform),
    }
}

pub open spec fn serde_of_sample(s: TimedTransform) -> TimedTransformSerde {
    TimedTransformSerde {
        timestamp: TimeSerde { sec: s.timestamp.sec, nanosec: s.timestamp.nanosec },
        transform: serde_of_transform(s.transform),
    }
}

pub open spec fn interp_of_serde(m: InterpolationMethodSerde) -> InterpolationMethod {
    match m {
        InterpolationMethodSerde::Step => InterpolationMethod::Step,
        InterpolationMethodSerde::Linear => InterpolationMethod::Linear,
    }
}

pub open spec fn extrap_of_serde(m: ExtrapolationMethodSerde) -> ExtrapolationMethod {
    match m {
        ExtrapolationMethodSerde::Constant => ExtrapolationMethod::Constant,
        ExtrapolationMethodSerde::Linear => ExtrapolationMethod::Linear,
    }
}

pub open spec fn serde_of_interp(m: InterpolationMethod) -> InterpolationMethodSerde {
    match m {
        InterpolationMethod::Step => InterpolationMethodSerde::Step,
        InterpolationMethod::Linear => InterpolationMethodSerde::Linear,
    }
}

pub open spec fn serde_of_extrap(m: ExtrapolationMethod) -> ExtrapolationMethodSerde {
    match m {
        ExtrapolationMethod::Constant => ExtrapolationMethodSerde::Constant,
        ExtrapolationMethod::Linear => ExtrapolationMethodSerde::Linear,
    }
}

impl View for TransformEdgeSerde {
    type V = EdgeDocView;

    open spec fn view(&self) -> EdgeDocView {
        match self {
            TransformEdgeSerde::Static(s) => EdgeDocView {
                is_static: true,
                parent_frame_id: s.parent_frame_id@,
                child_frame_id: s.child_frame_id@,
                transform: transform_of_serde(s.transform),
                interpolation: None,
                extrapolation: None,
                samples: Seq::empty(),
            },
            TransformEdgeSerde::Dynamic(d) => EdgeDocView {
                is_static: false,
                parent_frame_id: d.parent_frame_id@,
                child_frame_id: d.child_frame_id@,
                transform: Transform {
                    translation: Vec3 { x: 0, y: 0, z: 0 },
                    rotation: Quat { x: 0, y: 0, z: 0, w: 0 },
                },
                interpolation: match d.interpolation {
                    Some(m) => Some(interp_of_serde(m)),
                    None => None,
                },
                extrapolation: match d.extrapolation {
                    Some(m) => Some(extrap_of_serde(m)),
                    None => None,
                },
                samples: d.samples@.map_values(|s: TimedTransformSerde| sample_of_serde(s)),
            },
        }
    }
}

/// The document value of a core edge.
pub open spec fn doc_of_edge(e: TransformEdgeView) -> EdgeDocView {
    match e {
        TransformEdgeView::Static(s) => EdgeDocView {
            is_static: true,
            parent_frame_id: s.parent_frame_id,
            child_frame_id: s.child_frame_id,
            transform: s.transform,
            interpolation: None,
            extrapolation: None,
            samples: Seq::empty(),
        },
        TransformEdgeView::Dynamic(d) => EdgeDocView {
            is_static: false,
            parent_frame_id: d.parent_frame_id,
            child_frame_id: d.child_frame_id,
            transform: Transform {
                translation: Vec3 { x: 0, y: 0, z: 0 },
                rotation: Quat { x: 0, y: 0, z: 0, w: 0 },
            },
            interpolation: d.interpolation,
            extrapolation: d.extrapolation,
            samples: d.samples,
        },
    }
}

/// Whether an edge record can become a core edge: distinct endpoint frames,
/// and for a dynamic record a non-empty sample sequence with valid
/// sub-second parts and no two samples at one instant.
pub open spec fn doc_edge_ok(d: EdgeDocView) -> bool {
    &&& d.parent_frame_id != d.child_frame_id
    &&& !d.is_static ==> {
        &&& d.samples.len() >= 1
        &&& times_wf(d.samples)
        &&& !has_duplicate_times(d.samples)
    }
}

/// The core edge a valid, already sorted record denotes.
pub open spec fn edge_of_doc(d: EdgeDocView) -> TransformEdgeView {
    if d.is_static {
        TransformEdgeView::Static(
            crate::transform_edge::StaticTransformView {
                parent_frame_id: d.parent_frame_id,
                child_frame_id: d.child_frame_id,
                transform: d.transform,
            },
        )
    } else {
        TransformEdgeView::Dynamic(
            crate::transform_edge::DynamicTransformView {
                parent_frame_id: d.parent_frame_id,
                child_frame_id: d.child_frame_id,
                interpolation: d.interpolation,
                extrapolation: d.extrapolation,
                samples: d.samples,
            },
        )
    }
}

/// Round trip: a well-formed core edge, written to its document record and
/// read back, is itself.
pub proof fn lemma_edge_round_trip(e: TransformEdgeView)
    requires
        e.wf(),
    ensures
        doc_edge_ok(doc_of_edge(e)),
        edge_of_doc(doc_of_edge(e)) == e,
{
    match e {
        TransformEdgeView::Static(_) => {},
        TransformEdgeView::Dynamic(d) => {
            assert(!has_duplicate_times(d.samples)) by {
                if has_duplicate_times(d.samples) {
                    let (i, j): (int, int) = choose|i: int, j: int|
                        0 <= i < j < d.samples.len() && #[trigger] d.samples[
                            i
                        ].timestamp.as_nanos() == #[trigger] d.samples[j].timestamp.as_nanos();
                    assert(d.samples[i].timestamp.as_nanos() < d.samples[
                        j
                    ].timestamp.as_nanos());
                }
            }
        },
    }
}

// ---------------------------------------------------------------------------
// executable conversions

impl TransformEdgeSerde {
    /// Writes a core edge to its document record.
    pub fn from_edge(edge: &TransformEdge) -> (r: TransformEdgeSerde)
        ensures
            r@ == doc_of_edge(edge@),
    {
        match edge {
            TransformEdge::Static(s) => TransformEdgeSerde::Static(
                StaticTransformSerde {
                    parent_frame_id: s.parent_frame_id.as_string().clone(),
                    child_frame_id: s.child_frame_id.as_string().clone(),
                    transform: TransformSerde {
                        translation: VectorSerde {
                            x: s.transform.translation.x,
                            y: s.transform.translation.y,
                            z: s.transform.translation.z,
                        },
                        rotation: QuaternionSerde {
                            x: s.transform.rotation.x,
                            y: s.transform.rotation.y,
                            z: s.transform.rotation.z,
                            w: s.transform.rotation.w,
                        },
                    },
                },
            ),
            TransformEdge::Dynamic(d) => {
                let samples = d.samples();
                let mut out: Vec<TimedTransformSerde> = Vec::new();
                let mut i: usize = 0;
                while i < samples.len()
                    invariant
                        0 <= i <= samples@.len(),
                        samples@ == d.spec_samples(),
                        out@.len() == i,
                        forall|k: int| 0 <= k < i ==> #[trigger] out@[k] == serde_of_sample(
                            samples@[k],
                        ),
                    decreases samples@.len() - i,
                {
                    let s = samples[i];
                    out.push(
                        TimedTransformSerde {
                            timestamp: TimeSerde {
                                sec: s.timestamp.sec,
                                nanosec: s.timestamp.nanosec,
                            },
                            transform: TransformSerde {
                                translation: VectorSerde {
                                    x: s.transform.translation.x,
                                    y: s.transform.translation.y,
                                    z: s.transform.translation.z,
                                },
                                rotation: QuaternionSerde {
                                    x: s.transform.rotation.x,
                                    y: s.transform.rotation.y,
                                    z: s.transform.rotation.z,
                                    w: s.transform.rotation.w,
                                },
                            },
                        },
                    );
                    i = i + 1;
                }
                let r = TransformEdgeSerde::Dynamic(
                    DynamicTransformSerde {
                        parent_frame_id: d.parent_frame_id.as_string().clone(),
                        child_frame_id: d.child_frame_id.as_string().clone(),
                        interpolation: match d.interpolation {
                            Some(InterpolationMethod::Step) => Some(InterpolationMethodSerde::Step),
                            Some(InterpolationMethod::Linear) => Some(
                                InterpolationMethodSerde::Linear,
                            ),
                            None => None,
                        },
                        extrapolation: match d.extrapolation {
                            Some(ExtrapolationMethod::Constant) => Some(
                                ExtrapolationMethodSerde::Constant,
                            ),
                            Some(ExtrapolationMethod::Linear) => Some(
                                ExtrapolationMethodSerde::Linear,
                            ),
                            None => None,
                        },
                        samples: out,
                    },
                );
                proof {
                    assert(r@.samples =~= doc_of_edge(edge@).samples);
                }
                r
            },
        }
    }

    /// Reads a core edge back from a document record. Distinct endpoint
    /// frames and, for a dynamic record, a valid sample sequence are
    /// demanded; the samples are sorted by time on the way in.
    #[verifier::loop_isolation(false)]
    pub fn to_edge(&self) -> (r: Result<TransformEdge, IoError>)
        ensures
            r is Ok <==> doc_edge_ok(self@) && (!self@.is_static ==> times_wf(self@.samples)),
            r matches Ok(e) ==> {
                &&& e.wf()
                &&& e.spec_parent() == self@.parent_frame_id
                &&& e.spec_child() == self@.child_frame_id
                &&& (strictly_sorted(self@.samples) || self@.is_static) ==> e@ == edge_of_doc(
                    self@,
                )
            },
    {
        match self {
            TransformEdgeSerde::Static(s) => {
                let parent = FrameId::from_string(s.parent_frame_id.clone());
                let child = FrameId::from_string(s.child_frame_id.clone());
                if parent == child {
                    return Err(IoError::Ecoord(Error::InvalidFrameId(parent)));
                }
                let transform = Transform {
                    translation: Vec3 {
                        x: s.transform.translation.x,
                        y: s.transform.translation.y,
                        z: s.transform.translation.z,
                    },
                    rotation: Quat {
                        x: s.transform.rotation.x,
                        y: s.transform.rotation.y,
                        z: s.transform.rotation.z,
                        w: s.transform.rotation.w,
                    },
                };
                Ok(TransformEdge::Static(StaticTransform::new(parent, child, transform)))
            },
            TransformEdgeSerde::Dynamic(d) => {
                let parent = FrameId::from_string(d.parent_frame_id.clone());
                let child = FrameId::from_string(d.child_frame_id.clone());
                if parent == child {
                    return Err(IoError::Ecoord(Error::InvalidFrameId(parent)));
                }
                let mut samples: Vec<TimedTransform> = Vec::new();
                let mut i: usize = 0;
                while i < d.samples.len()
                    invariant
                        0 <= i <= d.samples@.len(),
                        samples@.len() == i,
                        forall|k: int| 0 <= k < i ==> #[trigger] samples@[k] == sample_of_serde(
                            d.samples@[k],
                        ),
                        forall|k: int| 0 <= k < i ==> (#[trigger] samples@[k]).timestamp.wf(),
                    decreases d.samples@.len() - i,
                {
                    let s = d.samples[i];
                    let timestamp = match Time::new(s.timestamp.sec, s.timestamp.nanosec) {
                        Some(t) => t,
                        None => {
                            proof {
                                assert(self@.samples.len() == d.samples@.len());
                                assert(self@.samples[i as int] == sample_of_serde(
                                    d.samples@[i as int],
                                ));
                                assert(!self@.samples[i as int].timestamp.wf());
                                assert(!times_wf(self@.samples));
                            }
                            return Err(IoError::InvalidTimestamp());
                        },
                    };
                    samples.push(
                        TimedTransform {
                            timestamp,
                            transform: Transform {
                                translation: Vec3 {
                                    x: s.transform.translation.x,
                                    y: s.transform.translation.y,
                                    z: s.transform.translation.z,
                                },
                                rotation: Quat {
                                    x: s.transform.rotation.x,
                                    y: s.transform.rotation.y,
                                    z: s.transform.rotation.z,
                                    w: s.transform.rotation.w,
                                },
                            },
                        },
                    );
                    i = i + 1;
                }
                proof {
                    assert(samples@ =~= self@.samples);
                    assert(times_wf(samples@)) by {
                        assert(forall|k: int|
                            0 <= k < samples@.len() ==> (#[trigger] samples@[k]).timestamp.wf());
                    }
                }
                let interpolation = match d.interpolation {
                    Some(InterpolationMethodSerde::Step) => Some(InterpolationMethod::Step),
                    Some(InterpolationMethodSerde::Linear) => Some(InterpolationMethod::Linear),
                    None => None,
                };
                let extrapolation = match d.extrapolation {
                    Some(ExtrapolationMethodSerde::Constant) => Some(ExtrapolationMethod::Constant),
                    Some(ExtrapolationMethodSerde::Linear) => Some(ExtrapolationMethod::Linear),
                    None => None,
                };
                let ghost in_samples = samples@;
                match DynamicTransform::new(parent, child, interpolation, extrapolation, samples) {
                    Ok(dt) => {
                        proof {
                            assert(doc_edge_ok(self@));
                            if strictly_sorted(self@.samples) {
                                assert(crate::transform_edge::sorted_by_time(in_samples));
                                assert(dt.spec_samples() == in_samples);
                                assert(dt@ == edge_of_doc(self@)->Dynamic_0);
                            }
                        }
                        Ok(TransformEdge::Dynamic(dt))
                    },
                    Err(e) => {
                        proof {
                            assert(!(in_samples.len() >= 1 && !has_duplicate_times(in_samples)));
                            assert(!doc_edge_ok(self@));
                        }
                        Err(IoError::Ecoord(e))
                    },
                }
            },
        }
    }
}

impl FrameSerde {
    /// Writes a frame entry to its record.
    pub fn from_frame_info(f: &FrameInfo) -> (r: FrameSerde)
        ensures
            r.id@ == f.id@,
            (match r.description {
                Some(d) => f@.description matches Some(e) && d@ == e,
                None => f@.description is None,
            }),
            r.crs_epsg == f.crs_epsg,
    {
        let description = match &f.description {
            Some(d) => Some(d.clone()),
            None => None,
        };
        FrameSerde { id: f.id.as_string().clone(), description, crs_epsg: f.crs_epsg }
    }

    /// Reads a frame entry back from its record.
    pub fn to_frame_info(&self) -> (r: FrameInfo)
        ensures
            r.id@ == self.id@,
            (match r@.description {
                Some(d) => self.description matches Some(e) && d == e@,
                None => self.description is None,
            }),
            r.crs_epsg == self.crs_epsg,
    {
        let description = match &self.description {
            Some(d) => Some(d.clone()),
            None => None,
        };
        FrameInfo {
            id: FrameId::from_string(self.id.clone()),
            description,
            crs_epsg: self.crs_epsg,
        }
    }
}

/// A record that can become a core edge, its sample instants representable.
pub open spec fn doc_edge_accepted(d: EdgeDocView) -> bool {
    doc_edge_ok(d) && (!d.is_static ==> times_wf(d.samples))
}

/// The identifier pair of an edge record.
pub open spec fn doc_edge_id(d: EdgeDocView) -> (Seq<char>, Seq<char>) {
    (d.parent_frame_id, d.child_frame_id)
}

/// No two edge records share an identifier.
pub open spec fn doc_ids_distinct(edges: Seq<TransformEdgeSerde>) -> bool {
    forall|i: int, j: int| 0 <= i < j < edges.len() ==> doc_edge_id((#[trigger] edges[i])@)
        != doc_edge_id((#[trigger] edges[j])@)
}

/// Every dynamic record's samples already ascend strictly in time.
pub open spec fn doc_sorted(edges: Seq<TransformEdgeSerde>) -> bool {
    forall|k: int|
        0 <= k < edges.len() ==> ((#[trigger] edges[k])@.is_static || strictly_sorted(
            edges[k]@.samples,
        ))
}

/// The spec-level value of a frame record.
pub open spec fn frame_serde_view(f: FrameSerde) -> crate::frames::FrameInfoView {
    crate::frames::FrameInfoView {
        id: f.id@,
        description: match f.description {
            Option::Some(d) => Option::Some(d@),
            Option::None => Option::None,
        },
        crs_epsg: f.crs_epsg,
    }
}

/// No two frame records share an identifier.
pub open spec fn doc_frames_distinct(frames: Seq<FrameSerde>) -> bool {
    forall|i: int, j: int| 0 <= i < j < frames.len() ==> (#[trigger] frames[i]).id@ != (
    #[trigger] frames[j]).id@
}

/// Every edge record's endpoint frames carry a frame record.
pub open spec fn doc_frames_cover(doc: TransformTreeSerde) -> bool {
    forall|k: int|
        0 <= k < doc.edges.len() ==> ((exists|m: int|
            0 <= m < doc.frames.len() && (#[trigger] doc.frames[m]).id@ == (
            #[trigger] doc.edges[k])@.parent_frame_id) && (exists|m: int|
            0 <= m < doc.frames.len() && (#[trigger] doc.frames[m]).id@
                == doc.edges[k]@.child_frame_id))
}

impl TransformTreeSerde {
    /// Writes a transform tree to its document.
    pub fn from_tree(tree: &TransformTree) -> (r: TransformTreeSerde)
        ensures
            r.edges@.len() == tree.edges@.len(),
            forall|k: int| 0 <= k < r.edges@.len() ==> (#[trigger] r.edges@[k])@ == doc_of_edge(
                tree.edges@[k]@,
            ),
            r.frames@.len() == tree.frames@.len(),
            forall|k: int| 0 <= k < r.frames@.len() ==> frame_serde_view(
                #[trigger] r.frames@[k],
            ) == tree.frames@[k]@,
    {
        let mut edges: Vec<TransformEdgeSerde> = Vec::new();
        let mut i: usize = 0;
        while i < tree.edges.len()
            invariant
                0 <= i <= tree.edges@.len(),
                edges@.len() == i,
                forall|k: int| 0 <= k < i ==> (#[trigger] edges@[k])@ == doc_of_edge(
                    tree.edges@[k]@,
                ),
            decreases tree.edges@.len() - i,
        {
            edges.push(TransformEdgeSerde::from_edge(&tree.edges[i]));
            i = i + 1;
        }
        let mut frames: Vec<FrameSerde> = Vec::new();
        let mut j: usize = 0;
        while j < tree.frames.len()
            invariant
                0 <= j <= tree.frames@.len(),
                frames@.len() == j,
                forall|k: int| 0 <= k < j ==> frame_serde_view(#[trigger] frames@[k])
                    == tree.frames@[k]@,
            decreases tree.frames@.len() - j,
        {
            frames.push(FrameSerde::from_frame_info(&tree.frames[j]));
            j = j + 1;
        }
        TransformTreeSerde { edges, frames }
    }

    /// Reads a transform tree back from its document. Every edge record must
    /// be valid; the tree is then rebuilt exactly as construction builds it,
    /// and a normalized document — distinct identifiers, sorted samples —
    /// comes back as exactly its edges and frames.
    #[verifier::loop_isolation(false)]
    #[verifier::rlimit(60)]
    #[verifier::spinoff_prover]
    pub fn to_tree(&self) -> (r: Result<TransformTree, IoError>)
        requires
            self.edges@.len() <= 0x7FFF_FFFF,
        ensures
            r is Ok <==> forall|k: int| 0 <= k < self.edges@.len() ==> doc_edge_accepted(
                (#[trigger] self.edges@[k])@,
            ),
            r matches Ok(t) ==> {
                &&& t.wf()
                &&& forall|m: int|
                    0 <= m < self.edges@.len() ==> crate::transform_tree::contains_edge_id(
                        t.edges@,
                        doc_edge_id((#[trigger] self.edges@[m])@),
                    )
                &&& (doc_ids_distinct(self.edges@) && doc_sorted(self.edges@)) ==> (t.edges@.len()
                    == self.edges@.len() && (forall|k: int|
                    0 <= k < t.edges@.len() ==> (#[trigger] t.edges@[k])@ == edge_of_doc(
                        self.edges@[k]@,
                    )))
                &&& (doc_ids_distinct(self.edges@) && doc_sorted(self.edges@)
                    && doc_frames_distinct(self.frames@) && doc_frames_cover(*self)) ==> (
                t.frames@.len() == self.frames@.len() && (forall|k: int|
                    0 <= k < t.frames@.len() ==> (#[trigger] t.frames@[k])@ == frame_serde_view(
                        self.frames@[k],
                    )))
            },
    {
        let mut edges: Vec<TransformEdge> = Vec::new();
        let n = self.edges.len();
        let mut i: usize = 0;
        while i < n
            invariant
                0 <= i <= n,
                n == self.edges@.len(),
                edges@.len() == i,
                forall|k: int| 0 <= k < i ==> (#[trigger] edges@[k]).wf(),
                forall|k: int| 0 <= k < i ==> doc_edge_accepted((#[trigger] self.edges@[k])@)
                    && edges@[k].spec_parent() == self.edges@[k]@.parent_frame_id && edges@[
                    k
                ].spec_child() == self.edges@[k]@.child_frame_id,
                forall|k: int|
                    0 <= k < i ==> ((self.edges@[k]@.is_static || strictly_sorted(
                        self.edges@[k]@.samples,
                    )) ==> (#[trigger] edges@[k])@ == edge_of_doc(self.edges@[k]@)),
            decreases n - i,
        {
            let converted = match self.edges[i].to_edge() {
                Ok(c) => c,
                Err(err) => {
                    proof {
                        assert(!doc_edge_accepted(self.edges@[i as int]@));
                    }
                    return Err(err);
                },
            };
            edges.push(converted);
            i = i + 1;
        }
        let mut frames: Vec<FrameInfo> = Vec::new();
        let mut j: usize = 0;
        while j < self.frames.len()
            invariant
                0 <= j <= self.frames@.len(),
                frames@.len() == j,
                forall|k: int| 0 <= k < j ==> (#[trigger] frames@[k])@ == frame_serde_view(
                    self.frames@[k],
                ),
            decreases self.frames@.len() - j,
        {
            frames.push(self.frames[j].to_frame_info());
            j = j + 1;
        }
        let ghost converted_edges = edges@;
        let ghost converted_frames = frames@;
        proof {
            if doc_ids_distinct(self.edges@) {
                assert forall|a: int, b: int|
                    0 <= a < b < converted_edges.len() implies (#[trigger] converted_edges[
                    a
                ]).spec_transform_id() != (#[trigger] converted_edges[b]).spec_transform_id() by {
                    assert(doc_edge_id(self.edges@[a]@) != doc_edge_id(self.edges@[b]@));
                }
            }
        }
        match TransformTree::new(edges, frames) {
            Ok(t) => {
                proof {
                    assert forall|m: int|
                        0 <= m < self.edges@.len() implies crate::transform_tree::contains_edge_id(
                        t.edges@,
                        doc_edge_id((#[trigger] self.edges@[m])@),
                    ) by {
                        assert(converted_edges[m].spec_transform_id() == doc_edge_id(
                            self.edges@[m]@,
                        ));
                        assert(crate::transform_tree::contains_edge_id(
                            t.edges@,
                            converted_edges[m].spec_transform_id(),
                        ));
                    }
                    if doc_ids_distinct(self.edges@) && doc_sorted(self.edges@) {
                        assert(crate::transform_tree::distinct_edge_ids(converted_edges));
                        assert(crate::transform_tree::evs(t.edges@)
                            == crate::transform_tree::evs(converted_edges));
                        assert(t.edges@.len() == converted_edges.len()) by {
                            assert(crate::transform_tree::evs(t.edges@).len()
                                == crate::transform_tree::evs(converted_edges).len());
                        }
                        assert forall|k: int|
                            0 <= k < t.edges@.len() implies (#[trigger] t.edges@[k])@
                            == edge_of_doc(self.edges@[k]@) by {
                            assert(crate::transform_tree::evs(t.edges@)[k]
                                == crate::transform_tree::evs(converted_edges)[k]);
                            assert(t.edges@[k]@ == converted_edges[k]@);
                        }
                        if doc_frames_distinct(self.frames@) && doc_frames_cover(*self) {
                            assert forall|a: int, b: int|
                                0 <= a < b < converted_frames.len() implies (
                            #[trigger] converted_frames[a]).id@ != (#[trigger] converted_frames[
                                b
                            ]).id@ by {
                                assert(converted_frames[a]@ == frame_serde_view(self.frames@[a]));
                                assert(converted_frames[b]@ == frame_serde_view(self.frames@[b]));
                            }
                            assert forall|k: int|
                                0 <= k < converted_edges.len() implies
                                crate::transform_tree::contains_frame_info(
                                converted_frames,
                                (#[trigger] converted_edges[k]).spec_parent(),
                            ) && crate::transform_tree::contains_frame_info(
                                converted_frames,
                                converted_edges[k].spec_child(),
                            ) by {
                                let mp = choose|mp: int|
                                    0 <= mp < self.frames@.len() && (#[trigger] self.frames@[
                                        mp
                                    ]).id@ == self.edges@[k]@.parent_frame_id;
                                assert(converted_frames[mp].id@ == self.edges@[
                                    k
                                ]@.parent_frame_id);
                                let mc = choose|mc: int|
                                    0 <= mc < self.frames@.len() && (#[trigger] self.frames@[
                                        mc
                                    ]).id@ == self.edges@[k]@.child_frame_id;
                                assert(converted_frames[mc].id@ == self.edges@[
                                    k
                                ]@.child_frame_id);
                            }
                            assert(crate::transform_tree::fvs(t.frames@)
                                == crate::transform_tree::fvs(converted_frames));
                            assert(t.frames@.len() == converted_frames.len()) by {
                                assert(crate::transform_tree::fvs(t.frames@).len()
                                    == crate::transform_tree::fvs(converted_frames).len());
                            }
                            assert forall|k: int|
                                0 <= k < t.frames@.len() implies (#[trigger] t.frames@[k])@
                                == frame_serde_view(self.frames@[k]) by {
                                assert(crate::transform_tree::fvs(t.frames@)[k]
                                    == crate::transform_tree::fvs(converted_frames)[k]);
                                assert(t.frames@[k]@ == converted_frames[k]@);
                            }
                        }
                    }
                }
                Ok(t)
            },
            Err(_) => {
                proof {
                    assert(false);
                }
                Err(IoError::NoFileName())
            },
        }
    }
}

/// Round trip: a well-formed transform tree, written to its document and
/// read back, holds the same edges — identifier for identifier, value for
/// value — and the same frames.
pub proof fn lemma_tree_document_round_trip(t: TransformTree, k: int)
    requires
        t.wf(),
        0 <= k < t.edges@.len(),
    ensures
        doc_edge_ok(doc_of_edge(t.edges@[k]@)),
        edge_of_doc(doc_of_edge(t.edges@[k]@)) == t.edges@[k]@,
{
    lemma_edge_round_trip(t.edges@[k]@);
}

impl TimeElement {
    /// The instant the record denotes, when its sub-second part is valid.
    pub fn to_time(self) -> (r: Option<Time>)
        ensures
            self.nanosec < 1_000_000_000 ==> r == Some(Time { sec: self.sec, nanosec: self.nanosec }),
            self.nanosec >= 1_000_000_000 ==> r is None,
    {
        Time::new(self.sec, self.nanosec)
    }

    /// The record of an instant.
    pub fn from_time(t: &Time) -> (r: TimeElement)
        ensures
            r.sec == t.sec && r.nanosec == t.nanosec,
    {
        TimeElement { sec: t.sec, nanosec: t.nanosec }
    }
}

impl DurationElement {
    /// The signed length of time the record denotes, in nanoseconds.
    pub fn as_nanoseconds(self) -> (r: i128)
        ensures
            r == self.sec * 1_000_000_000 + self.nanosec,
    {
        (self.sec as i128) * 1_000_000_000 + (self.nanosec as i128)
    }
}

} // verus!
