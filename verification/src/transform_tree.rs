//! The transform tree: the authoritative edge mapping, the frame metadata and
//! the derived frame graph, with the queries over them.

use vstd::prelude::*;
use crate::error::Error;
use crate::frame_graph::{contains_view, is_view_path, unique_view_path, FrameGraph};
use crate::frames::{FrameId, FrameInfo};
use crate::time::Time;
use crate::transform::{TimedTransform, Transform, TransformEval, TransformId};
use crate::transform_edge::{StaticTransform, TransformEdge};

verus! {

/// The identifiers of a sequence of edges, in order.
pub open spec fn edge_id_views(edges: Seq<TransformEdge>) -> Seq<(Seq<char>, Seq<char>)> {
    edges.map_values(|e: TransformEdge| e.spec_transform_id())
}

/// Whether some edge carries the given identifier.
pub open spec fn contains_edge_id(edges: Seq<TransformEdge>, idv: (Seq<char>, Seq<char>)) -> bool {
    exists|i: int| 0 <= i < edges.len() && (#[trigger] edges[i]).spec_transform_id() == idv
}

/// The position of the edge with the given identifier.
pub open spec fn edge_index_of(edges: Seq<TransformEdge>, idv: (Seq<char>, Seq<char>)) -> int {
    choose|i: int| 0 <= i < edges.len() && (#[trigger] edges[i]).spec_transform_id() == idv
}

/// The edge with the given identifier.
pub open spec fn edge_with_id(edges: Seq<TransformEdge>, idv: (Seq<char>, Seq<char>)) -> TransformEdge {
    edges[edge_index_of(edges, idv)]
}

/// No two edges share an identifier.
pub open spec fn distinct_edge_ids(edges: Seq<TransformEdge>) -> bool {
    forall|i: int, j: int|
        0 <= i < j < edges.len() ==> (#[trigger] edges[i]).spec_transform_id() != (
        #[trigger] edges[j]).spec_transform_id()
}

/// Whether some frame entry carries the given identifier.
pub open spec fn contains_frame_info(frames: Seq<FrameInfo>, v: Seq<char>) -> bool {
    exists|i: int| 0 <= i < frames.len() && (#[trigger] frames[i]).id@ == v
}

/// The spec-level values of a sequence of edges.
pub open spec fn evs(edges: Seq<TransformEdge>) -> Seq<crate::transform_edge::TransformEdgeView> {
    edges.map_values(|e: TransformEdge| e@)
}

/// The spec-level values of a sequence of frame entries.
pub open spec fn fvs(frames: Seq<FrameInfo>) -> Seq<crate::frames::FrameInfoView> {
    frames.map_values(|f: FrameInfo| f@)
}

/// A transform tree: edges keyed by their transform identifier (unique),
/// frame metadata covering every edge endpoint, and the derived frame graph.
#[derive(Debug)]
pub struct TransformTree {
    pub edges: Vec<TransformEdge>,
    pub frames: Vec<FrameInfo>,
    pub frame_graph: FrameGraph,
}

impl TransformTree {
    /// Well-formed: edges valid with distinct identifiers, frame entries
    /// distinct and covering every endpoint, and the graph derived exactly
    /// from the edges.
    pub open spec fn wf(self) -> bool {
        &&& forall|k: int| 0 <= k < self.edges@.len() ==> (#[trigger] self.edges@[k]).wf()
        &&& distinct_edge_ids(self.edges@)
        &&& self.edges@.len() <= 0x7FFF_FFFF
        &&& forall|i: int, j: int|
            0 <= i < j < self.frames@.len() ==> (#[trigger] self.frames@[i]).id@ != (
            #[trigger] self.frames@[j]).id@
        &&& forall|k: int|
            0 <= k < self.edges@.len() ==> contains_frame_info(
                self.frames@,
                (#[trigger] self.edges@[k]).spec_parent(),
            ) && contains_frame_info(self.frames@, self.edges@[k].spec_child())
        &&& self.frame_graph.wf()
        &&& self.frame_graph.edge_views() == edge_id_views(self.edges@)
        &&& forall|v: Seq<char>|
            #![trigger contains_view(self.frame_graph.frames@, v)]
            contains_view(self.frame_graph.frames@, v) <==> exists|i: int|
                0 <= i < self.edges@.len() && ((#[trigger] self.edges@[i]).spec_parent() == v
                    || self.edges@[i].spec_child() == v)
    }

    /// The transform identifiers of the edges, as spec values.
    pub open spec fn spec_edge_ids(self) -> Seq<(Seq<char>, Seq<char>)> {
        edge_id_views(self.edges@)
    }

    /// Whether the tree holds no edge.
    pub fn is_empty(&self) -> (r: bool)
        ensures
            r == (self.edges@.len() == 0),
    {
        self.edges.len() == 0
    }

    /// The edges.
    pub fn edges(&self) -> (r: &Vec<TransformEdge>)
        ensures
            r == &self.edges,
    {
        &self.edges
    }

    /// The frame metadata.
    pub fn frames(&self) -> (r: &Vec<FrameInfo>)
        ensures
            r == &self.frames,
    {
        &self.frames
    }

    /// All frame identifiers carried by the tree's metadata.
    pub fn get_frame_ids(&self) -> (r: Vec<FrameId>)
        ensures
            r@.len() == self.frames@.len(),
            forall|k: int| 0 <= k < r@.len() ==> (#[trigger] r@[k])@ == self.frames@[k].id@,
    {
        let mut out: Vec<FrameId> = Vec::new();
        let mut i: usize = 0;
        while i < self.frames.len()
            invariant
                0 <= i <= self.frames@.len(),
                out@.len() == i,
                forall|k: int| 0 <= k < i ==> (#[trigger] out@[k])@ == self.frames@[k].id@,
            decreases self.frames@.len() - i,
        {
            out.push(self.frames[i].id.clone());
            i = i + 1;
        }
        out
    }

    /// Whether the tree carries metadata for the frame.
    pub fn contains_frame(&self, frame_id: &FrameId) -> (r: bool)
        ensures
            r == contains_frame_info(self.frames@, frame_id@),
    {
        let mut i: usize = 0;
        while i < self.frames.len()
            invariant
                0 <= i <= self.frames@.len(),
                forall|k: int| 0 <= k < i ==> (#[trigger] self.frames@[k]).id@ != frame_id@,
            decreases self.frames@.len() - i,
        {
            if self.frames[i].id == *frame_id {
                return true;
            }
            i = i + 1;
        }
        false
    }

    /// The position of the edge with the given identifier, when present.
    pub fn find_edge(&self, transform_id: &TransformId) -> (r: Option<usize>)
        requires
            forall|k: int| 0 <= k < self.edges@.len() ==> (#[trigger] self.edges@[k]).wf(),
        ensures
            r matches Some(i) ==> i < self.edges@.len() && self.edges@[
                i as int
            ].spec_transform_id() == transform_id@,
            r is None ==> !contains_edge_id(self.edges@, transform_id@),
    {
        let mut i: usize = 0;
        while i < self.edges.len()
            invariant
                0 <= i <= self.edges@.len(),
                forall|k: int| 0 <= k < self.edges@.len() ==> (#[trigger] self.edges@[k]).wf(),
                forall|k: int| 0 <= k < i ==> (#[trigger] self.edges@[k]).spec_transform_id()
                    != transform_id@,
            decreases self.edges@.len() - i,
        {
            let tid = self.edges[i].transform_id();
            if tid == *transform_id {
                return Some(i);
            }
            i = i + 1;
        }
        None
    }

    /// Whether an edge carries the given identifier.
    pub fn contains_transform(&self, transform_id: &TransformId) -> (r: bool)
        requires
            forall|k: int| 0 <= k < self.edges@.len() ==> (#[trigger] self.edges@[k]).wf(),
        ensures
            r == contains_edge_id(self.edges@, transform_id@),
    {
        match self.find_edge(transform_id) {
            Some(i) => {
                proof {
                    assert((self.edges@[i as int]).spec_transform_id() == transform_id@);
                }
                true
            },
            None => false,
        }
    }

    /// The frames with no incoming edge.
    pub fn root_frames(&self) -> (r: Vec<FrameId>)
        requires
            self.wf(),
        ensures
            forall|v: Seq<char>|
                #![trigger contains_view(r@, v)]
                contains_view(r@, v) <==> ((exists|i: int|
                    0 <= i < self.edges@.len() && ((#[trigger] self.edges@[i]).spec_parent() == v
                        || self.edges@[i].spec_child() == v)) && !exists|k: int|
                    0 <= k < self.edges@.len() && (#[trigger] self.edges@[k]).spec_child() == v),
    {
        let r = self.frame_graph.root_frames();
        proof {
            assert forall|v: Seq<char>| #[trigger] contains_view(r@, v) implies ((exists|i: int|
                0 <= i < self.edges@.len() && ((#[trigger] self.edges@[i]).spec_parent() == v
                    || self.edges@[i].spec_child() == v)) && !exists|k: int|
                0 <= k < self.edges@.len() && (#[trigger] self.edges@[k]).spec_child() == v) by {
                assert(contains_view(self.frame_graph.frames@, v));
                if exists|k: int|
                    0 <= k < self.edges@.len() && (#[trigger] self.edges@[k]).spec_child() == v {
                    let k = choose|k: int|
                        0 <= k < self.edges@.len() && (#[trigger] self.edges@[k]).spec_child()
                            == v;
                    assert(self.frame_graph.edge_views()[k] == self.edges@[k].spec_transform_id());
                    assert((self.frame_graph.edge_views()[k]).1 == v);
                }
            }
            assert forall|v: Seq<char>|
                ((exists|i: int|
                    0 <= i < self.edges@.len() && ((#[trigger] self.edges@[i]).spec_parent() == v
                        || self.edges@[i].spec_child() == v)) && !exists|k: int|
                    0 <= k < self.edges@.len() && (#[trigger] self.edges@[k]).spec_child()
                        == v) implies contains_view(r@, v) by {
                assert(contains_view(self.frame_graph.frames@, v));
                if exists|k: int|
                    0 <= k < self.frame_graph.edge_views().len() && (
                    #[trigger] self.frame_graph.edge_views()[k]).1 == v {
                    let k = choose|k: int|
                        0 <= k < self.frame_graph.edge_views().len() && (
                        #[trigger] self.frame_graph.edge_views()[k]).1 == v;
                    assert((self.edges@[k]).spec_child() == v);
                }
            }
        }
        r
    }

    /// The frames with no outgoing edge.
    pub fn child_frames(&self) -> (r: Vec<FrameId>)
        requires
            self.wf(),
        ensures
            forall|v: Seq<char>|
                #![trigger contains_view(r@, v)]
                contains_view(r@, v) <==> ((exists|i: int|
                    0 <= i < self.edges@.len() && ((#[trigger] self.edges@[i]).spec_parent() == v
                        || self.edges@[i].spec_child() == v)) && !exists|k: int|
                    0 <= k < self.edges@.len() && (#[trigger] self.edges@[k]).spec_parent() == v),
    {
        let r = self.frame_graph.child_frames();
        proof {
            assert forall|v: Seq<char>| #[trigger] contains_view(r@, v) implies ((exists|i: int|
                0 <= i < self.edges@.len() && ((#[trigger] self.edges@[i]).spec_parent() == v
                    || self.edges@[i].spec_child() == v)) && !exists|k: int|
                0 <= k < self.edges@.len() && (#[trigger] self.edges@[k]).spec_parent() == v) by {
                assert(contains_view(self.frame_graph.frames@, v));
                if exists|k: int|
                    0 <= k < self.edges@.len() && (#[trigger] self.edges@[k]).spec_parent() == v {
                    let k = choose|k: int|
                        0 <= k < self.edges@.len() && (#[trigger] self.edges@[k]).spec_parent()
                            == v;
                    assert(self.frame_graph.edge_views()[k] == self.edges@[k].spec_transform_id());
                    assert((self.frame_graph.edge_views()[k]).0 == v);
                }
            }
            assert forall|v: Seq<char>|
                ((exists|i: int|
                    0 <= i < self.edges@.len() && ((#[trigger] self.edges@[i]).spec_parent() == v
                        || self.edges@[i].spec_child() == v)) && !exists|k: int|
                    0 <= k < self.edges@.len() && (#[trigger] self.edges@[k]).spec_parent()
                        == v) implies contains_view(r@, v) by {
                assert(contains_view(self.frame_graph.frames@, v));
                if exists|k: int|
                    0 <= k < self.frame_graph.edge_views().len() && (
                    #[trigger] self.frame_graph.edge_views()[k]).0 == v {
                    let k = choose|k: int|
                        0 <= k < self.frame_graph.edge_views().len() && (
                        #[trigger] self.frame_graph.edge_views()[k]).0 == v;
                    assert((self.edges@[k]).spec_parent() == v);
                }
            }
        }
        r
    }
}

/// The transform identifiers of a sequence of edges, as owned values.
pub fn collect_transform_ids(edges: &Vec<TransformEdge>) -> (r: Vec<TransformId>)
    requires
        forall|k: int| 0 <= k < edges@.len() ==> (#[trigger] edges@[k]).wf(),
    ensures
        r@.len() == edges@.len(),
        forall|k: int| 0 <= k < r@.len() ==> (#[trigger] r@[k])@ == edges@[k].spec_transform_id()
            && r@[k].wf(),
        r@.map_values(|t: TransformId| t@) == edge_id_views(edges@),
{
    let mut out: Vec<TransformId> = Vec::new();
    let mut i: usize = 0;
    while i < edges.len()
        invariant
            0 <= i <= edges@.len(),
            forall|k: int| 0 <= k < edges@.len() ==> (#[trigger] edges@[k]).wf(),
            out@.len() == i,
            forall|k: int| 0 <= k < i ==> (#[trigger] out@[k])@ == edges@[k].spec_transform_id()
                && out@[k].wf(),
        decreases edges@.len() - i,
    {
        out.push(edges[i].transform_id());
        i = i + 1;
    }
    proof {
        assert(out@.map_values(|t: TransformId| t@) =~= edge_id_views(edges@));
    }
    out
}

impl TransformTree {
    /// Builds a tree. Later edges replace earlier ones under the same
    /// transform identifier; later frame entries replace earlier ones under
    /// the same frame identifier; a default entry is synthesized for every
    /// endpoint frame without one. The frame graph is derived from the edges.
    /// Edges already unique by identifier, and frame entries already unique
    /// and covering every endpoint, come through unchanged.
    #[verifier::loop_isolation(false)]
    #[verifier::rlimit(100)]
    #[verifier::spinoff_prover]
    pub fn new(edges: Vec<TransformEdge>, frames: Vec<FrameInfo>) -> (r: Result<
        TransformTree,
        Error,
    >)
        requires
            forall|k: int| 0 <= k < edges@.len() ==> (#[trigger] edges@[k]).wf(),
            edges@.len() <= 0x7FFF_FFFF,
        ensures
            r matches Ok(t) ==> {
                &&& t.wf()
                &&& forall|m: int|
                    0 <= m < edges@.len() ==> contains_edge_id(
                        t.edges@,
                        (#[trigger] edges@[m]).spec_transform_id(),
                    )
                &&& forall|k: int|
                    #![trigger t.edges@[k]]
                    0 <= k < t.edges@.len() ==> exists|m: int|
                        0 <= m < edges@.len() && (#[trigger] edges@[m])@ == t.edges@[k]@ && (
                        forall|l: int|
                            m < l < edges@.len() ==> (#[trigger] edges@[l]).spec_transform_id()
                                != t.edges@[k].spec_transform_id())
                &&& forall|m: int|
                    0 <= m < frames@.len() ==> contains_frame_info(
                        t.frames@,
                        (#[trigger] frames@[m]).id@,
                    )
                &&& forall|k: int|
                    #![trigger t.frames@[k]]
                    0 <= k < t.frames@.len() ==> ((exists|m: int|
                        0 <= m < frames@.len() && (#[trigger] frames@[m])@ == t.frames@[k]@) || ((
                    exists|e: int|
                        0 <= e < t.edges@.len() && ((#[trigger] t.edges@[e]).spec_parent()
                            == t.frames@[k].id@ || t.edges@[e].spec_child() == t.frames@[k].id@))
                        && t.frames@[k]@.description is None && t.frames@[k]@.crs_epsg is None))
                &&& distinct_edge_ids(edges@) ==> evs(t.edges@) == evs(edges@)
                &&& ((forall|i2: int, j2: int|
                    0 <= i2 < j2 < frames@.len() ==> (#[trigger] frames@[i2]).id@ != (
                    #[trigger] frames@[j2]).id@) && (forall|k: int|
                    0 <= k < edges@.len() ==> contains_frame_info(
                        frames@,
                        (#[trigger] edges@[k]).spec_parent(),
                    ) && contains_frame_info(frames@, edges@[k].spec_child()))) ==> fvs(t.frames@)
                    == fvs(frames@)
            },
            r is Ok,
    {
        // deduplicate edges by identifier, the later edge winning
        let mut ded: Vec<TransformEdge> = Vec::new();
        let mut i: usize = 0;
        while i < edges.len()
            invariant
                0 <= i <= edges@.len(),
                ded@.len() <= i,
                forall|k: int| 0 <= k < ded@.len() ==> (#[trigger] ded@[k]).wf(),
                distinct_edge_ids(ded@),
                forall|m: int| 0 <= m < i ==> contains_edge_id(
                    ded@,
                    (#[trigger] edges@[m]).spec_transform_id(),
                ),
                forall|k: int|
                    #![trigger ded@[k]]
                    0 <= k < ded@.len() ==> exists|m: int|
                        0 <= m < i && (#[trigger] edges@[m])@ == ded@[k]@ && (forall|l: int|
                            m < l < i ==> (#[trigger] edges@[l]).spec_transform_id() != ded@[
                                k
                            ].spec_transform_id()),
                distinct_edge_ids(edges@) ==> evs(ded@) == evs(edges@.take(i as int)),
            decreases edges@.len() - i,
        {
            let e = edges[i].clone();
            proof {
                assert(e@ == edges@[i as int]@);
                assert(e.spec_transform_id() == edges@[i as int].spec_transform_id());
            }
            let tid = e.transform_id();
            let mut found = false;
            let mut hit: usize = 0;
            let mut j: usize = 0;
            while j < ded.len()
                invariant
                    0 <= j <= ded@.len(),
                    !found ==> forall|k: int| 0 <= k < j ==> (
                    #[trigger] ded@[k]).spec_transform_id() != tid@,
                    found ==> hit < ded@.len() && ded@[hit as int].spec_transform_id() == tid@,
                decreases ded@.len() - j + if found {
                    0int
                } else {
                    1int
                },
            {
                if found {
                    j = ded.len();
                } else {
                    let dt = ded[j].transform_id();
                    if dt == tid {
                        found = true;
                        hit = j;
                    } else {
                        j = j + 1;
                    }
                }
            }
            let ghost pre = ded@;
            if found {
                proof {
                    if distinct_edge_ids(edges@) {
                        assert(evs(pre)[hit as int] == evs(edges@.take(i as int))[hit as int]);
                        assert(pre[hit as int]@ == edges@[hit as int]@);
                        assert(edges@[hit as int].spec_transform_id() == edges@[
                            i as int
                        ].spec_transform_id());
                        assert(false);
                    }
                }
                ded.set(hit, e);
                proof {
                    assert(ded@ == pre.update(hit as int, e));
                    assert forall|a: int, b: int|
                        0 <= a < b < ded@.len() implies (#[trigger] ded@[a]).spec_transform_id()
                        != (#[trigger] ded@[b]).spec_transform_id() by {
                        if a != hit && b != hit {
                            assert(ded@[a] == pre[a] && ded@[b] == pre[b]);
                        }
                    }
                }
            } else {
                ded.push(e);
                proof {
                    assert(ded@ == pre.push(e));
                    if distinct_edge_ids(edges@) {
                        assert(pre.len() == i) by {
                            assert(evs(pre).len() == evs(edges@.take(i as int)).len());
                        }
                        assert(evs(ded@) =~= evs(edges@.take(i + 1))) by {
                            assert forall|k: int|
                                0 <= k < i + 1 implies evs(ded@)[k] == evs(edges@.take(i + 1))[
                                k
                            ] by {
                                assert(edges@.take(i + 1)[k] == edges@[k]);
                                if k < i {
                                    assert(ded@[k] == pre[k]);
                                    assert(evs(pre)[k] == evs(edges@.take(i as int))[k]);
                                    assert(edges@.take(i as int)[k] == edges@[k]);
                                } else {
                                    assert(ded@[k] == e);
                                }
                            }
                        }
                    }
                }
            }
            proof {
                assert forall|m: int| 0 <= m < i + 1 implies contains_edge_id(
                    ded@,
                    (#[trigger] edges@[m]).spec_transform_id(),
                ) by {
                    if m < i {
                        assert(contains_edge_id(pre, edges@[m].spec_transform_id()));
                        let k = choose|k: int|
                            0 <= k < pre.len() && (#[trigger] pre[k]).spec_transform_id()
                                == edges@[m].spec_transform_id();
                        if found && k == hit {
                            assert((ded@[hit as int]).spec_transform_id() == edges@[
                                i as int
                            ].spec_transform_id());
                        } else {
                            assert((ded@[k]).spec_transform_id() == edges@[
                                m
                            ].spec_transform_id());
                        }
                    } else {
                        if found {
                            assert((ded@[hit as int]).spec_transform_id() == edges@[
                                m
                            ].spec_transform_id());
                        } else {
                            assert((ded@[ded@.len() - 1]).spec_transform_id() == edges@[
                                m
                            ].spec_transform_id());
                        }
                    }
                }
                assert forall|k: int| #![trigger ded@[k]] 0 <= k < ded@.len() implies exists|
                    m: int,
                |
                    0 <= m < i + 1 && (#[trigger] edges@[m])@ == ded@[k]@ && (forall|l: int|
                        m < l < i + 1 ==> (#[trigger] edges@[l]).spec_transform_id() != ded@[
                            k
                        ].spec_transform_id()) by {
                    if found && k == hit {
                        assert(edges@[i as int]@ == ded@[k]@);
                    } else if !found && k == ded@.len() - 1 {
                        assert(edges@[i as int]@ == ded@[k]@);
                    } else {
                        assert(ded@[k] == pre[k]);
                        let m = choose|m: int|
                            0 <= m < i && (#[trigger] edges@[m])@ == pre[k]@ && (forall|l: int|
                                m < l < i ==> (#[trigger] edges@[l]).spec_transform_id() != pre[
                                    k
                                ].spec_transform_id());
                        assert(edges@[i as int].spec_transform_id() != ded@[
                            k
                        ].spec_transform_id()) by {
                            if found {
                                assert(pre[hit as int].spec_transform_id() == edges@[
                                    i as int
                                ].spec_transform_id());
                            } else {
                                assert(forall|k2: int|
                                    0 <= k2 < pre.len() ==> (
                                    #[trigger] pre[k2]).spec_transform_id() != tid@);
                            }
                        }
                        assert(0 <= m < i + 1 && edges@[m]@ == ded@[k]@ && (forall|l: int|
                            m < l < i + 1 ==> (#[trigger] edges@[l]).spec_transform_id() != ded@[
                                k
                            ].spec_transform_id()));
                    }
                }
            }
            i = i + 1;
        }
        proof {
            if distinct_edge_ids(edges@) {
                assert(edges@.take(edges@.len() as int) == edges@);
            }
        }
        let ghost frames_distinct = forall|i2: int, j2: int|
            0 <= i2 < j2 < frames@.len() ==> (#[trigger] frames@[i2]).id@ != (
            #[trigger] frames@[j2]).id@;

        // deduplicate frames by identifier, the later entry winning
        let mut fded: Vec<FrameInfo> = Vec::new();
        let mut fi: usize = 0;
        while fi < frames.len()
            invariant
                0 <= fi <= frames@.len(),
                fded@.len() <= fi,
                forall|a: int, b: int|
                    0 <= a < b < fded@.len() ==> (#[trigger] fded@[a]).id@ != (
                    #[trigger] fded@[b]).id@,
                forall|m: int| 0 <= m < fi ==> contains_frame_info(
                    fded@,
                    (#[trigger] frames@[m]).id@,
                ),
                forall|k: int|
                    #![trigger fded@[k]]
                    0 <= k < fded@.len() ==> exists|m: int|
                        0 <= m < fi && (#[trigger] frames@[m])@ == fded@[k]@,
                frames_distinct ==> fvs(fded@) == fvs(frames@.take(fi as int)),
            decreases frames@.len() - fi,
        {
            let f = frames[fi].clone();
            proof {
                assert(f@ == frames@[fi as int]@);
                assert(f.id@ == frames@[fi as int].id@);
            }
            let mut found = false;
            let mut hit: usize = 0;
            let mut j: usize = 0;
            while j < fded.len()
                invariant
                    0 <= j <= fded@.len(),
                    !found ==> forall|k: int| 0 <= k < j ==> (#[trigger] fded@[k]).id@ != f.id@,
                    found ==> hit < fded@.len() && fded@[hit as int].id@ == f.id@,
                decreases fded@.len() - j + if found {
                    0int
                } else {
                    1int
                },
            {
                if found {
                    j = fded.len();
                } else {
                    if fded[j].id == f.id {
                        found = true;
                        hit = j;
                    } else {
                        j = j + 1;
                    }
                }
            }
            let ghost pre = fded@;
            if found {
                proof {
                    if frames_distinct {
                        assert(fvs(pre)[hit as int] == fvs(frames@.take(fi as int))[hit as int]);
                        assert(pre[hit as int].id@ == frames@[hit as int].id@);
                        assert(false);
                    }
                }
                fded.set(hit, f);
                proof {
                    assert forall|k: int| 0 <= k < fded@.len() implies exists|m: int|
                        0 <= m < fi + 1 && (#[trigger] frames@[m])@ == (
                        #[trigger] fded@[k])@ by {
                        if k == hit {
                            assert(fded@[k]@ == frames@[fi as int]@);
                        } else {
                            assert(fded@[k] == pre[k]);
                            let m = choose|m: int|
                                0 <= m < fi && (#[trigger] frames@[m])@ == pre[k]@;
                        }
                    }
                }
                proof {
                    assert forall|a: int, b: int|
                        0 <= a < b < fded@.len() implies (#[trigger] fded@[a]).id@ != (
                        #[trigger] fded@[b]).id@ by {
                        if a != hit && b != hit {
                            assert(fded@[a] == pre[a] && fded@[b] == pre[b]);
                        }
                    }
                }
            } else {
                fded.push(f);
                proof {
                    assert forall|k: int| 0 <= k < fded@.len() implies exists|m: int|
                        0 <= m < fi + 1 && (#[trigger] frames@[m])@ == (
                        #[trigger] fded@[k])@ by {
                        if k == fded@.len() - 1 {
                            assert(fded@[k]@ == frames@[fi as int]@);
                        } else {
                            assert(fded@[k] == pre[k]);
                            let m = choose|m: int|
                                0 <= m < fi && (#[trigger] frames@[m])@ == pre[k]@;
                        }
                    }
                    if frames_distinct {
                        assert(pre.len() == fi) by {
                            assert(fvs(pre).len() == fvs(frames@.take(fi as int)).len());
                        }
                        assert(fvs(fded@) =~= fvs(frames@.take(fi + 1))) by {
                            assert forall|k: int|
                                0 <= k < fi + 1 implies fvs(fded@)[k] == fvs(
                                frames@.take(fi + 1),
                            )[k] by {
                                assert(frames@.take(fi + 1)[k] == frames@[k]);
                                if k < fi {
                                    assert(fded@[k] == pre[k]);
                                    assert(fvs(pre)[k] == fvs(frames@.take(fi as int))[k]);
                                    assert(frames@.take(fi as int)[k] == frames@[k]);
                                } else {
                                    assert(fded@[k] == f);
                                }
                            }
                        }
                    }
                }
            }
            proof {
                assert forall|m: int| 0 <= m < fi + 1 implies contains_frame_info(
                    fded@,
                    (#[trigger] frames@[m]).id@,
                ) by {
                    if m < fi {
                        assert(contains_frame_info(pre, frames@[m].id@));
                        let k = choose|k: int|
                            0 <= k < pre.len() && (#[trigger] pre[k]).id@ == frames@[m].id@;
                        if found && k == hit {
                            assert((fded@[hit as int]).id@ == frames@[fi as int].id@);
                        } else {
                            assert((fded@[k]).id@ == frames@[m].id@);
                        }
                    } else {
                        if found {
                            assert((fded@[hit as int]).id@ == frames@[m].id@);
                        } else {
                            assert((fded@[fded@.len() - 1]).id@ == frames@[m].id@);
                        }
                    }
                }
            }
            fi = fi + 1;
        }

        // synthesize a bare entry for every endpoint frame without one
        let ghost frames_in = fded@;
        let ghost frames_cover = forall|k: int|
            0 <= k < edges@.len() ==> contains_frame_info(
                frames@,
                (#[trigger] edges@[k]).spec_parent(),
            ) && contains_frame_info(frames@, edges@[k].spec_child());
        proof {
            if frames_distinct {
                assert(frames@.take(frames@.len() as int) == frames@);
            }
        }
        let mut ei: usize = 0;
        while ei < ded.len()
            invariant
                0 <= ei <= ded@.len(),
                forall|a: int, b: int|
                    0 <= a < b < fded@.len() ==> (#[trigger] fded@[a]).id@ != (
                    #[trigger] fded@[b]).id@,
                forall|m: int| 0 <= m < ei ==> contains_frame_info(
                    fded@,
                    (#[trigger] ded@[m]).spec_parent(),
                ) && contains_frame_info(fded@, ded@[m].spec_child()),
                frames_in.len() <= fded@.len(),
                forall|m: int| 0 <= m < frames_in.len() ==> fded@[m] == #[trigger] frames_in[m],
                forall|k: int|
                    #![trigger fded@[k]]
                    frames_in.len() <= k < fded@.len() ==> (fded@[k]@.description is None && fded@[
                        k
                    ]@.crs_epsg is None && exists|e: int|
                        0 <= e < ded@.len() && ((#[trigger] ded@[e]).spec_parent() == fded@[
                            k
                        ].id@ || ded@[e].spec_child() == fded@[k].id@)),
                (frames_distinct && frames_cover) ==> fded@ == frames_in,
            decreases ded@.len() - ei,
        {
            let ghost start_f = fded@;
            proof {
                if frames_distinct && frames_cover {
                    let m0 = choose|m0: int|
                        0 <= m0 < edges@.len() && (#[trigger] edges@[m0])@ == ded@[ei as int]@ && (
                        forall|l: int|
                            m0 < l < edges@.len() ==> (#[trigger] edges@[
                                l
                            ]).spec_transform_id() != ded@[ei as int].spec_transform_id());
                    assert(contains_frame_info(frames@, ded@[ei as int].spec_parent()));
                    assert(contains_frame_info(frames@, ded@[ei as int].spec_child()));
                    let kp = choose|kp: int|
                        0 <= kp < frames@.len() && (#[trigger] frames@[kp]).id@ == ded@[
                            ei as int
                        ].spec_parent();
                    assert(fvs(frames_in)[kp] == fvs(frames@)[kp]);
                    assert(fded@[kp].id@ == ded@[ei as int].spec_parent());
                    assert(contains_frame_info(fded@, ded@[ei as int].spec_parent()));
                    let kc = choose|kc: int|
                        0 <= kc < frames@.len() && (#[trigger] frames@[kc]).id@ == ded@[
                            ei as int
                        ].spec_child();
                    assert(fvs(frames_in)[kc] == fvs(frames@)[kc]);
                    assert(fded@[kc].id@ == ded@[ei as int].spec_child());
                    assert(contains_frame_info(fded@, ded@[ei as int].spec_child()));
                }
            }
            let parent = ded[ei].parent_frame_id().clone();
            if !frames_contain(&fded, &parent) {
                let ghost before = fded@;
                fded.push(FrameInfo::bare(parent));
                proof {
                    assert forall|a: int, b: int|
                        0 <= a < b < fded@.len() implies (#[trigger] fded@[a]).id@ != (
                        #[trigger] fded@[b]).id@ by {
                        if b == fded@.len() - 1 {
                            assert(before[a].id@ != ded@[ei as int].spec_parent());
                        }
                    }
                    assert(fded@[fded@.len() - 1].id@ == ded@[ei as int].spec_parent());
                    assert forall|k: int|
                        frames_in.len() <= k < fded@.len() implies (fded@[k]@.description is None
                            && fded@[k]@.crs_epsg is None && exists|e: int|
                            0 <= e < ded@.len() && ((#[trigger] ded@[e]).spec_parent() == fded@[
                                k
                            ].id@ || ded@[e].spec_child() == fded@[k].id@)) by {
                        if k < before.len() {
                            assert(fded@[k] == before[k]);
                        } else {
                            assert((ded@[ei as int]).spec_parent() == fded@[k].id@);
                        }
                    }
                }
            }
            let ghost mid_f = fded@;
            proof {
                assert(contains_frame_info(mid_f, ded@[ei as int].spec_parent())) by {
                    if contains_frame_info(start_f, ded@[ei as int].spec_parent()) {
                        let k = choose|k: int|
                            0 <= k < start_f.len() && (#[trigger] start_f[k]).id@ == ded@[
                                ei as int
                            ].spec_parent();
                        assert(mid_f[k].id@ == ded@[ei as int].spec_parent());
                    } else {
                        assert(mid_f[mid_f.len() - 1].id@ == ded@[ei as int].spec_parent());
                    }
                }
            }
            let child = ded[ei].child_frame_id().clone();
            if !frames_contain(&fded, &child) {
                let ghost before = fded@;
                fded.push(FrameInfo::bare(child));
                proof {
                    assert forall|a: int, b: int|
                        0 <= a < b < fded@.len() implies (#[trigger] fded@[a]).id@ != (
                        #[trigger] fded@[b]).id@ by {
                        if b == fded@.len() - 1 {
                            assert(before[a].id@ != ded@[ei as int].spec_child());
                        }
                    }
                    assert(fded@[fded@.len() - 1].id@ == ded@[ei as int].spec_child());
                    assert forall|k: int|
                        frames_in.len() <= k < fded@.len() implies (fded@[k]@.description is None
                            && fded@[k]@.crs_epsg is None && exists|e: int|
                            0 <= e < ded@.len() && ((#[trigger] ded@[e]).spec_parent() == fded@[
                                k
                            ].id@ || ded@[e].spec_child() == fded@[k].id@)) by {
                        if k < before.len() {
                            assert(fded@[k] == before[k]);
                        } else {
                            assert((ded@[ei as int]).spec_child() == fded@[k].id@);
                        }
                    }
                }
            }
            proof {
                assert(forall|m: int| 0 <= m < mid_f.len() ==> fded@[m] == #[trigger] mid_f[m]);
                assert(contains_frame_info(fded@, ded@[ei as int].spec_parent())) by {
                    let k = choose|k: int|
                        0 <= k < mid_f.len() && (#[trigger] mid_f[k]).id@ == ded@[
                            ei as int
                        ].spec_parent();
                    assert(fded@[k].id@ == ded@[ei as int].spec_parent());
                }
                assert(contains_frame_info(fded@, ded@[ei as int].spec_child())) by {
                    if contains_frame_info(mid_f, ded@[ei as int].spec_child()) {
                        let k = choose|k: int|
                            0 <= k < mid_f.len() && (#[trigger] mid_f[k]).id@ == ded@[
                                ei as int
                            ].spec_child();
                        assert(fded@[k].id@ == ded@[ei as int].spec_child());
                    } else {
                        assert(fded@[fded@.len() - 1].id@ == ded@[ei as int].spec_child());
                    }
                }
                assert forall|m: int| 0 <= m < ei + 1 implies contains_frame_info(
                    fded@,
                    (#[trigger] ded@[m]).spec_parent(),
                ) && contains_frame_info(fded@, ded@[m].spec_child()) by {
                    if m < ei {
                        let k1 = choose|k1: int|
                            0 <= k1 < start_f.len() && (#[trigger] start_f[k1]).id@ == ded@[
                                m
                            ].spec_parent();
                        assert(fded@[k1].id@ == ded@[m].spec_parent());
                        let k2 = choose|k2: int|
                            0 <= k2 < start_f.len() && (#[trigger] start_f[k2]).id@ == ded@[
                                m
                            ].spec_child();
                        assert(fded@[k2].id@ == ded@[m].spec_child());
                    }
                }
            }
            ei = ei + 1;
        }

        let ids = collect_transform_ids(&ded);
        proof {
            assert forall|a: int, b: int| 0 <= a < b < ids@.len() implies (#[trigger] ids@[a])@
                != (#[trigger] ids@[b])@ by {
                assert(ded@[a].spec_transform_id() != ded@[b].spec_transform_id());
            }
        }
        let graph = FrameGraph::new(&ids);
        let tree = TransformTree { edges: ded, frames: fded, frame_graph: graph };
        proof {
            assert(tree.frame_graph.edge_views() =~= edge_id_views(tree.edges@));
            if distinct_edge_ids(edges@) {
                assert(evs(tree.edges@) == evs(edges@));
            }
            if frames_distinct && frames_cover {
                assert(fvs(tree.frames@) == fvs(frames_in));
                assert(fvs(frames_in) == fvs(frames@));
            }
            assert forall|k: int|
                0 <= k < tree.frames@.len() implies ((exists|m: int|
                    0 <= m < frames@.len() && (#[trigger] frames@[m])@ == (
                    #[trigger] tree.frames@[k])@) || ((exists|e: int|
                    0 <= e < tree.edges@.len() && ((#[trigger] tree.edges@[e]).spec_parent()
                        == tree.frames@[k].id@ || tree.edges@[e].spec_child() == tree.frames@[
                        k
                    ].id@)) && tree.frames@[k]@.description is None && tree.frames@[
                    k
                ]@.crs_epsg is None)) by {
                if k < frames_in.len() {
                    assert(tree.frames@[k] == frames_in[k]);
                    let m = choose|m: int|
                        0 <= m < frames@.len() && (#[trigger] frames@[m])@ == frames_in[k]@;
                }
            }
            assert forall|m: int| 0 <= m < frames@.len() implies contains_frame_info(
                tree.frames@,
                (#[trigger] frames@[m]).id@,
            ) by {
                if frames@.len() > 0 {
                    assert(contains_frame_info(frames_in, frames@[m].id@));
                    let k = choose|k: int|
                        0 <= k < frames_in.len() && (#[trigger] frames_in[k]).id@ == frames@[
                            m
                        ].id@;
                    assert(tree.frames@[k].id@ == frames@[m].id@);
                }
            }
            assert forall|v: Seq<char>| #[trigger] contains_view(tree.frame_graph.frames@, v)
                <==> exists|i2: int|
                0 <= i2 < tree.edges@.len() && ((#[trigger] tree.edges@[i2]).spec_parent() == v
                    || tree.edges@[i2].spec_child() == v) by {
                if contains_view(tree.frame_graph.frames@, v) {
                    let k = choose|k: int|
                        0 <= k < ids@.len() && ((#[trigger] ids@[k])@.0 == v || ids@[k]@.1 == v);
                    assert(tree.edges@[k].spec_parent() == v || tree.edges@[k].spec_child() == v);
                }
                if exists|i2: int|
                    0 <= i2 < tree.edges@.len() && ((#[trigger] tree.edges@[i2]).spec_parent()
                        == v || tree.edges@[i2].spec_child() == v) {
                    let i2 = choose|i2: int|
                        0 <= i2 < tree.edges@.len() && ((#[trigger] tree.edges@[i2]).spec_parent()
                            == v || tree.edges@[i2].spec_child() == v);
                    assert((ids@[i2])@.0 == v || (ids@[i2])@.1 == v);
                }
            }
        }
        Ok(tree)
    }
}


/// Whether the frame entries contain the given identifier.
fn frames_contain(frames: &Vec<FrameInfo>, frame_id: &FrameId) -> (r: bool)
    ensures
        r == contains_frame_info(frames@, frame_id@),
{
    let mut i: usize = 0;
    while i < frames.len()
        invariant
            0 <= i <= frames@.len(),
            forall|k: int| 0 <= k < i ==> (#[trigger] frames@[k]).id@ != frame_id@,
        decreases frames@.len() - i,
    {
        if frames[i].id == *frame_id {
            return true;
        }
        i = i + 1;
    }
    false
}

} // verus!

verus! {

/// The edge at a known position is the edge its identifier selects.
pub proof fn lemma_edge_with_id(edges: Seq<TransformEdge>, i: int)
    requires
        distinct_edge_ids(edges),
        0 <= i < edges.len(),
    ensures
        edge_with_id(edges, edges[i].spec_transform_id()) == edges[i],
        contains_edge_id(edges, edges[i].spec_transform_id()),
{
    let idv = edges[i].spec_transform_id();
    assert(contains_edge_id(edges, idv));
    let j = edge_index_of(edges, idv);
    assert(0 <= j < edges.len() && edges[j].spec_transform_id() == idv);
    if i != j {
        assert(false);
    }
}

impl TransformTree {
    /// Resolves the path edges for a query: the positions, in path order, of
    /// the edges along the unique path of the transform identifier.
    #[verifier::loop_isolation(false)]
    fn resolve_path_edges(&self, transform_id: &TransformId) -> (r: Result<
        (Vec<usize>, Ghost<Seq<Seq<char>>>),
        Error,
    >)
        requires
            self.wf(),
            transform_id.wf(),
        ensures
            r matches Ok(pair) ==> {
                let idxs = pair.0;
                let q = pair.1@;
                &&& is_view_path(self.spec_edge_ids(), q, transform_id@.0, transform_id@.1)
                &&& unique_view_path(self.spec_edge_ids(), transform_id@.0, transform_id@.1)
                &&& idxs@.len() == q.len() - 1
                &&& forall|k: int|
                    0 <= k < idxs@.len() ==> (#[trigger] idxs@[k]) < self.edges@.len()
                        && self.edges@[idxs@[k] as int].spec_transform_id() == (q[k], q[k + 1])
                        && self.edges@[idxs@[k] as int] == edge_with_id(
                        self.edges@,
                        (q[k], q[k + 1]),
                    )
            },
            r is Ok <==> contains_view(self.frame_graph.frames@, transform_id@.0) && contains_view(
                self.frame_graph.frames@,
                transform_id@.1,
            ) && unique_view_path(self.spec_edge_ids(), transform_id@.0, transform_id@.1),
            r matches Err(e) ==> path_error_spec(*self, *transform_id, e),
    {
        let tids = match self.frame_graph.get_transform_id_path(transform_id) {
            Ok(p) => p,
            Err(e) => {
                proof {
                    if contains_view(self.frame_graph.frames@, transform_id@.0) {
                        let m = choose|m: int|
                            0 <= m < self.frame_graph.frames@.len()
                                && #[trigger] self.frame_graph.frames@[m]@ == transform_id@.0;
                        assert(self.frame_graph.frame_views()[m] == transform_id@.0);
                    }
                    if self.frame_graph.frame_views().contains(transform_id@.0) {
                        let m = choose|m: int|
                            0 <= m < self.frame_graph.frame_views().len()
                                && #[trigger] self.frame_graph.frame_views()[m] == transform_id@.0;
                        assert(contains_view(self.frame_graph.frames@, transform_id@.0));
                    }
                    if contains_view(self.frame_graph.frames@, transform_id@.1) {
                        let m = choose|m: int|
                            0 <= m < self.frame_graph.frames@.len()
                                && #[trigger] self.frame_graph.frames@[m]@ == transform_id@.1;
                        assert(self.frame_graph.frame_views()[m] == transform_id@.1);
                    }
                    if self.frame_graph.frame_views().contains(transform_id@.1) {
                        let m = choose|m: int|
                            0 <= m < self.frame_graph.frame_views().len()
                                && #[trigger] self.frame_graph.frame_views()[m] == transform_id@.1;
                        assert(contains_view(self.frame_graph.frames@, transform_id@.1));
                    }
                    if e is MultipleTransformPaths {
                        let (p, q) = choose|p: Seq<Seq<char>>, q: Seq<Seq<char>>|
                            is_view_path(
                                self.frame_graph.edge_views(),
                                p,
                                transform_id@.0,
                                transform_id@.1,
                            ) && is_view_path(
                                self.frame_graph.edge_views(),
                                q,
                                transform_id@.0,
                                transform_id@.1,
                            ) && p != q;
                        assert(self.frame_graph.edge_views() =~= self.spec_edge_ids());
                        assert(is_view_path(
                            self.spec_edge_ids(),
                            p,
                            transform_id@.0,
                            transform_id@.1,
                        ));
                        assert(is_view_path(
                            self.spec_edge_ids(),
                            q,
                            transform_id@.0,
                            transform_id@.1,
                        ));
                    }
                    assert(path_error_spec(*self, *transform_id, e));
                }
                return Err(e);
            },
        };
        proof {
            if contains_view(self.frame_graph.frames@, transform_id@.0) {
                let m = choose|m: int|
                    0 <= m < self.frame_graph.frames@.len()
                        && #[trigger] self.frame_graph.frames@[m]@ == transform_id@.0;
                assert(self.frame_graph.frame_views()[m] == transform_id@.0);
            }
            if self.frame_graph.frame_views().contains(transform_id@.0) {
                let m = choose|m: int|
                    0 <= m < self.frame_graph.frame_views().len()
                        && #[trigger] self.frame_graph.frame_views()[m] == transform_id@.0;
                assert(contains_view(self.frame_graph.frames@, transform_id@.0));
            }
            if contains_view(self.frame_graph.frames@, transform_id@.1) {
                let m = choose|m: int|
                    0 <= m < self.frame_graph.frames@.len()
                        && #[trigger] self.frame_graph.frames@[m]@ == transform_id@.1;
                assert(self.frame_graph.frame_views()[m] == transform_id@.1);
            }
            if self.frame_graph.frame_views().contains(transform_id@.1) {
                let m = choose|m: int|
                    0 <= m < self.frame_graph.frame_views().len()
                        && #[trigger] self.frame_graph.frame_views()[m] == transform_id@.1;
                assert(contains_view(self.frame_graph.frames@, transform_id@.1));
            }
        }
        let ghost q = choose|q: Seq<Seq<char>>|
            {
                &&& is_view_path(self.spec_edge_ids(), q, transform_id@.0, transform_id@.1)
                &&& unique_view_path(self.spec_edge_ids(), transform_id@.0, transform_id@.1)
                &&& tids@.len() == q.len() - 1
                &&& forall|k: int| 0 <= k < tids@.len() ==> (#[trigger] tids@[k])@ == (q[k], q[k + 1])
                &&& forall|k: int| 0 <= k < tids@.len() ==> (#[trigger] tids@[k]).wf()
                    && self.spec_edge_ids().contains(tids@[k]@)
            };
        let mut out: Vec<usize> = Vec::new();
        let mut k: usize = 0;
        while k < tids.len()
            invariant
                0 <= k <= tids@.len(),
                out@.len() == k,
                forall|m: int|
                    0 <= m < k ==> (#[trigger] out@[m]) < self.edges@.len() && self.edges@[out@[
                        m
                    ] as int].spec_transform_id() == (q[m], q[m + 1]) && self.edges@[out@[
                        m
                    ] as int] == edge_with_id(self.edges@, (q[m], q[m + 1])),
            decreases tids@.len() - k,
        {
            let idx = match self.find_edge(&tids[k]) {
                Some(i) => i,
                None => {
                    proof {
                        let m = choose|m: int|
                            0 <= m < self.spec_edge_ids().len()
                                && #[trigger] self.spec_edge_ids()[m] == tids@[k as int]@;
                        assert((self.edges@[m]).spec_transform_id() == tids@[k as int]@);
                        assert(contains_edge_id(self.edges@, tids@[k as int]@));
                        assert(false);
                    }
                    return Err(Error::InvalidTransformId(tids[k].clone()));
                },
            };
            proof {
                lemma_edge_with_id(self.edges@, idx as int);
            }
            out.push(idx);
            k = k + 1;
        }
        Ok((out, Ghost(q)))
    }

    /// Evaluates each listed edge at a query time.
    #[verifier::loop_isolation(false)]
    fn eval_edges_at(&self, idxs: &Vec<usize>, timestamp: &Time) -> (r: Vec<TransformEval>)
        requires
            self.wf(),
            timestamp.wf(),
            forall|k: int| 0 <= k < idxs@.len() ==> (#[trigger] idxs@[k]) < self.edges@.len(),
        ensures
            r@.len() == idxs@.len(),
            forall|k: int| 0 <= k < r@.len() ==> #[trigger] r@[k] == self.edges@[idxs@[
                k
            ] as int].eval_at(timestamp.as_nanos()),
    {
        let mut out: Vec<TransformEval> = Vec::new();
        let mut k: usize = 0;
        while k < idxs.len()
            invariant
                0 <= k <= idxs@.len(),
                out@.len() == k,
                forall|m: int| 0 <= m < k ==> #[trigger] out@[m] == self.edges@[idxs@[
                    m
                ] as int].eval_at(timestamp.as_nanos()),
            decreases idxs@.len() - k,
        {
            out.push(self.edges[idxs[k]].at_time(timestamp));
            k = k + 1;
        }
        out
    }

    /// Resolves the unique path of the transform identifier and evaluates
    /// every edge along it at the query time, in path order. The composed
    /// transform is the left-to-right product of the evaluations.
    #[verifier::rlimit(80)]
    #[verifier::spinoff_prover]
    pub fn get_transform_at_time(&self, transform_id: &TransformId, timestamp: &Time) -> (r: Result<
        Vec<TransformEval>,
        Error,
    >)
        requires
            self.wf(),
            transform_id.wf(),
            timestamp.wf(),
        ensures
            r matches Ok(evals) ==> exists|q: Seq<Seq<char>>|
                {
                    &&& is_view_path(self.spec_edge_ids(), q, transform_id@.0, transform_id@.1)
                    &&& unique_view_path(self.spec_edge_ids(), transform_id@.0, transform_id@.1)
                    &&& evals@.len() == q.len() - 1
                    &&& forall|k: int|
                        0 <= k < evals@.len() ==> #[trigger] evals@[k] == edge_with_id(
                            self.edges@,
                            (q[k], q[k + 1]),
                        ).eval_at(timestamp.as_nanos())
                },
            r is Ok <==> contains_view(self.frame_graph.frames@, transform_id@.0) && contains_view(
                self.frame_graph.frames@,
                transform_id@.1,
            ) && unique_view_path(self.spec_edge_ids(), transform_id@.0, transform_id@.1),
            r matches Err(e) ==> path_error_spec(*self, *transform_id, e),
    {
        let (idxs, path) = match self.resolve_path_edges(transform_id) {
            Ok(p) => p,
            Err(e) => {
                return Err(e);
            },
        };
        let evals = self.eval_edges_at(&idxs, timestamp);
        proof {
            let q = path@;
            assert(evals@.len() == q.len() - 1);
            assert forall|k: int| 0 <= k < evals@.len() implies #[trigger] evals@[k]
                == edge_with_id(self.edges@, (q[k], q[k + 1])).eval_at(timestamp.as_nanos()) by {
                assert(evals@[k] == self.edges@[idxs@[k] as int].eval_at(timestamp.as_nanos()));
            }
        }
        Ok(evals)
    }
}

/// What a failed path resolution means, per error. The errors cascade: an
/// absent endpoint always yields `InvalidFrameId` (the parent checked first),
/// and the path errors arise only with both endpoints present.
pub open spec fn path_error_spec(tree: TransformTree, transform_id: TransformId, e: Error) -> bool {
    match e {
        Error::InvalidFrameId(f) => (!contains_view(tree.frame_graph.frames@, transform_id@.0)
            ==> f@ == transform_id@.0) && (contains_view(tree.frame_graph.frames@, transform_id@.0)
            ==> f@ == transform_id@.1 && !contains_view(
            tree.frame_graph.frames@,
            transform_id@.1,
        )),
        Error::NoTransformPath(tid) => tid@ == transform_id@ && contains_view(
            tree.frame_graph.frames@,
            transform_id@.0,
        ) && contains_view(tree.frame_graph.frames@, transform_id@.1) && !exists|q: Seq<Seq<char>>|
            is_view_path(tree.spec_edge_ids(), q, transform_id@.0, transform_id@.1),
        Error::MultipleTransformPaths(tid) => tid@ == transform_id@ && contains_view(
            tree.frame_graph.frames@,
            transform_id@.0,
        ) && contains_view(tree.frame_graph.frames@, transform_id@.1) && exists|
            p: Seq<Seq<char>>,
            q: Seq<Seq<char>>,
        |
            is_view_path(tree.spec_edge_ids(), p, transform_id@.0, transform_id@.1) && is_view_path(
                tree.spec_edge_ids(),
                q,
                transform_id@.0,
                transform_id@.1,
            ) && p != q,
        _ => false,
    }
}

impl TransformTree {
    /// Like a timed query, but never evaluates at a time: every edge on the
    /// path must be static, and the static transforms come back in path
    /// order. A dynamic edge on the path fails the query.
    #[verifier::loop_isolation(false)]
    #[verifier::rlimit(80)]
    #[verifier::spinoff_prover]
    pub fn get_static_transform(&self, transform_id: &TransformId) -> (r: Result<
        Vec<Transform>,
        Error,
    >)
        requires
            self.wf(),
            transform_id.wf(),
        ensures
            r matches Ok(ts) ==> exists|q: Seq<Seq<char>>|
                {
                    &&& is_view_path(self.spec_edge_ids(), q, transform_id@.0, transform_id@.1)
                    &&& unique_view_path(self.spec_edge_ids(), transform_id@.0, transform_id@.1)
                    &&& ts@.len() == q.len() - 1
                    &&& forall|k: int|
                        #![trigger edge_with_id(self.edges@, (q[k], q[k + 1]))]
                        0 <= k < ts@.len() ==> edge_with_id(
                            self.edges@,
                            (q[k], q[k + 1]),
                        )@.is_static() && ts@[k] == edge_with_id(
                            self.edges@,
                            (q[k], q[k + 1]),
                        )@.static_transform()
                },
            r matches Err(e) ==> (e matches Error::ContainsDynamicTransform() ==> exists|
                q: Seq<Seq<char>>,
            |
                {
                    &&& is_view_path(self.spec_edge_ids(), q, transform_id@.0, transform_id@.1)
                    &&& unique_view_path(self.spec_edge_ids(), transform_id@.0, transform_id@.1)
                    &&& exists|k: int|
                        #![trigger edge_with_id(self.edges@, (q[k], q[k + 1]))]
                        0 <= k < q.len() - 1 && !edge_with_id(
                            self.edges@,
                            (q[k], q[k + 1]),
                        )@.is_static()
                }) && (!(e matches Error::ContainsDynamicTransform()) ==> path_error_spec(
                *self,
                *transform_id,
                e,
            )),
    {
        let (idxs, path) = match self.resolve_path_edges(transform_id) {
            Ok(p) => p,
            Err(e) => {
                return Err(e);
            },
        };
        let mut out: Vec<Transform> = Vec::new();
        let mut k: usize = 0;
        let ghost q = path@;
        while k < idxs.len()
            invariant
                0 <= k <= idxs@.len(),
                out@.len() == k,
                forall|m: int|
                    #![trigger edge_with_id(self.edges@, (q[m], q[m + 1]))]
                    0 <= m < k ==> edge_with_id(self.edges@, (q[m], q[m + 1]))@.is_static()
                        && out@[m] == edge_with_id(self.edges@, (q[m], q[m + 1]))@.static_transform(),
            decreases idxs@.len() - k,
        {
            match &self.edges[idxs[k]] {
                TransformEdge::Static(s) => {
                    proof {
                        assert(edge_with_id(self.edges@, (q[k as int], q[k + 1]))
                            == self.edges@[idxs@[k as int] as int]);
                        assert(self.edges@[idxs@[k as int] as int]@.is_static());
                        assert(self.edges@[idxs@[k as int] as int]@.static_transform()
                            == s.transform);
                    }
                    out.push(s.transform);
                    proof {
                        assert(out@[k as int] == s.transform);
                    }
                },
                TransformEdge::Dynamic(_) => {
                    proof {
                        assert(!edge_with_id(self.edges@, (q[k as int], q[k + 1]))@.is_static());
                    }
                    return Err(Error::ContainsDynamicTransform());
                },
            }
            k = k + 1;
        }
        Ok(out)
    }

    /// Whether every edge on the unique path of the transform identifier is
    /// static.
    #[verifier::loop_isolation(false)]
    #[verifier::rlimit(80)]
    #[verifier::spinoff_prover]
    pub fn is_transform_path_static(&self, transform_id: &TransformId) -> (r: Result<bool, Error>)
        requires
            self.wf(),
            transform_id.wf(),
        ensures
            r matches Ok(b) ==> exists|q: Seq<Seq<char>>|
                {
                    &&& is_view_path(self.spec_edge_ids(), q, transform_id@.0, transform_id@.1)
                    &&& unique_view_path(self.spec_edge_ids(), transform_id@.0, transform_id@.1)
                    &&& b == forall|k: int|
                        #![trigger edge_with_id(self.edges@, (q[k], q[k + 1]))]
                        0 <= k < q.len() - 1 ==> edge_with_id(
                            self.edges@,
                            (q[k], q[k + 1]),
                        )@.is_static()
                },
            r matches Err(e) ==> path_error_spec(*self, *transform_id, e),
            r is Ok <==> contains_view(self.frame_graph.frames@, transform_id@.0) && contains_view(
                self.frame_graph.frames@,
                transform_id@.1,
            ) && unique_view_path(self.spec_edge_ids(), transform_id@.0, transform_id@.1),
    {
        let (idxs, path) = match self.resolve_path_edges(transform_id) {
            Ok(p) => p,
            Err(e) => {
                return Err(e);
            },
        };
        let ghost q = path@;
        let mut k: usize = 0;
        let mut all_static = true;
        while k < idxs.len()
            invariant
                0 <= k <= idxs@.len(),
                all_static == forall|m: int|
                    #![trigger edge_with_id(self.edges@, (q[m], q[m + 1]))]
                    0 <= m < k ==> edge_with_id(self.edges@, (q[m], q[m + 1]))@.is_static(),
            decreases idxs@.len() - k + if all_static {
                1int
            } else {
                0int
            },
        {
            if all_static {
                match &self.edges[idxs[k]] {
                    TransformEdge::Static(_) => {
                        k = k + 1;
                    },
                    TransformEdge::Dynamic(_) => {
                        all_static = false;
                        proof {
                            assert(!edge_with_id(self.edges@, (q[k as int], q[k + 1]))@.is_static());
                        }
                        k = idxs.len();
                    },
                }
            } else {
                k = idxs.len();
            }
        }
        Ok(all_static)
    }
}

} // verus!

verus! {

/// Clones a sequence of edges, keeping every spec-level value.
fn clone_edges(edges: &Vec<TransformEdge>) -> (r: Vec<TransformEdge>)
    ensures
        r@.len() == edges@.len(),
        forall|k: int| 0 <= k < r@.len() ==> (#[trigger] r@[k])@ == edges@[k]@,
        evs(r@) == evs(edges@),
        forall|k: int| 0 <= k < edges@.len() ==> (#[trigger] edges@[k]).wf() ==> r@[k].wf(),
{
    let mut out: Vec<TransformEdge> = Vec::new();
    let mut i: usize = 0;
    while i < edges.len()
        invariant
            0 <= i <= edges@.len(),
            out@.len() == i,
            forall|k: int| 0 <= k < i ==> (#[trigger] out@[k])@ == edges@[k]@,
            forall|k: int| 0 <= k < i ==> (#[trigger] edges@[k]).wf() ==> out@[k].wf(),
        decreases edges@.len() - i,
    {
        out.push(edges[i].clone());
        i = i + 1;
    }
    proof {
        assert(evs(out@) =~= evs(edges@));
    }
    out
}

/// Clones a sequence of frame entries, keeping every spec-level value.
fn clone_frames(frames: &Vec<FrameInfo>) -> (r: Vec<FrameInfo>)
    ensures
        r@.len() == frames@.len(),
        forall|k: int| 0 <= k < r@.len() ==> (#[trigger] r@[k])@ == frames@[k]@,
        fvs(r@) == fvs(frames@),
{
    let mut out: Vec<FrameInfo> = Vec::new();
    let mut i: usize = 0;
    while i < frames.len()
        invariant
            0 <= i <= frames@.len(),
            out@.len() == i,
            forall|k: int| 0 <= k < i ==> (#[trigger] out@[k])@ == frames@[k]@,
        decreases frames@.len() - i,
    {
        out.push(frames[i].clone());
        i = i + 1;
    }
    proof {
        assert(fvs(out@) =~= fvs(frames@));
    }
    out
}

/// A frame entry either comes from the given entries, value for value, or
/// is a synthesized default entry for an endpoint of the given edges.
pub open spec fn frame_from_or_bare(
    source: Seq<FrameInfo>,
    edges: Seq<TransformEdge>,
    f: FrameInfo,
) -> bool {
    ||| exists|m: int| 0 <= m < source.len() && (#[trigger] source[m])@ == f@
    ||| ((exists|e: int|
        0 <= e < edges.len() && ((#[trigger] edges[e]).spec_parent() == f.id@ || edges[
            e
        ].spec_child() == f.id@)) && f@.description is None && f@.crs_epsg is None)
}

impl TransformTree {
    /// Inserts an edge, replacing any edge under the same transform
    /// identifier, and synthesizes metadata for endpoint frames without any.
    /// The frame graph is rebuilt from the edges.
    #[verifier::loop_isolation(false)]
    #[verifier::rlimit(60)]
    #[verifier::spinoff_prover]
    pub fn insert_edge(&mut self, edge: TransformEdge)
        requires
            old(self).wf(),
            edge.wf(),
            old(self).edges@.len() < 0x7FFF_FFFF,
        ensures
            final(self).wf(),
            contains_edge_id(final(self).edges@, edge@.id()),
            edge_with_id(final(self).edges@, edge@.id())@ == edge@,
            forall|idv: (Seq<char>, Seq<char>)|
                idv != edge@.id() ==> (#[trigger] contains_edge_id(final(self).edges@, idv)
                    == contains_edge_id(old(self).edges@, idv)),
            forall|idv: (Seq<char>, Seq<char>)|
                idv != edge@.id() && contains_edge_id(old(self).edges@, idv)
                    ==> #[trigger] edge_with_id(final(self).edges@, idv)@ == edge_with_id(
                    old(self).edges@,
                    idv,
                )@,
            forall|m: int| 0 <= m < old(self).frames@.len() ==> contains_frame_info(
                final(self).frames@,
                (#[trigger] old(self).frames@[m]).id@,
            ),
            forall|k: int|
                0 <= k < final(self).frames@.len() ==> frame_from_or_bare(
                    old(self).frames@,
                    final(self).edges@,
                    #[trigger] final(self).frames@[k],
                ),
    {
        let ghost old_edges = self.edges@;
        let mut es = clone_edges(&self.edges);
        es.push(edge);
        let ghost edge_v = es@[es@.len() - 1]@;
        let fs = clone_frames(&self.frames);
        let ghost fs_snapshot = fs@;
        match TransformTree::new(es, fs) {
            Ok(t) => {
                proof {
                    let tnew = t;
                    let ghost esv = old_edges.push(es@[es@.len() - 1]);
                    // the new edge's identifier is present, carried by the pushed edge
                    assert(contains_edge_id(tnew.edges@, edge@.id())) by {
                        assert(es@[es@.len() - 1]@ == edge@);
                        assert(es@[es@.len() - 1].spec_transform_id() == edge@.id());
                        assert(contains_edge_id(tnew.edges@, es@[es@.len()
                            - 1].spec_transform_id()));
                    }
                    let k = edge_index_of(tnew.edges@, edge@.id());
                    assert(0 <= k < tnew.edges@.len() && tnew.edges@[k].spec_transform_id()
                        == edge@.id());
                    // that edge is the last input edge with the identifier: the pushed one
                    let m = choose|m: int|
                        0 <= m < es@.len() && (#[trigger] es@[m])@ == tnew.edges@[k]@ && (forall|
                            l: int,
                        |
                            m < l < es@.len() ==> (#[trigger] es@[l]).spec_transform_id()
                                != tnew.edges@[k].spec_transform_id());
                    assert(m == es@.len() - 1) by {
                        if m < es@.len() - 1 {
                            assert(es@[es@.len() - 1].spec_transform_id() == edge@.id());
                        }
                    }
                    assert(edge_with_id(tnew.edges@, edge@.id())@ == edge@);
                    // other identifiers keep their edges
                    assert forall|idv: (Seq<char>, Seq<char>)|
                        idv != edge@.id() implies (#[trigger] contains_edge_id(tnew.edges@, idv)
                        == contains_edge_id(old_edges, idv)) by {
                        if contains_edge_id(old_edges, idv) {
                            let m2 = choose|m2: int|
                                0 <= m2 < old_edges.len() && (
                                #[trigger] old_edges[m2]).spec_transform_id() == idv;
                            assert(es@[m2].spec_transform_id() == idv);
                            assert(contains_edge_id(tnew.edges@, es@[m2].spec_transform_id()));
                        }
                        if contains_edge_id(tnew.edges@, idv) {
                            let k2 = choose|k2: int|
                                0 <= k2 < tnew.edges@.len() && (
                                #[trigger] tnew.edges@[k2]).spec_transform_id() == idv;
                            let m2 = choose|m2: int|
                                0 <= m2 < es@.len() && (#[trigger] es@[m2])@ == tnew.edges@[k2]@
                                    && (forall|l: int|
                                    m2 < l < es@.len() ==> (#[trigger] es@[
                                        l
                                    ]).spec_transform_id() != tnew.edges@[
                                        k2
                                    ].spec_transform_id());
                            assert(m2 < es@.len() - 1);
                            assert(old_edges[m2].spec_transform_id() == idv);
                        }
                    }
                    assert forall|m: int|
                        0 <= m < old(self).frames@.len() implies contains_frame_info(
                        tnew.frames@,
                        (#[trigger] old(self).frames@[m]).id@,
                    ) by {
                        assert(fvs(fs_snapshot)[m] == old(self).frames@[m]@);
                        assert(fs_snapshot[m].id@ == old(self).frames@[m].id@);
                        assert(contains_frame_info(tnew.frames@, fs_snapshot[m].id@));
                    }
                    assert forall|k: int|
                        0 <= k < tnew.frames@.len() implies frame_from_or_bare(
                        old(self).frames@,
                        tnew.edges@,
                        #[trigger] tnew.frames@[k],
                    ) by {
                        if exists|m: int|
                            0 <= m < fs_snapshot.len() && (#[trigger] fs_snapshot[m])@
                                == tnew.frames@[k]@ {
                            let m = choose|m: int|
                                0 <= m < fs_snapshot.len() && (#[trigger] fs_snapshot[m])@
                                    == tnew.frames@[k]@;
                            assert(fvs(fs_snapshot)[m] == old(self).frames@[m]@);
                            assert(old(self).frames@[m]@ == tnew.frames@[k]@);
                        }
                    }
                    assert forall|idv: (Seq<char>, Seq<char>)|
                        idv != edge@.id() && contains_edge_id(
                            old_edges,
                            idv,
                        ) implies #[trigger] edge_with_id(tnew.edges@, idv)@ == edge_with_id(
                        old_edges,
                        idv,
                    )@ by {
                        let k2 = edge_index_of(tnew.edges@, idv);
                        assert(contains_edge_id(tnew.edges@, idv));
                        assert(0 <= k2 < tnew.edges@.len() && tnew.edges@[k2].spec_transform_id()
                            == idv);
                        let m2 = choose|m2: int|
                            0 <= m2 < es@.len() && (#[trigger] es@[m2])@ == tnew.edges@[k2]@ && (
                            forall|l: int|
                                m2 < l < es@.len() ==> (#[trigger] es@[l]).spec_transform_id()
                                    != tnew.edges@[k2].spec_transform_id());
                        assert(m2 < es@.len() - 1);
                        assert(old_edges[m2].spec_transform_id() == idv);
                        let mo = edge_index_of(old_edges, idv);
                        assert(contains_edge_id(old_edges, idv));
                        assert(0 <= mo < old_edges.len() && old_edges[mo].spec_transform_id()
                            == idv);
                        assert(mo == m2);
                        assert(edge_with_id(old_edges, idv)@ == es@[m2]@);
                    }
                }
                *self = t;
            },
            Err(_) => {
                proof {
                    assert(false);
                }
            },
        }
    }

    /// Removes the edge under the transform identifier, when present; the
    /// frame metadata is kept and the frame graph rebuilt.
    #[verifier::loop_isolation(false)]
    pub fn remove_transform(&mut self, transform_id: &TransformId)
        requires
            old(self).wf(),
        ensures
            final(self).wf(),
            !contains_edge_id(old(self).edges@, transform_id@) ==> *final(self) == *old(self),
            contains_edge_id(old(self).edges@, transform_id@) ==> evs(final(self).edges@) == evs(
                old(self).edges@,
            ).remove(edge_index_of(old(self).edges@, transform_id@)),
            final(self).frames@ == old(self).frames@,
            !contains_edge_id(final(self).edges@, transform_id@),
    {
        let idx = match self.find_edge(transform_id) {
            Some(i) => i,
            None => {
                return ;
            },
        };
        proof {
            lemma_edge_with_id(self.edges@, idx as int);
            let j = edge_index_of(self.edges@, transform_id@);
            assert(self.edges@[j].spec_transform_id() == transform_id@);
            if j != idx {
                assert(false);
            }
        }
        let ghost old_edges = self.edges@;
        self.edges.remove(idx);
        let ids = collect_transform_ids(&self.edges);
        proof {
            assert forall|a: int, b: int| 0 <= a < b < ids@.len() implies (#[trigger] ids@[a])@
                != (#[trigger] ids@[b])@ by {
                assert(self.edges@[a].spec_transform_id() != self.edges@[b].spec_transform_id());
            }
        }
        let graph = FrameGraph::new(&ids);
        self.frame_graph = graph;
        proof {
            assert(evs(self.edges@) =~= evs(old_edges).remove(idx as int));
            assert forall|a: int, b: int|
                0 <= a < b < self.edges@.len() implies (#[trigger] self.edges@[
                a
            ]).spec_transform_id() != (#[trigger] self.edges@[b]).spec_transform_id() by {
                assert(self.edges@[a] == if a < idx as int {
                    old_edges[a]
                } else {
                    old_edges[a + 1]
                });
                assert(self.edges@[b] == if b < idx as int {
                    old_edges[b]
                } else {
                    old_edges[b + 1]
                });
            }
            assert forall|k: int|
                0 <= k < self.edges@.len() implies (#[trigger] self.edges@[k]).wf()
                    && contains_frame_info(self.frames@, self.edges@[k].spec_parent())
                    && contains_frame_info(self.frames@, self.edges@[k].spec_child()) by {
                assert(self.edges@[k] == if k < idx as int {
                    old_edges[k]
                } else {
                    old_edges[k + 1]
                });
            }
            assert(self.frame_graph.edge_views() =~= edge_id_views(self.edges@));
            if contains_edge_id(self.edges@, transform_id@) {
                let k = choose|k: int|
                    0 <= k < self.edges@.len() && (#[trigger] self.edges@[k]).spec_transform_id()
                        == transform_id@;
                assert(self.edges@[k] == if k < idx as int {
                    old_edges[k]
                } else {
                    old_edges[k + 1]
                });
                assert(false);
            }
            assert forall|v: Seq<char>| #[trigger] contains_view(self.frame_graph.frames@, v)
                <==> exists|i2: int|
                0 <= i2 < self.edges@.len() && ((#[trigger] self.edges@[i2]).spec_parent() == v
                    || self.edges@[i2].spec_child() == v) by {
                if contains_view(self.frame_graph.frames@, v) {
                    let k = choose|k: int|
                        0 <= k < ids@.len() && ((#[trigger] ids@[k])@.0 == v || ids@[k]@.1 == v);
                    assert(self.edges@[k].spec_parent() == v || self.edges@[k].spec_child() == v);
                }
                if exists|i2: int|
                    0 <= i2 < self.edges@.len() && ((#[trigger] self.edges@[i2]).spec_parent()
                        == v || self.edges@[i2].spec_child() == v) {
                    let i2 = choose|i2: int|
                        0 <= i2 < self.edges@.len() && ((#[trigger] self.edges@[i2]).spec_parent()
                            == v || self.edges@[i2].spec_child() == v);
                    assert((ids@[i2])@.0 == v || (ids@[i2])@.1 == v);
                }
            }
        }
    }

    /// Evaluates every edge at a query time, in edge order, paired with its
    /// transform identifier. Executing the evaluations and rebuilding with
    /// [`TransformTree::with_static_edges`] yields the static snapshot at that
    /// time.
    pub fn edge_evals_at(&self, timestamp: &Time) -> (r: Vec<(TransformId, TransformEval)>)
        requires
            self.wf(),
            timestamp.wf(),
        ensures
            r@.len() == self.edges@.len(),
            forall|k: int| 0 <= k < r@.len() ==> (#[trigger] r@[k]).0@ == self.edges@[
                k
            ].spec_transform_id() && r@[k].1 == self.edges@[k].eval_at(timestamp.as_nanos()),
    {
        let mut out: Vec<(TransformId, TransformEval)> = Vec::new();
        let mut k: usize = 0;
        while k < self.edges.len()
            invariant
                0 <= k <= self.edges@.len(),
                self.wf(),
                timestamp.wf(),
                out@.len() == k,
                forall|m: int| 0 <= m < k ==> (#[trigger] out@[m]).0@ == self.edges@[
                    m
                ].spec_transform_id() && out@[m].1 == self.edges@[m].eval_at(timestamp.as_nanos()),
            decreases self.edges@.len() - k,
        {
            let e = &self.edges[k];
            out.push((e.transform_id(), e.at_time(timestamp)));
            k = k + 1;
        }
        out
    }

    /// Rebuilds the tree with every edge replaced by a static edge carrying
    /// the given transform, keyed pointwise by transform identifier. Fails
    /// when the given identifiers do not match the edges.
    #[verifier::loop_isolation(false)]
    pub fn with_static_edges(&self, values: &Vec<(TransformId, Transform)>) -> (r: Result<
        TransformTree,
        Error,
    >)
        requires
            self.wf(),
        ensures
            r matches Ok(t) ==> {
                &&& t.wf()
                &&& t.spec_edge_ids() == self.spec_edge_ids()
                &&& t.edges@.len() == self.edges@.len()
                &&& forall|k: int|
                    0 <= k < t.edges@.len() ==> (#[trigger] t.edges@[k])@.is_static() && t.edges@[
                        k
                    ]@.static_transform() == values@[k].1
                &&& fvs(t.frames@) == fvs(self.frames@)
            },
            r is Ok <==> values@.len() == self.edges@.len() && forall|k: int|
                0 <= k < values@.len() ==> (#[trigger] values@[k]).0@ == self.edges@[
                    k
                ].spec_transform_id(),
    {
        if values.len() != self.edges.len() {
            if values.len() > 0 {
                return Err(Error::InvalidTransformId(values[0].0.clone()));
            } else {
                return Err(Error::NoTransforms());
            }
        }
        let mut statics: Vec<TransformEdge> = Vec::new();
        let mut k: usize = 0;
        while k < self.edges.len()
            invariant
                0 <= k <= self.edges@.len(),
                values@.len() == self.edges@.len(),
                statics@.len() == k,
                forall|m: int| 0 <= m < k ==> (#[trigger] values@[m]).0@ == self.edges@[
                    m
                ].spec_transform_id(),
                forall|m: int| 0 <= m < k ==> (#[trigger] statics@[m]).wf() && statics@[
                    m
                ]@.is_static() && statics@[m]@.static_transform() == values@[m].1 && statics@[
                    m
                ].spec_transform_id() == self.edges@[m].spec_transform_id(),
            decreases self.edges@.len() - k,
        {
            let e = &self.edges[k];
            let tid = e.transform_id();
            if !(values[k].0 == tid) {
                return Err(Error::InvalidTransformId(values[k].0.clone()));
            }
            let parent = e.parent_frame_id().clone();
            let child = e.child_frame_id().clone();
            statics.push(TransformEdge::Static(StaticTransform::new(parent, child, values[k].1)));
            k = k + 1;
        }
        let fs = clone_frames(&self.frames);
        proof {
            assert(distinct_edge_ids(statics@)) by {
                assert forall|a: int, b: int|
                    0 <= a < b < statics@.len() implies (#[trigger] statics@[
                    a
                ]).spec_transform_id() != (#[trigger] statics@[b]).spec_transform_id() by {
                    assert(self.edges@[a].spec_transform_id() != self.edges@[
                        b
                    ].spec_transform_id());
                }
            }
            assert forall|m: int| 0 <= m < statics@.len() implies contains_frame_info(
                fs@,
                (#[trigger] statics@[m]).spec_parent(),
            ) && contains_frame_info(fs@, statics@[m].spec_child()) by {
                assert(contains_frame_info(self.frames@, self.edges@[m].spec_parent()));
                let k1 = choose|k1: int|
                    0 <= k1 < self.frames@.len() && (#[trigger] self.frames@[k1]).id@
                        == self.edges@[m].spec_parent();
                assert(fs@[k1]@ == self.frames@[k1]@);
                assert(fs@[k1].id@ == self.edges@[m].spec_parent());
                assert(contains_frame_info(self.frames@, self.edges@[m].spec_child()));
                let k2 = choose|k2: int|
                    0 <= k2 < self.frames@.len() && (#[trigger] self.frames@[k2]).id@
                        == self.edges@[m].spec_child();
                assert(fs@[k2]@ == self.frames@[k2]@);
                assert(fs@[k2].id@ == self.edges@[m].spec_child());
            }
            assert forall|a: int, b: int|
                0 <= a < b < fs@.len() implies (#[trigger] fs@[a]).id@ != (
                #[trigger] fs@[b]).id@ by {
                assert(fs@[a]@ == self.frames@[a]@ && fs@[b]@ == self.frames@[b]@);
            }
        }
        match TransformTree::new(statics, fs) {
            Ok(t) => {
                proof {
                    assert(evs(t.edges@) == evs(statics@));
                    assert(evs(t.edges@).len() == t.edges@.len());
                    assert(evs(statics@).len() == statics@.len());
                    assert(t.edges@.len() == statics@.len());
                    assert forall|k2: int| 0 <= k2 < t.edges@.len() implies (#[trigger] t.edges@[
                        k2
                    ])@.is_static() && t.edges@[k2]@.static_transform() == values@[k2].1
                        && t.edges@[k2].spec_transform_id() == self.edges@[
                        k2
                    ].spec_transform_id() by {
                        assert(evs(t.edges@)[k2] == t.edges@[k2]@);
                        assert(evs(statics@)[k2] == statics@[k2]@);
                        assert(t.edges@[k2]@ == statics@[k2]@);
                        assert(statics@[k2]@.is_static() && statics@[k2]@.static_transform()
                            == values@[k2].1 && statics@[k2].spec_transform_id() == self.edges@[
                            k2
                        ].spec_transform_id());
                    }
                    assert(t.spec_edge_ids() =~= self.spec_edge_ids());
                }
                Ok(t)
            },
            Err(e) => {
                proof {
                    assert(false);
                }
                Err(e)
            },
        }
    }
}

/// Snapshot correctness: a tree whose edges are static and carry, for each
/// transform identifier, exactly the live tree's evaluation at time `t`,
/// evaluates every shared identifier — at any time — to what the live tree
/// evaluates at `t`; and both trees admit the same paths.
pub proof fn lemma_snapshot_agrees(live: TransformTree, snap: TransformTree, t: int)
    requires
        live.wf(),
        snap.wf(),
        snap.spec_edge_ids() == live.spec_edge_ids(),
        forall|k: int|
            0 <= k < snap.edges@.len() ==> (#[trigger] snap.edges@[k])@.is_static()
                && TransformEval::Exact(snap.edges@[k]@.static_transform()) == live.edges@[
                k
            ].eval_at(t),
    ensures
        forall|a: Seq<char>, b: Seq<char>|
            #![trigger unique_view_path(snap.spec_edge_ids(), a, b)]
            unique_view_path(snap.spec_edge_ids(), a, b) == unique_view_path(
                live.spec_edge_ids(),
                a,
                b,
            ),
        forall|idv: (Seq<char>, Seq<char>), t2: int|
            #![trigger edge_with_id(snap.edges@, idv).eval_at(t2)]
            contains_edge_id(live.edges@, idv) ==> edge_with_id(snap.edges@, idv).eval_at(t2)
                == edge_with_id(live.edges@, idv).eval_at(t),
{
    assert forall|idv: (Seq<char>, Seq<char>), t2: int|
        contains_edge_id(live.edges@, idv) implies #[trigger] edge_with_id(
        snap.edges@,
        idv,
    ).eval_at(t2) == edge_with_id(live.edges@, idv).eval_at(t) by {
        let kl = choose|kl: int|
            0 <= kl < live.edges@.len() && (#[trigger] live.edges@[kl]).spec_transform_id() == idv;
        assert(edge_id_views(snap.edges@).len() == snap.edges@.len());
        assert(edge_id_views(live.edges@).len() == live.edges@.len());
        assert(snap.edges@.len() == live.edges@.len());
        assert(edge_id_views(live.edges@)[kl] == live.edges@[kl].spec_transform_id());
        assert(edge_id_views(snap.edges@)[kl] == snap.edges@[kl].spec_transform_id());
        assert(edge_id_views(snap.edges@)[kl] == edge_id_views(live.edges@)[kl]);
        assert(snap.edges@[kl].spec_transform_id() == idv);
        assert(contains_edge_id(snap.edges@, idv));
        lemma_edge_with_id(live.edges@, kl);
        lemma_edge_with_id(snap.edges@, kl);
        assert(snap.edges@[kl]@.is_static());
        assert(edge_with_id(snap.edges@, idv).eval_at(t2) == TransformEval::Exact(
            snap.edges@[kl]@.static_transform(),
        ));
    }
}

} // verus!

verus! {

/// The sample timestamps a dynamic edge carries; a static edge carries none.
pub open spec fn edge_times(v: crate::transform_edge::TransformEdgeView) -> Seq<Time> {
    match v {
        crate::transform_edge::TransformEdgeView::Dynamic(d) => d.samples.map_values(
            |s: TimedTransform| s.timestamp,
        ),
        crate::transform_edge::TransformEdgeView::Static(_) => Seq::empty(),
    }
}

/// The sample timestamps gathered from the first `k` edges of a path.
pub open spec fn path_times_upto(
    edges: Seq<TransformEdge>,
    q: Seq<Seq<char>>,
    k: int,
) -> Seq<Time>
    decreases k,
{
    if k <= 0 {
        Seq::empty()
    } else {
        path_times_upto(edges, q, k - 1) + edge_times(edge_with_id(edges, (q[k - 1], q[k]))@)
    }
}

/// Sorts instants by their nanosecond counts.
#[verifier::loop_isolation(false)]
fn sort_times(v: Vec<Time>) -> (r: Vec<Time>)
    requires
        forall|i: int| 0 <= i < v@.len() ==> (#[trigger] v@[i]).wf(),
    ensures
        r@.to_multiset() == v@.to_multiset(),
        r@.len() == v@.len(),
        forall|i: int| 0 <= i < r@.len() ==> (#[trigger] r@[i]).wf(),
        forall|i: int, j: int| 0 <= i < j < r@.len() ==> #[trigger] r@[i].as_nanos()
            <= #[trigger] r@[j].as_nanos(),
{
    broadcast use vstd::seq_lib::group_to_multiset_ensures;

    let ghost orig = v@;
    let mut rest = v;
    let mut out: Vec<Time> = Vec::new();
    while rest.len() > 0
        invariant
            out@.to_multiset().add(rest@.to_multiset()) =~= orig.to_multiset(),
            forall|i: int| 0 <= i < out@.len() ==> (#[trigger] out@[i]).wf(),
            forall|i: int| 0 <= i < rest@.len() ==> (#[trigger] rest@[i]).wf(),
            forall|i: int, j: int| 0 <= i < j < out@.len() ==> #[trigger] out@[i].as_nanos()
                <= #[trigger] out@[j].as_nanos(),
            forall|i: int, j: int|
                0 <= i < out@.len() && 0 <= j < rest@.len() ==> #[trigger] out@[i].as_nanos()
                    <= #[trigger] rest@[j].as_nanos(),
        decreases rest.len(),
    {
        let mut best: usize = 0;
        let mut j: usize = 1;
        while j < rest.len()
            invariant
                0 <= best < j <= rest@.len(),
                rest@.len() > 0,
                forall|m: int| 0 <= m < j ==> rest@[best as int].as_nanos() <= #[trigger] rest@[
                    m
                ].as_nanos(),
            decreases rest@.len() - j,
        {
            if rest[j].lt(&rest[best]) {
                best = j;
            }
            j = j + 1;
        }
        let ghost old_out = out@;
        let ghost old_rest = rest@;
        let x = rest.remove(best);
        out.push(x);
        proof {
            old_rest.to_multiset_ensures();
            old_out.to_multiset_ensures();
            assert(old_rest.remove(best as int).to_multiset() =~= old_rest.to_multiset().remove(
                x,
            ));
            assert(old_out.push(x).to_multiset() =~= old_out.to_multiset().insert(x));
            assert(old_rest.to_multiset().count(x) > 0) by {
                assert(old_rest[best as int] == x);
                assert(old_rest.contains(x));
            }
            assert(out@.to_multiset().add(rest@.to_multiset()) =~= orig.to_multiset());
        }
    }
    proof {
        out@.to_multiset_ensures();
        orig.to_multiset_ensures();
        assert(rest@.to_multiset() =~= vstd::multiset::Multiset::empty()) by {
            rest@.to_multiset_ensures();
        }
        assert(out@.to_multiset() =~= orig.to_multiset());
        assert(out@.to_multiset().len() == out@.len());
        assert(orig.to_multiset().len() == orig.len());
    }
    out
}

impl TransformTree {
    /// Gathers every sample timestamp of every dynamic edge along the unique
    /// path of the transform identifier, orders them by time, and pairs each
    /// with the evaluations of all path edges at that instant.
    #[verifier::loop_isolation(false)]
    #[verifier::rlimit(60)]
    #[verifier::spinoff_prover]
    pub fn compute_timed_transforms_for_all_samples(&self, transform_id: &TransformId) -> (r:
        Result<Vec<(Time, Vec<TransformEval>)>, Error>)
        requires
            self.wf(),
            transform_id.wf(),
        ensures
            r matches Ok(out) ==> exists|q: Seq<Seq<char>>|
                {
                    &&& is_view_path(self.spec_edge_ids(), q, transform_id@.0, transform_id@.1)
                    &&& unique_view_path(self.spec_edge_ids(), transform_id@.0, transform_id@.1)
                    &&& out@.map_values(|p: (Time, Vec<TransformEval>)| p.0).to_multiset()
                        == path_times_upto(self.edges@, q, q.len() - 1).to_multiset()
                    &&& forall|m: int| 0 <= m < out@.len() ==> (#[trigger] out@[m]).0.wf()
                    &&& forall|a: int, b: int|
                        0 <= a < b < out@.len() ==> (#[trigger] out@[a]).0.as_nanos() <= (
                        #[trigger] out@[b]).0.as_nanos()
                    &&& forall|m: int, k: int|
                        #![trigger out@[m].1@[k]]
                        0 <= m < out@.len() && 0 <= k < q.len() - 1 ==> out@[m].1@.len() == q.len()
                            - 1 && out@[m].1@[k] == edge_with_id(
                            self.edges@,
                            (q[k], q[k + 1]),
                        ).eval_at(out@[m].0.as_nanos())
                },
            r matches Err(e) ==> path_error_spec(*self, *transform_id, e),
            r is Ok <==> contains_view(self.frame_graph.frames@, transform_id@.0) && contains_view(
                self.frame_graph.frames@,
                transform_id@.1,
            ) && unique_view_path(self.spec_edge_ids(), transform_id@.0, transform_id@.1),
    {
        let (idxs, path) = match self.resolve_path_edges(transform_id) {
            Ok(p) => p,
            Err(e) => {
                return Err(e);
            },
        };
        let ghost q = path@;
        let mut times: Vec<Time> = Vec::new();
        let mut k: usize = 0;
        while k < idxs.len()
            invariant
                0 <= k <= idxs@.len(),
                times@ == path_times_upto(self.edges@, q, k as int),
                forall|i: int| 0 <= i < times@.len() ==> (#[trigger] times@[i]).wf(),
            decreases idxs@.len() - k,
        {
            let ghost pre = times@;
            match &self.edges[idxs[k]] {
                TransformEdge::Dynamic(d) => {
                    let samples = d.samples();
                    let mut j: usize = 0;
                    while j < samples.len()
                        invariant
                            0 <= j <= samples@.len(),
                            samples@ == d.spec_samples(),
                            d.wf(),
                            times@ == pre + d.spec_samples().map_values(
                                |s: TimedTransform| s.timestamp,
                            ).take(j as int),
                            forall|i: int| 0 <= i < times@.len() ==> (#[trigger] times@[i]).wf(),
                        decreases samples@.len() - j,
                    {
                        times.push(samples[j].timestamp);
                        proof {
                            let mapped = d.spec_samples().map_values(
                                |s: TimedTransform| s.timestamp,
                            );
                            assert(mapped.take(j + 1) =~= mapped.take(j as int).push(
                                mapped[j as int],
                            ));
                            assert(times@ =~= pre + mapped.take(j + 1));
                            assert(d.spec_samples()[j as int].timestamp.wf());
                        }
                        j = j + 1;
                    }
                    proof {
                        let mapped = d.spec_samples().map_values(|s: TimedTransform| s.timestamp);
                        assert(mapped.take(mapped.len() as int) =~= mapped);
                        assert(self.edges@[idxs@[k as int] as int] == edge_with_id(
                            self.edges@,
                            (q[k as int], q[k as int + 1]),
                        ));
                        assert(edge_times(edge_with_id(self.edges@, (q[k as int], q[k as int + 1]))@)
                            == mapped);
                        assert(times@ =~= path_times_upto(self.edges@, q, k as int + 1));
                    }
                },
                TransformEdge::Static(_) => {
                    proof {
                        assert(self.edges@[idxs@[k as int] as int] == edge_with_id(
                            self.edges@,
                            (q[k as int], q[k as int + 1]),
                        ));
                        assert(edge_times(edge_with_id(self.edges@, (q[k as int], q[k as int + 1]))@)
                            =~= Seq::<Time>::empty());
                        assert(times@ =~= path_times_upto(self.edges@, q, k as int + 1));
                    }
                },
            }
            k = k + 1;
        }
        let sorted = sort_times(times);
        let mut out: Vec<(Time, Vec<TransformEval>)> = Vec::new();
        let mut m: usize = 0;
        while m < sorted.len()
            invariant
                0 <= m <= sorted@.len(),
                out@.len() == m,
                forall|i: int| 0 <= i < out@.len() ==> (#[trigger] out@[i]).0 == sorted@[i],
                forall|i: int, j2: int|
                    #![trigger out@[i].1@[j2]]
                    0 <= i < out@.len() && 0 <= j2 < q.len() - 1 ==> out@[i].1@.len() == q.len() - 1
                        && out@[i].1@[j2] == edge_with_id(self.edges@, (q[j2], q[j2 + 1])).eval_at(
                        out@[i].0.as_nanos(),
                    ),
            decreases sorted@.len() - m,
        {
            let ts = sorted[m];
            let evals = self.eval_edges_at(&idxs, &ts);
            proof {
                assert forall|j2: int| 0 <= j2 < q.len() - 1 implies evals@[j2] == edge_with_id(
                    self.edges@,
                    (q[j2], q[j2 + 1]),
                ).eval_at(ts.as_nanos()) by {
                    assert(evals@[j2] == self.edges@[idxs@[j2] as int].eval_at(ts.as_nanos()));
                }
            }
            out.push((ts, evals));
            m = m + 1;
        }
        proof {
            assert(out@.map_values(|p: (Time, Vec<TransformEval>)| p.0) =~= sorted@);
        }
        Ok(out)
    }
}

/// Whether the edge's value occurs among the first trees' edges: in a tree
/// before `bound_a`, or in tree `bound_a` before position `bound_i`.
pub open spec fn from_inputs(
    trees: Seq<TransformTree>,
    bound_a: int,
    bound_i: int,
    e: TransformEdge,
) -> bool {
    exists|a2: int, i2: int|
        0 <= a2 < trees.len() && 0 <= i2 < trees[a2].edges@.len() && (a2 < bound_a || (a2 == bound_a
            && i2 < bound_i)) && e@ == (#[trigger] trees[a2].edges@[i2])@
}

/// Two positions in a sequence of trees hold edges with one identifier.
pub open spec fn trees_disjoint_upto(trees: Seq<TransformTree>, n: int) -> bool {
    forall|a: int, b: int, i: int, j: int|
        0 <= a < b < n && 0 <= i < trees[a].edges@.len() && 0 <= j < trees[b].edges@.len() ==> (
        #[trigger] trees[a].edges@[i]).spec_transform_id() != (#[trigger] trees[b].edges@[
            j
        ]).spec_transform_id()
}

/// An identifier present in a sequence of edges stays present after a push.
proof fn lemma_contains_push(s: Seq<TransformEdge>, e: TransformEdge, idv: (Seq<char>, Seq<char>))
    requires
        contains_edge_id(s, idv),
    ensures
        contains_edge_id(s.push(e), idv),
{
    let k = choose|k: int| 0 <= k < s.len() && (#[trigger] s[k]).spec_transform_id() == idv;
    assert(s.push(e)[k].spec_transform_id() == idv);
}

/// Merges transform trees into one. The edge mappings must be disjoint by
/// transform identifier: any identifier present in two inputs is a collision
/// and fails the merge. Frame metadata is unioned, a later tree's entry
/// winning under one frame identifier.
#[verifier::loop_isolation(false)]
#[verifier::rlimit(100)]
#[verifier::spinoff_prover]
pub fn merge(transform_trees: &Vec<TransformTree>) -> (r: Result<TransformTree, Error>)
    requires
        forall|i: int| 0 <= i < transform_trees@.len() ==> (#[trigger] transform_trees@[i]).wf(),
        total_edge_count(transform_trees@) <= 0x7FFF_FFFF,
    ensures
        r is Ok <==> trees_disjoint_upto(transform_trees@, transform_trees@.len() as int),
        r matches Ok(t) ==> {
            &&& t.wf()
            &&& forall|a: int, i: int|
                0 <= a < transform_trees@.len() && 0 <= i < transform_trees@[a].edges@.len()
                    ==> contains_edge_id(
                    t.edges@,
                    (#[trigger] transform_trees@[a].edges@[i]).spec_transform_id(),
                ) && edge_with_id(
                    t.edges@,
                    transform_trees@[a].edges@[i].spec_transform_id(),
                )@ == transform_trees@[a].edges@[i]@
            &&& forall|a: int, m: int|
                0 <= a < transform_trees@.len() && 0 <= m < transform_trees@[a].frames@.len()
                    ==> contains_frame_info(
                    t.frames@,
                    (#[trigger] transform_trees@[a].frames@[m]).id@,
                )
        },
        r matches Err(e) ==> e matches Error::ChannelTransformCollisions { transform_id } && exists|
            a: int,
            b: int,
            i: int,
            j: int,
        |
            0 <= a < b < transform_trees@.len() && 0 <= i < transform_trees@[a].edges@.len() && 0
                <= j < transform_trees@[b].edges@.len() && (#[trigger] transform_trees@[a].edges@[
                i
            ]).spec_transform_id() == (#[trigger] transform_trees@[b].edges@[
                j
            ]).spec_transform_id() && transform_id@ == transform_trees@[b].edges@[
                j
            ].spec_transform_id(),
{
    let trees = transform_trees;
    let mut combined_edges: Vec<TransformEdge> = Vec::new();
    let mut combined_frames: Vec<FrameInfo> = Vec::new();
    let mut a: usize = 0;
    while a < trees.len()
        invariant
            0 <= a <= trees@.len(),
            forall|k: int| 0 <= k < combined_edges@.len() ==> (#[trigger] combined_edges@[k]).wf(),
            distinct_edge_ids(combined_edges@),
            combined_edges@.len() == total_edge_count(trees@.take(a as int)),
            trees_disjoint_upto(trees@, a as int),
            forall|a2: int, i: int|
                0 <= a2 < a && 0 <= i < trees@[a2].edges@.len() ==> contains_edge_id(
                    combined_edges@,
                    (#[trigger] trees@[a2].edges@[i]).spec_transform_id(),
                ),
            forall|k: int|
                0 <= k < combined_edges@.len() ==> from_inputs(
                    trees@,
                    a as int,
                    0,
                    #[trigger] combined_edges@[k],
                ),
            forall|a2: int, m: int|
                0 <= a2 < a && 0 <= m < trees@[a2].frames@.len() ==> contains_frame_info(
                    combined_frames@,
                    (#[trigger] trees@[a2].frames@[m]).id@,
                ),
        decreases trees@.len() - a,
    {
        let tree = &trees[a];
        let mut i: usize = 0;
        while i < tree.edges.len()
            invariant
                0 <= i <= tree.edges@.len(),
                tree == &trees@[a as int],
                0 <= a < trees@.len(),
                forall|k: int| 0 <= k < combined_edges@.len() ==> (
                #[trigger] combined_edges@[k]).wf(),
                distinct_edge_ids(combined_edges@),
                combined_edges@.len() == total_edge_count(trees@.take(a as int)) + i,
                forall|a2: int, i2: int|
                    0 <= a2 < a && 0 <= i2 < trees@[a2].edges@.len() ==> contains_edge_id(
                        combined_edges@,
                        (#[trigger] trees@[a2].edges@[i2]).spec_transform_id(),
                    ),
                forall|i2: int| 0 <= i2 < i ==> contains_edge_id(
                    combined_edges@,
                    (#[trigger] tree.edges@[i2]).spec_transform_id(),
                ),
                forall|a2: int, i2: int, i3: int|
                    0 <= a2 < a && 0 <= i2 < trees@[a2].edges@.len() && 0 <= i3 < i ==> (
                    #[trigger] trees@[a2].edges@[i2]).spec_transform_id() != (
                    #[trigger] tree.edges@[i3]).spec_transform_id(),
                forall|k: int|
                    0 <= k < combined_edges@.len() ==> from_inputs(
                        trees@,
                        a as int,
                        i as int,
                        #[trigger] combined_edges@[k],
                    ),
            decreases tree.edges@.len() - i,
        {
            let e = tree.edges[i].clone();
            let tid = e.transform_id();
            proof {
                assert(e@ == tree.edges@[i as int]@);
                assert(tid@ == tree.edges@[i as int].spec_transform_id());
            }
            let mut dup = false;
            let mut j: usize = 0;
            while j < combined_edges.len()
                invariant
                    0 <= j <= combined_edges@.len(),
                    forall|k: int| 0 <= k < combined_edges@.len() ==> (
                    #[trigger] combined_edges@[k]).wf(),
                    !dup ==> forall|k: int| 0 <= k < j ==> (
                    #[trigger] combined_edges@[k]).spec_transform_id() != tid@,
                    dup ==> contains_edge_id(combined_edges@, tid@),
                decreases combined_edges@.len() - j + if dup {
                    0int
                } else {
                    1int
                },
            {
                if dup {
                    j = combined_edges.len();
                } else {
                    let dt = combined_edges[j].transform_id();
                    if dt == tid {
                        dup = true;
                    } else {
                        j = j + 1;
                    }
                }
            }
            if dup {
                proof {
                    let k = choose|k: int|
                        0 <= k < combined_edges@.len() && (
                        #[trigger] combined_edges@[k]).spec_transform_id() == tid@;
                    assert(from_inputs(trees@, a as int, i as int, combined_edges@[k]));
                    let (a2, i2): (int, int) = choose|a2: int, i2: int|
                        0 <= a2 < trees@.len() && 0 <= i2 < trees@[a2].edges@.len() && (a2 < a as int
                            || (a2 == a as int && i2 < i as int)) && combined_edges@[k]@ == (
                        #[trigger] trees@[a2].edges@[i2])@;
                    assert(trees@[a2].edges@[i2].spec_transform_id() == tid@);
                    if a2 == a as int {
                        assert(distinct_edge_ids(trees@[a as int].edges@));
                        assert(false);
                    }
                    assert(0 <= a2 < a as int && 0 <= i2 < trees@[a2].edges@.len() && 0 <= (
                    i as int) < trees@[a as int].edges@.len() && trees@[a2].edges@[
                        i2
                    ].spec_transform_id() == trees@[a as int].edges@[i as int].spec_transform_id()
                        && tid@ == trees@[a as int].edges@[i as int].spec_transform_id());
                }
                return Err(Error::ChannelTransformCollisions { transform_id: tid });
            }
            let ghost pre = combined_edges@;
            combined_edges.push(e);
            proof {
                assert forall|k: int| 0 <= k < combined_edges@.len() implies from_inputs(
                    trees@,
                    a as int,
                    i as int + 1,
                    #[trigger] combined_edges@[k],
                ) by {
                    if k < pre.len() {
                        assert(from_inputs(trees@, a as int, i as int, pre[k]));
                        let (a2, i2): (int, int) = choose|a2: int, i2: int|
                            0 <= a2 < trees@.len() && 0 <= i2 < trees@[a2].edges@.len() && (a2
                                < a as int || (a2 == a as int && i2 < i as int)) && pre[k]@ == (
                            #[trigger] trees@[a2].edges@[i2])@;
                        assert(combined_edges@[k] == pre[k]);
                        assert(combined_edges@[k]@ == trees@[a2].edges@[i2]@);
                    } else {
                        assert(combined_edges@[k] == e);
                        assert(combined_edges@[k]@ == trees@[a as int].edges@[i as int]@);
                    }
                }
                assert forall|a2: int, i2: int|
                    0 <= a2 < a && 0 <= i2 < trees@[a2].edges@.len() implies contains_edge_id(
                    combined_edges@,
                    (#[trigger] trees@[a2].edges@[i2]).spec_transform_id(),
                ) by {
                    lemma_contains_push(pre, e, trees@[a2].edges@[i2].spec_transform_id());
                }
                assert forall|i2: int| 0 <= i2 < i + 1 implies contains_edge_id(
                    combined_edges@,
                    (#[trigger] tree.edges@[i2]).spec_transform_id(),
                ) by {
                    if i2 < i {
                        lemma_contains_push(pre, e, tree.edges@[i2].spec_transform_id());
                    } else {
                        assert(combined_edges@[pre.len() as int].spec_transform_id() == tid@);
                    }
                }
                assert forall|a2: int, i2: int, i3: int|
                    0 <= a2 < a && 0 <= i2 < trees@[a2].edges@.len() && 0 <= i3 < i + 1 implies (
                #[trigger] trees@[a2].edges@[i2]).spec_transform_id() != (
                #[trigger] tree.edges@[i3]).spec_transform_id() by {
                    if i3 == i {
                        if trees@[a2].edges@[i2].spec_transform_id() == tid@ {
                            assert(contains_edge_id(pre, trees@[a2].edges@[
                                i2
                            ].spec_transform_id()));
                            let k = choose|k: int|
                                0 <= k < pre.len() && (#[trigger] pre[k]).spec_transform_id()
                                    == tid@;
                            assert(false);
                        }
                    }
                }
            }
            i = i + 1;
        }
        let ghost frames_before = combined_frames@;
        let mut f: usize = 0;
        while f < tree.frames.len()
            invariant
                0 <= f <= tree.frames@.len(),
                tree == &trees@[a as int],
                0 <= a < trees@.len(),
                combined_frames@.len() == frames_before.len() + f,
                forall|j: int| 0 <= j < frames_before.len() ==> #[trigger] combined_frames@[j]
                    == frames_before[j],
                forall|m: int| 0 <= m < f ==> #[trigger] combined_frames@[frames_before.len()
                    + m].id@ == trees@[a as int].frames@[m].id@,
            decreases tree.frames@.len() - f,
        {
            combined_frames.push(tree.frames[f].clone());
            f = f + 1;
        }
        proof {
            assert forall|a2: int, m: int|
                0 <= a2 < a + 1 && 0 <= m < trees@[a2].frames@.len() implies contains_frame_info(
                combined_frames@,
                (#[trigger] trees@[a2].frames@[m]).id@,
            ) by {
                if a2 < a {
                    let j = choose|j: int|
                        0 <= j < frames_before.len() && (#[trigger] frames_before[j]).id@
                            == trees@[a2].frames@[m].id@;
                    assert(combined_frames@[j].id@ == trees@[a2].frames@[m].id@);
                } else {
                    assert(combined_frames@[frames_before.len() + m].id@ == trees@[a2].frames@[
                        m
                    ].id@);
                }
            }
        }
        proof {
            assert(trees@.take(a + 1).drop_last() =~= trees@.take(a as int));
            assert(total_edge_count(trees@.take(a + 1)) == total_edge_count(trees@.take(a as int))
                + trees@[a as int].edges@.len());
            assert forall|k: int| 0 <= k < combined_edges@.len() implies from_inputs(
                trees@,
                a as int + 1,
                0,
                #[trigger] combined_edges@[k],
            ) by {
                assert(from_inputs(trees@, a as int, i as int, combined_edges@[k]));
                let (a2, i2): (int, int) = choose|a2: int, i2: int|
                    0 <= a2 < trees@.len() && 0 <= i2 < trees@[a2].edges@.len() && (a2 < a as int
                        || (a2 == a as int && i2 < i as int)) && combined_edges@[k]@ == (
                    #[trigger] trees@[a2].edges@[i2])@;
                assert(combined_edges@[k]@ == trees@[a2].edges@[i2]@ && a2 < a as int + 1);
            }
            assert forall|a2: int, b2: int, i2: int, j2: int|
                0 <= a2 < b2 < a + 1 && 0 <= i2 < trees@[a2].edges@.len() && 0 <= j2 < trees@[
                    b2
                ].edges@.len() implies (#[trigger] trees@[a2].edges@[i2]).spec_transform_id() != (
            #[trigger] trees@[b2].edges@[j2]).spec_transform_id() by {}
        }
        a = a + 1;
    }
    proof {
        assert(trees@.take(trees@.len() as int) == trees@);
    }
    match TransformTree::new(combined_edges, combined_frames) {
        Ok(t) => {
            proof {
                let ghost ce = combined_edges@;
                assert(evs(t.edges@) == evs(ce));
                assert(t.edges@.len() == ce.len()) by {
                    assert(evs(t.edges@).len() == evs(ce).len());
                }
                assert forall|a2: int, i: int|
                    0 <= a2 < trees@.len() && 0 <= i < trees@[a2].edges@.len() implies
                    contains_edge_id(
                    t.edges@,
                    (#[trigger] trees@[a2].edges@[i]).spec_transform_id(),
                ) && edge_with_id(t.edges@, trees@[a2].edges@[i].spec_transform_id())@ == trees@[
                    a2
                ].edges@[i]@ by {
                    let idv = trees@[a2].edges@[i].spec_transform_id();
                    assert(contains_edge_id(ce, idv));
                    let k = choose|k: int|
                        0 <= k < ce.len() && (#[trigger] ce[k]).spec_transform_id() == idv;
                    assert(evs(t.edges@)[k] == evs(ce)[k]);
                    assert(t.edges@[k]@ == ce[k]@);
                    assert(t.edges@[k].spec_transform_id() == idv);
                    assert(contains_edge_id(t.edges@, idv));
                    lemma_edge_with_id(t.edges@, k);
                    assert(from_inputs(trees@, trees@.len() as int, 0, ce[k]));
                    let (a3, i3): (int, int) = choose|a3: int, i3: int|
                        0 <= a3 < trees@.len() && 0 <= i3 < trees@[a3].edges@.len() && (a3 < (
                        trees@.len() as int) || (a3 == trees@.len() as int && i3 < 0)) && ce[k]@
                            == (#[trigger] trees@[a3].edges@[i3])@;
                    assert(trees@[a3].edges@[i3].spec_transform_id() == idv);
                    if a3 < a2 || a2 < a3 {
                        assert(false);
                    } else {
                        assert(distinct_edge_ids(trees@[a2].edges@));
                        if i3 != i {
                            assert(false);
                        }
                    }
                }
            }
            Ok(t)
        },
        Err(e) => {
            proof {
                assert(false);
            }
            Err(e)
        },
    }
}

/// The total number of edges across a sequence of trees.
pub open spec fn total_edge_count(trees: Seq<TransformTree>) -> int
    decreases trees.len(),
{
    if trees.len() == 0 {
        0
    } else {
        total_edge_count(trees.drop_last()) + trees.last().edges@.len()
    }
}

} // verus!
