//! A transform graph fixed at a single point in time: each edge carries one
//! evaluated transform.

use vstd::prelude::*;
use crate::error::Error;
use crate::frame_graph::{contains_view, is_view_path, unique_view_path, FrameGraph};
use crate::frames::FrameId;
use crate::transform::{TransformEval, TransformId};

verus! {

/// The identifier pairs of a list of transform identifiers.
pub open spec fn id_views(s: Seq<TransformId>) -> Seq<(Seq<char>, Seq<char>)> {
    s.map_values(|t: TransformId| t@)
}

/// Whether some identifier in the list carries the given pair.
pub open spec fn contains_id_view(s: Seq<TransformId>, idv: (Seq<char>, Seq<char>)) -> bool {
    exists|i: int| 0 <= i < s.len() && (#[trigger] s[i])@ == idv
}

/// The evaluated transform stored under an identifier.
pub open spec fn weight_of(g: IsometryGraph, idv: (Seq<char>, Seq<char>)) -> TransformEval {
    g.weights@[choose|i: int| 0 <= i < g.ids@.len() && (#[trigger] g.ids@[i])@ == idv]
}

/// A directed graph of frames whose edges each carry one evaluated transform.
#[derive(Debug)]
pub struct IsometryGraph {
    pub ids: Vec<TransformId>,
    pub weights: Vec<TransformEval>,
    pub graph: FrameGraph,
}

impl IsometryGraph {
    /// Well-formed: distinct, valid identifiers, one weight each, and the
    /// graph derived exactly from the identifiers.
    pub open spec fn wf(self) -> bool {
        &&& forall|i: int| 0 <= i < self.ids@.len() ==> (#[trigger] self.ids@[i]).wf()
        &&& forall|a: int, b: int| 0 <= a < b < self.ids@.len() ==> (#[trigger] self.ids@[a])@
            != (#[trigger] self.ids@[b])@
        &&& self.weights@.len() == self.ids@.len()
        &&& self.graph.wf()
        &&& self.graph.edge_views() == id_views(self.ids@)
    }

    /// Builds the graph from identifier-transform pairs; at least one must be
    /// given.
    pub fn new(isometry_transforms: Vec<(TransformId, TransformEval)>) -> (r: Result<
        IsometryGraph,
        Error,
    >)
        requires
            forall|i: int| 0 <= i < isometry_transforms@.len() ==> (#[trigger] isometry_transforms@[
                i
            ]).0.wf(),
            forall|a: int, b: int|
                0 <= a < b < isometry_transforms@.len() ==> (#[trigger] isometry_transforms@[
                    a
                ]).0@ != (#[trigger] isometry_transforms@[b]).0@,
            isometry_transforms@.len() <= 0x7FFF_FFFF,
        ensures
            r is Ok <==> isometry_transforms@.len() > 0,
            r matches Err(e) ==> e matches Error::NoTransforms(),
            r matches Ok(g) ==> {
                &&& g.wf()
                &&& g.ids@.len() == isometry_transforms@.len()
                &&& forall|k: int| 0 <= k < g.ids@.len() ==> (#[trigger] g.ids@[k])@
                    == isometry_transforms@[k].0@ && g.weights@[k] == isometry_transforms@[k].1
            },
    {
        if isometry_transforms.len() == 0 {
            return Err(Error::NoTransforms());
        }
        let mut ids: Vec<TransformId> = Vec::new();
        let mut weights: Vec<TransformEval> = Vec::new();
        let mut i: usize = 0;
        while i < isometry_transforms.len()
            invariant
                0 <= i <= isometry_transforms@.len(),
                ids@.len() == i,
                weights@.len() == i,
                forall|k: int| 0 <= k < isometry_transforms@.len() ==> (
                #[trigger] isometry_transforms@[k]).0.wf(),
                forall|k: int| 0 <= k < i ==> (#[trigger] ids@[k])@ == isometry_transforms@[k].0@
                    && ids@[k].wf(),
                forall|k: int| 0 <= k < i ==> #[trigger] weights@[k] == isometry_transforms@[k].1,
            decreases isometry_transforms@.len() - i,
        {
            ids.push(isometry_transforms[i].0.clone());
            weights.push(isometry_transforms[i].1);
            i = i + 1;
        }
        proof {
            assert forall|a: int, b: int| 0 <= a < b < ids@.len() implies (#[trigger] ids@[a])@
                != (#[trigger] ids@[b])@ by {
                assert(isometry_transforms@[a].0@ != isometry_transforms@[b].0@);
            }
        }
        let graph = FrameGraph::new(&ids);
        let g = IsometryGraph { ids, weights, graph };
        proof {
            assert forall|a: int, b: int|
                0 <= a < b < g.ids@.len() implies (#[trigger] g.ids@[a])@ != (
            #[trigger] g.ids@[b])@ by {
                assert(isometry_transforms@[a].0@ != isometry_transforms@[b].0@);
            }
        }
        Ok(g)
    }

    /// All frame identifiers of the graph.
    pub fn get_frame_ids(&self) -> (r: Vec<FrameId>)
        ensures
            r@.map_values(|f: FrameId| f@) == self.graph.frame_views(),
    {
        self.graph.get_frame_ids()
    }

    /// Whether the frame occurs in the graph.
    pub fn contains_frame_id(&self, frame_id: &FrameId) -> (r: bool)
        ensures
            r == self.graph.frame_views().contains(frame_id@),
    {
        self.graph.contains_frame_id(frame_id)
    }

    /// Resolves the unique path between the identifier's frames and returns
    /// the evaluated transforms along it, in path order; their left-to-right
    /// product is the requested isometry.
    #[verifier::loop_isolation(false)]
    pub fn get_isometry(&self, transform_id: &TransformId) -> (r: Result<Vec<TransformEval>, Error>)
        requires
            self.wf(),
            transform_id.wf(),
        ensures
            r matches Ok(factors) ==> exists|q: Seq<Seq<char>>|
                {
                    &&& is_view_path(
                        id_views(self.ids@),
                        q,
                        transform_id@.0,
                        transform_id@.1,
                    )
                    &&& unique_view_path(
                        id_views(self.ids@),
                        transform_id@.0,
                        transform_id@.1,
                    )
                    &&& factors@.len() == q.len() - 1
                    &&& forall|k: int|
                        #![trigger factors@[k]]
                        0 <= k < factors@.len() ==> contains_id_view(self.ids@, (q[k], q[k + 1]))
                            && factors@[k] == weight_of(*self, (q[k], q[k + 1]))
                },
            r matches Err(e) ==> match e {
                Error::InvalidFrameId(f) => (!contains_view(self.graph.frames@, transform_id@.0)
                    ==> f@ == transform_id@.0) && (contains_view(
                    self.graph.frames@,
                    transform_id@.0,
                ) ==> f@ == transform_id@.1 && !contains_view(self.graph.frames@, transform_id@.1)),
                Error::NoTransformPath(t) => t@ == transform_id@ && contains_view(
                    self.graph.frames@,
                    transform_id@.0,
                ) && contains_view(self.graph.frames@, transform_id@.1) && !exists|
                    q: Seq<Seq<char>>,
                |
                    is_view_path(
                        id_views(self.ids@),
                        q,
                        transform_id@.0,
                        transform_id@.1,
                    ),
                Error::MultipleTransformPaths(t) => t@ == transform_id@ && contains_view(
                    self.graph.frames@,
                    transform_id@.0,
                ) && contains_view(self.graph.frames@, transform_id@.1) && exists|
                    p: Seq<Seq<char>>,
                    q: Seq<Seq<char>>,
                |
                    is_view_path(
                        id_views(self.ids@),
                        p,
                        transform_id@.0,
                        transform_id@.1,
                    ) && is_view_path(
                        id_views(self.ids@),
                        q,
                        transform_id@.0,
                        transform_id@.1,
                    ) && p != q,
                _ => false,
            },
    {
        let tids = match self.graph.get_transform_id_path(transform_id) {
            Ok(p) => p,
            Err(e) => {
                proof {
                    if contains_view(self.graph.frames@, transform_id@.0) {
                        let m = choose|m: int|
                            0 <= m < self.graph.frames@.len()
                                && #[trigger] self.graph.frames@[m]@ == transform_id@.0;
                        assert(self.graph.frame_views()[m] == transform_id@.0);
                    }
                    if self.graph.frame_views().contains(transform_id@.0) {
                        let m = choose|m: int|
                            0 <= m < self.graph.frame_views().len()
                                && #[trigger] self.graph.frame_views()[m] == transform_id@.0;
                        assert(contains_view(self.graph.frames@, transform_id@.0));
                    }
                    if contains_view(self.graph.frames@, transform_id@.1) {
                        let m = choose|m: int|
                            0 <= m < self.graph.frames@.len()
                                && #[trigger] self.graph.frames@[m]@ == transform_id@.1;
                        assert(self.graph.frame_views()[m] == transform_id@.1);
                    }
                    if self.graph.frame_views().contains(transform_id@.1) {
                        let m = choose|m: int|
                            0 <= m < self.graph.frame_views().len()
                                && #[trigger] self.graph.frame_views()[m] == transform_id@.1;
                        assert(contains_view(self.graph.frames@, transform_id@.1));
                    }
                    if e is MultipleTransformPaths {
                        let (p, q) = choose|p: Seq<Seq<char>>, q: Seq<Seq<char>>|
                            is_view_path(
                                self.graph.edge_views(),
                                p,
                                transform_id@.0,
                                transform_id@.1,
                            ) && is_view_path(
                                self.graph.edge_views(),
                                q,
                                transform_id@.0,
                                transform_id@.1,
                            ) && p != q;
                        assert(self.graph.edge_views() =~= id_views(self.ids@));
                        assert(is_view_path(
                            id_views(self.ids@),
                            p,
                            transform_id@.0,
                            transform_id@.1,
                        ));
                        assert(is_view_path(
                            id_views(self.ids@),
                            q,
                            transform_id@.0,
                            transform_id@.1,
                        ));
                    }
                }
                return Err(e);
            },
        };
        let ghost q = choose|q: Seq<Seq<char>>|
            {
                &&& is_view_path(self.graph.edge_views(), q, transform_id@.0, transform_id@.1)
                &&& unique_view_path(self.graph.edge_views(), transform_id@.0, transform_id@.1)
                &&& tids@.len() == q.len() - 1
                &&& forall|k: int| 0 <= k < tids@.len() ==> (#[trigger] tids@[k])@ == (q[k], q[k + 1])
                &&& forall|k: int| 0 <= k < tids@.len() ==> (#[trigger] tids@[k]).wf()
                    && self.graph.edge_views().contains(tids@[k]@)
            };
        let mut factors: Vec<TransformEval> = Vec::new();
        let mut k: usize = 0;
        while k < tids.len()
            invariant
                0 <= k <= tids@.len(),
                factors@.len() == k,
                forall|m: int|
                    #![trigger factors@[m]]
                    0 <= m < k ==> contains_id_view(self.ids@, (q[m], q[m + 1])) && factors@[m]
                        == weight_of(*self, (q[m], q[m + 1])),
            decreases tids@.len() - k,
        {
            let mut found: Option<usize> = None;
            let mut j: usize = 0;
            while j < self.ids.len()
                invariant
                    0 <= j <= self.ids@.len(),
                    k < tids@.len(),
                    found is None ==> forall|m: int| 0 <= m < j ==> (#[trigger] self.ids@[m])@
                        != tids@[k as int]@,
                    found matches Some(fi) ==> fi < self.ids@.len() && self.ids@[fi as int]@
                        == tids@[k as int]@,
                decreases self.ids@.len() - j,
            {
                if &self.ids[j] == &tids[k] {
                    found = Some(j);
                    j = self.ids.len();
                } else {
                    j = j + 1;
                }
            }
            match found {
                Some(fi) => {
                    proof {
                        let w = choose|w: int|
                            0 <= w < self.ids@.len() && (#[trigger] self.ids@[w])@ == tids@[
                                k as int
                            ]@;
                        if w != fi {
                            assert(false);
                        }
                    }
                    factors.push(self.weights[fi]);
                },
                None => {
                    proof {
                        let m = choose|m: int|
                            0 <= m < self.graph.edge_views().len()
                                && #[trigger] self.graph.edge_views()[m] == tids@[k as int]@;
                        assert(self.ids@[m]@ == tids@[k as int]@);
                        assert(false);
                    }
                    return Err(Error::InvalidTransformId(tids[k].clone()));
                },
            }
            k = k + 1;
        }
        Ok(factors)
    }
}

} // verus!
