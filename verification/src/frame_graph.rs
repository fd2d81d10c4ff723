//! The directed graph of frames, and unique-path resolution over it.
//!
//! Nodes are frame identifiers; every transform identifier contributes one
//! directed edge from its parent to its child. Path enumeration is done by
//! petgraph; everything around it — the graph model, the lifting between
//! index paths and identifier paths, and the unique-path policy — is proved.

use vstd::prelude::*;
use crate::error::Error;
use crate::frames::FrameId;
use crate::transform::TransformId;

verus! {

/// Whether some frame in the sequence carries the given identifier.
pub open spec fn contains_view(s: Seq<FrameId>, v: Seq<char>) -> bool {
    exists|i: int| 0 <= i < s.len() && #[trigger] s[i]@ == v
}

/// A simple directed path over an edge list on integer nodes: non-empty, from
/// `from` to `to`, each step an edge, no node repeated.
pub open spec fn is_simple_path(
    edges: Seq<(usize, usize)>,
    p: Seq<usize>,
    from: usize,
    to: usize,
) -> bool {
    &&& p.len() >= 1
    &&& p[0] == from
    &&& p.last() == to
    &&& forall|i: int| 0 <= i < p.len() - 1 ==> #[trigger] edges.contains((p[i], p[i + 1]))
    &&& forall|i: int, j: int| 0 <= i < j < p.len() ==> p[i] != p[j]
}

/// A simple directed path over identifier pairs: the nodes are frame
/// identifiers, each step one of the given (parent, child) pairs.
pub open spec fn is_view_path(
    epairs: Seq<(Seq<char>, Seq<char>)>,
    p: Seq<Seq<char>>,
    from: Seq<char>,
    to: Seq<char>,
) -> bool {
    &&& p.len() >= 1
    &&& p[0] == from
    &&& p.last() == to
    &&& forall|i: int| 0 <= i < p.len() - 1 ==> #[trigger] epairs.contains((p[i], p[i + 1]))
    &&& forall|i: int, j: int| 0 <= i < j < p.len() ==> p[i] != p[j]
}

/// Exactly one simple identifier path runs from `from` to `to`.
pub open spec fn unique_view_path(
    epairs: Seq<(Seq<char>, Seq<char>)>,
    from: Seq<char>,
    to: Seq<char>,
) -> bool {
    &&& exists|p: Seq<Seq<char>>| is_view_path(epairs, p, from, to)
    &&& forall|p: Seq<Seq<char>>, q: Seq<Seq<char>>|
        is_view_path(epairs, p, from, to) && is_view_path(epairs, q, from, to) ==> p == q
}

/// Relies on petgraph's `algo::all_simple_paths` on a directed graph: it
/// returns every simple directed path from `from` to `to`, each exactly
/// once. The edges must be pairwise distinct: petgraph keeps parallel edges,
/// and its enumerator yields a node path once per parallel edge on it.
#[verifier::external_body]
fn all_simple_paths_usize(n: usize, edges: &Vec<(usize, usize)>, from: usize, to: usize) -> (r:
    Vec<Vec<usize>>)
    requires
        from < n,
        to < n,
        from != to,
        n <= 0xFFFF_FFFF,
        edges@.len() <= 0xFFFF_FFFF,
        forall|i: int| 0 <= i < edges@.len() ==> (#[trigger] edges@[i]).0 < n && edges@[i].1 < n,
        forall|i: int, j: int| 0 <= i < j < edges@.len() ==> edges@[i] != edges@[j],
    ensures
        forall|k: int| 0 <= k < r@.len() ==> is_simple_path(edges@, #[trigger] r@[k]@, from, to),
        forall|p: Seq<usize>|
            is_simple_path(edges@, p, from, to) ==> exists|k: int| 0 <= k < r@.len() && #[trigger] r@[
                k
            ]@ == p,
        forall|k: int, l: int| 0 <= k < l < r@.len() ==> r@[k]@ != r@[l]@,
{
    let mut g = petgraph::graph::DiGraph::<(), ()>::new();
    (0..n).for_each(|_| {
        g.add_node(());
    });
    g.extend_with_edges(edges.iter().map(|e| (e.0 as u32, e.1 as u32)));
    petgraph::algo::all_simple_paths::<Vec<_>, _, std::hash::RandomState>(
        &g,
        (from as u32).into(),
        (to as u32).into(),
        0,
        None,
    ).map(|p: Vec<petgraph::graph::NodeIndex>| p.into_iter().map(|x| x.index()).collect()).collect()
}

/// A directed graph over frames, derived from a set of transform identifiers.
#[derive(Debug)]
pub struct FrameGraph {
    pub frames: Vec<FrameId>,
    pub edges: Vec<(usize, usize)>,
}

impl Clone for FrameGraph {
    #[verifier::loop_isolation(false)]
    fn clone(&self) -> (r: FrameGraph)
        ensures
            r.frame_views() == self.frame_views(),
            r.edges@ == self.edges@,
            self.wf() ==> r.wf(),
    {
        let mut frames: Vec<FrameId> = Vec::new();
        let mut i: usize = 0;
        while i < self.frames.len()
            invariant
                0 <= i <= self.frames@.len(),
                frames@.len() == i,
                forall|k: int| 0 <= k < i ==> #[trigger] frames@[k]@ == self.frames@[k]@,
            decreases self.frames@.len() - i,
        {
            frames.push(self.frames[i].clone());
            i = i + 1;
        }
        let mut edges: Vec<(usize, usize)> = Vec::new();
        let mut k: usize = 0;
        while k < self.edges.len()
            invariant
                0 <= k <= self.edges@.len(),
                edges@ == self.edges@.take(k as int),
            decreases self.edges@.len() - k,
        {
            edges.push(self.edges[k]);
            proof {
                assert(edges@ =~= self.edges@.take(k + 1));
            }
            k = k + 1;
        }
        proof {
            assert(frames@.map_values(|f: FrameId| f@) =~= self.frames@.map_values(
                |f: FrameId| f@,
            ));
            assert(edges@ =~= self.edges@);
        }
        FrameGraph { frames, edges }
    }
}

impl FrameGraph {
    /// The frame identifiers, as spec values.
    pub open spec fn frame_views(self) -> Seq<Seq<char>> {
        self.frames@.map_values(|f: FrameId| f@)
    }

    /// The edges, as pairs of frame identifiers.
    pub open spec fn edge_views(self) -> Seq<(Seq<char>, Seq<char>)> {
        self.edges@.map_values(
            |e: (usize, usize)| (self.frames@[e.0 as int]@, self.frames@[e.1 as int]@),
        )
    }

    /// Well-formed: distinct frames; edges between existing, distinct frames.
    pub open spec fn wf(self) -> bool {
        &&& forall|i: int, j: int|
            0 <= i < j < self.frames@.len() ==> self.frames@[i]@ != self.frames@[j]@
        &&& forall|k: int|
            0 <= k < self.edges@.len() ==> (#[trigger] self.edges@[k]).0 < self.frames@.len()
                && self.edges@[k].1 < self.frames@.len() && self.edges@[k].0 != self.edges@[k].1
        &&& forall|i: int, j: int| 0 <= i < j < self.edges@.len() ==> self.edges@[i]
            != self.edges@[j]
        &&& self.frames@.len() <= 0xFFFF_FFFF
        &&& self.edges@.len() <= 0xFFFF_FFFF
    }

    /// An empty graph.
    pub fn empty() -> (r: FrameGraph)
        ensures
            r.wf(),
            r.frames@ == Seq::<FrameId>::empty(),
            r.edges@ == Seq::<(usize, usize)>::empty(),
            r.frame_views() == Seq::<Seq<char>>::empty(),
            r.edge_views() == Seq::<(Seq<char>, Seq<char>)>::empty(),
    {
        let r = FrameGraph { frames: Vec::new(), edges: Vec::new() };
        proof {
            assert(r.frame_views() =~= Seq::<Seq<char>>::empty());
            assert(r.edge_views() =~= Seq::<(Seq<char>, Seq<char>)>::empty());
        }
        r
    }

    /// The index of a frame, when present.
    #[verifier::loop_isolation(false)]
    fn find_frame(&self, frame_id: &FrameId) -> (r: Option<usize>)
        ensures
            r matches Some(i) ==> i < self.frames@.len() && self.frames@[i as int]@ == frame_id@,
            r is None ==> !self.frame_views().contains(frame_id@) && !contains_view(
                self.frames@,
                frame_id@,
            ),
    {
        let mut i: usize = 0;
        while i < self.frames.len()
            invariant
                0 <= i <= self.frames@.len(),
                forall|k: int| 0 <= k < i ==> #[trigger] self.frames@[k]@ != frame_id@,
            decreases self.frames@.len() - i,
        {
            if &self.frames[i] == frame_id {
                return Some(i);
            }
            i = i + 1;
        }
        proof {
            if self.frame_views().contains(frame_id@) {
                let k = choose|k: int|
                    0 <= k < self.frame_views().len() && self.frame_views()[k] == frame_id@;
                assert(self.frames@[k]@ == frame_id@);
            }
            if contains_view(self.frames@, frame_id@) {
                let k = choose|k: int| 0 <= k < self.frames@.len() && #[trigger] self.frames@[k]@
                    == frame_id@;
            }
        }
        None
    }

    /// Builds the graph: one node per distinct endpoint frame, one edge per
    /// transform identifier, in order.
    #[verifier::loop_isolation(false)]
    #[verifier::rlimit(100)]
    #[verifier::spinoff_prover]
    pub fn new(transform_ids: &Vec<TransformId>) -> (r: FrameGraph)
        requires
            forall|i: int| 0 <= i < transform_ids@.len() ==> (#[trigger] transform_ids@[i]).wf(),
            forall|i: int, j: int|
                0 <= i < j < transform_ids@.len() ==> (#[trigger] transform_ids@[i])@ != (
                #[trigger] transform_ids@[j])@,
            transform_ids@.len() <= 0x7FFF_FFFF,
        ensures
            r.wf(),
            r.edge_views() == transform_ids@.map_values(|t: TransformId| t@),
            forall|v: Seq<char>|
                #![trigger contains_view(r.frames@, v)]
                contains_view(r.frames@, v) <==> exists|i: int|
                    0 <= i < transform_ids@.len() && ((#[trigger] transform_ids@[i])@.0 == v
                        || transform_ids@[i]@.1 == v),
    {
        let mut g = FrameGraph::empty();
        let n = transform_ids.len();
        let mut i: usize = 0;
        while i < n
            invariant
                0 <= i <= n,
                n == transform_ids@.len(),
                n <= 0x7FFF_FFFF,
                forall|k: int| 0 <= k < n ==> (#[trigger] transform_ids@[k]).wf(),
                g.wf(),
                g.frames@.len() <= 2 * i,
                g.edge_views() =~= transform_ids@.take(i as int).map_values(
                    |t: TransformId| t@,
                ),
                forall|v: Seq<char>|
                    #![trigger contains_view(g.frames@, v)]
                    contains_view(g.frames@, v) <==> exists|k: int|
                        0 <= k < i && ((#[trigger] transform_ids@[k])@.0 == v || transform_ids@[
                            k
                        ]@.1 == v),
            decreases n - i,
        {
            let tid = &transform_ids[i];
            let ghost old_g = g;
            let ghost start_frames = g.frames@;
            let pi = match g.find_frame(&tid.parent_frame_id) {
                Some(p) => p,
                None => {
                    let p = g.frames.len();
                    g.frames.push(tid.parent_frame_id.clone());
                    proof {
                        assert(g.frame_views() =~= old_g.frame_views().push(
                            tid.parent_frame_id@,
                        ));
                        assert(g.edge_views() =~= old_g.edge_views());
                        assert(forall|m: int| 0 <= m < start_frames.len() ==> g.frames@[m]
                            == start_frames[m]);
                        assert forall|a: int, b: int|
                            0 <= a < b < g.frames@.len() implies g.frames@[a]@ != g.frames@[
                            b
                        ]@ by {
                            if b == g.frames@.len() - 1 {
                                if g.frames@[a]@ == tid.parent_frame_id@ {
                                    assert(contains_view(old_g.frames@, tid.parent_frame_id@));
                                }
                            }
                        }
                    }
                    p
                },
            };
            let ghost mid_g = g;
            let ci = match g.find_frame(&tid.child_frame_id) {
                Some(c) => c,
                None => {
                    let c = g.frames.len();
                    g.frames.push(tid.child_frame_id.clone());
                    proof {
                        assert(g.frame_views() =~= mid_g.frame_views().push(tid.child_frame_id@));
                        assert(g.edge_views() =~= mid_g.edge_views());
                        assert(forall|m: int| 0 <= m < start_frames.len() ==> g.frames@[m]
                            == start_frames[m]);
                        assert forall|a: int, b: int|
                            0 <= a < b < g.frames@.len() implies g.frames@[a]@ != g.frames@[
                            b
                        ]@ by {
                            if b == g.frames@.len() - 1 {
                                if g.frames@[a]@ == tid.child_frame_id@ {
                                    assert(contains_view(mid_g.frames@, tid.child_frame_id@));
                                }
                            }
                        }
                    }
                    c
                },
            };
            proof {
                assert(g.frames@[pi as int]@ == tid.parent_frame_id@);
                assert(g.frames@[ci as int]@ == tid.child_frame_id@);
                assert(pi != ci);
            }
            let ghost pre_edge = g;
            g.edges.push((pi, ci));
            proof {
                assert forall|a: int, b: int|
                    0 <= a < b < g.edges@.len() implies g.edges@[a] != g.edges@[b] by {
                    if b == g.edges@.len() - 1 {
                        if g.edges@[a] == (pi, ci) {
                            assert(pre_edge.edge_views()[a] == (
                                g.frames@[pi as int]@,
                                g.frames@[ci as int]@,
                            ));
                            assert(transform_ids@[a]@ == transform_ids@[i as int]@);
                        }
                    }
                }
                assert(g.frame_views() =~= pre_edge.frame_views());
                assert(g.edge_views() =~= pre_edge.edge_views().push(
                    (tid.parent_frame_id@, tid.child_frame_id@),
                ));
                assert(transform_ids@.take(i + 1).map_values(|t: TransformId| t@)
                    =~= transform_ids@.take(i as int).map_values(|t: TransformId| t@).push(
                    transform_ids@[i as int]@,
                ));
                assert forall|m: int|
                    start_frames.len() <= m < g.frames@.len() implies (#[trigger] g.frames@[m]@
                    == tid.parent_frame_id@ || g.frames@[m]@ == tid.child_frame_id@) by {}
                assert forall|v: Seq<char>| #[trigger] contains_view(g.frames@, v) implies exists|
                    k: int,
                |
                    0 <= k < i + 1 && ((#[trigger] transform_ids@[k])@.0 == v || transform_ids@[
                        k
                    ]@.1 == v) by {
                    let m = choose|m: int| 0 <= m < g.frames@.len() && #[trigger] g.frames@[m]@
                        == v;
                    if m < start_frames.len() {
                        assert(start_frames[m]@ == v);
                        assert(contains_view(start_frames, v));
                        let k = choose|k: int|
                            0 <= k < i && ((#[trigger] transform_ids@[k])@.0 == v
                                || transform_ids@[k]@.1 == v);
                        assert(0 <= k < i + 1 && (transform_ids@[k]@.0 == v || transform_ids@[
                            k
                        ]@.1 == v));
                    } else {
                        assert(transform_ids@[i as int]@.0 == v || transform_ids@[i as int]@.1
                            == v);
                    }
                }
                assert forall|k: int|
                    0 <= k < i + 1 implies (contains_view(
                    g.frames@,
                    (#[trigger] transform_ids@[k])@.0,
                ) && contains_view(g.frames@, transform_ids@[k]@.1)) by {
                    if k < i {
                        assert(contains_view(start_frames, transform_ids@[k]@.0));
                        let m = choose|m: int|
                            0 <= m < start_frames.len() && #[trigger] start_frames[m]@
                                == transform_ids@[k]@.0;
                        assert(g.frames@[m]@ == transform_ids@[k]@.0);
                        assert(contains_view(start_frames, transform_ids@[k]@.1));
                        let m2 = choose|m2: int|
                            0 <= m2 < start_frames.len() && #[trigger] start_frames[m2]@
                                == transform_ids@[k]@.1;
                        assert(g.frames@[m2]@ == transform_ids@[k]@.1);
                    } else {
                        assert(g.frames@[pi as int]@ == transform_ids@[k]@.0);
                        assert(g.frames@[ci as int]@ == transform_ids@[k]@.1);
                    }
                }
            }
            i = i + 1;
        }
        proof {
            assert(transform_ids@.take(n as int) == transform_ids@);
        }
        g
    }

    /// All frame identifiers of the graph, distinct.
    #[verifier::loop_isolation(false)]
    pub fn get_frame_ids(&self) -> (r: Vec<FrameId>)
        ensures
            r@.map_values(|f: FrameId| f@) == self.frame_views(),
    {
        let mut out: Vec<FrameId> = Vec::new();
        let mut i: usize = 0;
        while i < self.frames.len()
            invariant
                0 <= i <= self.frames@.len(),
                out@.len() == i,
                forall|k: int| 0 <= k < i ==> #[trigger] out@[k]@ == self.frames@[k]@,
            decreases self.frames@.len() - i,
        {
            out.push(self.frames[i].clone());
            i = i + 1;
        }
        proof {
            assert(out@.map_values(|f: FrameId| f@) =~= self.frame_views());
        }
        out
    }

    /// Whether the frame occurs in the graph.
    pub fn contains_frame_id(&self, frame_id: &FrameId) -> (r: bool)
        ensures
            r == self.frame_views().contains(frame_id@),
    {
        match self.find_frame(frame_id) {
            Some(i) => {
                proof {
                    assert(self.frame_views()[i as int] == frame_id@);
                }
                true
            },
            None => false,
        }
    }

    /// The frames with no incoming edge.
    #[verifier::loop_isolation(false)]
    pub fn root_frames(&self) -> (r: Vec<FrameId>)
        requires
            self.wf(),
        ensures
            forall|v: Seq<char>|
                #![trigger contains_view(r@, v)]
                contains_view(r@, v) <==> (contains_view(self.frames@, v) && !exists|k: int|
                    0 <= k < self.edge_views().len() && (#[trigger] self.edge_views()[k]).1 == v),
    {
        let mut out: Vec<FrameId> = Vec::new();
        let mut i: usize = 0;
        while i < self.frames.len()
            invariant
                0 <= i <= self.frames@.len(),
                self.wf(),
                forall|v: Seq<char>|
                    #![trigger contains_view(out@, v)]
                    contains_view(out@, v) <==> (exists|m: int|
                        0 <= m < i && #[trigger] self.frames@[m]@ == v) && !exists|k: int|
                        0 <= k < self.edge_views().len() && (#[trigger] self.edge_views()[k]).1
                            == v,
            decreases self.frames@.len() - i,
        {
            let ghost old_out = out@;
            let mut incoming = false;
            let mut k: usize = 0;
            while k < self.edges.len()
                invariant
                    0 <= k <= self.edges@.len(),
                    self.wf(),
                    i < self.frames@.len(),
                    incoming == exists|m: int|
                        0 <= m < k && (#[trigger] self.edges@[m]).1 == i as usize,
                decreases self.edges@.len() - k,
            {
                if self.edges[k].1 == i {
                    incoming = true;
                    proof {
                        assert((self.edges@[k as int]).1 == i as usize);
                    }
                    k = self.edges.len();
                } else {
                    k = k + 1;
                }
            }
            proof {
                assert forall|m: int|
                    0 <= m < self.edges@.len() implies ((#[trigger] self.edge_views()[m]).1
                    == self.frames@[i as int]@) == (self.edges@[m].1 == i as usize) by {
                    if self.edges@[m].1 != i as usize {
                        assert(self.frames@[self.edges@[m].1 as int]@ != self.frames@[i as int]@);
                    }
                }
            }
            if !incoming {
                out.push(self.frames[i].clone());
                proof {
                    assert forall|v: Seq<char>| #[trigger] contains_view(out@, v) implies (
                    contains_view(old_out, v) || self.frames@[i as int]@ == v) by {
                        let m = choose|m: int| 0 <= m < out@.len() && #[trigger] out@[m]@ == v;
                        if m < old_out.len() {
                            assert(old_out[m]@ == v);
                        }
                    }
                    assert forall|v: Seq<char>| contains_view(old_out, v) implies contains_view(
                        out@,
                        v,
                    ) by {
                        let m = choose|m: int| 0 <= m < old_out.len() && #[trigger] old_out[m]@
                            == v;
                        assert(out@[m]@ == v);
                    }
                    assert(contains_view(out@, self.frames@[i as int]@)) by {
                        assert(out@[out@.len() - 1]@ == self.frames@[i as int]@);
                    }
                }
            }
            proof {
                let fv = self.frames@[i as int]@;
                assert(incoming == exists|k: int|
                    0 <= k < self.edge_views().len() && (#[trigger] self.edge_views()[k]).1 == fv)
                    by {
                    if incoming {
                        let m = choose|m: int|
                            0 <= m < self.edges@.len() && (#[trigger] self.edges@[m]).1
                                == i as usize;
                        assert((self.edge_views()[m]).1 == fv);
                    }
                }
                assert forall|v: Seq<char>| #[trigger] contains_view(out@, v) implies ((exists|
                    m: int,
                |
                    0 <= m < i + 1 && #[trigger] self.frames@[m]@ == v) && !exists|k: int|
                    0 <= k < self.edge_views().len() && (#[trigger] self.edge_views()[k]).1
                        == v) by {
                    if !incoming && v == fv {
                        assert(self.frames@[i as int]@ == v);
                    } else {
                        assert(contains_view(old_out, v));
                    }
                }
                assert forall|v: Seq<char>|
                    ((exists|m: int| 0 <= m < i + 1 && #[trigger] self.frames@[m]@ == v)
                        && !exists|k: int|
                        0 <= k < self.edge_views().len() && (#[trigger] self.edge_views()[k]).1
                            == v) implies contains_view(out@, v) by {
                    let m = choose|m: int| 0 <= m < i + 1 && #[trigger] self.frames@[m]@ == v;
                    if m == i {
                        assert(!incoming);
                    } else {
                        assert(contains_view(old_out, v));
                        let m2 = choose|m2: int|
                            0 <= m2 < old_out.len() && #[trigger] old_out[m2]@ == v;
                        assert(out@[m2]@ == v);
                    }
                }
            }
            i = i + 1;
        }
        out
    }

    /// The frames with no outgoing edge.
    #[verifier::loop_isolation(false)]
    pub fn child_frames(&self) -> (r: Vec<FrameId>)
        requires
            self.wf(),
        ensures
            forall|v: Seq<char>|
                #![trigger contains_view(r@, v)]
                contains_view(r@, v) <==> (contains_view(self.frames@, v) && !exists|k: int|
                    0 <= k < self.edge_views().len() && (#[trigger] self.edge_views()[k]).0 == v),
    {
        let mut out: Vec<FrameId> = Vec::new();
        let mut i: usize = 0;
        while i < self.frames.len()
            invariant
                0 <= i <= self.frames@.len(),
                self.wf(),
                forall|v: Seq<char>|
                    #![trigger contains_view(out@, v)]
                    contains_view(out@, v) <==> (exists|m: int|
                        0 <= m < i && #[trigger] self.frames@[m]@ == v) && !exists|k: int|
                        0 <= k < self.edge_views().len() && (#[trigger] self.edge_views()[k]).0
                            == v,
            decreases self.frames@.len() - i,
        {
            let ghost old_out = out@;
            let mut outgoing = false;
            let mut k: usize = 0;
            while k < self.edges.len()
                invariant
                    0 <= k <= self.edges@.len(),
                    self.wf(),
                    i < self.frames@.len(),
                    outgoing == exists|m: int|
                        0 <= m < k && (#[trigger] self.edges@[m]).0 == i as usize,
                decreases self.edges@.len() - k,
            {
                if self.edges[k].0 == i {
                    outgoing = true;
                    proof {
                        assert((self.edges@[k as int]).0 == i as usize);
                    }
                    k = self.edges.len();
                } else {
                    k = k + 1;
                }
            }
            proof {
                assert forall|m: int|
                    0 <= m < self.edges@.len() implies ((#[trigger] self.edge_views()[m]).0
                    == self.frames@[i as int]@) == (self.edges@[m].0 == i as usize) by {
                    if self.edges@[m].0 != i as usize {
                        assert(self.frames@[self.edges@[m].0 as int]@ != self.frames@[i as int]@);
                    }
                }
            }
            if !outgoing {
                out.push(self.frames[i].clone());
                proof {
                    assert forall|v: Seq<char>| #[trigger] contains_view(out@, v) implies (
                    contains_view(old_out, v) || self.frames@[i as int]@ == v) by {
                        let m = choose|m: int| 0 <= m < out@.len() && #[trigger] out@[m]@ == v;
                        if m < old_out.len() {
                            assert(old_out[m]@ == v);
                        }
                    }
                    assert forall|v: Seq<char>| contains_view(old_out, v) implies contains_view(
                        out@,
                        v,
                    ) by {
                        let m = choose|m: int| 0 <= m < old_out.len() && #[trigger] old_out[m]@
                            == v;
                        assert(out@[m]@ == v);
                    }
                    assert(contains_view(out@, self.frames@[i as int]@)) by {
                        assert(out@[out@.len() - 1]@ == self.frames@[i as int]@);
                    }
                }
            }
            proof {
                let fv = self.frames@[i as int]@;
                assert(outgoing == exists|k: int|
                    0 <= k < self.edge_views().len() && (#[trigger] self.edge_views()[k]).0 == fv)
                    by {
                    if outgoing {
                        let m = choose|m: int|
                            0 <= m < self.edges@.len() && (#[trigger] self.edges@[m]).0
                                == i as usize;
                        assert((self.edge_views()[m]).0 == fv);
                    }
                }
                assert forall|v: Seq<char>| #[trigger] contains_view(out@, v) implies ((exists|
                    m: int,
                |
                    0 <= m < i + 1 && #[trigger] self.frames@[m]@ == v) && !exists|k: int|
                    0 <= k < self.edge_views().len() && (#[trigger] self.edge_views()[k]).0
                        == v) by {
                    if !outgoing && v == fv {
                        assert(self.frames@[i as int]@ == v);
                    } else {
                        assert(contains_view(old_out, v));
                    }
                }
                assert forall|v: Seq<char>|
                    ((exists|m: int| 0 <= m < i + 1 && #[trigger] self.frames@[m]@ == v)
                        && !exists|k: int|
                        0 <= k < self.edge_views().len() && (#[trigger] self.edge_views()[k]).0
                            == v) implies contains_view(out@, v) by {
                    let m = choose|m: int| 0 <= m < i + 1 && #[trigger] self.frames@[m]@ == v;
                    if m == i {
                        assert(!outgoing);
                    } else {
                        assert(contains_view(old_out, v));
                        let m2 = choose|m2: int|
                            0 <= m2 < old_out.len() && #[trigger] old_out[m2]@ == v;
                        assert(out@[m2]@ == v);
                    }
                }
            }
            i = i + 1;
        }
        out
    }
}

/// The identifier path corresponding to an index path.
pub open spec fn view_of_path(frames: Seq<FrameId>, p: Seq<usize>) -> Seq<Seq<char>> {
    p.map_values(|i: usize| frames[i as int]@)
}

/// An index path lifts to an identifier path.
proof fn lemma_path_lift(g: FrameGraph, p: Seq<usize>, from: usize, to: usize)
    requires
        g.wf(),
        from < g.frames@.len(),
        to < g.frames@.len(),
        is_simple_path(g.edges@, p, from, to),
        forall|i: int| 0 <= i < p.len() ==> (#[trigger] p[i]) < g.frames@.len(),
    ensures
        is_view_path(
            g.edge_views(),
            view_of_path(g.frames@, p),
            g.frames@[from as int]@,
            g.frames@[to as int]@,
        ),
{
    let q = view_of_path(g.frames@, p);
    assert forall|i: int| 0 <= i < q.len() - 1 implies #[trigger] g.edge_views().contains(
        (q[i], q[i + 1]),
    ) by {
        assert(g.edges@.contains((p[i], p[i + 1])));
        let k = choose|k: int| 0 <= k < g.edges@.len() && g.edges@[k] == (p[i], p[i + 1]);
        assert(g.edge_views()[k] == (q[i], q[i + 1]));
    }
    assert forall|i: int, j: int| 0 <= i < j < q.len() implies q[i] != q[j] by {
        assert(p[i] != p[j]);
    }
}

/// Every node on an identifier path of length at least two is an endpoint of
/// some edge, hence a frame; the path lowers to an index path.
proof fn lemma_path_lower(g: FrameGraph, q: Seq<Seq<char>>, from: usize, to: usize)
    requires
        g.wf(),
        from < g.frames@.len(),
        to < g.frames@.len(),
        from != to,
        is_view_path(g.edge_views(), q, g.frames@[from as int]@, g.frames@[to as int]@),
    ensures
        exists|p: Seq<usize>|
            is_simple_path(g.edges@, p, from, to) && view_of_path(g.frames@, p) == q,
{
    let frames = g.frames@;
    if q.len() == 1 {
        assert(frames[from as int]@ == frames[to as int]@);
        assert(false);
    }
    let p = Seq::new(q.len(), |i: int| index_of_view(frames, q[i]) as usize);
    assert forall|i: int| 0 <= i < q.len() implies frames.map_values(|f: FrameId| f@).contains(
        q[i],
    ) by {
        if i < q.len() - 1 {
            assert(g.edge_views().contains((q[i], q[i + 1])));
            let k = choose|k: int|
                0 <= k < g.edge_views().len() && g.edge_views()[k] == (q[i], q[i + 1]);
            assert(frames[g.edges@[k].0 as int]@ == q[i]);
            assert(frames.map_values(|f: FrameId| f@)[g.edges@[k].0 as int] == q[i]);
        } else {
            assert(q[i] == frames[to as int]@);
            assert(frames.map_values(|f: FrameId| f@)[to as int] == q[i]);
        }
    }
    assert forall|i: int| 0 <= i < p.len() implies (#[trigger] p[i]) < frames.len() && frames[p[
        i
    ] as int]@ == q[i] by {
        lemma_index_of_view(frames, q[i]);
    }
    assert(frames[p[0] as int]@ == frames[from as int]@);
    lemma_view_injective(frames, p[0] as int, from as int);
    assert(frames[p[p.len() - 1] as int]@ == frames[to as int]@);
    lemma_view_injective(frames, p[p.len() - 1] as int, to as int);
    assert forall|i: int| 0 <= i < p.len() - 1 implies #[trigger] g.edges@.contains(
        (p[i], p[i + 1]),
    ) by {
        assert(g.edge_views().contains((q[i], q[i + 1])));
        let k = choose|k: int|
            0 <= k < g.edge_views().len() && g.edge_views()[k] == (q[i], q[i + 1]);
        assert(frames[g.edges@[k].0 as int]@ == q[i]);
        assert(frames[g.edges@[k].1 as int]@ == q[i + 1]);
        lemma_view_injective(frames, p[i] as int, g.edges@[k].0 as int);
        lemma_view_injective(frames, p[i + 1] as int, g.edges@[k].1 as int);
        assert(g.edges@[k] == (p[i], p[i + 1]));
    }
    assert forall|i: int, j: int| 0 <= i < j < p.len() implies p[i] != p[j] by {
        assert(q[i] != q[j]);
    }
    assert(is_simple_path(g.edges@, p, from, to));
    assert(view_of_path(frames, p) =~= q);
}

/// The index of the frame with the given identifier.
pub open spec fn index_of_view(frames: Seq<FrameId>, v: Seq<char>) -> int {
    choose|i: int| 0 <= i < frames.len() && frames[i]@ == v
}

proof fn lemma_index_of_view(frames: Seq<FrameId>, v: Seq<char>)
    requires
        frames.map_values(|f: FrameId| f@).contains(v),
    ensures
        0 <= index_of_view(frames, v) < frames.len(),
        frames[index_of_view(frames, v)]@ == v,
{
    let vs = frames.map_values(|f: FrameId| f@);
    let k = choose|k: int| 0 <= k < vs.len() && #[trigger] vs[k] == v;
    assert(frames[k]@ == v);
}

proof fn lemma_view_injective(frames: Seq<FrameId>, i: int, j: int)
    requires
        forall|a: int, b: int| 0 <= a < b < frames.len() ==> frames[a]@ != frames[b]@,
        0 <= i < frames.len(),
        0 <= j < frames.len(),
        frames[i]@ == frames[j]@,
    ensures
        i == j,
{
}

impl FrameGraph {
    /// Resolves the unique simple directed path between the two frames of a
    /// transform identifier, as the sequence of frames along it.
    ///
    /// Fails with `InvalidFrameId` when an endpoint is absent, with
    /// `NoTransformPath` when no simple path runs between them, and with
    /// `MultipleTransformPaths` when more than one does.
    #[verifier::loop_isolation(false)]
    pub fn get_frame_id_path(&self, transform_id: &TransformId) -> (r: Result<Vec<FrameId>, Error>)
        requires
            self.wf(),
            transform_id.wf(),
        ensures
            r matches Ok(path) ==> {
                &&& is_view_path(
                    self.edge_views(),
                    path@.map_values(|f: FrameId| f@),
                    transform_id@.0,
                    transform_id@.1,
                )
                &&& unique_view_path(self.edge_views(), transform_id@.0, transform_id@.1)
            },
            r matches Err(e) ==> match e {
                Error::InvalidFrameId(f) => (!self.frame_views().contains(transform_id@.0) ==> f@
                    == transform_id@.0) && (self.frame_views().contains(transform_id@.0) ==> f@
                    == transform_id@.1 && !self.frame_views().contains(transform_id@.1)),
                Error::NoTransformPath(t) => t@ == transform_id@ && self.frame_views().contains(
                    transform_id@.0,
                ) && self.frame_views().contains(transform_id@.1) && !exists|p: Seq<Seq<char>>|
                    is_view_path(self.edge_views(), p, transform_id@.0, transform_id@.1),
                Error::MultipleTransformPaths(t) => t@ == transform_id@
                    && self.frame_views().contains(transform_id@.0)
                    && self.frame_views().contains(transform_id@.1) && exists|
                    p: Seq<Seq<char>>,
                    q: Seq<Seq<char>>,
                |
                    is_view_path(self.edge_views(), p, transform_id@.0, transform_id@.1)
                        && is_view_path(self.edge_views(), q, transform_id@.0, transform_id@.1)
                        && p != q,
                _ => false,
            },
            r is Ok <==> self.frame_views().contains(transform_id@.0)
                && self.frame_views().contains(transform_id@.1) && unique_view_path(
                self.edge_views(),
                transform_id@.0,
                transform_id@.1,
            ),
    {
        let from = match self.find_frame(&transform_id.parent_frame_id) {
            Some(i) => i,
            None => {
                return Err(Error::InvalidFrameId(transform_id.parent_frame_id.clone()));
            },
        };
        let to = match self.find_frame(&transform_id.child_frame_id) {
            Some(i) => i,
            None => {
                proof {
                    assert(self.frame_views()[from as int] == transform_id@.0);
                    assert(self.frame_views().contains(transform_id@.0));
                }
                return Err(Error::InvalidFrameId(transform_id.child_frame_id.clone()));
            },
        };
        proof {
            assert(self.frame_views()[from as int] == transform_id@.0);
            assert(self.frame_views()[to as int] == transform_id@.1);
            assert(self.frame_views().contains(transform_id@.0));
            assert(self.frame_views().contains(transform_id@.1));
            assert(from != to);
        }
        let paths = all_simple_paths_usize(self.frames.len(), &self.edges, from, to);
        if paths.len() == 0 {
            proof {
                assert forall|q: Seq<Seq<char>>|
                    !is_view_path(self.edge_views(), q, transform_id@.0, transform_id@.1) by {
                    if is_view_path(self.edge_views(), q, transform_id@.0, transform_id@.1) {
                        lemma_path_lower(*self, q, from, to);
                    }
                }
            }
            return Err(Error::NoTransformPath(transform_id.clone()));
        }
        if paths.len() > 1 {
            proof {
                let p0 = paths@[0]@;
                let p1 = paths@[1]@;
                assert(is_simple_path(self.edges@, p0, from, to));
                assert(is_simple_path(self.edges@, p1, from, to));
                lemma_index_paths_in_range(*self, p0);
                lemma_index_paths_in_range(*self, p1);
                lemma_path_lift(*self, p0, from, to);
                lemma_path_lift(*self, p1, from, to);
                assert(p0 != p1);
                let k = choose|k: int| 0 <= k < p0.len() && 0 <= k < p1.len() && p0[k] != p1[k]
                    || !(p0.len() == p1.len());
                if p0.len() == p1.len() {
                    assert(exists|k: int| 0 <= k < p0.len() && p0[k] != p1[k]) by {
                        if forall|k: int| 0 <= k < p0.len() ==> p0[k] == p1[k] {
                            assert(p0 =~= p1);
                        }
                    }
                    let k2 = choose|k2: int| 0 <= k2 < p0.len() && p0[k2] != p1[k2];
                    lemma_view_unequal(*self, p0[k2], p1[k2]);
                    assert(view_of_path(self.frames@, p0)[k2] != view_of_path(
                        self.frames@,
                        p1,
                    )[k2]);
                }
                assert(view_of_path(self.frames@, p0) != view_of_path(self.frames@, p1));
            }
            return Err(Error::MultipleTransformPaths(transform_id.clone()));
        }
        let chosen = &paths[0];
        proof {
            assert(is_simple_path(self.edges@, chosen@, from, to));
            lemma_index_paths_in_range(*self, chosen@);
            lemma_path_lift(*self, chosen@, from, to);
            assert forall|q: Seq<Seq<char>>|
                is_view_path(
                    self.edge_views(),
                    q,
                    transform_id@.0,
                    transform_id@.1,
                ) implies q == view_of_path(self.frames@, chosen@) by {
                lemma_path_lower(*self, q, from, to);
                let p = choose|p: Seq<usize>|
                    is_simple_path(self.edges@, p, from, to) && view_of_path(self.frames@, p)
                        == q;
                let k = choose|k: int| 0 <= k < paths@.len() && paths@[k]@ == p;
                assert(k == 0);
            }
        }
        let mut out: Vec<FrameId> = Vec::new();
        let mut i: usize = 0;
        while i < chosen.len()
            invariant
                0 <= i <= chosen@.len(),
                out@.len() == i,
                self.wf(),
                forall|k: int| 0 <= k < chosen@.len() ==> (#[trigger] chosen@[k])
                    < self.frames@.len(),
                forall|k: int| 0 <= k < i ==> #[trigger] out@[k]@ == self.frames@[chosen@[
                    k
                ] as int]@,
            decreases chosen@.len() - i,
        {
            out.push(self.frames[chosen[i]].clone());
            i = i + 1;
        }
        proof {
            assert(out@.map_values(|f: FrameId| f@) =~= view_of_path(self.frames@, chosen@));
        }
        Ok(out)
    }
}

/// Nodes of a simple path are valid frame indices.
proof fn lemma_index_paths_in_range(g: FrameGraph, p: Seq<usize>)
    requires
        g.wf(),
        p.len() >= 1,
        forall|i: int| 0 <= i < p.len() - 1 ==> #[trigger] g.edges@.contains((p[i], p[i + 1])),
        p.last() < g.frames@.len(),
    ensures
        forall|i: int| 0 <= i < p.len() ==> (#[trigger] p[i]) < g.frames@.len(),
{
    assert forall|i: int| 0 <= i < p.len() implies (#[trigger] p[i]) < g.frames@.len() by {
        if i < p.len() - 1 {
            assert(g.edges@.contains((p[i], p[i + 1])));
            let k = choose|k: int| 0 <= k < g.edges@.len() && g.edges@[k] == (p[i], p[i + 1]);
            assert(g.edges@[k].0 < g.frames@.len());
        }
    }
}

/// Distinct frame indices carry distinct identifiers.
proof fn lemma_view_unequal(g: FrameGraph, i: usize, j: usize)
    requires
        g.wf(),
        i < g.frames@.len(),
        j < g.frames@.len(),
        i != j,
    ensures
        g.frames@[i as int]@ != g.frames@[j as int]@,
{
}

impl FrameGraph {
    /// The unique path, converted to the sequence of adjacent transform
    /// identifiers along it.
    #[verifier::loop_isolation(false)]
    pub fn get_transform_id_path(&self, transform_id: &TransformId) -> (r: Result<
        Vec<TransformId>,
        Error,
    >)
        requires
            self.wf(),
            transform_id.wf(),
        ensures
            r matches Ok(tids) ==> exists|q: Seq<Seq<char>>|
                {
                    &&& is_view_path(self.edge_views(), q, transform_id@.0, transform_id@.1)
                    &&& unique_view_path(self.edge_views(), transform_id@.0, transform_id@.1)
                    &&& tids@.len() == q.len() - 1
                    &&& forall|k: int| 0 <= k < tids@.len() ==> (#[trigger] tids@[k])@ == (
                        q[k],
                        q[k + 1],
                    )
                    &&& forall|k: int| 0 <= k < tids@.len() ==> (#[trigger] tids@[k]).wf()
                        && self.edge_views().contains(tids@[k]@)
                },
            r is Ok <==> self.frame_views().contains(transform_id@.0)
                && self.frame_views().contains(transform_id@.1) && unique_view_path(
                self.edge_views(),
                transform_id@.0,
                transform_id@.1,
            ),
            r matches Err(e) ==> match e {
                Error::InvalidFrameId(f) => (!self.frame_views().contains(transform_id@.0) ==> f@
                    == transform_id@.0) && (self.frame_views().contains(transform_id@.0) ==> f@
                    == transform_id@.1 && !self.frame_views().contains(transform_id@.1)),
                Error::NoTransformPath(t) => t@ == transform_id@ && self.frame_views().contains(
                    transform_id@.0,
                ) && self.frame_views().contains(transform_id@.1) && !exists|p: Seq<Seq<char>>|
                    is_view_path(self.edge_views(), p, transform_id@.0, transform_id@.1),
                Error::MultipleTransformPaths(t) => t@ == transform_id@
                    && self.frame_views().contains(transform_id@.0)
                    && self.frame_views().contains(transform_id@.1) && exists|
                    p: Seq<Seq<char>>,
                    q: Seq<Seq<char>>,
                |
                    is_view_path(self.edge_views(), p, transform_id@.0, transform_id@.1)
                        && is_view_path(self.edge_views(), q, transform_id@.0, transform_id@.1)
                        && p != q,
                _ => false,
            },
    {
        let path = match self.get_frame_id_path(transform_id) {
            Ok(p) => p,
            Err(e) => {
                return Err(e);
            },
        };
        let ghost q = path@.map_values(|f: FrameId| f@);
        let mut out: Vec<TransformId> = Vec::new();
        let mut i: usize = 0;
        while i < path.len() - 1
            invariant
                0 <= i <= q.len(),
                path@.len() == q.len(),
                q.len() >= 1,
                i + 1 <= q.len(),
                forall|k: int| 0 <= k < q.len() ==> #[trigger] path@[k]@ == q[k],
                forall|a: int, b: int| 0 <= a < b < q.len() ==> q[a] != q[b],
                forall|k: int| 0 <= k < q.len() - 1 ==> #[trigger] self.edge_views().contains(
                    (q[k], q[k + 1]),
                ),
                out@.len() == i,
                forall|k: int| 0 <= k < i ==> (#[trigger] out@[k])@ == (q[k], q[k + 1]),
                forall|k: int| 0 <= k < i ==> (#[trigger] out@[k]).wf(),
            decreases path@.len() - i,
        {
            let parent = path[i].clone();
            let child = path[i + 1].clone();
            out.push(TransformId::new(parent, child));
            i = i + 1;
        }
        Ok(out)
    }
}

} // verus!
