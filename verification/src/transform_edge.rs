//! Transform edges: static, or dynamic with a sorted sample sequence.

use vstd::prelude::*;
use vstd::multiset::Multiset;
use crate::error::Error;
use crate::frames::FrameId;
use crate::interpolation::{
    interpolate_samples, eval_spec, strictly_sorted, times_wf, wf_samples,
};
use crate::time::Time;
use crate::transform::{TimedTransform, Transform, TransformEval, TransformId};
use crate::transform_info::{ExtrapolationMethod, InterpolationMethod};

verus! {

/// Two positions hold samples with one and the same timestamp.
pub open spec fn has_duplicate_times(s: Seq<TimedTransform>) -> bool {
    exists|i: int, j: int|
        0 <= i < j < s.len() && #[trigger] s[i].timestamp.as_nanos() == #[trigger] s[
            j
        ].timestamp.as_nanos()
}

/// Two positions hold samples with the given timestamp.
pub open spec fn has_duplicate_at(s: Seq<TimedTransform>, tn: int) -> bool {
    exists|i: int, j: int|
        0 <= i < j < s.len() && #[trigger] s[i].timestamp.as_nanos() == tn && #[trigger] s[
            j
        ].timestamp.as_nanos() == tn
}

/// Timestamps never decrease.
pub open spec fn sorted_by_time(s: Seq<TimedTransform>) -> bool {
    forall|i: int, j: int|
        0 <= i < j < s.len() ==> #[trigger] s[i].timestamp.as_nanos() <= #[trigger] s[
            j
        ].timestamp.as_nanos()
}

/// Sorts samples by timestamp, stably: a run of equal timestamps keeps its
/// order, and an already sorted sequence comes back unchanged.
#[verifier::loop_isolation(false)]
pub(crate) fn sort_samples(v: Vec<TimedTransform>) -> (r: Vec<TimedTransform>)
    requires
        times_wf(v@),
    ensures
        sorted_by_time(r@),
        r@.to_multiset() == v@.to_multiset(),
        r@.len() == v@.len(),
        times_wf(r@),
        sorted_by_time(v@) ==> r@ == v@,
{
    broadcast use vstd::seq_lib::group_to_multiset_ensures;

    let ghost orig = v@;
    let mut rest = v;
    let mut out: Vec<TimedTransform> = Vec::new();
    while rest.len() > 0
        invariant
            out@.to_multiset().add(rest@.to_multiset()) =~= orig.to_multiset(),
            times_wf(out@),
            times_wf(rest@),
            sorted_by_time(out@),
            forall|i: int, j: int|
                0 <= i < out@.len() && 0 <= j < rest@.len() ==> #[trigger] out@[
                    i
                ].timestamp.as_nanos() <= #[trigger] rest@[j].timestamp.as_nanos(),
            sorted_by_time(orig) ==> out@ + rest@ == orig,
        decreases rest.len(),
    {
        // index of the first minimal timestamp
        let mut best: usize = 0;
        let mut j: usize = 1;
        while j < rest.len()
            invariant
                0 <= best < j <= rest@.len(),
                rest@.len() > 0,
                times_wf(rest@),
                forall|k: int| 0 <= k < j ==> rest@[best as int].timestamp.as_nanos()
                    <= #[trigger] rest@[k].timestamp.as_nanos(),
                forall|k: int| 0 <= k < best ==> rest@[best as int].timestamp.as_nanos()
                    < #[trigger] rest@[k].timestamp.as_nanos(),
            decreases rest@.len() - j,
        {
            if rest[j].timestamp.lt(&rest[best].timestamp) {
                best = j;
            }
            j = j + 1;
        }
        if best == 0 {
        }
        let ghost old_out = out@;
        let ghost old_rest = rest@;
        let x = rest.remove(best);
        out.push(x);
        proof {
            old_rest.to_multiset_ensures();
            old_out.to_multiset_ensures();
            assert(old_rest.remove(best as int).to_multiset() =~= old_rest.to_multiset().remove(
                x,
            ));
            assert(old_out.push(x).to_multiset() =~= old_out.to_multiset().insert(x));
            assert(old_rest.to_multiset().count(x) > 0) by {
                assert(old_rest[best as int] == x);
                assert(old_rest.contains(x));
            }
            assert(out@.to_multiset().add(rest@.to_multiset()) =~= orig.to_multiset());
            if sorted_by_time(orig) {
                assert(best == 0) by {
                    if best > 0 {
                        assert(old_rest[0] == (old_out + old_rest)[old_out.len() as int]);
                        assert(old_rest[best as int] == (old_out + old_rest)[old_out.len()
                            + best]);
                        assert(old_rest[0].timestamp.as_nanos()
                            <= old_rest[best as int].timestamp.as_nanos());
                        assert(old_rest[best as int].timestamp.as_nanos()
                            < old_rest[0].timestamp.as_nanos());
                    }
                }
                assert(out@ + rest@ =~= orig);
            }
        }
    }
    proof {
        out@.to_multiset_ensures();
        orig.to_multiset_ensures();
        assert(rest@.to_multiset() =~= Multiset::empty()) by {
            rest@.to_multiset_ensures();
        }
        assert(out@.to_multiset() =~= orig.to_multiset());
        assert(out@.to_multiset().len() == out@.len());
        assert(orig.to_multiset().len() == orig.len());
    }
    out
}

/// Non-decreasing and free of equal neighbours means strictly increasing.
pub(crate) proof fn lemma_strict_from_adjacent(s: Seq<TimedTransform>, i: int, j: int)
    requires
        forall|k: int| 0 <= k < s.len() - 1 ==> #[trigger] s[k].timestamp.as_nanos() < s[
            k + 1
        ].timestamp.as_nanos(),
        0 <= i < j < s.len(),
    ensures
        s[i].timestamp.as_nanos() < s[j].timestamp.as_nanos(),
    decreases j - i,
{
    if i + 1 < j {
        lemma_strict_from_adjacent(s, i + 1, j);
    }
}

/// A duplicate timestamp survives any reordering.
pub(crate) proof fn lemma_dup_times_multiset(a: Seq<TimedTransform>, b: Seq<TimedTransform>, tn: int)
    requires
        a.to_multiset() == b.to_multiset(),
        has_duplicate_at(a, tn),
    ensures
        has_duplicate_at(b, tn),
{
    a.to_multiset_ensures();
    b.to_multiset_ensures();

    let (i, j): (int, int) = choose|i: int, j: int|
        0 <= i < j < a.len() && #[trigger] a[i].timestamp.as_nanos() == tn && #[trigger] a[
            j
        ].timestamp.as_nanos() == tn;
    let x = a[i];
    let y = a[j];
    if x == y {
        assert(a.remove(i).to_multiset() =~= a.to_multiset().remove(x));
        assert(a.remove(i)[j - 1] == y);
        assert(a.remove(i).contains(x));
        assert(a.remove(i).to_multiset().count(x) > 0) by {
            a.remove(i).to_multiset_ensures();
        }
        assert(b.to_multiset().count(x) >= 2);
        assert(b.contains(x));
        let k = choose|k: int| 0 <= k < b.len() && b[k] == x;
        assert(b.remove(k).to_multiset() =~= b.to_multiset().remove(x));
        assert(b.remove(k).to_multiset().count(x) > 0);
        assert(b.remove(k).contains(x)) by {
            b.remove(k).to_multiset_ensures();
        }
        let l = choose|l: int| 0 <= l < b.remove(k).len() && b.remove(k)[l] == x;
        let l2: int = if l < k {
            l
        } else {
            l + 1
        };
        assert(b[l2] == x);
        assert(k != l2);
        if k < l2 {
            assert(0 <= k < l2 < b.len() && b[k].timestamp.as_nanos() == tn && b[
                l2
            ].timestamp.as_nanos() == tn);
        } else {
            assert(0 <= l2 < k < b.len() && b[l2].timestamp.as_nanos() == tn && b[
                k
            ].timestamp.as_nanos() == tn);
        }
    } else {
        assert(a.contains(x));
        assert(a.contains(y));
        assert(b.to_multiset().count(x) > 0);
        assert(b.to_multiset().count(y) > 0);
        assert(b.contains(x));
        assert(b.contains(y));
        let k = choose|k: int| 0 <= k < b.len() && b[k] == x;
        let l = choose|l: int| 0 <= l < b.len() && b[l] == y;
        assert(k != l);
        if k < l {
            assert(0 <= k < l < b.len() && b[k].timestamp.as_nanos() == tn && b[
                l
            ].timestamp.as_nanos() == tn);
        } else {
            assert(0 <= l < k < b.len() && b[l].timestamp.as_nanos() == tn && b[
                k
            ].timestamp.as_nanos() == tn);
        }
    }
}

/// The spec-level value of a static edge.
pub struct StaticTransformView {
    pub parent_frame_id: Seq<char>,
    pub child_frame_id: Seq<char>,
    pub transform: Transform,
}

/// The spec-level value of a dynamic edge.
pub struct DynamicTransformView {
    pub parent_frame_id: Seq<char>,
    pub child_frame_id: Seq<char>,
    pub interpolation: Option<InterpolationMethod>,
    pub extrapolation: Option<ExtrapolationMethod>,
    pub samples: Seq<TimedTransform>,
}

/// The spec-level value of an edge.
pub enum TransformEdgeView {
    Static(StaticTransformView),
    Dynamic(DynamicTransformView),
}

impl StaticTransformView {
    pub open spec fn wf(self) -> bool {
        self.parent_frame_id != self.child_frame_id
    }
}

impl DynamicTransformView {
    pub open spec fn wf(self) -> bool {
        &&& self.parent_frame_id != self.child_frame_id
        &&& wf_samples(self.samples)
    }
}

impl TransformEdgeView {
    pub open spec fn parent(self) -> Seq<char> {
        match self {
            TransformEdgeView::Static(s) => s.parent_frame_id,
            TransformEdgeView::Dynamic(d) => d.parent_frame_id,
        }
    }

    pub open spec fn child(self) -> Seq<char> {
        match self {
            TransformEdgeView::Static(s) => s.child_frame_id,
            TransformEdgeView::Dynamic(d) => d.child_frame_id,
        }
    }

    /// The edge's transform identifier.
    pub open spec fn id(self) -> (Seq<char>, Seq<char>) {
        (self.parent(), self.child())
    }

    pub open spec fn wf(self) -> bool {
        match self {
            TransformEdgeView::Static(s) => s.wf(),
            TransformEdgeView::Dynamic(d) => d.wf(),
        }
    }

    /// Whether the edge is static.
    pub open spec fn is_static(self) -> bool {
        self is Static
    }

    /// The transform a static edge carries.
    pub open spec fn static_transform(self) -> Transform
        recommends
            self is Static,
    {
        match self {
            TransformEdgeView::Static(s) => s.transform,
            TransformEdgeView::Dynamic(_) => vstd::pervasive::arbitrary(),
        }
    }

    /// What evaluating the edge at time `t` yields.
    pub open spec fn eval_at(self, t: int) -> TransformEval {
        match self {
            TransformEdgeView::Static(s) => TransformEval::Exact(s.transform),
            TransformEdgeView::Dynamic(d) => eval_spec(
                d.samples,
                d.interpolation.unwrap_or(InterpolationMethod::Step),
                d.extrapolation.unwrap_or(ExtrapolationMethod::Constant),
                t,
            ),
        }
    }
}

/// A static edge: one transform between two frames.
#[derive(Debug)]
pub struct StaticTransform {
    pub parent_frame_id: FrameId,
    pub child_frame_id: FrameId,
    pub transform: Transform,
}

impl View for StaticTransform {
    type V = StaticTransformView;

    open spec fn view(&self) -> StaticTransformView {
        StaticTransformView {
            parent_frame_id: self.parent_frame_id@,
            child_frame_id: self.child_frame_id@,
            transform: self.transform,
        }
    }
}

impl Clone for StaticTransform {
    fn clone(&self) -> (r: StaticTransform)
        ensures
            r@ == self@,
    {
        StaticTransform {
            parent_frame_id: self.parent_frame_id.clone(),
            child_frame_id: self.child_frame_id.clone(),
            transform: self.transform,
        }
    }
}

impl StaticTransform {
    pub open spec fn wf(self) -> bool {
        self@.wf()
    }

    pub open spec fn spec_parent(self) -> Seq<char> {
        self.parent_frame_id@
    }

    pub open spec fn spec_child(self) -> Seq<char> {
        self.child_frame_id@
    }

    pub fn new(parent_frame_id: FrameId, child_frame_id: FrameId, transform: Transform) -> (r:
        StaticTransform)
        requires
            parent_frame_id@ != child_frame_id@,
        ensures
            r.spec_parent() == parent_frame_id@,
            r.spec_child() == child_frame_id@,
            r.transform == transform,
            r.wf(),
    {
        StaticTransform { parent_frame_id, child_frame_id, transform }
    }

    pub fn parent_frame_id(&self) -> (r: &FrameId)
        ensures
            r@ == self.spec_parent(),
    {
        &self.parent_frame_id
    }

    pub fn child_frame_id(&self) -> (r: &FrameId)
        ensures
            r@ == self.spec_child(),
    {
        &self.child_frame_id
    }

    pub fn transform_id(&self) -> (r: TransformId)
        requires
            self.wf(),
        ensures
            r@ == (self.spec_parent(), self.spec_child()),
    {
        TransformId::new(self.parent_frame_id.clone(), self.child_frame_id.clone())
    }
}

/// A dynamic edge: a strictly time-ascending, non-empty sample sequence with
/// its interpolation and extrapolation policies.
#[derive(Debug)]
pub struct DynamicTransform {
    pub parent_frame_id: FrameId,
    pub child_frame_id: FrameId,
    pub interpolation: Option<InterpolationMethod>,
    pub extrapolation: Option<ExtrapolationMethod>,
    pub samples: Vec<TimedTransform>,
}

impl View for DynamicTransform {
    type V = DynamicTransformView;

    open spec fn view(&self) -> DynamicTransformView {
        DynamicTransformView {
            parent_frame_id: self.parent_frame_id@,
            child_frame_id: self.child_frame_id@,
            interpolation: self.interpolation,
            extrapolation: self.extrapolation,
            samples: self.samples@,
        }
    }
}

impl Clone for DynamicTransform {
    fn clone(&self) -> (r: DynamicTransform)
        ensures
            r@ == self@,
    {
        DynamicTransform {
            parent_frame_id: self.parent_frame_id.clone(),
            child_frame_id: self.child_frame_id.clone(),
            interpolation: self.interpolation,
            extrapolation: self.extrapolation,
            samples: self.samples.clone(),
        }
    }
}

impl DynamicTransform {
    pub open spec fn wf(self) -> bool {
        self@.wf()
    }

    pub open spec fn spec_parent(self) -> Seq<char> {
        self.parent_frame_id@
    }

    pub open spec fn spec_child(self) -> Seq<char> {
        self.child_frame_id@
    }

    pub open spec fn spec_samples(self) -> Seq<TimedTransform> {
        self.samples@
    }

    /// Builds a dynamic edge. The samples are sorted by timestamp; an empty
    /// sequence or one holding two samples with one timestamp is rejected.
    #[verifier::loop_isolation(false)]
    pub fn new(
        parent_frame_id: FrameId,
        child_frame_id: FrameId,
        interpolation: Option<InterpolationMethod>,
        extrapolation: Option<ExtrapolationMethod>,
        samples: Vec<TimedTransform>,
    ) -> (r: Result<DynamicTransform, Error>)
        requires
            parent_frame_id@ != child_frame_id@,
            times_wf(samples@),
        ensures
            r matches Ok(d) ==> {
                &&& d.wf()
                &&& d.spec_parent() == parent_frame_id@
                &&& d.spec_child() == child_frame_id@
                &&& d.interpolation == interpolation
                &&& d.extrapolation == extrapolation
                &&& d.spec_samples().to_multiset() == samples@.to_multiset()
                &&& sorted_by_time(samples@) ==> d.spec_samples() == samples@
            },
            r is Ok <==> samples@.len() >= 1 && !has_duplicate_times(samples@),
            samples@.len() == 0 ==> (r matches Err(e) && e matches Error::NoTransforms()),
            (r is Err && samples@.len() > 0) ==> (r matches Err(e) && e matches Error::DuplicateTimestamp(t)
                && has_duplicate_at(samples@, t.as_nanos())),
    {
        if samples.len() == 0 {
            return Err(Error::NoTransforms());
        }
        let ghost input = samples@;
        let sorted = sort_samples(samples);
        let n = sorted.len();
        let mut k: usize = 0;
        while k + 1 < n
            invariant
                0 <= k < n,
                n == sorted@.len(),
                times_wf(sorted@),
                sorted_by_time(sorted@),
                forall|m: int| 0 <= m < k ==> #[trigger] sorted@[m].timestamp.as_nanos() < sorted@[
                    m + 1
                ].timestamp.as_nanos(),
            decreases n - k,
        {
            if sorted[k].timestamp.eq_time(&sorted[k + 1].timestamp) {
                proof {
                    let ghost tn = sorted@[k + 1].timestamp.as_nanos();
                    assert(has_duplicate_at(sorted@, tn));
                    lemma_dup_times_multiset(sorted@, input, tn);
                    assert(has_duplicate_times(input)) by {
                        let (i2, j2): (int, int) = choose|i2: int, j2: int|
                            0 <= i2 < j2 < input.len() && #[trigger] input[
                                i2
                            ].timestamp.as_nanos() == tn && #[trigger] input[
                                j2
                            ].timestamp.as_nanos() == tn;
                        assert(input[i2].timestamp.as_nanos() == input[j2].timestamp.as_nanos());
                    }
                }
                return Err(Error::DuplicateTimestamp(sorted[k + 1].timestamp));
            }
            k = k + 1;
        }
        proof {
            assert forall|i: int, j: int| 0 <= i < j < sorted@.len() implies #[trigger] sorted@[
                i
            ].timestamp.as_nanos() < #[trigger] sorted@[j].timestamp.as_nanos() by {
                lemma_strict_from_adjacent(sorted@, i, j);
            }
            if has_duplicate_times(input) {
                let (i2, j2): (int, int) = choose|i2: int, j2: int|
                    0 <= i2 < j2 < input.len() && #[trigger] input[i2].timestamp.as_nanos()
                        == #[trigger] input[j2].timestamp.as_nanos();
                let ghost tn = input[j2].timestamp.as_nanos();
                assert(has_duplicate_at(input, tn));
                lemma_dup_times_multiset(input, sorted@, tn);
                let (i3, j3): (int, int) = choose|i3: int, j3: int|
                    0 <= i3 < j3 < sorted@.len() && #[trigger] sorted@[i3].timestamp.as_nanos()
                        == tn && #[trigger] sorted@[j3].timestamp.as_nanos() == tn;
                assert(sorted@[i3].timestamp.as_nanos() < sorted@[j3].timestamp.as_nanos());
            }
        }
        Ok(
            DynamicTransform {
                parent_frame_id,
                child_frame_id,
                interpolation,
                extrapolation,
                samples: sorted,
            },
        )
    }

    pub fn parent_frame_id(&self) -> (r: &FrameId)
        ensures
            r@ == self.spec_parent(),
    {
        &self.parent_frame_id
    }

    pub fn child_frame_id(&self) -> (r: &FrameId)
        ensures
            r@ == self.spec_child(),
    {
        &self.child_frame_id
    }

    pub fn transform_id(&self) -> (r: TransformId)
        requires
            self.spec_parent() != self.spec_child(),
        ensures
            r@ == (self.spec_parent(), self.spec_child()),
    {
        TransformId::new(self.parent_frame_id.clone(), self.child_frame_id.clone())
    }

    /// The samples, sorted strictly ascending by timestamp.
    pub fn samples(&self) -> (r: &Vec<TimedTransform>)
        ensures
            r@ == self.spec_samples(),
    {
        &self.samples
    }

    pub fn sample_timestamps(&self) -> (r: Vec<Time>)
        ensures
            r@.len() == self.spec_samples().len(),
            forall|i: int| 0 <= i < r@.len() ==> #[trigger] r@[i] == self.spec_samples()[
                i
            ].timestamp,
    {
        let mut out: Vec<Time> = Vec::new();
        let mut i: usize = 0;
        while i < self.samples.len()
            invariant
                0 <= i <= self.samples@.len(),
                out@.len() == i,
                forall|k: int| 0 <= k < i ==> #[trigger] out@[k] == self.samples@[k].timestamp,
            decreases self.samples@.len() - i,
        {
            out.push(self.samples[i].timestamp);
            i = i + 1;
        }
        out
    }

    pub fn first_sample_time(&self) -> (r: Time)
        requires
            self.spec_samples().len() >= 1,
        ensures
            r == self.spec_samples()[0].timestamp,
    {
        self.samples[0].timestamp
    }

    pub fn last_sample_time(&self) -> (r: Time)
        requires
            self.spec_samples().len() >= 1,
        ensures
            r == self.spec_samples().last().timestamp,
    {
        self.samples[self.samples.len() - 1].timestamp
    }

    /// Evaluates the edge at a query time.
    pub fn interpolate(&self, timestamp: &Time) -> (r: TransformEval)
        requires
            self.wf(),
            timestamp.wf(),
        ensures
            r == eval_spec(
                self.spec_samples(),
                self.interpolation.unwrap_or(InterpolationMethod::Step),
                self.extrapolation.unwrap_or(ExtrapolationMethod::Constant),
                timestamp.as_nanos(),
            ),
    {
        let interpolation = match self.interpolation {
            Some(m) => m,
            None => InterpolationMethod::Step,
        };
        let extrapolation = match self.extrapolation {
            Some(m) => m,
            None => ExtrapolationMethod::Constant,
        };
        interpolate_samples(&self.samples, interpolation, extrapolation, timestamp)
    }

    /// Keeps the samples whose timestamp lies in the half-open window
    /// `[start, end)`; an unset bound does not constrain. Fails, leaving the
    /// edge unchanged, when nothing would remain.
    pub fn filter_samples_by_time(&mut self, start_time: Option<Time>, end_time: Option<Time>) -> (r:
        Result<(), Error>)
        requires
            old(self).wf(),
            start_time matches Some(t) ==> t.wf(),
            end_time matches Some(t) ==> t.wf(),
        ensures
            r matches Ok(_) ==> final(self).spec_samples() == filter_window(
                old(self).spec_samples(),
                start_time,
                end_time,
            ) && final(self).wf(),
            r is Err ==> *final(self) == *old(self),
            r is Ok <==> filter_window(old(self).spec_samples(), start_time, end_time).len() > 0,
            r matches Err(e) ==> e matches Error::NoTransforms(),
            final(self).spec_parent() == old(self).spec_parent(),
            final(self).spec_child() == old(self).spec_child(),
            final(self).interpolation == old(self).interpolation,
            final(self).extrapolation == old(self).extrapolation,
    {
        let ghost orig = self.samples@;
        let mut out: Vec<TimedTransform> = Vec::new();
        let mut i: usize = 0;
        while i < self.samples.len()
            invariant
                0 <= i <= self.samples@.len(),
                self.samples@ == orig,
                start_time matches Some(t) ==> t.wf(),
                end_time matches Some(t) ==> t.wf(),
                times_wf(orig),
                out@ == filter_window(orig.take(i as int), start_time, end_time),
            decreases self.samples@.len() - i,
        {
            let s = self.samples[i];
            let keep_low = match &start_time {
                Some(t) => t.le(&s.timestamp),
                None => true,
            };
            let keep_high = match &end_time {
                Some(t) => s.timestamp.lt(t),
                None => true,
            };
            proof {
                assert(orig.take(i + 1).drop_last() == orig.take(i as int));
                assert(orig.take(i + 1).last() == orig[i as int]);
            }
            if keep_low && keep_high {
                out.push(s);
            }
            i = i + 1;
        }
        proof {
            assert(orig.take(orig.len() as int) == orig);
        }
        if out.len() == 0 {
            return Err(Error::NoTransforms());
        }
        proof {
            lemma_filter_window_wf(orig, start_time, end_time);
        }
        self.samples = out;
        Ok(())
    }
}

/// Whether a sample's timestamp lies in the half-open window.
pub open spec fn in_window(s: TimedTransform, start_time: Option<Time>, end_time: Option<Time>) -> bool {
    &&& (start_time matches Some(t) ==> t.as_nanos() <= s.timestamp.as_nanos())
    &&& (end_time matches Some(t) ==> s.timestamp.as_nanos() < t.as_nanos())
}

/// The subsequence of samples inside the half-open window, in order.
pub open spec fn filter_window(
    s: Seq<TimedTransform>,
    start_time: Option<Time>,
    end_time: Option<Time>,
) -> Seq<TimedTransform>
    decreases s.len(),
{
    if s.len() == 0 {
        Seq::empty()
    } else {
        let rest = filter_window(s.drop_last(), start_time, end_time);
        if in_window(s.last(), start_time, end_time) {
            rest.push(s.last())
        } else {
            rest
        }
    }
}

/// The window filter keeps well-formedness: what remains is still non-empty
/// only by the caller's check, well-timed and strictly ascending.
pub proof fn lemma_filter_window_wf_pub(
    s: Seq<TimedTransform>,
    start_time: Option<Time>,
    end_time: Option<Time>,
)
    requires
        times_wf(s),
        strictly_sorted(s),
    ensures
        times_wf(filter_window(s, start_time, end_time)),
        strictly_sorted(filter_window(s, start_time, end_time)),
{
    lemma_filter_window_wf(s, start_time, end_time);
}

proof fn lemma_filter_window_wf(
    s: Seq<TimedTransform>,
    start_time: Option<Time>,
    end_time: Option<Time>,
)
    requires
        times_wf(s),
        strictly_sorted(s),
    ensures
        times_wf(filter_window(s, start_time, end_time)),
        strictly_sorted(filter_window(s, start_time, end_time)),
        filter_window(s, start_time, end_time).len() > 0 ==> filter_window(
            s,
            start_time,
            end_time,
        ).last().timestamp.as_nanos() <= s.last().timestamp.as_nanos(),
    decreases s.len(),
{
    if s.len() > 0 {
        let d = s.drop_last();
        lemma_filter_window_wf(d, start_time, end_time);
        let rest = filter_window(d, start_time, end_time);
        if rest.len() > 0 {
            assert(d.last() == s[s.len() - 2]);
        }
    }
}

/// An edge of the transform graph: static or dynamic.
#[derive(Debug)]
pub enum TransformEdge {
    Static(StaticTransform),
    Dynamic(DynamicTransform),
}

impl View for TransformEdge {
    type V = TransformEdgeView;

    open spec fn view(&self) -> TransformEdgeView {
        match self {
            TransformEdge::Static(s) => TransformEdgeView::Static(s@),
            TransformEdge::Dynamic(d) => TransformEdgeView::Dynamic(d@),
        }
    }
}

impl Clone for TransformEdge {
    fn clone(&self) -> (r: TransformEdge)
        ensures
            r@ == self@,
            r.spec_parent() == self.spec_parent(),
            r.spec_child() == self.spec_child(),
            self.wf() ==> r.wf(),
    {
        match self {
            TransformEdge::Static(s) => TransformEdge::Static(s.clone()),
            TransformEdge::Dynamic(d) => TransformEdge::Dynamic(d.clone()),
        }
    }
}

impl TransformEdge {
    pub open spec fn wf(self) -> bool {
        self@.wf()
    }

    pub open spec fn spec_parent(self) -> Seq<char> {
        self@.parent()
    }

    pub open spec fn spec_child(self) -> Seq<char> {
        self@.child()
    }

    /// The transform identifier, the pair of frame identifiers as spec values.
    pub open spec fn spec_transform_id(self) -> (Seq<char>, Seq<char>) {
        self@.id()
    }

    /// What evaluating this edge at time `t` yields.
    pub open spec fn eval_at(self, t: int) -> TransformEval {
        self@.eval_at(t)
    }

    /// Evaluates the edge at a query time: a static edge's transform verbatim,
    /// a dynamic edge through the interpolation engine.
    pub fn at_time(&self, timestamp: &Time) -> (r: TransformEval)
        requires
            self.wf(),
            timestamp.wf(),
        ensures
            r == self.eval_at(timestamp.as_nanos()),
    {
        match self {
            TransformEdge::Static(s) => TransformEval::Exact(s.transform),
            TransformEdge::Dynamic(d) => d.interpolate(timestamp),
        }
    }

    pub fn parent_frame_id(&self) -> (r: &FrameId)
        ensures
            r@ == self.spec_parent(),
    {
        match self {
            TransformEdge::Static(s) => s.parent_frame_id(),
            TransformEdge::Dynamic(d) => d.parent_frame_id(),
        }
    }

    pub fn child_frame_id(&self) -> (r: &FrameId)
        ensures
            r@ == self.spec_child(),
    {
        match self {
            TransformEdge::Static(s) => s.child_frame_id(),
            TransformEdge::Dynamic(d) => d.child_frame_id(),
        }
    }

    pub fn transform_id(&self) -> (r: TransformId)
        requires
            self.wf(),
        ensures
            r@ == self.spec_transform_id(),
    {
        match self {
            TransformEdge::Static(s) => s.transform_id(),
            TransformEdge::Dynamic(d) => d.transform_id(),
        }
    }
}

} // verus!
