//! The sample interpolation engine.
//!
//! Given a non-empty, strictly time-ascending sample sequence, a query time
//! and the interpolation and extrapolation methods, the engine selects the
//! exact evaluation: a sample transform taken verbatim, or the pair of
//! samples to blend with the exact rational weight. Executing a blend is
//! floating-point work left to the caller; everything decided here is proved.

use vstd::prelude::*;
use crate::time::Time;
use crate::transform::{TimedTransform, TransformEval};
use crate::transform_info::{ExtrapolationMethod, InterpolationMethod};

verus! {

/// Every timestamp is well-formed.
pub open spec fn times_wf(s: Seq<TimedTransform>) -> bool {
    forall|i: int| 0 <= i < s.len() ==> #[trigger] s[i].timestamp.wf()
}

/// Timestamps are strictly ascending.
pub open spec fn strictly_sorted(s: Seq<TimedTransform>) -> bool {
    forall|i: int, j: int|
        0 <= i < j < s.len() ==> #[trigger] s[i].timestamp.as_nanos()
            < #[trigger] s[j].timestamp.as_nanos()
}

/// A valid sample sequence: non-empty, well-formed times, strictly ascending.
pub open spec fn wf_samples(s: Seq<TimedTransform>) -> bool {
    &&& s.len() >= 1
    &&& times_wf(s)
    &&& strictly_sorted(s)
}

/// All samples carry one and the same transform.
pub open spec fn all_same_transform(s: Seq<TimedTransform>) -> bool {
    forall|i: int| 0 <= i < s.len() ==> #[trigger] s[i].transform == s[0].transform
}

/// The greatest index whose sample lies at or before `t`; `0` when every
/// sample lies after `t`.
pub open spec fn prev_index(s: Seq<TimedTransform>, t: int) -> int
    decreases s.len(),
{
    if s.len() <= 1 {
        0
    } else if s.last().timestamp.as_nanos() <= t {
        s.len() - 1
    } else {
        prev_index(s.drop_last(), t)
    }
}

/// The blend of two samples at time `t`: weight `(t - a.t) / (b.t - a.t)`.
pub open spec fn blend_of(a: TimedTransform, b: TimedTransform, t: int) -> TransformEval {
    TransformEval::Blend {
        first: a.transform,
        second: b.transform,
        num: (t - a.timestamp.as_nanos()) as i128,
        den: (b.timestamp.as_nanos() - a.timestamp.as_nanos()) as i128,
    }
}

/// What the engine returns, as a function of the sample sequence, the two
/// methods and the query time in nanoseconds.
///
/// The branches: the static fast-path first; then extrapolation when `t` lies
/// strictly outside the sample range (clamping to the boundary sample, or
/// blending over the boundary segment with the weight applied verbatim); else
/// interpolation (the sample at or before `t` for the step method, the
/// bracketing blend for the linear method, exact at sample times).
pub open spec fn eval_spec(
    s: Seq<TimedTransform>,
    interpolation: InterpolationMethod,
    extrapolation: ExtrapolationMethod,
    t: int,
) -> TransformEval {
    if all_same_transform(s) {
        TransformEval::Exact(s[0].transform)
    } else if t < s[0].timestamp.as_nanos() {
        match extrapolation {
            ExtrapolationMethod::Constant => TransformEval::Exact(s[0].transform),
            ExtrapolationMethod::Linear => blend_of(s[0], s[1], t),
        }
    } else if s.last().timestamp.as_nanos() < t {
        match extrapolation {
            ExtrapolationMethod::Constant => TransformEval::Exact(s.last().transform),
            ExtrapolationMethod::Linear => blend_of(s[s.len() - 2], s.last(), t),
        }
    } else {
        let p = prev_index(s, t);
        match interpolation {
            InterpolationMethod::Step => TransformEval::Exact(s[p].transform),
            InterpolationMethod::Linear => if s[p].timestamp.as_nanos() == t {
                TransformEval::Exact(s[p].transform)
            } else {
                blend_of(s[p], s[p + 1], t)
            },
        }
    }
}

/// `prev_index` stays in range and brackets `t` once the first sample lies at
/// or before `t`.
pub proof fn lemma_prev_index(s: Seq<TimedTransform>, t: int)
    requires
        s.len() >= 1,
        strictly_sorted(s),
        s[0].timestamp.as_nanos() <= t,
    ensures
        0 <= prev_index(s, t) < s.len(),
        s[prev_index(s, t)].timestamp.as_nanos() <= t,
        prev_index(s, t) < s.len() - 1 ==> t < s[prev_index(s, t) + 1].timestamp.as_nanos(),
    decreases s.len(),
{
    if s.len() <= 1 {
    } else if s.last().timestamp.as_nanos() <= t {
    } else {
        let d = s.drop_last();
        assert(forall|i: int| 0 <= i < d.len() ==> d[i] == s[i]);
        lemma_prev_index(d, t);
        let p = prev_index(d, t);
        if p == d.len() - 1 {
        }
    }
}

/// An index that lies at or before `t` and whose successor (if any) lies
/// after `t` is exactly `prev_index`.
pub proof fn lemma_prev_index_unique(s: Seq<TimedTransform>, t: int, i: int)
    requires
        s.len() >= 1,
        strictly_sorted(s),
        0 <= i < s.len(),
        s[i].timestamp.as_nanos() <= t,
        i == s.len() - 1 || t < s[i + 1].timestamp.as_nanos(),
    ensures
        prev_index(s, t) == i,
    decreases s.len(),
{
    if s.len() <= 1 {
    } else if s.last().timestamp.as_nanos() <= t {
        if i < s.len() - 1 {
            assert(s[i + 1].timestamp.as_nanos() <= s[s.len() - 1].timestamp.as_nanos());
        }
    } else {
        let d = s.drop_last();
        assert(forall|j: int| 0 <= j < d.len() ==> d[j] == s[j]);
        assert(i < s.len() - 1);
        lemma_prev_index_unique(d, t, i);
    }
}

/// Selects the evaluation of a sample sequence at a query time.
///
/// The step branch locates the bracketing sample by binary search.
pub fn interpolate_samples(
    samples: &Vec<TimedTransform>,
    interpolation: InterpolationMethod,
    extrapolation: ExtrapolationMethod,
    timestamp: &Time,
) -> (r: TransformEval)
    requires
        wf_samples(samples@),
        timestamp.wf(),
    ensures
        r == eval_spec(samples@, interpolation, extrapolation, timestamp.as_nanos()),
{
    let t = *timestamp;
    let n = samples.len();
    let first = samples[0];
    let last = samples[n - 1];

    // static fast-path
    let mut all_same = true;
    let mut k: usize = 0;
    while k < n
        invariant
            0 <= k <= n,
            n == samples@.len(),
            all_same == (forall|i: int| 0 <= i < k ==> #[trigger] samples@[i].transform
                == samples@[0].transform),
        decreases n - k,
    {
        if !(samples[k].transform == samples[0].transform) {
            all_same = false;
            assert(!(samples@[k as int].transform == samples@[0].transform));
            k = n;
        } else {
            k = k + 1;
        }
    }
    if all_same {
        return TransformEval::Exact(first.transform);
    }
    assert(!all_same_transform(samples@));
    assert(n >= 2) by {
        if n < 2 {
            assert(all_same_transform(samples@));
        }
    }

    if t.lt(&first.timestamp) {
        return match extrapolation {
            ExtrapolationMethod::Constant => TransformEval::Exact(first.transform),
            ExtrapolationMethod::Linear => {
                let second = samples[1];
                TransformEval::Blend {
                    first: first.transform,
                    second: second.transform,
                    num: t.diff_nanos(&first.timestamp),
                    den: second.timestamp.diff_nanos(&first.timestamp),
                }
            },
        };
    }
    if last.timestamp.lt(&t) {
        return match extrapolation {
            ExtrapolationMethod::Constant => TransformEval::Exact(last.transform),
            ExtrapolationMethod::Linear => {
                let before = samples[n - 2];
                TransformEval::Blend {
                    first: before.transform,
                    second: last.transform,
                    num: t.diff_nanos(&before.timestamp),
                    den: last.timestamp.diff_nanos(&before.timestamp),
                }
            },
        };
    }

    // first.t <= t <= last.t: binary search for the greatest index at or before t
    let mut lo: usize = 0;
    let mut hi: usize = n;
    while hi - lo > 1
        invariant
            0 <= lo < hi <= n,
            n == samples@.len(),
            wf_samples(samples@),
            t.wf(),
            samples@[lo as int].timestamp.as_nanos() <= t.as_nanos(),
            hi < n ==> t.as_nanos() < samples@[hi as int].timestamp.as_nanos(),
        decreases hi - lo,
    {
        let mid = lo + (hi - lo) / 2;
        if samples[mid].timestamp.le(&t) {
            lo = mid;
        } else {
            hi = mid;
        }
    }
    proof {
        lemma_prev_index_unique(samples@, t.as_nanos(), lo as int);
    }
    let prev = samples[lo];
    match interpolation {
        InterpolationMethod::Step => TransformEval::Exact(prev.transform),
        InterpolationMethod::Linear => {
            if prev.timestamp.eq_time(&t) {
                TransformEval::Exact(prev.transform)
            } else {
                assert(lo + 1 < n) by {
                    if lo == n - 1 {
                        assert(samples@[lo as int].timestamp.as_nanos() >= t.as_nanos());
                    }
                }
                let next = samples[lo + 1];
                TransformEval::Blend {
                    first: prev.transform,
                    second: next.transform,
                    num: t.diff_nanos(&prev.timestamp),
                    den: next.timestamp.diff_nanos(&prev.timestamp),
                }
            }
        },
    }
}

/// Interpolation boundaries: at every sample timestamp the engine returns that
/// sample's transform exactly, under the step method and under the linear
/// method alike, for any extrapolation method.
pub proof fn lemma_interpolation_boundaries(
    s: Seq<TimedTransform>,
    interpolation: InterpolationMethod,
    extrapolation: ExtrapolationMethod,
    i: int,
)
    requires
        wf_samples(s),
        0 <= i < s.len(),
    ensures
        eval_spec(s, interpolation, extrapolation, s[i].timestamp.as_nanos()) == TransformEval::Exact(
            s[i].transform,
        ),
{
    let t = s[i].timestamp.as_nanos();
    if all_same_transform(s) {
        assert(s[i].transform == s[0].transform);
    } else {
        assert(s[0].timestamp.as_nanos() <= t);
        assert(t <= s.last().timestamp.as_nanos());
        lemma_prev_index_unique(s, t, i);
    }
}

/// Static fast-path: when all samples share one transform the engine returns
/// it, for any query time and any method combination.
pub proof fn lemma_static_fast_path(
    s: Seq<TimedTransform>,
    interpolation: InterpolationMethod,
    extrapolation: ExtrapolationMethod,
    t: int,
)
    requires
        wf_samples(s),
        all_same_transform(s),
    ensures
        eval_spec(s, interpolation, extrapolation, t) == TransformEval::Exact(s[0].transform),
{
}

/// Constant extrapolation: at or before the first sample the result is the
/// first sample's transform; at or after the last sample it is the last's.
pub proof fn lemma_constant_extrapolation(
    s: Seq<TimedTransform>,
    interpolation: InterpolationMethod,
    t: int,
)
    requires
        wf_samples(s),
    ensures
        t <= s[0].timestamp.as_nanos() ==> eval_spec(
            s,
            interpolation,
            ExtrapolationMethod::Constant,
            t,
        ) == TransformEval::Exact(s[0].transform),
        s.last().timestamp.as_nanos() <= t ==> eval_spec(
            s,
            interpolation,
            ExtrapolationMethod::Constant,
            t,
        ) == TransformEval::Exact(s.last().transform),
{
    if all_same_transform(s) {
        assert(s.last().transform == s[0].transform);
    } else {
        if t == s[0].timestamp.as_nanos() {
            lemma_interpolation_boundaries(s, interpolation, ExtrapolationMethod::Constant, 0);
        }
        if t == s.last().timestamp.as_nanos() {
            lemma_interpolation_boundaries(
                s,
                interpolation,
                ExtrapolationMethod::Constant,
                s.len() - 1,
            );
        }
        if s.last().timestamp.as_nanos() <= t && t <= s[0].timestamp.as_nanos() {
            assert(s[0].timestamp.as_nanos() <= s.last().timestamp.as_nanos());
        }
    }
}

/// A single sample evaluates to its own transform for every query time and
/// every method combination, as a static edge would.
pub proof fn lemma_single_sample(
    s: Seq<TimedTransform>,
    interpolation: InterpolationMethod,
    extrapolation: ExtrapolationMethod,
    t: int,
)
    requires
        wf_samples(s),
        s.len() == 1,
    ensures
        eval_spec(s, interpolation, extrapolation, t) == TransformEval::Exact(s[0].transform),
{
}

} // verus!
