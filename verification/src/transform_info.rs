//! Interpolation and extrapolation policies.

use vstd::prelude::*;

verus! {

/// Methods for interpolating inside a sample sequence's time range.
#[derive(Debug, Clone, Copy, Eq, PartialEq, Structural)]
pub enum InterpolationMethod {
    /// Piecewise-constant interpolation: the sample with the greatest
    /// timestamp at or before the query time.
    Step,
    /// Linear interpolation between the bracketing samples.
    Linear,
}

impl Default for InterpolationMethod {
    fn default() -> (r: InterpolationMethod)
        ensures
            r == InterpolationMethod::Step,
    {
        InterpolationMethod::Step
    }
}

/// Methods for extrapolating outside a sample sequence's time range.
#[derive(Debug, Clone, Copy, Eq, PartialEq, Structural)]
pub enum ExtrapolationMethod {
    /// Clamp to the boundary sample.
    Constant,
    /// Extend the boundary segment linearly.
    Linear,
}

impl Default for ExtrapolationMethod {
    fn default() -> (r: ExtrapolationMethod)
        ensures
            r == ExtrapolationMethod::Constant,
    {
        ExtrapolationMethod::Constant
    }
}

/// Policies attached to a transform in the multi-channel model.
#[derive(Debug, Clone, Copy, Eq, PartialEq, Structural)]
pub struct TransformInfo {
    pub interpolation_method: InterpolationMethod,
    pub extrapolation_method: ExtrapolationMethod,
}

impl TransformInfo {
    pub fn new(
        interpolation_method: InterpolationMethod,
        extrapolation_method: ExtrapolationMethod,
    ) -> (r: TransformInfo)
        ensures
            r == (TransformInfo { interpolation_method, extrapolation_method }),
    {
        TransformInfo { interpolation_method, extrapolation_method }
    }
}

impl Default for TransformInfo {
    fn default() -> (r: TransformInfo)
        ensures
            r.interpolation_method == InterpolationMethod::Step,
            r.extrapolation_method == ExtrapolationMethod::Constant,
    {
        TransformInfo {
            interpolation_method: InterpolationMethod::Step,
            extrapolation_method: ExtrapolationMethod::Constant,
        }
    }
}

} // verus!
