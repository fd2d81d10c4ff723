//! Typed errors surfaced by the library. No error is swallowed: every failure
//! propagates as one of these values.

use vstd::prelude::*;
use crate::channel_info::ChannelId;
use crate::frames::FrameId;
use crate::time::Time;
use crate::transform::TransformId;

verus! {

/// Errors of the coordinate and octree layer.
#[derive(Debug, Clone, Copy, PartialEq, Eq, Structural)]
pub enum CoordsError {
    LowerBoundExceedsUpperBound,
    IndexOutOfBounds { level: u32, maximum_index: u64, x: u64, y: u64, z: u64 },
    IndexTooLarge,
    InvalidNumber,
    CellAlreadyOccupied,
    NoMinValue,
    NoMaxValue,
}

/// Errors of the transform-graph core.
#[derive(Debug)]
pub enum Error {
    CoordsError(CoordsError),
    InvalidTransformId(TransformId),
    InvalidFrameId(FrameId),
    InvalidChannelId(ChannelId),
    NoChannels(),
    NoTransforms(),
    ContainsDynamicTransform(),
    DuplicateTimestamp(Time),
    NoTransformPath(TransformId),
    MultipleTransformPaths(TransformId),
    MissingTimestamp(),
    TransformsNotSortedByTime(),
    TransformsNotSorted { transform_id: TransformId },
    ChannelTransformCollisions { transform_id: TransformId },
}

/// Errors of the reading and writing layer.
#[derive(Debug)]
pub enum IoError {
    Ecoord(Error),
    NoFileExtension(),
    InvalidFileExtension(String),
    NoFileName(),
    MultipleFiles(),
    NoTimestamp(),
    TimestampDefinedTwice(),
    InvalidTimestamp(),
    IsometryNotDerivable(),
}

} // verus!
