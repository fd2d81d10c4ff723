//! A library for representing and querying time-varying rigid transforms
//! between named 3D coordinate frames.
//!
//! A directed graph holds named reference frames as nodes and rigid-body
//! transforms as edges. An edge is either static (one transform) or dynamic
//! (a strictly time-ascending sample sequence with interpolation and
//! extrapolation policies). The central query resolves the unique directed
//! path between two frames and evaluates every edge on it at a query time.
//!
//! Numeric transform components (translations and quaternions) are carried as
//! the bit patterns of their double-precision values and are never computed on
//! here: every arithmetic blend is returned as an exact description
//! ([`TransformEval`]) for the caller to execute, while this crate proves the
//! decision logic around it: path resolution, sample bracketing, channel
//! priority, octree placement and the document model.

pub mod channel_info;
pub mod interpolation;
pub mod documents;
pub mod error;
pub mod frame_graph;
pub mod frames;
pub mod ingest;
pub mod io;
pub mod isometry_graph;
pub mod morton;
pub mod octree;
pub mod reference_frames;
pub mod time;
pub mod transform;
pub mod transform_edge;
pub mod transform_info;
pub mod transform_tree;

pub use crate::documents::TransformTreeSerde;
pub use crate::channel_info::ChannelId;
pub use crate::channel_info::ChannelInfo;
pub use crate::error::CoordsError;
pub use crate::error::Error;
pub use crate::error::IoError;
pub use crate::frames::FrameId;
pub use crate::frames::FrameInfo;
pub use crate::time::Time;
pub use crate::transform::Quat;
pub use crate::transform::TimedTransform;
pub use crate::transform::Transform;
pub use crate::transform::TransformEval;
pub use crate::transform::TransformId;
pub use crate::transform::Vec3;
pub use crate::transform_edge::DynamicTransform;
pub use crate::transform_edge::StaticTransform;
pub use crate::transform_edge::TransformEdge;
pub use crate::transform_info::ExtrapolationMethod;
pub use crate::transform_info::InterpolationMethod;
pub use crate::transform_info::TransformInfo;
pub use crate::transform_tree::merge;
pub use crate::transform_tree::TransformTree;
pub use crate::isometry_graph::IsometryGraph;
pub use crate::octree::OctantIndex;
pub use crate::octree::Octree;
pub use crate::octree::OctreeOccupancyGraph;
pub use crate::reference_frames::ReferenceFrames;
