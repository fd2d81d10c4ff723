//! Rigid-transform value types.
//!
//! Numeric components are carried as the bit patterns of their IEEE-754
//! double-precision values: this crate stores, compares and selects them but
//! never computes on them. Equality is therefore bit-exact.

use vstd::prelude::*;
use crate::frames::FrameId;
use crate::time::Time;

verus! {

/// Bit patterns of a double-precision 3D vector.
#[derive(Debug, Clone, Copy, PartialEq, Eq, Hash, Structural)]
pub struct Vec3 {
    pub x: u64,
    pub y: u64,
    pub z: u64,
}

impl Vec3 {
    pub fn new(x: u64, y: u64, z: u64) -> (r: Vec3)
        ensures
            r == (Vec3 { x, y, z }),
    {
        Vec3 { x, y, z }
    }

    /// The bit pattern of the zero vector: every component is positive zero.
    pub fn zero() -> (r: Vec3)
        ensures
            r == Vec3::zero_spec(),
    {
        Vec3 { x: 0, y: 0, z: 0 }
    }

    pub open spec fn zero_spec() -> Vec3 {
        Vec3 { x: 0, y: 0, z: 0 }
    }
}

/// Bit patterns of a double-precision quaternion, components `(x, y, z, w)`.
#[derive(Debug, Clone, Copy, PartialEq, Eq, Hash, Structural)]
pub struct Quat {
    pub x: u64,
    pub y: u64,
    pub z: u64,
    pub w: u64,
}

impl Quat {
    pub fn new(x: u64, y: u64, z: u64, w: u64) -> (r: Quat)
        ensures
            r == (Quat { x, y, z, w }),
    {
        Quat { x, y, z, w }
    }

    /// The identity rotation `(0, 0, 0, 1)`: the scalar part holds the bit
    /// pattern of positive one.
    pub fn identity() -> (r: Quat)
        ensures
            r == Quat::identity_spec(),
    {
        Quat { x: 0, y: 0, z: 0, w: 0x3FF0000000000000 }
    }

    pub open spec fn identity_spec() -> Quat {
        Quat { x: 0, y: 0, z: 0, w: 0x3FF0000000000000 }
    }
}

/// A rigid transformation in 3D: a translation and a rotation.
#[derive(Debug, Clone, Copy, PartialEq, Eq, Hash, Structural)]
pub struct Transform {
    pub translation: Vec3,
    pub rotation: Quat,
}

impl Transform {
    pub fn new(translation: Vec3, rotation: Quat) -> (r: Transform)
        ensures
            r == (Transform { translation, rotation }),
    {
        Transform { translation, rotation }
    }

    /// The identity transform: zero translation, identity rotation.
    pub fn identity() -> (r: Transform)
        ensures
            r == Transform::identity_spec(),
    {
        Transform { translation: Vec3::zero(), rotation: Quat::identity() }
    }

    pub open spec fn identity_spec() -> Transform {
        Transform { translation: Vec3::zero_spec(), rotation: Quat::identity_spec() }
    }
}

/// A time-stamped rigid transformation.
#[derive(Debug, Clone, Copy, PartialEq, Eq, Structural)]
pub struct TimedTransform {
    pub timestamp: Time,
    pub transform: Transform,
}

impl TimedTransform {
    pub fn new(timestamp: Time, transform: Transform) -> (r: TimedTransform)
        ensures
            r == (TimedTransform { timestamp, transform }),
    {
        TimedTransform { timestamp, transform }
    }
}

/// The exact description of one edge evaluation: either a transform taken
/// verbatim from the data, or a blend of two transforms with the weight
/// `num / den` to be applied by the caller (translation linearly, rotation by
/// spherical linear interpolation). The weight may lie outside `[0, 1]` for
/// linear extrapolation and is to be applied verbatim.
#[derive(Debug, Clone, Copy, PartialEq, Eq, Structural)]
pub enum TransformEval {
    Exact(Transform),
    Blend { first: Transform, second: Transform, num: i128, den: i128 },
}

/// Dedicated type for an identifier of a transform: the ordered pair of its
/// parent and child frame; the two must differ.
#[derive(Debug, Eq, Hash)]
pub struct TransformId {
    pub parent_frame_id: FrameId,
    pub child_frame_id: FrameId,
}

impl View for TransformId {
    type V = (Seq<char>, Seq<char>);

    open spec fn view(&self) -> (Seq<char>, Seq<char>) {
        (self.parent_frame_id@, self.child_frame_id@)
    }
}

impl PartialEq for TransformId {
    fn eq(&self, other: &TransformId) -> (r: bool) {
        self.parent_frame_id == other.parent_frame_id && self.child_frame_id
            == other.child_frame_id
    }
}

impl vstd::std_specs::cmp::PartialEqSpecImpl for TransformId {
    open spec fn obeys_eq_spec() -> bool {
        true
    }

    open spec fn eq_spec(&self, other: &TransformId) -> bool {
        self@ == other@
    }
}

impl Clone for TransformId {
    fn clone(&self) -> (r: TransformId)
        ensures
            r@ == self@,
    {
        TransformId {
            parent_frame_id: self.parent_frame_id.clone(),
            child_frame_id: self.child_frame_id.clone(),
        }
    }
}

impl TransformId {
    /// A self-loop is invalid: the two frames must differ.
    pub open spec fn wf(self) -> bool {
        self.parent_frame_id@ != self.child_frame_id@
    }

    pub fn new(parent_frame_id: FrameId, child_frame_id: FrameId) -> (r: TransformId)
        requires
            parent_frame_id@ != child_frame_id@,
        ensures
            r@ == (parent_frame_id@, child_frame_id@),
            r.wf(),
    {
        TransformId { parent_frame_id, child_frame_id }
    }

    /// Builds the pair after testing that the two frames differ.
    pub fn try_new(parent_frame_id: FrameId, child_frame_id: FrameId) -> (r: Option<TransformId>)
        ensures
            parent_frame_id@ != child_frame_id@ ==> (r matches Some(t) && t@ == (
            parent_frame_id@,
            child_frame_id@,
            ) && t.wf()),
            parent_frame_id@ == child_frame_id@ ==> r is None,
    {
        if parent_frame_id == child_frame_id {
            None
        } else {
            Some(TransformId { parent_frame_id, child_frame_id })
        }
    }
}

} // verus!
