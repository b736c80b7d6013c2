//! Integer world units: vectors, rotations and poses.
//!
//! The model measures world space in fixed milli-units (`SCALE` units per
//! world unit) so that positions, shape extents and ray queries are exact
//! integer data.

use vstd::prelude::*;

verus! {

/// Number of integer units per world unit.
pub const SCALE: i64 = 1000;

/// Coordinates of every position, extent and ray handed to the model are
/// bounded by this value, so that the raycast arithmetic stays inside
/// `i128`.
pub const COORD_MAX: i64 = 0x400_0000;

/// A world-space vector in integer milli-units.
#[derive(Copy, Clone, PartialEq, Eq, Structural, Debug)]
pub struct Vec3i {
    pub x: i64,
    pub y: i64,
    pub z: i64,
}

/// A rotation, stored as a quaternion scaled by `SCALE`.
#[derive(Copy, Clone, PartialEq, Eq, Structural, Debug)]
pub struct Quat4 {
    pub x: i64,
    pub y: i64,
    pub z: i64,
    pub w: i64,
}

/// Translation and rotation of one body or render mesh.
#[derive(Copy, Clone, PartialEq, Eq, Structural, Debug)]
pub struct Pose {
    pub pos: Vec3i,
    pub rot: Quat4,
}

impl Vec3i {
    /// True when every coordinate is within `COORD_MAX`.
    pub open spec fn bounded(self) -> bool {
        &&& -COORD_MAX <= self.x <= COORD_MAX
        &&& -COORD_MAX <= self.y <= COORD_MAX
        &&& -COORD_MAX <= self.z <= COORD_MAX
    }

    pub fn new(x: i64, y: i64, z: i64) -> (v: Vec3i)
        ensures
            v == (Vec3i { x, y, z }),
    {
        Vec3i { x, y, z }
    }

    /// The zero vector.
    pub fn zero() -> (v: Vec3i)
        ensures
            v == (Vec3i { x: 0, y: 0, z: 0 }),
    {
        Vec3i { x: 0, y: 0, z: 0 }
    }
}

impl Quat4 {
    /// The identity rotation.
    pub fn identity() -> (q: Quat4)
        ensures
            q == (Quat4 { x: 0, y: 0, z: 0, w: SCALE }),
    {
        Quat4 { x: 0, y: 0, z: 0, w: SCALE }
    }
}

impl Pose {
    /// A pose at the given position with no rotation.
    pub fn at(pos: Vec3i) -> (p: Pose)
        ensures
            p.pos == pos,
            p.rot == (Quat4 { x: 0, y: 0, z: 0, w: SCALE }),
    {
        Pose { pos, rot: Quat4::identity() }
    }
}

} // verus!
