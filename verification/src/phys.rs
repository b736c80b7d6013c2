//! The simulation resource: the single-writer state that the step scheduler
//! advances and that queries read.
//!
//! `PhysicalWorld` models what the sandbox's coordination logic reads of the
//! physics engine's state: which bodies are alive, their shapes and poses,
//! the standalone floor colliders, and how many steps have run.  The engine's
//! numeric integration is outside the model; the model's poses change through
//! explicit commands and through creation, which is exactly what the
//! coordination layer is responsible for.

use vstd::prelude::*;
use crate::kvlist::{kv_map, keys_distinct, lemma_kv_contains, lemma_kv_lookup, KvVec};
use crate::units::{Pose, Quat4, Vec3i, COORD_MAX, SCALE};

verus! {

/// Reference to a rigid body owned by the simulation.
#[derive(Copy, Clone, PartialEq, Eq, Structural, Debug)]
pub struct BodyRef {
    pub id: u64,
}

/// Reference to a standalone collider owned by the simulation.
#[derive(Copy, Clone, PartialEq, Eq, Structural, Debug)]
pub struct ColliderRef {
    pub id: u64,
}

/// Collision shape of a body, in integer milli-units.
#[derive(Copy, Clone, PartialEq, Eq, Structural, Debug)]
pub enum ShapeKind {
    Sphere { radius: i64 },
    Cuboid { hx: i64, hy: i64, hz: i64 },
}

/// Dynamics regime of a body.
#[derive(Copy, Clone, PartialEq, Eq, Structural, Debug)]
pub enum BodyType {
    Dynamic,
    Fixed,
    KinematicPositionBased,
    KinematicVelocityBased,
}

/// One rigid body as the coordination layer sees it.
///
/// `pending_impulse` is an impulse that a command has requested and that the
/// next simulation step consumes.
#[derive(Copy, Clone, PartialEq, Eq, Structural, Debug)]
pub struct Body {
    pub shape: ShapeKind,
    pub pose: Pose,
    pub body_type: BodyType,
    pub pending_impulse: Option<Vec3i>,
}

/// A standalone floor collider: an axis-aligned box at `center` with half
/// extents `half`.
#[derive(Copy, Clone, PartialEq, Eq, Structural, Debug)]
pub struct Floor {
    pub center: Vec3i,
    pub half: Vec3i,
}

/// A command injected from the frame loop, applied by the scheduler to its
/// target body at most one per successful step.
#[derive(Copy, Clone, PartialEq, Eq, Structural, Debug)]
pub enum PhysicsCommand {
    Impulse(Vec3i, BodyRef),
    SetType(BodyType, BodyRef),
    Translate(Vec3i, BodyRef),
}

/// Telemetry emitted after a successful step: how long the solve took, in
/// microseconds.
#[derive(Copy, Clone, PartialEq, Eq, Structural, Debug)]
pub struct PhyisicsStatus {
    pub solve_time: u64,
}

/// A shape has positive, bounded extents.
pub open spec fn shape_ok(s: ShapeKind) -> bool {
    match s {
        ShapeKind::Sphere { radius } => 0 < radius <= COORD_MAX,
        ShapeKind::Cuboid { hx, hy, hz } => {
            &&& 0 < hx <= COORD_MAX
            &&& 0 < hy <= COORD_MAX
            &&& 0 < hz <= COORD_MAX
        },
    }
}

/// A body's pose, shape and pending impulse are all within coordinate bounds.
pub open spec fn body_ok(b: Body) -> bool {
    &&& b.pose.pos.bounded()
    &&& shape_ok(b.shape)
    &&& match b.pending_impulse {
        Some(v) => v.bounded(),
        None => true,
    }
}

/// A floor collider is within coordinate bounds with nonnegative extents.
pub open spec fn floor_ok(f: Floor) -> bool {
    &&& f.center.bounded()
    &&& 0 <= f.half.x <= COORD_MAX
    &&& 0 <= f.half.y <= COORD_MAX
    &&& 0 <= f.half.z <= COORD_MAX
}

/// A command's payload is within coordinate bounds.
pub open spec fn cmd_ok(c: PhysicsCommand) -> bool {
    match c {
        PhysicsCommand::Impulse(v, _) => v.bounded(),
        PhysicsCommand::SetType(_, _) => true,
        PhysicsCommand::Translate(v, _) => v.bounded(),
    }
}

/// The body a command targets.
pub open spec fn cmd_target(c: PhysicsCommand) -> BodyRef {
    match c {
        PhysicsCommand::Impulse(_, b) => b,
        PhysicsCommand::SetType(_, b) => b,
        PhysicsCommand::Translate(_, b) => b,
    }
}

/// The same body with its pending impulse consumed.
pub open spec fn impulse_consumed(b: Body) -> Body {
    Body { pending_impulse: None, ..b }
}

/// All physics-engine state behind the simulation lock.
pub struct PhysicalWorld {
    pub bodies: KvVec<Body>,
    pub floors: Vec<Floor>,
    pub next_body_id: u64,
    pub next_collider_id: u64,
    pub step_count: u64,
}

impl PhysicalWorld {
    /// Well-formed: body keys are distinct and below the allocation counter,
    /// and every body and floor is within coordinate bounds.
    pub open spec fn wf(self) -> bool {
        &&& self.bodies.wf()
        &&& forall|k: u64| #[trigger] self.bodies@.contains_key(k) ==> k < self.next_body_id
        &&& forall|k: u64| #[trigger] self.bodies@.contains_key(k) ==> body_ok(self.bodies@[k])
        &&& forall|i: int| 0 <= i < self.floors@.len() ==> floor_ok(#[trigger] self.floors@[i])
    }

    /// Whether the simulation knows this body.
    pub open spec fn has_body(self, b: BodyRef) -> bool {
        self.bodies@.contains_key(b.id)
    }

    /// The body behind a reference.
    pub open spec fn body_at(self, b: BodyRef) -> Body {
        self.bodies@[b.id]
    }

    pub fn new() -> (w: Self)
        ensures
            w.wf(),
            w.bodies@ == Map::<u64, Body>::empty(),
            w.floors@ == Seq::<Floor>::empty(),
            w.next_body_id == 0,
            w.next_collider_id == 0,
            w.step_count == 0,
    {
        PhysicalWorld {
            bodies: KvVec::new(),
            floors: Vec::new(),
            next_body_id: 0,
            next_collider_id: 0,
            step_count: 0,
        }
    }

    /// Advance the simulation by one step of length `dt` microseconds under
    /// the fixed downward gravity.  The engine's integration is outside the
    /// model: the step consumes every pending impulse, leaves the body set,
    /// poses and floors as they are, and counts itself.
    pub fn step(&mut self, dt: u64)
        requires
            old(self).wf(),
            old(self).step_count < u64::MAX,
        ensures
            final(self).wf(),
            final(self).bodies@.dom() =~= old(self).bodies@.dom(),
            forall|k: u64| #[trigger] old(self).bodies@.contains_key(k)
                ==> final(self).bodies@[k] == impulse_consumed(old(self).bodies@[k]),
            final(self).floors@ == old(self).floors@,
            final(self).next_body_id == old(self).next_body_id,
            final(self).next_collider_id == old(self).next_collider_id,
            final(self).step_count == old(self).step_count + 1,
    {
        let _ = dt;
        let ghost s0 = self.bodies.entries@;
        let n = self.bodies.entries.len();
        let mut i: usize = 0;
        while i < n
            invariant
                n == self.bodies.entries@.len(),
                self.bodies.entries@.len() == s0.len(),
                forall|j: int| 0 <= j < i ==> self.bodies.entries@[j]
                    == (s0[j].0, impulse_consumed(s0[j].1)),
                forall|j: int| i <= j < s0.len() ==> self.bodies.entries@[j] == s0[j],
                self.step_count == old(self).step_count,
                self.next_body_id == old(self).next_body_id,
                self.next_collider_id == old(self).next_collider_id,
                self.floors@ == old(self).floors@,
            decreases n - i,
        {
            let k = self.bodies.entries[i].0;
            let b = self.bodies.entries[i].1;
            self.bodies.entries[i] = (k, Body { pending_impulse: None, ..b });
            i = i + 1;
        }
        self.step_count = self.step_count + 1;
        proof {
            let s1 = self.bodies.entries@;
            assert(forall|j: int| 0 <= j < s1.len() ==> (#[trigger] s1[j]).0 == s0[j].0
                && s1[j].1 == impulse_consumed(s0[j].1));
            assert(keys_distinct(s1)) by {
                assert forall|a: int, b: int| 0 <= a < b < s1.len() implies s1[a].0 != s1[b].0 by {
                    assert(s0[a].0 != s0[b].0);
                }
            }
            assert forall|k: u64| #[trigger] kv_map(s0).contains_key(k)
                implies kv_map(s1).contains_key(k)
                    && kv_map(s1)[k] == impulse_consumed(kv_map(s0)[k]) by {
                lemma_kv_contains(s0, k);
                let j = choose|j: int| 0 <= j < s0.len() && s0[j].0 == k;
                lemma_kv_lookup(s0, j);
                lemma_kv_lookup(s1, j);
            }
            assert forall|k: u64| #[trigger] kv_map(s1).contains_key(k)
                implies kv_map(s0).contains_key(k) by {
                lemma_kv_contains(s1, k);
                let j = choose|j: int| 0 <= j < s1.len() && s1[j].0 == k;
                lemma_kv_lookup(s0, j);
            }
            assert(kv_map(s1).dom() =~= kv_map(s0).dom());
        }
    }

    /// Insert the standalone floor collider: an axis-aligned box with half
    /// extents `size`, sunk by its own height so its top face is at ground
    /// level.
    pub fn add_floor(&mut self, size: Vec3i) -> (c: ColliderRef)
        requires
            old(self).wf(),
            0 <= size.x <= COORD_MAX,
            0 <= size.y <= COORD_MAX,
            0 <= size.z <= COORD_MAX,
            old(self).next_collider_id < u64::MAX,
        ensures
            final(self).wf(),
            c.id == old(self).next_collider_id,
            final(self).floors@ == old(self).floors@.push(
                Floor { center: (Vec3i { x: 0, y: (-size.y) as i64, z: 0 }), half: size },
            ),
            final(self).next_collider_id == old(self).next_collider_id + 1,
            final(self).bodies == old(self).bodies,
            final(self).next_body_id == old(self).next_body_id,
            final(self).step_count == old(self).step_count,
    {
        let c = ColliderRef { id: self.next_collider_id };
        self.next_collider_id = self.next_collider_id + 1;
        self.floors.push(Floor { center: Vec3i { x: 0, y: -size.y, z: 0 }, half: size });
        c
    }

    /// Allocate a dynamic body with a ball collider of radius `r` at the
    /// given position.
    pub fn add_sphere_rigidbody(&mut self, x: i64, y: i64, z: i64, r: i64) -> (b: BodyRef)
        requires
            old(self).wf(),
            (Vec3i { x, y, z }).bounded(),
            0 < r <= COORD_MAX,
            old(self).next_body_id < u64::MAX,
        ensures
            final(self).wf(),
            b.id == old(self).next_body_id,
            !old(self).has_body(b),
            final(self).bodies@ == old(self).bodies@.insert(
                b.id,
                Body {
                    shape: ShapeKind::Sphere { radius: r },
                    pose: (Pose { pos: Vec3i { x, y, z }, rot: Quat4 { x: 0, y: 0, z: 0, w: SCALE } }),
                    body_type: BodyType::Dynamic,
                    pending_impulse: None,
                },
            ),
            final(self).next_body_id == old(self).next_body_id + 1,
            final(self).floors@ == old(self).floors@,
            final(self).next_collider_id == old(self).next_collider_id,
            final(self).step_count == old(self).step_count,
    {
        self.insert_body(
            ShapeKind::Sphere { radius: r },
            Vec3i { x, y, z },
        )
    }

    /// Allocate a dynamic body with a cube collider of half extent `r` at the
    /// given position.
    pub fn add_cube_rigidbody(&mut self, x: i64, y: i64, z: i64, r: i64) -> (b: BodyRef)
        requires
            old(self).wf(),
            (Vec3i { x, y, z }).bounded(),
            0 < r <= COORD_MAX,
            old(self).next_body_id < u64::MAX,
        ensures
            final(self).wf(),
            b.id == old(self).next_body_id,
            !old(self).has_body(b),
            final(self).bodies@ == old(self).bodies@.insert(
                b.id,
                Body {
                    shape: ShapeKind::Cuboid { hx: r, hy: r, hz: r },
                    pose: (Pose { pos: Vec3i { x, y, z }, rot: Quat4 { x: 0, y: 0, z: 0, w: SCALE } }),
                    body_type: BodyType::Dynamic,
                    pending_impulse: None,
                },
            ),
            final(self).next_body_id == old(self).next_body_id + 1,
            final(self).floors@ == old(self).floors@,
            final(self).next_collider_id == old(self).next_collider_id,
            final(self).step_count == old(self).step_count,
    {
        self.insert_body(
            ShapeKind::Cuboid { hx: r, hy: r, hz: r },
            Vec3i { x, y, z },
        )
    }

    /// Shared allocation path of the two body constructors.
    fn insert_body(&mut self, shape: ShapeKind, pos: Vec3i) -> (b: BodyRef)
        requires
            old(self).wf(),
            pos.bounded(),
            shape_ok(shape),
            old(self).next_body_id < u64::MAX,
        ensures
            final(self).wf(),
            b.id == old(self).next_body_id,
            !old(self).has_body(b),
            final(self).bodies@ == old(self).bodies@.insert(
                b.id,
                Body {
                    shape,
                    pose: (Pose { pos, rot: Quat4 { x: 0, y: 0, z: 0, w: SCALE } }),
                    body_type: BodyType::Dynamic,
                    pending_impulse: None,
                },
            ),
            final(self).next_body_id == old(self).next_body_id + 1,
            final(self).floors@ == old(self).floors@,
            final(self).next_collider_id == old(self).next_collider_id,
            final(self).step_count == old(self).step_count,
    {
        let id = self.next_body_id;
        self.next_body_id = self.next_body_id + 1;
        let body = Body {
            shape,
            pose: Pose::at(pos),
            body_type: BodyType::Dynamic,
            pending_impulse: None,
        };
        self.bodies.insert_new(id, body);
        BodyRef { id }
    }

    /// Record the engine-integrated pose of a body, as the frame
    /// synchronization reads it back under the lock after a step.  A
    /// reference the simulation does not know changes nothing.
    pub fn set_pose(&mut self, handle: BodyRef, pose: Pose) -> (r: bool)
        requires
            old(self).wf(),
            pose.pos.bounded(),
        ensures
            final(self).wf(),
            r == old(self).has_body(handle),
            r ==> final(self).bodies@ == old(self).bodies@.insert(
                handle.id,
                Body { pose, ..old(self).bodies@[handle.id] },
            ),
            !r ==> *final(self) == *old(self),
            final(self).floors@ == old(self).floors@,
            final(self).next_body_id == old(self).next_body_id,
            final(self).next_collider_id == old(self).next_collider_id,
            final(self).step_count == old(self).step_count,
    {
        let b = match self.bodies.get(handle.id) {
            Some(b) => *b,
            None => {
                return false;
            }
        };
        self.bodies.set(handle.id, Body { pose, ..b })
    }

    /// Remove a body together with its colliders and joint bookkeeping; a
    /// reference the simulation does not know leaves it unchanged.
    pub fn remove_rigidbody(&mut self, handle: BodyRef)
        requires
            old(self).wf(),
        ensures
            final(self).wf(),
            old(self).has_body(handle) ==> final(self).bodies@ == old(self).bodies@.remove(handle.id),
            !old(self).has_body(handle) ==> final(self).bodies@ == old(self).bodies@,
            final(self).floors@ == old(self).floors@,
            final(self).next_body_id == old(self).next_body_id,
            final(self).next_collider_id == old(self).next_collider_id,
            final(self).step_count == old(self).step_count,
    {
        let _ = self.bodies.remove(handle.id);
    }
}

} // verus!
