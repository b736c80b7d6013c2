//! Picking: resolving a pointer-derived world ray to the entity it points at.
//!
//! Unprojecting the 2D pointer position through the camera's projection and
//! view transforms happens at the windowing layer; what arrives here is the
//! resulting world-space ray.

use vstd::prelude::*;
use crate::phys::PhysicalWorld;
use crate::queries::{floor_occludes, nearest_body_hit, ray_hits_body};
use crate::registry::{PhysMeshHandle, World};
use crate::units::Vec3i;

verus! {

/// Resolves pointer rays against the simulation.
pub struct Raycaster {
}

impl Raycaster {
    /// The handle of the entity whose body owns the nearest hit collider, or
    /// nothing when the ray meets no body or the nearest collider is a
    /// parentless floor, which occludes the bodies behind it.  Queries take
    /// the same exclusive lock as stepping, so the result reflects a
    /// complete step.
    pub fn get_body_from_ray(
        world: &World,
        phys_world: &PhysicalWorld,
        origin: Vec3i,
        direction: Vec3i,
    ) -> (r: Option<PhysMeshHandle>)
        requires
            world.wf(),
            phys_world.wf(),
            world.consistent_with(*phys_world),
            origin.bounded(),
            direction.bounded(),
            !(direction.x == 0 && direction.y == 0 && direction.z == 0),
        ensures
            r matches Some(h) ==> world.has_handle(h)
                && nearest_body_hit(*phys_world, origin, direction, world.record_of(h).body),
            r is None ==> (forall|k: u64| #[trigger] phys_world.bodies@.contains_key(k)
                ==> !ray_hits_body(origin, direction, phys_world.bodies@[k]))
                || floor_occludes(*phys_world, origin, direction),
    {
        match phys_world.body_raycast(origin, direction) {
            Some(body) => {
                match world.get_phys_mesh_from_handle(body) {
                    Some(h) => Some(h),
                    None => {
                        proof {
                            // The hit body is registered: the registry and the
                            // simulation agree on the live body set.
                            let k = choose|k: u64|
                                #[trigger] world.phys_meshes@.contains_key(k)
                                && world.phys_meshes@[k].body.id == body.id;
                            assert(world.phys_meshes@[k].body == body);
                        }
                        vstd::pervasive::unreached()
                    }
                }
            }
            None => None,
        }
    }
}

} // verus!
