//! Interactive body building: spawning a cube entity at the surface point
//! the pointer's ray meets, nudged up by the cube's half extent so it rests
//! on the surface.

use vstd::prelude::*;
use crate::channels::{chan_after_send, chan_send_ok, BoundedChannel};
use crate::phys::{Body, BodyType, PhysicalWorld, PhysicsCommand, ShapeKind};
use crate::queries::{near_hit_point, ray_hits_body, ray_hits_floor, resolves_near_hit};
use crate::registry::{spawn_pose, PhysMeshHandle, World};
use crate::render::RenderStore;
use crate::units::{Vec3i, COORD_MAX};

verus! {

/// State of the interactive builder; edge-triggered input arrives as plain
/// flags.
pub struct RbBuilderCtx {
}

/// The interactive body builder.
pub struct RbBuilder {
}

/// The point is within the coordinate range at which a cube of half extent
/// `size` can be spawned and commanded.
pub open spec fn spawn_in_range(p: Vec3i, size: int) -> bool {
    &&& -COORD_MAX <= p.x <= COORD_MAX
    &&& -COORD_MAX <= p.y
    &&& p.y + size <= COORD_MAX
    &&& -COORD_MAX <= p.z <= COORD_MAX
}

/// Create a cube entity and ask the scheduler to move it to `pos`, raised by
/// the cube's half extent `size`: exactly one record is registered under a
/// fresh handle, one body and one mesh are allocated, and the translation
/// command is offered to the command channel.  The returned flag reports
/// whether the channel accepted the command; a refused command is the
/// caller's to resubmit once the scheduler drains one.
pub fn add_cube(
    world: &mut World,
    renderer: &mut RenderStore,
    phys_world: &mut PhysicalWorld,
    commands: &mut BoundedChannel<PhysicsCommand>,
    pos: Vec3i,
    size: i64,
) -> (r: (PhysMeshHandle, bool))
    requires
        old(world).wf(),
        old(renderer).wf(),
        old(phys_world).wf(),
        old(commands).wf(),
        old(world).consistent_with(*old(phys_world)),
        old(world).meshes_in(*old(renderer)),
        0 < size <= COORD_MAX,
        pos.bounded(),
        pos.y + size <= COORD_MAX,
        old(world).next_handle_id < u32::MAX,
        old(renderer).next_mesh_id < u64::MAX,
        old(phys_world).next_body_id < u64::MAX,
    ensures
        final(world).wf(),
        final(renderer).wf(),
        final(phys_world).wf(),
        final(commands).wf(),
        final(world).consistent_with(*final(phys_world)),
        final(world).meshes_in(*final(renderer)),
        r.0.id == old(world).next_handle_id,
        final(world).has_handle(r.0),
        !old(world).issued@.contains(r.0.id),
        final(world).issued@ == old(world).issued@.insert(r.0.id),
        final(world).next_handle_id == old(world).next_handle_id + 1,
        final(world).status == old(world).status,
        // Exactly one record is added, nothing else moves.
        final(world).phys_meshes@ == old(world).phys_meshes@.insert(
            r.0.id as u64,
            final(world).record_of(r.0),
        ),
        final(world).record_of(r.0).body.id == old(phys_world).next_body_id,
        final(world).record_of(r.0).mesh.id == old(renderer).next_mesh_id,
        final(phys_world).bodies@ == old(phys_world).bodies@.insert(
            final(world).record_of(r.0).body.id,
            Body {
                shape: ShapeKind::Cuboid { hx: size, hy: size, hz: size },
                pose: spawn_pose(),
                body_type: BodyType::Dynamic,
                pending_impulse: None,
            },
        ),
        final(renderer).meshes@ == old(renderer).meshes@.insert(
            final(world).record_of(r.0).mesh.id,
            spawn_pose(),
        ),
        final(phys_world).next_body_id == old(phys_world).next_body_id + 1,
        final(renderer).next_mesh_id == old(renderer).next_mesh_id + 1,
        final(phys_world).floors@ == old(phys_world).floors@,
        final(phys_world).step_count == old(phys_world).step_count,
        final(commands)@ == chan_after_send(
            old(commands)@,
            old(commands).capacity(),
            PhysicsCommand::Translate(
                (Vec3i { x: pos.x, y: (pos.y + size) as i64, z: pos.z }),
                final(world).record_of(r.0).body,
            ),
        ),
        final(commands).capacity() == old(commands).capacity(),
        r.1 == chan_send_ok(old(commands)@, old(commands).capacity()),
{
    let h = world.add_cube(renderer, phys_world, size);
    let pm = match world.phys_meshes.get(h.id as u64) {
        Some(pm) => *pm,
        // The record was registered a moment ago under this handle.
        None => vstd::pervasive::unreached(),
    };
    let target = Vec3i { x: pos.x, y: pos.y + size, z: pos.z };
    let sent = match commands.try_send(PhysicsCommand::Translate(target, pm.body)) {
        Ok(()) => true,
        Err(_) => false,
    };
    (h, sent)
}

impl RbBuilder {
    /// One frame of the interactive builder.  When the right mouse button is
    /// held or the spawn key was just pressed, resolve the pointer's ray to
    /// the nearest surface point it meets and spawn a cube resting there;
    /// the spawn happens whenever such a point exists and lies within the
    /// spawnable coordinate range, and is skipped otherwise, changing
    /// nothing.  The result carries the resolved point and whether the
    /// command channel accepted the cube's placement command.
    pub fn update(
        world: &mut World,
        renderer: &mut RenderStore,
        phys_world: &mut PhysicalWorld,
        commands: &mut BoundedChannel<PhysicsCommand>,
        rmb: bool,
        spawn_key_pressed: bool,
        origin: Vec3i,
        direction: Vec3i,
        size: i64,
    ) -> (spawned: Option<(Vec3i, bool)>)
        requires
            old(world).wf(),
            old(renderer).wf(),
            old(phys_world).wf(),
            old(commands).wf(),
            old(world).consistent_with(*old(phys_world)),
            old(world).meshes_in(*old(renderer)),
            0 < size <= COORD_MAX,
            origin.bounded(),
            direction.bounded(),
            !(direction.x == 0 && direction.y == 0 && direction.z == 0),
            old(world).next_handle_id < u32::MAX,
            old(renderer).next_mesh_id < u64::MAX,
            old(phys_world).next_body_id < u64::MAX,
        ensures
            final(world).wf(),
            final(renderer).wf(),
            final(phys_world).wf(),
            final(commands).wf(),
            final(world).consistent_with(*final(phys_world)),
            final(world).meshes_in(*final(renderer)),
            !(rmb || spawn_key_pressed) ==> spawned is None,
            spawned is None ==> {
                &&& *final(world) == *old(world)
                &&& *final(renderer) == *old(renderer)
                &&& *final(phys_world) == *old(phys_world)
                &&& *final(commands) == *old(commands)
            },
            // A spawn lands at the nearest hit point and registers exactly
            // one cube entity, with its placement command offered.
            spawned matches Some((p, sent)) ==> {
                &&& resolves_near_hit(*old(phys_world), origin, direction, Some(p))
                &&& spawn_in_range(p, size as int)
                &&& final(world).has_handle(PhysMeshHandle { id: old(world).next_handle_id })
                &&& final(world).next_handle_id == old(world).next_handle_id + 1
                &&& final(world).issued@ == old(world).issued@.insert(old(world).next_handle_id)
                &&& final(world).phys_meshes@ == old(world).phys_meshes@.insert(
                    old(world).next_handle_id as u64,
                    final(world).record_of(PhysMeshHandle { id: old(world).next_handle_id }),
                )
                &&& final(phys_world).bodies@ == old(phys_world).bodies@.insert(
                    old(phys_world).next_body_id,
                    Body {
                        shape: ShapeKind::Cuboid { hx: size, hy: size, hz: size },
                        pose: spawn_pose(),
                        body_type: BodyType::Dynamic,
                        pending_impulse: None,
                    },
                )
                &&& final(renderer).meshes@ == old(renderer).meshes@.insert(
                    old(renderer).next_mesh_id,
                    spawn_pose(),
                )
                &&& final(commands)@ == chan_after_send(
                    old(commands)@,
                    old(commands).capacity(),
                    PhysicsCommand::Translate(
                        (Vec3i { x: p.x, y: (p.y + size) as i64, z: p.z }),
                        final(world).record_of(
                            PhysMeshHandle { id: old(world).next_handle_id },
                        ).body,
                    ),
                )
                &&& sent == chan_send_ok(old(commands)@, old(commands).capacity())
            },
            // A spawn is owed whenever the pointer's ray meets a collider and
            // every candidate landing point lies within the spawnable range.
            (rmb || spawn_key_pressed)
                && ((exists|k: u64|
                    #[trigger] old(phys_world).bodies@.contains_key(k)
                    && ray_hits_body(origin, direction, old(phys_world).bodies@[k]))
                    || (exists|i: int|
                        0 <= i < old(phys_world).floors@.len()
                        && ray_hits_floor(origin, direction, #[trigger] old(phys_world).floors@[i])))
                && (forall|p2: Vec3i, tn: int, td: int|
                    #[trigger] near_hit_point(*old(phys_world), origin, direction, p2, tn, td)
                    ==> spawn_in_range(p2, size as int))
                ==> spawned is Some,
    {
        if !(rmb || spawn_key_pressed) {
            return None;
        }
        match phys_world.pos_raycast(origin, direction) {
            Some(p) => {
                let in_range = -COORD_MAX <= p.x && p.x <= COORD_MAX
                    && -COORD_MAX <= p.y && p.y <= COORD_MAX - size
                    && -COORD_MAX <= p.z && p.z <= COORD_MAX;
                proof {
                    assert(in_range == spawn_in_range(p, size as int));
                }
                if in_range {
                    let (_, sent) = add_cube(world, renderer, phys_world, commands, p, size);
                    Some((p, sent))
                } else {
                    // The met point lies out of range: exhibit it against the
                    // all-candidates-in-range hypothesis.
                    proof {
                        assert(Some(p).unwrap() == p);
                        let (tn, td) = choose|tn: int, td: int|
                            #[trigger] near_hit_point(
                                *phys_world, origin, direction, Some(p).unwrap(), tn, td,
                            ) && crate::queries::no_nearer_hit(
                                *phys_world, origin, direction, tn, td,
                            );
                        assert(near_hit_point(*phys_world, origin, direction, p, tn, td));
                    }
                    None
                }
            }
            None => None,
        }
    }
}

} // verus!
