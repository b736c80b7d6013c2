use phys_sandbox::channels::BoundedChannel;
use phys_sandbox::phys::{PhyisicsStatus, PhysicalWorld, PhysicsCommand};
use phys_sandbox::registry::World;
use phys_sandbox::render::RenderStore;
use phys_sandbox::rb_builder::RbBuilder;
use phys_sandbox::scheduler::apply_command;
use phys_sandbox::units::{Pose, Quat4, Vec3i, SCALE};

fn transforms(renderer: &RenderStore) -> Vec<(u64, Pose)> {
    renderer.meshes.entries.clone()
}

#[test]
fn contended_syncs_never_fail_and_leave_transforms_unchanged() {
    let mut world = World::new();
    let mut renderer = RenderStore::new();
    let mut sim = PhysicalWorld::new();
    let _ = world.add_sphere(&mut renderer, &mut sim, SCALE);
    let before = transforms(&renderer);

    let mut dt_chan: BoundedChannel<u64> = BoundedChannel::new(1);
    let mut status_chan: BoundedChannel<PhyisicsStatus> = BoundedChannel::new(16);

    // The scheduler holds the lock: the sync skips the copy, submits the
    // timestep, and reports no error — staleness, not failure.
    let submitted = world.update(&mut renderer, None, &mut dt_chan, &mut status_chan, 16_000);
    assert!(submitted);
    assert_eq!(transforms(&renderer), before);

    // Repeated contended syncs behave the same; only the full delta-time
    // channel holds this frame's timestep back.
    for _ in 0..5 {
        let submitted = world.update(&mut renderer, None, &mut dt_chan, &mut status_chan, 16_000);
        assert!(!submitted);
        assert_eq!(transforms(&renderer), before);
    }
    assert_eq!(dt_chan.try_recv(), Some(16_000));
}

#[test]
fn acquired_sync_copies_body_poses_into_mesh_transforms() {
    let mut world = World::new();
    let mut renderer = RenderStore::new();
    let mut sim = PhysicalWorld::new();
    let h = world.add_sphere(&mut renderer, &mut sim, SCALE);
    let record = world
        .phys_meshes
        .entries
        .iter()
        .find(|e| e.0 == h.id as u64)
        .map(|e| e.1)
        .unwrap();

    let moved = Vec3i { x: 4 * SCALE, y: 2 * SCALE, z: -3 * SCALE };
    assert!(apply_command(&mut sim, PhysicsCommand::Translate(moved, record.body)).is_ok());

    let mut dt_chan: BoundedChannel<u64> = BoundedChannel::new(1);
    let mut status_chan: BoundedChannel<PhyisicsStatus> = BoundedChannel::new(16);
    assert!(status_chan.try_send(PhyisicsStatus { solve_time: 111 }).is_ok());
    assert!(status_chan.try_send(PhyisicsStatus { solve_time: 222 }).is_ok());

    let submitted = world.update(&mut renderer, Some(&sim), &mut dt_chan, &mut status_chan, 16_000);
    assert!(submitted);

    let pose = renderer
        .meshes
        .entries
        .iter()
        .find(|e| e.0 == record.mesh.id)
        .map(|e| e.1)
        .unwrap();
    assert_eq!(pose.pos, moved);
    // Setting the position resets the rotation to identity, as the engine's
    // position-setting does.
    assert_eq!(pose.rot, Quat4 { x: 0, y: 0, z: 0, w: SCALE });

    // The latest status superseded the older one; the timestep was offered
    // after the copy.
    assert_eq!(world.status, Some(PhyisicsStatus { solve_time: 222 }));
    assert_eq!(dt_chan.try_recv(), Some(16_000));

    // A sync with nothing new leaves the status empty.
    let _ = world.update(&mut renderer, Some(&sim), &mut dt_chan, &mut status_chan, 16_000);
    assert_eq!(world.status, None);
}

#[test]
fn builder_spawns_a_cube_resting_on_the_floor() {
    let mut world = World::new();
    let mut renderer = RenderStore::new();
    let mut sim = PhysicalWorld::new();
    let mut commands: BoundedChannel<PhysicsCommand> = BoundedChannel::new(16);
    world.add_floor(&mut sim, Vec3i { x: 125 * SCALE, y: 200, z: 125 * SCALE });

    // Click straight down at (2, _, 3).
    let origin = Vec3i { x: 2 * SCALE, y: 8 * SCALE, z: 3 * SCALE };
    let direction = Vec3i { x: 0, y: -SCALE, z: 0 };
    let spawned = RbBuilder::update(
        &mut world,
        &mut renderer,
        &mut sim,
        &mut commands,
        true,
        false,
        origin,
        direction,
        SCALE,
    );
    let (p, sent) = spawned.expect("the floor is under the pointer");
    assert!(sent);
    assert_eq!(p.x, 2 * SCALE);
    assert_eq!(p.z, 3 * SCALE);
    assert_eq!(world.phys_meshes.entries.len(), 1);

    // The queued command moves the new cube to the hit point, raised by its
    // half extent.
    match commands.try_recv() {
        Some(PhysicsCommand::Translate(target, _)) => {
            assert_eq!(target.x, p.x);
            assert_eq!(target.y, p.y + SCALE);
            assert_eq!(target.z, p.z);
        }
        other => panic!("expected a translate command, got {:?}", other),
    }
}

#[test]
fn builder_does_nothing_without_input_or_without_a_hit() {
    let mut world = World::new();
    let mut renderer = RenderStore::new();
    let mut sim = PhysicalWorld::new();
    let mut commands: BoundedChannel<PhysicsCommand> = BoundedChannel::new(16);

    let origin = Vec3i { x: 0, y: 8 * SCALE, z: 0 };
    let direction = Vec3i { x: 0, y: -SCALE, z: 0 };

    // No input: no spawn.
    let spawned = RbBuilder::update(
        &mut world, &mut renderer, &mut sim, &mut commands,
        false, false, origin, direction, SCALE,
    );
    assert_eq!(spawned, None);

    // Input, but an empty world: the ray meets nothing.
    let spawned = RbBuilder::update(
        &mut world, &mut renderer, &mut sim, &mut commands,
        true, true, origin, direction, SCALE,
    );
    assert_eq!(spawned, None);
    assert!(world.phys_meshes.entries.is_empty());
    assert_eq!(commands.len(), 0);
}

#[test]
fn record_of_a_removed_body_syncs_nothing() {
    let mut world = World::new();
    let mut renderer = RenderStore::new();
    let mut sim = PhysicalWorld::new();
    let h = world.add_sphere(&mut renderer, &mut sim, SCALE);
    let record = world
        .phys_meshes
        .entries
        .iter()
        .find(|e| e.0 == h.id as u64)
        .map(|e| e.1)
        .unwrap();

    // Remove the body underneath the record; the record's refresh then
    // leaves the transform exactly as it was.
    sim.remove_rigidbody(record.body);
    let before = transforms(&renderer);
    record.update(&mut renderer, &sim);
    assert_eq!(transforms(&renderer), before);
}

#[test]
fn step_consumes_every_pending_impulse() {
    let mut sim = PhysicalWorld::new();
    let a = sim.add_sphere_rigidbody(0, 0, 0, SCALE);
    let b = sim.add_cube_rigidbody(3 * SCALE, 0, 0, SCALE);
    assert!(apply_command(&mut sim, PhysicsCommand::Impulse(Vec3i { x: 1, y: 2, z: 3 }, a)).is_ok());
    assert!(apply_command(&mut sim, PhysicsCommand::Impulse(Vec3i { x: 4, y: 5, z: 6 }, b)).is_ok());

    sim.step(16_000);
    for e in &sim.bodies.entries {
        assert_eq!(e.1.pending_impulse, None);
    }
    assert_eq!(sim.step_count, 1);
}
