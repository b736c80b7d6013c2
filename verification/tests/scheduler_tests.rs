use phys_sandbox::channels::BoundedChannel;
use phys_sandbox::phys::{BodyType, PhyisicsStatus, PhysicalWorld, PhysicsCommand};
use phys_sandbox::scheduler::{apply_command, scheduler_tick, CommandError, CommandOutcome};
use phys_sandbox::units::{Pose, Quat4, Vec3i, SCALE};

#[test]
fn stale_command_fails_alone_and_later_command_still_applies() {
    let mut sim = PhysicalWorld::new();
    let doomed = sim.add_sphere_rigidbody(0, 1000, 0, 1000);
    let alive = sim.add_cube_rigidbody(0, 3000, 0, 1000);
    sim.remove_rigidbody(doomed);

    let mut commands: BoundedChannel<PhysicsCommand> = BoundedChannel::new(16);
    let mut statuses: BoundedChannel<PhyisicsStatus> = BoundedChannel::new(16);
    let target = Vec3i { x: 5000, y: 6000, z: 7000 };
    assert!(commands.try_send(PhysicsCommand::Impulse(Vec3i { x: 0, y: 9000, z: 0 }, doomed)).is_ok());
    assert!(commands.try_send(PhysicsCommand::Translate(target, alive)).is_ok());

    // First tick: the stale command fails in isolation; the loop continues.
    let outcome = scheduler_tick(&mut sim, &mut commands, &mut statuses, 16_000, 250);
    assert_eq!(outcome.command, CommandOutcome::Stale(doomed));
    assert!(outcome.status_published);
    assert_eq!(sim.step_count, 1);

    // Second tick: the command aimed at the still-live body applies.
    let outcome = scheduler_tick(&mut sim, &mut commands, &mut statuses, 16_000, 260);
    assert_eq!(outcome.command, CommandOutcome::Applied(alive));
    assert_eq!(sim.step_count, 2);
    let body = sim.bodies.entries.iter().find(|e| e.0 == alive.id).map(|e| e.1).unwrap();
    assert_eq!(body.pose.pos, target);
}

#[test]
fn tick_without_commands_just_steps_and_publishes_status() {
    let mut sim = PhysicalWorld::new();
    let _ = sim.add_sphere_rigidbody(0, 1000, 0, 1000);
    let mut commands: BoundedChannel<PhysicsCommand> = BoundedChannel::new(16);
    let mut statuses: BoundedChannel<PhyisicsStatus> = BoundedChannel::new(16);

    let outcome = scheduler_tick(&mut sim, &mut commands, &mut statuses, 16_000, 420);
    assert_eq!(outcome.command, CommandOutcome::NoCommand);
    assert!(outcome.status_published);
    assert_eq!(statuses.try_recv(), Some(PhyisicsStatus { solve_time: 420 }));
    assert_eq!(sim.step_count, 1);
    assert_eq!(sim.bodies.entries.len(), 1);
}

#[test]
fn full_status_channel_drops_telemetry_silently() {
    let mut sim = PhysicalWorld::new();
    let mut commands: BoundedChannel<PhysicsCommand> = BoundedChannel::new(16);
    let mut statuses: BoundedChannel<PhyisicsStatus> = BoundedChannel::new(2);
    for i in 0..2 {
        assert!(statuses.try_send(PhyisicsStatus { solve_time: i }).is_ok());
    }

    // Telemetry never applies back-pressure: the tick succeeds, the record
    // is dropped.
    let outcome = scheduler_tick(&mut sim, &mut commands, &mut statuses, 16_000, 999);
    assert!(!outcome.status_published);
    assert_eq!(sim.step_count, 1);
    assert_eq!(statuses.recv_latest(), Some(PhyisicsStatus { solve_time: 1 }));
}

#[test]
fn apply_command_each_variant_takes_effect() {
    let mut sim = PhysicalWorld::new();
    let b = sim.add_sphere_rigidbody(100, 200, 300, 1000);

    assert!(apply_command(&mut sim, PhysicsCommand::Translate(Vec3i { x: 7, y: 8, z: 9 }, b)).is_ok());
    let body = sim.bodies.entries.iter().find(|e| e.0 == b.id).map(|e| e.1).unwrap();
    assert_eq!(body.pose.pos, Vec3i { x: 7, y: 8, z: 9 });

    assert!(apply_command(&mut sim, PhysicsCommand::SetType(BodyType::Fixed, b)).is_ok());
    let body = sim.bodies.entries.iter().find(|e| e.0 == b.id).map(|e| e.1).unwrap();
    assert_eq!(body.body_type, BodyType::Fixed);

    let push = Vec3i { x: 0, y: 0, z: -500 };
    assert!(apply_command(&mut sim, PhysicsCommand::Impulse(push, b)).is_ok());
    let body = sim.bodies.entries.iter().find(|e| e.0 == b.id).map(|e| e.1).unwrap();
    assert_eq!(body.pending_impulse, Some(push));

    // The next step consumes the pending impulse.
    sim.step(16_000);
    let body = sim.bodies.entries.iter().find(|e| e.0 == b.id).map(|e| e.1).unwrap();
    assert_eq!(body.pending_impulse, None);
}

#[test]
fn apply_command_on_removed_body_reports_stale() {
    let mut sim = PhysicalWorld::new();
    let b = sim.add_sphere_rigidbody(0, 0, 0, 1000);
    sim.remove_rigidbody(b);
    let before = sim.bodies.entries.len();
    let r = apply_command(&mut sim, PhysicsCommand::Translate(Vec3i { x: 1, y: 2, z: 3 }, b));
    assert_eq!(r, Err(CommandError::StaleBody));
    assert_eq!(sim.bodies.entries.len(), before);
}

#[test]
fn set_pose_records_engine_motion_for_live_bodies_only() {
    let mut sim = PhysicalWorld::new();
    let b = sim.add_sphere_rigidbody(0, 0, 0, SCALE);

    let fallen = Pose {
        pos: Vec3i { x: 10, y: -250, z: 3 },
        rot: Quat4 { x: 100, y: 0, z: 0, w: 995 },
    };
    assert!(sim.set_pose(b, fallen));
    let body = sim.bodies.entries.iter().find(|e| e.0 == b.id).map(|e| e.1).unwrap();
    assert_eq!(body.pose, fallen);

    // A removed body ingests nothing.
    sim.remove_rigidbody(b);
    assert!(!sim.set_pose(b, fallen));
    assert!(sim.bodies.entries.is_empty());
}
