//! The step scheduler's per-tick logic.
//!
//! An independently scheduled loop consumes timesteps from the capacity-one
//! delta-time channel.  For each timestep it attempts a non-blocking
//! acquisition of the simulation lock; a contended tick is dropped outright,
//! never queued, so simulation lag cannot accumulate.  On a successful
//! acquisition the tick advances the simulation, applies at most one pending
//! command, and publishes a status record, dropping the record silently when
//! the status channel is full so that telemetry never applies back-pressure.

use vstd::prelude::*;
use crate::channels::{chan_after_recv, chan_after_send, chan_send_ok, BoundedChannel};
use crate::phys::{
    cmd_ok, cmd_target, impulse_consumed, Body, BodyRef, PhyisicsStatus, PhysicalWorld,
    PhysicsCommand,
};
use crate::units::{Pose, Quat4, SCALE};

verus! {

/// Failure of a single command.
#[derive(Copy, Clone, PartialEq, Eq, Structural, Debug)]
pub enum CommandError {
    /// The command's target body was removed before the command was consumed.
    StaleBody,
}

/// What one tick did about commands.
#[derive(Copy, Clone, PartialEq, Eq, Structural, Debug)]
pub enum CommandOutcome {
    /// No command was pending.
    NoCommand,
    /// The dequeued command was applied to this body.
    Applied(BodyRef),
    /// The dequeued command targeted this since-removed body and failed in
    /// isolation; the loop continues unaffected.
    Stale(BodyRef),
}

/// Report of one successful tick.
#[derive(Copy, Clone, PartialEq, Eq, Structural, Debug)]
pub struct TickOutcome {
    pub command: CommandOutcome,
    /// Whether the status record found room in the status channel.
    pub status_published: bool,
}

/// The body after a command took effect on it.  A translation sets the
/// whole position: the rotation resets to identity, as the engine's
/// position-setting does.
pub open spec fn cmd_applied(b: Body, c: PhysicsCommand) -> Body {
    match c {
        PhysicsCommand::Impulse(v, _) => Body { pending_impulse: Some(v), ..b },
        PhysicsCommand::SetType(t, _) => Body { body_type: t, ..b },
        PhysicsCommand::Translate(v, _) => Body {
            pose: Pose { pos: v, rot: Quat4 { x: 0, y: 0, z: 0, w: SCALE } },
            ..b
        },
    }
}

/// Every body after one bare simulation step: pending impulses are consumed.
pub open spec fn stepped_bodies(m: Map<u64, Body>) -> Map<u64, Body> {
    m.map_values(|b: Body| impulse_consumed(b))
}

/// The body map after one successful tick on the given command queue: one
/// step, then at most the first pending command, which takes effect only on a
/// body the simulation still knows.
pub open spec fn tick_bodies(m: Map<u64, Body>, cmds: Seq<PhysicsCommand>) -> Map<u64, Body> {
    let sm = stepped_bodies(m);
    if cmds.len() > 0 && sm.contains_key(cmd_target(cmds[0]).id) {
        sm.insert(
            cmd_target(cmds[0]).id,
            cmd_applied(sm[cmd_target(cmds[0]).id], cmds[0]),
        )
    } else {
        sm
    }
}

/// What one successful tick reports about the command it dequeued.
pub open spec fn tick_command_outcome(
    m: Map<u64, Body>,
    cmds: Seq<PhysicsCommand>,
) -> CommandOutcome {
    if cmds.len() == 0 {
        CommandOutcome::NoCommand
    } else if m.contains_key(cmd_target(cmds[0]).id) {
        CommandOutcome::Applied(cmd_target(cmds[0]))
    } else {
        CommandOutcome::Stale(cmd_target(cmds[0]))
    }
}

/// Apply one command to its target body.  A target the simulation no longer
/// knows fails this single command and changes nothing.
pub fn apply_command(phys_world: &mut PhysicalWorld, c: PhysicsCommand)
    -> (r: Result<(), CommandError>)
    requires
        old(phys_world).wf(),
        cmd_ok(c),
    ensures
        final(phys_world).wf(),
        old(phys_world).has_body(cmd_target(c)) ==> {
            &&& r matches Ok(())
            &&& final(phys_world).bodies@ == old(phys_world).bodies@.insert(
                cmd_target(c).id,
                cmd_applied(old(phys_world).bodies@[cmd_target(c).id], c),
            )
        },
        !old(phys_world).has_body(cmd_target(c)) ==> {
            &&& r matches Err(e) && e == CommandError::StaleBody
            &&& *final(phys_world) == *old(phys_world)
        },
        final(phys_world).floors@ == old(phys_world).floors@,
        final(phys_world).next_body_id == old(phys_world).next_body_id,
        final(phys_world).next_collider_id == old(phys_world).next_collider_id,
        final(phys_world).step_count == old(phys_world).step_count,
{
    let target = match c {
        PhysicsCommand::Impulse(_, b) => b,
        PhysicsCommand::SetType(_, b) => b,
        PhysicsCommand::Translate(_, b) => b,
    };
    let b = match phys_world.bodies.get(target.id) {
        Some(b) => *b,
        None => {
            return Err(CommandError::StaleBody);
        }
    };
    let nb = match c {
        PhysicsCommand::Impulse(v, _) => Body { pending_impulse: Some(v), ..b },
        PhysicsCommand::SetType(t, _) => Body { body_type: t, ..b },
        PhysicsCommand::Translate(v, _) => Body {
            pose: Pose { pos: v, rot: Quat4 { x: 0, y: 0, z: 0, w: SCALE } },
            ..b
        },
    };
    let _ = phys_world.bodies.set(target.id, nb);
    Ok(())
}

/// One successful tick of the step scheduler, run under the simulation lock
/// after the engine solved the step: advance the model by `dt`, drain at most
/// one pending command and apply it to its target, then offer the measured
/// solve time to the status channel, dropping it silently when the channel is
/// full.
pub fn scheduler_tick(
    phys_world: &mut PhysicalWorld,
    commands: &mut BoundedChannel<PhysicsCommand>,
    statuses: &mut BoundedChannel<PhyisicsStatus>,
    dt: u64,
    solve_time: u64,
) -> (outcome: TickOutcome)
    requires
        old(phys_world).wf(),
        old(phys_world).step_count < u64::MAX,
        old(commands).wf(),
        old(statuses).wf(),
        forall|i: int| 0 <= i < old(commands)@.len() ==> cmd_ok(#[trigger] old(commands)@[i]),
    ensures
        final(phys_world).wf(),
        final(phys_world).bodies@ == tick_bodies(old(phys_world).bodies@, old(commands)@),
        final(phys_world).floors@ == old(phys_world).floors@,
        final(phys_world).next_body_id == old(phys_world).next_body_id,
        final(phys_world).next_collider_id == old(phys_world).next_collider_id,
        final(phys_world).step_count == old(phys_world).step_count + 1,
        outcome.command == tick_command_outcome(old(phys_world).bodies@, old(commands)@),
        final(commands)@ == chan_after_recv(old(commands)@),
        final(commands).capacity() == old(commands).capacity(),
        final(statuses)@ == chan_after_send(
            old(statuses)@,
            old(statuses).capacity(),
            PhyisicsStatus { solve_time },
        ),
        final(statuses).capacity() == old(statuses).capacity(),
        outcome.status_published == chan_send_ok(old(statuses)@, old(statuses).capacity()),
{
    let ghost bodies0 = phys_world.bodies@;
    phys_world.step(dt);
    proof {
        assert(phys_world.bodies@ =~= stepped_bodies(bodies0));
    }
    let command = match commands.try_recv() {
        Some(c) => match apply_command(phys_world, c) {
            Ok(()) => CommandOutcome::Applied(cmd_target_exec(&c)),
            Err(CommandError::StaleBody) => CommandOutcome::Stale(cmd_target_exec(&c)),
        },
        None => CommandOutcome::NoCommand,
    };
    let published = match statuses.try_send(PhyisicsStatus { solve_time }) {
        Ok(()) => true,
        Err(_) => false,
    };
    TickOutcome { command, status_published: published }
}

/// The body a command targets.
pub fn cmd_target_exec(c: &PhysicsCommand) -> (b: BodyRef)
    ensures
        b == cmd_target(*c),
{
    match c {
        PhysicsCommand::Impulse(_, b) => *b,
        PhysicsCommand::SetType(_, b) => *b,
        PhysicsCommand::Translate(_, b) => *b,
    }
}

/// Stale commands fail in isolation.  For any queue whose first command
/// targets a body destroyed before consumption and whose second targets a
/// still-live body, the first tick reports the stale target and leaves every
/// body exactly as the bare step leaves it, and the next successful tick
/// still applies the second command to its target.
pub proof fn lemma_command_isolation(m: Map<u64, Body>, cmds: Seq<PhysicsCommand>)
    requires
        cmds.len() >= 2,
        !m.contains_key(cmd_target(cmds[0]).id),
        m.contains_key(cmd_target(cmds[1]).id),
    ensures
        tick_bodies(m, cmds) == stepped_bodies(m),
        tick_command_outcome(m, cmds) == CommandOutcome::Stale(cmd_target(cmds[0])),
        ({
            let m1 = tick_bodies(m, cmds);
            let rest = chan_after_recv(cmds);
            &&& tick_command_outcome(m1, rest) == CommandOutcome::Applied(cmd_target(cmds[1]))
            &&& tick_bodies(m1, rest) == stepped_bodies(m1).insert(
                cmd_target(cmds[1]).id,
                cmd_applied(stepped_bodies(m1)[cmd_target(cmds[1]).id], cmds[1]),
            )
        }),
{
    let m1 = tick_bodies(m, cmds);
    let rest = chan_after_recv(cmds);
    assert(rest[0] == cmds[1]);
    assert(!stepped_bodies(m).contains_key(cmd_target(cmds[0]).id));
    assert(m1 == stepped_bodies(m));
    assert(m1.contains_key(cmd_target(cmds[1]).id));
    assert(stepped_bodies(m1).contains_key(cmd_target(cmds[1]).id));
}

} // verus!
