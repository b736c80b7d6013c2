//! The entity registry and the per-frame synchronization point.
//!
//! `World` maps opaque, never-reused handles to entity records, each owning
//! the association between one render mesh and one physics body.  Creation
//! and destruction update the registry, the simulation and the render store
//! together or not at all, so the registry's live handles always correspond
//! one-to-one to the bodies the simulation knows.

use vstd::prelude::*;
use crate::channels::{chan_after_send, chan_send_ok, BoundedChannel};
use crate::kvlist::{lemma_kv_contains, lemma_kv_lookup, KvVec};
use crate::phys::{Body, BodyRef, BodyType, PhyisicsStatus, PhysicalWorld, ShapeKind};
use crate::render::{MeshRef, RenderStore};
use crate::units::{Pose, Quat4, Vec3i, COORD_MAX, SCALE};

verus! {

/// Stable, copyable identifier of one live entity.
#[derive(Copy, Clone, PartialEq, Eq, Structural, Hash, Debug)]
pub struct PhysMeshHandle {
    pub id: u32,
}

/// One entity record: the association between a render mesh and a physics
/// body.  Both references are borrowed from their owning subsystems.
#[derive(Copy, Clone, PartialEq, Eq, Structural, Debug)]
pub struct PhysMesh {
    pub mesh: MeshRef,
    pub body: BodyRef,
}

/// Failure of a registry operation.
#[derive(Copy, Clone, PartialEq, Eq, Structural, Debug)]
pub enum RegistryError {
    /// The handle does not name a live entity.
    NotFound,
}

impl PhysMesh {
    /// Create a sphere entity's halves: a dynamic ball body of radius `size`
    /// one unit above the origin, and a render mesh starting at the body's
    /// pose.
    pub fn sphere(renderer: &mut RenderStore, phys_world: &mut PhysicalWorld, size: i64)
        -> (pm: PhysMesh)
        requires
            old(renderer).wf(),
            old(phys_world).wf(),
            0 < size <= COORD_MAX,
            old(renderer).next_mesh_id < u64::MAX,
            old(phys_world).next_body_id < u64::MAX,
        ensures
            final(renderer).wf(),
            final(phys_world).wf(),
            pm.body.id == old(phys_world).next_body_id,
            pm.mesh.id == old(renderer).next_mesh_id,
            final(phys_world).bodies@ == old(phys_world).bodies@.insert(
                pm.body.id,
                Body {
                    shape: ShapeKind::Sphere { radius: size },
                    pose: spawn_pose(),
                    body_type: BodyType::Dynamic,
                    pending_impulse: None,
                },
            ),
            final(renderer).meshes@ == old(renderer).meshes@.insert(pm.mesh.id, spawn_pose()),
            final(phys_world).next_body_id == old(phys_world).next_body_id + 1,
            final(renderer).next_mesh_id == old(renderer).next_mesh_id + 1,
            final(phys_world).floors@ == old(phys_world).floors@,
            final(phys_world).next_collider_id == old(phys_world).next_collider_id,
            final(phys_world).step_count == old(phys_world).step_count,
    {
        let body = phys_world.add_sphere_rigidbody(0, SCALE, 0, size);
        let mesh = renderer.add_mesh(Pose::at(Vec3i { x: 0, y: SCALE, z: 0 }));
        PhysMesh { mesh, body }
    }

    /// Create a cube entity's halves: a dynamic cube body of half extent
    /// `size` one unit above the origin, and a render mesh starting at the
    /// body's pose.
    pub fn cube(renderer: &mut RenderStore, phys_world: &mut PhysicalWorld, size: i64)
        -> (pm: PhysMesh)
        requires
            old(renderer).wf(),
            old(phys_world).wf(),
            0 < size <= COORD_MAX,
            old(renderer).next_mesh_id < u64::MAX,
            old(phys_world).next_body_id < u64::MAX,
        ensures
            final(renderer).wf(),
            final(phys_world).wf(),
            pm.body.id == old(phys_world).next_body_id,
            pm.mesh.id == old(renderer).next_mesh_id,
            final(phys_world).bodies@ == old(phys_world).bodies@.insert(
                pm.body.id,
                Body {
                    shape: ShapeKind::Cuboid { hx: size, hy: size, hz: size },
                    pose: spawn_pose(),
                    body_type: BodyType::Dynamic,
                    pending_impulse: None,
                },
            ),
            final(renderer).meshes@ == old(renderer).meshes@.insert(pm.mesh.id, spawn_pose()),
            final(phys_world).next_body_id == old(phys_world).next_body_id + 1,
            final(renderer).next_mesh_id == old(renderer).next_mesh_id + 1,
            final(phys_world).floors@ == old(phys_world).floors@,
            final(phys_world).next_collider_id == old(phys_world).next_collider_id,
            final(phys_world).step_count == old(phys_world).step_count,
    {
        let body = phys_world.add_cube_rigidbody(0, SCALE, 0, size);
        let mesh = renderer.add_mesh(Pose::at(Vec3i { x: 0, y: SCALE, z: 0 }));
        PhysMesh { mesh, body }
    }

    /// Copy this record's body pose from the simulation into its render
    /// mesh's transform.  A record whose body the simulation no longer knows
    /// changes nothing.
    pub fn update(&self, renderer: &mut RenderStore, phys_world: &PhysicalWorld)
        requires
            old(renderer).wf(),
            phys_world.wf(),
        ensures
            final(renderer).wf(),
            phys_world.has_body(self.body) && old(renderer).has_mesh(self.mesh)
                ==> final(renderer).meshes@ == old(renderer).meshes@.insert(
                    self.mesh.id,
                    phys_world.body_at(self.body).pose,
                ),
            !(phys_world.has_body(self.body) && old(renderer).has_mesh(self.mesh))
                ==> *final(renderer) == *old(renderer),
            final(renderer).next_mesh_id == old(renderer).next_mesh_id,
            final(renderer).meshes@.dom() =~= old(renderer).meshes@.dom(),
    {
        match phys_world.bodies.get(self.body.id) {
            Some(b) => {
                let _ = renderer.set_transform(self.mesh, b.pose);
            }
            None => {}
        }
    }
}

/// The pose every new entity starts at: one unit above the origin, unrotated.
pub open spec fn spawn_pose() -> Pose {
    Pose { pos: Vec3i { x: 0, y: SCALE, z: 0 }, rot: Quat4 { x: 0, y: 0, z: 0, w: SCALE } }
}

/// The frame-side state: the entity registry, the handle counter, and the
/// latest status telemetry.  The ghost `issued` set records every handle the
/// registry has ever handed out, so freshness is a statement about the whole
/// history, not only about the currently live handles.
pub struct World {
    pub phys_meshes: KvVec<PhysMesh>,
    pub next_handle_id: u32,
    pub status: Option<PhyisicsStatus>,
    pub issued: Ghost<Set<u32>>,
}

impl World {
    /// Well-formed: handle keys are distinct, every issued handle (the live
    /// ones among them) lies below the issue counter, and no two records
    /// share a body or a mesh.
    pub open spec fn wf(self) -> bool {
        &&& self.phys_meshes.wf()
        &&& forall|k: u64| #[trigger] self.phys_meshes@.contains_key(k)
            ==> k < self.next_handle_id as u64
        &&& forall|id: u32| #[trigger] self.issued@.contains(id) ==> id < self.next_handle_id
        &&& forall|k: u64| #[trigger] self.phys_meshes@.contains_key(k)
            ==> self.issued@.contains(k as u32)
        &&& forall|k1: u64, k2: u64|
            #[trigger] self.phys_meshes@.contains_key(k1)
            && #[trigger] self.phys_meshes@.contains_key(k2) && k1 != k2
            ==> self.phys_meshes@[k1].body != self.phys_meshes@[k2].body
                && self.phys_meshes@[k1].mesh != self.phys_meshes@[k2].mesh
    }

    /// Whether the handle names a live entity.
    pub open spec fn has_handle(self, h: PhysMeshHandle) -> bool {
        self.phys_meshes@.contains_key(h.id as u64)
    }

    /// The record behind a live handle.
    pub open spec fn record_of(self, h: PhysMeshHandle) -> PhysMesh {
        self.phys_meshes@[h.id as u64]
    }

    /// The bodies the registry's live records refer to.
    pub open spec fn registered_bodies(self) -> Set<u64> {
        Set::new(
            |b: u64|
                exists|k: u64|
                    #[trigger] self.phys_meshes@.contains_key(k)
                    && self.phys_meshes@[k].body.id == b,
        )
    }

    /// The registry's live handles correspond exactly to the bodies the
    /// simulation knows: no record refers to a removed body, and no body
    /// escapes the registry.
    pub open spec fn consistent_with(self, sim: PhysicalWorld) -> bool {
        &&& forall|k: u64| #[trigger] self.phys_meshes@.contains_key(k)
            ==> sim.bodies@.contains_key(self.phys_meshes@[k].body.id)
        &&& forall|b: u64| #[trigger] sim.bodies@.contains_key(b)
            ==> exists|k: u64|
                #[trigger] self.phys_meshes@.contains_key(k)
                && self.phys_meshes@[k].body.id == b
    }

    /// Every record's mesh is known to the render store.
    pub open spec fn meshes_in(self, renderer: RenderStore) -> bool {
        forall|k: u64| #[trigger] self.phys_meshes@.contains_key(k)
            ==> renderer.meshes@.contains_key(self.phys_meshes@[k].mesh.id)
    }

    pub fn new() -> (w: Self)
        ensures
            w.wf(),
            w.phys_meshes@ == Map::<u64, PhysMesh>::empty(),
            w.next_handle_id == 0,
            w.status is None,
            w.issued@ == Set::<u32>::empty(),
    {
        World {
            phys_meshes: KvVec::new(),
            next_handle_id: 0,
            status: None,
            issued: Ghost(Set::empty()),
        }
    }

    /// Register a freshly created record under a fresh handle.
    fn register(&mut self, renderer: &RenderStore, phys_world: &PhysicalWorld, pm: PhysMesh)
        -> (h: PhysMeshHandle)
        requires
            old(self).wf(),
            old(self).next_handle_id < u32::MAX,
            phys_world.wf(),
            renderer.wf(),
            // The record is the newest allocation of both subsystems, so it
            // collides with no registered record.
            phys_world.has_body(pm.body),
            renderer.has_mesh(pm.mesh),
            forall|k: u64| #[trigger] old(self).phys_meshes@.contains_key(k)
                ==> old(self).phys_meshes@[k].body.id < pm.body.id
                    && old(self).phys_meshes@[k].mesh.id < pm.mesh.id,
        ensures
            final(self).wf(),
            h.id == old(self).next_handle_id,
            !old(self).has_handle(h),
            // The handle is fresh against the whole history of issued
            // handles, not only against the live ones.
            !old(self).issued@.contains(h.id),
            final(self).issued@ == old(self).issued@.insert(h.id),
            final(self).phys_meshes@ == old(self).phys_meshes@.insert(h.id as u64, pm),
            final(self).next_handle_id == old(self).next_handle_id + 1,
            final(self).status == old(self).status,
    {
        let h = PhysMeshHandle { id: self.next_handle_id };
        self.next_handle_id = self.next_handle_id + 1;
        self.issued = Ghost(self.issued@.insert(h.id));
        self.phys_meshes.insert_new(h.id as u64, pm);
        h
    }

    /// Create a sphere entity: allocate its body and mesh and register the
    /// record under a fresh, never-reused handle.
    pub fn add_sphere(
        &mut self,
        renderer: &mut RenderStore,
        phys_world: &mut PhysicalWorld,
        size: i64,
    ) -> (h: PhysMeshHandle)
        requires
            old(self).wf(),
            old(renderer).wf(),
            old(phys_world).wf(),
            old(self).consistent_with(*old(phys_world)),
            old(self).meshes_in(*old(renderer)),
            0 < size <= COORD_MAX,
            old(self).next_handle_id < u32::MAX,
            old(renderer).next_mesh_id < u64::MAX,
            old(phys_world).next_body_id < u64::MAX,
        ensures
            final(self).wf(),
            final(renderer).wf(),
            final(phys_world).wf(),
            final(self).consistent_with(*final(phys_world)),
            final(self).meshes_in(*final(renderer)),
            h.id == old(self).next_handle_id,
            !old(self).has_handle(h),
            !old(self).issued@.contains(h.id),
            final(self).issued@ == old(self).issued@.insert(h.id),
            final(self).next_handle_id == old(self).next_handle_id + 1,
            final(self).has_handle(h),
            final(self).record_of(h).body.id == old(phys_world).next_body_id,
            final(self).record_of(h).mesh.id == old(renderer).next_mesh_id,
            final(self).phys_meshes@ == old(self).phys_meshes@.insert(
                h.id as u64,
                final(self).record_of(h),
            ),
            final(phys_world).bodies@ == old(phys_world).bodies@.insert(
                final(self).record_of(h).body.id,
                Body {
                    shape: ShapeKind::Sphere { radius: size },
                    pose: spawn_pose(),
                    body_type: BodyType::Dynamic,
                    pending_impulse: None,
                },
            ),
            final(renderer).meshes@ == old(renderer).meshes@.insert(
                final(self).record_of(h).mesh.id,
                spawn_pose(),
            ),
            final(phys_world).next_body_id == old(phys_world).next_body_id + 1,
            final(renderer).next_mesh_id == old(renderer).next_mesh_id + 1,
            final(phys_world).floors@ == old(phys_world).floors@,
            final(phys_world).step_count == old(phys_world).step_count,
            final(self).status == old(self).status,
    {
        let pm = PhysMesh::sphere(renderer, phys_world, size);
        proof {
            register_fresh_record(*old(self), *old(phys_world), *old(renderer), pm);
        }
        let h = self.register(renderer, phys_world, pm);
        proof {
            create_preserves_consistency(*old(self), *self, *old(phys_world), *phys_world, h, pm);
        }
        h
    }

    /// Create a cube entity: allocate its body and mesh and register the
    /// record under a fresh, never-reused handle.
    pub fn add_cube(
        &mut self,
        renderer: &mut RenderStore,
        phys_world: &mut PhysicalWorld,
        size: i64,
    ) -> (h: PhysMeshHandle)
        requires
            old(self).wf(),
            old(renderer).wf(),
            old(phys_world).wf(),
            old(self).consistent_with(*old(phys_world)),
            old(self).meshes_in(*old(renderer)),
            0 < size <= COORD_MAX,
            old(self).next_handle_id < u32::MAX,
            old(renderer).next_mesh_id < u64::MAX,
            old(phys_world).next_body_id < u64::MAX,
        ensures
            final(self).wf(),
            final(renderer).wf(),
            final(phys_world).wf(),
            final(self).consistent_with(*final(phys_world)),
            final(self).meshes_in(*final(renderer)),
            h.id == old(self).next_handle_id,
            !old(self).has_handle(h),
            !old(self).issued@.contains(h.id),
            final(self).issued@ == old(self).issued@.insert(h.id),
            final(self).next_handle_id == old(self).next_handle_id + 1,
            final(self).has_handle(h),
            final(self).record_of(h).body.id == old(phys_world).next_body_id,
            final(self).record_of(h).mesh.id == old(renderer).next_mesh_id,
            final(self).phys_meshes@ == old(self).phys_meshes@.insert(
                h.id as u64,
                final(self).record_of(h),
            ),
            final(phys_world).bodies@ == old(phys_world).bodies@.insert(
                final(self).record_of(h).body.id,
                Body {
                    shape: ShapeKind::Cuboid { hx: size, hy: size, hz: size },
                    pose: spawn_pose(),
                    body_type: BodyType::Dynamic,
                    pending_impulse: None,
                },
            ),
            final(renderer).meshes@ == old(renderer).meshes@.insert(
                final(self).record_of(h).mesh.id,
                spawn_pose(),
            ),
            final(phys_world).next_body_id == old(phys_world).next_body_id + 1,
            final(renderer).next_mesh_id == old(renderer).next_mesh_id + 1,
            final(phys_world).floors@ == old(phys_world).floors@,
            final(phys_world).step_count == old(phys_world).step_count,
            final(self).status == old(self).status,
    {
        let pm = PhysMesh::cube(renderer, phys_world, size);
        proof {
            register_fresh_record(*old(self), *old(phys_world), *old(renderer), pm);
        }
        let h = self.register(renderer, phys_world, pm);
        proof {
            create_preserves_consistency(*old(self), *self, *old(phys_world), *phys_world, h, pm);
        }
        h
    }

    /// Destroy an entity: remove its body (cascading over colliders and
    /// joints), its render mesh and its registry record together, under the
    /// one lock hold.  An unknown handle changes nothing and reports
    /// `NotFound`.
    pub fn destroy(
        &mut self,
        renderer: &mut RenderStore,
        phys_world: &mut PhysicalWorld,
        handle: PhysMeshHandle,
    ) -> (r: Result<(), RegistryError>)
        requires
            old(self).wf(),
            old(renderer).wf(),
            old(phys_world).wf(),
            old(self).consistent_with(*old(phys_world)),
            old(self).meshes_in(*old(renderer)),
        ensures
            final(self).wf(),
            final(renderer).wf(),
            final(phys_world).wf(),
            final(self).consistent_with(*final(phys_world)),
            final(self).meshes_in(*final(renderer)),
            final(self).next_handle_id == old(self).next_handle_id,
            final(self).status == old(self).status,
            final(self).issued@ == old(self).issued@,
            r matches Ok(()) <==> old(self).has_handle(handle),
            old(self).has_handle(handle) ==> {
                &&& final(self).phys_meshes@ == old(self).phys_meshes@.remove(handle.id as u64)
                &&& final(phys_world).bodies@ == old(phys_world).bodies@.remove(
                    old(self).record_of(handle).body.id,
                )
                &&& final(renderer).meshes@ == old(renderer).meshes@.remove(
                    old(self).record_of(handle).mesh.id,
                )
            },
            !old(self).has_handle(handle) ==> {
                &&& *final(self) == *old(self)
                &&& *final(renderer) == *old(renderer)
                &&& *final(phys_world) == *old(phys_world)
            },
            r matches Err(e) ==> e == RegistryError::NotFound,
            final(phys_world).next_body_id == old(phys_world).next_body_id,
            final(phys_world).floors@ == old(phys_world).floors@,
            final(phys_world).step_count == old(phys_world).step_count,
            final(renderer).next_mesh_id == old(renderer).next_mesh_id,
    {
        let pm = match self.phys_meshes.get(handle.id as u64) {
            Some(pm) => *pm,
            None => {
                return Err(RegistryError::NotFound);
            }
        };
        phys_world.remove_rigidbody(pm.body);
        renderer.destroy_mesh(pm.mesh);
        let _ = self.phys_meshes.remove(handle.id as u64);
        proof {
            destroy_preserves_consistency(
                *old(self),
                *self,
                *old(phys_world),
                *phys_world,
                handle,
                pm,
            );
        }
        Ok(())
    }

    /// Reverse lookup: the handle whose record refers to the given body, used
    /// by picking.  A linear scan is acceptable at the expected entity
    /// counts.
    pub fn get_phys_mesh_from_handle(&self, handle: BodyRef) -> (r: Option<PhysMeshHandle>)
        requires
            self.wf(),
        ensures
            match r {
                Some(h) => self.has_handle(h) && self.record_of(h).body == handle,
                None => forall|k: u64| #[trigger] self.phys_meshes@.contains_key(k)
                    ==> self.phys_meshes@[k].body != handle,
            },
    {
        let n = self.phys_meshes.entries.len();
        let mut i: usize = 0;
        while i < n
            invariant
                self.wf(),
                n == self.phys_meshes.entries@.len(),
                forall|j: int| 0 <= j < i ==> self.phys_meshes.entries@[j].1.body != handle,
            decreases n - i,
        {
            if self.phys_meshes.entries[i].1.body == handle {
                let k = self.phys_meshes.entries[i].0;
                proof {
                    lemma_kv_lookup(self.phys_meshes.entries@, i as int);
                    assert(k <= u32::MAX as u64) by {
                        assert(self.phys_meshes@.contains_key(k));
                    }
                }
                return Some(PhysMeshHandle { id: k as u32 });
            }
            i = i + 1;
        }
        proof {
            assert forall|k: u64| #[trigger] self.phys_meshes@.contains_key(k)
                implies self.phys_meshes@[k].body != handle by {
                lemma_kv_contains(self.phys_meshes.entries@, k);
                let j = choose|j: int|
                    0 <= j < self.phys_meshes.entries@.len()
                    && self.phys_meshes.entries@[j].0 == k;
                lemma_kv_lookup(self.phys_meshes.entries@, j);
            }
        }
        None
    }

    /// Insert the standalone floor collider into the simulation.
    pub fn add_floor(&self, phys_world: &mut PhysicalWorld, size: Vec3i)
        requires
            old(phys_world).wf(),
            0 <= size.x <= COORD_MAX,
            0 <= size.y <= COORD_MAX,
            0 <= size.z <= COORD_MAX,
            old(phys_world).next_collider_id < u64::MAX,
        ensures
            final(phys_world).wf(),
            final(phys_world).floors@ == old(phys_world).floors@.push(
                crate::phys::Floor {
                    center: (Vec3i { x: 0, y: (-size.y) as i64, z: 0 }),
                    half: size,
                },
            ),
            final(phys_world).bodies == old(phys_world).bodies,
            final(phys_world).next_body_id == old(phys_world).next_body_id,
            final(phys_world).next_collider_id == old(phys_world).next_collider_id + 1,
            final(phys_world).step_count == old(phys_world).step_count,
    {
        let _ = phys_world.add_floor(size);
    }

    /// The per-frame synchronization point.  When the simulation lock was
    /// acquired (`sim` is present), copy every live body's pose into its
    /// paired mesh's transform; when it was contended, leave every transform
    /// exactly as the previous frame left it.  Either way, poll the newest
    /// status and then offer this frame's timestep to the delta-time channel;
    /// the returned flag reports whether the channel accepted it, and a
    /// refused timestep is the caller's to resubmit once the scheduler
    /// consumes the pending one.
    pub fn update(
        &mut self,
        renderer: &mut RenderStore,
        sim: Option<&PhysicalWorld>,
        dt_chan: &mut BoundedChannel<u64>,
        status_chan: &mut BoundedChannel<PhyisicsStatus>,
        dt: u64,
    ) -> (submitted: bool)
        requires
            old(self).wf(),
            old(renderer).wf(),
            old(dt_chan).wf(),
            old(status_chan).wf(),
            sim matches Some(s) ==> s.wf() && old(self).consistent_with(*s)
                && old(self).meshes_in(*old(renderer)),
        ensures
            final(self).wf(),
            final(renderer).wf(),
            final(dt_chan).wf(),
            final(status_chan).wf(),
            final(self).phys_meshes == old(self).phys_meshes,
            final(self).next_handle_id == old(self).next_handle_id,
            final(self).issued@ == old(self).issued@,
            // Latest-value-wins status telemetry.
            final(status_chan)@ == Seq::<PhyisicsStatus>::empty(),
            old(status_chan)@.len() > 0 ==> final(self).status == Some(old(status_chan)@.last()),
            old(status_chan)@.len() == 0 ==> final(self).status is None,
            // Observe-then-advance: the timestep is offered after the copy.
            final(dt_chan)@ == chan_after_send(old(dt_chan)@, old(dt_chan).capacity(), dt),
            submitted == chan_send_ok(old(dt_chan)@, old(dt_chan).capacity()),
            final(dt_chan).capacity() == old(dt_chan).capacity(),
            // A contended lock leaves the previous frame's transforms
            // untouched: staleness, never an error.
            sim is None ==> *final(renderer) == *old(renderer),
            // An acquired lock refreshes exactly the registered meshes.
            sim matches Some(s) ==> {
                &&& final(renderer).meshes@.dom() =~= old(renderer).meshes@.dom()
                &&& final(renderer).next_mesh_id == old(renderer).next_mesh_id
                &&& forall|k: u64| #[trigger] old(self).phys_meshes@.contains_key(k)
                    ==> final(renderer).meshes@[old(self).phys_meshes@[k].mesh.id]
                        == s.body_at(old(self).phys_meshes@[k].body).pose
                &&& forall|m: u64| #[trigger] old(renderer).meshes@.contains_key(m)
                    && final(renderer).meshes@[m] != old(renderer).meshes@[m]
                    ==> exists|k: u64|
                        #[trigger] old(self).phys_meshes@.contains_key(k)
                        && old(self).phys_meshes@[k].mesh.id == m
            },
    {
        if let Some(s) = sim {
            self.sync_transforms(renderer, s);
        }
        self.status = status_chan.recv_latest();
        match dt_chan.try_send(dt) {
            Ok(()) => true,
            Err(_) => false,
        }
    }

    /// Copy every registered body's pose into its paired mesh's transform.
    fn sync_transforms(&self, renderer: &mut RenderStore, sim: &PhysicalWorld)
        requires
            self.wf(),
            old(renderer).wf(),
            sim.wf(),
            self.consistent_with(*sim),
            self.meshes_in(*old(renderer)),
        ensures
            final(renderer).wf(),
            final(renderer).meshes@.dom() =~= old(renderer).meshes@.dom(),
            final(renderer).next_mesh_id == old(renderer).next_mesh_id,
            forall|k: u64| #[trigger] self.phys_meshes@.contains_key(k)
                ==> final(renderer).meshes@[self.phys_meshes@[k].mesh.id]
                    == sim.body_at(self.phys_meshes@[k].body).pose,
            forall|m: u64| #[trigger] old(renderer).meshes@.contains_key(m)
                && final(renderer).meshes@[m] != old(renderer).meshes@[m]
                ==> exists|k: u64|
                    #[trigger] self.phys_meshes@.contains_key(k)
                    && self.phys_meshes@[k].mesh.id == m,
    {
        let ghost entries = self.phys_meshes.entries@;
        let n = self.phys_meshes.entries.len();
        let mut i: usize = 0;
        while i < n
            invariant
                self.wf(),
                sim.wf(),
                self.consistent_with(*sim),
                i <= n,
                n == entries.len(),
                entries == self.phys_meshes.entries@,
                renderer.wf(),
                renderer.meshes@.dom() =~= old(renderer).meshes@.dom(),
                renderer.next_mesh_id == old(renderer).next_mesh_id,
                self.meshes_in(*old(renderer)),
                forall|j: int| 0 <= j < i ==> renderer.meshes@[(#[trigger] entries[j]).1.mesh.id]
                    == sim.body_at(entries[j].1.body).pose,
                forall|m: u64| #[trigger] old(renderer).meshes@.contains_key(m)
                    && renderer.meshes@[m] != old(renderer).meshes@[m]
                    ==> exists|j: int| 0 <= j < i && (#[trigger] entries[j]).1.mesh.id == m,
            decreases n - i,
        {
            let pm = self.phys_meshes.entries[i].1;
            proof {
                lemma_kv_lookup(entries, i as int);
            }
            let ghost mid = renderer.meshes@;
            pm.update(renderer, sim);
            proof {
                // Meshes of distinct records are distinct, so this write
                // clobbers no earlier refresh.
                assert forall|j: int| 0 <= j < i + 1
                    implies renderer.meshes@[(#[trigger] entries[j]).1.mesh.id]
                        == sim.body_at(entries[j].1.body).pose by {
                    if j < i {
                        lemma_kv_lookup(entries, j);
                        lemma_kv_lookup(entries, i as int);
                        assert(entries[j].0 != entries[i as int].0);
                        assert(entries[j].1.mesh != entries[i as int].1.mesh);
                    }
                }
                assert forall|m: u64| #[trigger] old(renderer).meshes@.contains_key(m)
                    && renderer.meshes@[m] != old(renderer).meshes@[m]
                    implies exists|j: int|
                        0 <= j < i + 1 && (#[trigger] entries[j]).1.mesh.id == m by {
                    if m == entries[i as int].1.mesh.id {
                        assert(0 <= (i as int) && (i as int) < i + 1
                            && entries[i as int].1.mesh.id == m);
                    } else {
                        assert(mid[m] == renderer.meshes@[m]);
                        let j = choose|j: int|
                            0 <= j < i && (#[trigger] entries[j]).1.mesh.id == m;
                        assert(0 <= j < i + 1 && entries[j].1.mesh.id == m);
                    }
                }
            }
            i = i + 1;
        }
        proof {
            assert forall|k: u64| #[trigger] self.phys_meshes@.contains_key(k)
                implies renderer.meshes@[self.phys_meshes@[k].mesh.id]
                    == sim.body_at(self.phys_meshes@[k].body).pose by {
                lemma_kv_contains(entries, k);
                let j = choose|j: int| 0 <= j < entries.len() && entries[j].0 == k;
                lemma_kv_lookup(entries, j);
            }
            assert forall|m: u64| #[trigger] old(renderer).meshes@.contains_key(m)
                && renderer.meshes@[m] != old(renderer).meshes@[m]
                implies exists|k: u64|
                    #[trigger] self.phys_meshes@.contains_key(k)
                    && self.phys_meshes@[k].mesh.id == m by {
                let j = choose|j: int| 0 <= j < i && (#[trigger] entries[j]).1.mesh.id == m;
                lemma_kv_lookup(entries, j);
                assert(self.phys_meshes@.contains_key(entries[j].0)
                    && self.phys_meshes@[entries[j].0].mesh.id == m);
            }
        }
    }
}

/// A record fresh from both allocators collides with no registered record.
proof fn register_fresh_record(
    w: World,
    sim0: PhysicalWorld,
    r0: RenderStore,
    pm: PhysMesh,
)
    requires
        w.wf(),
        sim0.wf(),
        r0.wf(),
        w.consistent_with(sim0),
        w.meshes_in(r0),
        pm.body.id == sim0.next_body_id,
        pm.mesh.id == r0.next_mesh_id,
    ensures
        forall|k: u64| #[trigger] w.phys_meshes@.contains_key(k)
            ==> w.phys_meshes@[k].body.id < pm.body.id && w.phys_meshes@[k].mesh.id < pm.mesh.id,
{
    assert forall|k: u64| #[trigger] w.phys_meshes@.contains_key(k)
        implies w.phys_meshes@[k].body.id < pm.body.id
            && w.phys_meshes@[k].mesh.id < pm.mesh.id by {
        assert(sim0.bodies@.contains_key(w.phys_meshes@[k].body.id));
        assert(r0.meshes@.contains_key(w.phys_meshes@[k].mesh.id));
    }
}

/// Creating an entity keeps the registry and the simulation in agreement.
proof fn create_preserves_consistency(
    w0: World,
    w1: World,
    sim0: PhysicalWorld,
    sim1: PhysicalWorld,
    h: PhysMeshHandle,
    pm: PhysMesh,
)
    requires
        w0.consistent_with(sim0),
        !w0.phys_meshes@.contains_key(h.id as u64),
        w1.phys_meshes@ == w0.phys_meshes@.insert(h.id as u64, pm),
        sim1.bodies@.dom() =~= sim0.bodies@.dom().insert(pm.body.id),
    ensures
        w1.consistent_with(sim1),
{
    assert forall|b: u64| #[trigger] sim1.bodies@.contains_key(b)
        implies exists|k: u64|
            #[trigger] w1.phys_meshes@.contains_key(k) && w1.phys_meshes@[k].body.id == b by {
        if b == pm.body.id {
            assert(w1.phys_meshes@.contains_key(h.id as u64)
                && w1.phys_meshes@[h.id as u64].body.id == b);
        } else {
            let k = choose|k: u64|
                #[trigger] w0.phys_meshes@.contains_key(k) && w0.phys_meshes@[k].body.id == b;
            assert(w1.phys_meshes@.contains_key(k) && w1.phys_meshes@[k].body.id == b);
        }
    }
}

/// Destroying an entity keeps the registry and the simulation in agreement:
/// the removed body belonged to the removed record alone.
proof fn destroy_preserves_consistency(
    w0: World,
    w1: World,
    sim0: PhysicalWorld,
    sim1: PhysicalWorld,
    h: PhysMeshHandle,
    pm: PhysMesh,
)
    requires
        w0.wf(),
        w0.consistent_with(sim0),
        w0.has_handle(h),
        pm == w0.record_of(h),
        w1.phys_meshes@ == w0.phys_meshes@.remove(h.id as u64),
        sim1.bodies@ == sim0.bodies@.remove(pm.body.id),
    ensures
        w1.consistent_with(sim1),
{
    assert forall|k: u64| #[trigger] w1.phys_meshes@.contains_key(k)
        implies sim1.bodies@.contains_key(w1.phys_meshes@[k].body.id) by {
        assert(w0.phys_meshes@.contains_key(k));
        assert(k != h.id as u64);
        assert(w0.phys_meshes@[k].body != pm.body);
    }
    assert forall|b: u64| #[trigger] sim1.bodies@.contains_key(b)
        implies exists|k: u64|
            #[trigger] w1.phys_meshes@.contains_key(k) && w1.phys_meshes@[k].body.id == b by {
        assert(sim0.bodies@.contains_key(b));
        let k = choose|k: u64|
            #[trigger] w0.phys_meshes@.contains_key(k) && w0.phys_meshes@[k].body.id == b;
        assert(b != pm.body.id);
        assert(k != h.id as u64);
        assert(w1.phys_meshes@.contains_key(k) && w1.phys_meshes@[k].body.id == b);
    }
}

/// The registry and the simulation start in agreement: an empty registry
/// matches an empty body set.
pub proof fn lemma_empty_consistent(w: World, sim: PhysicalWorld)
    requires
        w.phys_meshes@ == Map::<u64, PhysMesh>::empty(),
        sim.bodies@ == Map::<u64, Body>::empty(),
    ensures
        w.consistent_with(sim),
{
}

/// The no-orphans reading of consistency: the set of bodies the registry's
/// records refer to is exactly the set of bodies the simulation knows, under
/// any interleaving of creations and destructions that preserved
/// `consistent_with`.
pub proof fn lemma_no_orphans(w: World, sim: PhysicalWorld)
    requires
        w.consistent_with(sim),
    ensures
        w.registered_bodies() =~= sim.bodies@.dom(),
{
}

/// Handles are never reused: every handle issued while the issue counter was
/// below `bound` is distinct from every handle issued after the counter
/// reached `bound`.  Creation returns the counter itself and raises it, no
/// operation ever lowers it, and every creation's result is fresh against
/// the ghost history of all previously issued handles, so handles from the
/// two eras can never collide, however creations and destructions
/// interleave.
pub proof fn lemma_handles_never_reused(
    early: Set<PhysMeshHandle>,
    late: Set<PhysMeshHandle>,
    bound: u32,
)
    requires
        forall|h: PhysMeshHandle| #[trigger] early.contains(h) ==> h.id < bound,
        forall|h: PhysMeshHandle| #[trigger] late.contains(h) ==> h.id >= bound,
    ensures
        early.disjoint(late),
{
    assert forall|h: PhysMeshHandle| early.contains(h) implies !late.contains(h) by {}
}

} // verus!
