//! Model of the render subsystem's mesh store, at the interface the sandbox
//! coordination logic relies on: meshes are created and destroyed by opaque
//! reference, and each mesh carries a render-visible transform.

use vstd::prelude::*;
use crate::kvlist::KvVec;
use crate::units::Pose;

verus! {

/// Reference to a mesh owned by the render subsystem.
#[derive(Copy, Clone, PartialEq, Eq, Structural, Debug)]
pub struct MeshRef {
    pub id: u64,
}

/// The render-visible per-mesh transforms.
pub struct RenderStore {
    pub meshes: KvVec<Pose>,
    pub next_mesh_id: u64,
}

impl RenderStore {
    /// Well-formed: mesh keys are distinct and below the allocation counter.
    pub open spec fn wf(self) -> bool {
        &&& self.meshes.wf()
        &&& forall|k: u64| #[trigger] self.meshes@.contains_key(k) ==> k < self.next_mesh_id
    }

    /// Whether the store knows this mesh.
    pub open spec fn has_mesh(self, m: MeshRef) -> bool {
        self.meshes@.contains_key(m.id)
    }

    /// The transform of a mesh.
    pub open spec fn transform_of(self, m: MeshRef) -> Pose {
        self.meshes@[m.id]
    }

    pub fn new() -> (r: Self)
        ensures
            r.wf(),
            r.meshes@ == Map::<u64, Pose>::empty(),
            r.next_mesh_id == 0,
    {
        RenderStore { meshes: KvVec::new(), next_mesh_id: 0 }
    }

    /// Create a mesh under a fresh reference, initially at the given pose.
    pub fn add_mesh(&mut self, pose: Pose) -> (m: MeshRef)
        requires
            old(self).wf(),
            old(self).next_mesh_id < u64::MAX,
        ensures
            final(self).wf(),
            m.id == old(self).next_mesh_id,
            !old(self).has_mesh(m),
            final(self).meshes@ == old(self).meshes@.insert(m.id, pose),
            final(self).next_mesh_id == old(self).next_mesh_id + 1,
    {
        let m = MeshRef { id: self.next_mesh_id };
        self.next_mesh_id = self.next_mesh_id + 1;
        self.meshes.insert_new(m.id, pose);
        m
    }

    /// Destroy a mesh; an unknown reference leaves the store unchanged.
    pub fn destroy_mesh(&mut self, m: MeshRef)
        requires
            old(self).wf(),
        ensures
            final(self).wf(),
            old(self).has_mesh(m) ==> final(self).meshes@ == old(self).meshes@.remove(m.id),
            !old(self).has_mesh(m) ==> final(self).meshes@ == old(self).meshes@,
            final(self).next_mesh_id == old(self).next_mesh_id,
    {
        let _ = self.meshes.remove(m.id);
    }

    /// Overwrite a mesh's transform; reports whether the mesh is known.
    pub fn set_transform(&mut self, m: MeshRef, pose: Pose) -> (r: bool)
        requires
            old(self).wf(),
        ensures
            final(self).wf(),
            r == old(self).has_mesh(m),
            r ==> final(self).meshes@ == old(self).meshes@.insert(m.id, pose),
            !r ==> *final(self) == *old(self),
            final(self).next_mesh_id == old(self).next_mesh_id,
            final(self).meshes@.dom() =~= old(self).meshes@.dom(),
    {
        self.meshes.set(m.id, pose)
    }
}

} // verus!
