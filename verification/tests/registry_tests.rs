use phys_sandbox::phys::PhysicalWorld;
use phys_sandbox::registry::{PhysMeshHandle, RegistryError, World};
use phys_sandbox::render::RenderStore;
use phys_sandbox::units::Vec3i;

fn registry_body_ids(world: &World) -> Vec<u64> {
    let mut ids: Vec<u64> = world.phys_meshes.entries.iter().map(|e| e.1.body.id).collect();
    ids.sort();
    ids
}

fn sim_body_ids(sim: &PhysicalWorld) -> Vec<u64> {
    let mut ids: Vec<u64> = sim.bodies.entries.iter().map(|e| e.0).collect();
    ids.sort();
    ids
}

#[test]
fn create_destroy_interleaving_keeps_registry_and_sim_in_step() {
    let mut world = World::new();
    let mut renderer = RenderStore::new();
    let mut sim = PhysicalWorld::new();

    assert_eq!(registry_body_ids(&world), sim_body_ids(&sim));

    let a = world.add_sphere(&mut renderer, &mut sim, 1000);
    assert_eq!(registry_body_ids(&world), sim_body_ids(&sim));

    let b = world.add_cube(&mut renderer, &mut sim, 500);
    assert_eq!(registry_body_ids(&world), sim_body_ids(&sim));

    assert!(world.destroy(&mut renderer, &mut sim, a).is_ok());
    assert_eq!(registry_body_ids(&world), sim_body_ids(&sim));

    let c = world.add_sphere(&mut renderer, &mut sim, 700);
    assert_eq!(registry_body_ids(&world), sim_body_ids(&sim));

    assert!(world.destroy(&mut renderer, &mut sim, b).is_ok());
    assert!(world.destroy(&mut renderer, &mut sim, c).is_ok());
    assert_eq!(registry_body_ids(&world), sim_body_ids(&sim));
    assert!(world.phys_meshes.entries.is_empty());
    assert!(sim.bodies.entries.is_empty());
}

#[test]
fn handles_are_never_reused_after_destroy() {
    let mut world = World::new();
    let mut renderer = RenderStore::new();
    let mut sim = PhysicalWorld::new();

    let first: Vec<PhysMeshHandle> = (0..3)
        .map(|_| world.add_sphere(&mut renderer, &mut sim, 1000))
        .collect();
    for h in &first {
        assert!(world.destroy(&mut renderer, &mut sim, *h).is_ok());
    }
    let second: Vec<PhysMeshHandle> = (0..2)
        .map(|_| world.add_cube(&mut renderer, &mut sim, 1000))
        .collect();

    for h in &first {
        for g in &second {
            assert_ne!(h.id, g.id);
        }
    }
    assert_eq!(first.iter().map(|h| h.id).collect::<Vec<u32>>(), vec![0, 1, 2]);
    assert_eq!(second.iter().map(|h| h.id).collect::<Vec<u32>>(), vec![3, 4]);
}

#[test]
fn destroy_unknown_handle_is_not_found_and_changes_nothing() {
    let mut world = World::new();
    let mut renderer = RenderStore::new();
    let mut sim = PhysicalWorld::new();

    let a = world.add_sphere(&mut renderer, &mut sim, 1000);
    let stale = PhysMeshHandle { id: 77 };
    let r = world.destroy(&mut renderer, &mut sim, stale);
    assert_eq!(r, Err(RegistryError::NotFound));
    assert_eq!(world.phys_meshes.entries.len(), 1);
    assert_eq!(sim.bodies.entries.len(), 1);

    assert!(world.destroy(&mut renderer, &mut sim, a).is_ok());
    assert_eq!(world.destroy(&mut renderer, &mut sim, a), Err(RegistryError::NotFound));
}

#[test]
fn destroy_removes_body_mesh_and_record_together() {
    let mut world = World::new();
    let mut renderer = RenderStore::new();
    let mut sim = PhysicalWorld::new();

    let a = world.add_sphere(&mut renderer, &mut sim, 1000);
    let b = world.add_cube(&mut renderer, &mut sim, 1000);
    assert_eq!(renderer.meshes.entries.len(), 2);

    let record_a = world
        .phys_meshes
        .entries
        .iter()
        .find(|e| e.0 == a.id as u64)
        .map(|e| e.1)
        .unwrap();
    assert!(world.destroy(&mut renderer, &mut sim, a).is_ok());

    assert_eq!(world.phys_meshes.entries.len(), 1);
    assert_eq!(renderer.meshes.entries.len(), 1);
    assert_eq!(sim.bodies.entries.len(), 1);
    assert!(!renderer.meshes.entries.iter().any(|e| e.0 == record_a.mesh.id));
    assert!(!sim.bodies.entries.iter().any(|e| e.0 == record_a.body.id));
    assert!(world.phys_meshes.entries.iter().any(|e| e.0 == b.id as u64));
}

#[test]
fn reverse_lookup_finds_the_owning_handle() {
    let mut world = World::new();
    let mut renderer = RenderStore::new();
    let mut sim = PhysicalWorld::new();

    let a = world.add_sphere(&mut renderer, &mut sim, 1000);
    let b = world.add_cube(&mut renderer, &mut sim, 1000);

    let body_a = world
        .phys_meshes
        .entries
        .iter()
        .find(|e| e.0 == a.id as u64)
        .map(|e| e.1.body)
        .unwrap();
    let body_b = world
        .phys_meshes
        .entries
        .iter()
        .find(|e| e.0 == b.id as u64)
        .map(|e| e.1.body)
        .unwrap();

    assert_eq!(world.get_phys_mesh_from_handle(body_a), Some(a));
    assert_eq!(world.get_phys_mesh_from_handle(body_b), Some(b));

    assert!(world.destroy(&mut renderer, &mut sim, a).is_ok());
    assert_eq!(world.get_phys_mesh_from_handle(body_a), None);
}

#[test]
fn add_floor_registers_a_floor_collider() {
    let world = World::new();
    let mut sim = PhysicalWorld::new();
    world.add_floor(&mut sim, Vec3i { x: 125_000, y: 200, z: 125_000 });
    assert_eq!(sim.floors.len(), 1);
    assert_eq!(sim.floors[0].half, Vec3i { x: 125_000, y: 200, z: 125_000 });
    assert_eq!(sim.floors[0].center, Vec3i { x: 0, y: -200, z: 0 });
    assert!(sim.bodies.entries.is_empty());
}
