use phys_sandbox::phys::{PhysicalWorld, PhysicsCommand};
use phys_sandbox::scheduler::apply_command;
use phys_sandbox::raycast::{hit_aabb, hit_sphere};
use phys_sandbox::raycaster::Raycaster;
use phys_sandbox::registry::World;
use phys_sandbox::render::RenderStore;
use phys_sandbox::units::{Vec3i, SCALE};

#[test]
fn ray_through_a_sphere_at_the_origin_resolves_to_its_handle() {
    let mut world = World::new();
    let mut renderer = RenderStore::new();
    let mut sim = PhysicalWorld::new();

    // A sphere body of radius one unit at the origin.
    let h = world.add_sphere(&mut renderer, &mut sim, SCALE);
    let body = world
        .phys_meshes
        .entries
        .iter()
        .find(|e| e.0 == h.id as u64)
        .map(|e| e.1.body)
        .unwrap();
    // The registry spawns at (0, 1, 0); move the body to the origin.
    assert!(apply_command(&mut sim, PhysicsCommand::Translate(Vec3i { x: 0, y: 0, z: 0 }, body)).is_ok());

    // Ray origin (0, 0, 10), direction (0, 0, -1).
    let origin = Vec3i { x: 0, y: 0, z: 10 * SCALE };
    let direction = Vec3i { x: 0, y: 0, z: -SCALE };
    assert_eq!(sim.body_raycast(origin, direction), Some(body));
    assert_eq!(Raycaster::get_body_from_ray(&world, &sim, origin, direction), Some(h));

    // The same ray offset laterally by more than the radius misses.
    let offset_origin = Vec3i { x: 2 * SCALE, y: 0, z: 10 * SCALE };
    assert_eq!(sim.body_raycast(offset_origin, direction), None);
    assert_eq!(Raycaster::get_body_from_ray(&world, &sim, offset_origin, direction), None);
}

#[test]
fn sphere_hit_test_exact_cases() {
    let o = Vec3i { x: 0, y: 0, z: 10 * SCALE };
    let d = Vec3i { x: 0, y: 0, z: -SCALE };
    let c = Vec3i { x: 0, y: 0, z: 0 };

    assert!(hit_sphere(o, d, c, SCALE));
    // Grazing: offset exactly the radius still touches.
    assert!(hit_sphere(Vec3i { x: SCALE, y: 0, z: 10 * SCALE }, d, c, SCALE));
    // Offset one more unit misses.
    assert!(!hit_sphere(Vec3i { x: SCALE + 1, y: 0, z: 10 * SCALE }, d, c, SCALE));
    // Pointing away misses.
    assert!(!hit_sphere(o, Vec3i { x: 0, y: 0, z: SCALE }, c, SCALE));
    // Starting inside the solid ball hits at once, in any direction.
    assert!(hit_sphere(Vec3i { x: 0, y: 0, z: 500 }, Vec3i { x: 0, y: 0, z: SCALE }, c, SCALE));
    // Beyond the maximum distance misses.
    assert!(!hit_sphere(Vec3i { x: 0, y: 0, z: 1002 * SCALE }, d, c, SCALE));
}

#[test]
fn cube_hit_test_exact_cases() {
    let d_down = Vec3i { x: 0, y: -SCALE, z: 0 };
    let c = Vec3i { x: 0, y: 0, z: 0 };

    // Straight down onto a unit cube.
    assert!(hit_aabb(Vec3i { x: 0, y: 5 * SCALE, z: 0 }, d_down, c, SCALE, SCALE, SCALE));
    // Down alongside it misses.
    assert!(!hit_aabb(Vec3i { x: 2 * SCALE, y: 5 * SCALE, z: 0 }, d_down, c, SCALE, SCALE, SCALE));
    // The edge is solid.
    assert!(hit_aabb(Vec3i { x: SCALE, y: 5 * SCALE, z: 0 }, d_down, c, SCALE, SCALE, SCALE));
    // A degenerate axis: ray in the box's plane.
    assert!(hit_aabb(
        Vec3i { x: -5 * SCALE, y: 0, z: 0 },
        Vec3i { x: SCALE, y: 0, z: 0 },
        c,
        SCALE,
        SCALE,
        SCALE,
    ));
    // Starting inside hits at once.
    assert!(hit_aabb(Vec3i { x: 0, y: 0, z: 0 }, d_down, c, SCALE, SCALE, SCALE));
}

#[test]
fn pos_raycast_lands_on_the_floor() {
    let world = World::new();
    let mut sim = PhysicalWorld::new();
    // A broad floor whose top face is at ground level.
    world.add_floor(&mut sim, Vec3i { x: 125 * SCALE, y: 200, z: 125 * SCALE });

    // Straight down from five units up.
    let origin = Vec3i { x: 3 * SCALE, y: 5 * SCALE, z: 4 * SCALE };
    let direction = Vec3i { x: 0, y: -SCALE, z: 0 };
    let p = sim.pos_raycast(origin, direction).expect("the floor is under the ray");
    assert_eq!(p.x, 3 * SCALE);
    assert_eq!(p.z, 4 * SCALE);
    // The entry point is the floor's top face, within one unit of rounding.
    assert!((p.y - 0).abs() <= 1, "hit y = {}", p.y);

    // Upward from above the floor misses everything.
    assert_eq!(sim.pos_raycast(origin, Vec3i { x: 0, y: SCALE, z: 0 }), None);
}

#[test]
fn pos_raycast_lands_on_a_sphere_surface() {
    let mut sim = PhysicalWorld::new();
    let b = sim.add_sphere_rigidbody(0, 0, 0, SCALE);
    let _ = b;

    let origin = Vec3i { x: 0, y: 0, z: 10 * SCALE };
    let direction = Vec3i { x: 0, y: 0, z: -SCALE };
    let p = sim.pos_raycast(origin, direction).expect("the sphere is on the ray");
    assert_eq!(p.x, 0);
    assert_eq!(p.y, 0);
    // Entry at z = radius, within rounding.
    assert!((p.z - SCALE).abs() <= 1, "hit z = {}", p.z);
}

#[test]
fn pos_raycast_lands_on_a_cube_body() {
    let mut sim = PhysicalWorld::new();
    let _ = sim.add_cube_rigidbody(0, 0, 0, SCALE);

    // Down the x axis onto a unit cube at the origin: entry at x = 1.
    let origin = Vec3i { x: 7 * SCALE, y: 0, z: 0 };
    let direction = Vec3i { x: -SCALE, y: 0, z: 0 };
    let p = sim.pos_raycast(origin, direction).expect("the cube is on the ray");
    assert!((p.x - SCALE).abs() <= 1, "hit x = {}", p.x);
    assert_eq!(p.y, 0);
    assert_eq!(p.z, 0);
}

#[test]
fn floors_never_resolve_to_a_body() {
    let world = World::new();
    let mut sim = PhysicalWorld::new();
    world.add_floor(&mut sim, Vec3i { x: 125 * SCALE, y: 200, z: 125 * SCALE });

    // The ray meets the floor, but a standalone collider has no body.
    let origin = Vec3i { x: 0, y: 5 * SCALE, z: 0 };
    let direction = Vec3i { x: 0, y: -SCALE, z: 0 };
    assert_eq!(sim.body_raycast(origin, direction), None);
    assert_eq!(Raycaster::get_body_from_ray(&world, &sim, origin, direction), None);
    // The surface query still resolves the floor point.
    assert!(sim.pos_raycast(origin, direction).is_some());
}

#[test]
fn raycast_resolves_the_nearest_of_two_bodies() {
    let mut sim = PhysicalWorld::new();
    // Two spheres on the same ray: the nearer one (at z = 4) must win even
    // though the farther one (at z = 0) was created first.
    let far = sim.add_sphere_rigidbody(0, 0, 0, SCALE);
    let near = sim.add_sphere_rigidbody(0, 0, 4 * SCALE, SCALE);

    let origin = Vec3i { x: 0, y: 0, z: 10 * SCALE };
    let direction = Vec3i { x: 0, y: 0, z: -SCALE };
    assert_eq!(sim.body_raycast(origin, direction), Some(near));
    let _ = far;

    // From the other side, the order flips.
    let origin_back = Vec3i { x: 0, y: 0, z: -(10 * SCALE) };
    let direction_back = Vec3i { x: 0, y: 0, z: SCALE };
    assert_eq!(sim.body_raycast(origin_back, direction_back), Some(far));
    let _ = near;
}

#[test]
fn pos_raycast_resolves_the_nearest_of_mixed_colliders() {
    let world = World::new();
    let mut sim = PhysicalWorld::new();
    // A cube hovering two units above a broad floor; the downward ray must
    // land on the cube's top face, not on the floor behind it.
    world.add_floor(&mut sim, Vec3i { x: 125 * SCALE, y: 200, z: 125 * SCALE });
    let _ = sim.add_cube_rigidbody(0, 2 * SCALE, 0, SCALE);

    let origin = Vec3i { x: 0, y: 8 * SCALE, z: 0 };
    let direction = Vec3i { x: 0, y: -SCALE, z: 0 };
    let p = sim.pos_raycast(origin, direction).expect("the cube is under the ray");
    // The cube's top face sits at y = 3.
    assert!((p.y - 3 * SCALE).abs() <= 1, "hit y = {}", p.y);

    // Just beside the cube, the same ray falls through to the floor.
    let beside = Vec3i { x: 3 * SCALE, y: 8 * SCALE, z: 0 };
    let p2 = sim.pos_raycast(beside, direction).expect("the floor is under the ray");
    assert!((p2.y - 0).abs() <= 1, "hit y = {}", p2.y);
}

#[test]
fn a_floor_in_front_occludes_the_body_behind_it() {
    let mut world = World::new();
    let mut renderer = RenderStore::new();
    let mut sim = PhysicalWorld::new();
    // The floor's top face is at ground level; a sphere sits five units
    // below it.
    world.add_floor(&mut sim, Vec3i { x: 125 * SCALE, y: 200, z: 125 * SCALE });
    let h = world.add_sphere(&mut renderer, &mut sim, SCALE);
    let body = world
        .phys_meshes
        .entries
        .iter()
        .find(|e| e.0 == h.id as u64)
        .map(|e| e.1.body)
        .unwrap();
    assert!(apply_command(
        &mut sim,
        PhysicsCommand::Translate(Vec3i { x: 0, y: -5 * SCALE, z: 0 }, body),
    )
    .is_ok());

    // Looking straight down from above, the parentless floor is the nearest
    // collider: no body resolves, as the engine's nearest-hit query decides.
    let origin = Vec3i { x: 0, y: 10 * SCALE, z: 0 };
    let direction = Vec3i { x: 0, y: -SCALE, z: 0 };
    assert_eq!(sim.body_raycast(origin, direction), None);
    assert_eq!(Raycaster::get_body_from_ray(&world, &sim, origin, direction), None);
    // The surface query resolves the floor's top face.
    let p = sim.pos_raycast(origin, direction).expect("the floor is under the ray");
    assert!((p.y - 0).abs() <= 1, "hit y = {}", p.y);

    // A body in front of the floor still resolves.
    assert!(apply_command(
        &mut sim,
        PhysicsCommand::Translate(Vec3i { x: 0, y: 5 * SCALE, z: 0 }, body),
    )
    .is_ok());
    assert_eq!(sim.body_raycast(origin, direction), Some(body));
    assert_eq!(Raycaster::get_body_from_ray(&world, &sim, origin, direction), Some(h));
}
