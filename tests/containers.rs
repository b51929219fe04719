use particle_simulator::container::{Container, ContainerShape, CubeContainer, SphereContainer};
use particle_simulator::particle::Sphere;
use particle_simulator::simulation::Simulation;
use particle_simulator::vector::Vec3;
use particle_simulator::world::{ContainerDesc, SphereDesc, WorldDesc};

fn v(x: i64, y: i64, z: i64) -> Vec3 {
    Vec3::new(x, y, z)
}

fn ball(pos: Vec3, r: i64) -> Sphere {
    Sphere::new(0, pos, r, v(0, 0, 0), v(0, 0, 0), false)
}

#[test]
fn world_with_cube_clamps_sphere_to_top_face() {
    let world = WorldDesc {
        containers: Some(vec![ContainerDesc {
            kind: Some(String::from("cube")),
            position: Some(v(0, 0, 0)),
            size: Some(v(10_000_000, 10_000_000, 10_000_000)),
            radius: None,
            forced_inside: Some(true),
        }]),
        spheres: Some(vec![SphereDesc {
            position: Some(v(0, 6_000_000, 0)),
            radius: Some(150_000),
            velocity: None,
            acceleration: None,
            fixed: Some(false),
        }]),
        molecules: Some(vec![]),
    };
    let mut sim = Simulation::new();
    assert_eq!(sim.load_world(&world), Ok(()));
    sim.check_grid_collisions();
    assert_eq!(sim.spheres[0].particle.position, v(0, 4_850_000, 0));
    sim.maintain_molecules();
    assert_eq!(sim.spheres[0].particle.position, v(0, 4_850_000, 0));
}

#[test]
fn one_substep_integrates_after_the_clamp() {
    let world = WorldDesc {
        containers: Some(vec![ContainerDesc {
            kind: Some(String::from("cube")),
            position: Some(v(0, 0, 0)),
            size: Some(v(10_000_000, 10_000_000, 10_000_000)),
            radius: None,
            forced_inside: Some(true),
        }]),
        spheres: Some(vec![SphereDesc {
            position: Some(v(0, 6_000_000, 0)),
            radius: Some(150_000),
            velocity: None,
            acceleration: None,
            fixed: Some(false),
        }]),
        molecules: Some(vec![]),
    };
    let mut sim = Simulation::new();
    assert_eq!(sim.load_world(&world), Ok(()));
    sim.substep(10_000);
    // clamped to 4.85, then one Verlet step from a previous position of 6 under gravity
    assert_eq!(sim.spheres[0].particle.previous_position, v(0, 4_850_000, 0));
    assert_eq!(sim.spheres[0].particle.position, v(0, 3_699_000, 0));
}

#[test]
fn unforced_cube_ignores_sphere_outside() {
    let cube = CubeContainer::new(v(0, 0, 0), v(10_000_000, 10_000_000, 10_000_000), false);
    let mut s = ball(v(0, 6_000_000, 0), 150_000);
    cube.collide_with(&mut s);
    assert_eq!(s.particle.position, v(0, 6_000_000, 0));
}

#[test]
fn unforced_cube_pushes_inner_sphere_off_wall() {
    let cube = CubeContainer::new(v(0, 0, 0), v(10_000_000, 10_000_000, 10_000_000), false);
    let mut s = ball(v(-4_950_000, 4_900_000, 0), 150_000);
    cube.collide_with(&mut s);
    assert_eq!(s.particle.position, v(-4_850_000, 4_850_000, 0));
}

#[test]
fn forced_cube_settles_in_one_call() {
    let cube = CubeContainer::new(v(0, 0, 0), v(2_000_000, 2_000_000, 2_000_000), true);
    let mut s = ball(v(7_000_000, -9_000_000, 500_000), 200_000);
    cube.collide_with(&mut s);
    assert_eq!(s.particle.position, v(800_000, -800_000, 500_000));
    let once = s.particle.position;
    cube.collide_with(&mut s);
    assert_eq!(s.particle.position, once);
}

#[test]
fn ball_pushes_sphere_back_inside() {
    let b = SphereContainer::new(v(0, 0, 0), v(10_000_000, 10_000_000, 10_000_000), false);
    let mut s = ball(v(0, 4_900_000, 0), 150_000);
    b.collide_with(&mut s);
    assert_eq!(s.particle.position, v(0, 4_850_000, 0));
}

#[test]
fn unforced_ball_ignores_sphere_outside() {
    let b = SphereContainer::new(v(0, 0, 0), v(10_000_000, 10_000_000, 10_000_000), false);
    let mut s = ball(v(0, 6_000_000, 0), 150_000);
    b.collide_with(&mut s);
    assert_eq!(s.particle.position, v(0, 6_000_000, 0));
}

#[test]
fn forced_ball_pulls_sphere_in() {
    let b = SphereContainer::new(v(0, 0, 0), v(10_000_000, 10_000_000, 10_000_000), true);
    let mut s = ball(v(0, 6_000_000, 0), 150_000);
    ContainerShape::Ball(b).collide_with(&mut s);
    assert_eq!(s.particle.position, v(0, 4_850_000, 0));
}

#[test]
fn container_accessors() {
    let mut c = Container::new(v(1, 2, 3), true);
    assert!(c.get_forced_inside());
    c.set_position(v(4, 5, 6));
    assert_eq!(c.get_position(), v(4, 5, 6));
    let mut cube = CubeContainer::new(v(0, 0, 0), v(2, 2, 2), false);
    cube.set_size(v(4, 4, 4));
    cube.set_position(v(1, 1, 1));
    assert_eq!(cube.get_size(), v(4, 4, 4));
    assert_eq!(cube.get_position(), v(1, 1, 1));
    assert!(!cube.get_forced_inside());
    let shape = ContainerShape::Cube(cube);
    assert_eq!(shape.get_size(), v(4, 4, 4));
    assert_eq!(shape.get_position(), v(1, 1, 1));
}

#[test]
fn sphere_container_from_simulation() {
    let mut sim = Simulation::new();
    sim.create_sphere_container(v(0, 0, 0), 5_000_000, true);
    sim.create_cube_container(v(0, 0, 0), v(1, 2, 3), false);
    assert_eq!(sim.containers.len(), 2);
    assert_eq!(sim.containers[0].get_size(), v(10_000_000, 10_000_000, 10_000_000));
    assert_eq!(sim.containers[1].get_size(), v(1, 2, 3));
}
