use particle_simulator::simulation::Simulation;
use particle_simulator::vector::Vec3;
use particle_simulator::world::{check_world, ContainerDesc, LoadError, MoleculeDesc, SphereDesc, WorldDesc};

fn v(x: i64, y: i64, z: i64) -> Vec3 {
    Vec3::new(x, y, z)
}

fn sphere(p: Vec3) -> SphereDesc {
    SphereDesc { position: Some(p), radius: Some(150_000), velocity: None, acceleration: None, fixed: None }
}

fn cube() -> ContainerDesc {
    ContainerDesc {
        kind: Some(String::from("cube")),
        position: Some(v(0, 0, 0)),
        size: Some(v(10_000_000, 10_000_000, 10_000_000)),
        radius: None,
        forced_inside: None,
    }
}

fn molecule(links: Vec<(u64, u64)>) -> MoleculeDesc {
    MoleculeDesc {
        distance: Some(500_000),
        links_enabled: Some(true),
        strength: Some(10_000),
        internal_pressure: None,
        spheres: Some(vec![sphere(v(0, 0, 0)), sphere(v(500_000, 0, 0))]),
        links: Some(links),
        offset: Some(v(1_000_000, 0, 0)),
    }
}

fn world(containers: Vec<ContainerDesc>, spheres: Vec<SphereDesc>, molecules: Vec<MoleculeDesc>) -> WorldDesc {
    WorldDesc { containers: Some(containers), spheres: Some(spheres), molecules: Some(molecules) }
}

#[test]
fn complete_world_loads() {
    let mut ball = cube();
    ball.kind = Some(String::from("sphere"));
    ball.size = None;
    ball.radius = Some(3_000_000);
    ball.forced_inside = Some(true);
    let w = world(vec![cube(), ball], vec![sphere(v(0, 1, 2))], vec![molecule(vec![(0, 1)])]);
    assert_eq!(check_world(&w), None);
    let mut sim = Simulation::new();
    assert_eq!(sim.load_world(&w), Ok(()));
    assert_eq!(sim.containers.len(), 2);
    assert_eq!(sim.containers[1].get_size(), v(6_000_000, 6_000_000, 6_000_000));
    assert_eq!(sim.get_num_particles(), 3);
    assert_eq!(sim.spheres[0].particle.position, v(0, 1, 2));
    assert_eq!(sim.spheres[1].particle.position, v(1_000_000, 0, 0));
    assert_eq!(sim.spheres[2].particle.position, v(1_500_000, 0, 0));
    assert_eq!(sim.spheres[2].particle.previous_position, v(1_500_000, 0, 0));
    assert_eq!(sim.spheres[2].particle.id, 2);
    assert_eq!(sim.molecules.len(), 1);
    assert_eq!(sim.molecules[0].spheres, vec![1, 2]);
    assert_eq!(sim.molecules[0].links, vec![(1, 2)]);
    assert!(!sim.molecules[0].use_internal_pressure);
}

#[test]
fn missing_array_is_refused() {
    let w = WorldDesc { containers: Some(vec![]), spheres: None, molecules: Some(vec![]) };
    let mut sim = Simulation::new();
    assert_eq!(sim.load_world(&w), Err(LoadError::MissingField));
    assert_eq!(sim.get_num_particles(), 0);
}

#[test]
fn missing_sphere_radius_is_refused() {
    let mut s = sphere(v(0, 0, 0));
    s.radius = None;
    let w = world(vec![cube()], vec![sphere(v(0, 0, 0)), s], vec![]);
    let mut sim = Simulation::new();
    assert_eq!(sim.load_world(&w), Err(LoadError::MissingField));
    assert!(sim.containers.is_empty());
    assert!(sim.spheres.is_empty());
}

#[test]
fn unknown_container_type_is_refused() {
    let mut c = cube();
    c.kind = Some(String::from("cylinder"));
    let w = world(vec![c], vec![], vec![]);
    assert_eq!(check_world(&w), Some(LoadError::UnknownContainerType));
    let mut sim = Simulation::new();
    assert_eq!(sim.load_world(&w), Err(LoadError::UnknownContainerType));
}

#[test]
fn negative_radius_is_refused() {
    let mut s = sphere(v(0, 0, 0));
    s.radius = Some(-1);
    let w = world(vec![], vec![s], vec![]);
    assert_eq!(check_world(&w), Some(LoadError::InvalidValue));
}

#[test]
fn link_past_the_spheres_is_refused() {
    let w = world(vec![], vec![], vec![molecule(vec![(0, 2)])]);
    let mut sim = Simulation::new();
    assert_eq!(sim.load_world(&w), Err(LoadError::LinkOutOfRange));
    assert!(sim.molecules.is_empty());
}

#[test]
fn first_error_wins() {
    let mut c = cube();
    c.size = None;
    let mut s = sphere(v(0, 0, 0));
    s.radius = Some(-5);
    let w = world(vec![c], vec![s], vec![]);
    assert_eq!(check_world(&w), Some(LoadError::MissingField));
}

#[test]
fn molecule_with_pressure_and_offset() {
    let mut d = molecule(vec![(1, 0)]);
    d.internal_pressure = Some(2_000);
    d.links_enabled = Some(false);
    let mut sim = Simulation::new();
    sim.create_sphere(v(9, 9, 9), 1, v(0, 0, 0), v(0, 0, 0), true);
    assert_eq!(sim.load_molecule(&d, v(0, 0, 7)), Ok(0));
    assert_eq!(sim.spheres[1].particle.position, v(1_000_000, 0, 7));
    assert_eq!(sim.spheres[2].particle.position, v(1_500_000, 0, 7));
    let m = &sim.molecules[0];
    assert!(m.use_internal_pressure);
    assert_eq!(m.internal_pressure, 2_000);
    assert_eq!(m.links, vec![(2, 1)]);
    let mut bad = molecule(vec![]);
    bad.strength = Some(2_000_000);
    assert_eq!(sim.load_molecule(&bad, v(0, 0, 0)), Err(LoadError::InvalidValue));
    assert_eq!(sim.get_num_particles(), 3);
}
