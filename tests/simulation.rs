use particle_simulator::particle::Sphere;
use particle_simulator::simulation::{Simulation, ADD_PARTICLE_NUM, RANDOM_RADIUS};
use particle_simulator::vector::{Vec3, SCALE};

fn v(x: i64, y: i64, z: i64) -> Vec3 {
    Vec3::new(x, y, z)
}

#[test]
fn created_spheres_get_their_index_as_id() {
    let mut sim = Simulation::new();
    assert_eq!(sim.create_sphere(v(1, 2, 3), 150_000, v(4, 5, 6), v(0, 0, 0), false), 0);
    let s = Sphere::new(99, v(7, 8, 9), 10, v(0, 0, 0), v(0, 0, 0), true);
    assert_eq!(sim.add_sphere_to_sim(s), 1);
    assert_eq!(sim.spheres[1].particle.id, 1);
    assert_eq!(sim.spheres[0].particle.velocity, v(4, 5, 6));
    assert_eq!(sim.get_num_particles(), 2);
}

#[test]
fn random_particles_land_in_range() {
    let mut sim = Simulation::new();
    sim.generate_random_particles(9_000_000);
    assert_eq!(sim.get_num_particles(), ADD_PARTICLE_NUM);
    for (i, s) in sim.spheres.iter().enumerate() {
        let p = s.particle.position;
        for c in [p.x, p.y, p.z] {
            assert!(-4_500_000 <= c && c < 4_500_000);
        }
        assert_eq!(s.radius, RANDOM_RADIUS);
        assert_eq!(s.particle.id, i as u64);
        assert!(!s.particle.fixed);
    }
    sim.generate_random_particles(1);
    for s in &sim.spheres[ADD_PARTICLE_NUM..] {
        assert_eq!(s.particle.position, v(0, 0, 0));
    }
}

#[test]
fn zero_range_spawns_at_origin() {
    let mut sim = Simulation::new();
    sim.generate_random_particles(0);
    assert_eq!(sim.get_num_particles(), ADD_PARTICLE_NUM);
    assert!(sim.spheres.iter().all(|s| s.particle.position == v(0, 0, 0) && s.particle.previous_position == v(0, 0, 0)));
}

#[test]
fn attraction_pulls_toward_origin_and_cancels_gravity() {
    let mut sim = Simulation::new();
    sim.create_sphere(v(3_000_000, 4_000_000, 0), 150_000, v(0, 0, 0), v(0, 0, 0), false);
    sim.create_sphere(v(0, 0, 0), 150_000, v(0, 0, 0), v(0, 0, 0), false);
    sim.attract_particles_to_origin(10 * SCALE);
    assert_eq!(sim.spheres[0].particle.acceleration, v(-48_000_000, 16_000_000, 0));
    assert_eq!(sim.spheres[1].particle.acceleration, v(0, 80_000_000, 0));
}

#[test]
fn forces_accumulate_and_steps_integrate() {
    let mut sim = Simulation::new();
    sim.create_sphere(v(0, 0, 0), 150_000, v(0, 0, 0), v(0, 0, 0), false);
    sim.create_sphere(v(0, 0, 0), 150_000, v(0, 0, 0), v(0, 0, 0), true);
    sim.add_force(v(0, -10 * SCALE, 0));
    sim.add_force(v(0, -10 * SCALE, 0));
    assert_eq!(sim.spheres[0].particle.acceleration, v(0, -20 * SCALE, 0));
    sim.step(100_000);
    assert_eq!(sim.spheres[0].particle.position, v(0, -200_000, 0));
    assert_eq!(sim.spheres[1].particle.position, v(0, 0, 0));
}

#[test]
fn grid_pass_separates_neighbors_once() {
    let mut sim = Simulation::new();
    sim.create_sphere(v(0, 0, 0), 150_000, v(0, 0, 0), v(0, 0, 0), false);
    sim.create_sphere(v(200_000, 0, 0), 150_000, v(0, 0, 0), v(0, 0, 0), false);
    sim.create_sphere(v(5_000_000, 0, 0), 150_000, v(0, 0, 0), v(0, 0, 0), false);
    sim.check_grid_collisions();
    assert_eq!(sim.spheres[0].particle.position, v(-50_000, 0, 0));
    assert_eq!(sim.spheres[1].particle.position, v(250_000, 0, 0));
    assert_eq!(sim.spheres[2].particle.position, v(5_000_000, 0, 0));
}

#[test]
fn brute_force_pass_matches_grid_on_a_pair() {
    let mut sim = Simulation::new();
    sim.create_sphere(v(0, 0, 0), 150_000, v(0, 0, 0), v(0, 0, 0), false);
    sim.create_sphere(v(200_000, 0, 0), 150_000, v(0, 0, 0), v(0, 0, 0), false);
    sim.create_cube_container(v(0, 0, 0), v(10_000_000, 10_000_000, 10_000_000), true);
    sim.check_collisions();
    assert_eq!(sim.spheres[0].particle.position, v(-50_000, 0, 0));
    assert_eq!(sim.spheres[1].particle.position, v(250_000, 0, 0));
}

#[test]
fn frames_split_into_substeps() {
    let mut sim = Simulation::new();
    sim.create_sphere(v(0, 0, 0), 150_000, v(0, 0, 0), v(0, 0, 0), false);
    assert_eq!(sim.advance_frame(0, 8), None);
    assert_eq!(sim.advance_frame(7, 8), None);
    assert_eq!(sim.spheres[0].particle.position, v(0, 0, 0));
    assert_eq!(sim.advance_frame(80_000, 8), Some(10_000));
    // eight substeps of 0.01 s under gravity: y drops by 10 * 0.0001 * (1 + 2 + ... + 8)
    assert_eq!(sim.spheres[0].particle.position, v(0, -36_000, 0));
}

#[test]
fn molecules_relax_inside_the_simulation() {
    let mut sim = Simulation::new();
    let d = particle_simulator::world::MoleculeDesc {
        distance: Some(500_000),
        links_enabled: Some(false),
        strength: Some(10_000),
        internal_pressure: None,
        spheres: Some(vec![
            particle_simulator::world::SphereDesc {
                position: Some(v(0, 0, 0)),
                radius: Some(100_000),
                velocity: None,
                acceleration: None,
                fixed: None,
            },
            particle_simulator::world::SphereDesc {
                position: Some(v(1_000_000, 0, 0)),
                radius: Some(100_000),
                velocity: None,
                acceleration: None,
                fixed: None,
            },
        ]),
        links: Some(vec![]),
        offset: None,
    };
    assert_eq!(sim.load_molecule(&d, v(0, 0, 0)), Ok(0));
    sim.maintain_molecules();
    assert_eq!(sim.spheres[0].particle.position, v(5_000, 0, 0));
    assert_eq!(sim.spheres[1].particle.position, v(995_000, 0, 0));
}

#[test]
fn drag_entry_points() {
    let mut sim = Simulation::new();
    sim.create_sphere(v(0, 0, 0), 150_000, v(0, 0, 0), v(0, 0, 0), false);
    sim.set_updating_enabled(0, false);
    sim.set_sphere_position(0, v(1, 2, 3));
    sim.add_force(v(0, -10 * SCALE, 0));
    sim.step(10_000);
    assert_eq!(sim.spheres[0].particle.position, v(1, 2, 3));
    assert!(!sim.spheres[0].particle.updating_enabled);
}
