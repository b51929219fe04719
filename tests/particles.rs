use particle_simulator::container::{ContainerShape, CubeContainer};
use particle_simulator::particle::{Particle, Sphere};
use particle_simulator::vector::{isqrt, Vec3, SCALE, WORLD_LIMIT};

fn v(x: i64, y: i64, z: i64) -> Vec3 {
    Vec3::new(x, y, z)
}

#[test]
fn verlet_step_under_gravity() {
    let mut p = Particle::new(0, v(0, 0, 0), v(0, 0, 0), v(0, 0, 0), false);
    p.add_force(v(0, -10 * SCALE, 0));
    p.update_position(100_000);
    assert_eq!(p.position, v(0, -100_000, 0));
    assert_eq!(p.previous_position, v(0, 0, 0));
    assert_eq!(p.velocity, v(0, -1_000_000, 0));
    assert_eq!(p.acceleration, v(0, 0, 0));
}

#[test]
fn verlet_keeps_momentum() {
    let mut p = Particle::new(0, v(1_000, 0, 0), v(0, 0, 0), v(0, 0, 0), false);
    p.position = v(1_500, 0, 0);
    p.update_position(1_000);
    assert_eq!(p.position, v(2_000, 0, 0));
    assert_eq!(p.previous_position, v(1_500, 0, 0));
    assert_eq!(p.velocity, v(500_000, 0, 0));
}

#[test]
fn disabled_updating_rolls_history_only() {
    let mut p = Particle::new(0, v(0, 0, 0), v(0, 0, 0), v(0, 0, 0), false);
    p.position = v(10, 0, 0);
    p.set_updating_enabled(false);
    p.add_force(v(5 * SCALE, 0, 0));
    p.update_position(1_000);
    assert_eq!(p.position, v(10, 0, 0));
    assert_eq!(p.previous_position, v(10, 0, 0));
    assert_eq!(p.velocity, v(0, 0, 0));
    assert_eq!(p.acceleration, v(0, 0, 0));
}

#[test]
fn fixed_particle_never_moves() {
    let start = v(1_000_000, 2_000_000, -3_000_000);
    let mut s = Sphere::new(0, start, 150_000, v(0, 0, 0), v(0, 0, 0), true);
    s.particle.add_force(v(0, -10 * SCALE, 0));
    s.particle.update_position(10_000);
    s.particle.move_by(v(500_000, 0, 0));
    let cube = CubeContainer::new(v(0, 0, 0), v(1_000_000, 1_000_000, 1_000_000), true);
    cube.collide_with(&mut s);
    ContainerShape::Cube(cube).collide_with(&mut s);
    let mut other = Sphere::new(1, start, 150_000, v(0, 0, 0), v(0, 0, 0), false);
    s.collide_with_sphere(&mut other);
    assert_eq!(s.particle.position, start);
    assert_eq!(other.particle.position, v(850_000, 2_000_000, -3_000_000));
}

#[test]
fn move_by_saturates_at_world_face() {
    let mut p = Particle::new(0, v(WORLD_LIMIT - 5, 0, 0), v(0, 0, 0), v(0, 0, 0), false);
    p.move_by(v(100, -7, i64::MIN));
    assert_eq!(p.position, v(WORLD_LIMIT, -7, -WORLD_LIMIT));
}

#[test]
fn add_offset_moves_history_too() {
    let mut p = Particle::new(0, v(1, 2, 3), v(0, 0, 0), v(0, 0, 0), true);
    p.add_offset(v(10, 20, 30));
    assert_eq!(p.position, v(11, 22, 33));
    assert_eq!(p.previous_position, v(11, 22, 33));
}

#[test]
fn add_offset_keeps_velocity() {
    let mut p = Particle::new(0, v(0, 0, 0), v(0, 0, 0), v(0, 0, 0), false);
    p.position = v(1, 0, 0);
    p.add_offset(v(1, 0, 0));
    assert_eq!(p.position, v(2, 0, 0));
    assert_eq!(p.previous_position, v(1, 0, 0));
}

#[test]
fn overlapping_spheres_separate_to_touching() {
    let mut a = Sphere::new(0, v(0, 0, 0), 150_000, v(0, 0, 0), v(0, 0, 0), false);
    let mut b = Sphere::new(1, v(200_000, 0, 0), 150_000, v(0, 0, 0), v(0, 0, 0), false);
    a.collide_with_sphere(&mut b);
    assert_eq!(a.particle.position, v(-50_000, 0, 0));
    assert_eq!(b.particle.position, v(250_000, 0, 0));
    let gap = b.particle.position.sub(a.particle.position).norm();
    assert_eq!(gap, 300_000);
}

#[test]
fn diagonal_overlap_separates_within_rounding() {
    let mut a = Sphere::new(0, v(0, 0, 0), 1_000_000, v(0, 0, 0), v(0, 0, 0), false);
    let mut b = Sphere::new(1, v(300_000, 400_000, 0), 1_000_000, v(0, 0, 0), v(0, 0, 0), false);
    a.collide_with_sphere(&mut b);
    // distance 500_000, overlap 1_500_000: each centre moves by 750_000 along the axis
    assert_eq!(a.particle.position, v(-450_000, -600_000, 0));
    assert_eq!(b.particle.position, v(750_000, 1_000_000, 0));
    let gap = b.particle.position.sub(a.particle.position).norm();
    assert_eq!(gap, 2_000_000);
}

#[test]
fn coincident_spheres_separate_along_x() {
    let mut a = Sphere::new(0, v(5, 5, 5), 100_000, v(0, 0, 0), v(0, 0, 0), false);
    let mut b = Sphere::new(1, v(5, 5, 5), 100_000, v(0, 0, 0), v(0, 0, 0), false);
    a.collide_with_sphere(&mut b);
    assert_eq!(a.particle.position, v(100_005, 5, 5));
    assert_eq!(b.particle.position, v(-99_995, 5, 5));
}

#[test]
fn separate_spheres_are_untouched() {
    let mut a = Sphere::new(0, v(0, 0, 0), 150_000, v(0, 0, 0), v(0, 0, 0), false);
    let mut b = Sphere::new(1, v(300_000, 0, 0), 150_000, v(0, 0, 0), v(0, 0, 0), false);
    a.collide_with_sphere(&mut b);
    assert_eq!(a.particle.position, v(0, 0, 0));
    assert_eq!(b.particle.position, v(300_000, 0, 0));
}

#[test]
fn integer_square_root_rounds_down() {
    assert_eq!(isqrt(0), 0);
    assert_eq!(isqrt(1), 1);
    assert_eq!(isqrt(24), 4);
    assert_eq!(isqrt(25), 5);
    assert_eq!(isqrt(1_000_000_000_000), 1_000_000);
}

#[test]
fn constructor_saturates_into_world() {
    let p = Particle::new(7, v(i64::MAX, 0, i64::MIN), v(1, 2, 3), v(0, 0, 0), false);
    assert_eq!(p.id, 7);
    assert_eq!(p.position, v(WORLD_LIMIT, 0, -WORLD_LIMIT));
    assert_eq!(p.previous_position, p.position);
    assert_eq!(p.velocity, v(1, 2, 3));
    assert!(p.updating_enabled);
}

#[test]
fn sphere_level_operations_reach_the_particle() {
    let mut s = Sphere::new(3, v(0, 0, 0), 100_000, v(0, 0, 0), v(0, 0, 0), false);
    s.add_force(v(0, 2 * SCALE, 0));
    s.update_position(1_000_000);
    assert_eq!(s.get_position(), v(0, 2 * SCALE, 0));
    s.move_by(v(1, 1, 1));
    assert_eq!(s.get_position(), v(1, 2 * SCALE + 1, 1));
    s.add_offset(v(-1, 0, 0));
    assert_eq!(s.get_position(), v(0, 2 * SCALE + 1, 1));
    assert_eq!(s.particle.previous_position, v(-1, 0, 0));
    s.set_updating_enabled(false);
    assert!(!s.particle.updating_enabled);
    s.set_position(v(i64::MAX, 0, 0));
    assert_eq!(s.get_position(), v(WORLD_LIMIT, 0, 0));
    let cube = ContainerShape::Cube(CubeContainer::new(v(0, 0, 0), v(1_000_000, 1_000_000, 1_000_000), true));
    s.collide_with_container(&cube);
    assert_eq!(s.get_position(), v(400_000, 0, 0));
}

#[test]
fn vector_helpers() {
    assert_eq!(Vec3::zero(), v(0, 0, 0));
    assert_eq!(v(1, -2, 3).neg(), v(-1, 2, -3));
    assert_eq!(v(5, 5, 5).sub(v(1, 2, 3)), v(4, 3, 2));
    assert_eq!(v(WORLD_LIMIT, 0, 0).add_clamped(v(1, -1, 0)), v(WORLD_LIMIT, -1, 0));
    assert_eq!(v(i64::MIN, 7, i64::MAX).clamped(), v(-WORLD_LIMIT, 7, WORLD_LIMIT));
    assert_eq!(v(3, 4, 12).norm_squared(), 169);
    assert_eq!(v(3, 4, 12).norm(), 13);
    assert_eq!(v(1, 1, 1).norm(), 1);
}
